use vstd::prelude::*;
use crate::common::{
    ErrorV, ItemList, ListManagementError, ListV, list_view_seq, PagingRequest, SortKey, SortKeyV,
    SortRequest, SortReqV,
};
use crate::decimal::{dec_digits, u64_string};
use crate::list_of_lists_service::ListProvider;
use crate::selector::ListSelector;
use crate::selector::SelectorV;

verus! {

/// The selector a single-list lookup uses: the one not-deleted, writable
/// list with the given id.
pub open spec fn retrieve_list_selector(id: u64) -> SelectorV {
    SelectorV {
        limit_show_read_only: false,
        limit_list_types: Seq::empty(),
        limit_list_access: Seq::empty(),
        limit_show_deleted: false,
        limit_show_not_deleted: true,
        limit_in_folders: Seq::empty(),
        limit_name_keywords: None,
        limit_list_ids: seq![id],
    }
}

pub open spec fn retrieve_list_paging() -> PagingRequest {
    PagingRequest { start: 0, rows: 1 }
}

pub open spec fn retrieve_list_sort() -> SortReqV {
    SortReqV { descending: false, key: SortKeyV::Id }
}

/// Looks one list up by id through a provider: the first list the provider
/// returns for the lookup query, or a typed not-found error naming the id
/// when it returns none.
pub fn retrieve_list<P: ListProvider>(provider: &P, lists: Vec<ItemList>, id: u64) -> (r: Result<
    ItemList,
    ListManagementError,
>)
    requires
        provider.input_ok(list_view_seq(lists@), retrieve_list_selector(id), true),
    ensures
        exists|outv: Seq<ListV>|
            {
                &&& #[trigger] provider.post(
                    list_view_seq(lists@),
                    retrieve_list_selector(id),
                    retrieve_list_paging(),
                    retrieve_list_sort(),
                    true,
                    true,
                    outv,
                )
                &&& match r {
                    Ok(l) => outv.len() > 0 && l@ == outv[0],
                    Err(e) => outv.len() == 0 && e@ == ErrorV::NotFound(dec_digits(id as int)),
                }
            },
{
    let mut ids: Vec<u64> = Vec::new();
    ids.push(id);
    let selector = ListSelector {
        limit_show_read_only: false,
        limit_list_types: Vec::new(),
        limit_list_access: Vec::new(),
        limit_show_deleted: false,
        limit_show_not_deleted: true,
        limit_in_folders: Vec::new(),
        limit_name_keywords: None,
        limit_list_ids: ids,
    };
    proof {
        assert(selector@ =~= retrieve_list_selector(id));
    }
    let paging = PagingRequest { start: 0, rows: 1 };
    let sort = SortRequest { descending: false, key: SortKey::Id };
    proof {
        assert(sort@ =~= retrieve_list_sort());
        assert(paging == retrieve_list_paging());
    }
    let mut found = provider.retrieve_lists(lists, selector, paging, sort, true, true);
    let ghost outv = list_view_seq(found@);
    let ghost before = found@;
    proof {
        assert(provider.post(
            list_view_seq(lists@),
            retrieve_list_selector(id),
            retrieve_list_paging(),
            retrieve_list_sort(),
            true,
            true,
            outv,
        ));
    }
    if found.len() == 0 {
        proof {
            assert(outv.len() == 0);
        }
        Err(ListManagementError::NotFound(u64_string(id)))
    } else {
        let first = found.remove(0);
        proof {
            assert(outv[0] == before[0]@);
            assert(outv[0] == first@);
        }
        Ok(first)
    }
}

} // verus!
