use vstd::prelude::*;
use crate::common::{ItemList, ListV, list_view_seq, list_wf, PagingRequest, SortRequest, SortReqV};
use crate::rollups::{compute_rollup_values, entries_view, spec_rollups};
use crate::selector::{list_matches, matches_selector, ListSelector, SelectorV};
use crate::sorting::{lemma_spec_sort_contains, sort_list_of_lists, spec_sort};

verus! {

// ---------------------------------------------------------------------------
// The pipeline, specified
// ---------------------------------------------------------------------------

/// What survives of one list on its way out: attributes kept or emptied, and
/// rollups computed over its items or absent.
pub open spec fn transform_list(l: ListV, return_attributes: bool, return_rollups: bool) -> ListV {
    ListV {
        attributes: if return_attributes {
            l.attributes
        } else {
            Seq::empty()
        },
        rollups: if return_rollups {
            Some(spec_rollups(l.items.unwrap()).unwrap())
        } else {
            None
        },
        ..l
    }
}

/// The positional window `[start, end)` is cut from the sorted, unfiltered
/// candidates, and only then filtered: the page truncates the raw scan, not
/// the filtered result.
pub open spec fn page_filter(sorted: Seq<ListV>, sel: SelectorV, start: int, end: int) -> Seq<
    ListV,
> {
    sorted.subrange(start, end).filter(|l: ListV| matches_selector(l, sel))
}

/// The whole query pipeline: empty when no rows are asked or the start lies
/// beyond the candidates; otherwise sort, cut the window, filter, transform.
pub open spec fn spec_pipeline(
    lists: Seq<ListV>,
    sel: SelectorV,
    paging: PagingRequest,
    sort: SortReqV,
    return_attributes: bool,
    return_rollups: bool,
) -> Seq<ListV> {
    if paging.rows == 0 || paging.start >= lists.len() {
        Seq::empty()
    } else {
        let end = if paging.start + paging.rows <= lists.len() {
            paging.start + paging.rows
        } else {
            lists.len() as int
        };
        page_filter(spec_sort(lists, sort), sel, paging.start as int, end).map_values(
            |l: ListV| transform_list(l, return_attributes, return_rollups),
        )
    }
}

/// What the pipeline asks of its input: well-formed lists, and each list the
/// selector admits hydrated with items whose aggregates stay in range.
pub open spec fn pipeline_input_ok(lists: Seq<ListV>, sel: SelectorV, return_rollups: bool)
    -> bool {
    &&& forall|i: int| 0 <= i < lists.len() ==> list_wf(#[trigger] lists[i])
    &&& forall|l: ListV| #[trigger] lists.contains(l) && matches_selector(l, sel) ==> l.items
        is Some
    &&& return_rollups ==> forall|l: ListV| #[trigger] lists.contains(l) && matches_selector(
        l,
        sel,
    ) ==> spec_rollups(l.items.unwrap()) is Some
}

// ---------------------------------------------------------------------------
// The provider seam
// ---------------------------------------------------------------------------

/// A source of query results. The library's own provider runs the verified
/// pipeline over the candidates it is handed; a caller may stand in with a
/// provider of its own, whose `post` names whatever it promises.
pub trait ListProvider {
    /// What a provider asks of the query; a provider that asks nothing
    /// leaves the default.
    open spec fn input_ok(&self, lists: Seq<ListV>, sel: SelectorV, return_rollups: bool)
        -> bool {
        true
    }

    /// What a provider promises of its result; a provider that promises
    /// nothing leaves the default.
    open spec fn post(
        &self,
        lists: Seq<ListV>,
        sel: SelectorV,
        paging: PagingRequest,
        sort: SortReqV,
        return_attributes: bool,
        return_rollups: bool,
        out: Seq<ListV>,
    ) -> bool {
        true
    }

    fn retrieve_lists(
        &self,
        lists: Vec<ItemList>,
        selector: ListSelector,
        paging: PagingRequest,
        sort: SortRequest,
        return_attributes: bool,
        return_rollups: bool,
    ) -> (out: Vec<ItemList>)
        requires
            self.input_ok(list_view_seq(lists@), selector@, return_rollups),
        ensures
            self.post(
                list_view_seq(lists@),
                selector@,
                paging,
                sort@,
                return_attributes,
                return_rollups,
                list_view_seq(out@),
            ),
    ;
}

/// The library's query service: sorts, filters, pages and aggregates the
/// candidate lists it is handed.
pub struct ListOfListsService();

impl ListProvider for ListOfListsService {
    open spec fn input_ok(&self, lists: Seq<ListV>, sel: SelectorV, return_rollups: bool)
        -> bool {
        pipeline_input_ok(lists, sel, return_rollups)
    }

    open spec fn post(
        &self,
        lists: Seq<ListV>,
        sel: SelectorV,
        paging: PagingRequest,
        sort: SortReqV,
        return_attributes: bool,
        return_rollups: bool,
        out: Seq<ListV>,
    ) -> bool {
        out == spec_pipeline(lists, sel, paging, sort, return_attributes, return_rollups)
    }

    fn retrieve_lists(
        &self,
        lists: Vec<ItemList>,
        selector: ListSelector,
        paging: PagingRequest,
        sort: SortRequest,
        return_attributes: bool,
        return_rollups: bool,
    ) -> (out: Vec<ItemList>) {
        retrieve_lists_from(lists, &selector, paging, &sort, return_attributes, return_rollups)
    }
}

// ---------------------------------------------------------------------------
// The pipeline, executed
// ---------------------------------------------------------------------------

/// Runs the query pipeline over the candidate lists: the result is exactly
/// `spec_pipeline` of the input. Asking zero rows or starting at or past the
/// end yields nothing.
pub fn retrieve_lists_from(
    lists: Vec<ItemList>,
    selector: &ListSelector,
    paging: PagingRequest,
    sort: &SortRequest,
    return_attributes: bool,
    return_rollups: bool,
) -> (out: Vec<ItemList>)
    requires
        pipeline_input_ok(list_view_seq(lists@), selector@, return_rollups),
    ensures
        list_view_seq(out@) == spec_pipeline(
            list_view_seq(lists@),
            selector@,
            paging,
            sort@,
            return_attributes,
            return_rollups,
        ),
        paging.rows == 0 || paging.start >= list_view_seq(lists@).len() ==> out@.len() == 0,
{
    let ghost lv = list_view_seq(lists@);
    let n = lists.len();
    if paging.rows == 0 || paging.start >= n as u64 {
        let out: Vec<ItemList> = Vec::new();
        proof {
            assert(list_view_seq(out@) =~= Seq::<ListV>::empty());
        }
        return out;
    }
    let start: usize = paging.start as usize;
    let end: usize = if paging.rows >= (n as u64 - paging.start) {
        n
    } else {
        paging.start as usize + paging.rows as usize
    };
    let ghost sel = selector@;
    let ghost pred = |l: ListV| matches_selector(l, sel);
    proof {
        assert(forall|t: int| 0 <= t < lists@.len() ==> list_wf((#[trigger] lists@[t])@)) by {
            assert(forall|t: int| 0 <= t < lists@.len() ==> (#[trigger] lists@[t])@ == lv[t]);
        }
    }
    let sorted = sort_list_of_lists(lists, sort);
    let ghost sv = spec_sort(lv, sort@);
    proof {
        crate::sorting::lemma_spec_sort_len(lv, sort@);
    }
    let mut rest = sorted;
    let mut out: Vec<ItemList> = Vec::new();
    let mut i: usize = 0;
    proof {
        assert(list_view_seq(rest@) =~= sv.skip(0));
        assert(list_view_seq(out@) =~= Seq::<ListV>::empty());
    }
    while i < end
        invariant
            start < n,
            i <= end <= n,
            start + 1 <= end,
            n == lv.len(),
            sv == spec_sort(lv, sort@),
            sv.len() == lv.len(),
            sel == selector@,
            pred == (|l: ListV| matches_selector(l, sel)),
            pipeline_input_ok(lv, sel, return_rollups),
            list_view_seq(rest@) == sv.skip(i as int),
            forall|t: int| 0 <= t < rest@.len() ==> list_wf((#[trigger] rest@[t])@),
            i <= start ==> list_view_seq(out@) == Seq::<ListV>::empty(),
            i > start ==> list_view_seq(out@) == sv.subrange(start as int, i as int).filter(
                pred,
            ).map_values(|l: ListV| transform_list(l, return_attributes, return_rollups)),
        decreases end - i,
    {
        let ghost before = rest@;
        proof {
            assert(list_view_seq(before).len() == before.len());
            assert(sv.skip(i as int).len() == sv.len() - i);
        }
        let mut item_list = rest.remove(0);
        let ghost cur = sv[i as int];
        proof {
            assert(list_view_seq(before)[0] == before[0]@);
            assert(sv.skip(i as int)[0] == sv[i as int]);
            assert(item_list@ == cur);
            assert(rest@ =~= before.remove(0));
            assert(list_view_seq(rest@) =~= sv.skip(i + 1)) by {
                assert(forall|t: int| 0 <= t < rest@.len() ==> rest@[t] == before[t + 1]);
                assert(forall|t: int| 0 <= t < rest@.len() ==> #[trigger] sv.skip(i + 1)[t]
                    == sv[i + 1 + t] && sv.skip(i as int)[t + 1] == sv[i + 1 + t]);
            }
            assert(list_wf(cur));
            lemma_spec_sort_contains(lv, sort@, cur);
            assert(sv.contains(cur)) by {
                assert(sv[i as int] == cur);
            }
        }
        let mut selected: bool = i >= start;
        if selected {
            selected = list_matches(&item_list, selector);
        }
        if selected {
            proof {
                assert(matches_selector(cur, sel));
                assert(cur.items is Some);
                if return_rollups {
                    assert(spec_rollups(cur.items.unwrap()) is Some);
                }
            }
            if !return_attributes {
                item_list.attributes = Vec::new();
            }
            let computed = match &item_list.items {
                Some(il_i) => {
                    proof {
                        assert(crate::common::item_view_seq(il_i@) == cur.items.unwrap());
                        assert(forall|t: int| 0 <= t < il_i@.len()
                            ==> crate::common::item_wf((#[trigger] il_i@[t])@)) by {
                            assert(forall|t: int| 0 <= t < il_i@.len()
                                ==> (#[trigger] il_i@[t])@ == cur.items.unwrap()[t]);
                        }
                    }
                    compute_rollup_values(return_rollups, il_i)
                },
                None => {
                    proof {
                        assert(false);
                    }
                    vstd::pervasive::unreached()
                },
            };
            item_list.rollups = computed;
            proof {
                assert(item_list@ == transform_list(cur, return_attributes, return_rollups)) by {
                    if !return_attributes {
                        assert(crate::common::attrs_view(Seq::empty()) =~= Seq::<(
                            Seq<char>,
                            crate::common::AttrV,
                        )>::empty());
                    }
                    match computed {
                        Some(v) => {
                            assert(item_list@.rollups == Some(entries_view(v@)));
                        },
                        None => {},
                    }
                    assert(item_list@ =~= transform_list(cur, return_attributes, return_rollups));
                }
            }
            let ghost out_before = list_view_seq(out@);
            out.push(item_list);
            proof {
                reveal(Seq::filter);
                let w0 = sv.subrange(start as int, i as int);
                let w1 = sv.subrange(start as int, i + 1);
                assert(w1.drop_last() =~= w0);
                assert(w1.last() == cur);
                assert(w1.filter(pred) == w0.filter(pred).push(cur));
                if i == start {
                    assert(w0 =~= Seq::<ListV>::empty());
                    assert(w0.filter(pred) =~= Seq::<ListV>::empty());
                    assert(out_before =~= Seq::<ListV>::empty());
                }
                assert(list_view_seq(out@) =~= out_before.push(item_list@));
                assert(list_view_seq(out@) =~= w1.filter(pred).map_values(
                    |l: ListV| transform_list(l, return_attributes, return_rollups),
                ));
            }
        } else {
            proof {
                if i >= start {
                    reveal(Seq::filter);
                    let w0 = sv.subrange(start as int, i as int);
                    let w1 = sv.subrange(start as int, i + 1);
                    assert(w1.drop_last() =~= w0);
                    assert(w1.last() == cur);
                    assert(!pred(cur));
                    assert(w1.filter(pred) == w0.filter(pred));
                    if i == start {
                        assert(w0 =~= Seq::<ListV>::empty());
                        assert(w0.filter(pred) =~= Seq::<ListV>::empty());
                        assert(list_view_seq(out@) =~= w1.filter(pred).map_values(
                            |l: ListV| transform_list(l, return_attributes, return_rollups),
                        ));
                    }
                }
            }
        }
        i += 1;
    }
    proof {
        assert(i == end);
        assert(end > start);
        let endi = if paging.start + paging.rows <= lv.len() {
            paging.start + paging.rows
        } else {
            lv.len() as int
        };
        assert(end as int == endi);
        assert(list_view_seq(out@) == spec_pipeline(
            lv,
            sel,
            paging,
            sort@,
            return_attributes,
            return_rollups,
        ));
    }
    out
}

// ---------------------------------------------------------------------------
// Laws
// ---------------------------------------------------------------------------

/// Pagination composes with filtering by truncating the raw scan: the output
/// is the filter applied to the positional window of the sorted candidates,
/// never a window of the filtered candidates. A page may therefore carry
/// fewer matches than it has rows while later candidates still match.
pub proof fn lemma_pagination_truncates_scan(
    lists: Seq<ListV>,
    sel: SelectorV,
    paging: PagingRequest,
    sort: SortReqV,
    return_attributes: bool,
    return_rollups: bool,
)
    requires
        paging.rows > 0,
        paging.start < lists.len(),
    ensures
        spec_pipeline(lists, sel, paging, sort, return_attributes, return_rollups)
            == spec_sort(lists, sort).subrange(
            paging.start as int,
            if paging.start + paging.rows <= lists.len() {
                paging.start + paging.rows
            } else {
                lists.len() as int
            },
        ).filter(|l: ListV| matches_selector(l, sel)).map_values(
            |l: ListV| transform_list(l, return_attributes, return_rollups),
        ),
{
}

/// An element of a filtered sequence is an element of the sequence.
proof fn lemma_filter_member(s: Seq<ListV>, pred: spec_fn(ListV) -> bool, i: int)
    requires
        0 <= i < s.filter(pred).len(),
    ensures
        s.contains(s.filter(pred)[i]),
    decreases s.len(),
{
    reveal(Seq::filter);
    if s.len() > 0 {
        let d = s.drop_last();
        let x = s.filter(pred)[i];
        if pred(s.last()) && i == s.filter(pred).len() - 1 {
            assert(x == s.last());
            assert(s[s.len() - 1] == x);
        } else {
            assert(d.filter(pred)[i] == x);
            lemma_filter_member(d, pred, i);
            let j = choose|j: int| 0 <= j < d.len() && d[j] == x;
            assert(s[j] == x);
        }
    }
}

/// Filtering is a conjunction of necessary conditions: every output entry
/// is the transform of a candidate list that satisfies every active
/// constraint of the selector.
pub proof fn lemma_output_only_matching(
    lists: Seq<ListV>,
    sel: SelectorV,
    paging: PagingRequest,
    sort: SortReqV,
    return_attributes: bool,
    return_rollups: bool,
    i: int,
)
    requires
        0 <= i < spec_pipeline(lists, sel, paging, sort, return_attributes, return_rollups).len(),
    ensures
        exists|l: ListV|
            {
                &&& #[trigger] lists.contains(l)
                &&& matches_selector(l, sel)
                &&& spec_pipeline(lists, sel, paging, sort, return_attributes, return_rollups)[i]
                    == transform_list(l, return_attributes, return_rollups)
            },
{
    let out = spec_pipeline(lists, sel, paging, sort, return_attributes, return_rollups);
    let pred = |l: ListV| matches_selector(l, sel);
    let sorted = spec_sort(lists, sort);
    let end = if paging.start + paging.rows <= lists.len() {
        paging.start + paging.rows
    } else {
        lists.len() as int
    };
    let win = sorted.subrange(paging.start as int, end);
    let pf = win.filter(pred);
    assert(out == pf.map_values(
        |l: ListV| transform_list(l, return_attributes, return_rollups),
    ));
    assert(out[i] == transform_list(pf[i], return_attributes, return_rollups));
    win.lemma_filter_pred(pred, i);
    lemma_filter_member(win, pred, i);
    let j = choose|j: int| 0 <= j < win.len() && win[j] == pf[i];
    crate::sorting::lemma_spec_sort_len(lists, sort);
    assert(sorted[paging.start + j] == pf[i]);
    assert(sorted.contains(pf[i]));
    lemma_spec_sort_contains(lists, sort, pf[i]);
    assert(lists.contains(pf[i]) && matches_selector(pf[i], sel) && out[i] == transform_list(
        pf[i],
        return_attributes,
        return_rollups,
    ));
}

/// The empty-page edges, for any sort and filter: zero rows yields nothing,
/// and so does a start at or past the number of candidates.
pub proof fn lemma_empty_paging(
    lists: Seq<ListV>,
    sel: SelectorV,
    paging: PagingRequest,
    sort: SortReqV,
    return_attributes: bool,
    return_rollups: bool,
)
    requires
        paging.rows == 0 || paging.start >= lists.len(),
    ensures
        spec_pipeline(lists, sel, paging, sort, return_attributes, return_rollups)
            == Seq::<ListV>::empty(),
{
}

} // verus!
