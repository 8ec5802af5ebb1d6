use vstd::prelude::*;
use crate::common::{ItemList, ListAccess, ListType, ListV};
use crate::text::{
    chars_eq, chars_of, chars_prefix, is_prefix, lower_seq, str_eq, sub_chars, tokenize_lower,
    tokens,
};

verus! {

// ---------------------------------------------------------------------------
// The selector
// ---------------------------------------------------------------------------

/// The filter configuration: every active constraint must hold of a list for
/// it to be selected.
#[derive(Clone, Debug)]
pub struct ListSelector {
    pub limit_show_read_only: bool,
    pub limit_list_types: Vec<ListType>,
    pub limit_list_access: Vec<ListAccess>,
    pub limit_show_deleted: bool,
    pub limit_show_not_deleted: bool,
    pub limit_in_folders: Vec<String>,
    pub limit_name_keywords: Option<String>,
    pub limit_list_ids: Vec<u64>,
}

#[verifier::ext_equal]
pub struct SelectorV {
    pub limit_show_read_only: bool,
    pub limit_list_types: Seq<ListType>,
    pub limit_list_access: Seq<ListAccess>,
    pub limit_show_deleted: bool,
    pub limit_show_not_deleted: bool,
    pub limit_in_folders: Seq<Seq<char>>,
    pub limit_name_keywords: Option<Seq<char>>,
    pub limit_list_ids: Seq<u64>,
}

impl View for ListSelector {
    type V = SelectorV;

    open spec fn view(&self) -> SelectorV {
        SelectorV {
            limit_show_read_only: self.limit_show_read_only,
            limit_list_types: self.limit_list_types@,
            limit_list_access: self.limit_list_access@,
            limit_show_deleted: self.limit_show_deleted,
            limit_show_not_deleted: self.limit_show_not_deleted,
            limit_in_folders: self.limit_in_folders@.map_values(|s: String| s@),
            limit_name_keywords: match self.limit_name_keywords {
                Some(ref s) => Some(s@),
                None => None,
            },
            limit_list_ids: self.limit_list_ids@,
        }
    }
}

// ---------------------------------------------------------------------------
// What it means to match
// ---------------------------------------------------------------------------

/// The two deleted flags act as independent inclusion gates over the
/// deleted / not-deleted partition.
pub open spec fn deleted_gate(l: ListV, sel: SelectorV) -> bool {
    (sel.limit_show_not_deleted || l.deleted) && (sel.limit_show_deleted || !l.deleted)
}

pub open spec fn read_only_ok(l: ListV, sel: SelectorV) -> bool {
    sel.limit_show_read_only || !l.read_only
}

pub open spec fn access_ok(l: ListV, sel: SelectorV) -> bool {
    sel.limit_list_access.len() == 0 || sel.limit_list_access.contains(l.list_access)
}

pub open spec fn type_ok(l: ListV, sel: SelectorV) -> bool {
    sel.limit_list_types.len() == 0 || sel.limit_list_types.contains(l.list_type)
}

pub open spec fn folder_ok(l: ListV, sel: SelectorV) -> bool {
    sel.limit_in_folders.len() == 0 || sel.limit_in_folders.contains(l.folder)
}

pub open spec fn id_ok(l: ListV, sel: SelectorV) -> bool {
    sel.limit_list_ids.len() == 0 || (l.id is Some && sel.limit_list_ids.contains(l.id.unwrap()))
}

/// The lowercased whitespace tokens of a name, the shape the keyword filter
/// compares on.
pub open spec fn name_tokens_lower(name: Seq<char>) -> Seq<Seq<char>> {
    tokens(name).map_values(|t: Seq<char>| lower_seq(t))
}

/// One keyword token is satisfied: a trailing `*` (on a token longer than the
/// star alone) asks for a prefix match, anything else for an exact token.
pub open spec fn token_found(name_toks: Seq<Seq<char>>, kw: Seq<char>) -> bool {
    if kw.len() > 1 && kw.last() == '*' {
        exists|i: int| 0 <= i < name_toks.len() && is_prefix(kw.drop_last(), #[trigger] name_toks[i])
    } else {
        name_toks.contains(kw)
    }
}

/// Every keyword token must be satisfied (AND semantics); no keyword string
/// means no constraint.
pub open spec fn keywords_ok(l: ListV, sel: SelectorV) -> bool {
    match sel.limit_name_keywords {
        None => true,
        Some(kws) => {
            let nts = name_tokens_lower(l.name);
            let kts = name_tokens_lower(kws);
            forall|i: int| 0 <= i < kts.len() ==> token_found(nts, #[trigger] kts[i])
        },
    }
}

/// The selector's verdict on one list: the conjunction of all its
/// constraints, each evaluated independently of ordering.
pub open spec fn matches_selector(l: ListV, sel: SelectorV) -> bool {
    &&& deleted_gate(l, sel)
    &&& read_only_ok(l, sel)
    &&& access_ok(l, sel)
    &&& type_ok(l, sel)
    &&& folder_ok(l, sel)
    &&& id_ok(l, sel)
    &&& keywords_ok(l, sel)
}

// ---------------------------------------------------------------------------
// Laws
// ---------------------------------------------------------------------------

/// `w` constrains no more than `s`: each flag admits at least as much, and
/// each set constraint is either the same or switched off.
pub open spec fn selector_weaker(w: SelectorV, s: SelectorV) -> bool {
    &&& (s.limit_show_read_only ==> w.limit_show_read_only)
    &&& (s.limit_show_deleted ==> w.limit_show_deleted)
    &&& (s.limit_show_not_deleted ==> w.limit_show_not_deleted)
    &&& (w.limit_list_access == s.limit_list_access || w.limit_list_access.len() == 0)
    &&& (w.limit_list_types == s.limit_list_types || w.limit_list_types.len() == 0)
    &&& (w.limit_in_folders == s.limit_in_folders || w.limit_in_folders.len() == 0)
    &&& (w.limit_list_ids == s.limit_list_ids || w.limit_list_ids.len() == 0)
    &&& (w.limit_name_keywords == s.limit_name_keywords || w.limit_name_keywords is None)
}

/// Filtering is a conjunction of independent constraints: a list that passes
/// a selector passes every selector that switches constraints off, so the
/// selected set only grows as constraints are disabled.
pub proof fn lemma_filter_and_monotone(l: ListV, s: SelectorV, w: SelectorV)
    requires
        selector_weaker(w, s),
        matches_selector(l, s),
    ensures
        matches_selector(l, w),
{
}

/// The deleted / not-deleted gates taken alone: `(false, true)` admits
/// exactly the not-deleted lists, `(true, false)` exactly the deleted ones,
/// both `false` nothing, both `true` everything.
pub proof fn lemma_deleted_gate(l: ListV, sel: SelectorV)
    ensures
        (!sel.limit_show_deleted && sel.limit_show_not_deleted) ==> (deleted_gate(l, sel)
            <==> !l.deleted),
        (sel.limit_show_deleted && !sel.limit_show_not_deleted) ==> (deleted_gate(l, sel)
            <==> l.deleted),
        (!sel.limit_show_deleted && !sel.limit_show_not_deleted) ==> !deleted_gate(l, sel),
        (sel.limit_show_deleted && sel.limit_show_not_deleted) ==> deleted_gate(l, sel),
{
}

/// With every other constraint inactive, the whole selector verdict is the
/// deleted gate alone.
pub proof fn lemma_deleted_gate_decides(l: ListV, sel: SelectorV)
    requires
        sel.limit_show_read_only,
        sel.limit_list_access.len() == 0,
        sel.limit_list_types.len() == 0,
        sel.limit_in_folders.len() == 0,
        sel.limit_list_ids.len() == 0,
        sel.limit_name_keywords is None,
    ensures
        matches_selector(l, sel) <==> deleted_gate(l, sel),
{
}

// ---------------------------------------------------------------------------
// The executable filter
// ---------------------------------------------------------------------------

fn contains_access(v: &Vec<ListAccess>, x: ListAccess) -> (r: bool)
    ensures
        r == v@.contains(x),
{
    let mut i: usize = 0;
    while i < v.len()
        invariant
            i <= v@.len(),
            forall|k: int| 0 <= k < i ==> v@[k] != x,
        decreases v@.len() - i,
    {
        if v[i] == x {
            return true;
        }
        i += 1;
    }
    false
}

fn contains_type(v: &Vec<ListType>, x: ListType) -> (r: bool)
    ensures
        r == v@.contains(x),
{
    let mut i: usize = 0;
    while i < v.len()
        invariant
            i <= v@.len(),
            forall|k: int| 0 <= k < i ==> v@[k] != x,
        decreases v@.len() - i,
    {
        if v[i] == x {
            return true;
        }
        i += 1;
    }
    false
}

fn contains_u64(v: &Vec<u64>, x: u64) -> (r: bool)
    ensures
        r == v@.contains(x),
{
    let mut i: usize = 0;
    while i < v.len()
        invariant
            i <= v@.len(),
            forall|k: int| 0 <= k < i ==> v@[k] != x,
        decreases v@.len() - i,
    {
        if v[i] == x {
            return true;
        }
        i += 1;
    }
    false
}

fn contains_string(v: &Vec<String>, x: &str) -> (r: bool)
    ensures
        r == v@.map_values(|s: String| s@).contains(x@),
{
    let ghost m = v@.map_values(|s: String| s@);
    let mut i: usize = 0;
    while i < v.len()
        invariant
            i <= v@.len(),
            m == v@.map_values(|s: String| s@),
            forall|k: int| 0 <= k < i ==> m[k] != x@,
        decreases v@.len() - i,
    {
        if str_eq(v[i].as_str(), x) {
            proof {
                assert(m[i as int] == x@);
            }
            return true;
        }
        i += 1;
    }
    false
}

/// Whether one keyword token is satisfied by the name tokens.
fn keyword_token_found(nts: &Vec<Vec<char>>, kw: &Vec<char>) -> (r: bool)
    ensures
        r == token_found(nts@.map_values(|t: Vec<char>| t@), kw@),
{
    let ghost ntv = nts@.map_values(|t: Vec<char>| t@);
    let star = kw.len() > 1 && kw[kw.len() - 1] == '*';
    proof {
        assert(star == (kw@.len() > 1 && kw@.last() == '*'));
    }
    if star {
        let pre = sub_chars(kw, 0, kw.len() - 1);
        proof {
            assert(pre@ =~= kw@.drop_last());
        }
        let mut i: usize = 0;
        while i < nts.len()
            invariant
                i <= nts@.len(),
                ntv == nts@.map_values(|t: Vec<char>| t@),
                pre@ == kw@.drop_last(),
                star == (kw@.len() > 1 && kw@.last() == '*'),
                star,
                forall|k: int| 0 <= k < i ==> !is_prefix(kw@.drop_last(), #[trigger] ntv[k]),
            decreases nts@.len() - i,
        {
            if chars_prefix(&pre, &nts[i]) {
                proof {
                    assert(is_prefix(kw@.drop_last(), ntv[i as int]));
                }
                return true;
            }
            i += 1;
        }
        false
    } else {
        let mut i: usize = 0;
        while i < nts.len()
            invariant
                i <= nts@.len(),
                ntv == nts@.map_values(|t: Vec<char>| t@),
                forall|k: int| 0 <= k < i ==> ntv[k] != kw@,
            decreases nts@.len() - i,
        {
            if chars_eq(&nts[i], kw) {
                proof {
                    assert(ntv[i as int] == kw@);
                }
                return true;
            }
            i += 1;
        }
        false
    }
}

/// The selector's verdict on one list.
pub fn list_matches(l: &ItemList, sel: &ListSelector) -> (r: bool)
    ensures
        r == matches_selector(l@, sel@),
{
    if !(sel.limit_show_not_deleted || l.deleted) {
        return false;
    }
    if !(sel.limit_show_deleted || !l.deleted) {
        return false;
    }
    if !(sel.limit_show_read_only || !l.read_only) {
        return false;
    }
    if sel.limit_list_access.len() > 0 && !contains_access(&sel.limit_list_access, l.list_access) {
        return false;
    }
    if sel.limit_list_types.len() > 0 && !contains_type(&sel.limit_list_types, l.list_type) {
        return false;
    }
    if sel.limit_in_folders.len() > 0 && !contains_string(&sel.limit_in_folders, l.folder.as_str())
    {
        return false;
    }
    if sel.limit_list_ids.len() > 0 {
        match l.id {
            None => {
                return false;
            },
            Some(id) => {
                if !contains_u64(&sel.limit_list_ids, id) {
                    return false;
                }
            },
        }
    }
    match &sel.limit_name_keywords {
        None => true,
        Some(kws) => {
            let name_chars = chars_of(l.name.as_str());
            let nts = tokenize_lower(&name_chars);
            let kw_chars = chars_of(kws.as_str());
            let kts = tokenize_lower(&kw_chars);
            let ghost ktv = name_tokens_lower(kws@);
            proof {
                assert(kts@.map_values(|t: Vec<char>| t@) == ktv);
                assert(nts@.map_values(|t: Vec<char>| t@) == name_tokens_lower(l.name@));
            }
            let mut i: usize = 0;
            while i < kts.len()
                invariant
                    i <= kts@.len(),
                    kts@.map_values(|t: Vec<char>| t@) == ktv,
                    nts@.map_values(|t: Vec<char>| t@) == name_tokens_lower(l@.name),
                    ktv == name_tokens_lower(sel@.limit_name_keywords.unwrap()),
                    sel@.limit_name_keywords is Some,
                    forall|k: int| 0 <= k < i ==> token_found(
                        name_tokens_lower(l@.name),
                        #[trigger] ktv[k],
                    ),
                decreases kts@.len() - i,
            {
                if !keyword_token_found(&nts, &kts[i]) {
                    proof {
                        assert(!token_found(name_tokens_lower(l@.name), ktv[i as int]));
                    }
                    return false;
                }
                i += 1;
            }
            true
        },
    }
}

} // verus!
