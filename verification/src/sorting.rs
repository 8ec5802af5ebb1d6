use vstd::prelude::*;
use crate::common::{
    attr_find, AttrV, ItemList, ListV, list_view_seq, list_wf, SortKey, SortKeyV, SortRequest,
    SortReqV, get_attribute, ListAttribute,
};
use crate::decimal::dv_le;
use crate::text::{lex_cmp, Rank, str_lex_cmp};

verus! {

// ---------------------------------------------------------------------------
// The pairwise comparison
// ---------------------------------------------------------------------------

pub open spec fn rank_of_int(a: int, b: int) -> Rank {
    if a < b {
        Rank::Less
    } else if a > b {
        Rank::Greater
    } else {
        Rank::Equal
    }
}

pub open spec fn rank_of_bool(a: bool, b: bool) -> Rank {
    if a == b {
        Rank::Equal
    } else if !a {
        Rank::Less
    } else {
        Rank::Greater
    }
}

/// Ids compare as options: an unassigned id sorts before any assigned one.
pub open spec fn rank_of_id(a: Option<u64>, b: Option<u64>) -> Rank {
    match (a, b) {
        (Option::None, Option::None) => Rank::Equal,
        (Option::None, Option::Some(_)) => Rank::Less,
        (Option::Some(_), Option::None) => Rank::Greater,
        (Option::Some(x), Option::Some(y)) => rank_of_int(x as int, y as int),
    }
}

/// The total-order key of a double's bits: monotone in the numeric order for
/// finite values, with negative NaNs first and positive NaNs last.
pub open spec fn float_key(b: u64) -> u64 {
    if b >= 0x8000000000000000 {
        !b
    } else {
        b | 0x8000000000000000
    }
}

/// An equal comparison falls back to the id order; the operands stand in the
/// order the `descending` swap gave them, so the tie-break flips with it.
pub open spec fn with_tiebreak(r: Rank, one: ListV, two: ListV) -> Rank {
    if r == Rank::Equal {
        rank_of_id(one.id, two.id)
    } else {
        r
    }
}

/// Ordering by a named attribute. Missing or differently-shaped attributes
/// fall back to the id order. `Float` and `Price` order by a plain
/// less-or-equal, so equal values still rank `Less`: that verdict is kept
/// as the library's contract even though it is not antisymmetric.
pub open spec fn attr_rank(name: Seq<char>, one: ListV, two: ListV) -> Rank {
    match (attr_find(one.attributes, name), attr_find(two.attributes, name)) {
        (Option::Some(a1), Option::Some(a2)) => match (a1, a2) {
            (AttrV::Boolean(v1), AttrV::Boolean(v2)) => with_tiebreak(
                rank_of_bool(v1, v2),
                one,
                two,
            ),
            (AttrV::DateTime(v1), AttrV::DateTime(v2)) => with_tiebreak(
                rank_of_int(v1 as int, v2 as int),
                one,
                two,
            ),
            (AttrV::Float(b1), AttrV::Float(b2)) => if float_key(b1) <= float_key(b2) {
                Rank::Less
            } else {
                Rank::Greater
            },
            (AttrV::Integer(v1), AttrV::Integer(v2)) => with_tiebreak(
                rank_of_int(v1 as int, v2 as int),
                one,
                two,
            ),
            (AttrV::Price(p1), AttrV::Price(p2)) => if dv_le(p1.amount, p2.amount) {
                Rank::Less
            } else {
                Rank::Greater
            },
            (AttrV::Text(s1), AttrV::Text(s2)) => with_tiebreak(lex_cmp(s1, s2), one, two),
            _ => rank_of_id(one.id, two.id),
        },
        _ => rank_of_id(one.id, two.id),
    }
}

/// The pairwise order the sort consumes. `descending` swaps the operands
/// before the ascending logic runs, so downstream tie-breaks flip with it;
/// the date keys take no tie-break and leave ties to stability.
pub open spec fn cmp_lists(sort: SortReqV, a: ListV, b: ListV) -> Rank {
    let one = if sort.descending {
        b
    } else {
        a
    };
    let two = if sort.descending {
        a
    } else {
        b
    };
    match sort.key {
        SortKeyV::Attribute(n) => attr_rank(n, one, two),
        SortKeyV::CreatedDate => rank_of_int(one.created as int, two.created as int),
        SortKeyV::Id => rank_of_id(one.id, two.id),
        SortKeyV::ModifiedDate => rank_of_int(one.modified as int, two.modified as int),
        SortKeyV::Name => lex_cmp(one.name, two.name),
    }
}

/// A found attribute is one of the bag's values.
proof fn lemma_attr_find_member(s: Seq<(Seq<char>, AttrV)>, name: Seq<char>, i: int)
    requires
        0 <= i <= s.len(),
        crate::common::attr_find_from(s, name, i) is Some,
    ensures
        exists|j: int| i <= j < s.len() && (#[trigger] s[j]).1
            == crate::common::attr_find_from(s, name, i).unwrap(),
    decreases s.len() - i,
{
    if i < s.len() && s[i].0 != name {
        lemma_attr_find_member(s, name, i + 1);
    }
}

fn cmp_i64(a: i64, b: i64) -> (r: Rank)
    ensures
        r == rank_of_int(a as int, b as int),
{
    if a < b {
        Rank::Less
    } else if a > b {
        Rank::Greater
    } else {
        Rank::Equal
    }
}

fn cmp_id(a: &Option<u64>, b: &Option<u64>) -> (r: Rank)
    ensures
        r == rank_of_id(*a, *b),
{
    match (a, b) {
        (Option::None, Option::None) => Rank::Equal,
        (Option::None, Option::Some(_)) => Rank::Less,
        (Option::Some(_), Option::None) => Rank::Greater,
        (Option::Some(x), Option::Some(y)) => {
            if *x < *y {
                Rank::Less
            } else if *x > *y {
                Rank::Greater
            } else {
                Rank::Equal
            }
        },
    }
}

fn float_key_exec(b: u64) -> (r: u64)
    ensures
        r == float_key(b),
{
    if b >= 0x8000000000000000 {
        !b
    } else {
        b | 0x8000000000000000
    }
}

fn tiebreak(r: Rank, one: &ItemList, two: &ItemList) -> (out: Rank)
    ensures
        out == with_tiebreak(r, one@, two@),
{
    if r == Rank::Equal {
        cmp_id(&one.id, &two.id)
    } else {
        r
    }
}

/// The pairwise comparison of two lists under a sort request.
pub fn compare_lists(a: &ItemList, b: &ItemList, sort: &SortRequest) -> (r: Rank)
    requires
        list_wf(a@),
        list_wf(b@),
    ensures
        r == cmp_lists(sort@, a@, b@),
{
    let (one, two) = if sort.descending {
        (b, a)
    } else {
        (a, b)
    };
    match &sort.key {
        SortKey::Attribute(attribute_name) => {
            let o1 = get_attribute(&one.attributes, attribute_name.as_str());
            let o2 = get_attribute(&two.attributes, attribute_name.as_str());
            match (o1, o2) {
                (Option::Some(a1), Option::Some(a2)) => match (a1, a2) {
                    (ListAttribute::Boolean(v1), ListAttribute::Boolean(v2)) => {
                        let base = rank_of_bool_exec(*v1, *v2);
                        tiebreak(base, one, two)
                    },
                    (ListAttribute::DateTime(v1), ListAttribute::DateTime(v2)) => {
                        let base = cmp_i64(*v1, *v2);
                        tiebreak(base, one, two)
                    },
                    (ListAttribute::Float(b1), ListAttribute::Float(b2)) => {
                        if float_key_exec(*b1) <= float_key_exec(*b2) {
                            Rank::Less
                        } else {
                            Rank::Greater
                        }
                    },
                    (ListAttribute::Integer(v1), ListAttribute::Integer(v2)) => {
                        let base = cmp_i64(*v1, *v2);
                        tiebreak(base, one, two)
                    },
                    (ListAttribute::Price(p1), ListAttribute::Price(p2)) => {
                        proof {
                            lemma_attr_find_member(one@.attributes, attribute_name@, 0);
                            lemma_attr_find_member(two@.attributes, attribute_name@, 0);
                        }
                        if p1.amount.le(p2.amount) {
                            Rank::Less
                        } else {
                            Rank::Greater
                        }
                    },
                    (ListAttribute::Text(s1), ListAttribute::Text(s2)) => {
                        let base = str_lex_cmp(s1.as_str(), s2.as_str());
                        tiebreak(base, one, two)
                    },
                    _ => cmp_id(&one.id, &two.id),
                },
                _ => cmp_id(&one.id, &two.id),
            }
        },
        SortKey::CreatedDate => cmp_i64(one.created, two.created),
        SortKey::Id => cmp_id(&one.id, &two.id),
        SortKey::ModifiedDate => cmp_i64(one.modified, two.modified),
        SortKey::Name => str_lex_cmp(one.name.as_str(), two.name.as_str()),
    }
}

fn rank_of_bool_exec(a: bool, b: bool) -> (r: Rank)
    ensures
        r == rank_of_bool(a, b),
{
    if a == b {
        Rank::Equal
    } else if !a {
        Rank::Less
    } else {
        Rank::Greater
    }
}

// ---------------------------------------------------------------------------
// Insertion sort, specified exactly
// ---------------------------------------------------------------------------

/// Inserting into a processed prefix: `x` moves left past every element it
/// compares `Less` against, scanned from the right.
pub open spec fn spec_insert(s: Seq<ListV>, x: ListV, sort: SortReqV) -> Seq<ListV>
    decreases s.len(),
{
    if s.len() == 0 {
        seq![x]
    } else if cmp_lists(sort, x, s.last()) == Rank::Less {
        spec_insert(s.drop_last(), x, sort).push(s.last())
    } else {
        s.push(x)
    }
}

/// The sort the library performs: elements inserted left to right. For a
/// comparison that is a total preorder this is the stable ascending order;
/// the `Float` and `Price` attribute orders rank equal values `Less`, and
/// there the outcome is whatever repeated insertion yields.
pub open spec fn spec_sort(s: Seq<ListV>, sort: SortReqV) -> Seq<ListV>
    decreases s.len(),
{
    if s.len() == 0 {
        Seq::empty()
    } else {
        spec_insert(spec_sort(s.drop_last(), sort), s.last(), sort)
    }
}

pub proof fn lemma_spec_insert_len(s: Seq<ListV>, x: ListV, sort: SortReqV)
    ensures
        spec_insert(s, x, sort).len() == s.len() + 1,
    decreases s.len(),
{
    if s.len() > 0 && cmp_lists(sort, x, s.last()) == Rank::Less {
        lemma_spec_insert_len(s.drop_last(), x, sort);
    }
}

/// Sorting keeps the length.
pub proof fn lemma_spec_sort_len(s: Seq<ListV>, sort: SortReqV)
    ensures
        spec_sort(s, sort).len() == s.len(),
    decreases s.len(),
{
    if s.len() > 0 {
        lemma_spec_sort_len(s.drop_last(), sort);
        lemma_spec_insert_len(spec_sort(s.drop_last(), sort), s.last(), sort);
    }
}

/// Two lists holding the same boolean under the sort attribute collapse to
/// the id order, and the `descending` swap flips that tie-break with the
/// rest of the comparison.
pub proof fn lemma_attribute_tiebreak_by_id(
    name: Seq<char>,
    sort: SortReqV,
    a: ListV,
    b: ListV,
    v: bool,
)
    requires
        sort.key == SortKeyV::Attribute(name),
        attr_find(a.attributes, name) == Some(AttrV::Boolean(v)),
        attr_find(b.attributes, name) == Some(AttrV::Boolean(v)),
    ensures
        cmp_lists(sort, a, b) == if sort.descending {
            rank_of_id(b.id, a.id)
        } else {
            rank_of_id(a.id, b.id)
        },
{
}

/// Under the boolean attribute order, `true` ranks above `false`: with
/// `descending` set, the `true`-valued list comes first.
pub proof fn lemma_attribute_bool_order(name: Seq<char>, sort: SortReqV, a: ListV, b: ListV)
    requires
        sort.key == SortKeyV::Attribute(name),
        sort.descending,
        attr_find(a.attributes, name) == Some(AttrV::Boolean(true)),
        attr_find(b.attributes, name) == Some(AttrV::Boolean(false)),
    ensures
        cmp_lists(sort, a, b) == Rank::Less,
{
}

proof fn lemma_spec_insert_at(s: Seq<ListV>, x: ListV, sort: SortReqV, j: int)
    requires
        0 <= j <= s.len(),
        forall|k: int| j <= k < s.len() ==> cmp_lists(sort, x, #[trigger] s[k]) == Rank::Less,
        j > 0 ==> cmp_lists(sort, x, s[j - 1]) != Rank::Less,
    ensures
        spec_insert(s, x, sort) == s.take(j) + seq![x] + s.skip(j),
    decreases s.len(),
{
    if s.len() == 0 {
        assert(spec_insert(s, x, sort) =~= s.take(j) + seq![x] + s.skip(j));
    } else if j == s.len() {
        assert(cmp_lists(sort, x, s.last()) != Rank::Less);
        assert(spec_insert(s, x, sort) == s.push(x));
        assert(s.take(j) =~= s);
        assert(s.skip(j) =~= Seq::<ListV>::empty());
        assert(s.push(x) =~= s.take(j) + seq![x] + s.skip(j));
    } else {
        assert(cmp_lists(sort, x, s.last()) == Rank::Less);
        let d = s.drop_last();
        assert(forall|k: int| j <= k < d.len() ==> cmp_lists(sort, x, #[trigger] d[k])
            == Rank::Less) by {
            assert(forall|k: int| 0 <= k < d.len() ==> d[k] == s[k]);
        }
        if j > 0 {
            assert(d[j - 1] == s[j - 1]);
        }
        lemma_spec_insert_at(d, x, sort, j);
        assert(spec_insert(s, x, sort) == (d.take(j) + seq![x] + d.skip(j)).push(s.last()));
        assert(d.take(j) =~= s.take(j));
        assert((d.take(j) + seq![x] + d.skip(j)).push(s.last()) =~= s.take(j) + seq![x] + s.skip(
            j,
        ));
    }
}

/// Whatever the comparison does, inserting adds exactly `x` to the elements.
proof fn lemma_spec_insert_contains(s: Seq<ListV>, x: ListV, sort: SortReqV, y: ListV)
    ensures
        spec_insert(s, x, sort).contains(y) <==> (s.contains(y) || y == x),
    decreases s.len(),
{
    if s.len() == 0 {
        assert(spec_insert(s, x, sort) =~= seq![x]);
        assert(spec_insert(s, x, sort).contains(y) <==> y == x) by {
            if y == x {
                assert(spec_insert(s, x, sort)[0] == x);
            }
        }
    } else if cmp_lists(sort, x, s.last()) == Rank::Less {
        lemma_spec_insert_contains(s.drop_last(), x, sort, y);
        let inner = spec_insert(s.drop_last(), x, sort);
        assert(inner.push(s.last()).contains(y) <==> (inner.contains(y) || y == s.last())) by {
            vstd::seq_lib::lemma_seq_contains_after_push(inner, s.last(), y);
        }
        assert(s.drop_last().push(s.last()) =~= s);
        vstd::seq_lib::lemma_seq_contains_after_push(s.drop_last(), s.last(), y);
    } else {
        vstd::seq_lib::lemma_seq_contains_after_push(s, x, y);
    }
}

/// Sorting permutes: the sorted sequence holds exactly the input's elements.
pub proof fn lemma_spec_sort_contains(s: Seq<ListV>, sort: SortReqV, y: ListV)
    ensures
        spec_sort(s, sort).contains(y) <==> s.contains(y),
    decreases s.len(),
{
    if s.len() > 0 {
        lemma_spec_sort_contains(s.drop_last(), sort, y);
        lemma_spec_insert_contains(spec_sort(s.drop_last(), sort), s.last(), sort, y);
        assert(s.drop_last().push(s.last()) =~= s);
        vstd::seq_lib::lemma_seq_contains_after_push(s.drop_last(), s.last(), y);
    }
}

fn insert_sorted(r: &mut Vec<ItemList>, x: ItemList, sort: &SortRequest)
    requires
        list_wf(x@),
        forall|i: int| 0 <= i < old(r)@.len() ==> list_wf((#[trigger] old(r)@[i])@),
    ensures
        list_view_seq(final(r)@) == spec_insert(list_view_seq(old(r)@), x@, sort@),
        forall|i: int| 0 <= i < final(r)@.len() ==> list_wf((#[trigger] final(r)@[i])@),
{
    let ghost rv = list_view_seq(r@);
    let mut j: usize = r.len();
    loop
        invariant
            j <= r@.len(),
            rv == list_view_seq(r@),
            list_wf(x@),
            forall|i: int| 0 <= i < r@.len() ==> list_wf((#[trigger] r@[i])@),
            forall|k: int| j <= k < rv.len() ==> cmp_lists(sort@, x@, #[trigger] rv[k])
                == Rank::Less,
        ensures
            j <= r@.len(),
            rv == list_view_seq(r@),
            forall|k: int| j <= k < rv.len() ==> cmp_lists(sort@, x@, #[trigger] rv[k])
                == Rank::Less,
            j > 0 ==> cmp_lists(sort@, x@, rv[j - 1]) != Rank::Less,
        decreases j,
    {
        if j == 0 {
            break ;
        }
        let c = compare_lists(&x, &r[j - 1], sort);
        proof {
            assert(r@[j - 1]@ == rv[j - 1]);
        }
        if c != Rank::Less {
            break ;
        }
        j -= 1;
    }
    proof {
        lemma_spec_insert_at(rv, x@, sort@, j as int);
    }
    r.insert(j, x);
    proof {
        assert(list_view_seq(r@) =~= rv.take(j as int) + seq![x@] + rv.skip(j as int));
    }
}

/// Sorts the candidate set by repeated insertion; the result is exactly
/// `spec_sort` of the input, and a permutation of it.
pub fn sort_list_of_lists(a: Vec<ItemList>, sort: &SortRequest) -> (r: Vec<ItemList>)
    requires
        forall|i: int| 0 <= i < a@.len() ==> list_wf((#[trigger] a@[i])@),
    ensures
        list_view_seq(r@) == spec_sort(list_view_seq(a@), sort@),
        forall|i: int| 0 <= i < r@.len() ==> list_wf((#[trigger] r@[i])@),
{
    let ghost orig = list_view_seq(a@);
    let mut rest = a;
    let mut out: Vec<ItemList> = Vec::new();
    proof {
        assert(orig.take(0) =~= Seq::<ListV>::empty());
        assert(list_view_seq(out@) =~= spec_sort(orig.take(0), sort@));
    }
    while rest.len() > 0
        invariant
            orig.len() == list_view_seq(rest@).len() + (orig.len() - rest@.len()),
            rest@.len() <= orig.len(),
            forall|i: int| 0 <= i < rest@.len() ==> list_wf((#[trigger] rest@[i])@),
            forall|i: int| 0 <= i < out@.len() ==> list_wf((#[trigger] out@[i])@),
            list_view_seq(rest@) == orig.skip(orig.len() - rest@.len()),
            list_view_seq(out@) == spec_sort(orig.take(orig.len() - rest@.len()), sort@),
        decreases rest@.len(),
    {
        let ghost k = orig.len() - rest@.len();
        let ghost before = rest@;
        let x = rest.remove(0);
        proof {
            assert(list_view_seq(before)[0] == before[0]@);
            assert(list_view_seq(before)[0] == orig.skip(k)[0]);
            assert(orig.skip(k)[0] == orig[k]);
            assert(x@ == orig[k]);
            assert(rest@ =~= before.remove(0));
            assert(forall|i: int| 0 <= i < rest@.len() ==> rest@[i] == before[i + 1]);
            assert(list_view_seq(rest@) =~= orig.skip(k + 1)) by {
                assert(forall|i: int| 0 <= i < rest@.len() ==> list_view_seq(rest@)[i]
                    == rest@[i]@ && list_view_seq(before)[i + 1] == before[i + 1]@);
                assert(forall|i: int| 0 <= i < rest@.len() ==> #[trigger] orig.skip(k + 1)[i]
                    == orig[k + 1 + i] && orig.skip(k)[i + 1] == orig[k + 1 + i]);
            }
            assert(orig.take(k + 1).drop_last() =~= orig.take(k));
            assert(orig.take(k + 1).last() == orig[k]);
        }
        insert_sorted(&mut out, x, sort);
        proof {
            assert(spec_sort(orig.take(k + 1), sort@) == spec_insert(
                spec_sort(orig.take(k), sort@),
                orig[k],
                sort@,
            ));
        }
    }
    proof {
        assert(orig.take(orig.len() as int) =~= orig);
    }
    out
}

} // verus!
