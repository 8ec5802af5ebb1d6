use vstd::prelude::*;
use crate::common::{
    attr_find, AttrV, ItemListRollup, ItemV, item_view_seq, item_wf, ListAttribute, ListItem,
    Price, PriceV, RollupV, get_attribute, ATTRIBUTE_QUANTITY,
};
use crate::decimal::{
    DecimalValue, DecV, dv_prod, dv_prod_fits, dv_sum, dv_sum_fits, dv_wf,
};

verus! {

/// The reserved quantity key, as the filterable attribute bags spell it.
pub open spec fn quantity_key() -> Seq<char> {
    "quantity"@
}

/// An `i64` read as a `u64`, as the unsigned cast reads it: negative
/// quantities wrap.
pub open spec fn wrap_u64(i: i64) -> int {
    if i >= 0 {
        i as int
    } else {
        i + 0x10000000000000000
    }
}

/// An item's unit count: its `quantity` attribute when that holds an
/// `Integer`, zero otherwise.
pub open spec fn item_qty(it: ItemV) -> int {
    match attr_find(it.attributes, quantity_key()) {
        Some(AttrV::Integer(q)) => wrap_u64(q),
        _ => 0,
    }
}

pub open spec fn entries_view(v: Seq<(String, ItemListRollup)>) -> Seq<(Seq<char>, RollupV)> {
    v.map_values(|p: (String, ItemListRollup)| (p.0@, p.1@))
}

pub open spec fn entries_wf(s: Seq<(Seq<char>, RollupV)>) -> bool {
    forall|i: int| 0 <= i < s.len() ==> dv_wf((#[trigger] s[i]).1.total_amount.amount)
}

/// The first index bound to key `k`, or `-1`.
pub open spec fn key_index_from(s: Seq<(Seq<char>, RollupV)>, k: Seq<char>, i: int) -> int
    decreases s.len() - i when 0 <= i <= s.len()
{
    if i >= s.len() {
        -1
    } else if s[i].0 == k {
        i
    } else {
        key_index_from(s, k, i + 1)
    }
}

pub open spec fn key_index(s: Seq<(Seq<char>, RollupV)>, k: Seq<char>) -> int {
    key_index_from(s, k, 0)
}

proof fn lemma_key_index(s: Seq<(Seq<char>, RollupV)>, k: Seq<char>, i: int, j: int)
    requires
        0 <= i <= j <= s.len(),
        forall|t: int| i <= t < j ==> (#[trigger] s[t]).0 != k,
        j == s.len() || s[j].0 == k,
    ensures
        key_index_from(s, k, i) == if j == s.len() {
            -1
        } else {
            j
        },
    decreases j - i,
{
    if i < j {
        lemma_key_index(s, k, i + 1, j);
    }
}

/// Folding one price binding into the aggregates: the amount is the price
/// times the item's quantity; a first sighting of the key opens an entry
/// carrying that price's source, a later one adds lines, units and amount.
/// `None` when a product, a count or a sum leaves its range.
pub open spec fn add_price(
    acc: Seq<(Seq<char>, RollupV)>,
    k: Seq<char>,
    p: PriceV,
    qty: int,
) -> Option<Seq<(Seq<char>, RollupV)>> {
    let qd = DecV { m: qty, s: 0 };
    if !dv_prod_fits(p.amount, qd) {
        None
    } else {
        let prod = dv_prod(p.amount, qd);
        let idx = key_index(acc, k);
        if idx == -1 {
            Some(
                acc.push(
                    (
                        k,
                        RollupV {
                            total_amount: PriceV { amount: prod, source: p.source },
                            total_lines: 1,
                            total_units: qty as u64,
                        },
                    ),
                ),
            )
        } else {
            let e = acc[idx].1;
            if e.total_lines as int + 1 > u64::MAX as int || e.total_units as int + qty
                > u64::MAX as int || !dv_sum_fits(e.total_amount.amount, prod) {
                None
            } else {
                Some(
                    acc.update(
                        idx,
                        (
                            k,
                            RollupV {
                                total_amount: PriceV {
                                    amount: dv_sum(e.total_amount.amount, prod),
                                    source: e.total_amount.source,
                                },
                                total_lines: (e.total_lines + 1) as u64,
                                total_units: (e.total_units as int + qty) as u64,
                            },
                        ),
                    ),
                )
            }
        }
    }
}

/// Folds the price bindings of one item's attributes, in order, from `i` on.
pub open spec fn roll_attrs(
    attrs: Seq<(Seq<char>, AttrV)>,
    qty: int,
    acc: Seq<(Seq<char>, RollupV)>,
    i: int,
) -> Option<Seq<(Seq<char>, RollupV)>>
    decreases attrs.len() - i when 0 <= i <= attrs.len()
{
    if i >= attrs.len() {
        Some(acc)
    } else {
        match attrs[i].1 {
            AttrV::Price(p) => match add_price(acc, attrs[i].0, p, qty) {
                None => None,
                Some(a2) => roll_attrs(attrs, qty, a2, i + 1),
            },
            _ => roll_attrs(attrs, qty, acc, i + 1),
        }
    }
}

/// Folds all items, in order, from `i` on.
pub open spec fn roll_items(
    items: Seq<ItemV>,
    acc: Seq<(Seq<char>, RollupV)>,
    i: int,
) -> Option<Seq<(Seq<char>, RollupV)>>
    decreases items.len() - i when 0 <= i <= items.len()
{
    if i >= items.len() {
        Some(acc)
    } else {
        match roll_attrs(items[i].attributes, item_qty(items[i]), acc, 0) {
            None => None,
            Some(a2) => roll_items(items, a2, i + 1),
        }
    }
}

/// The per-key aggregates over a list's items, keyed in order of first
/// sighting; `None` when any step's arithmetic leaves its range.
pub open spec fn spec_rollups(items: Seq<ItemV>) -> Option<Seq<(Seq<char>, RollupV)>> {
    roll_items(items, Seq::empty(), 0)
}

// ---------------------------------------------------------------------------
// Executable aggregation
// ---------------------------------------------------------------------------

/// Folds one price binding into the entry vector; `false` reports that the
/// arithmetic left its range and the entries stand unchanged.
fn add_price_entry(rollups: &mut Vec<(String, ItemListRollup)>, k: &String, p: &Price, qty: u64)
    -> (ok: bool)
    requires
        dv_wf(p@.amount),
        entries_wf(entries_view(old(rollups)@)),
    ensures
        entries_wf(entries_view(final(rollups)@)),
        match add_price(entries_view(old(rollups)@), k@, p@, qty as int) {
            Some(a2) => ok && entries_view(final(rollups)@) == a2,
            None => !ok && final(rollups)@ == old(rollups)@,
        },
{
    let ghost acc = entries_view(rollups@);
    let qd = DecimalValue::from_u64(qty);
    let prod = match p.amount.checked_mul(qd) {
        Some(v) => v,
        None => {
            return false;
        },
    };
    let ilr_price = Price { amount: prod, source: p.source.clone() };
    // look the key up: first binding wins
    let mut i: usize = 0;
    let n = rollups.len();
    while i < n
        invariant
            i <= n == rollups@.len(),
            rollups@ == old(rollups)@,
            acc == entries_view(rollups@),
            entries_wf(acc),
            dv_wf(p@.amount),
            dv_prod_fits(p@.amount, DecV { m: qty as int, s: 0 }),
            prod@ == dv_prod(p@.amount, DecV { m: qty as int, s: 0 }),
            prod.wf(),
            ilr_price@ == (PriceV { amount: dv_prod(p@.amount, DecV { m: qty as int, s: 0 }),
                source: p@.source }),
            forall|t: int| 0 <= t < i ==> (#[trigger] acc[t]).0 != k@,
        decreases n - i,
    {
        if crate::text::str_eq(rollups[i].0.as_str(), k.as_str()) {
            proof {
                assert(acc[i as int] == (rollups@[i as int].0@, rollups@[i as int].1@));
                assert(acc[i as int].0 == k@);
                lemma_key_index(acc, k@, 0, i as int);
            }
            let e_lines = rollups[i].1.total_lines;
            let e_units = rollups[i].1.total_units;
            if e_lines == u64::MAX {
                return false;
            }
            if qty > u64::MAX - e_units {
                return false;
            }
            let e_amount = rollups[i].1.total_amount.amount;
            proof {
                assert(dv_wf(acc[i as int].1.total_amount.amount));
            }
            let sum = match e_amount.checked_add(prod) {
                Some(v) => v,
                None => {
                    return false;
                },
            };
            let e_source = rollups[i].1.total_amount.source.clone();
            let entry = ItemListRollup {
                total_amount: Price { amount: sum, source: e_source },
                total_lines: e_lines + 1,
                total_units: e_units + qty,
            };
            let key = k.clone();
            let _ = rollups.remove(i);
            rollups.insert(i, (key, entry));
            proof {
                assert(entries_view(rollups@) =~= acc.update(
                    i as int,
                    (k@, entry@),
                ));
            }
            return true;
        }
        i += 1;
    }
    proof {
        lemma_key_index(acc, k@, 0, acc.len() as int);
    }
    let entry = ItemListRollup {
        total_amount: ilr_price,
        total_lines: 1,
        total_units: qty,
    };
    rollups.push((k.clone(), entry));
    proof {
        assert(entries_view(rollups@) =~= acc.push((k@, entry@)));
    }
    true
}

/// The item's quantity, read as the rollups read it.
fn read_qty(item: &ListItem) -> (q: u64)
    ensures
        q as int == item_qty(item@),
{
    match get_attribute(&item.attributes, ATTRIBUTE_QUANTITY) {
        Some(a) => match a {
            ListAttribute::Integer(q1) => {
                if *q1 >= 0 {
                    *q1 as u64
                } else {
                    // the unsigned reading of a negative count: it wraps
                    let mag = (-(*q1 as i128)) as u64;
                    (u64::MAX - mag) + 1
                }
            },
            _ => 0,
        },
        None => 0,
    }
}

/// Computes the per-attribute-key aggregates over a list's items when asked;
/// absent otherwise. The caller warrants that no step's arithmetic leaves
/// its range.
pub fn compute_rollup_values(return_rollups: bool, items: &Vec<ListItem>) -> (r: Option<
    Vec<(String, ItemListRollup)>,
>)
    requires
        forall|i: int| 0 <= i < items@.len() ==> item_wf((#[trigger] items@[i])@),
        return_rollups ==> spec_rollups(item_view_seq(items@)) is Some,
    ensures
        match r {
            Some(v) => return_rollups && Some(entries_view(v@)) == spec_rollups(
                item_view_seq(items@),
            ),
            None => !return_rollups,
        },
{
    if !return_rollups {
        return None;
    }
    let ghost iv = item_view_seq(items@);
    let mut rollups: Vec<(String, ItemListRollup)> = Vec::new();
    proof {
        assert(entries_view(rollups@) =~= Seq::<(Seq<char>, RollupV)>::empty());
    }
    let mut ii: usize = 0;
    while ii < items.len()
        invariant
            ii <= items@.len(),
            iv == item_view_seq(items@),
            forall|i: int| 0 <= i < items@.len() ==> item_wf((#[trigger] items@[i])@),
            entries_wf(entries_view(rollups@)),
            spec_rollups(iv) is Some,
            roll_items(iv, entries_view(rollups@), ii as int) == spec_rollups(iv),
        decreases items@.len() - ii,
    {
        let item = &items[ii];
        proof {
            assert(item@ == iv[ii as int]);
        }
        let qty = read_qty(item);
        let ghost attrs = item@.attributes;
        let mut ai: usize = 0;
        let n = item.attributes.len();
        while ai < n
            invariant
                ai <= n == item.attributes@.len(),
                attrs == item@.attributes,
                item_wf(item@),
                entries_wf(entries_view(rollups@)),
                qty as int == item_qty(item@),
                spec_rollups(iv) is Some,
                roll_attrs(attrs, qty as int, entries_view(rollups@), ai as int) is Some,
                roll_items(iv, roll_attrs(attrs, qty as int, entries_view(rollups@), ai as int)
                    .unwrap(), ii as int + 1) == spec_rollups(iv),
            decreases n - ai,
        {
            let pair = &item.attributes[ai];
            proof {
                assert(attrs[ai as int] == (pair.0@, pair.1@));
            }
            match &pair.1 {
                ListAttribute::Price(price) => {
                    proof {
                        assert(crate::common::attr_wf(attrs[ai as int].1));
                        assert(dv_wf(price@.amount));
                    }
                    let ok = add_price_entry(&mut rollups, &pair.0, price, qty);
                    if !ok {
                        proof {
                            assert(false);
                        }
                        let nothing: () = vstd::pervasive::unreached();
                        nothing
                    }
                },
                _ => {},
            }
            ai += 1;
        }
        proof {
            assert(roll_attrs(attrs, qty as int, entries_view(rollups@), n as int)
                == Some(entries_view(rollups@)));
        }
        ii += 1;
    }
    proof {
        assert(roll_items(iv, entries_view(rollups@), iv.len() as int) == Some(
            entries_view(rollups@),
        ));
    }
    Some(rollups)
}

} // verus!
