use vstd::prelude::*;
use crate::common::{attr_wf, AttrV, ListAccess, ListAttribute, ListType, Price, PriceV};
use crate::decimal::{
    dec_digits, dv_chars, dv_wf, DecimalValue, DecV, is_digit_char, lemma_dec_digits,
    lemma_parse_of_chars, lemma_zero_chars, parse_dec_chars, zero_chars,
};
use crate::text::{chars_of, is_space, is_space_char, run_at, str_eq, string_of, sub_chars};

verus! {

// ---------------------------------------------------------------------------
// The persisted shape of one attribute
// ---------------------------------------------------------------------------

/// One attribute as persisted: a type tag beside five nullable scalar slots,
/// of which only the slot the tag names is read. The timestamp slot carries
/// epoch microseconds, the float slot the bits of the double.
#[derive(Clone, Debug, PartialEq)]
pub struct AttributeRow {
    pub attribute_type: String,
    pub bool_val: Option<bool>,
    pub timestamp_val: Option<i64>,
    pub float_val: Option<u64>,
    pub integer_val: Option<i64>,
    pub text_val: Option<String>,
}

#[verifier::ext_equal]
pub struct RowV {
    pub attribute_type: Seq<char>,
    pub bool_val: Option<bool>,
    pub timestamp_val: Option<i64>,
    pub float_val: Option<u64>,
    pub integer_val: Option<i64>,
    pub text_val: Option<Seq<char>>,
}

impl View for AttributeRow {
    type V = RowV;

    open spec fn view(&self) -> RowV {
        RowV {
            attribute_type: self.attribute_type@,
            bool_val: self.bool_val,
            timestamp_val: self.timestamp_val,
            float_val: self.float_val,
            integer_val: self.integer_val,
            text_val: match self.text_val {
                Some(ref t) => Some(t@),
                None => None,
            },
        }
    }
}

// ---------------------------------------------------------------------------
// The price text encoding
// ---------------------------------------------------------------------------

/// A price's text: `PRICE: _<amount> _<source>`, with no escaping, so a
/// source holding the delimiter corrupts round-tripping.
pub open spec fn price_text(p: PriceV) -> Seq<char> {
    "PRICE: _"@ + dv_chars(p.amount) + " _"@ + p.source
}

pub open spec fn no_letter_s(t: Seq<char>) -> bool {
    forall|i: int| 0 <= i < t.len() ==> t[i] != 's'
}

/// What the price pattern captures of a text, if anything: after
/// `PRICE:`, one whitespace and an underscore, the amount is the maximal
/// whitespace-free run; one whitespace and an underscore later, the source
/// runs to the end, and may hold anything but the letter `s`. That letter,
/// not whitespace, is what the source group excludes: the verdict is kept
/// for compatibility with persisted values.
pub open spec fn price_capture(s: Seq<char>) -> Option<(Seq<char>, Seq<char>)> {
    if s.len() >= 8 && s.take(6) == "PRICE:"@ && is_space(s[6]) && s[7] == '_' {
        let a = run_at(s, 8);
        let i = 8 + a.len() as int;
        if a.len() > 0 && i + 1 < s.len() && is_space(s[i]) && s[i + 1] == '_' {
            let src = s.skip(i + 2);
            if src.len() > 0 && no_letter_s(src) {
                Some((a, src))
            } else {
                None
            }
        } else {
            None
        }
    } else {
        None
    }
}

/// The fallback a text that the pattern rejects decodes to: a zero amount of
/// two decimal places and an empty source.
pub open spec fn zero_price() -> PriceV {
    PriceV { amount: DecV { m: 0, s: 2 }, source: Seq::empty() }
}

/// A text whose captured amount, if any, parses as a decimal in range.
pub open spec fn price_text_ok(s: Seq<char>) -> bool {
    match price_capture(s) {
        Some((a, _)) => parse_dec_chars(a) is Some,
        None => true,
    }
}

/// What a price text decodes to: the captured amount and source, or the
/// zero fallback when the pattern rejects the text.
pub open spec fn spec_to_price(s: Seq<char>) -> PriceV {
    match price_capture(s) {
        Some((a, src)) => match parse_dec_chars(a) {
            Some(d) => PriceV { amount: d, source: src },
            None => zero_price(),
        },
        None => zero_price(),
    }
}

/// Renders a price to its text form.
pub fn encode_price(p: &Price) -> (r: String)
    requires
        dv_wf(p@.amount),
    ensures
        r@ == price_text(p@),
{
    let mut out = String::new();
    out.append("PRICE: _");
    let amount = p.amount.to_text();
    out.append(amount.as_str());
    out.append(" _");
    out.append(p.source.as_str());
    proof {
        assert(out@ =~= price_text(p@));
    }
    out
}

/// Decodes a price text: the captured amount and source, or the zero
/// fallback when the pattern rejects it. An amount the pattern accepts must
/// parse, which every rendered price does.
pub fn to_price(s: &str) -> (r: Price)
    requires
        price_text_ok(s@),
    ensures
        r@ == spec_to_price(s@),
        dv_wf(r@.amount),
{
    let v = chars_of(s);
    let n = v.len();
    proof {
        reveal_strlit("PRICE:");
    }
    if n < 8 {
        return zero_price_value();
    }
    if !(v[0] == 'P' && v[1] == 'R' && v[2] == 'I' && v[3] == 'C' && v[4] == 'E' && v[5] == ':') {
        proof {
            assert(s@.take(6) != "PRICE:"@) by {
                if s@.take(6) == "PRICE:"@ {
                    assert(s@.take(6)[0] == 'P' && s@.take(6)[1] == 'R' && s@.take(6)[2] == 'I'
                        && s@.take(6)[3] == 'C' && s@.take(6)[4] == 'E' && s@.take(6)[5] == ':');
                }
            }
        }
        return zero_price_value();
    }
    proof {
        assert(s@.take(6) =~= "PRICE:"@);
    }
    if !is_space_char(v[6]) || v[7] != '_' {
        return zero_price_value();
    }
    // the amount: the maximal whitespace-free run from position 8
    let mut e: usize = 8;
    while e < n && !is_space_char(v[e])
        invariant
            8 <= e <= n == s@.len(),
            v@ == s@,
            forall|k: int| 8 <= k < e ==> !is_space(s@[k]),
        decreases n - e,
    {
        e += 1;
    }
    proof {
        crate::text::lemma_run_at_chars(s@, 8, e as int);
        assert(run_at(s@, 8) == s@.subrange(8, e as int));
    }
    if e == 8 {
        return zero_price_value();
    }
    if e >= n - 1 {
        return zero_price_value();
    }
    if v[e + 1] != '_' {
        return zero_price_value();
    }
    // the source: everything after, free of the letter `s`
    let mut k: usize = e + 2;
    if k >= n {
        return zero_price_value();
    }
    while k < n
        invariant
            e + 2 <= k <= n == s@.len(),
            v@ == s@,
            run_at(s@, 8) == s@.subrange(8, e as int),
            8 < e,
            e + 2 < n,
            is_space(s@[e as int]),
            s@[e + 1] == '_',
            forall|t: int| e + 2 <= t < k ==> s@[t] != 's',
        decreases n - k,
    {
        if v[k] == 's' {
            proof {
                assert(s@.skip(e + 2)[k - (e + 2)] == 's');
            }
            return zero_price_value();
        }
        k += 1;
    }
    proof {
        assert(no_letter_s(s@.skip(e + 2))) by {
            assert(forall|t: int| 0 <= t < s@.skip(e + 2).len() ==> #[trigger] s@.skip(e + 2)[t]
                == s@[e + 2 + t]);
        }
        assert(price_capture(s@) == Some((s@.subrange(8, e as int), s@.skip(e + 2))));
    }
    let amount_chars = sub_chars(&v, 8, e);
    let amount = match DecimalValue::parse_chars(&amount_chars) {
        Some(d) => d,
        None => {
            proof {
                assert(false);
            }
            vstd::pervasive::unreached()
        },
    };
    let source_chars = sub_chars(&v, e + 2, n);
    let source = string_of(&source_chars);
    proof {
        assert(source@ =~= s@.skip(e + 2));
    }
    Price { amount, source }
}

fn zero_price_value() -> (r: Price)
    ensures
        r@ == zero_price(),
        dv_wf(r@.amount),
{
    let source = String::new();
    proof {
        assert(source@ =~= Seq::<char>::empty());
    }
    Price { amount: DecimalValue { mantissa: 0, scale: 2 }, source }
}

// ---------------------------------------------------------------------------
// Decoding and encoding whole attributes
// ---------------------------------------------------------------------------

/// What a row asks of its reader: a `Price` row's text must carry a
/// parseable amount wherever the pattern accepts it.
pub open spec fn row_ok(row: RowV) -> bool {
    row.attribute_type == "Price"@ ==> price_text_ok(
        match row.text_val {
            Some(t) => t,
            None => Seq::empty(),
        },
    )
}

/// What a row decodes to. The tag picks the one slot that is read; an empty
/// slot falls back to a zero value — or, for `DateTime`, to `now` — and an
/// unknown tag reads the text slot, both deliberately lossy recoveries.
pub open spec fn spec_decode(row: RowV, now: i64) -> AttrV {
    let tag = row.attribute_type;
    if tag == "Boolean"@ {
        AttrV::Boolean(
            match row.bool_val {
                Some(b) => b,
                None => false,
            },
        )
    } else if tag == "DateTime"@ {
        AttrV::DateTime(
            match row.timestamp_val {
                Some(t) => t,
                None => now,
            },
        )
    } else if tag == "Float"@ {
        AttrV::Float(
            match row.float_val {
                Some(f) => f,
                None => 0,
            },
        )
    } else if tag == "Integer"@ {
        AttrV::Integer(
            match row.integer_val {
                Some(i) => i,
                None => 0,
            },
        )
    } else if tag == "Price"@ {
        AttrV::Price(
            spec_to_price(
                match row.text_val {
                    Some(t) => t,
                    None => Seq::empty(),
                },
            ),
        )
    } else {
        AttrV::Text(
            match row.text_val {
                Some(t) => t,
                None => Seq::empty(),
            },
        )
    }
}

/// Decodes one persisted attribute row; `now` stands in for an empty
/// timestamp slot.
pub fn decode_attribute(row: &AttributeRow, now: i64) -> (r: ListAttribute)
    requires
        row_ok(row@),
    ensures
        r@ == spec_decode(row@, now),
        attr_wf(r@),
{
    let tag = row.attribute_type.as_str();
    if str_eq(tag, "Boolean") {
        ListAttribute::Boolean(
            match row.bool_val {
                Some(b) => b,
                None => false,
            },
        )
    } else if str_eq(tag, "DateTime") {
        ListAttribute::DateTime(
            match row.timestamp_val {
                Some(t) => t,
                None => now,
            },
        )
    } else if str_eq(tag, "Float") {
        ListAttribute::Float(
            match row.float_val {
                Some(f) => f,
                None => 0,
            },
        )
    } else if str_eq(tag, "Integer") {
        ListAttribute::Integer(
            match row.integer_val {
                Some(i) => i,
                None => 0,
            },
        )
    } else if str_eq(tag, "Price") {
        let p = match &row.text_val {
            Some(t) => to_price(t.as_str()),
            None => {
                proof {
                    reveal_strlit("");
                    assert(""@ =~= Seq::<char>::empty());
                    assert(price_capture(Seq::empty()) is None);
                }
                to_price("")
            },
        };
        ListAttribute::Price(p)
    } else {
        ListAttribute::Text(
            match &row.text_val {
                Some(t) => crate::text::string_from_str(t.as_str()),
                None => {
                    let empty = String::new();
                    proof {
                        assert(empty@ =~= Seq::<char>::empty());
                    }
                    empty
                },
            },
        )
    }
}

/// What an attribute persists as: its tag, and its one populated slot.
pub open spec fn spec_encode(a: AttrV) -> RowV {
    let empty = RowV {
        attribute_type: Seq::empty(),
        bool_val: None,
        timestamp_val: None,
        float_val: None,
        integer_val: None,
        text_val: None,
    };
    match a {
        AttrV::Boolean(b) => RowV { attribute_type: "Boolean"@, bool_val: Some(b), ..empty },
        AttrV::DateTime(t) => RowV { attribute_type: "DateTime"@, timestamp_val: Some(t), ..empty },
        AttrV::Float(f) => RowV { attribute_type: "Float"@, float_val: Some(f), ..empty },
        AttrV::Integer(i) => RowV { attribute_type: "Integer"@, integer_val: Some(i), ..empty },
        AttrV::Price(p) => RowV {
            attribute_type: "Price"@,
            text_val: Some(price_text(p)),
            ..empty
        },
        AttrV::Text(s) => RowV { attribute_type: "Text"@, text_val: Some(s), ..empty },
    }
}

/// Encodes one attribute to its persisted row.
pub fn encode_attribute(a: &ListAttribute) -> (r: AttributeRow)
    requires
        attr_wf(a@),
    ensures
        r@ == spec_encode(a@),
{
    let empty_row = AttributeRow {
        attribute_type: String::new(),
        bool_val: None,
        timestamp_val: None,
        float_val: None,
        integer_val: None,
        text_val: None,
    };
    match a {
        ListAttribute::Boolean(b) => {
            let r = AttributeRow {
                attribute_type: crate::text::string_from_str("Boolean"),
                bool_val: Some(*b),
                ..empty_row
            };
            proof {
                assert(r@ =~= spec_encode(a@));
            }
            r
        },
        ListAttribute::DateTime(t) => {
            let r = AttributeRow {
                attribute_type: crate::text::string_from_str("DateTime"),
                timestamp_val: Some(*t),
                ..empty_row
            };
            proof {
                assert(r@ =~= spec_encode(a@));
            }
            r
        },
        ListAttribute::Float(f) => {
            let r = AttributeRow {
                attribute_type: crate::text::string_from_str("Float"),
                float_val: Some(*f),
                ..empty_row
            };
            proof {
                assert(r@ =~= spec_encode(a@));
            }
            r
        },
        ListAttribute::Integer(i) => {
            let r = AttributeRow {
                attribute_type: crate::text::string_from_str("Integer"),
                integer_val: Some(*i),
                ..empty_row
            };
            proof {
                assert(r@ =~= spec_encode(a@));
            }
            r
        },
        ListAttribute::Price(p) => {
            let r = AttributeRow {
                attribute_type: crate::text::string_from_str("Price"),
                text_val: Some(encode_price(p)),
                ..empty_row
            };
            proof {
                assert(r@ =~= spec_encode(a@));
            }
            r
        },
        ListAttribute::Text(s) => {
            let r = AttributeRow {
                attribute_type: crate::text::string_from_str("Text"),
                text_val: Some(crate::text::string_from_str(s.as_str())),
                ..empty_row
            };
            proof {
                assert(r@ =~= spec_encode(a@));
            }
            r
        },
    }
}

// ---------------------------------------------------------------------------
// Tag parsing for access and type labels
// ---------------------------------------------------------------------------

pub open spec fn spec_parse_access(s: Seq<char>) -> ListAccess {
    if s == "Private"@ {
        ListAccess::Private
    } else if s == "Shared"@ {
        ListAccess::Shared
    } else {
        ListAccess::Public
    }
}

/// Reads an access label; anything unrecognized reads as `Public`.
pub fn parse_list_access(s: &str) -> (r: ListAccess)
    ensures
        r == spec_parse_access(s@),
{
    if str_eq(s, "Private") {
        ListAccess::Private
    } else if str_eq(s, "Shared") {
        ListAccess::Shared
    } else {
        proof {
            reveal_strlit("Public");
            reveal_strlit("Private");
            reveal_strlit("Shared");
        }
        ListAccess::Public
    }
}

pub open spec fn spec_parse_list_type(s: Seq<char>) -> ListType {
    if s == "System"@ {
        ListType::System
    } else if s == "Transient"@ {
        ListType::Transient
    } else {
        ListType::Standard
    }
}

/// Reads a list-type label; anything unrecognized reads as `Standard`.
pub fn parse_list_type(s: &str) -> (r: ListType)
    ensures
        r == spec_parse_list_type(s@),
{
    if str_eq(s, "System") {
        ListType::System
    } else if str_eq(s, "Transient") {
        ListType::Transient
    } else {
        ListType::Standard
    }
}

// ---------------------------------------------------------------------------
// The round-trip law
// ---------------------------------------------------------------------------

/// The characters a decimal renders to: sign, digits and the point; never
/// whitespace, never the letter `s`.
proof fn lemma_dv_chars_plain(d: DecV)
    requires
        dv_wf(d),
    ensures
        dv_chars(d).len() > 0,
        forall|i: int| 0 <= i < dv_chars(d).len() ==> !is_space(#[trigger] dv_chars(d)[i])
            && dv_chars(d)[i] != 's' && dv_chars(d)[i] != '_',
{
    let mag = if d.m >= 0 {
        d.m
    } else {
        -d.m
    };
    let digs = dec_digits(mag);
    lemma_dec_digits(mag);
    let pad = if digs.len() >= d.s + 1 {
        digs
    } else {
        zero_chars((d.s + 1 - digs.len()) as nat) + digs
    };
    lemma_zero_chars((d.s + 1 - digs.len()) as nat);
    assert(crate::decimal::all_digits(pad)) by {
        if digs.len() < d.s + 1 {
            let z = zero_chars((d.s + 1 - digs.len()) as nat);
            assert(forall|i: int| 0 <= i < pad.len() ==> pad[i] == if i < z.len() {
                z[i]
            } else {
                digs[i - z.len()]
            });
        }
    }
    assert(forall|i: int| 0 <= i < pad.len() ==> is_digit_char(#[trigger] pad[i]));
    let c = dv_chars(d);
    assert(forall|i: int| 0 <= i < c.len() ==> (is_digit_char(#[trigger] c[i]) || c[i] == '-'
        || c[i] == '.'));
    assert(forall|i: int| 0 <= i < c.len() ==> !is_space(#[trigger] c[i]) && c[i] != 's' && c[i]
        != '_') by {
        assert(forall|x: char| is_digit_char(x) ==> !is_space(x) && x != 's' && x != '_');
        assert(!is_space('-') && !is_space('.'));
    }
}

/// Encoding then decoding is lossless for every attribute whose shape allows
/// it: every variant as it stands, with a price's source non-empty and free
/// of the letter `s` — the one region the text pattern can capture back.
pub proof fn lemma_attribute_round_trip(a: AttrV, now: i64)
    requires
        attr_wf(a),
        a matches AttrV::Price(p) ==> p.source.len() > 0 && no_letter_s(p.source),
    ensures
        row_ok(spec_encode(a)),
        spec_decode(spec_encode(a), now) == a,
{
    reveal_strlit("Boolean");
    reveal_strlit("DateTime");
    reveal_strlit("Float");
    reveal_strlit("Integer");
    reveal_strlit("Price");
    reveal_strlit("Text");
    let row = spec_encode(a);
    match a {
        AttrV::Boolean(_) => {
            assert(row.attribute_type == "Boolean"@);
            assert(row_ok(row)) by {
                assert("Boolean"@.len() == 7 && "Price"@.len() == 5);
            }
        },
        AttrV::DateTime(_) => {
            assert(row.attribute_type != "Boolean"@) by {
                assert("DateTime"@.len() == 8 && "Boolean"@.len() == 7);
            }
            assert(row_ok(row)) by {
                assert("DateTime"@.len() == 8 && "Price"@.len() == 5);
            }
        },
        AttrV::Float(_) => {
            assert(row.attribute_type != "Boolean"@ && row.attribute_type != "DateTime"@) by {
                assert("Float"@.len() == 5 && "Boolean"@.len() == 7 && "DateTime"@.len() == 8);
            }
            assert(row_ok(row)) by {
                assert("Float"@[0] == 'F' && "Price"@[0] == 'P');
            }
        },
        AttrV::Integer(_) => {
            assert(row.attribute_type != "Boolean"@) by {
                assert("Integer"@[0] == 'I' && "Boolean"@[0] == 'B');
            }
            assert(row.attribute_type != "DateTime"@ && row.attribute_type != "Float"@) by {
                assert("Integer"@.len() == 7 && "DateTime"@.len() == 8 && "Float"@.len() == 5);
            }
            assert(row_ok(row)) by {
                assert("Integer"@.len() == 7 && "Price"@.len() == 5);
            }
        },
        AttrV::Price(p) => {
            assert(row.attribute_type != "Boolean"@ && row.attribute_type != "Integer"@) by {
                assert("Price"@.len() == 5 && "Boolean"@.len() == 7 && "Integer"@.len() == 7);
            }
            assert(row.attribute_type != "DateTime"@) by {
                assert("Price"@.len() == 5 && "DateTime"@.len() == 8);
            }
            assert(row.attribute_type != "Float"@) by {
                assert("Price"@[0] == 'P' && "Float"@[0] == 'F');
            }
            let t = price_text(p);
            lemma_price_text_captures(p);
            lemma_parse_of_chars(p.amount);
            assert(spec_to_price(t) == PriceV { amount: p.amount, source: p.source });
            assert(spec_decode(row, now) == AttrV::Price(p));
        },
        AttrV::Text(_) => {
            assert(row.attribute_type != "Boolean"@ && row.attribute_type != "Integer"@) by {
                assert("Text"@.len() == 4 && "Boolean"@.len() == 7 && "Integer"@.len() == 7);
            }
            assert(row.attribute_type != "DateTime"@) by {
                assert("Text"@.len() == 4 && "DateTime"@.len() == 8);
            }
            assert(row.attribute_type != "Float"@ && row.attribute_type != "Price"@) by {
                assert("Text"@.len() == 4 && "Float"@.len() == 5 && "Price"@.len() == 5);
            }
        },
    }
}

/// The pattern reads a rendered price back exactly, when the source is
/// non-empty and free of the letter `s`.
proof fn lemma_price_text_captures(p: PriceV)
    requires
        dv_wf(p.amount),
        p.source.len() > 0,
        no_letter_s(p.source),
    ensures
        price_capture(price_text(p)) == Some((dv_chars(p.amount), p.source)),
{
    reveal_strlit("PRICE:");
    reveal_strlit("PRICE: _");
    reveal_strlit(" _");
    let a = dv_chars(p.amount);
    lemma_dv_chars_plain(p.amount);
    let t = price_text(p);
    assert(t.len() == 8 + a.len() as int + 2 + p.source.len());
    assert(forall|i: int| 0 <= i < 8 ==> t[i] == "PRICE: _"@[i]);
    assert(forall|i: int| 0 <= i < a.len() ==> t[8 + i] == a[i]);
    assert(t[8 + a.len() as int] == ' ' && t[8 + a.len() as int + 1] == '_');
    assert(forall|i: int| 0 <= i < p.source.len() ==> t[8 + a.len() as int + 2 + i] == p.source[i]);
    assert(t.take(6) =~= "PRICE:"@);
    assert(is_space(t[6]) && t[7] == '_');
    assert(run_at(t, 8) == a) by {
        assert(forall|k: int| 8 <= k < 8 + a.len() as int ==> !is_space(t[k]));
        assert(is_space(t[8 + a.len() as int]));
        crate::text::lemma_run_at_chars(t, 8, 8 + a.len() as int);
        assert(t.subrange(8, 8 + a.len() as int) =~= a);
    }
    let i = 8 + a.len() as int;
    assert(a.len() > 0 && i + 1 < t.len() && is_space(t[i]) && t[i + 1] == '_');
    assert(t.skip(i + 2) =~= p.source);
}

} // verus!
