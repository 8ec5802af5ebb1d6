use list_management::codec::{
    decode_attribute, encode_attribute, encode_price, parse_list_access, parse_list_type,
    to_price, AttributeRow,
};
use list_management::common::{ListAccess, ListAttribute, ListType, Price};
use list_management::decimal::DecimalValue;

fn dec(s: &str) -> DecimalValue {
    DecimalValue::from_text(s).unwrap()
}

fn price(amount: &str, source: &str) -> Price {
    Price { amount: dec(amount), source: source.to_string() }
}

#[test]
fn test_price_text_parses_back() {
    let p = price("3.33", "a-origin");
    let text = encode_price(&p);
    assert_eq!("PRICE: _3.33 _a-origin", text);
    let back = to_price(text.as_str());
    assert_eq!(p, back);
}

#[test]
fn test_price_text_rejects_malformed() {
    let zero = price("0.00", "");
    assert_eq!(zero, to_price(""));
    assert_eq!(zero, to_price("PRICE 3.33"));
    assert_eq!(zero, to_price("PRICE: 3.33"));
    assert_eq!(zero, to_price("PRICE: _3.33"));
    assert_eq!(zero, to_price("PRICE: _3.33 _"));
}

#[test]
fn test_price_source_with_letter_s_is_lost() {
    // the source group excludes the letter `s`, so such a source fails the
    // pattern and decodes to the zero fallback: a known-broken round trip
    let p = price("1.23", "has-an-s");
    let text = encode_price(&p);
    let back = to_price(text.as_str());
    assert_eq!(price("0.00", ""), back);
    assert_ne!(p, back);
}

#[test]
fn test_price_source_with_spaces_survives() {
    let p = price("1.23", "a b c");
    let back = to_price(encode_price(&p).as_str());
    assert_eq!(p, back);
}

#[test]
fn test_round_trip_boolean() {
    let a = ListAttribute::Boolean(true);
    assert_eq!(a, decode_attribute(&encode_attribute(&a), 7));
}

#[test]
fn test_round_trip_date_time() {
    let a = ListAttribute::DateTime(1721433600);
    assert_eq!(a, decode_attribute(&encode_attribute(&a), 7));
}

#[test]
fn test_round_trip_float() {
    let a = ListAttribute::Float((-0.1f64).to_bits());
    assert_eq!(a, decode_attribute(&encode_attribute(&a), 7));
}

#[test]
fn test_round_trip_integer() {
    let a = ListAttribute::Integer(-123);
    assert_eq!(a, decode_attribute(&encode_attribute(&a), 7));
}

#[test]
fn test_round_trip_price() {
    let a = ListAttribute::Price(price("19.98", "xyz-cod"));
    assert_eq!(a, decode_attribute(&encode_attribute(&a), 7));
}

#[test]
fn test_round_trip_text() {
    let a = ListAttribute::Text("my text".to_string());
    assert_eq!(a, decode_attribute(&encode_attribute(&a), 7));
}

#[test]
fn test_decode_fallbacks() {
    let row = AttributeRow {
        attribute_type: "Boolean".to_string(),
        bool_val: None,
        timestamp_val: None,
        float_val: None,
        integer_val: None,
        text_val: None,
    };
    assert_eq!(ListAttribute::Boolean(false), decode_attribute(&row, 7));

    let row = AttributeRow { attribute_type: "DateTime".to_string(), ..row };
    assert_eq!(ListAttribute::DateTime(7), decode_attribute(&row, 7));

    let row = AttributeRow { attribute_type: "Float".to_string(), ..row };
    assert_eq!(ListAttribute::Float(0), decode_attribute(&row, 7));

    let row = AttributeRow { attribute_type: "Integer".to_string(), ..row };
    assert_eq!(ListAttribute::Integer(0), decode_attribute(&row, 7));

    let row = AttributeRow { attribute_type: "Price".to_string(), ..row };
    assert_eq!(ListAttribute::Price(price("0.00", "")), decode_attribute(&row, 7));

    let row = AttributeRow { attribute_type: "Text".to_string(), ..row };
    assert_eq!(ListAttribute::Text("".to_string()), decode_attribute(&row, 7));
}

#[test]
fn test_decode_unknown_tag_reads_text_slot() {
    let row = AttributeRow {
        attribute_type: "Mystery".to_string(),
        bool_val: Some(true),
        timestamp_val: None,
        float_val: None,
        integer_val: None,
        text_val: Some("kept".to_string()),
    };
    assert_eq!(ListAttribute::Text("kept".to_string()), decode_attribute(&row, 7));
}

#[test]
fn test_parse_access_and_type_labels() {
    assert_eq!(ListAccess::Private, parse_list_access("Private"));
    assert_eq!(ListAccess::Public, parse_list_access("Public"));
    assert_eq!(ListAccess::Shared, parse_list_access("Shared"));
    assert_eq!(ListAccess::Public, parse_list_access("whatever"));
    assert_eq!(ListType::Standard, parse_list_type("Standard"));
    assert_eq!(ListType::System, parse_list_type("System"));
    assert_eq!(ListType::Transient, parse_list_type("Transient"));
    assert_eq!(ListType::Standard, parse_list_type("whatever"));
}

#[test]
fn test_decimal_parse_and_render() {
    let d = dec("19.98");
    assert_eq!(1998, d.mantissa);
    assert_eq!(2, d.scale);
    assert_eq!("19.98", d.to_text());
    assert_eq!("0.05", dec("0.05").to_text());
    assert_eq!("-1.10", dec("-1.10").to_text());
    assert_eq!("7", dec("7").to_text());
    assert!(DecimalValue::from_text("").is_none());
    assert!(DecimalValue::from_text("1.").is_none());
    assert!(DecimalValue::from_text(".5").is_none());
    assert!(DecimalValue::from_text("1.2.3").is_none());
    assert!(DecimalValue::from_text("abc").is_none());
}

#[test]
fn test_decimal_arithmetic() {
    let a = dec("3.33");
    let q = DecimalValue::from_u64(2);
    let prod = a.checked_mul(q).unwrap();
    assert_eq!(dec("6.66"), prod);
    let sum = prod.checked_add(dec("13.32")).unwrap();
    assert_eq!(dec("19.98"), sum);
    // mixed scales rescale to the finer one
    assert_eq!(dec("1.60"), dec("1.5").checked_add(dec("0.10")).unwrap());
    assert!(dec("1.11").le(dec("1.11")));
    assert!(dec("1.11").le(dec("1.2")));
    assert!(!dec("1.2").le(dec("1.11")));
    assert!(dec("-5").le(dec("0.01")));
}
