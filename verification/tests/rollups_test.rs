use list_management::common::{ListAttribute, ListItem, Price};
use list_management::decimal::DecimalValue;
use list_management::rollups::compute_rollup_values;

fn dec(s: &str) -> DecimalValue {
    DecimalValue::from_text(s).unwrap()
}

fn item(id: u64, attributes: Vec<(String, ListAttribute)>) -> ListItem {
    ListItem {
        id: Some(id),
        attributes,
        created: 0,
        modified: 0,
        name: "line".to_string(),
        source: "a-source".to_string(),
    }
}

fn priced_item(id: u64, qty: i64, key: &str, amount: &str) -> ListItem {
    item(
        id,
        vec![
            ("quantity".to_string(), ListAttribute::Integer(qty)),
            (
                key.to_string(),
                ListAttribute::Price(Price {
                    amount: dec(amount),
                    source: "xyz-source".to_string(),
                }),
            ),
        ],
    )
}

#[test]
fn test_rollup_same_amounts() {
    let items = vec![
        priced_item(1, 2, "xyz", "3.33"),
        priced_item(2, 2, "xyz", "3.33"),
        priced_item(3, 2, "xyz", "3.33"),
    ];
    let rollups = compute_rollup_values(true, &items).unwrap();
    assert_eq!(1, rollups.len());
    assert_eq!("xyz", rollups[0].0);
    assert_eq!(3, rollups[0].1.total_lines);
    assert_eq!(6, rollups[0].1.total_units);
    assert_eq!(dec("19.98"), rollups[0].1.total_amount.amount);
    assert_eq!("xyz-source", rollups[0].1.total_amount.source);
}

#[test]
fn test_rollup_mixed_amounts() {
    let items = vec![
        priced_item(1, 2, "xyz", "1.11"),
        priced_item(2, 2, "xyz", "2.22"),
        priced_item(3, 2, "xyz", "3.33"),
    ];
    let rollups = compute_rollup_values(true, &items).unwrap();
    assert_eq!(1, rollups.len());
    assert_eq!(3, rollups[0].1.total_lines);
    assert_eq!(6, rollups[0].1.total_units);
    assert_eq!(dec("13.32"), rollups[0].1.total_amount.amount);
}

#[test]
fn test_rollup_missing_quantity_counts_zero_units() {
    let items = vec![
        item(
            1,
            vec![(
                "xyz".to_string(),
                ListAttribute::Price(Price { amount: dec("5.00"), source: "src-free".to_string() }),
            )],
        ),
    ];
    let rollups = compute_rollup_values(true, &items).unwrap();
    assert_eq!(1, rollups.len());
    assert_eq!(1, rollups[0].1.total_lines);
    assert_eq!(0, rollups[0].1.total_units);
    assert_eq!(dec("0.00"), rollups[0].1.total_amount.amount);
}

#[test]
fn test_rollup_negative_quantity_wraps() {
    // the unit count reads the integer attribute as unsigned, so a negative
    // quantity wraps; a zero amount keeps the sum in range
    let items = vec![priced_item(1, -1, "xyz", "0")];
    let rollups = compute_rollup_values(true, &items).unwrap();
    assert_eq!(u64::MAX, rollups[0].1.total_units);
    assert_eq!(dec("0"), rollups[0].1.total_amount.amount);
}

#[test]
fn test_rollup_absent_when_not_requested() {
    let items = vec![priced_item(1, 2, "xyz", "3.33")];
    assert!(compute_rollup_values(false, &items).is_none());
}
