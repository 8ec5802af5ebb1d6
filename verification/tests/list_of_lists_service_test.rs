use list_management::common::{
    Account, AccountType, ItemList, ItemListRollup, ListAccess, ListAttribute, ListItem, ListType,
    PagingRequest, Price, SortKey, SortRequest,
};
use list_management::decimal::DecimalValue;
use list_management::list_of_lists_service::{ListOfListsService, ListProvider};
use list_management::selector::ListSelector;

fn dec(s: &str) -> DecimalValue {
    DecimalValue::from_text(s).unwrap()
}

fn price(amount: &str, source: &str) -> Price {
    Price { amount: dec(amount), source: source.to_string() }
}

fn account() -> Account {
    Account {
        id: Some(100),
        account_type: AccountType {
            id: Some(1000),
            name: "AT1".to_string(),
            source: "AT1 SOURCE".to_string(),
        },
        account_source_id: "AT1-ZERO".to_string(),
    }
}

fn item(id: u64, name: &str, attributes: Vec<(String, ListAttribute)>) -> ListItem {
    ListItem {
        id: Some(id),
        attributes,
        created: 0,
        modified: 0,
        name: name.to_string(),
        source: "a-source".to_string(),
    }
}

fn item_attrs(qty: i64, xyz: &str, qwe: Option<&str>) -> Vec<(String, ListAttribute)> {
    let mut v: Vec<(String, ListAttribute)> = vec![
        ("quantity".to_string(), ListAttribute::Integer(qty)),
        (
            "xyz".to_string(),
            ListAttribute::Price(price(xyz, "xyz-source")),
        ),
    ];
    if let Some(q) = qwe {
        v.push((
            "qwe".to_string(),
            ListAttribute::Price(price(q, "qwe-source")),
        ));
    }
    v
}

fn list_attrs(
    price_amount: &str,
    boolean: bool,
    date: i64,
    text: &str,
) -> Vec<(String, ListAttribute)> {
    vec![
        (
            "my price".to_string(),
            ListAttribute::Price(price(price_amount, "a-source")),
        ),
        ("my boolean".to_string(), ListAttribute::Boolean(boolean)),
        ("my date".to_string(), ListAttribute::DateTime(date)),
        (
            "my float".to_string(),
            ListAttribute::Float(((-0.1f32) as f64).to_bits()),
        ),
        ("my integer".to_string(), ListAttribute::Integer(1)),
        ("my text".to_string(), ListAttribute::Text(text.to_string())),
    ]
}

/// The three candidate lists the store would hand over, ordered by id, with
/// items and attributes included on demand.
fn setup(need_items: bool, need_attributes: bool) -> Vec<ItemList> {
    let attrs1 = if need_attributes {
        list_attrs("3.33", true, 20, "default B1 My Name")
    } else {
        vec![]
    };
    let attrs2 = if need_attributes {
        list_attrs("1.11", false, 19, "archive C2 Your Name")
    } else {
        vec![]
    };
    let attrs3 = if need_attributes {
        list_attrs("2.22", false, 21, "default A3 Naming")
    } else {
        vec![]
    };
    let items1 = if need_items {
        vec![
            item(
                101,
                "B1 My Name item one",
                if need_attributes { item_attrs(2, "3.33", None) } else { vec![] },
            ),
            item(
                201,
                "B1 My Name item two",
                if need_attributes { item_attrs(2, "3.33", Some("2.34")) } else { vec![] },
            ),
            item(
                301,
                "B1 My Name item three",
                if need_attributes { item_attrs(2, "3.33", Some("2.34")) } else { vec![] },
            ),
        ]
    } else {
        vec![]
    };
    let items2 = if need_items {
        vec![
            item(
                102,
                "C2 Your Name item one",
                if need_attributes { item_attrs(2, "1.11", None) } else { vec![] },
            ),
            item(
                202,
                "C2 Your Name item two",
                if need_attributes { item_attrs(2, "1.11", Some("2.34")) } else { vec![] },
            ),
            item(
                302,
                "C2 Your Name item three",
                if need_attributes { item_attrs(2, "1.11", Some("2.34")) } else { vec![] },
            ),
        ]
    } else {
        vec![]
    };
    let items3 = if need_items {
        vec![
            item(
                103,
                "A3 Naming item one",
                if need_attributes { item_attrs(2, "2.22", None) } else { vec![] },
            ),
            item(
                203,
                "A3 Naming item two",
                if need_attributes { item_attrs(2, "2.22", Some("2.34")) } else { vec![] },
            ),
            item(
                303,
                "A3 Naming item three",
                if need_attributes { item_attrs(2, "2.22", Some("2.34")) } else { vec![] },
            ),
        ]
    } else {
        vec![]
    };
    vec![
        ItemList {
            id: Some(1),
            attributes: attrs1,
            created: 20,
            deleted: true,
            folder: "default".to_string(),
            items: Some(items1),
            list_access: ListAccess::Public,
            list_accounts: vec![account()],
            list_type: ListType::Standard,
            modified: 19,
            name: "B1 My Name".to_string(),
            read_only: false,
            rollups: None,
        },
        ItemList {
            id: Some(2),
            attributes: attrs2,
            created: 19,
            deleted: false,
            folder: "archive".to_string(),
            items: Some(items2),
            list_access: ListAccess::Private,
            list_accounts: vec![account()],
            list_type: ListType::System,
            modified: 21,
            name: "C2 Your Name".to_string(),
            read_only: false,
            rollups: None,
        },
        ItemList {
            id: Some(3),
            attributes: attrs3,
            created: 21,
            deleted: false,
            folder: "default".to_string(),
            items: Some(items3),
            list_access: ListAccess::Shared,
            list_accounts: vec![account()],
            list_type: ListType::Transient,
            modified: 20,
            name: "A3 Naming".to_string(),
            read_only: false,
            rollups: None,
        },
    ]
}

fn paging(start: u64, rows: u64) -> PagingRequest {
    PagingRequest { start, rows }
}

fn selector() -> ListSelector {
    ListSelector {
        limit_show_read_only: true,
        limit_list_access: vec![],
        limit_list_types: vec![],
        limit_show_deleted: true,
        limit_show_not_deleted: true,
        limit_in_folders: vec![],
        limit_name_keywords: None,
        limit_list_ids: vec![],
    }
}

fn sort(key: SortKey, descending: bool) -> SortRequest {
    SortRequest { descending, key }
}

fn rollup<'a>(v: &'a [(String, ItemListRollup)], k: &str) -> &'a ItemListRollup {
    &v.iter().find(|p| p.0 == k).unwrap().1
}

#[test]
fn test_retrieve_all_lists_by_id() {
    let results = ListOfListsService().retrieve_lists(
        setup(false, false),
        selector(),
        paging(0, 10),
        sort(SortKey::Id, false),
        false,
        false,
    );
    assert_eq!(3, results.len());
    assert_eq!(1, results[0].id.unwrap());
    assert_eq!(2, results[1].id.unwrap());
    assert_eq!(3, results[2].id.unwrap());
    assert!(results[0].attributes.is_empty());
    assert!(results[1].attributes.is_empty());
    assert!(results[2].attributes.is_empty());
    assert!(results[0].rollups.is_none());
    assert!(results[1].rollups.is_none());
    assert!(results[2].rollups.is_none());
    assert_eq!(1, results[0].list_accounts.len());
    assert_eq!(1, results[1].list_accounts.len());
    assert_eq!(1, results[2].list_accounts.len());
}

#[test]
fn test_retrieve_all_lists_by_id_with_attributes_and_rollups() {
    let results = ListOfListsService().retrieve_lists(
        setup(true, true),
        selector(),
        paging(0, 10),
        sort(SortKey::Id, false),
        true,
        true,
    );
    assert_eq!(3, results.len());
    assert_eq!(1, results[0].id.unwrap());
    assert_eq!(2, results[1].id.unwrap());
    assert_eq!(3, results[2].id.unwrap());
    assert!(!results[0].attributes.is_empty());
    assert!(!results[1].attributes.is_empty());
    assert!(!results[2].attributes.is_empty());
    let list_0_rollups = results[0].rollups.clone().unwrap();
    let list_1_rollups = results[1].rollups.clone().unwrap();
    let list_2_rollups = results[2].rollups.clone().unwrap();
    assert_eq!(2, list_0_rollups.len());

    let l0r_xyz = rollup(&list_0_rollups, "xyz");
    assert_eq!(3, l0r_xyz.total_lines);
    assert_eq!(6, l0r_xyz.total_units);
    assert_eq!("xyz-source", l0r_xyz.total_amount.source);
    assert_eq!(dec("19.98"), l0r_xyz.total_amount.amount);

    let l0r_qwe = rollup(&list_0_rollups, "qwe");
    assert_eq!(2, l0r_qwe.total_lines);
    assert_eq!(4, l0r_qwe.total_units);
    assert_eq!("qwe-source", l0r_qwe.total_amount.source);
    assert_eq!(dec("9.36"), l0r_qwe.total_amount.amount);

    assert_eq!(2, list_1_rollups.len());

    let l1r_xyz = rollup(&list_1_rollups, "xyz");
    assert_eq!(3, l1r_xyz.total_lines);
    assert_eq!(6, l1r_xyz.total_units);
    assert_eq!("xyz-source", l1r_xyz.total_amount.source);
    assert_eq!(dec("6.66"), l1r_xyz.total_amount.amount);

    let l1r_qwe = rollup(&list_1_rollups, "qwe");
    assert_eq!(2, l1r_qwe.total_lines);
    assert_eq!(4, l1r_qwe.total_units);
    assert_eq!("qwe-source", l1r_qwe.total_amount.source);
    assert_eq!(dec("9.36"), l1r_qwe.total_amount.amount);

    assert_eq!(2, list_2_rollups.len());
}

#[test]
fn test_retrieve_all_lists_by_name() {
    let results = ListOfListsService().retrieve_lists(
        setup(false, false),
        selector(),
        paging(0, 10),
        sort(SortKey::Name, false),
        true,
        true,
    );
    assert_eq!(3, results.len());
    assert_eq!("A3 Naming", results[0].name);
    assert_eq!("B1 My Name", results[1].name);
    assert_eq!("C2 Your Name", results[2].name);
}

#[test]
fn test_retrieve_all_lists_by_id_descending() {
    let results = ListOfListsService().retrieve_lists(
        setup(false, false),
        selector(),
        paging(0, 10),
        sort(SortKey::Id, true),
        true,
        true,
    );
    assert_eq!(3, results.len());
    assert_eq!(3, results[0].id.unwrap());
    assert_eq!(2, results[1].id.unwrap());
    assert_eq!(1, results[2].id.unwrap());
}

#[test]
fn test_retrieve_all_lists_by_name_descending() {
    let results = ListOfListsService().retrieve_lists(
        setup(false, false),
        selector(),
        paging(0, 10),
        sort(SortKey::Name, true),
        true,
        true,
    );
    assert_eq!(3, results.len());
    assert_eq!("C2 Your Name", results[0].name);
    assert_eq!("B1 My Name", results[1].name);
    assert_eq!("A3 Naming", results[2].name);
}

#[test]
fn test_retrieve_all_lists_by_create_date() {
    let results = ListOfListsService().retrieve_lists(
        setup(false, false),
        selector(),
        paging(0, 10),
        sort(SortKey::CreatedDate, false),
        true,
        true,
    );
    assert_eq!(3, results.len());
    assert_eq!(2, results[0].id.unwrap());
    assert_eq!(1, results[1].id.unwrap());
    assert_eq!(3, results[2].id.unwrap());
}

#[test]
fn test_retrieve_all_lists_by_modified_date_descending() {
    let results = ListOfListsService().retrieve_lists(
        setup(false, false),
        selector(),
        paging(0, 10),
        sort(SortKey::ModifiedDate, true),
        true,
        true,
    );
    assert_eq!(3, results.len());
    assert_eq!(2, results[0].id.unwrap());
    assert_eq!(3, results[1].id.unwrap());
    assert_eq!(1, results[2].id.unwrap());
}

#[test]
fn test_retrieve_all_lists_by_nonexistent_attribute_descending() {
    let results = ListOfListsService().retrieve_lists(
        setup(false, false),
        selector(),
        paging(0, 10),
        sort(SortKey::Attribute("does not exist".to_string()), false),
        true,
        true,
    );
    assert_eq!(3, results.len());
    assert_eq!(1, results[0].id.unwrap());
    assert_eq!(2, results[1].id.unwrap());
    assert_eq!(3, results[2].id.unwrap());
}

#[test]
fn test_retrieve_all_lists_by_boolean_attribute_descending() {
    let results = ListOfListsService().retrieve_lists(
        setup(false, true),
        selector(),
        paging(0, 10),
        sort(SortKey::Attribute("my boolean".to_string()), true),
        true,
        true,
    );
    assert_eq!(3, results.len());
    assert_eq!(1, results[0].id.unwrap()); // has true
    assert_eq!(3, results[1].id.unwrap()); // has false, id (descending) tie-breaker
    assert_eq!(2, results[2].id.unwrap()); // has false, id (descending) tie-breaker
}

#[test]
fn test_retrieve_all_lists_by_float_attribute() {
    let results = ListOfListsService().retrieve_lists(
        setup(false, true),
        selector(),
        paging(0, 10),
        sort(SortKey::Attribute("my float".to_string()), false),
        true,
        true,
    );
    assert_eq!(3, results.len());
    assert_eq!(3, results[0].id.unwrap());
    assert_eq!(2, results[1].id.unwrap());
    assert_eq!(1, results[2].id.unwrap());
}

#[test]
fn test_retrieve_all_lists_by_integer_attribute() {
    let results = ListOfListsService().retrieve_lists(
        setup(false, false),
        selector(),
        paging(0, 10),
        sort(SortKey::Attribute("my integer".to_string()), false),
        true,
        true,
    );
    assert_eq!(3, results.len());
    assert_eq!(1, results[0].id.unwrap());
    assert_eq!(2, results[1].id.unwrap());
    assert_eq!(3, results[2].id.unwrap());
}

#[test]
fn test_retrieve_all_lists_by_price_attribute() {
    let results = ListOfListsService().retrieve_lists(
        setup(false, true),
        selector(),
        paging(0, 10),
        sort(SortKey::Attribute("my price".to_string()), false),
        true,
        true,
    );
    assert_eq!(3, results.len());
    assert_eq!(2, results[0].id.unwrap());
    assert_eq!(3, results[1].id.unwrap());
    assert_eq!(1, results[2].id.unwrap());
}

#[test]
fn test_retrieve_all_lists_by_text_attribute() {
    let results = ListOfListsService().retrieve_lists(
        setup(false, true),
        selector(),
        paging(0, 10),
        sort(SortKey::Attribute("my text".to_string()), false),
        true,
        true,
    );
    assert_eq!(3, results.len());
    assert_eq!(2, results[0].id.unwrap()); // archive C2 Your Name
    assert_eq!(3, results[1].id.unwrap()); // default A3 naming
    assert_eq!(1, results[2].id.unwrap()); // default B1 My Name
}

#[test]
fn test_retrieve_all_lists_by_date_attribute() {
    let results = ListOfListsService().retrieve_lists(
        setup(false, true),
        selector(),
        paging(0, 10),
        sort(SortKey::Attribute("my date".to_string()), false),
        true,
        true,
    );
    assert_eq!(3, results.len());
    assert_eq!(2, results[0].id.unwrap());
    assert_eq!(1, results[1].id.unwrap());
    assert_eq!(3, results[2].id.unwrap());
}

#[test]
fn test_retrieve_all_lists_with_paging() {
    let results = ListOfListsService().retrieve_lists(
        setup(false, false),
        selector(),
        paging(1, 1),
        sort(SortKey::Id, false),
        true,
        true,
    );
    assert_eq!(1, results.len());
    assert_eq!(2, results[0].id.unwrap());
}

#[test]
fn test_retrieve_all_lists_with_paging_beyond_end() {
    let results = ListOfListsService().retrieve_lists(
        setup(false, false),
        selector(),
        paging(3, 10),
        sort(SortKey::Id, false),
        true,
        true,
    );
    assert_eq!(0, results.len());
}

#[test]
fn test_retrieve_all_lists_with_no_rows_requested() {
    let results = ListOfListsService().retrieve_lists(
        setup(false, false),
        selector(),
        paging(0, 0),
        sort(SortKey::Id, false),
        true,
        true,
    );
    assert_eq!(0, results.len());
}

#[test]
fn test_retrieve_not_deleted_lists_by_id() {
    let mut selector = selector();
    selector.limit_show_deleted = false;
    let results = ListOfListsService().retrieve_lists(
        setup(false, false),
        selector,
        paging(0, 10),
        sort(SortKey::Id, false),
        true,
        true,
    );
    assert_eq!(2, results.len());
    assert_eq!(2, results[0].id.unwrap());
    assert_eq!(3, results[1].id.unwrap());
}

#[test]
fn test_retrieve_deleted_lists_by_id() {
    let mut selector = selector();
    selector.limit_show_not_deleted = false;
    let results = ListOfListsService().retrieve_lists(
        setup(false, false),
        selector,
        paging(0, 10),
        sort(SortKey::Id, false),
        true,
        true,
    );
    assert_eq!(1, results.len());
    assert_eq!(1, results[0].id.unwrap());
}

#[test]
fn test_retrieve_editable_lists_by_id() {
    let mut selector = selector();
    selector.limit_show_read_only = false;
    let results = ListOfListsService().retrieve_lists(
        setup(false, false),
        selector,
        paging(0, 10),
        sort(SortKey::Id, false),
        true,
        true,
    );
    assert_eq!(3, results.len());
    assert_eq!(1, results[0].id.unwrap());
    assert_eq!(2, results[1].id.unwrap());
    assert_eq!(3, results[2].id.unwrap());
}

#[test]
fn test_retrieve_lists_in_archive_folder_by_id() {
    let mut selector = selector();
    selector.limit_in_folders = vec!["archive".to_string()];
    let results = ListOfListsService().retrieve_lists(
        setup(false, false),
        selector,
        paging(0, 10),
        sort(SortKey::Id, false),
        true,
        true,
    );
    assert_eq!(1, results.len());
    assert_eq!(2, results[0].id.unwrap());
}

#[test]
fn test_retrieve_private_lists_by_id() {
    let mut selector = selector();
    selector.limit_list_access = vec![ListAccess::Private];
    let results = ListOfListsService().retrieve_lists(
        setup(false, false),
        selector,
        paging(0, 10),
        sort(SortKey::Id, false),
        true,
        true,
    );
    assert_eq!(1, results.len());
    assert_eq!(2, results[0].id.unwrap());
}

#[test]
fn test_retrieve_public_or_shared_lists_by_id() {
    let mut selector = selector();
    selector.limit_list_access = vec![ListAccess::Public, ListAccess::Shared];
    let results = ListOfListsService().retrieve_lists(
        setup(false, false),
        selector,
        paging(0, 10),
        sort(SortKey::Id, false),
        true,
        true,
    );
    assert_eq!(2, results.len());
    assert_eq!(1, results[0].id.unwrap());
    assert_eq!(3, results[1].id.unwrap());
}

#[test]
fn test_retrieve_transient_lists_by_id() {
    let mut selector = selector();
    selector.limit_list_types = vec![ListType::Transient];
    let results = ListOfListsService().retrieve_lists(
        setup(false, false),
        selector,
        paging(0, 10),
        sort(SortKey::Id, false),
        true,
        true,
    );
    assert_eq!(1, results.len());
    assert_eq!(3, results[0].id.unwrap());
}

#[test]
fn test_retrieve_standard_or_program_lists_by_id() {
    let mut selector = selector();
    selector.limit_list_types = vec![ListType::Standard, ListType::System];
    let results = ListOfListsService().retrieve_lists(
        setup(false, false),
        selector,
        paging(0, 10),
        sort(SortKey::Id, false),
        true,
        true,
    );
    assert_eq!(2, results.len());
    assert_eq!(1, results[0].id.unwrap());
    assert_eq!(2, results[1].id.unwrap());
}

#[test]
fn test_retrieve_lists_with_keyword_by_id() {
    let mut selector = selector();
    selector.limit_name_keywords = Some("name".to_string());
    let results = ListOfListsService().retrieve_lists(
        setup(false, false),
        selector,
        paging(0, 10),
        sort(SortKey::Id, false),
        true,
        true,
    );
    assert_eq!(2, results.len());
    assert_eq!(1, results[0].id.unwrap());
    assert_eq!(2, results[1].id.unwrap());
}

#[test]
fn test_retrieve_lists_with_wildcard_keyword_by_id() {
    let mut selector = selector();
    selector.limit_name_keywords = Some("nam*".to_string());
    let results = ListOfListsService().retrieve_lists(
        setup(false, false),
        selector,
        paging(0, 10),
        sort(SortKey::Id, false),
        true,
        true,
    );
    assert_eq!(3, results.len());
    assert_eq!(1, results[0].id.unwrap());
    assert_eq!(2, results[1].id.unwrap());
    assert_eq!(3, results[2].id.unwrap());
}

#[test]
fn test_retrieve_lists_with_multiple_keyword_by_id() {
    let mut selector = selector();
    selector.limit_name_keywords = Some("Nam* c2".to_string());
    let results = ListOfListsService().retrieve_lists(
        setup(false, false),
        selector,
        paging(0, 10),
        sort(SortKey::Id, false),
        true,
        true,
    );
    assert_eq!(1, results.len());
    assert_eq!(2, results[0].id.unwrap());
}

#[test]
fn test_retrieve_lists_by_list_id() {
    let mut selector = selector();
    selector.limit_list_ids = vec![1, 2];
    let results = ListOfListsService().retrieve_lists(
        setup(false, false),
        selector,
        paging(0, 10),
        sort(SortKey::Id, false),
        true,
        true,
    );
    assert_eq!(2, results.len());
    assert_eq!(1, results[0].id.unwrap());
    assert_eq!(2, results[1].id.unwrap());
}

#[test]
fn test_page_truncates_scan_not_filtered_results() {
    // the middle list is filtered out; a two-row page over the raw scan
    // yields only the first list, though the third would also match
    let mut selector = selector();
    selector.limit_show_deleted = false;
    let mut lists = setup(false, false);
    lists[0].deleted = false;
    lists[1].deleted = true;
    lists[2].deleted = false;
    let results = ListOfListsService().retrieve_lists(
        lists,
        selector,
        paging(0, 2),
        sort(SortKey::Id, false),
        true,
        true,
    );
    assert_eq!(1, results.len());
    assert_eq!(1, results[0].id.unwrap());
}

#[test]
fn test_bare_star_keyword_is_exact() {
    // a keyword of `*` alone is no wildcard: it asks for a literal `*` token
    let mut selector = selector();
    selector.limit_name_keywords = Some("*".to_string());
    let results = ListOfListsService().retrieve_lists(
        setup(false, false),
        selector,
        paging(0, 10),
        sort(SortKey::Id, false),
        true,
        true,
    );
    assert_eq!(0, results.len());
}

#[test]
fn list_of_lists_service_test_test_nothing() {
    let me = "make my IDE recognize this as a test mod!";
    assert_ne!("not testing", me);
}
