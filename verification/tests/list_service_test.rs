use list_management::common::{
    ItemList, ListAccess, ListType, PagingRequest, SortRequest,
};
use list_management::list_of_lists_service::ListProvider;
use list_management::list_service::retrieve_list;
use list_management::selector::ListSelector;

struct MockListProvider {
    lists: Vec<ItemList>,
}

impl ListProvider for MockListProvider {
    fn retrieve_lists(
        &self,
        _lists: Vec<ItemList>,
        _selector: ListSelector,
        _paging: PagingRequest,
        _sort: SortRequest,
        _return_attributes: bool,
        _return_rollups: bool,
    ) -> Vec<ItemList> {
        self.lists.clone()
    }
}

fn il(id: u64, name: String) -> ItemList {
    ItemList {
        id: Some(id),
        attributes: Default::default(),
        created: Default::default(),
        deleted: false,
        folder: "".to_string(),
        items: None,
        list_access: ListAccess::Private,
        list_accounts: vec![],
        list_type: ListType::Standard,
        modified: Default::default(),
        name,
        read_only: false,
        rollups: None,
    }
}

#[test]
pub fn test_retrieve_list() {
    let lists = vec![il(1, "one".to_string()), il(2, "two".to_string())];
    let provider = MockListProvider { lists };
    assert_eq!("one", retrieve_list(&provider, vec![], 1).unwrap().name);

    let provider = MockListProvider { lists: vec![] };
    assert!(retrieve_list(&provider, vec![], 3).is_err());
}

#[test]
fn test_retrieve_list_not_found_message() {
    let provider = MockListProvider { lists: vec![] };
    let err = retrieve_list(&provider, vec![], 42).unwrap_err();
    assert_eq!("Not Found: 42", err.message());
}
