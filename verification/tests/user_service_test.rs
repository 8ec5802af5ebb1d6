use list_management::common::{Account, AccountType, User};
use list_management::user_service::{
    create_user, delete_user, insert_user, retrieve_user, UserStore,
};

fn account_type(id: u64, name: &str, source: &str) -> AccountType {
    AccountType { id: Some(id), name: name.to_string(), source: source.to_string() }
}

fn account(id: u64, at: AccountType, source_id: &str) -> Account {
    Account { id: Some(id), account_type: at, account_source_id: source_id.to_string() }
}

fn stub_account(id: u64) -> Account {
    Account {
        id: Some(id),
        account_type: AccountType { id: None, name: "".to_string(), source: "".to_string() },
        account_source_id: "".to_string(),
    }
}

#[test]
fn test_create_user() {
    let mut store = UserStore {
        users: vec![],
        accounts: vec![account(100, account_type(1000, "AT1", "AT1 SOURCE"), "AT1-ZERO")],
        next_id: 1,
    };
    let u1 = User {
        id: None,
        name: "My Name".to_string(),
        source: "My Source".to_string(),
        source_id: "My Id".to_string(),
        user_accounts: vec![stub_account(100)],
    };
    let u1 = create_user(&mut store, u1);
    assert!(u1.id.is_some());
    assert_eq!("My Name", u1.name);
    assert_eq!("My Source", u1.source);
    assert_eq!("My Id", u1.source_id);
    assert_eq!(1, u1.user_accounts.len());
    assert_eq!("AT1-ZERO", u1.user_accounts[0].account_source_id);
    assert_eq!("AT1", u1.user_accounts[0].account_type.name);
    assert_eq!("AT1 SOURCE", u1.user_accounts[0].account_type.source);
}

#[test]
fn test_retrieve_user() {
    let mut store = UserStore {
        users: vec![],
        accounts: vec![
            account(100, account_type(1000, "AT1", "AT1 SOURCE"), "AT1-ZERO"),
            account(101, account_type(1001, "AT2", "AT2 SOURCE"), "AT2-ONE"),
            account(102, account_type(1000, "AT1", "AT1 SOURCE"), "AT1-TWO"),
        ],
        next_id: 5,
    };
    let _ = create_user(
        &mut store,
        User {
            id: None,
            name: "User Five".to_string(),
            source: "source".to_string(),
            source_id: "source-id-5".to_string(),
            user_accounts: vec![stub_account(100), stub_account(101), stub_account(102)],
        },
    );
    let _ = create_user(
        &mut store,
        User {
            id: None,
            name: "User Six".to_string(),
            source: "source".to_string(),
            source_id: "source-id-6".to_string(),
            user_accounts: vec![stub_account(100), stub_account(102)],
        },
    );

    let u5 = retrieve_user(&store, "source", "source-id-5").unwrap();
    assert_eq!(5, u5.id.unwrap());
    assert_eq!("User Five", u5.name);
    assert_eq!(3, u5.user_accounts.len());
    assert_eq!("AT1-ZERO".to_string(), u5.user_accounts[0].account_source_id);
    assert_eq!("AT2".to_string(), u5.user_accounts[1].account_type.name);
    assert_eq!("AT1 SOURCE".to_string(), u5.user_accounts[2].account_type.source);

    let u6 = retrieve_user(&store, "source", "source-id-6").unwrap();
    assert_eq!(6, u6.id.unwrap());
    assert_eq!("User Six", u6.name);
    assert_eq!(2, u6.user_accounts.len());
    assert_eq!("AT1-ZERO".to_string(), u6.user_accounts[0].account_source_id);
    assert_eq!("AT1-TWO".to_string(), u6.user_accounts[1].account_source_id);
}

#[test]
fn test_user_storage() {
    let ac0 = AccountType { id: None, name: "".to_string(), source: "".to_string() };
    let mut store = UserStore {
        users: vec![],
        accounts: vec![
            account(1, account_type(1000, "account type 1", "at source 1"), "at source 1 one"),
            account(2, account_type(1001, "account type 2", "at source 2"), "at source 2 one"),
        ],
        next_id: 1,
    };
    let a1 = Account {
        id: Some(1),
        account_type: ac0.clone(),
        account_source_id: "".to_string(),
    };
    let a2 = Account {
        id: Some(2),
        account_type: ac0.clone(),
        account_source_id: "".to_string(),
    };
    let u1 = User {
        id: Some(0),
        name: "user One".to_string(),
        source: "s1".to_string(),
        source_id: "s1-1".to_string(),
        user_accounts: vec![a1.clone(), a2.clone()],
    };
    let u2 = User {
        id: Some(0),
        name: "user Two".to_string(),
        source: "s2".to_string(),
        source_id: "s2-1".to_string(),
        user_accounts: vec![a2.clone()],
    };
    let _ = create_user(&mut store, u1);
    let _ = create_user(&mut store, u2);

    let s1_11_opt = retrieve_user(&store, "s1", "s1-1");
    let s2_21_opt = retrieve_user(&store, "s2", "s2-1");
    let s2_11_opt = retrieve_user(&store, "s2", "s1-1");
    let s1_21_opt = retrieve_user(&store, "s1", "s2-1");

    assert!(s1_11_opt.is_some());
    assert!(s2_21_opt.is_some());
    assert!(s2_11_opt.is_none());
    assert!(s1_21_opt.is_none());

    let s1_11 = s1_11_opt.unwrap();
    assert!(s1_11.id > Some(0));
    assert_eq!("user One", s1_11.name);
    assert_eq!("s1", s1_11.source);
    assert_eq!("s1-1", s1_11.source_id);
    assert_eq!(2, s1_11.user_accounts.len());

    let s2_21 = s2_21_opt.unwrap();
    assert!(s2_21.id > Some(0));
    assert_eq!("user Two", s2_21.name);
    assert_eq!("s2", s2_21.source);
    assert_eq!("s2-1", s2_21.source_id);
    assert_eq!(2, s1_11.user_accounts.len());

    assert!(delete_user(&mut store, s1_11.id.unwrap()));
    assert!(!delete_user(&mut store, s1_11.id.unwrap()));
    assert!(delete_user(&mut store, s2_21.id.unwrap()));
    assert!(!delete_user(&mut store, s2_21.id.unwrap()));

    let count = store.users.len();
    assert_eq!(0, count);
}

#[test]
fn test_create_user_updates_in_place() {
    let mut store = UserStore { users: vec![], accounts: vec![], next_id: 1 };
    let first = create_user(
        &mut store,
        User {
            id: None,
            name: "Before".to_string(),
            source: "s".to_string(),
            source_id: "s-1".to_string(),
            user_accounts: vec![],
        },
    );
    let renamed = create_user(
        &mut store,
        User {
            id: first.id,
            name: "After".to_string(),
            source: "s".to_string(),
            source_id: "s-1".to_string(),
            user_accounts: vec![],
        },
    );
    assert_eq!(first.id, renamed.id);
    assert_eq!(1, store.users.len());
    assert_eq!("After", store.users[0].name);
}

#[test]
fn test_insert_user_assigns_fresh_ids() {
    let mut store = UserStore { users: vec![], accounts: vec![], next_id: 1 };
    let a = insert_user(&mut store, "name", "source", "source-1");
    let b = insert_user(&mut store, "name", "source", "source-2");
    assert_eq!(1, a);
    assert_eq!(2, b);
    assert_eq!(2, store.users.len());
    assert!(retrieve_user(&store, "source", "source-1").is_some());
    assert!(retrieve_user(&store, "source", "missing").is_none());
}
