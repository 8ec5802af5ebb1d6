use vstd::prelude::*;
use crate::common::{Account, AccountType, AccountV, User, UserV};
use crate::text::str_eq;

verus! {

// ---------------------------------------------------------------------------
// The user store
// ---------------------------------------------------------------------------

/// An in-memory user store: the users on record, the accounts they may be
/// attached to, and the next id to assign.
pub struct UserStore {
    pub users: Vec<User>,
    pub accounts: Vec<Account>,
    pub next_id: u64,
}

#[verifier::ext_equal]
pub struct UserStoreV {
    pub users: Seq<UserV>,
    pub accounts: Seq<AccountV>,
    pub next_id: u64,
}

impl View for UserStore {
    type V = UserStoreV;

    open spec fn view(&self) -> UserStoreV {
        UserStoreV {
            users: self.users@.map_values(|u: User| u@),
            accounts: self.accounts@.map_values(|a: Account| a@),
            next_id: self.next_id,
        }
    }
}

/// Every stored user carries an id below the next to assign.
pub open spec fn store_wf(s: UserStoreV) -> bool {
    forall|i: int| 0 <= i < s.users.len() ==> (#[trigger] s.users[i]).id is Some
        && s.users[i].id.unwrap() < s.next_id
}

/// The first account on record with the given id.
pub open spec fn account_index_from(accounts: Seq<AccountV>, id: u64, i: int) -> int
    decreases accounts.len() - i when 0 <= i <= accounts.len()
{
    if i >= accounts.len() {
        -1
    } else if accounts[i].id == Some(id) {
        i
    } else {
        account_index_from(accounts, id, i + 1)
    }
}

pub open spec fn account_index(accounts: Seq<AccountV>, id: u64) -> int {
    account_index_from(accounts, id, 0)
}

/// The first stored user with the given id.
pub open spec fn user_index_from(users: Seq<UserV>, id: u64, i: int) -> int
    decreases users.len() - i when 0 <= i <= users.len()
{
    if i >= users.len() {
        -1
    } else if users[i].id == Some(id) {
        i
    } else {
        user_index_from(users, id, i + 1)
    }
}

pub open spec fn user_index(users: Seq<UserV>, id: u64) -> int {
    user_index_from(users, id, 0)
}

/// The first stored user keyed by source and source id.
pub open spec fn user_key_index_from(
    users: Seq<UserV>,
    source: Seq<char>,
    source_id: Seq<char>,
    i: int,
) -> int
    decreases users.len() - i when 0 <= i <= users.len()
{
    if i >= users.len() {
        -1
    } else if users[i].source == source && users[i].source_id == source_id {
        i
    } else {
        user_key_index_from(users, source, source_id, i + 1)
    }
}

pub open spec fn user_key_index(users: Seq<UserV>, source: Seq<char>, source_id: Seq<char>)
    -> int {
    user_key_index_from(users, source, source_id, 0)
}

/// The accounts a saved user comes back with: each handed-in account looked
/// up on record by its id and returned fully described.
pub open spec fn hydrated_accounts(reg: Seq<AccountV>, given: Seq<AccountV>) -> Seq<AccountV> {
    given.map_values(|a: AccountV| reg[account_index(reg, a.id.unwrap())])
}

/// Each handed-in account names an id that is on record.
pub open spec fn accounts_known(reg: Seq<AccountV>, given: Seq<AccountV>) -> bool {
    forall|i: int| 0 <= i < given.len() ==> (#[trigger] given[i]).id is Some && account_index(
        reg,
        given[i].id.unwrap(),
    ) >= 0
}

/// The user as the store keeps and returns it.
pub open spec fn saved_user(u: UserV, id: u64, reg: Seq<AccountV>) -> UserV {
    UserV {
        id: Some(id),
        name: u.name,
        source: u.source,
        source_id: u.source_id,
        user_accounts: hydrated_accounts(reg, u.user_accounts),
    }
}

// ---------------------------------------------------------------------------
// Characterization lemmas
// ---------------------------------------------------------------------------

proof fn lemma_account_index(reg: Seq<AccountV>, id: u64, i: int, j: int)
    requires
        0 <= i <= j <= reg.len(),
        forall|t: int| i <= t < j ==> (#[trigger] reg[t]).id != Some(id),
        j == reg.len() || reg[j].id == Some(id),
    ensures
        account_index_from(reg, id, i) == if j == reg.len() {
            -1
        } else {
            j
        },
    decreases j - i,
{
    if i < j {
        lemma_account_index(reg, id, i + 1, j);
    }
}

proof fn lemma_user_index(users: Seq<UserV>, id: u64, i: int, j: int)
    requires
        0 <= i <= j <= users.len(),
        forall|t: int| i <= t < j ==> (#[trigger] users[t]).id != Some(id),
        j == users.len() || users[j].id == Some(id),
    ensures
        user_index_from(users, id, i) == if j == users.len() {
            -1
        } else {
            j
        },
    decreases j - i,
{
    if i < j {
        lemma_user_index(users, id, i + 1, j);
    }
}

proof fn lemma_user_key_index(
    users: Seq<UserV>,
    source: Seq<char>,
    source_id: Seq<char>,
    i: int,
    j: int,
)
    requires
        0 <= i <= j <= users.len(),
        forall|t: int| i <= t < j ==> !((#[trigger] users[t]).source == source && users[t].source_id
            == source_id),
        j == users.len() || (users[j].source == source && users[j].source_id == source_id),
    ensures
        user_key_index_from(users, source, source_id, i) == if j == users.len() {
            -1
        } else {
            j
        },
    decreases j - i,
{
    if i < j {
        lemma_user_key_index(users, source, source_id, i + 1, j);
    }
}

// ---------------------------------------------------------------------------
// Store operations
// ---------------------------------------------------------------------------

/// Appending one account extends the viewed prefix by one.
proof fn lemma_account_view_push(prev: Seq<Account>, x: Account, target: Seq<AccountV>, i: int)
    requires
        prev.map_values(|a: Account| a@) == target.take(i),
        0 <= i < target.len(),
        x@ == target[i],
    ensures
        prev.push(x).map_values(|a: Account| a@) == target.take(i + 1),
{
    let f = |a: Account| a@;
    let lhs = prev.push(x).map_values(f);
    assert(prev.len() == i) by {
        assert(prev.map_values(f).len() == prev.len());
    }
    assert(forall|k: int| 0 <= k < i ==> lhs[k] == target.take(i + 1)[k]) by {
        assert(forall|k: int| 0 <= k < i ==> #[trigger] prev.push(x)[k] == prev[k]);
        assert(forall|k: int| 0 <= k < i ==> #[trigger] prev.map_values(f)[k] == target.take(i)[k]);
    }
    assert(lhs[i as int] == x@);
    assert(lhs =~= target.take(i + 1));
}

fn clone_account_type(t: &AccountType) -> (r: AccountType)
    ensures
        r@ == t@,
{
    AccountType { id: t.id, name: t.name.clone(), source: t.source.clone() }
}

fn clone_account(a: &Account) -> (r: Account)
    ensures
        r@ == a@,
{
    Account {
        id: a.id,
        account_type: clone_account_type(&a.account_type),
        account_source_id: a.account_source_id.clone(),
    }
}

/// The fully described accounts for the ids the user hands in.
fn hydrate(store: &UserStore, given: &Vec<Account>) -> (out: Vec<Account>)
    requires
        accounts_known(store@.accounts, given@.map_values(|a: Account| a@)),
    ensures
        out@.map_values(|a: Account| a@) == hydrated_accounts(
            store@.accounts,
            given@.map_values(|a: Account| a@),
        ),
{
    let ghost reg = store@.accounts;
    let ghost gv = given@.map_values(|a: Account| a@);
    let mut out: Vec<Account> = Vec::new();
    let mut i: usize = 0;
    while i < given.len()
        invariant
            i <= given@.len(),
            reg == store@.accounts,
            gv == given@.map_values(|a: Account| a@),
            accounts_known(reg, gv),
            out@.map_values(|a: Account| a@) == hydrated_accounts(reg, gv).take(i as int),
        decreases given@.len() - i,
    {
        let id = match given[i].id {
            Some(v) => v,
            None => {
                proof {
                    assert(gv[i as int].id is Some);
                    assert(false);
                }
                vstd::pervasive::unreached()
            },
        };
        proof {
            assert(gv[i as int].id == Some(id));
            assert(account_index(reg, id) >= 0);
        }
        let mut j: usize = 0;
        let n = store.accounts.len();
        let mut found: usize = n;
        while j < n && found == n
            invariant
                j <= n == store.accounts@.len(),
                reg == store@.accounts,
                forall|t: int| 0 <= t < j ==> (#[trigger] reg[t]).id != Some(id),
                found == n || (found == j && j < n && reg[found as int].id == Some(id)),
            decreases n - j, (if found == n { 1int } else { 0int }),
        {
            let hit = match store.accounts[j].id {
                Some(v) => v == id,
                None => false,
            };
            proof {
                assert(reg[j as int] == store.accounts@[j as int]@);
            }
            if hit {
                found = j;
            } else {
                j += 1;
            }
        }
        if found == n {
            proof {
                lemma_account_index(reg, id, 0, reg.len() as int);
                assert(false);
            }
            let nothing: () = vstd::pervasive::unreached();
            nothing
        }
        proof {
            lemma_account_index(reg, id, 0, found as int);
            assert(account_index(reg, id) == found as int);
        }
        let acct = clone_account(&store.accounts[found]);
        proof {
            assert(reg[found as int] == store.accounts@[found as int]@);
            assert(hydrated_accounts(reg, gv)[i as int] == reg[account_index(
                reg,
                gv[i as int].id.unwrap(),
            )]);
            assert(acct@ == hydrated_accounts(reg, gv)[i as int]);
        }
        let ghost prev = out@;
        out.push(acct);
        proof {
            lemma_account_view_push(prev, acct, hydrated_accounts(reg, gv), i as int);
        }
        i += 1;
    }
    proof {
        assert(hydrated_accounts(reg, gv).take(gv.len() as int) =~= hydrated_accounts(reg, gv));
    }
    out
}

/// Creates or updates a user. A user whose id is on record is updated in
/// place, fields and accounts replaced; any other user is appended under the
/// next fresh id. Either way the saved user comes back with its accounts
/// fully described.
pub fn create_user(store: &mut UserStore, user: User) -> (r: User)
    requires
        store_wf(old(store)@),
        old(store)@.next_id < u64::MAX,
        accounts_known(old(store)@.accounts, user@.user_accounts),
    ensures
        store_wf(final(store)@),
        final(store)@.accounts == old(store)@.accounts,
        ({
            let idx = match user@.id {
                Some(id) => user_index(old(store)@.users, id),
                None => -1,
            };
            if idx >= 0 {
                let saved = saved_user(user@, user@.id.unwrap(), old(store)@.accounts);
                &&& final(store)@.users == old(store)@.users.update(idx, saved)
                &&& final(store)@.next_id == old(store)@.next_id
                &&& r@ == saved
            } else {
                let saved = saved_user(user@, old(store)@.next_id, old(store)@.accounts);
                &&& final(store)@.users == old(store)@.users.push(saved)
                &&& final(store)@.next_id == old(store)@.next_id + 1
                &&& r@ == saved
            }
        }),
{
    let ghost uv = user@;
    let ghost users0 = store@.users;
    let accounts = hydrate(store, &user.user_accounts);
    let accounts_copy = {
        let mut c: Vec<Account> = Vec::new();
        let mut t: usize = 0;
        while t < accounts.len()
            invariant
                t <= accounts@.len(),
                c@.map_values(|a: Account| a@) == accounts@.map_values(|a: Account| a@).take(
                    t as int,
                ),
            decreases accounts@.len() - t,
        {
            let copied = clone_account(&accounts[t]);
            proof {
                assert(accounts@.map_values(|a: Account| a@)[t as int] == accounts@[t as int]@);
                assert(copied@ == accounts@.map_values(|a: Account| a@)[t as int]);
            }
            let ghost prev = c@;
            c.push(copied);
            proof {
                lemma_account_view_push(
                    prev,
                    copied,
                    accounts@.map_values(|a: Account| a@),
                    t as int,
                );
            }
            t += 1;
        }
        proof {
            assert(accounts@.map_values(|a: Account| a@).take(accounts@.len() as int)
                =~= accounts@.map_values(|a: Account| a@));
        }
        c
    };
    // does the handed-in id name a stored user?
    let mut prior: usize = store.users.len();
    match user.id {
        None => {},
        Some(id) => {
            let n = store.users.len();
            let mut j: usize = 0;
            while j < n && prior == n
                invariant
                    j <= n == store.users@.len(),
                    users0 == store@.users,
                    forall|t: int| 0 <= t < j ==> (#[trigger] users0[t]).id != Some(id),
                    prior == n || (prior == j && j < n && users0[prior as int].id == Some(id)),
                decreases n - j, (if prior == n { 1int } else { 0int }),
            {
                let hit = match store.users[j].id {
                    Some(v) => v == id,
                    None => false,
                };
                proof {
                    assert(users0[j as int] == store.users@[j as int]@);
                }
                if hit {
                    prior = j;
                } else {
                    j += 1;
                }
            }
            proof {
                if prior == n {
                    lemma_user_index(users0, id, 0, users0.len() as int);
                } else {
                    lemma_user_index(users0, id, 0, prior as int);
                }
            }
        },
    }
    if prior < store.users.len() {
        let id = match user.id {
            Some(v) => v,
            None => {
                proof {
                    assert(false);
                }
                vstd::pervasive::unreached()
            },
        };
        let saved = User {
            id: Some(id),
            name: user.name,
            source: user.source,
            source_id: user.source_id,
            user_accounts: accounts,
        };
        let returned = User {
            id: Some(id),
            name: saved.name.clone(),
            source: saved.source.clone(),
            source_id: saved.source_id.clone(),
            user_accounts: accounts_copy,
        };
        let _ = store.users.remove(prior);
        store.users.insert(prior, saved);
        proof {
            assert(store@.users =~= users0.update(
                prior as int,
                saved_user(uv, id, old(store)@.accounts),
            ));
            assert(returned@ =~= saved_user(uv, id, old(store)@.accounts));
        }
        returned
    } else {
        let id = store.next_id;
        let saved = User {
            id: Some(id),
            name: user.name,
            source: user.source,
            source_id: user.source_id,
            user_accounts: accounts,
        };
        let returned = User {
            id: Some(id),
            name: saved.name.clone(),
            source: saved.source.clone(),
            source_id: saved.source_id.clone(),
            user_accounts: accounts_copy,
        };
        store.users.push(saved);
        store.next_id = id + 1;
        proof {
            assert(store@.users =~= users0.push(
                saved_user(uv, id, old(store)@.accounts),
            ));
            assert(returned@ =~= saved_user(uv, id, old(store)@.accounts));
        }
        returned
    }
}

/// Creates a bare user from its naming parts and returns the assigned id.
pub fn insert_user(store: &mut UserStore, name: &str, source: &str, source_id: &str) -> (r: u64)
    requires
        store_wf(old(store)@),
        old(store)@.next_id < u64::MAX,
    ensures
        store_wf(final(store)@),
        r == old(store)@.next_id,
        final(store)@.next_id == old(store)@.next_id + 1,
        final(store)@.accounts == old(store)@.accounts,
        final(store)@.users == old(store)@.users.push(
            UserV {
                id: Some(old(store)@.next_id),
                name: name@,
                source: source@,
                source_id: source_id@,
                user_accounts: Seq::empty(),
            },
        ),
{
    let user = User {
        id: None,
        name: crate::text::string_from_str(name),
        source: crate::text::string_from_str(source),
        source_id: crate::text::string_from_str(source_id),
        user_accounts: Vec::new(),
    };
    proof {
        assert(user@.user_accounts =~= Seq::<AccountV>::empty());
        assert(accounts_known(old(store)@.accounts, user@.user_accounts));
    }
    let created = create_user(store, user);
    let r = match created.id {
        Some(v) => v,
        None => {
            proof {
                assert(false);
            }
            0
        },
    };
    proof {
        assert(hydrated_accounts(old(store)@.accounts, Seq::<AccountV>::empty())
            =~= Seq::<AccountV>::empty());
        assert(store@.users =~= old(store)@.users.push(
            UserV {
                id: Some(old(store)@.next_id),
                name: name@,
                source: source@,
                source_id: source_id@,
                user_accounts: Seq::empty(),
            },
        ));
    }
    r
}

/// Removes the user with the given id, if one is on record; reports whether
/// anything was removed.
pub fn delete_user(store: &mut UserStore, user_id: u64) -> (r: bool)
    ensures
        ({
            let idx = user_index(old(store)@.users, user_id);
            if idx >= 0 {
                r && final(store)@.users == old(store)@.users.remove(idx)
            } else {
                !r && final(store)@.users == old(store)@.users
            }
        }),
        final(store)@.accounts == old(store)@.accounts,
        final(store)@.next_id == old(store)@.next_id,
        store_wf(old(store)@) ==> store_wf(final(store)@),
{
    let ghost users0 = store@.users;
    let mut i: usize = 0;
    while i < store.users.len()
        invariant
            i <= store.users@.len(),
            users0 == store@.users,
            users0 == old(store)@.users,
            store@.accounts == old(store)@.accounts,
            store@.next_id == old(store)@.next_id,
            forall|t: int| 0 <= t < i ==> (#[trigger] users0[t]).id != Some(user_id),
        decreases store.users@.len() - i,
    {
        let hit = match store.users[i].id {
            Some(v) => v == user_id,
            None => false,
        };
        proof {
            assert(users0[i as int] == store.users@[i as int]@);
        }
        if hit {
            proof {
                lemma_user_index(users0, user_id, 0, i as int);
            }
            let _ = store.users.remove(i);
            proof {
                assert(store@.users =~= users0.remove(i as int));
                if store_wf(
                    UserStoreV { users: users0, accounts: store@.accounts, next_id: store@.next_id },
                ) {
                    assert(forall|t: int| 0 <= t < store@.users.len()
                        ==> (#[trigger] store@.users[t]) == if t < i {
                        users0[t]
                    } else {
                        users0[t + 1]
                    });
                }
            }
            return true;
        }
        i += 1;
    }
    proof {
        lemma_user_index(users0, user_id, 0, users0.len() as int);
    }
    false
}

/// Looks a user up by source and source id: the first user on record under
/// that key, if any.
pub fn retrieve_user(store: &UserStore, source: &str, source_id: &str) -> (r: Option<User>)
    ensures
        ({
            let idx = user_key_index(store@.users, source@, source_id@);
            match r {
                Some(u) => idx >= 0 && u@ == store@.users[idx],
                None => idx == -1,
            }
        }),
{
    let ghost users = store@.users;
    let mut i: usize = 0;
    while i < store.users.len()
        invariant
            i <= store.users@.len(),
            users == store@.users,
            forall|t: int| 0 <= t < i ==> !((#[trigger] users[t]).source == source@
                && users[t].source_id == source_id@),
        decreases store.users@.len() - i,
    {
        let u = &store.users[i];
        proof {
            assert(users[i as int] == store.users@[i as int]@);
        }
        if str_eq(u.source.as_str(), source) && str_eq(u.source_id.as_str(), source_id) {
            proof {
                lemma_user_key_index(users, source@, source_id@, 0, i as int);
            }
            let found = User {
                id: u.id,
                name: u.name.clone(),
                source: u.source.clone(),
                source_id: u.source_id.clone(),
                user_accounts: {
                    let mut c: Vec<Account> = Vec::new();
                    let mut t: usize = 0;
                    while t < u.user_accounts.len()
                        invariant
                            t <= u.user_accounts@.len(),
                            c@.map_values(|a: Account| a@) == u.user_accounts@.map_values(
                                |a: Account| a@,
                            ).take(t as int),
                        decreases u.user_accounts@.len() - t,
                    {
                        let copied = clone_account(&u.user_accounts[t]);
                        proof {
                            assert(u.user_accounts@.map_values(|a: Account| a@)[t as int]
                                == u.user_accounts@[t as int]@);
                            assert(copied@ == u.user_accounts@.map_values(|a: Account| a@)[
                                t as int]);
                        }
                        let ghost prev = c@;
                        c.push(copied);
                        proof {
                            lemma_account_view_push(
                                prev,
                                copied,
                                u.user_accounts@.map_values(|a: Account| a@),
                                t as int,
                            );
                        }
                        t += 1;
                    }
                    proof {
                        assert(u.user_accounts@.map_values(|a: Account| a@).take(
                            u.user_accounts@.len() as int,
                        ) =~= u.user_accounts@.map_values(|a: Account| a@));
                    }
                    c
                },
            };
            proof {
                assert(found@ =~= users[i as int]);
            }
            return Some(found);
        }
        i += 1;
    }
    proof {
        lemma_user_key_index(users, source@, source_id@, 0, users.len() as int);
    }
    None
}

} // verus!
