use vstd::prelude::*;
use crate::decimal::{DecimalValue, DecV, dv_wf};

verus! {

/// The reserved attribute key whose `Integer` value is an item's quantity.
pub const ATTRIBUTE_QUANTITY: &'static str = "quantity";

// ---------------------------------------------------------------------------
// Accounts and users
// ---------------------------------------------------------------------------

#[derive(Clone, Debug, PartialEq)]
pub struct AccountType {
    pub id: Option<u64>,
    pub name: String,
    pub source: String,
}

#[verifier::ext_equal]
pub struct AccountTypeV {
    pub id: Option<u64>,
    pub name: Seq<char>,
    pub source: Seq<char>,
}

impl View for AccountType {
    type V = AccountTypeV;

    open spec fn view(&self) -> AccountTypeV {
        AccountTypeV { id: self.id, name: self.name@, source: self.source@ }
    }
}

#[derive(Clone, Debug, PartialEq)]
pub struct Account {
    pub id: Option<u64>,
    pub account_type: AccountType,
    pub account_source_id: String,
}

#[verifier::ext_equal]
pub struct AccountV {
    pub id: Option<u64>,
    pub account_type: AccountTypeV,
    pub account_source_id: Seq<char>,
}

impl View for Account {
    type V = AccountV;

    open spec fn view(&self) -> AccountV {
        AccountV {
            id: self.id,
            account_type: self.account_type@,
            account_source_id: self.account_source_id@,
        }
    }
}

#[derive(Clone, Debug, PartialEq)]
pub struct User {
    pub id: Option<u64>,
    pub name: String,
    pub source: String,
    pub source_id: String,
    pub user_accounts: Vec<Account>,
}

#[verifier::ext_equal]
pub struct UserV {
    pub id: Option<u64>,
    pub name: Seq<char>,
    pub source: Seq<char>,
    pub source_id: Seq<char>,
    pub user_accounts: Seq<AccountV>,
}

impl View for User {
    type V = UserV;

    open spec fn view(&self) -> UserV {
        UserV {
            id: self.id,
            name: self.name@,
            source: self.source@,
            source_id: self.source_id@,
            user_accounts: self.user_accounts@.map_values(|a: Account| a@),
        }
    }
}

#[derive(Clone, Debug)]
pub struct UserState {
    pub active_user_accounts: Vec<Account>,
    pub user_id: u64,
}

#[verifier::ext_equal]
pub struct UserStateV {
    pub active_user_accounts: Seq<AccountV>,
    pub user_id: u64,
}

impl View for UserState {
    type V = UserStateV;

    open spec fn view(&self) -> UserStateV {
        UserStateV {
            active_user_accounts: self.active_user_accounts@.map_values(|a: Account| a@),
            user_id: self.user_id,
        }
    }
}

// ---------------------------------------------------------------------------
// Attribute values
// ---------------------------------------------------------------------------

/// A monetary amount with the source it came from.
#[derive(Clone, Debug, PartialEq)]
pub struct Price {
    pub amount: DecimalValue,
    pub source: String,
}

#[verifier::ext_equal]
pub struct PriceV {
    pub amount: DecV,
    pub source: Seq<char>,
}

impl View for Price {
    type V = PriceV;

    open spec fn view(&self) -> PriceV {
        PriceV { amount: self.amount@, source: self.source@ }
    }
}

/// The six attribute value shapes a list or an item can carry. `DateTime`
/// holds a timestamp as epoch microseconds; `Float` holds the IEEE-754 bits
/// of the double, since the comparisons the library makes read only those.
#[derive(Clone, Debug, PartialEq)]
pub enum ListAttribute {
    Boolean(bool),
    DateTime(i64),
    Float(u64),
    Integer(i64),
    Price(Price),
    Text(String),
}

#[verifier::ext_equal]
pub enum AttrV {
    Boolean(bool),
    DateTime(i64),
    Float(u64),
    Integer(i64),
    Price(PriceV),
    Text(Seq<char>),
}

impl View for ListAttribute {
    type V = AttrV;

    open spec fn view(&self) -> AttrV {
        match self {
            ListAttribute::Boolean(b) => AttrV::Boolean(*b),
            ListAttribute::DateTime(t) => AttrV::DateTime(*t),
            ListAttribute::Float(f) => AttrV::Float(*f),
            ListAttribute::Integer(i) => AttrV::Integer(*i),
            ListAttribute::Price(p) => AttrV::Price(p@),
            ListAttribute::Text(s) => AttrV::Text(s@),
        }
    }
}

pub open spec fn attr_wf(a: AttrV) -> bool {
    match a {
        AttrV::Price(p) => dv_wf(p.amount),
        _ => true,
    }
}

pub open spec fn attrs_wf(s: Seq<(Seq<char>, AttrV)>) -> bool {
    forall|i: int| 0 <= i < s.len() ==> attr_wf((#[trigger] s[i]).1)
}

/// The view of an attribute bag: its bindings in order.
pub open spec fn attrs_view(v: Seq<(String, ListAttribute)>) -> Seq<(Seq<char>, AttrV)> {
    v.map_values(|p: (String, ListAttribute)| (p.0@, p.1@))
}

// ---------------------------------------------------------------------------
// Attribute lookup
// ---------------------------------------------------------------------------

/// The first binding of `name` in `s` at or after `i`.
pub open spec fn attr_find_from(s: Seq<(Seq<char>, AttrV)>, name: Seq<char>, i: int) -> Option<
    AttrV,
>
    decreases s.len() - i when 0 <= i <= s.len()
{
    if i >= s.len() {
        None
    } else if s[i].0 == name {
        Some(s[i].1)
    } else {
        attr_find_from(s, name, i + 1)
    }
}

/// The value bound to `name` in an attribute bag: its first binding.
pub open spec fn attr_find(s: Seq<(Seq<char>, AttrV)>, name: Seq<char>) -> Option<AttrV> {
    attr_find_from(s, name, 0)
}

pub proof fn lemma_attr_find(s: Seq<(Seq<char>, AttrV)>, name: Seq<char>, i: int, j: int)
    requires
        0 <= i <= j <= s.len(),
        forall|k: int| i <= k < j ==> (#[trigger] s[k]).0 != name,
        j == s.len() || s[j].0 == name,
    ensures
        attr_find_from(s, name, i) == if j == s.len() {
            None::<AttrV>
        } else {
            Some(s[j].1)
        },
    decreases j - i,
{
    if i < j {
        lemma_attr_find(s, name, i + 1, j);
    }
}

/// Looks `name` up in an attribute bag, first binding wins.
pub fn get_attribute<'a>(attrs: &'a Vec<(String, ListAttribute)>, name: &str) -> (r: Option<
    &'a ListAttribute,
>)
    ensures
        match r {
            Some(a) => attr_find(attrs_view(attrs@), name@) == Some(a@),
            None => attr_find(attrs_view(attrs@), name@) is None,
        },
{
    let ghost s = attrs_view(attrs@);
    let mut i: usize = 0;
    while i < attrs.len()
        invariant
            i <= attrs@.len(),
            s == attrs_view(attrs@),
            forall|k: int| 0 <= k < i ==> (#[trigger] s[k]).0 != name@,
        decreases attrs@.len() - i,
    {
        if crate::text::str_eq(attrs[i].0.as_str(), name) {
            proof {
                lemma_attr_find(s, name@, 0, i as int);
            }
            return Some(&attrs[i].1);
        }
        i += 1;
    }
    proof {
        lemma_attr_find(s, name@, 0, s.len() as int);
    }
    None
}

// ---------------------------------------------------------------------------
// Lists and items
// ---------------------------------------------------------------------------

#[derive(Clone, Copy, Debug, PartialEq, Eq, Structural)]
pub enum ListAccess {
    Private,
    Public,
    Shared,
}

#[derive(Clone, Copy, Debug, PartialEq, Eq, Structural)]
pub enum ListType {
    Standard,
    System,
    Transient,
}

#[derive(Clone, Debug, PartialEq)]
pub struct ListItem {
    pub id: Option<u64>,
    pub attributes: Vec<(String, ListAttribute)>,
    pub created: i64,
    pub modified: i64,
    pub name: String,
    pub source: String,
}

#[verifier::ext_equal]
pub struct ItemV {
    pub id: Option<u64>,
    pub attributes: Seq<(Seq<char>, AttrV)>,
    pub created: i64,
    pub modified: i64,
    pub name: Seq<char>,
    pub source: Seq<char>,
}

impl View for ListItem {
    type V = ItemV;

    open spec fn view(&self) -> ItemV {
        ItemV {
            id: self.id,
            attributes: attrs_view(self.attributes@),
            created: self.created,
            modified: self.modified,
            name: self.name@,
            source: self.source@,
        }
    }
}

/// The per-key aggregate over a list's items.
#[derive(Clone, Debug, PartialEq)]
pub struct ItemListRollup {
    pub total_amount: Price,
    pub total_lines: u64,
    pub total_units: u64,
}

#[verifier::ext_equal]
pub struct RollupV {
    pub total_amount: PriceV,
    pub total_lines: u64,
    pub total_units: u64,
}

impl View for ItemListRollup {
    type V = RollupV;

    open spec fn view(&self) -> RollupV {
        RollupV {
            total_amount: self.total_amount@,
            total_lines: self.total_lines,
            total_units: self.total_units,
        }
    }
}

#[derive(Clone, Debug)]
pub struct ItemList {
    pub id: Option<u64>,
    pub attributes: Vec<(String, ListAttribute)>,
    pub created: i64,
    pub deleted: bool,
    pub folder: String,
    pub items: Option<Vec<ListItem>>,
    pub list_access: ListAccess,
    pub list_accounts: Vec<Account>,
    pub list_type: ListType,
    pub modified: i64,
    pub name: String,
    pub read_only: bool,
    pub rollups: Option<Vec<(String, ItemListRollup)>>,
}

#[verifier::ext_equal]
pub struct ListV {
    pub id: Option<u64>,
    pub attributes: Seq<(Seq<char>, AttrV)>,
    pub created: i64,
    pub deleted: bool,
    pub folder: Seq<char>,
    pub items: Option<Seq<ItemV>>,
    pub list_access: ListAccess,
    pub list_accounts: Seq<AccountV>,
    pub list_type: ListType,
    pub modified: i64,
    pub name: Seq<char>,
    pub read_only: bool,
    pub rollups: Option<Seq<(Seq<char>, RollupV)>>,
}

impl View for ItemList {
    type V = ListV;

    open spec fn view(&self) -> ListV {
        ListV {
            id: self.id,
            attributes: attrs_view(self.attributes@),
            created: self.created,
            deleted: self.deleted,
            folder: self.folder@,
            items: match self.items {
                Some(v) => Some(v@.map_values(|it: ListItem| it@)),
                None => None,
            },
            list_access: self.list_access,
            list_accounts: self.list_accounts@.map_values(|a: Account| a@),
            list_type: self.list_type,
            modified: self.modified,
            name: self.name@,
            read_only: self.read_only,
            rollups: match self.rollups {
                Some(v) => Some(
                    v@.map_values(|p: (String, ItemListRollup)| (p.0@, p.1@)),
                ),
                None => None,
            },
        }
    }
}

pub open spec fn item_view_seq(v: Seq<ListItem>) -> Seq<ItemV> {
    v.map_values(|it: ListItem| it@)
}

pub open spec fn list_view_seq(v: Seq<ItemList>) -> Seq<ListV> {
    v.map_values(|l: ItemList| l@)
}

pub open spec fn item_wf(it: ItemV) -> bool {
    attrs_wf(it.attributes)
}

pub open spec fn list_wf(l: ListV) -> bool {
    &&& attrs_wf(l.attributes)
    &&& match l.items {
        Some(its) => forall|i: int| 0 <= i < its.len() ==> item_wf(#[trigger] its[i]),
        None => true,
    }
}

// ---------------------------------------------------------------------------
// Requests and errors
// ---------------------------------------------------------------------------

/// A positional window over the sorted, unfiltered candidates.
#[derive(Clone, Copy, Debug, PartialEq, Eq, Structural)]
pub struct PagingRequest {
    pub start: u64,
    pub rows: u64,
}

#[derive(Clone, Debug, PartialEq)]
pub enum SortKey {
    Attribute(String),
    CreatedDate,
    Id,
    ModifiedDate,
    Name,
}

#[verifier::ext_equal]
pub enum SortKeyV {
    Attribute(Seq<char>),
    CreatedDate,
    Id,
    ModifiedDate,
    Name,
}

impl View for SortKey {
    type V = SortKeyV;

    open spec fn view(&self) -> SortKeyV {
        match self {
            SortKey::Attribute(n) => SortKeyV::Attribute(n@),
            SortKey::CreatedDate => SortKeyV::CreatedDate,
            SortKey::Id => SortKeyV::Id,
            SortKey::ModifiedDate => SortKeyV::ModifiedDate,
            SortKey::Name => SortKeyV::Name,
        }
    }
}

#[derive(Clone, Debug, PartialEq)]
pub struct SortRequest {
    pub descending: bool,
    pub key: SortKey,
}

#[verifier::ext_equal]
pub struct SortReqV {
    pub descending: bool,
    pub key: SortKeyV,
}

impl View for SortRequest {
    type V = SortReqV;

    open spec fn view(&self) -> SortReqV {
        SortReqV { descending: self.descending, key: self.key@ }
    }
}

#[derive(Clone, Debug, PartialEq)]
pub enum ListManagementError {
    NotFound(String),
    Other,
}

#[verifier::ext_equal]
pub enum ErrorV {
    NotFound(Seq<char>),
    Other,
}

impl View for ListManagementError {
    type V = ErrorV;

    open spec fn view(&self) -> ErrorV {
        match self {
            ListManagementError::NotFound(s) => ErrorV::NotFound(s@),
            ListManagementError::Other => ErrorV::Other,
        }
    }
}

impl ListManagementError {
    /// The error's message text.
    pub fn message(&self) -> (r: String)
        ensures
            r@ == match self@ {
                ErrorV::NotFound(s) => "Not Found: "@ + s,
                ErrorV::Other => "other error"@,
            },
    {
        match self {
            ListManagementError::NotFound(s) => {
                let mut m = String::new();
                m.append("Not Found: ");
                m.append(s.as_str());
                proof {
                    assert(m@ =~= "Not Found: "@ + s@);
                }
                m
            },
            ListManagementError::Other => {
                let mut m = String::new();
                m.append("other error");
                proof {
                    assert(m@ =~= "other error"@);
                }
                m
            },
        }
    }
}

} // verus!
