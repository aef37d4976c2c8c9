use vstd::prelude::*;

verus! {

/// The balances of one client, in ten-thousandths of a currency unit.
#[derive(Clone, Copy, Debug, PartialEq, Eq, Structural)]
pub struct Account {
    pub client: u16,
    pub available: i64,
    pub held: i64,
    pub total: i64,
    pub locked: bool,
}

impl Account {
    /// The total equals the funds available plus the funds held.
    pub open spec fn balanced(self) -> bool {
        self.total == self.available + self.held
    }
}

/// Accounts by client, held in a `hashbrown::HashMap`.
#[verifier::external_body]
pub struct AccountTable {
    inner: hashbrown::HashMap<u16, Account>,
}

/// What an account table holds.
pub uninterp spec fn account_entries(t: AccountTable) -> Map<u16, Account>;

impl View for AccountTable {
    type V = Map<u16, Account>;

    open spec fn view(&self) -> Map<u16, Account> {
        account_entries(*self)
    }
}

impl AccountTable {
    /// Relies on hashbrown::HashMap::new: the map starts empty.
    #[verifier::external_body]
    pub(crate) fn new() -> (r: AccountTable)
        ensures
            account_entries(r) =~= Map::empty(),
    {
        AccountTable { inner: hashbrown::HashMap::new() }
    }

    /// Relies on hashbrown::HashMap::get: the value stored under the key, if any.
    #[verifier::external_body]
    pub(crate) fn get(&self, client: u16) -> (r: Option<Account>)
        ensures
            r == (if account_entries(*self).contains_key(client) {
                Some(account_entries(*self)[client])
            } else {
                None
            }),
    {
        self.inner.get(&client).copied()
    }

    /// Relies on hashbrown::HashMap::insert: the key now maps to the value,
    /// every other key is left as it was.
    #[verifier::external_body]
    pub(crate) fn insert(&mut self, client: u16, account: Account)
        ensures
            account_entries(*final(self)) == account_entries(*old(self)).insert(client, account),
    {
        self.inner.insert(client, account);
    }

    /// Relies on hashbrown::HashMap::iter: each entry once, in no stated order.
    #[verifier::external_body]
    pub(crate) fn entries(&self) -> (r: Vec<(u16, Account)>)
        ensures
            forall|i: int|
                0 <= i < r@.len() ==> #[trigger] account_entries(*self).contains_key(r@[i].0)
                    && account_entries(*self)[r@[i].0] == r@[i].1,
            forall|k: u16| #[trigger]
                account_entries(*self).contains_key(k) ==> exists|i: int|
                    0 <= i < r@.len() && r@[i].0 == k,
            forall|i: int, j: int| 0 <= i < j < r@.len() ==> r@[i].0 != r@[j].0,
    {
        self.inner.iter().map(|(k, v)| (*k, *v)).collect()
    }
}

} // verus!
