use vstd::prelude::*;

verus! {

/// The two kinds of event that move funds and are kept for later reference.
#[derive(Clone, Copy, Debug, PartialEq, Eq, Structural)]
pub enum TxKind {
    Deposit,
    Withdrawal,
}

/// A deposit or withdrawal as kept in the history.
#[derive(Clone, Copy, Debug, PartialEq, Eq, Structural)]
pub struct TxRecord {
    pub kind: TxKind,
    pub client: u16,
    pub amount: i64,
    pub disputed: bool,
}

/// Stored transactions by id, held in a `hashbrown::HashMap`.
#[verifier::external_body]
pub struct TxLog {
    inner: hashbrown::HashMap<u32, TxRecord>,
}

/// What a transaction log holds.
pub uninterp spec fn tx_entries(t: TxLog) -> Map<u32, TxRecord>;

impl View for TxLog {
    type V = Map<u32, TxRecord>;

    open spec fn view(&self) -> Map<u32, TxRecord> {
        tx_entries(*self)
    }
}

impl TxLog {
    /// Relies on hashbrown::HashMap::new: the map starts empty.
    #[verifier::external_body]
    pub(crate) fn new() -> (r: TxLog)
        ensures
            tx_entries(r) =~= Map::empty(),
    {
        TxLog { inner: hashbrown::HashMap::new() }
    }

    /// Relies on hashbrown::HashMap::get: the value stored under the key, if any.
    #[verifier::external_body]
    pub(crate) fn get(&self, tx: u32) -> (r: Option<TxRecord>)
        ensures
            r == (if tx_entries(*self).contains_key(tx) {
                Some(tx_entries(*self)[tx])
            } else {
                None
            }),
    {
        self.inner.get(&tx).copied()
    }

    /// Relies on hashbrown::HashMap::insert: the key now maps to the value,
    /// every other key is left as it was.
    #[verifier::external_body]
    pub(crate) fn insert(&mut self, tx: u32, record: TxRecord)
        ensures
            tx_entries(*final(self)) == tx_entries(*old(self)).insert(tx, record),
    {
        self.inner.insert(tx, record);
    }
}

} // verus!
