use vstd::prelude::*;

use crate::event::Event;
use crate::ledger::{empty_model, run, step, well_formed, LedgerModel};

verus! {

/// Every event keeps each account's total equal to its available funds plus
/// its held funds, and each account under its own client.
pub proof fn lemma_step_keeps_well_formed(m: LedgerModel, e: Event)
    requires
        well_formed(m),
    ensures
        well_formed(step(m, e)),
{
}

/// From the empty ledger, whatever the events, every account's total is its
/// available funds plus its held funds.
pub proof fn lemma_balance_identity(events: Seq<Event>)
    ensures
        well_formed(run(empty_model(), events)),
    decreases events.len(),
{
    if events.len() > 0 {
        lemma_balance_identity(events.drop_last());
        lemma_step_keeps_well_formed(run(empty_model(), events.drop_last()), events.last());
    }
}

/// No event changes a locked account.
pub proof fn lemma_locked_account_frozen(m: LedgerModel, e: Event, client: u16)
    requires
        m.accounts.contains_key(client),
        m.accounts[client].locked,
    ensures
        step(m, e).accounts.contains_key(client),
        step(m, e).accounts[client] == m.accounts[client],
{
}

/// Once an account is locked, no later sequence of events changes its
/// available funds, held funds or total.
pub proof fn lemma_locked_account_stays_frozen(m: LedgerModel, events: Seq<Event>, client: u16)
    requires
        m.accounts.contains_key(client),
        m.accounts[client].locked,
    ensures
        run(m, events).accounts.contains_key(client),
        run(m, events).accounts[client] == m.accounts[client],
    decreases events.len(),
{
    if events.len() > 0 {
        lemma_locked_account_stays_frozen(m, events.drop_last(), client);
        lemma_locked_account_frozen(run(m, events.drop_last()), events.last(), client);
    }
}

/// A second resolve of the same transaction, right after the first, changes
/// nothing.
pub proof fn lemma_resolve_idempotent(m: LedgerModel, client: u16, tx: u32)
    ensures
        step(step(m, Event::Resolve { client, tx }), Event::Resolve { client, tx }) == step(
            m,
            Event::Resolve { client, tx },
        ),
{
}

} // verus!
