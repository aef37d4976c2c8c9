use vstd::prelude::*;

use crate::amount::{decimal_units, is_decimal, magnitude, parse_amount};

verus! {

/// One record of the input log, amounts in ten-thousandths.
#[derive(Clone, Copy, Debug, PartialEq, Eq, Structural)]
pub enum Event {
    Deposit { client: u16, tx: u32, amount: i64 },
    Withdrawal { client: u16, tx: u32, amount: i64 },
    Dispute { client: u16, tx: u32 },
    Resolve { client: u16, tx: u32 },
    Chargeback { client: u16, tx: u32 },
    /// A record whose type is none of the above: it changes nothing.
    Unknown,
}

/// Why a record cannot become an event.
#[derive(Clone, Copy, Debug, PartialEq, Eq, Structural)]
pub enum RecordError {
    /// The amount field is not a plain decimal that fits.
    BadAmount,
    /// A deposit or withdrawal without an amount.
    MissingAmount,
}

/// The amount text is a plain decimal whose size fits in an `i64`.
pub open spec fn amount_ok(a: Seq<char>) -> bool {
    is_decimal(a) && magnitude(a) <= i64::MAX
}

/// The event that a record's fields describe: its type, client, id and,
/// where the field is not empty, its amount.
pub open spec fn record_event(
    kind: Seq<char>,
    client: u16,
    tx: u32,
    amount: Option<Seq<char>>,
) -> Result<Event, RecordError> {
    if amount is Some && !amount_ok(amount->0) {
        Err(RecordError::BadAmount)
    } else if kind == "deposit"@ || kind == "withdrawal"@ {
        if amount is None {
            Err(RecordError::MissingAmount)
        } else if kind == "deposit"@ {
            Ok(Event::Deposit { client, tx, amount: decimal_units(amount->0) as i64 })
        } else {
            Ok(Event::Withdrawal { client, tx, amount: decimal_units(amount->0) as i64 })
        }
    } else if kind == "dispute"@ {
        Ok(Event::Dispute { client, tx })
    } else if kind == "resolve"@ {
        Ok(Event::Resolve { client, tx })
    } else if kind == "chargeback"@ {
        Ok(Event::Chargeback { client, tx })
    } else {
        Ok(Event::Unknown)
    }
}

/// The two texts are the same characters.
fn same_text(a: &str, b: &str) -> (r: bool)
    ensures
        r == (a@ == b@),
{
    a.to_owned() == b.to_owned()
}

/// Turns the fields of one record into an event. The type is matched exactly,
/// case included; a type outside the five known ones gives `Event::Unknown`.
pub fn parse_event(kind: &str, client: u16, tx: u32, amount: Option<&str>) -> (r: Result<
    Event,
    RecordError,
>)
    ensures
        r == record_event(
            kind@,
            client,
            tx,
            match amount {
                Some(a) => Some(a@),
                None => None,
            },
        ),
{
    let value = match amount {
        Some(a) => match parse_amount(a) {
            Some(v) => Some(v),
            None => {
                return Err(RecordError::BadAmount);
            },
        },
        None => None,
    };
    if same_text(kind, "deposit") {
        match value {
            Some(v) => Ok(Event::Deposit { client, tx, amount: v }),
            None => Err(RecordError::MissingAmount),
        }
    } else if same_text(kind, "withdrawal") {
        match value {
            Some(v) => Ok(Event::Withdrawal { client, tx, amount: v }),
            None => Err(RecordError::MissingAmount),
        }
    } else if same_text(kind, "dispute") {
        Ok(Event::Dispute { client, tx })
    } else if same_text(kind, "resolve") {
        Ok(Event::Resolve { client, tx })
    } else if same_text(kind, "chargeback") {
        Ok(Event::Chargeback { client, tx })
    } else {
        Ok(Event::Unknown)
    }
}

} // verus!
