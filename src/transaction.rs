//! One transaction of an account's history.
use vstd::prelude::*;
use crate::decimal::{decimal_value, is_decimal_within, parse_u128};
use crate::json::{entry_text, reply_entry, text_of, Reply};

verus! {

/// A transfer between two addresses at a point in time.
pub struct Transaction {
    /// The transfer's identifier, where the explorer gives one.
    pub hash: Option<String>,
    /// Seconds since the Unix epoch.
    pub timestamp: u64,
    pub from: String,
    pub to: String,
    /// The amount moved, in the chain's smallest unit.
    pub value: u128,
}

/// The text is present and reads as a decimal number of at most `max`.
pub open spec fn reads_within(o: Option<Seq<char>>, max: nat) -> bool {
    o is Some && is_decimal_within(o->0, max)
}

/// The texts of a transaction's fields are present (but for its hash, which
/// is optional) and its numbers are well-formed and in range.
pub open spec fn fields_read(
    hash: Option<Seq<char>>,
    timestamp: Option<Seq<char>>,
    from: Option<Seq<char>>,
    to: Option<Seq<char>>,
    value: Option<Seq<char>>,
) -> bool {
    from is Some && to is Some && reads_within(timestamp, u64::MAX as nat)
        && reads_within(value, u128::MAX as nat)
}

/// `t` is the transaction that these field texts describe.
pub open spec fn fields_fit(
    t: Transaction,
    hash: Option<Seq<char>>,
    timestamp: Option<Seq<char>>,
    from: Option<Seq<char>>,
    to: Option<Seq<char>>,
    value: Option<Seq<char>>,
) -> bool {
    &&& text_of(t.hash) == hash
    &&& t.from@ == from->0
    &&& t.to@ == to->0
    &&& t.timestamp as nat == decimal_value(timestamp->0)
    &&& t.value as nat == decimal_value(value->0)
}

/// The text of `field` in element `i` of the reply's `result` list.
pub open spec fn entry_field(text: Seq<char>, i: nat, field: Seq<char>) -> Option<Seq<char>> {
    reply_entry(text, "result"@, i, field)
}

/// Element `i` of the reply's `result` list reads as a transaction.
pub open spec fn entry_reads(text: Seq<char>, i: nat) -> bool {
    fields_read(
        entry_field(text, i, "hash"@),
        entry_field(text, i, "timeStamp"@),
        entry_field(text, i, "from"@),
        entry_field(text, i, "to"@),
        entry_field(text, i, "value"@),
    )
}

/// `t` is the transaction in element `i` of the reply's `result` list.
pub open spec fn entry_fits(t: Transaction, text: Seq<char>, i: nat) -> bool {
    fields_fit(
        t,
        entry_field(text, i, "hash"@),
        entry_field(text, i, "timeStamp"@),
        entry_field(text, i, "from"@),
        entry_field(text, i, "to"@),
        entry_field(text, i, "value"@),
    )
}

/// Builds a transaction from the text of its fields: `None` when a field
/// other than the hash is missing, or a number is malformed or out of range.
pub fn transaction_from_fields(
    hash: Option<String>,
    timestamp: Option<String>,
    from: Option<String>,
    to: Option<String>,
    value: Option<String>,
) -> (r: Option<Transaction>)
    ensures
        r is Some <==> fields_read(
            text_of(hash),
            text_of(timestamp),
            text_of(from),
            text_of(to),
            text_of(value),
        ),
        r matches Some(t) ==> fields_fit(
            t,
            text_of(hash),
            text_of(timestamp),
            text_of(from),
            text_of(to),
            text_of(value),
        ),
{
    let (timestamp, from, to, value) = match (timestamp, from, to, value) {
        (Some(ts), Some(f), Some(t), Some(v)) => (ts, f, t, v),
        _ => return None,
    };
    let ts = match parse_u128(timestamp.as_str()) {
        Some(n) => n,
        None => return None,
    };
    if ts > u64::MAX as u128 {
        return None;
    }
    let amount = match parse_u128(value.as_str()) {
        Some(n) => n,
        None => return None,
    };
    Some(Transaction { hash, timestamp: ts as u64, from, to, value: amount })
}

/// Reads element `i` of the reply's `result` list as a transaction.
pub fn transaction_at(reply: &Reply, i: usize) -> (r: Option<Transaction>)
    ensures
        r is Some <==> entry_reads(reply.source(), i as nat),
        r matches Some(t) ==> entry_fits(t, reply.source(), i as nat),
{
    transaction_from_fields(
        entry_text(reply, "result", i, "hash"),
        entry_text(reply, "result", i, "timeStamp"),
        entry_text(reply, "result", i, "from"),
        entry_text(reply, "result", i, "to"),
        entry_text(reply, "result", i, "value"),
    )
}

} // verus!
