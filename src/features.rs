//! The numeric signature of an account's transaction history.
use vstd::prelude::*;
use crate::registry::{is_listed, listed, ExchangeRegistry};
use crate::stats::{is_lower_median, is_max, lower_median, max_of, spread_if_fits, spread_of};
use crate::text::{lower_of, lowercase, same_text};
use crate::transaction::Transaction;

verus! {

/// The account `a` (case-folded) stands on the receiving side of `t` when
/// `incoming`, else on the sending side.
pub open spec fn on_side(a: Seq<char>, t: Transaction, incoming: bool) -> bool {
    if incoming {
        lower_of(t.to@) == a
    } else {
        lower_of(t.from@) == a
    }
}

/// The other party of a transfer seen from the given side, case-folded.
pub open spec fn counterparty(t: Transaction, incoming: bool) -> Seq<char> {
    if incoming {
        lower_of(t.from@)
    } else {
        lower_of(t.to@)
    }
}

/// How many transfers of `s` have `a` on the given side.
pub open spec fn side_count(a: Seq<char>, s: Seq<Transaction>, incoming: bool) -> nat
    decreases s.len(),
{
    if s.len() == 0 {
        0
    } else {
        side_count(a, s.drop_last(), incoming) + if on_side(a, s.last(), incoming) {
            1nat
        } else {
            0nat
        }
    }
}

/// How many of those transfers have a known exchange as the other party.
pub open spec fn side_exchange_count(
    a: Seq<char>,
    s: Seq<Transaction>,
    incoming: bool,
    exchanges: Set<Seq<char>>,
) -> nat
    decreases s.len(),
{
    if s.len() == 0 {
        0
    } else {
        side_exchange_count(a, s.drop_last(), incoming, exchanges) + if on_side(
            a,
            s.last(),
            incoming,
        ) && exchanges.contains(counterparty(s.last(), incoming)) {
            1nat
        } else {
            0nat
        }
    }
}

/// The total amount of those transfers.
pub open spec fn side_volume(a: Seq<char>, s: Seq<Transaction>, incoming: bool) -> nat
    decreases s.len(),
{
    if s.len() == 0 {
        0
    } else {
        side_volume(a, s.drop_last(), incoming) + if on_side(a, s.last(), incoming) {
            s.last().value as nat
        } else {
            0nat
        }
    }
}

/// The distinct other parties of those transfers.
pub open spec fn side_counterparties(a: Seq<char>, s: Seq<Transaction>, incoming: bool) -> Set<
    Seq<char>,
>
    decreases s.len(),
{
    if s.len() == 0 {
        Set::empty()
    } else {
        let before = side_counterparties(a, s.drop_last(), incoming);
        if on_side(a, s.last(), incoming) {
            before.insert(counterparty(s.last(), incoming))
        } else {
            before
        }
    }
}

proof fn lemma_counterparties_finite(a: Seq<char>, s: Seq<Transaction>, incoming: bool)
    ensures
        side_counterparties(a, s, incoming).finite(),
    decreases s.len(),
{
    if s.len() > 0 {
        lemma_counterparties_finite(a, s.drop_last(), incoming);
    }
}

/// `Some` of a total that fits in a `u128`, else `None`.
pub open spec fn bounded(total: nat) -> Option<u128> {
    if total <= u128::MAX {
        Some(total as u128)
    } else {
        None
    }
}

/// What one side (incoming or outgoing) of a history adds up to.
pub struct SideSummary {
    pub count: usize,
    pub exchange_count: usize,
    pub counterparties: usize,
    pub volume: Option<u128>,
}

/// Summarises the transfers of `txs` that have the case-folded account `a`
/// on the given side.
pub fn side_summary(a: &str, txs: &Vec<Transaction>, incoming: bool, registry: &ExchangeRegistry) -> (r:
    SideSummary)
    ensures
        r.count == side_count(a@, txs@, incoming),
        r.exchange_count == side_exchange_count(a@, txs@, incoming, registry@),
        r.counterparties == side_counterparties(a@, txs@, incoming).len(),
        r.volume == bounded(side_volume(a@, txs@, incoming)),
{
    let mut count: usize = 0;
    let mut exchange_count: usize = 0;
    let mut seen: Vec<String> = Vec::new();
    let mut volume: u128 = 0;
    let mut overflow = false;
    let mut i: usize = 0;
    while i < txs.len()
        invariant
            i <= txs.len(),
            count <= i,
            exchange_count <= i,
            count == side_count(a@, txs@.take(i as int), incoming),
            exchange_count == side_exchange_count(a@, txs@.take(i as int), incoming, registry@),
            side_counterparties(a@, txs@.take(i as int), incoming).finite(),
            seen.len() == side_counterparties(a@, txs@.take(i as int), incoming).len(),
            forall|x: Seq<char>|
                #[trigger] side_counterparties(a@, txs@.take(i as int), incoming).contains(x)
                    <==> listed(seen@, x),
            overflow ==> side_volume(a@, txs@.take(i as int), incoming) > u128::MAX,
            !overflow ==> volume == side_volume(a@, txs@.take(i as int), incoming),
        decreases txs.len() - i,
    {
        let t = &txs[i];
        let ghost before = txs@.take(i as int);
        let ghost next = txs@.take(i as int + 1);
        assert(next.drop_last() =~= before);
        assert(next.last() == *t);
        proof {
            lemma_counterparties_finite(a@, next, incoming);
        }
        let mine = if incoming {
            lowercase(t.to.as_str())
        } else {
            lowercase(t.from.as_str())
        };
        if same_text(mine.as_str(), a) {
            count = count + 1;
            let other = if incoming {
                lowercase(t.from.as_str())
            } else {
                lowercase(t.to.as_str())
            };
            if registry.is_exchange_owned(other.as_str()) {
                exchange_count = exchange_count + 1;
            }
            if !is_listed(&seen, other.as_str()) {
                let ghost old_seen = seen@;
                seen.push(other);
                assert forall|x: Seq<char>|
                    #[trigger] side_counterparties(a@, next, incoming).contains(x)
                        <==> listed(seen@, x) by {
                    if listed(old_seen, x) {
                        let j = choose|j: int| 0 <= j < old_seen.len() && (#[trigger] old_seen[j])@ == x;
                        assert(seen@[j] == old_seen[j]);
                    }
                    if x == counterparty(*t, incoming) {
                        assert(seen@[old_seen.len() as int]@ == x);
                    }
                    if listed(seen@, x) && x != counterparty(*t, incoming) {
                        let j = choose|j: int| 0 <= j < seen@.len() && (#[trigger] seen@[j])@ == x;
                        assert(j < old_seen.len());
                        assert(old_seen[j] == seen@[j]);
                    }
                }
            }
            if !overflow {
                match volume.checked_add(t.value) {
                    Some(v) => volume = v,
                    None => overflow = true,
                }
            }
        }
        i = i + 1;
    }
    assert(txs@.take(i as int) =~= txs@);
    SideSummary {
        count,
        exchange_count,
        counterparties: seen.len(),
        volume: if overflow {
            None
        } else {
            Some(volume)
        },
    }
}


/// Seconds in a day.
pub const SECONDS_PER_DAY: u64 = 86400;

/// Each transfer is no newer than the one before it.
pub open spec fn is_newest_first(s: Seq<Transaction>) -> bool {
    forall|i: int| 0 <= i < s.len() - 1 ==> s[i + 1].timestamp <= #[trigger] s[i].timestamp
}

/// The gaps in seconds between neighbouring transfers, newer minus older.
pub open spec fn interval_seq(s: Seq<Transaction>) -> Seq<u128> {
    Seq::new(
        (s.len() - 1) as nat,
        |i: int| (s[i].timestamp - s[i + 1].timestamp) as u128,
    )
}

pub open spec fn value_seq(s: Seq<Transaction>) -> Seq<u128> {
    Seq::new(s.len(), |i: int| s[i].value)
}

/// The total amount of all transfers.
pub open spec fn total_value(s: Seq<Transaction>) -> nat
    decreases s.len(),
{
    if s.len() == 0 {
        0
    } else {
        total_value(s.drop_last()) + s.last().value as nat
    }
}

/// Whole days between the oldest and the newest transfer, at least one.
pub open spec fn lifetime_days_of(start_ts: u64, end_ts: u64) -> nat {
    let days = (end_ts - start_ts) / (SECONDS_PER_DAY as int);
    if days < 1 {
        1
    } else {
        days as nat
    }
}

/// The lifetime in days is never zero, so it can always divide; transfers
/// within the same second give a lifetime of exactly one day.
pub proof fn lifetime_is_never_zero(start_ts: u64, end_ts: u64)
    requires
        start_ts <= end_ts,
    ensures
        lifetime_days_of(start_ts, end_ts) >= 1,
        start_ts == end_ts ==> lifetime_days_of(start_ts, end_ts) == 1,
{
}

proof fn lemma_newest_is_latest(s: Seq<Transaction>, i: int)
    requires
        is_newest_first(s),
        0 <= i < s.len(),
    ensures
        s[i].timestamp <= s[0].timestamp,
    decreases i,
{
    if i > 0 {
        lemma_newest_is_latest(s, i - 1);
    }
}

/// The gaps between neighbouring transfers of a list of at least two, or
/// `None` where the list is not newest first.
pub fn intervals_of(txs: &Vec<Transaction>) -> (r: Option<Vec<u128>>)
    requires
        txs.len() >= 2,
    ensures
        r is Some <==> is_newest_first(txs@),
        r matches Some(v) ==> v@ == interval_seq(txs@),
{
    let mut out: Vec<u128> = Vec::new();
    let mut i: usize = 0;
    while i + 1 < txs.len()
        invariant
            i + 1 <= txs.len(),
            out@ == interval_seq(txs@.take(i as int + 1)),
            forall|j: int| 0 <= j < i ==> txs@[j + 1].timestamp <= #[trigger] txs@[j].timestamp,
        decreases txs.len() - i,
    {
        let newer = txs[i].timestamp;
        let older = txs[i + 1].timestamp;
        if newer < older {
            return None;
        }
        out.push((newer - older) as u128);
        i = i + 1;
        assert(out@ =~= interval_seq(txs@.take(i as int + 1)));
    }
    assert(txs@.take(i as int + 1) =~= txs@);
    Some(out)
}

/// The amounts of all transfers, in order, with their total where it fits
/// in a `u128`.
pub fn values_of(txs: &Vec<Transaction>) -> (r: (Vec<u128>, Option<u128>))
    ensures
        r.0@ == value_seq(txs@),
        r.1 == bounded(total_value(txs@)),
{
    let mut values: Vec<u128> = Vec::new();
    let mut total: u128 = 0;
    let mut overflow = false;
    let mut i: usize = 0;
    while i < txs.len()
        invariant
            i <= txs.len(),
            values@ == value_seq(txs@.take(i as int)),
            overflow ==> total_value(txs@.take(i as int)) > u128::MAX,
            !overflow ==> total == total_value(txs@.take(i as int)),
        decreases txs.len() - i,
    {
        assert(txs@.take(i as int + 1).drop_last() =~= txs@.take(i as int));
        let v = txs[i].value;
        values.push(v);
        if !overflow {
            match total.checked_add(v) {
                Some(t) => total = t,
                None => overflow = true,
            }
        }
        i = i + 1;
        assert(values@ =~= value_seq(txs@.take(i as int)));
    }
    assert(txs@.take(i as int) =~= txs@);
    (values, if overflow {
        None
    } else {
        Some(total)
    })
}

/// The list of transfers is not ordered newest first.
pub enum FeatureError {
    OutOfOrder,
}

/// The exact quantities from which the numeric signature of a history is
/// formed, in the signature's order.
pub struct Features {
    pub tx_count: usize,
    pub incoming_count: usize,
    pub outgoing_count: usize,
    /// Whole days from the oldest to the newest transfer, at least one.
    pub lifetime_days: u64,
    pub start_ts: u64,
    pub end_ts: u64,
    /// Gaps between neighbouring transfers, newest first.
    pub intervals: Vec<u128>,
    /// `n * Σx² - (Σx)²` over the intervals, where it fits.
    pub interval_spread: Option<u128>,
    pub incoming_counterparties: usize,
    pub outgoing_counterparties: usize,
    /// Distinct counterparties over the transfer count, rounded down.
    pub address_reuse: usize,
    /// The outgoing count, at least one.
    pub outgoing_denominator: usize,
    /// Transfers to or from known exchanges, at least one.
    pub exchange_denominator: u128,
    /// The amounts of all transfers, newest first.
    pub values: Vec<u128>,
    pub value_total: Option<u128>,
    /// `n * Σx² - (Σx)²` over the amounts, where it fits.
    pub value_spread: Option<u128>,
    pub value_median: u128,
    pub value_max: u128,
    pub incoming_volume: Option<u128>,
    pub outgoing_volume: Option<u128>,
}

/// `f` holds what the history `s` of the case-folded account `a` gives,
/// with `exchanges` as the known exchange addresses.
pub open spec fn features_fit(
    f: Features,
    a: Seq<char>,
    s: Seq<Transaction>,
    exchanges: Set<Seq<char>>,
) -> bool {
    let n = s.len();
    let in_parties = side_counterparties(a, s, true).len();
    let out_parties = side_counterparties(a, s, false).len();
    let touching = side_exchange_count(a, s, true, exchanges) + side_exchange_count(
        a,
        s,
        false,
        exchanges,
    );
    &&& f.tx_count == n
    &&& f.incoming_count == side_count(a, s, true)
    &&& f.outgoing_count == side_count(a, s, false)
    &&& f.start_ts == s[n - 1].timestamp
    &&& f.end_ts == s[0].timestamp
    &&& f.lifetime_days == lifetime_days_of(f.start_ts, f.end_ts)
    &&& f.intervals@ == interval_seq(s)
    &&& f.interval_spread == spread_if_fits(interval_seq(s))
    &&& f.incoming_counterparties == in_parties
    &&& f.outgoing_counterparties == out_parties
    &&& f.address_reuse == (in_parties + out_parties) / n
    &&& f.outgoing_denominator == if side_count(a, s, false) == 0 {
        1
    } else {
        side_count(a, s, false)
    }
    &&& f.exchange_denominator == if touching == 0 {
        1
    } else {
        touching
    }
    &&& f.values@ == value_seq(s)
    &&& f.value_total == bounded(total_value(s))
    &&& f.value_spread == spread_if_fits(value_seq(s))
    &&& is_lower_median(value_seq(s), f.value_median)
    &&& is_max(value_seq(s), f.value_max)
    &&& f.incoming_volume == bounded(side_volume(a, s, true))
    &&& f.outgoing_volume == bounded(side_volume(a, s, false))
}

/// A history of `N` transfers has exactly `N - 1` gaps between them, and
/// every denominator of the signature is at least one.
pub proof fn signature_shape(
    f: Features,
    a: Seq<char>,
    s: Seq<Transaction>,
    exchanges: Set<Seq<char>>,
)
    requires
        s.len() >= 2,
        features_fit(f, a, s, exchanges),
    ensures
        f.intervals@.len() == s.len() - 1,
        f.values@.len() == s.len(),
        f.lifetime_days >= 1,
        f.outgoing_denominator >= 1,
        f.exchange_denominator >= 1,
{
}

proof fn lemma_side_count_bounded(a: Seq<char>, s: Seq<Transaction>, incoming: bool)
    ensures
        side_count(a, s, incoming) <= s.len(),
        side_counterparties(a, s, incoming).len() <= side_count(a, s, incoming),
    decreases s.len(),
{
    if s.len() > 0 {
        lemma_side_count_bounded(a, s.drop_last(), incoming);
        lemma_counterparties_finite(a, s.drop_last(), incoming);
    }
}

proof fn lemma_exchange_count_bounded(
    a: Seq<char>,
    s: Seq<Transaction>,
    incoming: bool,
    exchanges: Set<Seq<char>>,
)
    ensures
        side_exchange_count(a, s, incoming, exchanges) <= s.len(),
    decreases s.len(),
{
    if s.len() > 0 {
        lemma_exchange_count_bounded(a, s.drop_last(), incoming, exchanges);
    }
}

/// Computes the signature quantities of `address`'s history `txs`, which
/// the explorer lists newest first. A history of fewer than two transfers
/// gives `Ok(None)`; one that is not newest first gives `OutOfOrder`.
pub fn extract_features(address: &str, txs: &Vec<Transaction>, registry: &ExchangeRegistry) -> (r:
    Result<Option<Features>, FeatureError>)
    ensures
        txs.len() < 2 ==> r matches Ok(None),
        txs.len() >= 2 ==> (r is Err <==> !is_newest_first(txs@)),
        txs.len() >= 2 ==> (r matches Ok(Some(_)) <==> is_newest_first(txs@)),
        r matches Ok(Some(f)) ==> txs.len() >= 2 && features_fit(
            f,
            lower_of(address@),
            txs@,
            registry@,
        ),
{
    let n = txs.len();
    if n < 2 {
        return Ok(None);
    }
    let intervals = match intervals_of(txs) {
        Some(v) => v,
        None => return Err(FeatureError::OutOfOrder),
    };
    let a = lowercase(address);
    let start_ts = txs[n - 1].timestamp;
    let end_ts = txs[0].timestamp;
    proof {
        lemma_newest_is_latest(txs@, n - 1);
    }
    let days = (end_ts - start_ts) / SECONDS_PER_DAY;
    let lifetime_days = if days < 1 {
        1
    } else {
        days
    };
    let incoming = side_summary(a.as_str(), txs, true, registry);
    let outgoing = side_summary(a.as_str(), txs, false, registry);
    proof {
        lemma_side_count_bounded(a@, txs@, true);
        lemma_side_count_bounded(a@, txs@, false);
        lemma_exchange_count_bounded(a@, txs@, true, registry@);
        lemma_exchange_count_bounded(a@, txs@, false, registry@);
    }
    let parties = incoming.counterparties as u128 + outgoing.counterparties as u128;
    assert(parties / (n as u128) <= 2) by (nonlinear_arith)
        requires
            parties <= 2 * n,
            n >= 2,
    ;
    let address_reuse = (parties / n as u128) as usize;
    let touching = incoming.exchange_count as u128 + outgoing.exchange_count as u128;
    let (values, value_total) = values_of(txs);
    let interval_spread = spread_of(&intervals);
    let value_spread = spread_of(&values);
    let value_median = lower_median(&values);
    let value_max = max_of(&values);
    Ok(
        Some(
            Features {
                tx_count: n,
                incoming_count: incoming.count,
                outgoing_count: outgoing.count,
                lifetime_days,
                start_ts,
                end_ts,
                intervals,
                interval_spread,
                incoming_counterparties: incoming.counterparties,
                outgoing_counterparties: outgoing.counterparties,
                address_reuse,
                outgoing_denominator: if outgoing.count == 0 {
                    1
                } else {
                    outgoing.count
                },
                exchange_denominator: if touching == 0 {
                    1
                } else {
                    touching
                },
                values,
                value_total,
                value_spread,
                value_median,
                value_max,
                incoming_volume: incoming.volume,
                outgoing_volume: outgoing.volume,
            },
        ),
    )
}

} // verus!

