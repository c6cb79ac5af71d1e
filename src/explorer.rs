//! The block explorer's request addresses, its reply envelope
//! (`status`, `message`, `result`) and the retry policy on rate limiting.
use vstd::prelude::*;
use crate::json::{
    is_json, list_len, member_text, parse_reply, reply_list_len, reply_member, text_of, Reply,
};
use crate::text::{contains, contains_text, same_text};
use crate::transaction::{entry_fits, entry_reads, transaction_at, Transaction};

verus! {

/// Why a request to the explorer did not give a result.
pub enum ExplorerError {
    /// The credential was refused.
    Auth,
    /// Any other failure that the explorer reported.
    Api { message: String, url: String, payload: String },
    /// The reply was not well-formed.
    Parse,
    /// The reply holds no record for the address.
    NotFound,
}

/// What a single reply means for the request that it answers.
pub enum Verdict {
    /// Rate limited: wait a second and send the same request again.
    Retry,
    /// The reply is a result.
    Accept,
    /// The request failed for good.
    Fail(ExplorerError),
}

pub open spec fn is_failure_status(status: Option<Seq<char>>) -> bool {
    status is Some && status->0 != "1"@
}

pub open spec fn message_or_default(message: Option<Seq<char>>) -> Seq<char> {
    match message {
        Some(m) => m,
        None => "unknown error"@,
    }
}

pub open spec fn result_or_empty(result: Option<Seq<char>>) -> Seq<char> {
    match result {
        Some(r) => r,
        None => Seq::empty(),
    }
}

/// The verdict on a reply with the given envelope fields, for a request to
/// `url` whose raw reply is `payload`.
pub open spec fn verdict_fits(
    v: Verdict,
    status: Option<Seq<char>>,
    message: Option<Seq<char>>,
    result: Option<Seq<char>>,
    url: Seq<char>,
    payload: Seq<char>,
) -> bool {
    let msg = message_or_default(message);
    let res = result_or_empty(result);
    if !is_failure_status(status) {
        v is Accept
    } else if contains_text(res, "rate limit"@) || contains_text(msg, "try again"@) {
        v is Retry
    } else if contains_text(res, "Invalid API Key"@) {
        v matches Verdict::Fail(ExplorerError::Auth)
    } else if contains_text(msg, "No transactions found"@) {
        v is Accept
    } else {
        v matches Verdict::Fail(ExplorerError::Api { message: m, url: u, payload: p }) && m@ == msg
            && u@ == url && p@ == payload
    }
}

/// Judges a reply by its `status`, `message` and `result` texts (each `None`
/// where the reply holds no string there).
pub fn judge(
    status: Option<String>,
    message: Option<String>,
    result: Option<String>,
    url: &str,
    payload: &str,
) -> (v: Verdict)
    ensures
        verdict_fits(v, text_of(status), text_of(message), text_of(result), url@, payload@),
{
    let failed = match &status {
        Some(s) => !same_text(s.as_str(), "1"),
        None => false,
    };
    if !failed {
        return Verdict::Accept;
    }
    let msg = match message {
        Some(m) => m,
        None => "unknown error".to_owned(),
    };
    let res = match result {
        Some(r) => r,
        None => String::new(),
    };
    if contains(res.as_str(), "rate limit") || contains(msg.as_str(), "try again") {
        return Verdict::Retry;
    }
    if contains(res.as_str(), "Invalid API Key") {
        return Verdict::Fail(ExplorerError::Auth);
    }
    if contains(msg.as_str(), "No transactions found") {
        return Verdict::Accept;
    }
    Verdict::Fail(
        ExplorerError::Api { message: msg, url: url.to_owned(), payload: payload.to_owned() },
    )
}

/// What to do after a reply.
pub enum Step {
    /// Sleep one second, then send the same request again.
    Sleep,
    /// The request is over, with this outcome.
    Done(Result<Reply, ExplorerError>),
}

/// `s` is the step that a reply with the given envelope fields calls for.
pub open spec fn step_fits(
    s: Step,
    status: Option<Seq<char>>,
    message: Option<Seq<char>>,
    result: Option<Seq<char>>,
    url: Seq<char>,
    payload: Seq<char>,
) -> bool {
    match s {
        Step::Sleep => verdict_fits(Verdict::Retry, status, message, result, url, payload),
        Step::Done(Ok(_)) => verdict_fits(Verdict::Accept, status, message, result, url, payload),
        Step::Done(Err(e)) => verdict_fits(Verdict::Fail(e), status, message, result, url, payload),
    }
}

/// The state of one request to the explorer across its retries.
pub struct RequestLoop {
    /// How many times the request has slept so far.
    pub sleeps: u64,
}

impl RequestLoop {
    pub fn new() -> (r: RequestLoop)
        ensures
            r.sleeps == 0,
    {
        RequestLoop { sleeps: 0 }
    }

    /// Takes the raw text of a reply to the request sent to `url`, and says
    /// what comes next. Only a rate-limited reply leads to a sleep, and each
    /// sleep is counted (up to `u64::MAX`).
    pub fn on_reply(&mut self, body: &str, url: &str) -> (s: Step)
        ensures
            s is Sleep ==> final(self).sleeps == (if old(self).sleeps < u64::MAX {
                old(self).sleeps + 1
            } else {
                old(self).sleeps as int
            }),
            !(s is Sleep) ==> final(self).sleeps == old(self).sleeps,
            !is_json(body@) ==> s matches Step::Done(Err(ExplorerError::Parse)),
            is_json(body@) ==> step_fits(
                s,
                reply_member(body@, "status"@),
                reply_member(body@, "message"@),
                reply_member(body@, "result"@),
                url@,
                body@,
            ),
            s matches Step::Done(Ok(p)) ==> p.source() == body@,
    {
        let reply = match parse_reply(body) {
            Some(p) => p,
            None => return Step::Done(Err(ExplorerError::Parse)),
        };
        let verdict = judge(
            member_text(&reply, "status"),
            member_text(&reply, "message"),
            member_text(&reply, "result"),
            url,
            body,
        );
        match verdict {
            Verdict::Retry => {
                self.sleeps = self.sleeps.saturating_add(1);
                Step::Sleep
            },
            Verdict::Accept => Step::Done(Ok(reply)),
            Verdict::Fail(e) => Step::Done(Err(e)),
        }
    }
}

/// The transactions in an accepted reply, in the order of its `result`
/// list: `NotFound` where `result` is not a list, `Parse` where an element
/// does not read as a transaction.
pub fn transactions_in(reply: &Reply) -> (r: Result<Vec<Transaction>, ExplorerError>)
    ensures
        reply_list_len(reply.source(), "result"@) is None ==> r matches Err(ExplorerError::NotFound),
        reply_list_len(reply.source(), "result"@) matches Some(n) ==> {
            &&& (r is Ok <==> forall|i: nat| i < n ==> #[trigger] entry_reads(reply.source(), i))
            &&& (r is Err ==> r matches Err(ExplorerError::Parse))
            &&& (r is Ok ==> r->Ok_0.len() == n && forall|i: int|
                0 <= i < n ==> entry_fits(#[trigger] r->Ok_0@[i], reply.source(), i as nat))
        },
{
    let n = match list_len(reply, "result") {
        Some(n) => n,
        None => return Err(ExplorerError::NotFound),
    };
    let mut txs: Vec<Transaction> = Vec::new();
    let mut i: usize = 0;
    while i < n
        invariant
            i <= n,
            reply_list_len(reply.source(), "result"@) == Some(n as nat),
            txs.len() == i,
            forall|j: nat| j < i ==> #[trigger] entry_reads(reply.source(), j),
            forall|j: int| 0 <= j < i ==> entry_fits(#[trigger] txs@[j], reply.source(), j as nat),
        decreases n - i,
    {
        match transaction_at(reply, i) {
            Some(t) => txs.push(t),
            None => return Err(ExplorerError::Parse),
        }
        i = i + 1;
    }
    Ok(txs)
}

/// The account's bytecode in an accepted reply: `NotFound` where its
/// `result` is not a string.
pub fn code_in(reply: &Reply) -> (r: Result<String, ExplorerError>)
    ensures
        match reply_member(reply.source(), "result"@) {
            Some(c) => r is Ok && r->Ok_0@ == c,
            None => r matches Err(ExplorerError::NotFound),
        },
{
    match member_text(reply, "result") {
        Some(code) => Ok(code),
        None => Err(ExplorerError::NotFound),
    }
}

pub open spec fn request_url_text(
    module: Seq<char>,
    action: Seq<char>,
    address: Seq<char>,
    api_key: Seq<char>,
) -> Seq<char> {
    "https://api.etherscan.io/v2/api?chainid=1&module="@ + module + "&action="@ + action
        + "&address="@ + address + "&sort=desc&apikey="@ + api_key
}

/// The address of a query to the explorer, newest records first.
pub fn request_url(module: &str, action: &str, address: &str, api_key: &str) -> (r: String)
    ensures
        r@ == request_url_text(module@, action@, address@, api_key@),
{
    let mut url = "https://api.etherscan.io/v2/api?chainid=1&module=".to_owned();
    url.append(module);
    url.append("&action=");
    url.append(action);
    url.append("&address=");
    url.append(address);
    url.append("&sort=desc&apikey=");
    url.append(api_key);
    url
}

} // verus!
