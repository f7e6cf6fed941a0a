//! The plain-HTTP reachability probe: how one fetch of a known page is
//! judged, and how the judgements are tallied.
use vstd::prelude::*;
use crate::strs::{chars_of, concat_str, contains, contains_seq};

verus! {

/// How one probe fetch went. A page that answers 2xx but lacks the
/// expected content marker counts as blocked, not as a success.
#[derive(Debug)]
pub enum Outcome {
    Fetched { bytes: usize, ms: u128 },
    HttpError(u16),
    Blocked { bytes: usize, reason: String },
    Network(String),
}

/// The reason given for a page without its marker.
pub open spec fn missing_marker_reason(marker: Seq<char>) -> Seq<char> {
    "missing marker `"@ + marker + "`"@
}

/// The judgement of an answered request: a non-2xx status is an HTTP
/// error; a 2xx page without the marker is blocked; otherwise it is a
/// success. `bytes` is the length of the page's UTF-8 encoding.
pub open spec fn classify_spec(status: u16, html: Seq<char>, marker: Seq<char>, ms: u128) -> (
    u8,
    usize,
    u128,
    u16,
    Seq<char>,
) {
    let bytes = vstd::utf8::encode_utf8(html).len() as usize;
    if !(200 <= status <= 299) {
        (1, 0, 0, status, Seq::empty())
    } else if !contains_seq(html, marker) {
        (2, bytes, 0, 0, missing_marker_reason(marker))
    } else {
        (0, bytes, ms, 0, Seq::empty())
    }
}

impl Outcome {
    /// The outcome as a tuple of plain values: a tag (0 ok, 1 HTTP error,
    /// 2 blocked, 3 network), the byte count, the milliseconds, the status
    /// and the text it carries.
    pub open spec fn spec_parts(self) -> (u8, usize, u128, u16, Seq<char>) {
        match self {
            Outcome::Fetched { bytes, ms } => (0, bytes, ms, 0, Seq::empty()),
            Outcome::HttpError(code) => (1, 0, 0, code, Seq::empty()),
            Outcome::Blocked { bytes, reason } => (2, bytes, 0, 0, reason@),
            Outcome::Network(e) => (3, 0, 0, 0, e@),
        }
    }
}

/// Judges a probe whose request was answered with `status` and body `html`,
/// `ms` milliseconds after it started, against the page's content marker.
pub fn classify_response(status: u16, html: &str, marker: &str, ms: u128) -> (o: Outcome)
    ensures
        o.spec_parts() == classify_spec(status, html@, marker@, ms),
{
    if !(200 <= status && status <= 299) {
        return Outcome::HttpError(status);
    }
    let bytes = html.as_bytes().len();
    let found = contains(&chars_of(html), &chars_of(marker));
    if !found {
        let head = concat_str("missing marker `", marker);
        let reason = concat_str(head.as_str(), "`");
        proof {
            reveal_strlit("missing marker `");
            reveal_strlit("`");
        }
        Outcome::Blocked { bytes, reason }
    } else {
        Outcome::Fetched { bytes, ms }
    }
}

/// How many outcomes in `s` are successes, blocked pages and failures
/// (HTTP errors and network errors).
pub open spec fn tally_spec(s: Seq<Outcome>) -> (nat, nat, nat)
    decreases s.len(),
{
    if s.len() == 0 {
        (0, 0, 0)
    } else {
        let (ok, blocked, failed) = tally_spec(s.drop_last());
        match s.last() {
            Outcome::Fetched { .. } => (ok + 1, blocked, failed),
            Outcome::Blocked { .. } => (ok, blocked + 1, failed),
            _ => (ok, blocked, failed + 1),
        }
    }
}

proof fn lemma_tally_sum(s: Seq<Outcome>)
    ensures
        tally_spec(s).0 + tally_spec(s).1 + tally_spec(s).2 == s.len(),
    decreases s.len(),
{
    if s.len() > 0 {
        lemma_tally_sum(s.drop_last());
    }
}

/// The counts of successes, blocked pages and failures among `outcomes`.
pub fn tally(outcomes: &Vec<Outcome>) -> (r: (usize, usize, usize))
    ensures
        r.0 == tally_spec(outcomes@).0,
        r.1 == tally_spec(outcomes@).1,
        r.2 == tally_spec(outcomes@).2,
        r.0 + r.1 + r.2 == outcomes@.len(),
{
    let n = outcomes.len();
    let mut ok: usize = 0;
    let mut blocked: usize = 0;
    let mut failed: usize = 0;
    for i in 0..n
        invariant
            n == outcomes@.len(),
            ok == tally_spec(outcomes@.take(i as int)).0,
            blocked == tally_spec(outcomes@.take(i as int)).1,
            failed == tally_spec(outcomes@.take(i as int)).2,
    {
        proof {
            lemma_tally_sum(outcomes@.take(i as int));
        }
        assert(outcomes@.take(i + 1).drop_last() =~= outcomes@.take(i as int));
        match &outcomes[i] {
            Outcome::Fetched { .. } => ok = ok + 1,
            Outcome::Blocked { .. } => blocked = blocked + 1,
            _ => failed = failed + 1,
        }
    }
    assert(outcomes@.take(n as int) =~= outcomes@);
    proof {
        lemma_tally_sum(outcomes@);
    }
    (ok, blocked, failed)
}

} // verus!
