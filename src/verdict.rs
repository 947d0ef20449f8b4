//! Judging the outcome of each request against the success criteria.
use vstd::prelude::*;
use vstd::utf8::encode_utf8;

verus! {

/// The checks a response must pass to count as a success; an absent check
/// is not evaluated.
#[derive(Debug)]
pub struct SuccessCriteria {
    /// The status code the response must have.
    pub status: Option<u16>,
    /// Text the decoded body must contain.
    pub body: Option<String>,
    /// Text the decoded body must not contain.
    pub not_body: Option<String>,
}

/// What came back for one request after its attempts.
#[derive(Debug)]
pub enum Delivery {
    /// A response arrived, with this status code and body.
    Response { status: u16, body: Vec<u8> },
    /// Every attempt failed in transport.
    TransportFailure,
}

/// The outcome of one request, tagged with the entry it was made from.
#[derive(Debug)]
pub struct DispatchOutcome {
    pub tag: String,
    pub delivery: Delivery,
}

#[derive(Debug, Clone, Copy, PartialEq, Eq, Structural)]
pub enum Judgement {
    Success,
    Failure,
}

/// The final word on one wordlist entry.
#[derive(Debug)]
pub struct Verdict {
    pub tag: String,
    pub judgement: Judgement,
}

/// Whether `n` occurs in `h` as a contiguous run.
pub open spec fn contains(h: Seq<u8>, n: Seq<u8>) -> bool {
    exists|i: int| 0 <= i && i + n.len() <= h.len() && #[trigger] h.subrange(i, i + n.len()) == n
}

pub open spec fn status_passes(c: SuccessCriteria, status: u16) -> bool {
    match c.status {
        Some(want) => status == want,
        None => true,
    }
}

pub open spec fn body_passes(c: SuccessCriteria, text: Seq<char>) -> bool {
    match c.body {
        Some(want) => contains(encode_utf8(text), encode_utf8(want@)),
        None => true,
    }
}

pub open spec fn not_body_passes(c: SuccessCriteria, text: Seq<char>) -> bool {
    match c.not_body {
        Some(shun) => !contains(encode_utf8(text), encode_utf8(shun@)),
        None => true,
    }
}

/// A response with `status` and decoded body `text` is a success exactly
/// when every configured check passes.
pub open spec fn succeeds(c: SuccessCriteria, status: u16, text: Seq<char>) -> bool {
    status_passes(c, status) && body_passes(c, text) && not_body_passes(c, text)
}

/// The text of `b` read as UTF-8, each invalid sequence replaced by U+FFFD.
pub uninterp spec fn lossy_text(b: Seq<u8>) -> Seq<char>;

/// Relies on `String::from_utf8_lossy`: the text that `b` encodes, each
/// invalid sequence replaced by U+FFFD; it depends on the bytes alone.
#[verifier::external_body]
fn decode_lossy(b: &[u8]) -> (r: String)
    ensures
        r@ == lossy_text(b@),
{
    String::from_utf8_lossy(b).into_owned()
}

/// The judgement on a delivery.
pub open spec fn judgement_of(c: SuccessCriteria, d: Delivery) -> Judgement {
    match d {
        Delivery::Response { status, body } => if succeeds(c, status, lossy_text(body@)) {
            Judgement::Success
        } else {
            Judgement::Failure
        },
        Delivery::TransportFailure => Judgement::Failure,
    }
}

/// Whether `n` occurs in `h` at `i`.
fn occurs_at(h: &[u8], n: &[u8], i: usize) -> (r: bool)
    requires
        i + n@.len() <= h@.len(),
    ensures
        r == (h@.subrange(i as int, i + n@.len()) == n@),
{
    let ghost w = h@.subrange(i as int, i + n@.len());
    let hl = h.len();
    let mut j: usize = 0;
    while j < n.len()
        invariant
            hl == h@.len(),
            i + n@.len() <= h@.len(),
            j <= n@.len(),
            w == h@.subrange(i as int, i + n@.len()),
            w.subrange(0, j as int) == n@.subrange(0, j as int),
        decreases n@.len() - j,
    {
        if h[i + j] != n[j] {
            assert(w[j as int] != n@[j as int]);
            return false;
        }
        assert(w.subrange(0, j + 1) =~= n@.subrange(0, j + 1)) by {
            assert(w.subrange(0, j + 1) =~= w.subrange(0, j as int).push(w[j as int]));
            assert(n@.subrange(0, j + 1) =~= n@.subrange(0, j as int).push(n@[j as int]));
        }
        j = j + 1;
    }
    assert(w =~= w.subrange(0, j as int));
    assert(n@ =~= n@.subrange(0, j as int));
    true
}

/// Whether `n` occurs in `h`.
pub fn contains_bytes(h: &[u8], n: &[u8]) -> (r: bool)
    ensures
        r == contains(h@, n@),
{
    if n.len() > h.len() {
        return false;
    }
    let last = h.len() - n.len();
    let mut i: usize = 0;
    while i <= last
        invariant
            last == h@.len() - n@.len(),
            forall|k: int| 0 <= k < i ==> #[trigger] h@.subrange(k, k + n@.len()) != n@,
        decreases last + 1 - i,
    {
        if occurs_at(h, n, i) {
            return true;
        }
        if i == last {
            assert(forall|k: int| 0 <= k <= last ==> #[trigger] h@.subrange(k, k + n@.len()) != n@);
            return false;
        }
        i = i + 1;
    }
    false
}

/// Judges a response whose body has been decoded as `text`.
pub fn classify_text(c: &SuccessCriteria, status: u16, text: &str) -> (r: bool)
    ensures
        r == succeeds(*c, status, text@),
{
    if let Some(want) = c.status {
        if status != want {
            return false;
        }
    }
    let hay = text.as_bytes();
    if let Some(want) = &c.body {
        if !contains_bytes(hay, want.as_str().as_bytes()) {
            return false;
        }
    }
    if let Some(shun) = &c.not_body {
        if contains_bytes(hay, shun.as_str().as_bytes()) {
            return false;
        }
    }
    true
}

/// Judges a delivery: a transport failure fails; a response is decoded
/// permissively and checked against the criteria.
pub fn judge(c: &SuccessCriteria, d: &Delivery) -> (r: Judgement)
    ensures
        r == judgement_of(*c, *d),
{
    match d {
        Delivery::TransportFailure => Judgement::Failure,
        Delivery::Response { status, body } => {
            if let Some(want) = c.status {
                if *status != want {
                    return Judgement::Failure;
                }
            }
            let text = decode_lossy(body.as_slice());
            if classify_text(c, *status, text.as_str()) {
                Judgement::Success
            } else {
                Judgement::Failure
            }
        },
    }
}

/// The tag and judgement that an outcome receives.
pub open spec fn verdict_of(c: SuccessCriteria, o: DispatchOutcome) -> (Seq<char>, Judgement) {
    (o.tag@, judgement_of(c, o.delivery))
}

/// Consumes the outcomes of a run, whose number is known in advance, and
/// judges each as it arrives.
#[derive(Debug)]
pub struct Collector {
    pub criteria: SuccessCriteria,
    /// Outcomes the run will produce.
    pub expected: usize,
    /// Outcomes judged so far.
    pub received: usize,
}

impl Collector {
    pub open spec fn wf(&self) -> bool {
        self.received <= self.expected
    }

    pub fn new(criteria: SuccessCriteria, expected: usize) -> (r: Collector)
        ensures
            r.criteria == criteria,
            r.expected == expected,
            r.received == 0,
            r.wf(),
    {
        Collector { criteria, expected, received: 0 }
    }

    /// Whether every expected outcome has been judged.
    pub fn is_done(&self) -> (r: bool)
        ensures
            r == (self.received >= self.expected),
    {
        self.received >= self.expected
    }

    /// Judges one outcome and hands back its verdict, tagged as the outcome was.
    pub fn accept(&mut self, outcome: DispatchOutcome) -> (r: Verdict)
        requires
            old(self).wf(),
            old(self).received < old(self).expected,
        ensures
            (r.tag@, r.judgement) == verdict_of(old(self).criteria, outcome),
            final(self).received == old(self).received + 1,
            final(self).expected == old(self).expected,
            final(self).criteria == old(self).criteria,
            final(self).wf(),
    {
        let judgement = judge(&self.criteria, &outcome.delivery);
        self.received = self.received + 1;
        Verdict { tag: outcome.tag, judgement }
    }
}

/// Success takes every configured check at once: with the status check,
/// the required text and the forbidden text all configured, a response
/// succeeds exactly when all three pass, and failing any one of them,
/// whatever the other two do, makes it a failure.
pub proof fn lemma_all_checks_required(c: SuccessCriteria, status: u16, text: Seq<char>)
    requires
        c.status is Some,
        c.body is Some,
        c.not_body is Some,
    ensures
        succeeds(c, status, text) <==> (status == c.status->0 && contains(
            encode_utf8(text),
            encode_utf8(c.body->0@),
        ) && !contains(encode_utf8(text), encode_utf8(c.not_body->0@))),
        !status_passes(c, status) ==> !succeeds(c, status, text),
        !body_passes(c, text) ==> !succeeds(c, status, text),
        !not_body_passes(c, text) ==> !succeeds(c, status, text),
{
}

} // verus!
