//! The head of a request: its parse, its header list and the values read
//! from it.
use vstd::prelude::*;

verus! {

/// One header line: name and value, as bytes.
#[derive(Debug)]
pub struct Header {
    pub name: Vec<u8>,
    pub value: Vec<u8>,
}

impl View for Header {
    type V = (Seq<u8>, Seq<u8>);

    open spec fn view(&self) -> (Seq<u8>, Seq<u8>) {
        (self.name@, self.value@)
    }
}

/// The views of a list of headers.
pub open spec fn headers_view(hs: Seq<Header>) -> Seq<(Seq<u8>, Seq<u8>)> {
    hs.map_values(|h: Header| h@)
}

/// A parsed request head: method, request target, header lines in order,
/// and the offset at which the body starts.
#[derive(Debug)]
pub struct RawHead {
    pub method: String,
    pub path: String,
    pub headers: Vec<Header>,
    pub len: usize,
}

impl View for RawHead {
    type V = (Seq<char>, Seq<char>, Seq<(Seq<u8>, Seq<u8>)>, nat);

    open spec fn view(&self) -> (Seq<char>, Seq<char>, Seq<(Seq<u8>, Seq<u8>)>, nat) {
        (self.method@, self.path@, headers_view(self.headers@), self.len as nat)
    }
}

/// What httparse reads from the start of `b` as a request head, when it
/// finds a complete one: method, target, headers and body offset.
pub uninterp spec fn http_head(b: Seq<u8>) -> Option<(Seq<char>, Seq<char>, Seq<(Seq<u8>, Seq<u8>)>, nat)>;

/// Relies on `httparse::Request::parse`: it reports a complete head (request
/// line, at most 64 header lines, an empty line) together with the offset of
/// the byte after it, which lies within the buffer. An incomplete head or a
/// malformed one gives `None`.
#[verifier::external_body]
pub(crate) fn parse_head(b: &[u8]) -> (r: Option<RawHead>)
    ensures
        r is Some == http_head(b@) is Some,
        r is Some ==> r->0@ == http_head(b@)->0 && r->0.len <= b@.len(),
{
    let mut slots = [httparse::EMPTY_HEADER; 64];
    let mut req = httparse::Request::new(&mut slots);
    match req.parse(b) {
        Ok(httparse::Status::Complete(len)) => Some(RawHead {
            method: req.method.unwrap_or_default().to_string(),
            path: req.path.unwrap_or_default().to_string(),
            headers: req.headers.iter().map(
                |h| Header { name: h.name.as_bytes().to_vec(), value: h.value.to_vec() },
            ).collect(),
            len,
        }),
        _ => None,
    }
}

/// ASCII upper-case letters mapped to lower case; other bytes kept.
pub open spec fn lower_byte(b: u8) -> u8 {
    if 65 <= b <= 90 {
        (b + 32) as u8
    } else {
        b
    }
}

pub open spec fn lower(s: Seq<u8>) -> Seq<u8> {
    s.map_values(|b: u8| lower_byte(b))
}

pub fn ascii_lower(s: &[u8]) -> (r: Vec<u8>)
    ensures
        r@ == lower(s@),
{
    let mut out: Vec<u8> = Vec::new();
    let mut i: usize = 0;
    while i < s.len()
        invariant
            i <= s@.len(),
            out@ == lower(s@.subrange(0, i as int)),
        decreases s@.len() - i,
    {
        let b = s[i];
        let c: u8 = if 65 <= b && b <= 90 {
            b + 32
        } else {
            b
        };
        out.push(c);
        i = i + 1;
        assert(out@ =~= lower(s@.subrange(0, i as int)));
    }
    assert(s@.subrange(0, i as int) =~= s@);
    out
}

fn same_bytes(a: &[u8], b: &[u8]) -> (r: bool)
    ensures
        r == (a@ == b@),
{
    if a.len() != b.len() {
        return false;
    }
    let mut i: usize = 0;
    while i < a.len()
        invariant
            a@.len() == b@.len(),
            i <= a@.len(),
            a@.subrange(0, i as int) == b@.subrange(0, i as int),
        decreases a@.len() - i,
    {
        if a[i] != b[i] {
            assert(a@[i as int] != b@[i as int]);
            return false;
        }
        assert(a@.subrange(0, i + 1) =~= b@.subrange(0, i + 1)) by {
            assert(a@.subrange(0, i + 1) =~= a@.subrange(0, i as int).push(a@[i as int]));
            assert(b@.subrange(0, i + 1) =~= b@.subrange(0, i as int).push(b@[i as int]));
        }
        i = i + 1;
    }
    assert(a@ =~= a@.subrange(0, i as int));
    assert(b@ =~= b@.subrange(0, i as int));
    true
}

/// Index of the last header named `k` in `hs`, or -1.
pub open spec fn last_index_of(hs: Seq<(Seq<u8>, Seq<u8>)>, k: Seq<u8>) -> int
    decreases hs.len(),
{
    if hs.len() == 0 {
        -1
    } else if hs.last().0 == k {
        hs.len() - 1
    } else {
        last_index_of(hs.drop_last(), k)
    }
}

proof fn lemma_last_index_range(hs: Seq<(Seq<u8>, Seq<u8>)>, k: Seq<u8>)
    ensures
        -1 <= last_index_of(hs, k) < hs.len(),
        last_index_of(hs, k) >= 0 ==> hs[last_index_of(hs, k)].0 == k,
    decreases hs.len(),
{
    if hs.len() > 0 {
        lemma_last_index_range(hs.drop_last(), k);
    }
}

/// The value of the last header named `k`.
pub open spec fn lookup(hs: Seq<(Seq<u8>, Seq<u8>)>, k: Seq<u8>) -> Option<Seq<u8>> {
    let j = last_index_of(hs, k);
    if j >= 0 {
        Some(hs[j].1)
    } else {
        None
    }
}

/// Headers with names in lower case, one per name, in the order in which
/// each name first appears; the last value given for a name wins.
pub open spec fn merge_headers(hs: Seq<(Seq<u8>, Seq<u8>)>) -> Seq<(Seq<u8>, Seq<u8>)>
    decreases hs.len(),
{
    if hs.len() == 0 {
        Seq::empty()
    } else {
        let acc = merge_headers(hs.drop_last());
        let k = lower(hs.last().0);
        let j = last_index_of(acc, k);
        if j >= 0 {
            acc.update(j, (k, hs.last().1))
        } else {
            acc.push((k, hs.last().1))
        }
    }
}

/// Index of the last header named `k`.
pub fn position(hs: &Vec<Header>, k: &[u8]) -> (r: Option<usize>)
    ensures
        match r {
            Some(j) => j as int == last_index_of(headers_view(hs@), k@),
            None => last_index_of(headers_view(hs@), k@) == -1,
        },
{
    let ghost hv = headers_view(hs@);
    let mut found: Option<usize> = None;
    let mut j: usize = 0;
    while j < hs.len()
        invariant
            j <= hs@.len(),
            hv == headers_view(hs@),
            match found {
                Some(f) => f as int == last_index_of(hv.take(j as int), k@),
                None => last_index_of(hv.take(j as int), k@) == -1,
            },
        decreases hs@.len() - j,
    {
        assert(hv.take(j + 1).drop_last() =~= hv.take(j as int));
        if same_bytes(hs[j].name.as_slice(), k) {
            found = Some(j);
        }
        j = j + 1;
    }
    assert(hv.take(j as int) =~= hv);
    found
}

/// Merges a header list as `merge_headers` says.
pub fn merge(hs: &Vec<Header>) -> (r: Vec<Header>)
    ensures
        headers_view(r@) == merge_headers(headers_view(hs@)),
{
    let ghost hv = headers_view(hs@);
    let mut out: Vec<Header> = Vec::new();
    let mut i: usize = 0;
    assert(headers_view(out@) =~= merge_headers(hv.take(0)));
    while i < hs.len()
        invariant
            i <= hs@.len(),
            hv == headers_view(hs@),
            headers_view(out@) == merge_headers(hv.take(i as int)),
        decreases hs@.len() - i,
    {
        let ghost acc = headers_view(out@);
        assert(hv.take(i + 1).drop_last() =~= hv.take(i as int));
        let k = ascii_lower(hs[i].name.as_slice());
        let v = vstd::slice::slice_to_vec(hs[i].value.as_slice());
        match position(&out, k.as_slice()) {
            Some(j) => {
                proof {
                    lemma_last_index_range(acc, k@);
                }
                out.set(j, Header { name: k, value: v });
                assert(headers_view(out@) =~= acc.update(j as int, (lower(hv[i as int].0), hv[i as int].1)));
            },
            None => {
                out.push(Header { name: k, value: v });
                assert(headers_view(out@) =~= acc.push((lower(hv[i as int].0), hv[i as int].1)));
            },
        }
        i = i + 1;
    }
    assert(hv.take(i as int) =~= hv);
    out
}

/// Value of the last header named `k`.
pub fn find_value<'a>(hs: &'a Vec<Header>, k: &[u8]) -> (r: Option<&'a Vec<u8>>)
    ensures
        match r {
            Some(v) => lookup(headers_view(hs@), k@) == Some(v@),
            None => lookup(headers_view(hs@), k@) is None,
        },
{
    match position(hs, k) {
        Some(j) => {
            proof {
                lemma_last_index_range(headers_view(hs@), k@);
            }
            Some(&hs[j].value)
        },
        None => None,
    }
}

pub open spec fn is_digit(b: u8) -> bool {
    48 <= b <= 57
}

/// A non-empty run of ASCII digits.
pub open spec fn is_decimal(s: Seq<u8>) -> bool {
    s.len() > 0 && forall|i: int| 0 <= i < s.len() ==> is_digit(#[trigger] s[i])
}

/// The number that a run of ASCII digits writes in base ten.
pub open spec fn decimal_value(s: Seq<u8>) -> nat
    decreases s.len(),
{
    if s.len() == 0 {
        0
    } else {
        decimal_value(s.drop_last()) * 10 + (s.last() - 48) as nat
    }
}

proof fn lemma_decimal_grows(s: Seq<u8>, i: int)
    requires
        0 <= i <= s.len(),
        forall|j: int| 0 <= j < s.len() ==> is_digit(#[trigger] s[j]),
    ensures
        decimal_value(s.take(i)) <= decimal_value(s),
    decreases s.len(),
{
    if i < s.len() {
        let p = s.drop_last();
        assert forall|j: int| 0 <= j < p.len() implies is_digit(#[trigger] p[j]) by {
            assert(p[j] == s[j]);
        }
        lemma_decimal_grows(p, i);
        assert(p.take(i) =~= s.take(i));
    } else {
        assert(s.take(i) =~= s);
    }
}

/// Reads a decimal number; `None` unless `s` is a run of digits whose value
/// fits in `usize`.
pub fn parse_decimal(s: &[u8]) -> (r: Option<usize>)
    ensures
        r is Some <==> is_decimal(s@) && decimal_value(s@) <= usize::MAX,
        r is Some ==> r->0 == decimal_value(s@),
{
    if s.len() == 0 {
        return None;
    }
    let mut acc: usize = 0;
    let mut i: usize = 0;
    while i < s.len()
        invariant
            i <= s@.len(),
            acc == decimal_value(s@.take(i as int)),
            forall|j: int| 0 <= j < i ==> is_digit(#[trigger] s@[j]),
        decreases s@.len() - i,
    {
        let b = s[i];
        if b < 48 || b > 57 {
            return None;
        }
        let d = (b - 48) as usize;
        assert(s@.take(i + 1).drop_last() =~= s@.take(i as int));
        if acc > (usize::MAX - d) / 10 {
            proof {
                assert(acc * 10 + d > usize::MAX) by (nonlinear_arith)
                    requires
                        acc > (usize::MAX - d) / 10,
                        d <= 9,
                ;
                if is_decimal(s@) {
                    lemma_decimal_grows(s@, i + 1);
                }
            }
            return None;
        }
        assert(acc * 10 + d <= usize::MAX) by (nonlinear_arith)
            requires
                acc <= (usize::MAX - d) / 10,
                d <= 9,
        ;
        acc = acc * 10 + d;
        i = i + 1;
    }
    assert(s@.take(i as int) =~= s@);
    Some(acc)
}

} // verus!
