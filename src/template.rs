//! The request skeleton and the substitution of a wordlist entry into it.
use vstd::prelude::*;

verus! {

/// The marker that each wordlist entry replaces: the ASCII text `FUZZ`.
pub open spec fn placeholder() -> Seq<u8> {
    seq![70u8, 85u8, 90u8, 90u8]
}

/// `s` with every occurrence of `pat` replaced by `rep`, scanning from the
/// left; replaced text is not scanned again.
pub open spec fn substitute(s: Seq<u8>, pat: Seq<u8>, rep: Seq<u8>) -> Seq<u8>
    recommends
        pat.len() > 0,
    decreases s.len(),
{
    if s.len() == 0 {
        s
    } else if pat.len() > 0 && pat.len() <= s.len() && s.subrange(0, pat.len() as int) == pat {
        rep + substitute(s.subrange(pat.len() as int, s.len() as int), pat, rep)
    } else {
        seq![s[0]] + substitute(s.subrange(1, s.len() as int), pat, rep)
    }
}

/// Whether `s` holds an empty line after some line: a line feed followed by
/// a line feed, or by a carriage return and a line feed.
pub open spec fn has_blank_line(s: Seq<u8>) -> bool {
    exists|i: int|
        0 <= i && i + 1 < s.len() && #[trigger] s[i] == 10 && (s[i + 1] == 10 || (i + 2 < s.len()
            && s[i + 1] == 13 && s[i + 2] == 10))
}

/// `s` without one final line ending (`\r\n` or `\n`), if it has one.
pub open spec fn without_line_end(s: Seq<u8>) -> Seq<u8> {
    if s.len() >= 2 && s[s.len() - 2] == 13 && s[s.len() - 1] == 10 {
        s.subrange(0, s.len() - 2)
    } else if s.len() >= 1 && s[s.len() - 1] == 10 {
        s.subrange(0, s.len() - 1)
    } else {
        s
    }
}

/// A skeleton whose head is not closed by an empty line is all head: its
/// final line ending is replaced by `\r\n\r\n`. Any other is kept as it is.
pub open spec fn completed_head(s: Seq<u8>) -> Seq<u8> {
    if has_blank_line(s) {
        s
    } else {
        without_line_end(s) + seq![13u8, 10u8, 13u8, 10u8]
    }
}

/// The raw bytes of one HTTP request (request line, headers, optional body)
/// in which the placeholder marks where an entry goes.
#[derive(Debug)]
pub struct RequestTemplate {
    pub raw: Vec<u8>,
}

impl View for RequestTemplate {
    type V = Seq<u8>;

    open spec fn view(&self) -> Seq<u8> {
        self.raw@
    }
}

impl RequestTemplate {
    pub fn new(raw: Vec<u8>) -> (r: RequestTemplate)
        ensures
            r@ == raw@,
    {
        RequestTemplate { raw }
    }

    /// The skeleton with every placeholder replaced by `entry`.
    pub fn substituted(&self, entry: &[u8]) -> (r: Vec<u8>)
        ensures
            r@ == substitute(self@, placeholder(), entry@),
    {
        substitute_placeholder(self.raw.as_slice(), entry)
    }
}

fn append(out: &mut Vec<u8>, src: &[u8])
    ensures
        final(out)@ == old(out)@ + src@,
{
    let mut i: usize = 0;
    while i < src.len()
        invariant
            i <= src@.len(),
            out@ == old(out)@ + src@.subrange(0, i as int),
        decreases src@.len() - i,
    {
        out.push(src[i]);
        i = i + 1;
        assert(out@ =~= old(out)@ + src@.subrange(0, i as int));
    }
    assert(src@.subrange(0, i as int) =~= src@);
}

/// Whether the placeholder starts at byte `i` of `s`.
fn placeholder_at(s: &[u8], i: usize) -> (r: bool)
    requires
        i <= s@.len(),
    ensures
        r == (i + 4 <= s@.len() && s@.subrange(i as int, i + 4) == placeholder()),
{
    if s.len() - i < 4 {
        return false;
    }
    let r = s[i] == 70 && s[i + 1] == 85 && s[i + 2] == 90 && s[i + 3] == 90;
    if r {
        assert(s@.subrange(i as int, i + 4) =~= placeholder());
    } else {
        assert(s@.subrange(i as int, i + 4) != placeholder()) by {
            let sub = s@.subrange(i as int, i + 4);
            if sub == placeholder() {
                assert(sub[0] == 70 && sub[1] == 85 && sub[2] == 90 && sub[3] == 90);
            }
        }
    }
    r
}

/// Replaces every placeholder in `s` by `entry`.
pub fn substitute_placeholder(s: &[u8], entry: &[u8]) -> (r: Vec<u8>)
    ensures
        r@ == substitute(s@, placeholder(), entry@),
{
    let mut out: Vec<u8> = Vec::new();
    let mut i: usize = 0;
    assert(s@.subrange(0, s@.len() as int) =~= s@);
    assert(out@ + substitute(s@, placeholder(), entry@) =~= substitute(s@, placeholder(), entry@));
    while i < s.len()
        invariant
            i <= s@.len(),
            out@ + substitute(s@.subrange(i as int, s@.len() as int), placeholder(), entry@)
                == substitute(s@, placeholder(), entry@),
        decreases s@.len() - i,
    {
        let ghost rest = s@.subrange(i as int, s@.len() as int);
        if placeholder_at(s, i) {
            assert(rest.subrange(0, 4) == s@.subrange(i as int, i + 4));
            assert(rest.subrange(4, rest.len() as int) =~= s@.subrange(i + 4, s@.len() as int));
            append(&mut out, entry);
            i = i + 4;
            assert(out@ + substitute(s@.subrange(i as int, s@.len() as int), placeholder(), entry@)
                =~= substitute(s@, placeholder(), entry@));
        } else {
            assert(rest.len() >= 4 ==> rest.subrange(0, 4) == s@.subrange(i as int, i + 4));
            assert(rest.subrange(1, rest.len() as int) =~= s@.subrange(i + 1, s@.len() as int));
            out.push(s[i]);
            i = i + 1;
            assert(out@ + substitute(s@.subrange(i as int, s@.len() as int), placeholder(), entry@)
                =~= substitute(s@, placeholder(), entry@));
        }
    }
    assert(s@.subrange(i as int, s@.len() as int) =~= Seq::<u8>::empty());
    assert(out@ + Seq::<u8>::empty() =~= out@);
    out
}

/// Whether `s` holds an empty line after some line.
fn find_blank_line(s: &[u8]) -> (r: bool)
    ensures
        r == has_blank_line(s@),
{
    let mut i: usize = 0;
    while i < s.len() && s.len() - i > 1
        invariant
            i <= s@.len(),
            forall|j: int|
                0 <= j < i && j + 1 < s@.len() ==> !(#[trigger] s@[j] == 10 && (s@[j + 1] == 10 || (
                j + 2 < s@.len() && s@[j + 1] == 13 && s@[j + 2] == 10))),
        decreases s@.len() - i,
    {
        if s[i] == 10 && (s[i + 1] == 10 || (i + 2 < s.len() && s[i + 1] == 13 && s[i + 2] == 10)) {
            return true;
        }
        i = i + 1;
    }
    false
}

/// Closes a head that lacks its empty line (see `completed_head`).
pub fn complete_head(s: Vec<u8>) -> (r: Vec<u8>)
    ensures
        r@ == completed_head(s@),
{
    if find_blank_line(s.as_slice()) {
        return s;
    }
    let n = s.len();
    let keep: usize = if n >= 2 && s[n - 2] == 13 && s[n - 1] == 10 {
        n - 2
    } else if n >= 1 && s[n - 1] == 10 {
        n - 1
    } else {
        n
    };
    let mut out = vstd::slice::slice_to_vec(vstd::slice::slice_subrange(s.as_slice(), 0, keep));
    out.push(13);
    out.push(10);
    out.push(13);
    out.push(10);
    assert(out@ =~= completed_head(s@));
    out
}

/// Substitution works across the whole skeleton, line by line: cut after
/// any line feed, a skeleton is substituted as its two parts are. So the
/// placeholder is replaced in the request line, in header values and in the
/// body alike.
pub proof fn lemma_substitute_splits_at_line_end(a: Seq<u8>, b: Seq<u8>, entry: Seq<u8>)
    requires
        a.len() > 0,
        a.last() == 10,
    ensures
        substitute(a + b, placeholder(), entry) == substitute(a, placeholder(), entry) + substitute(
            b,
            placeholder(),
            entry,
        ),
    decreases a.len(),
{
    let p = placeholder();
    let s = a + b;
    let hit = 4 <= s.len() && s.subrange(0, 4) == p;
    let hit_a = 4 <= a.len() && a.subrange(0, 4) == p;
    if a.len() >= 4 {
        assert(s.subrange(0, 4) =~= a.subrange(0, 4));
    } else if hit {
        let i = a.len() - 1;
        assert(s.subrange(0, 4)[i] == s[i]);
        assert(false);
    }
    assert(hit == hit_a);
    let k: int = if hit {
        4
    } else {
        1
    };
    if hit && a.len() == 4 {
        assert(a[3] == a.subrange(0, 4)[3]);
    }
    let a2 = a.subrange(k, a.len() as int);
    assert(s.subrange(k, s.len() as int) =~= a2 + b);
    if a2.len() == 0 {
        assert(a2 + b =~= b);
        assert(substitute(a2, p, entry) =~= Seq::<u8>::empty());
        if hit {
            assert(substitute(a, p, entry) =~= entry);
        } else {
            assert(substitute(a, p, entry) =~= seq![a[0]]);
        }
    } else {
        assert(a2.last() == a.last());
        lemma_substitute_splits_at_line_end(a2, b, entry);
    }
    assert(s[0] == a[0]);
    if hit {
        assert(substitute(s, p, entry) == entry + substitute(a2 + b, p, entry));
        assert(substitute(a, p, entry) == entry + substitute(a2, p, entry));
    } else {
        assert(substitute(s, p, entry) == seq![s[0]] + substitute(a2 + b, p, entry));
        assert(substitute(a, p, entry) == seq![a[0]] + substitute(a2, p, entry));
    }
    assert(substitute(s, p, entry) =~= substitute(a, p, entry) + substitute(b, p, entry));
}

} // verus!
