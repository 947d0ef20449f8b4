//! Splitting a wordlist into its entries.
use vstd::prelude::*;

verus! {

/// Spaces, tabs, line feeds, vertical tabs, form feeds and carriage returns.
pub open spec fn is_blank(b: u8) -> bool {
    b == 32 || (9 <= b <= 13)
}

/// `l` without its trailing ASCII whitespace.
pub open spec fn trim_end(l: Seq<u8>) -> Seq<u8>
    decreases l.len(),
{
    if l.len() > 0 && is_blank(l.last()) {
        trim_end(l.drop_last())
    } else {
        l
    }
}

/// The pieces of `s` between line feeds; always at least one.
pub open spec fn pieces(s: Seq<u8>) -> Seq<Seq<u8>>
    decreases s.len(),
{
    if s.len() == 0 {
        seq![Seq::empty()]
    } else {
        let p = pieces(s.drop_last());
        if s.last() == 10 {
            p.push(Seq::empty())
        } else {
            p.update(p.len() - 1, p.last().push(s.last()))
        }
    }
}

/// The lines of `s`: the pieces between line feeds, where a final line
/// feed ends the last line rather than starting an empty one.
pub open spec fn lines(s: Seq<u8>) -> Seq<Seq<u8>> {
    let p = pieces(s);
    if p.last().len() == 0 {
        p.drop_last()
    } else {
        p
    }
}

/// The entries of a wordlist: its lines, in order, each without trailing
/// whitespace. Empty lines stay, as empty entries.
pub open spec fn entries_of(s: Seq<u8>) -> Seq<Seq<u8>> {
    lines(s).map_values(|l: Seq<u8>| trim_end(l))
}

pub open spec fn views(v: Seq<Vec<u8>>) -> Seq<Seq<u8>> {
    v.map_values(|x: Vec<u8>| x@)
}

fn trim_end_bytes(l: &[u8]) -> (r: Vec<u8>)
    ensures
        r@ == trim_end(l@),
{
    let mut n: usize = l.len();
    assert(l@.take(n as int) =~= l@);
    while n > 0 && (l[n - 1] == 32 || (9 <= l[n - 1] && l[n - 1] <= 13))
        invariant
            n <= l@.len(),
            trim_end(l@.take(n as int)) == trim_end(l@),
        decreases n,
    {
        assert(l@.take(n as int).drop_last() =~= l@.take(n - 1));
        n = n - 1;
    }
    assert(trim_end(l@.take(n as int)) == l@.take(n as int));
    vstd::slice::slice_to_vec(vstd::slice::slice_subrange(l, 0, n))
}

/// Splits wordlist text into its entries.
pub fn split_wordlist(s: &[u8]) -> (r: Vec<Vec<u8>>)
    ensures
        views(r@) == entries_of(s@),
{
    let mut done: Vec<Vec<u8>> = Vec::new();
    let mut cur: Vec<u8> = Vec::new();
    let mut i: usize = 0;
    assert(views(done@).push(cur@) =~= pieces(s@.take(0)));
    while i < s.len()
        invariant
            i <= s@.len(),
            views(done@).push(cur@) == pieces(s@.take(i as int)),
        decreases s@.len() - i,
    {
        let ghost before = pieces(s@.take(i as int));
        assert(s@.take(i + 1).drop_last() =~= s@.take(i as int));
        if s[i] == 10 {
            done.push(cur);
            cur = Vec::new();
            assert(views(done@).push(cur@) =~= before.push(Seq::empty()));
        } else {
            cur.push(s[i]);
            assert(views(done@).push(cur@) =~= before.update(
                before.len() - 1,
                before.last().push(s@[i as int]),
            ));
        }
        i = i + 1;
    }
    assert(s@.take(i as int) =~= s@);
    let ghost all = pieces(s@);
    let ghost kept = lines(s@);
    if cur.len() > 0 {
        done.push(cur);
    }
    assert(views(done@) =~= kept);
    let mut out: Vec<Vec<u8>> = Vec::new();
    let mut j: usize = 0;
    while j < done.len()
        invariant
            j <= done@.len(),
            views(done@) == kept,
            views(out@) == kept.take(j as int).map_values(|l: Seq<u8>| trim_end(l)),
        decreases done@.len() - j,
    {
        let ghost prev = views(out@);
        assert(views(done@)[j as int] == done@[j as int]@);
        out.push(trim_end_bytes(done[j].as_slice()));
        assert(views(out@) =~= prev.push(trim_end(kept[j as int])));
        assert(kept.take(j + 1) =~= kept.take(j as int).push(kept[j as int]));
        j = j + 1;
        assert(views(out@) =~= kept.take(j as int).map_values(|l: Seq<u8>| trim_end(l)));
    }
    assert(kept.take(j as int) =~= kept);
    out
}

} // verus!
