//! Character-level text model: substring search, `str::lines` splitting and
//! line joining, stated over `Seq<char>` and implemented over `Vec<char>`.
use vstd::prelude::*;
use vstd::std_specs::iter::IteratorSpec;

verus! {

/// `p` occurs in `s` starting at index `i`.
pub open spec fn occurs_at(s: Seq<char>, i: int, p: Seq<char>) -> bool {
    0 <= i && i + p.len() <= s.len() && s.subrange(i, i + p.len()) == p
}

/// `p` is a substring of `s` (what `str::contains` tests).
pub open spec fn contains(s: Seq<char>, p: Seq<char>) -> bool {
    exists|i: int| occurs_at(s, i, p)
}

/// Index of the first `'\n'` at or after `i`, or `s.len()` when there is none.
pub open spec fn newline_from(s: Seq<char>, i: int) -> int
    decreases s.len() - i,
{
    if i < 0 || i >= s.len() {
        s.len() as int
    } else if s[i] == '\n' {
        i
    } else {
        newline_from(s, i + 1)
    }
}

/// The text of a line that runs from `i` to the terminator at `j`: a line
/// ended by `"\r\n"` loses its `'\r'`.
pub open spec fn line_text(s: Seq<char>, i: int, j: int) -> Seq<char> {
    if j < s.len() && j > i && s[j - 1] == '\r' {
        s.subrange(i, j - 1)
    } else {
        s.subrange(i, j)
    }
}

/// The lines of `s` from index `i` on, as `str::lines` yields them.
pub open spec fn lines_from(s: Seq<char>, i: int) -> Seq<Seq<char>>
    decreases s.len() - i,
{
    if i < 0 || i >= s.len() {
        Seq::empty()
    } else {
        let j = newline_from(s, i);
        if j < i || j >= s.len() {
            seq![line_text(s, i, j)]
        } else {
            seq![line_text(s, i, j)] + lines_from(s, j + 1)
        }
    }
}

/// The lines of `s`: split at `'\n'`, a trailing `'\r'` removed from each
/// terminated line, no empty line after a final terminator.
pub open spec fn lines(s: Seq<char>) -> Seq<Seq<char>> {
    lines_from(s, 0)
}

/// The lines joined with `'\n'` between them (no terminator after the last).
pub open spec fn join_lines(ls: Seq<Seq<char>>) -> Seq<char>
    decreases ls.len(),
{
    if ls.len() == 0 {
        Seq::empty()
    } else if ls.len() == 1 {
        ls[0]
    } else {
        join_lines(ls.drop_last()) + seq!['\n'] + ls.last()
    }
}

pub proof fn lemma_newline_from_bounds(s: Seq<char>, i: int)
    requires
        0 <= i <= s.len(),
    ensures
        i <= newline_from(s, i) <= s.len(),
        newline_from(s, i) < s.len() ==> s[newline_from(s, i)] == '\n',
        forall|k: int| i <= k < newline_from(s, i) ==> s[k] != '\n',
    decreases s.len() - i,
{
    if i < s.len() && s[i] != '\n' {
        lemma_newline_from_bounds(s, i + 1);
    }
}

proof fn lemma_newline_shift(a: Seq<char>, b: Seq<char>, i: int)
    requires
        0 <= i <= b.len(),
    ensures
        newline_from(a + b, a.len() + i) == a.len() + newline_from(b, i),
    decreases b.len() - i,
{
    if i < b.len() {
        assert((a + b)[a.len() + i] == b[i]);
        if b[i] != '\n' {
            lemma_newline_shift(a, b, i + 1);
        }
    }
}

/// The lines of `b` are the lines of `a + b` from the end of `a` on.
pub proof fn lemma_lines_shift(a: Seq<char>, b: Seq<char>, i: int)
    requires
        0 <= i <= b.len(),
    ensures
        lines_from(a + b, a.len() + i) == lines_from(b, i),
    decreases b.len() - i,
{
    if i < b.len() {
        lemma_newline_shift(a, b, i);
        lemma_newline_from_bounds(b, i);
        let j = newline_from(b, i);
        let x = a + b;
        assert(x.subrange(a.len() + i, a.len() + j) =~= b.subrange(i, j));
        if j > i {
            assert(x[a.len() + j - 1] == b[j - 1]);
            assert(x.subrange(a.len() + i, a.len() + j - 1) =~= b.subrange(i, j - 1));
        }
        assert(line_text(x, a.len() + i, a.len() + j) == line_text(b, i, j));
        if j < b.len() {
            lemma_lines_shift(a, b, j + 1);
        }
    }
}

proof fn lemma_newline_at_end(l: Seq<char>, x: Seq<char>, k: int)
    requires
        0 <= k <= l.len(),
        l.len() < x.len(),
        x[l.len() as int] == '\n',
        forall|m: int| 0 <= m < l.len() ==> x[m] != '\n',
    ensures
        newline_from(x, k) == l.len(),
    decreases l.len() - k,
{
    if k < l.len() {
        lemma_newline_at_end(l, x, k + 1);
    }
}

/// A line without a break, ended by `'\n'`, is the first line.
pub proof fn lemma_lines_cons(l: Seq<char>, rest: Seq<char>)
    requires
        forall|m: int| 0 <= m < l.len() ==> l[m] != '\n',
        l.len() == 0 || l.last() != '\r',
    ensures
        lines(l + seq!['\n'] + rest) == seq![l] + lines(rest),
{
    let x = l + seq!['\n'] + rest;
    lemma_newline_at_end(l, x, 0);
    assert(x.subrange(0, l.len() as int) =~= l);
    assert(line_text(x, 0, l.len() as int) == l);
    lemma_lines_shift(l + seq!['\n'], rest, 0);
}

proof fn lemma_newline_extend(a: Seq<char>, z: Seq<char>, i: int)
    requires
        0 <= i <= a.len(),
        newline_from(a, i) < a.len(),
    ensures
        newline_from(a + z, i) == newline_from(a, i),
    decreases a.len() - i,
{
    assert((a + z)[i] == a[i]);
    if a[i] != '\n' {
        lemma_newline_extend(a, z, i + 1);
    }
}

proof fn lemma_lines_from_append(a: Seq<char>, z: Seq<char>, i: int)
    requires
        0 <= i <= a.len(),
        a.len() > 0,
        a.last() == '\n',
    ensures
        lines_from(a + z, i) == lines_from(a, i) + lines(z),
    decreases a.len() - i,
{
    if i == a.len() {
        lemma_lines_shift(a, z, 0);
        assert(lines_from(a, i) + lines(z) =~= lines(z));
    } else {
        lemma_newline_from_bounds(a, i);
        assert(a[a.len() - 1] == '\n');
        assert(newline_from(a, i) < a.len());
        let j = newline_from(a, i);
        lemma_newline_extend(a, z, i);
        let x = a + z;
        assert(x.subrange(i, j) =~= a.subrange(i, j));
        if j > i {
            assert(x[j - 1] == a[j - 1]);
            assert(x.subrange(i, j - 1) =~= a.subrange(i, j - 1));
        }
        assert(line_text(x, i, j) == line_text(a, i, j));
        lemma_lines_from_append(a, z, j + 1);
        assert(lines_from(a + z, i) =~= lines_from(a, i) + lines(z));
    }
}

/// Text that ends with a line break is followed by the lines of what comes
/// after it.
pub proof fn lemma_lines_append(a: Seq<char>, z: Seq<char>)
    requires
        a.len() > 0,
        a.last() == '\n',
    ensures
        lines(a + z) == lines(a) + lines(z),
{
    lemma_lines_from_append(a, z, 0);
}

/// Relies on `String::push`: appends the character to the string.
#[verifier::external_body]
pub(crate) fn push_char(s: &mut String, c: char)
    ensures
        final(s)@ == old(s)@.push(c),
{
    s.push(c)
}

/// The characters of `s`, in order.
pub fn chars_of(s: &str) -> (r: Vec<char>)
    ensures
        r@ == s@,
{
    let mut it = s.chars();
    let mut out: Vec<char> = Vec::new();
    proof {
        vstd::string::axiom_spec_iter(s);
    }
    loop
        invariant
            it.obeys_prophetic_iter_laws(),
            out@ + it.remaining() == s@,
        ensures
            out@ == s@,
        decreases s@.len() - out@.len(),
    {
        let ghost before = it;
        let next = it.next();
        proof {
            vstd::string::next_postcondition(&before, &it, next);
        }
        match next {
            Some(c) => {
                assert(out@.push(c) + it.remaining() =~= out@ + before.remaining());
                out.push(c);
            },
            None => {
                assert(out@ =~= s@);
                break ;
            },
        }
    }
    out
}

/// Appends `v[lo..hi]` to `out`.
pub fn push_range(out: &mut String, v: &Vec<char>, lo: usize, hi: usize)
    requires
        lo <= hi <= v.len(),
    ensures
        final(out)@ == old(out)@ + v@.subrange(lo as int, hi as int),
{
    let mut k = lo;
    while k < hi
        invariant
            lo <= k <= hi <= v.len(),
            out@ == old(out)@ + v@.subrange(lo as int, k as int),
        decreases hi - k,
    {
        push_char(out, v[k]);
        assert(v@.subrange(lo as int, k as int).push(v@[k as int]) =~= v@.subrange(
            lo as int,
            k + 1,
        ));
        k = k + 1;
    }
}

/// Appends all of `v` to `out`.
pub fn push_all(out: &mut String, v: &Vec<char>)
    ensures
        final(out)@ == old(out)@ + v@,
{
    push_range(out, v, 0, v.len());
    assert(v@.subrange(0, v@.len() as int) =~= v@);
}

/// Whether `p` occurs in `v` at `i`, within the first `hi` characters.
fn occurs_within(v: &Vec<char>, i: usize, hi: usize, p: &Vec<char>) -> (r: bool)
    requires
        i <= hi <= v.len(),
    ensures
        r == (p.len() <= hi - i && v@.subrange(i as int, i + p.len()) == p@),
{
    if p.len() > hi - i {
        return false;
    }
    let mut k: usize = 0;
    while k < p.len()
        invariant
            k <= p.len() <= hi - i,
            hi <= v.len(),
            forall|m: int| 0 <= m < k ==> v@[i + m] == p@[m],
        decreases p.len() - k,
    {
        if v[i + k] != p[k] {
            assert(v@.subrange(i as int, i + p.len())[k as int] != p@[k as int]);
            return false;
        }
        k = k + 1;
    }
    assert(v@.subrange(i as int, i + p.len()) =~= p@);
    true
}

/// Whether `p` occurs in `v` at `i`.
pub fn occurs_at_index(v: &Vec<char>, i: usize, p: &Vec<char>) -> (r: bool)
    requires
        i <= v.len(),
    ensures
        r == occurs_at(v@, i as int, p@),
{
    occurs_within(v, i, v.len(), p)
}

/// Whether `p` is a substring of `v[lo..hi]`.
pub fn contains_in(v: &Vec<char>, lo: usize, hi: usize, p: &Vec<char>) -> (r: bool)
    requires
        lo <= hi <= v.len(),
    ensures
        r == contains(v@.subrange(lo as int, hi as int), p@),
{
    let ghost s = v@.subrange(lo as int, hi as int);
    let mut i = lo;
    while i < hi
        invariant
            lo <= i <= hi,
            hi <= v.len(),
            s == v@.subrange(lo as int, hi as int),
            forall|j: int| 0 <= j < i - lo ==> !occurs_at(s, j, p@),
        decreases hi - i,
    {
        if occurs_within(v, i, hi, p) {
            assert(s.subrange(i - lo, i - lo + p.len()) =~= v@.subrange(i as int, i + p.len()));
            assert(occurs_at(s, i - lo, p@));
            return true;
        }
        assert forall|j: int| 0 <= j < i + 1 - lo implies !occurs_at(s, j, p@) by {
            if j == i - lo && occurs_at(s, j, p@) {
                assert(s.subrange(j, j + p.len()) =~= v@.subrange(i as int, i + p.len()));
            }
        }
        i = i + 1;
    }
    if p.len() == 0 {
        assert(s.subrange(hi - lo, hi - lo) =~= p@);
        assert(occurs_at(s, hi - lo, p@));
        return true;
    }
    false
}

/// Whether `p` is a substring of `v`.
pub fn contains_all(v: &Vec<char>, p: &Vec<char>) -> (r: bool)
    ensures
        r == contains(v@, p@),
{
    let r = contains_in(v, 0, v.len(), p);
    assert(v@.subrange(0, v@.len() as int) =~= v@);
    r
}

pub proof fn lemma_contains_concat(a: Seq<char>, b: Seq<char>, c: Seq<char>)
    ensures
        contains(a + b + c, b),
{
    assert((a + b + c).subrange(a.len() as int, (a.len() + b.len()) as int) =~= b);
    assert(occurs_at(a + b + c, a.len() as int, b));
}

pub proof fn lemma_contains_trans(a: Seq<char>, b: Seq<char>, c: Seq<char>)
    requires
        contains(a, b),
        contains(b, c),
    ensures
        contains(a, c),
{
    let i = choose|i: int| occurs_at(a, i, b);
    let j = choose|j: int| occurs_at(b, j, c);
    assert(a.subrange(i + j, i + j + c.len()) =~= b.subrange(j, j + c.len()));
    assert(occurs_at(a, i + j, c));
}

} // verus!
