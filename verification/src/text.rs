//! Verified text utilities over character sequences: substring search,
//! non-overlapping left-to-right replacement, whitespace trimming, and plain
//! string equality, each pinned to a spec-level definition.

use vstd::prelude::*;

verus! {

/// `nd` occurs in `h` at position `i`.
pub open spec fn has_sub_at(h: Seq<char>, nd: Seq<char>, i: int) -> bool {
    0 <= i && i + nd.len() <= h.len() && h.subrange(i, i + nd.len()) == nd
}

/// `nd` occurs somewhere in `h`.
pub open spec fn has_sub(h: Seq<char>, nd: Seq<char>) -> bool {
    exists|i: int| has_sub_at(h, nd, i)
}

/// Whether two strings hold the same characters.
pub fn str_eq(a: &str, b: &str) -> (r: bool)
    ensures
        r == (a@ == b@),
{
    let na = a.unicode_len();
    let nb = b.unicode_len();
    if na != nb {
        return false;
    }
    let mut i: usize = 0;
    while i < na
        invariant
            na == a@.len(),
            na == b@.len(),
            i <= na,
            forall|j: int| 0 <= j < i ==> a@[j] == b@[j],
        decreases na - i,
    {
        if a.get_char(i) != b.get_char(i) {
            return false;
        }
        i += 1;
    }
    proof {
        assert(a@ =~= b@);
    }
    true
}

/// Whether `nd` matches `h` at position `i`.
pub fn match_at(h: &str, nd: &str, i: usize) -> (r: bool)
    requires
        i + nd@.len() <= h@.len(),
    ensures
        r == has_sub_at(h@, nd@, i as int),
{
    let hn = h.unicode_len();
    let m = nd.unicode_len();
    let mut j: usize = 0;
    while j < m
        invariant
            hn == h@.len(),
            m == nd@.len(),
            i + m <= hn,
            j <= m,
            forall|t: int| 0 <= t < j ==> h@[i + t] == nd@[t],
        decreases m - j,
    {
        if h.get_char(i + j) != nd.get_char(j) {
            proof {
                assert(h@.subrange(i as int, i + m)[j as int] == h@[i + j]);
            }
            return false;
        }
        j += 1;
    }
    proof {
        assert(h@.subrange(i as int, i + m) =~= nd@);
    }
    true
}

/// Whether `nd` occurs anywhere in `h`, as `str::contains` reports it.
pub fn contains_sub(h: &str, nd: &str) -> (r: bool)
    ensures
        r == has_sub(h@, nd@),
{
    let n = h.unicode_len();
    let m = nd.unicode_len();
    if m > n {
        proof {
            assert(forall|i: int| !has_sub_at(h@, nd@, i));
        }
        return false;
    }
    let mut i: usize = 0;
    while i <= n - m
        invariant
            n == h@.len(),
            m == nd@.len(),
            m <= n,
            i <= n + 1,
            forall|t: int| 0 <= t < i ==> !has_sub_at(h@, nd@, t),
        decreases n - i,
    {
        if match_at(h, nd, i) {
            return true;
        }
        proof {
            if m == 0 {
                assert(h@.subrange(i as int, i as int) =~= nd@);
                assert(false);
            }
        }
        i += 1;
    }
    proof {
        assert forall|t: int| !has_sub_at(h@, nd@, t) by {
            if 0 <= t && t + nd@.len() <= h@.len() {
                assert(t < i);
            }
        }
    }
    false
}

/// Concatenation of sequences is associative.
pub proof fn lemma_add_assoc<A>(a: Seq<A>, b: Seq<A>, c: Seq<A>)
    ensures
        (a + b) + c == a + (b + c),
{
    assert((a + b) + c =~= a + (b + c));
}

/// A sequence equals a concatenation exactly when its length splits and the
/// two parts occur at their positions.
pub proof fn lemma_eq_concat(s: Seq<char>, x: Seq<char>, y: Seq<char>)
    ensures
        (s == x + y) <==> (s.len() == x.len() + y.len() && has_sub_at(s, x, 0) && has_sub_at(
            s,
            y,
            x.len() as int,
        )),
{
    if s == x + y {
        assert(s.subrange(0, x.len() as int) =~= x);
        assert(s.subrange(x.len() as int, s.len() as int) =~= y);
    }
    if s.len() == x.len() + y.len() && has_sub_at(s, x, 0) && has_sub_at(s, y, x.len() as int) {
        assert forall|k: int| 0 <= k < s.len() implies s[k] == (x + y)[k] by {
            if k < x.len() {
                assert(s.subrange(0, x.len() as int)[k] == s[k]);
            } else {
                assert(s.subrange(x.len() as int, (x.len() + y.len()) as int)[k - x.len()] == s[k]);
            }
        }
        assert(s =~= x + y);
    }
}

/// `s` with every non-overlapping occurrence of `from`, scanned left to
/// right, replaced by `to`.
pub open spec fn replace_sp(s: Seq<char>, from: Seq<char>, to: Seq<char>) -> Seq<char>
    decreases s.len(),
    when from.len() > 0
{
    if s.len() == 0 {
        s
    } else if from.len() <= s.len() && s.subrange(0, from.len() as int) == from {
        to + replace_sp(s.skip(from.len() as int), from, to)
    } else {
        seq![s[0]] + replace_sp(s.skip(1), from, to)
    }
}

/// Performs the substitution `str::replace` makes, for a non-empty pattern.
pub fn replace_all(s: &str, from: &str, to: &str) -> (r: String)
    requires
        from@.len() > 0,
    ensures
        r@ == replace_sp(s@, from@, to@),
{
    let n = s.unicode_len();
    let m = from.unicode_len();
    let mut out = String::new();
    proof {
        assert(s@.skip(0) =~= s@);
        assert(Seq::<char>::empty() + replace_sp(s@, from@, to@) =~= replace_sp(s@, from@, to@));
    }
    let mut i: usize = 0;
    while i < n
        invariant
            n == s@.len(),
            m == from@.len(),
            m >= 1,
            i <= n,
            out@ + replace_sp(s@.skip(i as int), from@, to@) == replace_sp(s@, from@, to@),
        decreases n - i,
    {
        let ghost rest = s@.skip(i as int);
        let ghost prev = out@;
        assert(rest.len() == n - i);
        if m <= n - i && match_at(s, from, i) {
            proof {
                assert(rest.subrange(0, m as int) =~= s@.subrange(i as int, i + m));
                assert(rest.skip(m as int) =~= s@.skip(i + m));
                assert(replace_sp(rest, from@, to@) == to@ + replace_sp(
                    s@.skip(i + m),
                    from@,
                    to@,
                ));
            }
            out.append(to);
            proof {
                assert(out@ == prev + to@);
                assert((prev + to@) + replace_sp(s@.skip(i + m), from@, to@) =~= prev + (to@
                    + replace_sp(s@.skip(i + m), from@, to@)));
            }
            i += m;
        } else {
            proof {
                if m <= rest.len() {
                    assert(rest.subrange(0, m as int) =~= s@.subrange(i as int, i + m));
                }
                assert(rest.skip(1) =~= s@.skip(i + 1));
                assert(replace_sp(rest, from@, to@) == seq![s@[i as int]] + replace_sp(
                    s@.skip(i + 1),
                    from@,
                    to@,
                ));
            }
            let c = s.substring_char(i, i + 1);
            proof {
                assert(c@ =~= seq![s@[i as int]]);
            }
            out.append(c);
            proof {
                assert(out@ == prev + c@);
                assert((prev + c@) + replace_sp(s@.skip(i + 1), from@, to@) =~= prev + (c@
                    + replace_sp(s@.skip(i + 1), from@, to@)));
            }
            i += 1;
        }
    }
    proof {
        assert(s@.skip(n as int) =~= Seq::<char>::empty());
        assert(out@ + Seq::<char>::empty() =~= out@);
    }
    out
}

/// The characters `char::is_whitespace` accepts, as its documentation lists
/// them: the Unicode `White_Space` set.
pub open spec fn is_ws(c: char) -> bool {
    c == ' ' || c == '\t' || c == '\n' || c == '\r' || c == '\u{000B}' || c == '\u{000C}' || c
        == '\u{0085}' || c == '\u{00A0}' || c == '\u{1680}' || ('\u{2000}' <= c && c
        <= '\u{200A}') || c == '\u{2028}' || c == '\u{2029}' || c == '\u{202F}' || c == '\u{205F}'
        || c == '\u{3000}'
}

/// Whether a character counts as whitespace for trimming.
pub fn is_ws_char(c: char) -> (r: bool)
    ensures
        r == is_ws(c),
{
    c == ' ' || c == '\t' || c == '\n' || c == '\r' || c == '\u{000B}' || c == '\u{000C}' || c
        == '\u{0085}' || c == '\u{00A0}' || c == '\u{1680}' || ('\u{2000}' <= c && c
        <= '\u{200A}') || c == '\u{2028}' || c == '\u{2029}' || c == '\u{202F}' || c == '\u{205F}'
        || c == '\u{3000}'
}

/// How many whitespace characters `s` starts with.
pub open spec fn ws_prefix_len(s: Seq<char>) -> nat
    decreases s.len(),
{
    if s.len() > 0 && is_ws(s[0]) {
        (1 + ws_prefix_len(s.skip(1))) as nat
    } else {
        0
    }
}

/// Where the trailing whitespace of `s` starts.
pub open spec fn ws_suffix_start(s: Seq<char>) -> nat
    decreases s.len(),
{
    if s.len() > 0 && is_ws(s[s.len() - 1]) {
        ws_suffix_start(s.take(s.len() - 1))
    } else {
        s.len()
    }
}

/// `s` without leading or trailing whitespace.
pub open spec fn trim_sp(s: Seq<char>) -> Seq<char> {
    let t = s.skip(ws_prefix_len(s) as int);
    t.take(ws_suffix_start(t) as int)
}

proof fn lemma_ws_prefix(s: Seq<char>, a: int)
    requires
        0 <= a <= s.len(),
        forall|k: int| 0 <= k < a ==> is_ws(s[k]),
        a == s.len() || !is_ws(s[a]),
    ensures
        ws_prefix_len(s) == a,
    decreases a,
{
    if a == 0 {
    } else {
        assert(is_ws(s[0]));
        lemma_ws_prefix(s.skip(1), a - 1);
    }
}

proof fn lemma_ws_suffix(t: Seq<char>, b: int)
    requires
        0 <= b <= t.len(),
        forall|k: int| b <= k < t.len() ==> is_ws(t[k]),
        b == 0 || !is_ws(t[b - 1]),
    ensures
        ws_suffix_start(t) == b,
    decreases t.len() - b,
{
    if b == t.len() {
    } else {
        assert(is_ws(t[t.len() - 1]));
        lemma_ws_suffix(t.take(t.len() - 1), b);
    }
}

/// Removes surrounding whitespace, as `str::trim` does.
pub fn trim(s: &str) -> (r: String)
    ensures
        r@ == trim_sp(s@),
{
    let n = s.unicode_len();
    let mut a: usize = 0;
    while a < n && is_ws_char(s.get_char(a))
        invariant
            n == s@.len(),
            a <= n,
            forall|k: int| 0 <= k < a ==> is_ws(s@[k]),
        decreases n - a,
    {
        a += 1;
    }
    let mut b: usize = n;
    while b > a && is_ws_char(s.get_char(b - 1))
        invariant
            n == s@.len(),
            a <= b <= n,
            a == n || !is_ws(s@[a as int]),
            forall|k: int| 0 <= k < a ==> is_ws(s@[k]),
            forall|k: int| b <= k < n ==> is_ws(s@[k]),
        decreases b,
    {
        b -= 1;
    }
    let piece = s.substring_char(a, b);
    proof {
        lemma_ws_prefix(s@, a as int);
        let t = s@.skip(a as int);
        assert(forall|k: int| b - a <= k < t.len() ==> is_ws(t[k]));
        if b > a {
            assert(!is_ws(s@[b - 1]));
            assert(t[b - a - 1] == s@[b - 1]);
        } else if a < n {
            assert(!is_ws(s@[a as int]));
            assert(t[0] == s@[a as int]);
        }
        lemma_ws_suffix(t, b - a);
        assert(piece@ =~= t.take(b - a));
    }
    piece.to_owned()
}

} // verus!
