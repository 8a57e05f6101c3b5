//! Character-level text handling shared by the whole crate.
//!
//! Every operation here works on the `char` sequence of a string (its view),
//! and is stated against a small recursive specification that mirrors the
//! behaviour of the corresponding `str` method of the standard library
//! (`trim`, `split`, `split_whitespace`, `lines`, `join`, integer parsing and
//! decimal formatting).
use vstd::prelude::*;

verus! {

// ---------------------------------------------------------------------------
// Character classes
// ---------------------------------------------------------------------------
/// The Unicode `White_Space` property, which is what `char::is_whitespace`
/// and therefore `str::trim` / `str::split_whitespace` use.
pub open spec fn is_ws(c: char) -> bool {
    ||| c == '\t'
    ||| c == '\n'
    ||| c == '\x0B'
    ||| c == '\x0C'
    ||| c == '\r'
    ||| c == ' '
    ||| c == '\u{85}'
    ||| c == '\u{A0}'
    ||| c == '\u{1680}'
    ||| ('\u{2000}' <= c && c <= '\u{200A}')
    ||| c == '\u{2028}'
    ||| c == '\u{2029}'
    ||| c == '\u{202F}'
    ||| c == '\u{205F}'
    ||| c == '\u{3000}'
}

/// Executable counterpart of [`is_ws`].
pub fn char_is_ws(c: char) -> (b: bool)
    ensures
        b == is_ws(c),
{
    c == '\t' || c == '\n' || c == '\x0B' || c == '\x0C' || c == '\r' || c == ' ' || c
        == '\u{85}' || c == '\u{A0}' || c == '\u{1680}' || ('\u{2000}' <= c && c <= '\u{200A}')
        || c == '\u{2028}' || c == '\u{2029}' || c == '\u{202F}' || c == '\u{205F}' || c
        == '\u{3000}'
}

pub open spec fn is_digit(c: char) -> bool {
    '0' <= c && c <= '9'
}

pub open spec fn digit_value(c: char) -> nat {
    (c as int - '0' as int) as nat
}

pub open spec fn all_digits(s: Seq<char>) -> bool {
    forall|i: int| 0 <= i < s.len() ==> is_digit(#[trigger] s[i])
}

pub open spec fn no_char(s: Seq<char>, c: char) -> bool {
    forall|i: int| 0 <= i < s.len() ==> #[trigger] s[i] != c
}

// ---------------------------------------------------------------------------
// String <-> characters
// ---------------------------------------------------------------------------
/// Appends one character to a string (`String::push`).
#[verifier::external_body]
pub fn push_char(s: &mut String, c: char)
    ensures
        final(s)@ == old(s)@.push(c),
{
    s.push(c);
}

/// The characters of a string slice, in order.
pub fn chars_of(s: &str) -> (v: Vec<char>)
    ensures
        v@ == s@,
{
    let mut v: Vec<char> = Vec::new();
    for c in it: s.chars()
        invariant
            v@ == it.seq().take(it.index() as int),
            it.seq() == s@,
    {
        v.push(c);
    }
    v
}

/// Builds a string from the characters `v[lo..hi]`.
pub fn string_of_range(v: &Vec<char>, lo: usize, hi: usize) -> (s: String)
    requires
        lo <= hi <= v.len(),
    ensures
        s@ == v@.subrange(lo as int, hi as int),
{
    let mut s = String::new();
    let mut i: usize = lo;
    while i < hi
        invariant
            lo <= i <= hi <= v.len(),
            s@ == v@.subrange(lo as int, i as int),
        decreases hi - i,
    {
        push_char(&mut s, v[i]);
        i = i + 1;
    }
    s
}

/// Builds a string from a sequence of characters.
pub fn string_of(v: &Vec<char>) -> (s: String)
    ensures
        s@ == v@,
{
    let s = string_of_range(v, 0, v.len());
    proof {
        assert(v@.subrange(0, v@.len() as int) =~= v@);
    }
    s
}

/// Copies the characters `v[lo..hi]`.
pub fn slice_chars(v: &Vec<char>, lo: usize, hi: usize) -> (r: Vec<char>)
    requires
        lo <= hi <= v.len(),
    ensures
        r@ == v@.subrange(lo as int, hi as int),
{
    let mut r: Vec<char> = Vec::new();
    let mut i: usize = lo;
    while i < hi
        invariant
            lo <= i <= hi <= v.len(),
            r@ == v@.subrange(lo as int, i as int),
        decreases hi - i,
    {
        r.push(v[i]);
        i = i + 1;
    }
    r
}

/// Appends all characters of `b` to `a`.
pub fn extend_chars(a: &mut Vec<char>, b: &Vec<char>)
    ensures
        final(a)@ == old(a)@ + b@,
{
    let mut i: usize = 0;
    while i < b.len()
        invariant
            i <= b.len(),
            a@ == old(a)@ + b@.take(i as int),
        decreases b.len() - i,
    {
        a.push(b[i]);
        i = i + 1;
        proof {
            assert(b@.take(i as int) =~= b@.take(i - 1).push(b@[i - 1]));
        }
    }
    proof {
        assert(b@.take(b@.len() as int) =~= b@);
    }
}

/// Whether `v[at..]` starts with `prefix`.
pub fn has_prefix_at(v: &Vec<char>, at: usize, prefix: &Vec<char>) -> (b: bool)
    requires
        at <= v.len(),
    ensures
        b == (at + prefix.len() <= v.len() && v@.subrange(at as int, at + prefix.len())
            == prefix@),
{
    if prefix.len() > v.len() - at {
        return false;
    }
    let mut i: usize = 0;
    while i < prefix.len()
        invariant
            i <= prefix.len(),
            at + prefix.len() <= v.len(),
            forall|j: int| 0 <= j < i ==> v@[at + j] == prefix@[j],
        decreases prefix.len() - i,
    {
        if v[at + i] != prefix[i] {
            proof {
                assert(v@.subrange(at as int, at + prefix.len())[i as int] != prefix@[i as int]);
            }
            return false;
        }
        i = i + 1;
    }
    proof {
        assert(v@.subrange(at as int, at + prefix.len()) =~= prefix@);
    }
    true
}

/// Whether two character vectors are equal.
pub fn chars_eq(a: &Vec<char>, b: &Vec<char>) -> (r: bool)
    ensures
        r == (a@ == b@),
{
    if a.len() != b.len() {
        return false;
    }
    let r = has_prefix_at(a, 0, b);
    proof {
        assert(a@.subrange(0, b@.len() as int) =~= a@);
    }
    r
}

// ---------------------------------------------------------------------------
// Trimming (`str::trim`)
// ---------------------------------------------------------------------------
pub open spec fn trim_start(s: Seq<char>) -> Seq<char>
    decreases s.len(),
{
    if s.len() > 0 && is_ws(s[0]) {
        trim_start(s.drop_first())
    } else {
        s
    }
}

pub open spec fn trim_end(s: Seq<char>) -> Seq<char>
    decreases s.len(),
{
    if s.len() > 0 && is_ws(s.last()) {
        trim_end(s.drop_last())
    } else {
        s
    }
}

/// `str::trim`: drops leading and trailing white space.
pub open spec fn trim(s: Seq<char>) -> Seq<char> {
    trim_end(trim_start(s))
}

/// Bounds `(a, b)` such that `v[a..b]` is `v[lo..hi]` trimmed.
pub fn trim_bounds(v: &Vec<char>, lo: usize, hi: usize) -> (r: (usize, usize))
    requires
        lo <= hi <= v.len(),
    ensures
        lo <= r.0 <= r.1 <= hi,
        v@.subrange(r.0 as int, r.1 as int) == trim(v@.subrange(lo as int, hi as int)),
{
    let mut a = lo;
    while a < hi && char_is_ws(v[a])
        invariant
            lo <= a <= hi <= v.len(),
            trim_start(v@.subrange(lo as int, hi as int)) == trim_start(
                v@.subrange(a as int, hi as int),
            ),
        decreases hi - a,
    {
        proof {
            assert(v@.subrange(a as int, hi as int).drop_first() =~= v@.subrange(
                a + 1,
                hi as int,
            ));
        }
        a = a + 1;
    }
    proof {
        assert(trim_start(v@.subrange(a as int, hi as int)) == v@.subrange(a as int, hi as int));
    }
    let mut b = hi;
    while b > a && char_is_ws(v[b - 1])
        invariant
            lo <= a <= b <= hi <= v.len(),
            trim_end(v@.subrange(a as int, hi as int)) == trim_end(
                v@.subrange(a as int, b as int),
            ),
        decreases b - a,
    {
        proof {
            assert(v@.subrange(a as int, b as int).drop_last() =~= v@.subrange(
                a as int,
                b - 1,
            ));
        }
        b = b - 1;
    }
    (a, b)
}

/// `str::trim` on a character vector.
pub fn trim_chars(v: &Vec<char>) -> (r: Vec<char>)
    ensures
        r@ == trim(v@),
{
    let (a, b) = trim_bounds(v, 0, v.len());
    proof {
        assert(v@.subrange(0, v@.len() as int) =~= v@);
    }
    slice_chars(v, a, b)
}

// ---------------------------------------------------------------------------
// Splitting and joining
// ---------------------------------------------------------------------------
/// `str::split` on a single character, with `cur` the piece being read.
pub open spec fn split_acc(s: Seq<char>, sep: char, cur: Seq<char>) -> Seq<Seq<char>>
    decreases s.len(),
{
    if s.len() == 0 {
        seq![cur]
    } else if s[0] == sep {
        seq![cur] + split_acc(s.drop_first(), sep, Seq::empty())
    } else {
        split_acc(s.drop_first(), sep, cur.push(s[0]))
    }
}

/// `s.split(sep)`: the pieces between separators (never empty; a trailing
/// separator gives a trailing empty piece).
pub open spec fn split_on(s: Seq<char>, sep: char) -> Seq<Seq<char>> {
    split_acc(s, sep, Seq::empty())
}

/// `str::split_whitespace`, with `cur` the word being read.
pub open spec fn words_acc(s: Seq<char>, cur: Seq<char>) -> Seq<Seq<char>>
    decreases s.len(),
{
    if s.len() == 0 {
        if cur.len() > 0 {
            seq![cur]
        } else {
            Seq::empty()
        }
    } else if is_ws(s[0]) {
        if cur.len() > 0 {
            seq![cur] + words_acc(s.drop_first(), Seq::empty())
        } else {
            words_acc(s.drop_first(), Seq::empty())
        }
    } else {
        words_acc(s.drop_first(), cur.push(s[0]))
    }
}

/// `s.split_whitespace()`: the maximal runs of non white-space characters.
pub open spec fn words(s: Seq<char>) -> Seq<Seq<char>> {
    words_acc(s, Seq::empty())
}

/// Drops one trailing carriage return.
pub open spec fn strip_cr(s: Seq<char>) -> Seq<char> {
    if s.len() > 0 && s.last() == '\r' {
        s.drop_last()
    } else {
        s
    }
}

/// `str::lines`, with `cur` the line being read.
pub open spec fn lines_acc(s: Seq<char>, cur: Seq<char>) -> Seq<Seq<char>>
    decreases s.len(),
{
    if s.len() == 0 {
        if cur.len() > 0 {
            seq![cur]
        } else {
            Seq::empty()
        }
    } else if s[0] == '\n' {
        seq![strip_cr(cur)] + lines_acc(s.drop_first(), Seq::empty())
    } else {
        lines_acc(s.drop_first(), cur.push(s[0]))
    }
}

/// `s.lines()`: pieces ended by `\n` or `\r\n`; the final line ending is
/// optional and no empty line follows a final `\n`.
pub open spec fn lines(s: Seq<char>) -> Seq<Seq<char>> {
    lines_acc(s, Seq::empty())
}

/// `parts.join(sep)`.
pub open spec fn join(parts: Seq<Seq<char>>, sep: Seq<char>) -> Seq<char>
    decreases parts.len(),
{
    if parts.len() == 0 {
        Seq::empty()
    } else if parts.len() == 1 {
        parts[0]
    } else {
        join(parts.drop_last(), sep) + sep + parts.last()
    }
}

/// The character sequences held by a vector of character vectors.
pub open spec fn views(v: Seq<Vec<char>>) -> Seq<Seq<char>> {
    v.map_values(|p: Vec<char>| p@)
}

/// Executable `split` on one separator character.
pub fn split_chars(v: &Vec<char>, sep: char) -> (r: Vec<Vec<char>>)
    ensures
        views(r@) == split_on(v@, sep),
{
    let mut out: Vec<Vec<char>> = Vec::new();
    let mut cur: Vec<char> = Vec::new();
    let mut i: usize = 0;
    proof {
        assert(views(out@) =~= Seq::<Seq<char>>::empty());
        assert(v@.skip(0) =~= v@);
        assert(cur@ =~= Seq::<char>::empty());
        assert(Seq::<Seq<char>>::empty() + split_acc(v@, sep, cur@) =~= split_acc(v@, sep, cur@));
    }
    while i < v.len()
        invariant
            i <= v.len(),
            views(out@) + split_acc(v@.skip(i as int), sep, cur@) == split_on(v@, sep),
        decreases v.len() - i,
    {
        proof {
            assert(v@.skip(i as int).drop_first() =~= v@.skip(i + 1));
        }
        if v[i] == sep {
            let ghost old_out = views(out@);
            let piece = cur;
            cur = Vec::new();
            out.push(piece);
            proof {
                assert(views(out@) =~= old_out.push(piece@));
                assert(cur@ =~= Seq::<char>::empty());
            }
        } else {
            cur.push(v[i]);
        }
        i = i + 1;
    }
    let ghost old_out = views(out@);
    out.push(cur);
    proof {
        assert(views(out@) =~= old_out + seq![cur@]);
    }
    out
}

/// Executable `split_whitespace`.
pub fn split_words(v: &Vec<char>) -> (r: Vec<Vec<char>>)
    ensures
        views(r@) == words(v@),
{
    let mut out: Vec<Vec<char>> = Vec::new();
    let mut cur: Vec<char> = Vec::new();
    let mut i: usize = 0;
    proof {
        assert(views(out@) =~= Seq::<Seq<char>>::empty());
        assert(v@.skip(0) =~= v@);
        assert(cur@ =~= Seq::<char>::empty());
        assert(Seq::<Seq<char>>::empty() + words_acc(v@, cur@) =~= words_acc(v@, cur@));
    }
    while i < v.len()
        invariant
            i <= v.len(),
            views(out@) + words_acc(v@.skip(i as int), cur@) == words(v@),
        decreases v.len() - i,
    {
        proof {
            assert(v@.skip(i as int).drop_first() =~= v@.skip(i + 1));
        }
        if char_is_ws(v[i]) {
            if cur.len() > 0 {
                let ghost old_out = views(out@);
                let piece = cur;
                cur = Vec::new();
                out.push(piece);
                proof {
                    assert(views(out@) =~= old_out.push(piece@));
                    assert(cur@ =~= Seq::<char>::empty());
                }
            } else {
                proof {
                    assert(cur@ =~= Seq::<char>::empty());
                }
            }
        } else {
            cur.push(v[i]);
        }
        i = i + 1;
    }
    proof {
        assert(v@.skip(i as int) =~= Seq::<char>::empty());
    }
    if cur.len() > 0 {
        let ghost old_out = views(out@);
        out.push(cur);
        proof {
            assert(views(out@) =~= old_out + seq![cur@]);
        }
    } else {
        proof {
            assert(views(out@) =~= views(out@) + Seq::<Seq<char>>::empty());
        }
    }
    out
}

/// Executable `lines`.
pub fn split_lines(v: &Vec<char>) -> (r: Vec<Vec<char>>)
    ensures
        views(r@) == lines(v@),
{
    let mut out: Vec<Vec<char>> = Vec::new();
    let mut cur: Vec<char> = Vec::new();
    let mut i: usize = 0;
    proof {
        assert(views(out@) =~= Seq::<Seq<char>>::empty());
        assert(v@.skip(0) =~= v@);
        assert(cur@ =~= Seq::<char>::empty());
        assert(Seq::<Seq<char>>::empty() + lines_acc(v@, cur@) =~= lines_acc(v@, cur@));
    }
    while i < v.len()
        invariant
            i <= v.len(),
            views(out@) + lines_acc(v@.skip(i as int), cur@) == lines(v@),
        decreases v.len() - i,
    {
        proof {
            assert(v@.skip(i as int).drop_first() =~= v@.skip(i + 1));
        }
        if v[i] == '\n' {
            if cur.len() > 0 && cur[cur.len() - 1] == '\r' {
                cur.pop();
            }
            let ghost old_out = views(out@);
            let piece = cur;
            cur = Vec::new();
            out.push(piece);
            proof {
                assert(views(out@) =~= old_out.push(piece@));
                assert(cur@ =~= Seq::<char>::empty());
            }
        } else {
            cur.push(v[i]);
        }
        i = i + 1;
    }
    proof {
        assert(v@.skip(i as int) =~= Seq::<char>::empty());
    }
    if cur.len() > 0 {
        let ghost old_out = views(out@);
        out.push(cur);
        proof {
            assert(views(out@) =~= old_out + seq![cur@]);
        }
    } else {
        proof {
            assert(views(out@) =~= views(out@) + Seq::<Seq<char>>::empty());
        }
    }
    out
}

/// Executable `join`.
pub fn join_chars(parts: &Vec<Vec<char>>, sep: &Vec<char>) -> (r: Vec<char>)
    ensures
        r@ == join(views(parts@), sep@),
{
    let mut out: Vec<char> = Vec::new();
    let mut i: usize = 0;
    while i < parts.len()
        invariant
            i <= parts.len(),
            out@ == join(views(parts@).take(i as int), sep@),
        decreases parts.len() - i,
    {
        let ghost dv = views(parts@);
        proof {
            assert(dv.take(i + 1).drop_last() =~= dv.take(i as int));
        }
        if i > 0 {
            extend_chars(&mut out, sep);
        }
        extend_chars(&mut out, &parts[i]);
        proof {
            if i == 0 {
                assert(out@ =~= dv.take(1)[0]);
            }
        }
        i = i + 1;
    }
    proof {
        assert(views(parts@).take(parts.len() as int) =~= views(parts@));
    }
    out
}

// ---------------------------------------------------------------------------
// Searching
// ---------------------------------------------------------------------------
/// Position of the first `c` in `s`, or `-1`.
pub open spec fn first_index(s: Seq<char>, c: char) -> int
    decreases s.len(),
{
    if s.len() == 0 {
        -1
    } else if s[0] == c {
        0
    } else {
        let r = first_index(s.drop_first(), c);
        if r < 0 {
            -1
        } else {
            r + 1
        }
    }
}

/// Position of the last `c` in `s`, or `-1`.
pub open spec fn last_index(s: Seq<char>, c: char) -> int
    decreases s.len(),
{
    if s.len() == 0 {
        -1
    } else if s.last() == c {
        s.len() - 1
    } else {
        last_index(s.drop_last(), c)
    }
}

/// `first_index` finds the earliest occurrence.
pub proof fn lemma_first_index(s: Seq<char>, c: char)
    ensures
        -1 <= first_index(s, c) < s.len(),
        first_index(s, c) == -1 <==> no_char(s, c),
        first_index(s, c) >= 0 ==> s[first_index(s, c)] == c && no_char(
            s.take(first_index(s, c)),
            c,
        ),
    decreases s.len(),
{
    if s.len() > 0 {
        lemma_first_index(s.drop_first(), c);
        let r = first_index(s.drop_first(), c);
        if s[0] != c {
            if r >= 0 {
                assert forall|i: int| 0 <= i < r + 1 implies #[trigger] s.take(r + 1)[i] != c by {
                    if i > 0 {
                        assert(s.take(r + 1)[i] == s.drop_first().take(r)[i - 1]);
                    }
                }
            } else {
                assert forall|i: int| 0 <= i < s.len() implies #[trigger] s[i] != c by {
                    if i > 0 {
                        assert(s[i] == s.drop_first()[i - 1]);
                    }
                }
            }
        }
    }
}

/// `last_index` finds the latest occurrence.
pub proof fn lemma_last_index(s: Seq<char>, c: char)
    ensures
        -1 <= last_index(s, c) < s.len(),
        last_index(s, c) == -1 <==> no_char(s, c),
        last_index(s, c) >= 0 ==> s[last_index(s, c)] == c && no_char(
            s.skip(last_index(s, c) + 1),
            c,
        ),
    decreases s.len(),
{
    if s.len() > 0 {
        lemma_last_index(s.drop_last(), c);
        let r = last_index(s.drop_last(), c);
        if s.last() != c {
            if r >= 0 {
                assert forall|i: int| 0 <= i < s.len() - r - 1 implies #[trigger] s.skip(r + 1)[i]
                    != c by {
                    if i < s.len() - r - 2 {
                        assert(s.skip(r + 1)[i] == s.drop_last().skip(r + 1)[i]);
                    }
                }
            } else {
                assert forall|i: int| 0 <= i < s.len() implies #[trigger] s[i] != c by {
                    if i < s.len() - 1 {
                        assert(s[i] == s.drop_last()[i]);
                    }
                }
            }
        } else {
            assert(s.skip(s.len() as int) =~= Seq::<char>::empty());
        }
    }
}

/// Position (relative to `lo`) of the first `c` in `v[lo..hi]`.
pub fn find_char(v: &Vec<char>, lo: usize, hi: usize, c: char) -> (r: Option<usize>)
    requires
        lo <= hi <= v.len(),
    ensures
        match r {
            Some(k) => first_index(v@.subrange(lo as int, hi as int), c) == k as int,
            None => first_index(v@.subrange(lo as int, hi as int), c) == -1,
        },
{
    let ghost s = v@.subrange(lo as int, hi as int);
    let mut i = lo;
    while i < hi
        invariant
            lo <= i <= hi <= v.len(),
            s == v@.subrange(lo as int, hi as int),
            forall|j: int| lo <= j < i ==> v@[j] != c,
        decreases hi - i,
    {
        if v[i] == c {
            proof {
                lemma_first_index(s, c);
                let f = first_index(s, c);
                assert(s[i - lo] == c);
                if 0 <= f < i - lo {
                    assert(s[f] == v@[lo + f]);
                }
                if f > i - lo {
                    assert(s.take(f)[i - lo] == c);
                }
            }
            return Some(i - lo);
        }
        i = i + 1;
    }
    proof {
        lemma_first_index(s, c);
        assert(no_char(s, c));
    }
    None
}

/// Position (relative to `lo`) of the last `c` in `v[lo..hi]`.
pub fn rfind_char(v: &Vec<char>, lo: usize, hi: usize, c: char) -> (r: Option<usize>)
    requires
        lo <= hi <= v.len(),
    ensures
        match r {
            Some(k) => last_index(v@.subrange(lo as int, hi as int), c) == k as int,
            None => last_index(v@.subrange(lo as int, hi as int), c) == -1,
        },
{
    let ghost s = v@.subrange(lo as int, hi as int);
    let mut i = hi;
    while i > lo
        invariant
            lo <= i <= hi <= v.len(),
            s == v@.subrange(lo as int, hi as int),
            forall|j: int| i <= j < hi ==> v@[j] != c,
        decreases i - lo,
    {
        if v[i - 1] == c {
            proof {
                lemma_last_index(s, c);
                let f = last_index(s, c);
                let k = i - 1 - lo;
                if f > k {
                    assert(s[f] == c);
                }
                if f < k {
                    assert(s.skip(f + 1)[k - f - 1] == c);
                }
            }
            return Some(i - 1 - lo);
        }
        i = i - 1;
    }
    proof {
        lemma_last_index(s, c);
        assert(no_char(s, c));
    }
    None
}

// ---------------------------------------------------------------------------
// Decimal numbers
// ---------------------------------------------------------------------------
/// Value of a sequence of decimal digits.
pub open spec fn digits_value(s: Seq<char>) -> nat
    decreases s.len(),
{
    if s.len() == 0 {
        0
    } else {
        digits_value(s.drop_last()) * 10 + digit_value(s.last())
    }
}

/// `str::parse` for an unsigned integer type whose maximum is `max`: an
/// optional `+`, then at least one decimal digit, with a value that fits.
pub open spec fn parse_uint(s: Seq<char>, max: nat) -> Option<nat> {
    let body = if s.len() > 0 && s[0] == '+' {
        s.drop_first()
    } else {
        s
    };
    if body.len() > 0 && all_digits(body) && digits_value(body) <= max {
        Some(digits_value(body))
    } else {
        None
    }
}

/// Digits of `n` in base ten, most significant first, without leading zeros.
pub open spec fn decimal(n: nat) -> Seq<char>
    decreases n,
{
    if n < 10 {
        seq![digit_char(n)]
    } else {
        decimal(n / 10).push(digit_char(n % 10))
    }
}

pub open spec fn digit_char(d: nat) -> char {
    ((d + '0' as nat) as u32) as char
}

pub proof fn lemma_digit_char(d: nat)
    requires
        d < 10,
    ensures
        is_digit(digit_char(d)),
        digit_value(digit_char(d)) == d,
{
}

/// Prefixes grow in value when every character is a digit.
pub proof fn lemma_digits_value_prefix(s: Seq<char>, i: int, j: int)
    requires
        0 <= i <= j <= s.len(),
        all_digits(s),
    ensures
        digits_value(s.take(i)) <= digits_value(s.take(j)),
    decreases j - i,
{
    if i < j {
        lemma_digits_value_prefix(s, i, j - 1);
        assert(s.take(j).drop_last() =~= s.take(j - 1));
    }
}

/// Leading zeros do not change the value.
pub proof fn lemma_digits_value_zeros(z: Seq<char>, s: Seq<char>)
    requires
        forall|i: int| 0 <= i < z.len() ==> #[trigger] z[i] == '0',
    ensures
        digits_value(z + s) == digits_value(s),
    decreases s.len() + z.len(),
{
    if s.len() == 0 {
        assert(z + s =~= z);
        if z.len() > 0 {
            lemma_digits_value_zeros(z.drop_last(), s);
            assert(z.drop_last() + s =~= z.drop_last());
        }
    } else {
        assert((z + s).drop_last() =~= z + s.drop_last());
        lemma_digits_value_zeros(z, s.drop_last());
    }
}

/// `decimal` writes digits whose value is the number.
pub proof fn lemma_decimal(n: nat)
    ensures
        all_digits(decimal(n)),
        digits_value(decimal(n)) == n,
        decimal(n).len() >= 1,
        n >= 10 ==> decimal(n).len() >= 2,
        decimal(n).len() == 1 || decimal(n)[0] != '0',
    decreases n,
{
    lemma_digit_char(n % 10);
    if n < 10 {
        assert(decimal(n).drop_last() =~= Seq::<char>::empty());
        assert(n % 10 == n);
        assert(decimal(n).last() == digit_char(n));
        assert(digits_value(decimal(n).drop_last()) == 0);
    } else {
        let m = n / 10;
        lemma_decimal(m);
        assert(m * 10 + n % 10 == n) by (nonlinear_arith)
            requires
                m == n / 10,
        ;
        assert(decimal(n).drop_last() =~= decimal(m));
        assert(decimal(n)[0] == decimal(m)[0]);
        if m < 10 {
            lemma_digit_char(m);
        }
    }
}

/// Parses `v[lo..hi]` as an unsigned integer no larger than `max`.
pub fn parse_uint_range(v: &Vec<char>, lo: usize, hi: usize, max: u64) -> (r: Option<u64>)
    requires
        lo <= hi <= v.len(),
    ensures
        match parse_uint(v@.subrange(lo as int, hi as int), max as nat) {
            Some(n) => r == Some(n as u64),
            None => r is None,
        },
{
    let ghost s = v@.subrange(lo as int, hi as int);
    let mut start = lo;
    if lo < hi && v[lo] == '+' {
        start = lo + 1;
    }
    let ghost body = v@.subrange(start as int, hi as int);
    proof {
        if lo < hi && v@[lo as int] == '+' {
            assert(s.drop_first() =~= body);
        } else {
            assert(s =~= body);
        }
    }
    proof {
        assert(parse_uint(s, max as nat) == (if body.len() > 0 && all_digits(body) && digits_value(
            body,
        ) <= max {
            Some(digits_value(body))
        } else {
            None
        }));
    }
    if start == hi {
        return None;
    }
    let mut value: u64 = 0;
    let mut i = start;
    while i < hi
        invariant
            lo <= start < hi <= v.len(),
            start <= i <= hi,
            body == v@.subrange(start as int, hi as int),
            s == v@.subrange(lo as int, hi as int),
            parse_uint(s, max as nat) == (if body.len() > 0 && all_digits(body) && digits_value(
                body,
            ) <= max {
                Some(digits_value(body))
            } else {
                None
            }),
            all_digits(body.take(i - start)),
            value as nat == digits_value(body.take(i - start)),
            value <= max,
        decreases hi - i,
    {
        let c = v[i];
        if !('0' <= c && c <= '9') {
            proof {
                assert(body[i - start] == c);
                assert(!all_digits(body));
            }
            return None;
        }
        let d = (c as u32 - '0' as u32) as u64;
        proof {
            assert(body.take(i - start + 1).drop_last() =~= body.take(i - start));
            assert(body.take(i - start + 1).last() == c);
            assert(all_digits(body.take(i - start + 1)));
        }
        let next = match value.checked_mul(10) {
            Some(t) => t.checked_add(d),
            None => None,
        };
        match next {
            Some(n) if n <= max => {
                value = n;
            },
            _ => {
                proof {
                    if all_digits(body) {
                        lemma_digits_value_prefix(body, i - start + 1, body.len() as int);
                        assert(body.take(body.len() as int) =~= body);
                        assert(digits_value(body.take(i - start + 1)) == value * 10 + d);
                        assert(digits_value(body) > max);
                    }
                }
                return None;
            },
        }
        i = i + 1;
    }
    proof {
        assert(body.take(i - start) =~= body);
    }
    Some(value)
}

/// Parses a whole character vector as an unsigned integer no larger than `max`.
pub fn parse_uint_chars(v: &Vec<char>, max: u64) -> (r: Option<u64>)
    ensures
        match parse_uint(v@, max as nat) {
            Some(n) => r == Some(n as u64),
            None => r is None,
        },
{
    proof {
        assert(v@.subrange(0, v@.len() as int) =~= v@);
    }
    parse_uint_range(v, 0, v.len(), max)
}

/// The decimal digits of `n`.
pub fn decimal_chars(n: u64) -> (r: Vec<char>)
    ensures
        r@ == decimal(n as nat),
    decreases n,
{
    if n < 10 {
        let c = char_of_digit(n);
        let mut r = Vec::new();
        r.push(c);
        proof {
            assert(r@ =~= seq![digit_char(n as nat)]);
        }
        r
    } else {
        let mut r = decimal_chars(n / 10);
        r.push(char_of_digit(n % 10));
        r
    }
}

/// The character of one decimal digit.
pub fn char_of_digit(d: u64) -> (c: char)
    requires
        d < 10,
    ensures
        c == digit_char(d as nat),
{
    if d == 0 {
        '0'
    } else if d == 1 {
        '1'
    } else if d == 2 {
        '2'
    } else if d == 3 {
        '3'
    } else if d == 4 {
        '4'
    } else if d == 5 {
        '5'
    } else if d == 6 {
        '6'
    } else if d == 7 {
        '7'
    } else if d == 8 {
        '8'
    } else {
        '9'
    }
}

// ---------------------------------------------------------------------------
// Strings
// ---------------------------------------------------------------------------
/// Whether two string slices hold the same characters.
pub fn str_eq(a: &str, b: &str) -> (r: bool)
    ensures
        r == (a@ == b@),
{
    let x = chars_of(a);
    let y = chars_of(b);
    chars_eq(&x, &y)
}

/// The character sequences of a list of strings.
pub open spec fn strs_view(v: Seq<String>) -> Seq<Seq<char>> {
    v.map_values(|s: String| s@)
}

/// A copy of a list of strings.
pub fn clone_strings(v: &Vec<String>) -> (r: Vec<String>)
    ensures
        strs_view(r@) == strs_view(v@),
        r@.len() == v@.len(),
{
    let mut r: Vec<String> = Vec::new();
    let mut i: usize = 0;
    while i < v.len()
        invariant
            i <= v.len(),
            strs_view(r@) == strs_view(v@).take(i as int),
        decreases v.len() - i,
    {
        let ghost prev = r@;
        r.push(v[i].clone());
        proof {
            assert(strs_view(r@) =~= strs_view(prev).push(v@[i as int]@));
            assert(strs_view(v@).take(i + 1) =~= strs_view(v@).take(i as int).push(v@[i as int]@));
        }
        i = i + 1;
    }
    proof {
        assert(strs_view(v@).take(i as int) =~= strs_view(v@));
    }
    r
}

/// The character sequence of an optional string.
pub open spec fn opt_view(o: Option<String>) -> Option<Seq<char>> {
    match o {
        Some(s) => Some(s@),
        None => None,
    }
}

/// The character sequences of an optional list of strings.
pub open spec fn opt_strs_view(o: Option<Vec<String>>) -> Option<Seq<Seq<char>>> {
    match o {
        Some(v) => Some(strs_view(v@)),
        None => None,
    }
}

/// A copy of an optional string.
pub fn clone_opt_string(o: &Option<String>) -> (r: Option<String>)
    ensures
        opt_view(r) == opt_view(*o),
{
    match o {
        Some(s) => Some(s.clone()),
        None => None,
    }
}

/// A copy of an optional list of strings.
pub fn clone_opt_strings(o: &Option<Vec<String>>) -> (r: Option<Vec<String>>)
    ensures
        opt_strs_view(r) == opt_strs_view(*o),
{
    match o {
        Some(v) => Some(clone_strings(v)),
        None => None,
    }
}

/// The decimal text of a number, as a string.
pub fn decimal_string(n: u64) -> (s: String)
    ensures
        s@ == decimal(n as nat),
{
    let v = decimal_chars(n);
    string_of(&v)
}

/// Appends the characters of `b` to the string `a`.
pub fn push_str(a: &mut String, b: &str)
    ensures
        final(a)@ == old(a)@ + b@,
{
    let v = chars_of(b);
    let mut i: usize = 0;
    while i < v.len()
        invariant
            i <= v.len(),
            v@ == b@,
            a@ == old(a)@ + v@.take(i as int),
        decreases v.len() - i,
    {
        push_char(a, v[i]);
        i = i + 1;
        proof {
            assert(v@.take(i as int) =~= v@.take(i - 1).push(v@[i - 1]));
        }
    }
    proof {
        assert(v@.take(i as int) =~= v@);
    }
}

// ---------------------------------------------------------------------------
// Paths
// ---------------------------------------------------------------------------
/// `Path::join` on Unix: an absolute component replaces the base; otherwise
/// a `/` is put between base and component unless the base is empty or
/// already ends with one.
pub open spec fn path_join(base: Seq<char>, comp: Seq<char>) -> Seq<char> {
    if comp.len() > 0 && comp[0] == '/' {
        comp
    } else if base.len() == 0 || base.last() == '/' {
        base + comp
    } else {
        base + seq!['/'] + comp
    }
}

/// Executable [`path_join`].
pub fn join_path(base: &str, comp: &str) -> (r: String)
    ensures
        r@ == path_join(base@, comp@),
{
    let b = chars_of(base);
    let c = chars_of(comp);
    if c.len() > 0 && c[0] == '/' {
        return comp.to_owned();
    }
    let mut r = base.to_owned();
    if b.len() > 0 && b[b.len() - 1] != '/' {
        push_char(&mut r, '/');
    }
    push_str(&mut r, comp);
    r
}

// ---------------------------------------------------------------------------
// UTF-8 lengths
// ---------------------------------------------------------------------------
/// Bytes taken by a character in UTF-8.
pub open spec fn utf8_len(c: char) -> nat {
    if (c as u32) < 0x80 {
        1
    } else if (c as u32) < 0x800 {
        2
    } else if (c as u32) < 0x10000 {
        3
    } else {
        4
    }
}

/// Bytes taken in UTF-8 by the first `k` characters.
pub open spec fn utf8_prefix_len(s: Seq<char>, k: int) -> nat
    decreases k,
{
    if k <= 0 || s.len() == 0 {
        0
    } else if k > s.len() {
        utf8_prefix_len(s, s.len() as int)
    } else {
        utf8_prefix_len(s, k - 1) + utf8_len(s[k - 1])
    }
}

/// Whether the first `n` bytes of the UTF-8 text end on a character boundary.
pub open spec fn byte_boundary(s: Seq<char>, n: nat) -> bool {
    exists|k: int| 0 <= k <= s.len() && utf8_prefix_len(s, k) == n
}

/// Number of bytes a character takes in UTF-8.
pub fn utf8_char_len(c: char) -> (r: u64)
    ensures
        r == utf8_len(c),
{
    if (c as u32) < 0x80 {
        1
    } else if (c as u32) < 0x800 {
        2
    } else if (c as u32) < 0x10000 {
        3
    } else {
        4
    }
}

/// Bytes of a prefix grow with its length.
pub proof fn lemma_utf8_prefix_grows(s: Seq<char>, i: int, j: int)
    requires
        0 <= i <= j <= s.len(),
    ensures
        utf8_prefix_len(s, i) + (j - i) <= utf8_prefix_len(s, j),
    decreases j - i,
{
    if i < j {
        lemma_utf8_prefix_grows(s, i, j - 1);
    }
}

/// Whether the UTF-8 text of `v` is longer than `n` bytes.
pub fn utf8_longer_than(v: &Vec<char>, n: u64) -> (b: bool)
    ensures
        b == (utf8_prefix_len(v@, v@.len() as int) > n),
{
    let mut k: usize = 0;
    let mut total: u64 = 0;
    while k < v.len()
        invariant
            k <= v.len(),
            total == utf8_prefix_len(v@, k as int),
            total <= n,
        decreases v.len() - k,
    {
        let w = utf8_char_len(v[k]);
        if w > n - total {
            proof {
                lemma_utf8_prefix_grows(v@, k + 1, v@.len() as int);
            }
            return true;
        }
        total = total + w;
        k = k + 1;
    }
    false
}

/// The number of characters whose UTF-8 text is exactly the first `n`
/// bytes, if the first `n` bytes end on a character boundary.
pub fn utf8_chars_in_bytes(v: &Vec<char>, n: u64) -> (r: Option<usize>)
    ensures
        match r {
            Some(k) => k <= v@.len() && utf8_prefix_len(v@, k as int) == n,
            None => !byte_boundary(v@, n as nat),
        },
{
    let mut k: usize = 0;
    let mut total: u64 = 0;
    while k < v.len() && total < n
        invariant
            k <= v.len(),
            total == utf8_prefix_len(v@, k as int),
            total <= n,
        decreases v.len() - k,
    {
        let w = utf8_char_len(v[k]);
        if w > n - total {
            proof {
                assert forall|j: int| 0 <= j <= v@.len() implies #[trigger] utf8_prefix_len(v@, j)
                    != n by {
                    if j <= k {
                        lemma_utf8_prefix_grows(v@, j, k as int);
                    } else {
                        lemma_utf8_prefix_grows(v@, k + 1, j);
                    }
                }
            }
            return None;
        }
        total = total + w;
        k = k + 1;
    }
    if total == n {
        Some(k)
    } else {
        proof {
            assert forall|j: int| 0 <= j <= v@.len() implies #[trigger] utf8_prefix_len(v@, j)
                != n by {
                lemma_utf8_prefix_grows(v@, j, k as int);
            }
        }
        None
    }
}


// ---------------------------------------------------------------------------
// Substrings
// ---------------------------------------------------------------------------
/// Whether `pat` occurs in `s` at `i`.
pub open spec fn occurs_at(s: Seq<char>, pat: Seq<char>, i: int) -> bool {
    0 <= i && i + pat.len() <= s.len() && s.subrange(i, i + pat.len()) == pat
}

/// Position of the first occurrence of `pat` in `s` at or after `i`, or
/// `-1`.
pub open spec fn find_text_from(s: Seq<char>, pat: Seq<char>, i: int) -> int
    decreases s.len() + 1 - i,
{
    if i < 0 || i + pat.len() > s.len() {
        -1
    } else if occurs_at(s, pat, i) {
        i
    } else {
        find_text_from(s, pat, i + 1)
    }
}

/// `str::find` of a text: position of the first occurrence, or `-1`.
pub open spec fn find_text(s: Seq<char>, pat: Seq<char>) -> int {
    find_text_from(s, pat, 0)
}

/// The text before the first occurrence of `pat`, or all of `s`: the first
/// piece of `s.split(pat)`.
pub open spec fn before_text(s: Seq<char>, pat: Seq<char>) -> Seq<char> {
    if find_text(s, pat) >= 0 {
        s.take(find_text(s, pat))
    } else {
        s
    }
}

/// Executable [`find_text`].
pub fn find_chars(v: &Vec<char>, pat: &Vec<char>) -> (r: Option<usize>)
    ensures
        match r {
            Some(k) => find_text(v@, pat@) == k as int && k + pat.len() <= v.len(),
            None => find_text(v@, pat@) == -1,
        },
{
    if pat.len() > v.len() {
        return None;
    }
    let last = v.len() - pat.len();
    let mut i: usize = 0;
    loop
        invariant
            last == v.len() - pat.len(),
            i <= last,
            find_text(v@, pat@) == find_text_from(v@, pat@, i as int),
        decreases last - i,
    {
        if has_prefix_at(v, i, pat) {
            return Some(i);
        }
        if i == last {
            proof {
                assert(find_text_from(v@, pat@, i + 1) == -1);
            }
            return None;
        }
        i = i + 1;
    }
}

/// [`before_text`] of two string slices.
pub fn text_before(s: &str, pat: &str) -> (r: String)
    ensures
        r@ == before_text(s@, pat@),
{
    let v = chars_of(s);
    let p = chars_of(pat);
    match find_chars(&v, &p) {
        Some(k) => {
            let r = string_of_range(&v, 0, k);
            proof {
                assert(v@.subrange(0, k as int) =~= v@.take(k as int));
            }
            r
        },
        None => s.to_owned(),
    }
}

/// `str::trim` of a string slice, as a string.
pub fn trim_text(s: &str) -> (r: String)
    ensures
        r@ == trim(s@),
{
    let v = chars_of(s);
    let t = trim_chars(&v);
    string_of(&t)
}

/// The pieces trimmed, the empty ones left out.
pub open spec fn trimmed_nonempty(parts: Seq<Seq<char>>) -> Seq<Seq<char>>
    decreases parts.len(),
{
    if parts.len() == 0 {
        Seq::empty()
    } else if trim(parts.last()).len() > 0 {
        trimmed_nonempty(parts.drop_last()).push(trim(parts.last()))
    } else {
        trimmed_nonempty(parts.drop_last())
    }
}

/// Executable [`trimmed_nonempty`] on character vectors.
pub fn trim_pieces(parts: &Vec<Vec<char>>) -> (r: Vec<Vec<char>>)
    ensures
        views(r@) == trimmed_nonempty(views(parts@)),
{
    let mut r: Vec<Vec<char>> = Vec::new();
    let mut i: usize = 0;
    while i < parts.len()
        invariant
            i <= parts.len(),
            views(r@) == trimmed_nonempty(views(parts@).take(i as int)),
        decreases parts.len() - i,
    {
        let ghost pv = views(parts@);
        proof {
            assert(pv.take(i + 1).drop_last() =~= pv.take(i as int));
        }
        let t = trim_chars(&parts[i]);
        if t.len() > 0 {
            let ghost prev = views(r@);
            r.push(t);
            proof {
                assert(views(r@) =~= prev.push(t@));
            }
        }
        i = i + 1;
    }
    proof {
        assert(views(parts@).take(i as int) =~= views(parts@));
    }
    r
}

/// Executable [`trimmed_nonempty`] on strings.
pub fn trim_strings(parts: &Vec<String>) -> (r: Vec<String>)
    ensures
        strs_view(r@) == trimmed_nonempty(strs_view(parts@)),
{
    let mut r: Vec<String> = Vec::new();
    let mut i: usize = 0;
    while i < parts.len()
        invariant
            i <= parts.len(),
            strs_view(r@) == trimmed_nonempty(strs_view(parts@).take(i as int)),
        decreases parts.len() - i,
    {
        let ghost pv = strs_view(parts@);
        proof {
            assert(pv.take(i + 1).drop_last() =~= pv.take(i as int));
        }
        let t = trim_text(parts[i].as_str());
        let n = chars_of(t.as_str()).len();
        if n > 0 {
            let ghost prev = strs_view(r@);
            r.push(t);
            proof {
                assert(strs_view(r@) =~= prev.push(t@));
            }
        }
        i = i + 1;
    }
    proof {
        assert(strs_view(parts@).take(i as int) =~= strs_view(parts@));
    }
    r
}

// ---------------------------------------------------------------------------
// Case
// ---------------------------------------------------------------------------
/// The Unicode lowercase mapping of a string (`str::to_lowercase`).
pub uninterp spec fn spec_to_lowercase(s: Seq<char>) -> Seq<char>;

pub open spec fn is_ascii_chars(s: Seq<char>) -> bool {
    forall|i: int| 0 <= i < s.len() ==> (#[trigger] s[i]) as u32 <= 0x7f
}

/// ASCII `A`-`Z` mapped to `a`-`z`, everything else kept.
pub open spec fn ascii_lower(s: Seq<char>) -> Seq<char> {
    s.map_values(|c: char| if 'A' <= c && c <= 'Z' {
        ((c as u32) + 32) as char
    } else {
        c
    })
}

/// The lowercase mapping of a string: the ASCII one for ASCII text, the
/// named Unicode mapping otherwise.
pub open spec fn lowercase(s: Seq<char>) -> Seq<char> {
    if is_ascii_chars(s) {
        ascii_lower(s)
    } else {
        spec_to_lowercase(s)
    }
}

/// `str::to_lowercase`. Its result is named; for ASCII text it is the
/// ASCII lowercase mapping (the Unicode mapping of `A`-`Z` is `a`-`z` and
/// every other ASCII character maps to itself). Nothing more is claimed.
#[verifier::external_body]
pub(crate) fn to_lowercase(s: &str) -> (r: String)
    ensures
        r@ == spec_to_lowercase(s@),
        is_ascii_chars(s@) ==> r@ == ascii_lower(s@),
{
    s.to_lowercase()
}

/// `parts.join(sep)` of strings.
pub fn join_strings(parts: &Vec<String>, sep: &str) -> (r: String)
    ensures
        r@ == join(strs_view(parts@), sep@),
{
    let mut out = String::new();
    let mut i: usize = 0;
    while i < parts.len()
        invariant
            i <= parts.len(),
            out@ == join(strs_view(parts@).take(i as int), sep@),
        decreases parts.len() - i,
    {
        let ghost dv = strs_view(parts@);
        proof {
            assert(dv.take(i + 1).drop_last() =~= dv.take(i as int));
        }
        if i > 0 {
            push_str(&mut out, sep);
        }
        push_str(&mut out, parts[i].as_str());
        proof {
            if i == 0 {
                assert(out@ =~= dv.take(1)[0]);
            }
        }
        i = i + 1;
    }
    proof {
        assert(strs_view(parts@).take(parts.len() as int) =~= strs_view(parts@));
    }
    out
}

/// `str::replace("\r\n", "\n")`: each CR LF pair made a single LF.
pub open spec fn crlf_to_lf(s: Seq<char>) -> Seq<char>
    decreases s.len(),
{
    if s.len() == 0 {
        s
    } else if s.len() >= 2 && s[0] == '\r' && s[1] == '\n' {
        seq!['\n'] + crlf_to_lf(s.skip(2))
    } else {
        seq![s[0]] + crlf_to_lf(s.drop_first())
    }
}

/// Executable [`crlf_to_lf`].
pub fn crlf_text_to_lf(s: &str) -> (r: String)
    ensures
        r@ == crlf_to_lf(s@),
{
    let v = chars_of(s);
    let mut out = String::new();
    let mut i: usize = 0;
    proof {
        assert(v@.skip(0) =~= v@);
    }
    while i < v.len()
        invariant
            i <= v.len(),
            v@ == s@,
            out@ + crlf_to_lf(v@.skip(i as int)) == crlf_to_lf(v@),
        decreases v.len() - i,
    {
        let ghost rest = v@.skip(i as int);
        if i + 1 < v.len() && v[i] == '\r' && v[i + 1] == '\n' {
            push_char(&mut out, '\n');
            proof {
                assert(rest.skip(2) =~= v@.skip(i + 2));
                assert(out@ + crlf_to_lf(v@.skip(i + 2)) =~= crlf_to_lf(v@));
            }
            i = i + 2;
        } else {
            push_char(&mut out, v[i]);
            proof {
                assert(rest.drop_first() =~= v@.skip(i + 1));
                assert(out@ + crlf_to_lf(v@.skip(i + 1)) =~= crlf_to_lf(v@));
            }
            i = i + 1;
        }
    }
    proof {
        assert(v@.skip(i as int) =~= Seq::<char>::empty());
        assert(out@ + Seq::<char>::empty() =~= out@);
    }
    out
}

// ---------------------------------------------------------------------------
// Facts about splitting and trimming
// ---------------------------------------------------------------------------
/// Splitting `x`, a separator and `y` gives the pieces of `x` then those of
/// `y`.
pub proof fn lemma_split_concat(x: Seq<char>, y: Seq<char>, sep: char, cur: Seq<char>)
    ensures
        split_acc(x + seq![sep] + y, sep, cur) == split_acc(x, sep, cur) + split_acc(
            y,
            sep,
            Seq::empty(),
        ),
    decreases x.len(),
{
    let s = x + seq![sep] + y;
    if x.len() == 0 {
        assert(s =~= seq![sep] + y);
        assert(s.drop_first() =~= y);
    } else {
        assert(s[0] == x[0]);
        assert(s.drop_first() =~= x.drop_first() + seq![sep] + y);
        if x[0] == sep {
            lemma_split_concat(x.drop_first(), y, sep, Seq::empty());
            assert(split_acc(s, sep, cur) =~= split_acc(x, sep, cur) + split_acc(
                y,
                sep,
                Seq::empty(),
            ));
        } else {
            lemma_split_concat(x.drop_first(), y, sep, cur.push(x[0]));
        }
    }
}

/// A text without the separator is one piece.
pub proof fn lemma_split_none(s: Seq<char>, sep: char, cur: Seq<char>)
    requires
        no_char(s, sep),
    ensures
        split_acc(s, sep, cur) == seq![cur + s],
    decreases s.len(),
{
    if s.len() == 0 {
        assert(cur + s =~= cur);
    } else {
        assert(s[0] != sep);
        assert(no_char(s.drop_first(), sep)) by {
            assert forall|i: int| 0 <= i < s.drop_first().len() implies #[trigger] s.drop_first()[i]
                != sep by {
                assert(s.drop_first()[i] == s[i + 1]);
            }
        }
        lemma_split_none(s.drop_first(), sep, cur.push(s[0]));
        assert(cur.push(s[0]) + s.drop_first() =~= cur + s);
    }
}

/// A text that neither starts nor ends with white space is its own trim.
pub proof fn lemma_trim_fixed(s: Seq<char>)
    requires
        s.len() > 0,
        !is_ws(s[0]),
        !is_ws(s.last()),
    ensures
        trim(s) == s,
{
}

/// `decimal` writes no white space at either end and no character other
/// than digits.
pub proof fn lemma_decimal_plain(n: nat)
    ensures
        trim(decimal(n)) == decimal(n),
        forall|c: char| !is_digit(c) ==> no_char(decimal(n), c),
{
    lemma_decimal(n);
    let d = decimal(n);
    assert(is_digit(d[0]));
    assert(is_digit(d.last()));
    lemma_trim_fixed(d);
}

/// No piece of a split holds the separator.
pub proof fn lemma_split_no_sep(s: Seq<char>, sep: char, cur: Seq<char>)
    requires
        no_char(cur, sep),
    ensures
        forall|i: int| 0 <= i < split_acc(s, sep, cur).len() ==> no_char(#[trigger] split_acc(s, sep, cur)[i], sep),
    decreases s.len(),
{
    if s.len() > 0 {
        if s[0] == sep {
            lemma_split_no_sep(s.drop_first(), sep, Seq::empty());
            let rest = split_acc(s.drop_first(), sep, Seq::empty());
            assert forall|i: int| 0 <= i < split_acc(s, sep, cur).len() implies no_char(
                #[trigger] split_acc(s, sep, cur)[i],
                sep,
            ) by {
                if i > 0 {
                    assert(split_acc(s, sep, cur)[i] == rest[i - 1]);
                } else {
                    assert(split_acc(s, sep, cur)[0] == cur);
                }
            }
        } else {
            assert forall|j: int| 0 <= j < cur.push(s[0]).len() implies #[trigger] cur.push(s[0])[j] != sep by {
                if j < cur.len() {
                    assert(cur.push(s[0])[j] == cur[j]);
                }
            }
            lemma_split_no_sep(s.drop_first(), sep, cur.push(s[0]));
            assert(split_acc(s, sep, cur) == split_acc(s.drop_first(), sep, cur.push(s[0])));
        }
    } else {
        assert(split_acc(s, sep, cur) =~= seq![cur]);
        assert(split_acc(s, sep, cur)[0] == cur);
    }
}

/// Trimming keeps a text free of a character.
pub proof fn lemma_trim_no_char(s: Seq<char>, c: char)
    requires
        no_char(s, c),
    ensures
        no_char(trim(s), c),
{
    lemma_trim_start_no_char(s, c);
    lemma_trim_end_no_char(trim_start(s), c);
}

proof fn lemma_trim_start_no_char(s: Seq<char>, c: char)
    requires
        no_char(s, c),
    ensures
        no_char(trim_start(s), c),
    decreases s.len(),
{
    if s.len() > 0 && is_ws(s[0]) {
        assert forall|i: int| 0 <= i < s.drop_first().len() implies #[trigger] s.drop_first()[i] != c by {
            assert(s.drop_first()[i] == s[i + 1]);
        }
        lemma_trim_start_no_char(s.drop_first(), c);
    }
}

proof fn lemma_trim_end_no_char(s: Seq<char>, c: char)
    requires
        no_char(s, c),
    ensures
        no_char(trim_end(s), c),
    decreases s.len(),
{
    if s.len() > 0 && is_ws(s.last()) {
        assert forall|i: int| 0 <= i < s.drop_last().len() implies #[trigger] s.drop_last()[i] != c by {
            assert(s.drop_last()[i] == s[i]);
        }
        lemma_trim_end_no_char(s.drop_last(), c);
    }
}

/// Trimmed pieces stay free of a character the pieces are free of.
pub proof fn lemma_trimmed_nonempty_no_char(parts: Seq<Seq<char>>, c: char)
    requires
        forall|i: int| 0 <= i < parts.len() ==> no_char(#[trigger] parts[i], c),
    ensures
        forall|i: int| 0 <= i < trimmed_nonempty(parts).len() ==> no_char(#[trigger] trimmed_nonempty(parts)[i], c),
    decreases parts.len(),
{
    if parts.len() > 0 {
        let init = parts.drop_last();
        assert forall|i: int| 0 <= i < init.len() implies no_char(#[trigger] init[i], c) by {
            assert(init[i] == parts[i]);
        }
        lemma_trimmed_nonempty_no_char(init, c);
        assert(no_char(parts[parts.len() - 1], c));
        lemma_trim_no_char(parts.last(), c);
        let t = trimmed_nonempty(parts);
        assert forall|i: int| 0 <= i < t.len() implies no_char(#[trigger] t[i], c) by {
            if i < trimmed_nonempty(init).len() {
                assert(t[i] == trimmed_nonempty(init)[i]);
            }
        }
    }
}

/// Joining pieces free of a character with a separator free of it gives a
/// text free of it.
pub proof fn lemma_join_no_char(parts: Seq<Seq<char>>, sep: Seq<char>, c: char)
    requires
        forall|i: int| 0 <= i < parts.len() ==> no_char(#[trigger] parts[i], c),
        no_char(sep, c),
    ensures
        no_char(join(parts, sep), c),
    decreases parts.len(),
{
    if parts.len() == 1 {
        assert(no_char(parts[0], c));
    } else if parts.len() > 1 {
        let init = parts.drop_last();
        assert forall|i: int| 0 <= i < init.len() implies no_char(#[trigger] init[i], c) by {
            assert(init[i] == parts[i]);
        }
        lemma_join_no_char(init, sep, c);
        assert(no_char(parts[parts.len() - 1], c));
        let a = join(init, sep);
        let l = parts.last();
        let j = a + sep + l;
        assert forall|i: int| 0 <= i < j.len() implies #[trigger] j[i] != c by {
            if i < a.len() {
                assert(j[i] == a[i]);
            } else if i < a.len() + sep.len() {
                assert(j[i] == sep[i - a.len()]);
            } else {
                assert(j[i] == l[i - a.len() - sep.len()]);
            }
        }
    }
}

/// The text before the first line break, or the whole text.
pub open spec fn first_line(s: Seq<char>) -> Seq<char> {
    if first_index(s, '\n') >= 0 {
        s.take(first_index(s, '\n'))
    } else {
        s
    }
}

/// The first occurrence in a concatenation is the first in its first part,
/// else the first in its second part moved past the first.
pub proof fn lemma_first_index_concat(a: Seq<char>, b: Seq<char>, c: char)
    ensures
        first_index(a + b, c) == (if first_index(a, c) >= 0 {
            first_index(a, c)
        } else if first_index(b, c) >= 0 {
            a.len() + first_index(b, c)
        } else {
            -1
        }),
    decreases a.len(),
{
    if a.len() == 0 {
        assert(a + b =~= b);
    } else {
        assert((a + b)[0] == a[0]);
        assert((a + b).drop_first() =~= a.drop_first() + b);
        lemma_first_index_concat(a.drop_first(), b, c);
    }
}

/// Text free of carriage returns is kept by `crlf_to_lf`.
pub proof fn lemma_crlf_to_lf_no_cr(s: Seq<char>)
    requires
        no_char(s, '\r'),
    ensures
        crlf_to_lf(s) == s,
    decreases s.len(),
{
    if s.len() > 0 {
        assert(s[0] != '\r');
        assert forall|i: int| 0 <= i < s.drop_first().len() implies #[trigger] s.drop_first()[i] != '\r' by {
            assert(s.drop_first()[i] == s[i + 1]);
        }
        lemma_crlf_to_lf_no_cr(s.drop_first());
        assert(seq![s[0]] + s.drop_first() =~= s);
    }
}

/// The first line read by `lines_acc`, for text free of carriage returns.
proof fn lemma_lines_acc_first(s: Seq<char>, cur: Seq<char>)
    requires
        no_char(s, '\r'),
        no_char(cur, '\r'),
        s.len() + cur.len() > 0,
    ensures
        lines_acc(s, cur).len() > 0,
        lines_acc(s, cur)[0] == cur + first_line(s),
    decreases s.len(),
{
    if s.len() == 0 {
        assert(cur + first_line(s) =~= cur);
    } else if s[0] == '\n' {
        if cur.len() > 0 {
            assert(cur[cur.len() - 1] != '\r');
        }
        assert(strip_cr(cur) == cur);
        assert(first_index(s, '\n') == 0);
        assert(cur + first_line(s) =~= cur);
    } else {
        let next = cur.push(s[0]);
        assert forall|i: int| 0 <= i < next.len() implies #[trigger] next[i] != '\r' by {
            if i < cur.len() {
                assert(next[i] == cur[i]);
            }
        }
        assert forall|i: int| 0 <= i < s.drop_first().len() implies #[trigger] s.drop_first()[i] != '\r' by {
            assert(s.drop_first()[i] == s[i + 1]);
        }
        lemma_lines_acc_first(s.drop_first(), next);
        let r = first_index(s.drop_first(), '\n');
        lemma_first_index(s.drop_first(), '\n');
        if r >= 0 {
            assert(first_index(s, '\n') == r + 1);
            assert(next + s.drop_first().take(r) =~= cur + s.take(r + 1));
        } else {
            assert(first_index(s, '\n') == -1);
            assert(next + s.drop_first() =~= cur + s);
        }
    }
}

/// The first of the `lines` of a non-empty text free of carriage returns is
/// its first line.
pub proof fn lemma_lines_first(s: Seq<char>)
    requires
        no_char(s, '\r'),
        s.len() > 0,
    ensures
        lines(s).len() > 0,
        lines(s)[0] == first_line(s),
{
    lemma_lines_acc_first(s, Seq::empty());
    assert(Seq::<char>::empty() + first_line(s) =~= first_line(s));
}

/// A join of two or more pieces is the first piece, the separator, and the
/// join of the rest.
pub proof fn lemma_join_first(parts: Seq<Seq<char>>, sep: Seq<char>)
    requires
        parts.len() >= 2,
    ensures
        join(parts, sep) == parts[0] + sep + join(parts.drop_first(), sep),
    decreases parts.len(),
{
    let rest = parts.drop_first();
    if parts.len() == 2 {
        assert(parts.drop_last() =~= seq![parts[0]]);
        assert(rest =~= seq![parts[1]]);
        assert(join(parts.drop_last(), sep) == parts[0]);
        assert(join(rest, sep) == parts[1]);
        assert(join(parts, sep) == join(parts.drop_last(), sep) + sep + parts.last());
        assert(join(parts, sep) =~= parts[0] + sep + join(rest, sep));
    } else {
        let init = parts.drop_last();
        lemma_join_first(init, sep);
        assert(rest.drop_last() =~= init.drop_first());
        assert(rest.last() == parts.last());
        assert(init[0] == parts[0]);
        assert(join(rest, sep) == join(rest.drop_last(), sep) + sep + rest.last());
        assert(join(parts, sep) == join(init, sep) + sep + parts.last());
        assert(join(parts, sep) =~= parts[0] + sep + join(rest, sep));
    }
}

/// Each piece of a join occurs in it; the offset where it does.
pub proof fn lemma_join_contains(parts: Seq<Seq<char>>, sep: Seq<char>, i: int) -> (off: int)
    requires
        0 <= i < parts.len(),
    ensures
        0 <= off,
        off + parts[i].len() <= join(parts, sep).len(),
        join(parts, sep).subrange(off, off + parts[i].len()) == parts[i],
    decreases parts.len(),
{
    if parts.len() == 1 {
        assert(join(parts, sep).subrange(0, parts[i].len() as int) =~= parts[i]);
        0
    } else {
        let init = parts.drop_last();
        let j = join(init, sep);
        let whole = join(parts, sep);
        assert(whole == j + sep + parts.last());
        if i < parts.len() - 1 {
            let o = lemma_join_contains(init, sep, i);
            assert(init[i] == parts[i]);
            assert(whole.subrange(o, o + parts[i].len()) =~= j.subrange(o, o + parts[i].len()));
            o
        } else {
            let o: int = (j.len() + sep.len()) as int;
            assert(whole.subrange(o, o + parts[i].len()) =~= parts.last());
            o
        }
    }
}

} // verus!
