//! Article range selection.
//!
//! A selection is a comma separated list of items; each item is either a
//! single article number (`"100"`) or an inclusive range (`"10-15"`).
//! White space around items and around the numbers of a range is ignored.
//! The selection is kept as its list of ranges, so that a large range costs
//! no memory until its indices are asked for.
use vstd::prelude::*;
use crate::text::{
    chars_of, decimal, find_char, first_index, is_digit, lemma_decimal, lemma_decimal_plain,
    lemma_first_index, lemma_split_concat, lemma_split_none, lemma_trim_fixed, no_char,
    parse_uint, parse_uint_range, split_chars, split_on, trim, trim_bounds, views,
};

verus! {

/// Why a selection text was refused.
#[derive(Debug, Clone, Copy, PartialEq, Eq, Structural)]
pub enum RangeParseError {
    /// An item is empty (or only white space).
    EmptyItem,
    /// A number is missing, holds a non-digit, or does not fit in `usize`.
    InvalidNumber,
    /// A range whose start is after its end.
    DescendingRange,
}

/// Meaning of one trimmed item: the inclusive range it selects.
pub open spec fn spec_parse_item(item: Seq<char>) -> Result<(nat, nat), RangeParseError> {
    let t = trim(item);
    let d = first_index(t, '-');
    if t.len() == 0 {
        Err(RangeParseError::EmptyItem)
    } else if d < 0 {
        match parse_uint(t, usize::MAX as nat) {
            Some(n) => Ok((n, n)),
            None => Err(RangeParseError::InvalidNumber),
        }
    } else {
        match (
            parse_uint(trim(t.take(d)), usize::MAX as nat),
            parse_uint(trim(t.skip(d + 1)), usize::MAX as nat),
        ) {
            (Some(a), Some(b)) => if a <= b {
                Ok((a, b))
            } else {
                Err(RangeParseError::DescendingRange)
            },
            _ => Err(RangeParseError::InvalidNumber),
        }
    }
}

/// Meaning of a list of items: their ranges in order, or the error of the
/// first item that is refused.
pub open spec fn spec_parse_items(items: Seq<Seq<char>>) -> Result<Seq<(nat, nat)>, RangeParseError>
    decreases items.len(),
{
    if items.len() == 0 {
        Ok(Seq::empty())
    } else {
        match spec_parse_item(items[0]) {
            Err(e) => Err(e),
            Ok(seg) => match spec_parse_items(items.drop_first()) {
                Err(e) => Err(e),
                Ok(rest) => Ok(seq![seg] + rest),
            },
        }
    }
}

/// Meaning of a selection text.
pub open spec fn spec_parse_sequence(text: Seq<char>) -> Result<Seq<(nat, nat)>, RangeParseError> {
    spec_parse_items(split_on(text, ','))
}

/// The numbers `a, a + 1, ..., b`.
pub open spec fn span(a: nat, b: nat) -> Seq<nat> {
    if a <= b {
        Seq::new((b + 1 - a) as nat, |k: int| (a + k) as nat)
    } else {
        Seq::empty()
    }
}

/// The article indices selected by a list of ranges, in order.
pub open spec fn indices(segs: Seq<(nat, nat)>) -> Seq<nat>
    decreases segs.len(),
{
    if segs.len() == 0 {
        Seq::empty()
    } else {
        span(segs[0].0, segs[0].1) + indices(segs.drop_first())
    }
}

/// A parsed article selection: inclusive ranges, in the order written.
pub struct IndexSequence {
    segments: Vec<(usize, usize)>,
}

impl View for IndexSequence {
    type V = Seq<(nat, nat)>;

    closed spec fn view(&self) -> Seq<(nat, nat)> {
        self.segments@.map_values(|p: (usize, usize)| (p.0 as nat, p.1 as nat))
    }
}

impl IndexSequence {
    /// The inclusive ranges of the selection.
    pub fn segments(&self) -> (r: Vec<(usize, usize)>)
        ensures
            r@.map_values(|p: (usize, usize)| (p.0 as nat, p.1 as nat)) == self@,
    {
        let mut r: Vec<(usize, usize)> = Vec::new();
        let mut i: usize = 0;
        while i < self.segments.len()
            invariant
                i <= self.segments.len(),
                r@ == self.segments@.take(i as int),
            decreases self.segments.len() - i,
        {
            r.push(self.segments[i]);
            i = i + 1;
            proof {
                assert(r@ =~= self.segments@.take(i as int));
            }
        }
        proof {
            assert(self.segments@.take(i as int) =~= self.segments@);
        }
        r
    }

    /// All selected indices, in order (ranges expanded).
    pub fn to_vec(&self) -> (r: Vec<usize>)
        ensures
            r@.map_values(|x: usize| x as nat) == indices(self@),
    {
        let mut out: Vec<usize> = Vec::new();
        let mut i: usize = 0;
        let ghost segs = self@;
        proof {
            assert(out@.map_values(|x: usize| x as nat) =~= Seq::<nat>::empty());
            assert(segs.skip(0) =~= segs);
        }
        while i < self.segments.len()
            invariant
                i <= self.segments.len(),
                segs == self@,
                out@.map_values(|x: usize| x as nat) + indices(segs.skip(i as int)) == indices(
                    segs,
                ),
            decreases self.segments.len() - i,
        {
            let (a, b) = self.segments[i];
            let ghost before = out@.map_values(|x: usize| x as nat);
            proof {
                assert(segs.skip(i as int)[0] == (a as nat, b as nat));
                assert(segs.skip(i as int).drop_first() =~= segs.skip(i + 1));
            }
            if a <= b {
                let mut k = a;
                while k < b
                    invariant
                        a <= k <= b,
                        out@.map_values(|x: usize| x as nat) == before + span(
                            a as nat,
                            b as nat,
                        ).take(k - a),
                    decreases b - k,
                {
                    let ghost prev = out@;
                    out.push(k);
                    proof {
                        assert(out@.map_values(|x: usize| x as nat) =~= prev.map_values(
                            |x: usize| x as nat,
                        ).push(k as nat));
                        assert(span(a as nat, b as nat).take(k - a + 1) =~= span(
                            a as nat,
                            b as nat,
                        ).take(k - a).push(k as nat));
                        assert(out@.map_values(|x: usize| x as nat) =~= before + span(
                            a as nat,
                            b as nat,
                        ).take(k - a + 1));
                    }
                    k = k + 1;
                }
                let ghost prev = out@;
                out.push(b);
                proof {
                    assert(out@.map_values(|x: usize| x as nat) =~= prev.map_values(
                        |x: usize| x as nat,
                    ).push(b as nat));
                    assert(span(a as nat, b as nat) =~= span(a as nat, b as nat).take(b - a).push(
                        b as nat,
                    ));
                    assert(out@.map_values(|x: usize| x as nat) =~= before + span(
                        a as nat,
                        b as nat,
                    ));
                }
            } else {
                proof {
                    assert(out@.map_values(|x: usize| x as nat) =~= before + span(
                        a as nat,
                        b as nat,
                    ));
                }
            }
            proof {
                assert(out@.map_values(|x: usize| x as nat) + indices(segs.skip(i + 1)) =~= before
                    + indices(segs.skip(i as int)));
            }
            i = i + 1;
        }
        proof {
            assert(segs.skip(i as int) =~= Seq::<(nat, nat)>::empty());
            assert(out@.map_values(|x: usize| x as nat) + Seq::<nat>::empty() =~= out@.map_values(
                |x: usize| x as nat,
            ));
        }
        out
    }
}

/// Parses `v[lo..hi]` as one item.
fn parse_item(v: &Vec<char>, lo: usize, hi: usize) -> (r: Result<(usize, usize), RangeParseError>)
    requires
        lo <= hi <= v.len(),
    ensures
        match spec_parse_item(v@.subrange(lo as int, hi as int)) {
            Ok(seg) => r == Ok::<(usize, usize), RangeParseError>(
                (seg.0 as usize, seg.1 as usize),
            ) && seg.0 <= usize::MAX && seg.1 <= usize::MAX,
            Err(e) => r == Err::<(usize, usize), RangeParseError>(e),
        },
{
    let (a, b) = trim_bounds(v, lo, hi);
    let ghost t = v@.subrange(a as int, b as int);
    if a == b {
        return Err(RangeParseError::EmptyItem);
    }
    match find_char(v, a, b, '-') {
        None => {
            match parse_uint_range(v, a, b, usize::MAX as u64) {
                Some(n) => Ok((n as usize, n as usize)),
                None => Err(RangeParseError::InvalidNumber),
            }
        },
        Some(d) => {
            proof {
                lemma_first_index(t, '-');
                assert(v@.subrange(a as int, a + d) =~= t.take(d as int));
                assert(v@.subrange(a + d + 1, b as int) =~= t.skip(d + 1));
            }
            let (l0, l1) = trim_bounds(v, a, a + d);
            let (r0, r1) = trim_bounds(v, a + d + 1, b);
            let x = parse_uint_range(v, l0, l1, usize::MAX as u64);
            let y = parse_uint_range(v, r0, r1, usize::MAX as u64);
            match (x, y) {
                (Some(x), Some(y)) => {
                    if x <= y {
                        Ok((x as usize, y as usize))
                    } else {
                        Err(RangeParseError::DescendingRange)
                    }
                },
                _ => Err(RangeParseError::InvalidNumber),
            }
        },
    }
}

/// Parses an article selection such as `"1,3-5,10"`.
///
/// Succeeds exactly when every comma separated item is a number or a
/// non-descending `low-high` range of numbers that fit in `usize`;
/// otherwise the error of the first refused item is returned.
pub fn parse_sequence(text: &str) -> (r: Result<IndexSequence, RangeParseError>)
    ensures
        match spec_parse_sequence(text@) {
            Ok(segs) => r is Ok && r->Ok_0@ == segs,
            Err(e) => r == Err::<IndexSequence, RangeParseError>(e),
        },
{
    let v = chars_of(text);
    let items = split_chars(&v, ',');
    let ghost all = views(items@);
    let mut segments: Vec<(usize, usize)> = Vec::new();
    let mut i: usize = 0;
    proof {
        assert(all.skip(0) =~= all);
        assert(segments@.map_values(|p: (usize, usize)| (p.0 as nat, p.1 as nat)) =~= Seq::<
            (nat, nat),
        >::empty());
    }
    while i < items.len()
        invariant
            i <= items.len(),
            all == views(items@),
            all == split_on(text@, ','),
            spec_parse_items(all) == match spec_parse_items(all.skip(i as int)) {
                Ok(rest) => Ok(
                    segments@.map_values(|p: (usize, usize)| (p.0 as nat, p.1 as nat)) + rest,
                ),
                Err(e) => Err(e),
            },
        decreases items.len() - i,
    {
        let ghost before = segments@.map_values(|p: (usize, usize)| (p.0 as nat, p.1 as nat));
        proof {
            assert(all.skip(i as int)[0] == items@[i as int]@);
            assert(all.skip(i as int).drop_first() =~= all.skip(i + 1));
            assert(items@[i as int]@.subrange(0, items@[i as int]@.len() as int)
                =~= items@[i as int]@);
        }
        match parse_item(&items[i], 0, items[i].len()) {
            Ok(seg) => {
                segments.push(seg);
                proof {
                    assert(segments@.map_values(|p: (usize, usize)| (p.0 as nat, p.1 as nat))
                        =~= before.push((seg.0 as nat, seg.1 as nat)));
                    match spec_parse_items(all.skip(i + 1)) {
                        Ok(rest) => {
                            assert(before + (seq![(seg.0 as nat, seg.1 as nat)] + rest) =~= before.push(
                                (seg.0 as nat, seg.1 as nat),
                            ) + rest);
                        },
                        Err(_) => {},
                    }
                }
            },
            Err(e) => {
                return Err(e);
            },
        }
        i = i + 1;
    }
    proof {
        assert(all.skip(i as int) =~= Seq::<Seq<char>>::empty());
        assert(segments@.map_values(|p: (usize, usize)| (p.0 as nat, p.1 as nat)) + Seq::<
            (nat, nat),
        >::empty() =~= segments@.map_values(|p: (usize, usize)| (p.0 as nat, p.1 as nat)));
    }
    Ok(IndexSequence { segments })
}

// ---------------------------------------------------------------------------
// Laws of selections
// ---------------------------------------------------------------------------
/// The meaning of two selections written one after the other: the ranges
/// of the first then those of the second, or the first error.
pub open spec fn combine_selections(
    a: Result<Seq<(nat, nat)>, RangeParseError>,
    b: Result<Seq<(nat, nat)>, RangeParseError>,
) -> Result<Seq<(nat, nat)>, RangeParseError> {
    match a {
        Err(e) => Err(e),
        Ok(p) => match b {
            Err(e) => Err(e),
            Ok(q) => Ok(p + q),
        },
    }
}

proof fn lemma_parse_items_concat(a: Seq<Seq<char>>, b: Seq<Seq<char>>)
    ensures
        spec_parse_items(a + b) == combine_selections(spec_parse_items(a), spec_parse_items(b)),
    decreases a.len(),
{
    if a.len() == 0 {
        assert(a + b =~= b);
        match spec_parse_items(b) {
            Ok(q) => {
                assert(Seq::<(nat, nat)>::empty() + q =~= q);
            },
            Err(_) => {},
        }
    } else {
        assert((a + b)[0] == a[0]);
        assert((a + b).drop_first() =~= a.drop_first() + b);
        lemma_parse_items_concat(a.drop_first(), b);
        match (spec_parse_item(a[0]), spec_parse_items(a.drop_first()), spec_parse_items(b)) {
            (Ok(seg), Ok(p), Ok(q)) => {
                assert(seq![seg] + (p + q) =~= (seq![seg] + p) + q);
            },
            _ => {},
        }
    }
}

proof fn lemma_indices_concat(p: Seq<(nat, nat)>, q: Seq<(nat, nat)>)
    ensures
        indices(p + q) == indices(p) + indices(q),
    decreases p.len(),
{
    if p.len() == 0 {
        assert(p + q =~= q);
        assert(Seq::<nat>::empty() + indices(q) =~= indices(q));
    } else {
        assert((p + q)[0] == p[0]);
        assert((p + q).drop_first() =~= p.drop_first() + q);
        lemma_indices_concat(p.drop_first(), q);
        assert(span(p[0].0, p[0].1) + (indices(p.drop_first()) + indices(q)) =~= (span(
            p[0].0,
            p[0].1,
        ) + indices(p.drop_first())) + indices(q));
    }
}

/// Law: the selection `x,y` means the ranges of `x` followed by those of
/// `y` (or the first error), and so selects the articles of `x` followed
/// by those of `y`.
pub proof fn law_selection_concatenation(x: Seq<char>, y: Seq<char>)
    ensures
        spec_parse_sequence(x + seq![','] + y) == combine_selections(
            spec_parse_sequence(x),
            spec_parse_sequence(y),
        ),
        spec_parse_sequence(x) is Ok && spec_parse_sequence(y) is Ok ==> indices(
            spec_parse_sequence(x + seq![','] + y)->Ok_0,
        ) == indices(spec_parse_sequence(x)->Ok_0) + indices(spec_parse_sequence(y)->Ok_0),
{
    lemma_split_concat(x, y, ',', Seq::empty());
    lemma_parse_items_concat(split_on(x, ','), split_on(y, ','));
    if spec_parse_sequence(x) is Ok && spec_parse_sequence(y) is Ok {
        lemma_indices_concat(spec_parse_sequence(x)->Ok_0, spec_parse_sequence(y)->Ok_0);
    }
}

/// The decimal text of a number that fits in `usize` reads back as it.
proof fn lemma_decimal_reads_back(n: nat)
    requires
        n <= usize::MAX,
    ensures
        parse_uint(decimal(n), usize::MAX as nat) == Some(n),
        trim(decimal(n)) == decimal(n),
        no_char(decimal(n), '-'),
        no_char(decimal(n), ','),
{
    lemma_decimal(n);
    lemma_decimal_plain(n);
    assert(!is_digit('-'));
    assert(!is_digit(','));
    assert(decimal(n)[0] != '+');
}

/// Law: a single number `n` selects the one range `n..=n`, that is the
/// article `n` alone.
pub proof fn law_single_number(n: nat)
    requires
        n <= usize::MAX,
    ensures
        spec_parse_sequence(decimal(n)) == Ok::<Seq<(nat, nat)>, RangeParseError>(seq![(n, n)]),
        indices(seq![(n, n)]) == seq![n],
{
    let d = decimal(n);
    lemma_decimal_reads_back(n);
    lemma_split_none(d, ',', Seq::empty());
    assert(Seq::<char>::empty() + d =~= d);
    lemma_first_index(d, '-');
    assert(split_on(d, ',') == seq![d]);
    assert(first_index(trim(d), '-') == -1);
    assert(spec_parse_item(d) == Ok::<(nat, nat), RangeParseError>((n, n)));
    assert(seq![d].drop_first() =~= Seq::<Seq<char>>::empty());
    assert(spec_parse_items(seq![d].drop_first()) == Ok::<Seq<(nat, nat)>, RangeParseError>(Seq::empty()));
    assert(seq![(n, n)] + Seq::<(nat, nat)>::empty() =~= seq![(n, n)]);
    assert(span(n, n) =~= seq![n]);
    assert(indices(seq![(n, n)].drop_first()) =~= Seq::<nat>::empty());
    assert(span(n, n) + Seq::<nat>::empty() =~= seq![n]);
}

/// Law: `a-b` selects the range `a..=b`, the articles `a` to `b`, when
/// `a <= b`, and is refused as descending otherwise.
pub proof fn law_number_range(a: nat, b: nat)
    requires
        a <= usize::MAX,
        b <= usize::MAX,
    ensures
        spec_parse_sequence(decimal(a) + seq!['-'] + decimal(b)) == (if a <= b {
            Ok::<Seq<(nat, nat)>, RangeParseError>(seq![(a, b)])
        } else {
            Err::<Seq<(nat, nat)>, RangeParseError>(RangeParseError::DescendingRange)
        }),
        a <= b ==> indices(seq![(a, b)]) == span(a, b),
{
    let da = decimal(a);
    let db = decimal(b);
    let t = da + seq!['-'] + db;
    lemma_decimal_reads_back(a);
    lemma_decimal_reads_back(b);
    lemma_decimal(a);
    lemma_decimal(b);
    assert(no_char(t, ',')) by {
        assert forall|i: int| 0 <= i < t.len() implies #[trigger] t[i] != ',' by {
            if i < da.len() {
                assert(t[i] == da[i]);
            } else if i > da.len() {
                assert(t[i] == db[i - da.len() - 1]);
            }
        }
    }
    lemma_split_none(t, ',', Seq::empty());
    assert(Seq::<char>::empty() + t =~= t);
    assert(t[0] == da[0]);
    assert(t.last() == db.last());
    assert(is_digit(da[0]) && is_digit(db.last()));
    lemma_trim_fixed(t);
    lemma_first_index(t, '-');
    let f = first_index(t, '-');
    assert(t[da.len() as int] == '-');
    if f < 0 {
        assert(!no_char(t, '-'));
    }
    if 0 <= f < da.len() {
        assert(t[f] == da[f]);
    }
    if f > da.len() {
        assert(t.take(f)[da.len() as int] == '-');
    }
    assert(f == da.len());
    assert(t.take(f) =~= da);
    assert(t.skip(f + 1) =~= db);
    assert(split_on(t, ',') == seq![t]);
    assert(trim(t.take(f)) == da);
    assert(trim(t.skip(f + 1)) == db);
    assert(seq![t].drop_first() =~= Seq::<Seq<char>>::empty());
    assert(spec_parse_items(seq![t].drop_first()) == Ok::<Seq<(nat, nat)>, RangeParseError>(Seq::empty()));
    assert(seq![(a, b)] + Seq::<(nat, nat)>::empty() =~= seq![(a, b)]);
    assert(indices(seq![(a, b)].drop_first()) =~= Seq::<nat>::empty());
    assert(span(a, b) + Seq::<nat>::empty() =~= span(a, b));
}

} // verus!
