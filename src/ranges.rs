//! Entry ranges written as text, such as `1-15,30`: parsing, and the entry
//! numbers they cover in order.
use vstd::prelude::*;
use core::ops::RangeInclusive;
use crate::text::chars_of;

verus! {

pub assume_specification<Idx>[ core::ops::RangeInclusive::<Idx>::start ](
    r: &core::ops::RangeInclusive<Idx>,
) -> (res: &Idx)
    ensures
        *res == r@.start,
;

pub assume_specification<Idx>[ core::ops::RangeInclusive::<Idx>::end ](
    r: &core::ops::RangeInclusive<Idx>,
) -> (res: &Idx)
    ensures
        *res == r@.end,
;

/// The pieces of `s` between occurrences of `sep`; there is always at least
/// one, possibly empty.
pub open spec fn split_on(s: Seq<char>, sep: char) -> Seq<Seq<char>>
    decreases s.len(),
{
    if s.len() == 0 {
        seq![Seq::empty()]
    } else {
        let prev = split_on(s.drop_last(), sep);
        if s.last() == sep {
            prev.push(Seq::empty())
        } else {
            prev.update(prev.len() - 1, prev.last().push(s.last()))
        }
    }
}

/// Whether `c` is a decimal digit.
pub open spec fn is_digit(c: char) -> bool {
    '0' <= c <= '9'
}

/// The value of a decimal digit.
pub open spec fn digit_value(c: char) -> int {
    c as int - '0' as int
}

/// The value of a string of decimal digits, most significant first.
pub open spec fn decimal(s: Seq<char>) -> int
    decreases s.len(),
{
    if s.len() == 0 {
        0
    } else {
        decimal(s.drop_last()) * 10 + digit_value(s.last())
    }
}

/// The digits of a number: a single leading `+` is allowed before them.
pub open spec fn digits_of(s: Seq<char>) -> Seq<char> {
    if s.len() > 1 && s[0] == '+' {
        s.drop_first()
    } else {
        s
    }
}

/// The entry number that `s` denotes: one or more decimal digits after an
/// optional `+`, with a value that fits in `usize`.
pub open spec fn parse_number(s: Seq<char>) -> Option<usize> {
    let d = digits_of(s);
    if d.len() > 0 && (forall|i: int| 0 <= i < d.len() ==> is_digit(#[trigger] d[i]))
        && decimal(d) <= usize::MAX {
        Some(decimal(d) as usize)
    } else {
        None
    }
}

/// Why a range text was refused.
#[derive(Clone, Copy, Debug, PartialEq, Eq, Structural)]
pub enum RangesError {
    /// A piece holds more than one `-`.
    TooManyDashes,
    /// A bound is not a number that fits in `usize`.
    InvalidNumber,
}

/// The bounds that one comma-separated piece denotes: `a-b` or a lone `n`.
pub open spec fn parse_piece(p: Seq<char>) -> Result<(usize, usize), RangesError> {
    let parts = split_on(p, '-');
    if parts.len() == 1 {
        match parse_number(p) {
            Some(n) => Ok((n, n)),
            None => Err(RangesError::InvalidNumber),
        }
    } else if parts.len() != 2 {
        Err(RangesError::TooManyDashes)
    } else {
        match (parse_number(parts[0]), parse_number(parts[1])) {
            (Some(a), Some(b)) => Ok((a, b)),
            _ => Err(RangesError::InvalidNumber),
        }
    }
}

/// The bounds of each piece in order, or the refusal of the first piece
/// that is refused.
pub open spec fn parse_pieces(ps: Seq<Seq<char>>) -> Result<Seq<(usize, usize)>, RangesError>
    decreases ps.len(),
{
    if ps.len() == 0 {
        Ok(Seq::empty())
    } else {
        match parse_pieces(ps.drop_last()) {
            Err(e) => Err(e),
            Ok(v) => match parse_piece(ps.last()) {
                Ok(b) => Ok(v.push(b)),
                Err(e) => Err(e),
            },
        }
    }
}

/// The bounds that a whole range text denotes.
pub open spec fn parse_ranges(s: Seq<char>) -> Result<Seq<(usize, usize)>, RangesError> {
    parse_pieces(split_on(s, ','))
}

/// The entry numbers from `a` to `b`, both included; none where `b < a`.
pub open spec fn span(a: usize, b: usize) -> Seq<usize> {
    Seq::new(if a <= b { (b - a + 1) as nat } else { 0 }, |i: int| (a + i) as usize)
}

proof fn lemma_split_len(s: Seq<char>, sep: char)
    ensures
        split_on(s, sep).len() >= 1,
    decreases s.len(),
{
    if s.len() > 0 {
        lemma_split_len(s.drop_last(), sep);
    }
}

proof fn lemma_split_single(s: Seq<char>, sep: char)
    requires
        split_on(s, sep).len() == 1,
    ensures
        split_on(s, sep)[0] == s,
    decreases s.len(),
{
    if s.len() > 0 {
        lemma_split_len(s.drop_last(), sep);
        let prev = split_on(s.drop_last(), sep);
        if s.last() != sep {
            lemma_split_single(s.drop_last(), sep);
            assert(s.drop_last().push(s.last()) =~= s);
        }
    }
}

proof fn lemma_error_prefix(ps: Seq<Seq<char>>, k: int)
    requires
        0 <= k <= ps.len(),
        parse_pieces(ps.take(k)) is Err,
    ensures
        parse_pieces(ps) == parse_pieces(ps.take(k)),
    decreases ps.len(),
{
    if k == ps.len() {
        assert(ps.take(k) =~= ps);
    } else {
        assert(ps.drop_last().take(k) =~= ps.take(k));
        lemma_error_prefix(ps.drop_last(), k);
    }
}

/// The pieces of `s` between occurrences of `sep`.
fn split_chars(s: &Vec<char>, sep: char) -> (r: Vec<Vec<char>>)
    ensures
        r@.len() == split_on(s@, sep).len(),
        forall|i: int| 0 <= i < r@.len() ==> (#[trigger] r@[i])@ == split_on(s@, sep)[i],
{
    let n = s.len();
    let mut done: Vec<Vec<char>> = Vec::new();
    let mut cur: Vec<char> = Vec::new();
    let mut i: usize = 0;
    while i < n
        invariant
            n == s@.len(),
            i <= n,
            split_on(s@.take(i as int), sep).len() == done@.len() + 1,
            forall|j: int|
                0 <= j < done@.len() ==> (#[trigger] done@[j])@ == split_on(s@.take(i as int), sep)[j],
            cur@ == split_on(s@.take(i as int), sep).last(),
        decreases n - i,
    {
        proof {
            assert(s@.take(i + 1).drop_last() =~= s@.take(i as int));
            lemma_split_len(s@.take(i as int), sep);
        }
        let c = s[i];
        if c == sep {
            let piece = cur;
            done.push(piece);
            cur = Vec::new();
        } else {
            cur.push(c);
        }
        i = i + 1;
    }
    assert(s@.take(n as int) =~= s@);
    done.push(cur);
    done
}

/// Parses a number as `usize::from_str` does: an optional `+`, then one or
/// more decimal digits whose value fits.
pub fn parse_usize(s: &Vec<char>) -> (r: Option<usize>)
    ensures
        r == parse_number(s@),
{
    let n = s.len();
    let start: usize = if n > 1 && s[0] == '+' { 1 } else { 0 };
    let ghost d = digits_of(s@);
    assert(d =~= s@.skip(start as int));
    if start == n {
        return None;
    }
    let mut acc: usize = 0;
    let mut over = false;
    let mut i: usize = start;
    while i < n
        invariant
            start <= i <= n == s@.len(),
            d == s@.skip(start as int),
            d == digits_of(s@),
            start as int == s@.len() - d.len(),
            !over ==> acc as int == decimal(d.take(i - start)),
            over ==> decimal(d.take(i - start)) > usize::MAX,
            forall|j: int| 0 <= j < i - start ==> is_digit(#[trigger] d[j]),
        decreases n - i,
    {
        let c = s[i];
        if !('0' <= c && c <= '9') {
            assert(!is_digit(d[i - start]));
            return None;
        }
        assert(d.take(i - start + 1).drop_last() =~= d.take(i - start));
        let v = (c as u32 - '0' as u32) as usize;
        if !over {
            if acc > (usize::MAX - v) / 10 {
                over = true;
            } else {
                acc = acc * 10 + v;
            }
        }
        i = i + 1;
    }
    assert(d.take(n - start) =~= d);
    if over {
        None
    } else {
        Some(acc)
    }
}

/// Entry ranges, each with both bounds included.
pub struct Ranges(pub Vec<RangeInclusive<usize>>);

impl Ranges {
    /// The bounds of each range, in order.
    pub open spec fn bounds(&self) -> Seq<(usize, usize)> {
        self.0@.map_values(|r: RangeInclusive<usize>| (r@.start, r@.end))
    }

    /// Parses comma-separated pieces, each a number `n` (the range `n-n`) or
    /// two numbers `a-b`. A piece with more than one `-`, or a bound that is
    /// not a number, refuses the whole text.
    pub fn from_str(s: &str) -> (r: Result<Ranges, RangesError>)
        ensures
            r is Ok <==> parse_ranges(s@) is Ok,
            r is Ok ==> r->Ok_0.bounds() == parse_ranges(s@)->Ok_0,
            r is Err ==> parse_ranges(s@) == Err::<Seq<(usize, usize)>, RangesError>(r->Err_0),
    {
        let cs = chars_of(s);
        let pieces = split_chars(&cs, ',');
        let ghost ps = split_on(s@, ',');
        let mut ranges: Vec<RangeInclusive<usize>> = Vec::new();
        let mut i: usize = 0;
        while i < pieces.len()
            invariant
                cs@ == s@,
                ps == split_on(s@, ','),
                pieces@.len() == ps.len(),
                forall|j: int| 0 <= j < pieces@.len() ==> (#[trigger] pieces@[j])@ == ps[j],
                i <= pieces@.len(),
                parse_pieces(ps.take(i as int)) is Ok,
                ranges@.map_values(|r: RangeInclusive<usize>| (r@.start, r@.end))
                    == parse_pieces(ps.take(i as int))->Ok_0,
            decreases pieces@.len() - i,
        {
            let piece = &pieces[i];
            assert(ps.take(i + 1).drop_last() =~= ps.take(i as int));
            assert(ps.take(i + 1).last() == piece@);
            let parts = split_chars(piece, '-');
            let bound: (usize, usize);
            if parts.len() == 1 {
                proof {
                    lemma_split_single(piece@, '-');
                }
                match parse_usize(piece) {
                    Some(v) => {
                        bound = (v, v);
                    },
                    None => {
                        proof {
                            assert(parse_number(piece@) is None);
                            assert(parse_piece(piece@) is Err);
                            assert(parse_pieces(ps.take(i + 1)) is Err);
                            lemma_error_prefix(ps, i + 1);
                        }
                        return Err(RangesError::InvalidNumber);
                    },
                }
            } else if parts.len() != 2 {
                proof {
                    lemma_error_prefix(ps, i + 1);
                }
                return Err(RangesError::TooManyDashes);
            } else {
                let a = parse_usize(&parts[0]);
                let b = parse_usize(&parts[1]);
                match (a, b) {
                    (Some(x), Some(y)) => {
                        bound = (x, y);
                    },
                    _ => {
                        proof {
                            assert(parts@[0]@ == split_on(piece@, '-')[0]);
                            assert(parts@[1]@ == split_on(piece@, '-')[1]);
                            lemma_error_prefix(ps, i + 1);
                        }
                        return Err(RangesError::InvalidNumber);
                    },
                }
            }
            let ghost before = ranges@;
            ranges.push(RangeInclusive::new(bound.0, bound.1));
            assert(ranges@.map_values(|r: RangeInclusive<usize>| (r@.start, r@.end)) =~= before.map_values(
                |r: RangeInclusive<usize>| (r@.start, r@.end),
            ).push(bound));
            i = i + 1;
        }
        assert(ps.take(i as int) =~= ps);
        Ok(Ranges(ranges))
    }

    /// Every entry number the ranges cover, range after range, in order.
    pub fn chain(&self) -> (r: Vec<usize>)
        ensures
            r@ == self.bounds().map_values(|b: (usize, usize)| span(b.0, b.1)).flatten(),
    {
        let mut out: Vec<usize> = Vec::new();
        let mut k: usize = 0;
        let ghost spans = self.bounds().map_values(|b: (usize, usize)| span(b.0, b.1));
        while k < self.0.len()
            invariant
                k <= self.0@.len(),
                spans == self.bounds().map_values(|b: (usize, usize)| span(b.0, b.1)),
                out@ == spans.take(k as int).flatten(),
            decreases self.0@.len() - k,
        {
            let a = *self.0[k].start();
            let b = *self.0[k].end();
            let ghost base = out@;
            assert(spans[k as int] == span(a, b));
            if a <= b {
                let mut x: usize = a;
                loop
                    invariant_except_break
                        a <= x <= b,
                        out@ == base + span(a, b).take(x - a),
                    ensures
                        out@ == base + span(a, b),
                    decreases b - x,
                {
                    out.push(x);
                    assert(span(a, b).take(x - a + 1) =~= span(a, b).take(x - a).push(x));
                    if x == b {
                        assert(span(a, b).take(b - a + 1) =~= span(a, b));
                        break;
                    }
                    x = x + 1;
                }
            } else {
                assert(out@ =~= base + span(a, b));
            }
            proof {
                assert(spans.take(k + 1).drop_last() =~= spans.take(k as int));
                spans.take(k as int).lemma_flatten_push(spans[k as int]);
                assert(spans.take(k as int).push(spans[k as int]) =~= spans.take(k + 1));
            }
            k = k + 1;
        }
        assert(spans.take(k as int) =~= spans);
        out
    }
}

} // verus!
