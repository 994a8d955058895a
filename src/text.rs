//! Reading program text: characters, lines, words and coordinates.

use vstd::prelude::*;
use vstd::string::*;

verus! {

/// The characters Unicode calls white space.
pub open spec fn is_white_space(c: char) -> bool {
    let u = c as u32;
    ||| 0x09 <= u <= 0x0D
    ||| u == 0x20
    ||| u == 0x85
    ||| u == 0xA0
    ||| u == 0x1680
    ||| 0x2000 <= u <= 0x200A
    ||| u == 0x2028
    ||| u == 0x2029
    ||| u == 0x202F
    ||| u == 0x205F
    ||| u == 0x3000
}

pub fn white_space(c: char) -> (r: bool)
    ensures
        r == is_white_space(c),
{
    let u = c as u32;
    (0x09 <= u && u <= 0x0D) || u == 0x20 || u == 0x85 || u == 0xA0 || u == 0x1680 || (0x2000 <= u
        && u <= 0x200A) || u == 0x2028 || u == 0x2029 || u == 0x202F || u == 0x205F || u == 0x3000
}

/// The index of the first `c` in `s`, or its length when there is none.
pub open spec fn first_of(s: Seq<char>, c: char) -> nat
    decreases s.len(),
{
    if s.len() == 0 || s[0] == c {
        0
    } else {
        1 + first_of(s.drop_first(), c)
    }
}

/// The index of the first white space in `s`, or its length.
pub open spec fn first_space(s: Seq<char>) -> nat
    decreases s.len(),
{
    if s.len() == 0 || is_white_space(s[0]) {
        0
    } else {
        1 + first_space(s.drop_first())
    }
}

/// What comes before the first `#`.
pub open spec fn before_hash(s: Seq<char>) -> Seq<char> {
    s.subrange(0, first_of(s, '#') as int)
}

/// A line without the carriage return that may end it.
pub open spec fn without_cr(line: Seq<char>) -> Seq<char> {
    if line.len() > 0 && line.last() == '\r' {
        line.drop_last()
    } else {
        line
    }
}

/// The lines of a text: split at each line feed, each without the carriage
/// return that may stand before that line feed; a line feed at the very end
/// starts no new line.
pub open spec fn lines(s: Seq<char>) -> Seq<Seq<char>>
    decreases s.len(),
{
    if s.len() == 0 {
        Seq::empty()
    } else if first_of(s, '\n') < s.len() {
        let k = first_of(s, '\n') as int;
        seq![without_cr(s.subrange(0, k))] + lines(s.subrange(k + 1, s.len() as int))
    } else {
        seq![s]
    }
}

/// The maximal runs of characters other than white space.
pub open spec fn words(s: Seq<char>) -> Seq<Seq<char>>
    decreases s.len(),
{
    if s.len() == 0 {
        Seq::empty()
    } else if is_white_space(s[0]) {
        words(s.drop_first())
    } else {
        let k = first_space(s) as int;
        if 0 < k <= s.len() {
            seq![s.subrange(0, k)] + words(s.subrange(k, s.len() as int))
        } else {
            Seq::empty()
        }
    }
}

pub proof fn lemma_first_of_bounds(s: Seq<char>, c: char)
    ensures
        first_of(s, c) <= s.len(),
        first_of(s, c) < s.len() ==> s[first_of(s, c) as int] == c,
        forall|i: int| 0 <= i < first_of(s, c) ==> s[i] != c,
    decreases s.len(),
{
    if s.len() > 0 && s[0] != c {
        lemma_first_of_bounds(s.drop_first(), c);
        assert forall|i: int| 0 <= i < first_of(s, c) implies s[i] != c by {
            if i > 0 {
                assert(s[i] == s.drop_first()[i - 1]);
            }
        }
    }
}

pub proof fn lemma_first_space_bounds(s: Seq<char>)
    ensures
        first_space(s) <= s.len(),
        s.len() > 0 && !is_white_space(s[0]) ==> first_space(s) > 0,
    decreases s.len(),
{
    if s.len() > 0 && !is_white_space(s[0]) {
        lemma_first_space_bounds(s.drop_first());
    }
}

/// The position of the first `c` in `s[from..to]`, or `to`.
pub fn find(s: &Vec<char>, from: usize, to: usize, c: char) -> (r: usize)
    requires
        from <= to <= s@.len(),
    ensures
        r == from + first_of(s@.subrange(from as int, to as int), c),
        from <= r <= to,
{
    let mut j = from;
    while j < to && s[j] != c
        invariant
            from <= j <= to <= s@.len(),
            first_of(s@.subrange(from as int, to as int), c) == (j - from) + first_of(
                s@.subrange(j as int, to as int),
                c,
            ),
        decreases to - j,
    {
        assert(s@.subrange(j as int, to as int).drop_first() =~= s@.subrange(j + 1, to as int));
        j += 1;
    }
    j
}

/// The position of the first white space in `s[from..to]`, or `to`.
pub fn find_space(s: &Vec<char>, from: usize, to: usize) -> (r: usize)
    requires
        from <= to <= s@.len(),
    ensures
        r == from + first_space(s@.subrange(from as int, to as int)),
        from <= r <= to,
{
    let mut j = from;
    while j < to && !white_space(s[j])
        invariant
            from <= j <= to <= s@.len(),
            first_space(s@.subrange(from as int, to as int)) == (j - from) + first_space(
                s@.subrange(j as int, to as int),
            ),
        decreases to - j,
    {
        assert(s@.subrange(j as int, to as int).drop_first() =~= s@.subrange(j + 1, to as int));
        j += 1;
    }
    j
}

/// The characters of a string.
pub fn to_chars(s: &str) -> (r: Vec<char>)
    ensures
        r@ == s@,
{
    let mut r: Vec<char> = Vec::new();
    for c in it: s.chars()
        invariant
            r@ == it.seq().subrange(0, it.index()),
    {
        r.push(c);
    }
    assert(r@ =~= s@);
    r
}

/// `s[range.0..range.1]`, for a range within `s`.
pub open spec fn slice(s: Seq<char>, range: (usize, usize)) -> Seq<char> {
    s.subrange(range.0 as int, range.1 as int)
}

pub open spec fn ranges_within(ranges: Seq<(usize, usize)>, len: nat) -> bool {
    forall|i: int| 0 <= i < ranges.len() ==> #[trigger] ranges[i].0 <= ranges[i].1 <= len
}

/// Where the lines of `s` lie in it.
pub fn line_ranges(s: &Vec<char>) -> (r: Vec<(usize, usize)>)
    ensures
        ranges_within(r@, s@.len()),
        r@.len() == lines(s@).len(),
        forall|i: int| 0 <= i < r@.len() ==> #[trigger] slice(s@, r@[i]) == lines(s@)[i],
{
    let n = s.len();
    let mut r: Vec<(usize, usize)> = Vec::new();
    let mut start: usize = 0;
    let ghost done: Seq<Seq<char>> = Seq::empty();
    proof {
        assert(s@.subrange(0, n as int) =~= s@);
        assert(done + lines(s@) =~= lines(s@));
    }
    while start < n
        invariant
            n == s@.len(),
            start <= n,
            ranges_within(r@, n as nat),
            r@.len() == done.len(),
            forall|i: int| 0 <= i < r@.len() ==> #[trigger] slice(s@, r@[i]) == done[i],
            lines(s@) == done + lines(s@.subrange(start as int, n as int)),
        decreases n - start,
    {
        let ghost rest = s@.subrange(start as int, n as int);
        let end = find(s, start, n, '\n');
        proof {
            lemma_first_of_bounds(rest, '\n');
        }
        let mut line_end = end;
        if end < n && line_end > start && s[line_end - 1] == '\r' {
            line_end -= 1;
        }
        proof {
            let k = first_of(rest, '\n') as int;
            assert(rest.subrange(0, k) =~= s@.subrange(start as int, end as int));
            if end < n {
                assert(slice(s@, (start, line_end)) =~= without_cr(rest.subrange(0, k)));
                assert(rest.subrange(k + 1, rest.len() as int) =~= s@.subrange(end + 1, n as int));
                done = done.push(without_cr(rest.subrange(0, k)));
            } else {
                assert(rest.subrange(0, k) =~= rest);
                assert(slice(s@, (start, line_end)) =~= rest);
                assert(s@.subrange(n as int, n as int) =~= Seq::<char>::empty());
                done = done.push(rest);
            }
        }
        r.push((start, line_end));
        start = if end < n { end + 1 } else { n };
    }
    proof {
        assert(s@.subrange(start as int, n as int) =~= Seq::<char>::empty());
        assert(done + Seq::<Seq<char>>::empty() =~= done);
    }
    r
}

/// Where the words of `s[from..to]` lie in `s`.
pub fn word_ranges(s: &Vec<char>, from: usize, to: usize) -> (r: Vec<(usize, usize)>)
    requires
        from <= to <= s@.len(),
    ensures
        ranges_within(r@, s@.len()),
        r@.len() == words(s@.subrange(from as int, to as int)).len(),
        forall|i: int| 0 <= i < r@.len() ==> #[trigger] slice(s@, r@[i]) == words(s@.subrange(from as int, to as int))[i],
{
    let mut r: Vec<(usize, usize)> = Vec::new();
    let mut i = from;
    let ghost done: Seq<Seq<char>> = Seq::empty();
    while i < to
        invariant
            from <= i <= to <= s@.len(),
            ranges_within(r@, s@.len()),
            r@.len() == done.len(),
            forall|k: int| 0 <= k < r@.len() ==> #[trigger] slice(s@, r@[k]) == done[k],
            words(s@.subrange(from as int, to as int)) == done + words(s@.subrange(i as int, to as int)),
        decreases to - i,
    {
        let ghost rest = s@.subrange(i as int, to as int);
        if white_space(s[i]) {
            assert(rest.drop_first() =~= s@.subrange(i + 1, to as int));
            i += 1;
        } else {
            let end = find_space(s, i, to);
            proof {
                lemma_first_space_bounds(rest);
                let k = first_space(rest) as int;
                assert(rest.subrange(0, k) =~= s@.subrange(i as int, end as int));
                assert(rest.subrange(k, rest.len() as int) =~= s@.subrange(end as int, to as int));
                done = done.push(rest.subrange(0, k));
            }
            r.push((i, end));
            i = end;
        }
    }
    proof {
        assert(s@.subrange(i as int, to as int) =~= Seq::<char>::empty());
        assert(done + Seq::<Seq<char>>::empty() =~= done);
    }
    r
}

/// The value of a string of decimal digits.
pub open spec fn digits_value(s: Seq<char>) -> nat
    decreases s.len(),
{
    if s.len() == 0 {
        0
    } else {
        digits_value(s.drop_last()) * 10 + ((s.last() as u32 - '0' as u32) as nat)
    }
}

pub open spec fn is_digit(c: char) -> bool {
    '0' <= c <= '9'
}

pub open spec fn all_digits(s: Seq<char>) -> bool {
    forall|i: int| 0 <= i < s.len() ==> is_digit(#[trigger] s[i])
}

/// A coordinate written in decimal, with an optional `+`, as Rust reads a
/// `usize`: `None` when the text is no such number or does not fit.
pub open spec fn coordinate_value(s: Seq<char>) -> Option<usize> {
    let digits = if s.len() > 0 && s[0] == '+' {
        s.drop_first()
    } else {
        s
    };
    if digits.len() > 0 && all_digits(digits) && digits_value(digits) <= usize::MAX {
        Some(digits_value(digits) as usize)
    } else {
        None
    }
}

pub proof fn lemma_digits_value_grows(s: Seq<char>, t: Seq<char>)
    requires
        all_digits(s + t),
    ensures
        digits_value(s + t) >= digits_value(s),
    decreases t.len(),
{
    if t.len() > 0 {
        assert((s + t).drop_last() =~= s + t.drop_last());
        assert forall|i: int| 0 <= i < (s + t.drop_last()).len() implies is_digit(#[trigger] (s + t.drop_last())[i]) by {
            assert((s + t.drop_last())[i] == (s + t)[i]);
        }
        lemma_digits_value_grows(s, t.drop_last());
    } else {
        assert(s + t =~= s);
    }
}

/// The value of the digits `s[from..to]`, if they are all digits and the
/// value fits.
fn digits_in(s: &Vec<char>, from: usize, to: usize) -> (r: Option<usize>)
    requires
        from <= to <= s@.len(),
    ensures
        r == (if all_digits(s@.subrange(from as int, to as int)) && digits_value(
            s@.subrange(from as int, to as int),
        ) <= usize::MAX {
            Some(digits_value(s@.subrange(from as int, to as int)) as usize)
        } else {
            None::<usize>
        }),
{
    let ghost digits = s@.subrange(from as int, to as int);
    let mut i = from;
    let mut value: usize = 0;
    while i < to
        invariant
            from <= i <= to <= s@.len(),
            digits == s@.subrange(from as int, to as int),
            all_digits(s@.subrange(from as int, i as int)),
            value == digits_value(s@.subrange(from as int, i as int)),
        decreases to - i,
    {
        let c = s[i];
        let ghost prefix = s@.subrange(from as int, i as int + 1);
        proof {
            assert(prefix.drop_last() =~= s@.subrange(from as int, i as int));
            assert(digits[i - from] == c);
        }
        if c < '0' || c > '9' {
            return None;
        }
        let digit = (c as u32 - '0' as u32) as usize;
        proof {
            assert(prefix.last() == c);
            assert(digits_value(prefix) == value * 10 + digit);
            assert forall|k: int| 0 <= k < prefix.len() implies is_digit(#[trigger] prefix[k]) by {
                if k < prefix.len() - 1 {
                    assert(prefix[k] == s@.subrange(from as int, i as int)[k]);
                }
            }
        }
        if value > (usize::MAX - digit) / 10 {
            proof {
                assert(value * 10 + digit > usize::MAX) by (nonlinear_arith)
                    requires
                        value > (usize::MAX - digit) / 10,
                        digit <= 9,
                ;
                if all_digits(digits) {
                    assert(digits =~= prefix + s@.subrange(i as int + 1, to as int));
                    lemma_digits_value_grows(prefix, s@.subrange(i as int + 1, to as int));
                }
            }
            return None;
        }
        proof {
            assert(value * 10 + digit <= usize::MAX) by (nonlinear_arith)
                requires
                    value <= (usize::MAX - digit) / 10,
                    digit <= 9,
            ;
        }
        value = value * 10 + digit;
        i += 1;
    }
    proof {
        assert(s@.subrange(from as int, i as int) =~= digits);
    }
    Some(value)
}

/// Reads `s[from..to]` as a coordinate.
pub fn parse_coordinate(s: &Vec<char>, from: usize, to: usize) -> (r: Option<usize>)
    requires
        from <= to <= s@.len(),
    ensures
        r == coordinate_value(s@.subrange(from as int, to as int)),
{
    let ghost text = s@.subrange(from as int, to as int);
    let mut i = from;
    if i < to && s[i] == '+' {
        i += 1;
    }
    proof {
        if from < to && s@[from as int] == '+' {
            assert(s@.subrange(i as int, to as int) =~= text.drop_first());
        } else {
            assert(s@.subrange(i as int, to as int) =~= text);
        }
    }
    if i == to {
        return None;
    }
    digits_in(s, i, to)
}

} // verus!
