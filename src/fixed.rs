//! Loading a program into grids whose sizes are fixed by their types.
//!
//! The text format is that of [`crate::load`]. The instruction grid is
//! `WIDTH` by `HEIGHT`; each stack holds at most `STACK_CAPACITY` values and
//! drops its oldest when more are pushed. Numbers are read with
//! `try_parse_n`, and stack coordinates are numbers turned into indices by
//! `try_usize_from_n`.

use vstd::prelude::*;
use vstd::string::*;

use crate::{
    instruction::{decoded, Instruction, IntoInstructionError},
    load::{
        all_decode, is_comment, is_stack_line, lemma_program_rows_prefix, lemma_stack_lines_prefix, parsed_all,
        parses_to, program_rows, row_text, stack_lines, stack_values, stack_words,
    },
    machine::{self, coarse_length},
    number::Number,
    plane::{in_bounds, ArrayPlane, Plane},
    stack::{pushed_all, ArrayStack, Stack},
    text::{find, lines, line_ranges, slice, to_chars, word_ranges},
    Pointer,
};

verus! {

#[derive(Debug)]
pub enum Error<ParseNError, NToUsizeError> {
    /// A character of a row stands for no instruction.
    InvalidInstruction(IntoInstructionError),
    /// An instruction past the grid: the width or row it needs, and the
    /// character.
    InstructionOutOfRange(Pointer, char),
    /// A number failed to parse.
    InvalidNumber(ParseNError),
    /// A coordinate failed to convert to an index.
    InvalidCoordinate(NToUsizeError),
    /// A stack cell outside the stack plane.
    StackPointerOutOfRange(Pointer),
    /// A stack line with fewer than two coordinates.
    MissingStackPointer,
}

/// The machine a program builds into.
pub type Machine<N, const WIDTH: usize, const HEIGHT: usize, const STACK_CAPACITY: usize, const STACK_WIDTH: usize, const STACK_HEIGHT: usize> =
    machine::Machine<
    N,
    ArrayPlane<WIDTH, HEIGHT, Instruction>,
    ArrayStack<STACK_CAPACITY, N>,
    ArrayPlane<STACK_WIDTH, STACK_HEIGHT, ArrayStack<STACK_CAPACITY, N>>,
>;

/// `f` and then `g` may turn a string holding `text` into the index `index`.
pub open spec fn converts_to<N, E1, E2, F: Fn(&str) -> Result<N, E1>, G: Fn(N) -> Result<usize, E2>>(
    f: F,
    g: G,
    text: Seq<char>,
    index: usize,
) -> bool {
    exists|n: N| #[trigger] parses_to(f, text, Ok::<N, E1>(n)) && call_ensures(g, (n,), Ok::<usize, E2>(index))
}

/// `declaration` is what the stack line `line` declares: its cell, and its
/// values as parsed.
pub open spec fn declares<N, E1, E2, F: Fn(&str) -> Result<N, E1>, G: Fn(N) -> Result<usize, E2>>(
    f: F,
    g: G,
    line: Seq<char>,
    declaration: (usize, usize, Seq<N>),
) -> bool {
    &&& stack_words(line).len() >= 2
    &&& converts_to(f, g, stack_words(line)[0], declaration.0)
    &&& converts_to(f, g, stack_words(line)[1], declaration.1)
    &&& parsed_all(f, stack_values(line), declaration.2)
}

pub open spec fn declares_all<N, E1, E2, F: Fn(&str) -> Result<N, E1>, G: Fn(N) -> Result<usize, E2>>(
    f: F,
    g: G,
    lines: Seq<Seq<char>>,
    declarations: Seq<(usize, usize, Seq<N>)>,
) -> bool {
    &&& declarations.len() == lines.len()
    &&& forall|i: int| 0 <= i < lines.len() ==> declares(f, g, #[trigger] lines[i], declarations[i])
}

/// The values a stack of type `S` at `(x, y)` holds after the declarations,
/// starting empty.
pub open spec fn declared_items<S: Stack>(declarations: Seq<(usize, usize, Seq<S::Item>)>, x: int, y: int) -> Seq<S::Item>
    decreases declarations.len(),
{
    if declarations.len() == 0 {
        Seq::empty()
    } else {
        let before = declared_items::<S>(declarations.drop_last(), x, y);
        let last = declarations.last();
        if last.0 == x && last.1 == y {
            pushed_all::<S>(before, last.2)
        } else {
            before
        }
    }
}

/// `f` failed with `e` on a word of the stack line `line`.
pub open spec fn number_fails<N, E, F: Fn(&str) -> Result<N, E>>(f: F, line: Seq<char>, e: E) -> bool {
    exists|k: int| 0 <= k < stack_words(line).len() && #[trigger] parses_to(f, stack_words(line)[k], Err::<N, E>(e))
}

/// One of the two coordinates of the stack line `line` parsed, and `g`
/// failed with `e` to turn it into an index.
pub open spec fn coordinate_fails<N, E1, E2, F: Fn(&str) -> Result<N, E1>, G: Fn(N) -> Result<usize, E2>>(
    f: F,
    g: G,
    line: Seq<char>,
    e: E2,
) -> bool {
    exists|k: int, n: N|
        0 <= k < 2 && k < stack_words(line).len() && #[trigger] parses_to(f, stack_words(line)[k], Ok::<N, E1>(n))
            && call_ensures(g, (n,), Err::<usize, E2>(e))
}

/// A row that decodes and, unless empty, fits row `y` of a `width` by
/// `height` grid.
pub open spec fn row_fits(row: Seq<char>, y: int, width: nat, height: nat) -> bool {
    &&& all_decode(row)
    &&& row.len() > 0 ==> 0 <= y < height && row.len() <= width
}

/// `row[k]` is the first character of row `y` that stands for no
/// instruction or falls outside the grid.
pub open spec fn row_fault_at(row: Seq<char>, y: int, width: nat, height: nat, k: int) -> bool {
    &&& 0 <= k < row.len()
    &&& decoded(row[k]) is None || !(k < width && y < height)
    &&& forall|j: int| 0 <= j < k ==> (#[trigger] decoded(row[j])) is Some && j < width && y < height
}

/// The error for the fault at `row[k]` in row `y`.
pub open spec fn row_error<E1, E2>(row: Seq<char>, y: usize, k: int) -> Error<E1, E2> {
    if decoded(row[k]) is None {
        Error::InvalidInstruction(IntoInstructionError::UnknownChar(row[k]))
    } else {
        Error::InstructionOutOfRange(((k + 1) as usize, y), row[k])
    }
}

/// The instruction at `(x, y)` of a grid holding `rows`: blank where no row
/// reaches.
pub open spec fn grid_cell(rows: Seq<Seq<char>>, x: int, y: int) -> Instruction {
    if y < rows.len() && x < rows[y].len() {
        decoded(rows[y][x])->Some_0
    } else {
        Instruction::Space
    }
}

pub open spec fn stacks_wf<const SW: usize, const SH: usize, const CAP: usize, N: Number>(
    stacks: ArrayPlane<SW, SH, ArrayStack<CAP, N>>,
) -> bool {
    &&& stacks.wf()
    &&& forall|x: int, y: int| 0 <= x < SW && 0 <= y < SH ==> (#[trigger] stacks.cell(x, y)).wf()
}

/// Writes the row `chars[..end]` into row `y` of the grid.
fn place_row<const WIDTH: usize, const HEIGHT: usize, ParseNError, NToUsizeError>(
    chars: &Vec<char>,
    end: usize,
    y: usize,
    instructions: &mut ArrayPlane<WIDTH, HEIGHT, Instruction>,
) -> (r: Result<(), Error<ParseNError, NToUsizeError>>)
    requires
        end <= chars@.len(),
        old(instructions).wf(),
    ensures
        final(instructions).wf(),
        row_fits(chars@.subrange(0, end as int), y as int, WIDTH as nat, HEIGHT as nat) ==> r is Ok && forall|x: int, yy: int|
            0 <= x < WIDTH && 0 <= yy < HEIGHT ==> #[trigger] final(instructions).cell(x, yy) == if yy == y && x < end {
                decoded(chars@[x])->Some_0
            } else {
                old(instructions).cell(x, yy)
            },
        !row_fits(chars@.subrange(0, end as int), y as int, WIDTH as nat, HEIGHT as nat) ==> exists|k: int|
            row_fault_at(chars@.subrange(0, end as int), y as int, WIDTH as nat, HEIGHT as nat, k) && r == Err::<
                (),
                Error<ParseNError, NToUsizeError>,
            >(row_error(chars@.subrange(0, end as int), y, k)),
{
    let ghost row = chars@.subrange(0, end as int);
    let ghost start = *instructions;
    let mut x: usize = 0;
    while x < end
        invariant
            x <= end <= chars@.len(),
            row == chars@.subrange(0, end as int),
            instructions.wf(),
            forall|j: int| 0 <= j < x ==> (#[trigger] decoded(row[j])) is Some && j < WIDTH && y < HEIGHT,
            forall|xx: int, yy: int|
                0 <= xx < WIDTH && 0 <= yy < HEIGHT ==> #[trigger] instructions.cell(xx, yy) == if yy == y && xx < x {
                    decoded(chars@[xx])->Some_0
                } else {
                    start.cell(xx, yy)
                },
        decreases end - x,
    {
        let c = chars[x];
        assert(row[x as int] == c);
        match instructions.get_mut((x, y)) {
            None => {
                proof {
                    assert(row_fault_at(row, y as int, WIDTH as nat, HEIGHT as nat, x as int));
                }
                match Instruction::from_char(c) {
                    Err(e) => {
                        let r = Err(Error::InvalidInstruction(e));
                        assert(r == Err::<(), Error<ParseNError, NToUsizeError>>(row_error(row, y, x as int)));
                        return r;
                    },
                    Ok(_) => {
                        let r = Err(Error::InstructionOutOfRange((x + 1, y), c));
                        assert(r == Err::<(), Error<ParseNError, NToUsizeError>>(row_error(row, y, x as int)));
                        return r;
                    },
                }
            },
            Some(cell) => match Instruction::from_char(c) {
                Ok(instruction) => {
                    *cell = instruction;
                },
                Err(e) => {
                    proof {
                        assert(row_fault_at(row, y as int, WIDTH as nat, HEIGHT as nat, x as int));
                    }
                    let r = Err(Error::InvalidInstruction(e));
                    assert(r == Err::<(), Error<ParseNError, NToUsizeError>>(row_error(row, y, x as int)));
                    return r;
                },
            },
        }
        x += 1;
    }
    proof {
        if end > 0 {
            assert(decoded(row[0]) is Some && 0 < WIDTH && y < HEIGHT);
            assert(decoded(row[end - 1]) is Some && end - 1 < WIDTH);
        }
    }
    Ok(())
}

/// `after` is `before` with `values` pushed onto the stack at `(x, y)`.
pub open spec fn pushed_at<const SW: usize, const SH: usize, const CAP: usize, N: Number>(
    before: ArrayPlane<SW, SH, ArrayStack<CAP, N>>,
    after: ArrayPlane<SW, SH, ArrayStack<CAP, N>>,
    x: int,
    y: int,
    values: Seq<N>,
) -> bool {
    forall|xx: int, yy: int|
        0 <= xx < SW && 0 <= yy < SH ==> (#[trigger] after.cell(xx, yy)).items() == if xx == x && yy == y {
            pushed_all::<ArrayStack<CAP, N>>(before.cell(xx, yy).items(), values)
        } else {
            before.cell(xx, yy).items()
        }
}

/// Runs the stack line whose words lie at `ranges`: the first two words give
/// the cell, and the values are pushed onto its stack as they are read.
#[verifier::loop_isolation(false)]
fn run_stack_line<
    N: Number,
    const SW: usize,
    const SH: usize,
    const CAP: usize,
    ParseNError,
    NToUsizeError,
    F: Fn(&str) -> Result<N, ParseNError>,
    G: Fn(N) -> Result<usize, NToUsizeError>,
>(
    line: &str,
    ranges: &Vec<(usize, usize)>,
    stacks: &mut ArrayPlane<SW, SH, ArrayStack<CAP, N>>,
    try_parse_n: &F,
    try_usize_from_n: &G,
) -> (r: Result<(), Error<ParseNError, NToUsizeError>>)
    requires
        forall|t: &str| call_requires(*try_parse_n, (t,)),
        forall|n: N| call_requires(*try_usize_from_n, (n,)),
        crate::text::ranges_within(ranges@, line@.len()),
        stacks_wf(*old(stacks)),
    ensures
        stacks_wf(*final(stacks)),
        r is Ok ==> ranges@.len() >= 2 && exists|d: (usize, usize, Seq<N>)| {
            &&& converts_to(*try_parse_n, *try_usize_from_n, slice(line@, ranges@[0]), d.0)
            &&& converts_to(*try_parse_n, *try_usize_from_n, slice(line@, ranges@[1]), d.1)
            &&& parsed_all(*try_parse_n, crate::load::slices(line@, ranges@.subrange(2, ranges@.len() as int)), d.2)
            &&& in_bounds(SW as nat, SH as nat, (d.0, d.1))
            &&& pushed_at(*old(stacks), *final(stacks), d.0 as int, d.1 as int, d.2)
        },
        ranges@.len() < 2 ==> r is Err,
        ranges@.len() >= 2 ==> !(r matches Err(Error::MissingStackPointer)),
        r is Err ==> !(r matches Err(Error::InvalidInstruction(_))) && !(r matches Err(Error::InstructionOutOfRange(_, _))),
        r matches Err(Error::StackPointerOutOfRange(p)) ==> ranges@.len() >= 2 && !in_bounds(SW as nat, SH as nat, p) && converts_to(
            *try_parse_n,
            *try_usize_from_n,
            slice(line@, ranges@[0]),
            p.0,
        ) && converts_to(*try_parse_n, *try_usize_from_n, slice(line@, ranges@[1]), p.1),
        r matches Err(Error::InvalidNumber(e)) ==> exists|k: int|
            0 <= k < ranges@.len() && #[trigger] parses_to(*try_parse_n, slice(line@, ranges@[k]), Err::<N, ParseNError>(e)),
        r matches Err(Error::InvalidCoordinate(e)) ==> exists|k: int, n: N|
            0 <= k < 2 && k < ranges@.len() && #[trigger] parses_to(*try_parse_n, slice(line@, ranges@[k]), Ok::<N, ParseNError>(n))
                && call_ensures(*try_usize_from_n, (n,), Err::<usize, NToUsizeError>(e)),
{
    let ghost start = *stacks;
    let ghost texts = crate::load::slices(line@, ranges@.subrange(2, ranges@.len() as int));
    let ghost mut values: Seq<N> = Seq::empty();
    let mut x: usize = 0;
    let mut y: usize = 0;
    let mut k: usize = 0;
    while k < ranges.len()
        invariant
            k <= ranges@.len(),
            stacks_wf(*stacks),
            k >= 1 ==> converts_to(*try_parse_n, *try_usize_from_n, slice(line@, ranges@[0]), x),
            k >= 2 ==> converts_to(*try_parse_n, *try_usize_from_n, slice(line@, ranges@[1]), y),
            k >= 2 ==> in_bounds(SW as nat, SH as nat, (x, y)),
            k >= 2 ==> values.len() == k - 2 && forall|i: int| 0 <= i < k - 2 ==> parses_to(*try_parse_n, texts[i], Ok::<N, ParseNError>(#[trigger] values[i])),
            k >= 2 ==> pushed_at(start, *stacks, x as int, y as int, values),
            k < 2 ==> *stacks == start && values == Seq::<N>::empty(),
            texts == crate::load::slices(line@, ranges@.subrange(2, ranges@.len() as int)),
        decreases ranges@.len() - k,
    {
        let (from, to) = ranges[k];
        assert(ranges@[k as int].0 <= ranges@[k as int].1 <= line@.len());
        let text = line.substring_char(from, to);
        let n = match try_parse_n(text) {
            Ok(n) => n,
            Err(e) => {
                assert(parses_to(*try_parse_n, slice(line@, ranges@[k as int]), Err::<N, ParseNError>(e)));
                let r = Err(Error::InvalidNumber(e));
                assert(r->Err_0->InvalidNumber_0 == e);
                return r;
            },
        };
        assert(parses_to(*try_parse_n, slice(line@, ranges@[k as int]), Ok::<N, ParseNError>(n)));
        if k == 0 {
            x = match try_usize_from_n(n) {
                Ok(v) => v,
                Err(e) => {
                    let r = Err(Error::InvalidCoordinate(e));
                    assert(r->Err_0->InvalidCoordinate_0 == e);
                    return r;
                },
            };
        } else if k == 1 {
            y = match try_usize_from_n(n) {
                Ok(v) => v,
                Err(e) => {
                    let r = Err(Error::InvalidCoordinate(e));
                    assert(r->Err_0->InvalidCoordinate_0 == e);
                    return r;
                },
            };
            if stacks.get((x, y)).is_none() {
                let r = Err(Error::StackPointerOutOfRange((x, y)));
                assert(r->Err_0->StackPointerOutOfRange_0 == (x, y));
                return r;
            }
            proof {
                assert(pushed_at(start, *stacks, x as int, y as int, values)) by {
                    assert forall|xx: int, yy: int| 0 <= xx < SW && 0 <= yy < SH implies (#[trigger] stacks.cell(xx, yy)).items()
                        == if xx == x && yy == y {
                        pushed_all::<ArrayStack<CAP, N>>(start.cell(xx, yy).items(), values)
                    } else {
                        start.cell(xx, yy).items()
                    } by {}
                }
            }
        } else {
            let ghost before = *stacks;
            let stack = stacks.get_mut((x, y)).unwrap();
            stack.push(n);
            proof {
                assert(texts[k - 2] == slice(line@, ranges@[k as int]));
                let new_values = values.push(n);
                assert(new_values.drop_last() =~= values);
                assert forall|xx: int, yy: int| 0 <= xx < SW && 0 <= yy < SH implies (#[trigger] stacks.cell(xx, yy)).wf() by {
                    assert(before.cell(xx, yy).wf());
                }
                assert forall|xx: int, yy: int| 0 <= xx < SW && 0 <= yy < SH implies (#[trigger] stacks.cell(xx, yy)).items()
                    == if xx == x && yy == y {
                    pushed_all::<ArrayStack<CAP, N>>(start.cell(xx, yy).items(), new_values)
                } else {
                    start.cell(xx, yy).items()
                } by {
                    assert(before.cell(xx, yy).items() == if xx == x && yy == y {
                        pushed_all::<ArrayStack<CAP, N>>(start.cell(xx, yy).items(), values)
                    } else {
                        start.cell(xx, yy).items()
                    });
                }
                values = new_values;
            }
        }
        k += 1;
    }
    if ranges.len() < 2 {
        return Err(Error::MissingStackPointer);
    }
    proof {
        assert(texts.len() == values.len());
        let d = (x, y, values);
        assert(parsed_all(*try_parse_n, texts, d.2));
        assert(pushed_at(start, *stacks, d.0 as int, d.1 as int, d.2));
    }
    Ok(())
}

/// Loads one line, writing a row into row `*y` of `instructions` (and moving
/// `y` on) or pushing declared values onto their stack.
pub fn parse_line<
    N: Number,
    const WIDTH: usize,
    const HEIGHT: usize,
    const STACK_CAPACITY: usize,
    const STACK_WIDTH: usize,
    const STACK_HEIGHT: usize,
    ParseNError,
    NToUsizeError,
    F: Fn(&str) -> Result<N, ParseNError>,
    G: Fn(N) -> Result<usize, NToUsizeError>,
>(
    line: &str,
    y: &mut usize,
    instructions: &mut ArrayPlane<WIDTH, HEIGHT, Instruction>,
    stacks: &mut ArrayPlane<STACK_WIDTH, STACK_HEIGHT, ArrayStack<STACK_CAPACITY, N>>,
    try_parse_n: &F,
    try_usize_from_n: &G,
) -> (r: Result<(), Error<ParseNError, NToUsizeError>>)
    requires
        forall|t: &str| call_requires(*try_parse_n, (t,)),
        forall|n: N| call_requires(*try_usize_from_n, (n,)),
        *old(y) < usize::MAX,
        old(instructions).wf(),
        stacks_wf(*old(stacks)),
    ensures
        final(instructions).wf(),
        stacks_wf(*final(stacks)),
        is_comment(line@) ==> r is Ok && *final(y) == *old(y) && *final(instructions) == *old(instructions)
            && *final(stacks) == *old(stacks),
        is_stack_line(line@) ==> *final(y) == *old(y) && *final(instructions) == *old(instructions),
        is_stack_line(line@) && r is Ok ==> exists|d: (usize, usize, Seq<N>)| {
            &&& declares(*try_parse_n, *try_usize_from_n, line@, d)
            &&& in_bounds(STACK_WIDTH as nat, STACK_HEIGHT as nat, (d.0, d.1))
            &&& pushed_at(*old(stacks), *final(stacks), d.0 as int, d.1 as int, d.2)
        },
        is_stack_line(line@) && stack_words(line@).len() < 2 ==> r is Err,
        is_stack_line(line@) && r is Err ==> !(r matches Err(Error::InvalidInstruction(_))) && !(r matches Err(
            Error::InstructionOutOfRange(_, _),
        )),
        is_stack_line(line@) && stack_words(line@).len() >= 2 ==> !(r matches Err(Error::MissingStackPointer)),
        r matches Err(Error::StackPointerOutOfRange(p)) ==> is_stack_line(line@) && stack_words(line@).len() >= 2
            && !in_bounds(STACK_WIDTH as nat, STACK_HEIGHT as nat, p) && converts_to(
            *try_parse_n,
            *try_usize_from_n,
            stack_words(line@)[0],
            p.0,
        ) && converts_to(*try_parse_n, *try_usize_from_n, stack_words(line@)[1], p.1),
        !is_comment(line@) && !is_stack_line(line@) ==> *final(stacks) == *old(stacks),
        !is_comment(line@) && !is_stack_line(line@) && row_fits(row_text(line@), *old(y) as int, WIDTH as nat, HEIGHT as nat)
            ==> r is Ok && *final(y) == *old(y) + 1 && forall|x: int, yy: int|
            0 <= x < WIDTH && 0 <= yy < HEIGHT ==> #[trigger] final(instructions).cell(x, yy) == if yy == *old(y) && x
                < row_text(line@).len() {
                decoded(row_text(line@)[x])->Some_0
            } else {
                old(instructions).cell(x, yy)
            },
        !is_comment(line@) && !is_stack_line(line@) && !row_fits(row_text(line@), *old(y) as int, WIDTH as nat, HEIGHT as nat)
            ==> exists|k: int|
            row_fault_at(row_text(line@), *old(y) as int, WIDTH as nat, HEIGHT as nat, k) && r == Err::<
                (),
                Error<ParseNError, NToUsizeError>,
            >(row_error(row_text(line@), *old(y), k)),
        r matches Err(Error::InvalidNumber(e)) ==> is_stack_line(line@) && number_fails(*try_parse_n, line@, e),
        r matches Err(Error::InvalidCoordinate(e)) ==> is_stack_line(line@) && coordinate_fails(
            *try_parse_n,
            *try_usize_from_n,
            line@,
            e,
        ),
{
    let chars = to_chars(line);
    let n = chars.len();
    if n > 0 && chars[0] == '#' {
        return Ok(());
    }
    if n > 0 && chars[0] == 's' {
        let end = find(&chars, 1, n, '#');
        let ranges = word_ranges(&chars, 1, end);
        proof {
            assert(chars@.subrange(1, n as int) =~= line@.drop_first());
            assert(chars@.subrange(1, end as int) =~= crate::text::before_hash(line@.drop_first()));
        }
        let r = run_stack_line(line, &ranges, stacks, try_parse_n, try_usize_from_n);
        proof {
            assert forall|k: int| 0 <= k < ranges@.len() implies #[trigger] slice(line@, ranges@[k]) == stack_words(line@)[k] by {
                assert(slice(chars@, ranges@[k]) == stack_words(line@)[k]);
            }
            if ranges@.len() >= 2 {
                assert(crate::load::slices(line@, ranges@.subrange(2, ranges@.len() as int)) =~= stack_values(line@));
                assert(slice(chars@, ranges@[0]) == stack_words(line@)[0]);
                assert(slice(chars@, ranges@[1]) == stack_words(line@)[1]);
                if r is Ok {
                    let d = choose|d: (usize, usize, Seq<N>)| {
                        &&& converts_to(*try_parse_n, *try_usize_from_n, slice(line@, ranges@[0]), d.0)
                        &&& converts_to(*try_parse_n, *try_usize_from_n, slice(line@, ranges@[1]), d.1)
                        &&& parsed_all(*try_parse_n, crate::load::slices(line@, ranges@.subrange(2, ranges@.len() as int)), d.2)
                        &&& in_bounds(STACK_WIDTH as nat, STACK_HEIGHT as nat, (d.0, d.1))
                        &&& pushed_at(*old(stacks), *stacks, d.0 as int, d.1 as int, d.2)
                    };
                    assert(declares(*try_parse_n, *try_usize_from_n, line@, d));
                }
            }
        }
        return r;
    }
    let end = find(&chars, 0, n, '#');
    proof {
        assert(chars@.subrange(0, n as int) =~= line@);
    }
    let r = place_row(&chars, end, *y, instructions);
    if r.is_ok() {
        *y = *y + 1;
    }
    r
}

/// Builds a program from its text into grids of the sizes the type gives.
#[verifier::loop_isolation(false)]
pub fn from_str<
    N: Number,
    const WIDTH: usize,
    const HEIGHT: usize,
    const STACK_CAPACITY: usize,
    const STACK_WIDTH: usize,
    const STACK_HEIGHT: usize,
    ParseNError,
    NToUsizeError,
    F: Fn(&str) -> Result<N, ParseNError>,
    G: Fn(N) -> Result<usize, NToUsizeError>,
>(source: &str, try_parse_n: &F, try_usize_from_n: &G) -> (r: Result<
    Machine<N, WIDTH, HEIGHT, STACK_CAPACITY, STACK_WIDTH, STACK_HEIGHT>,
    Error<ParseNError, NToUsizeError>,
>)
    requires
        forall|t: &str| call_requires(*try_parse_n, (t,)),
        forall|n: N| call_requires(*try_usize_from_n, (n,)),
        STACK_WIDTH == coarse_length(WIDTH as nat),
        STACK_HEIGHT == coarse_length(HEIGHT as nat),
        STACK_CAPACITY > 0,
    ensures
        r matches Ok(machine) ==> {
            let rows = program_rows(lines(source@));
            &&& machine.wf()
            &&& machine.state_spec() == crate::machine::State::Running
            &&& machine.register_spec() == N::zero_spec()
            &&& machine.pointer_spec() == (0usize, 0usize)
            &&& machine.velocity_spec() == crate::RIGHT
            &&& machine.width_spec() == WIDTH
            &&& machine.height_spec() == HEIGHT
            &&& forall|x: int, y: int|
                0 <= x < WIDTH && 0 <= y < HEIGHT ==> #[trigger] machine.instruction_at(x, y) == grid_cell(rows, x, y)
            &&& exists|declarations: Seq<(usize, usize, Seq<N>)>| {
                &&& declares_all(*try_parse_n, *try_usize_from_n, stack_lines(lines(source@)), declarations)
                &&& forall|x: int, y: int|
                    0 <= x < STACK_WIDTH && 0 <= y < STACK_HEIGHT ==> #[trigger] machine.stack_at(x, y)
                        == declared_items::<ArrayStack<STACK_CAPACITY, N>>(declarations, x, y)
            }
        },
        (forall|y: int| 0 <= y < program_rows(lines(source@)).len() ==> row_fits(
            #[trigger] program_rows(lines(source@))[y],
            y,
            WIDTH as nat,
            HEIGHT as nat,
        )) && (forall|i: int| 0 <= i < stack_lines(lines(source@)).len() ==> stack_words(
            #[trigger] stack_lines(lines(source@))[i],
        ).len() >= 2) ==> !(r matches Err(Error::InvalidInstruction(_))) && !(r matches Err(
            Error::InstructionOutOfRange(_, _),
        )) && !(r matches Err(Error::MissingStackPointer)),
        r is Ok ==> (forall|y: int| 0 <= y < program_rows(lines(source@)).len() ==> row_fits(
            #[trigger] program_rows(lines(source@))[y],
            y,
            WIDTH as nat,
            HEIGHT as nat,
        )) && (forall|i: int| 0 <= i < stack_lines(lines(source@)).len() ==> stack_words(
            #[trigger] stack_lines(lines(source@))[i],
        ).len() >= 2),
        (r matches Err(Error::InvalidInstruction(_))) || (r matches Err(Error::InstructionOutOfRange(_, _))) ==> exists|y: int|
            0 <= y < program_rows(lines(source@)).len() && !row_fits(#[trigger] program_rows(lines(source@))[y], y, WIDTH as nat, HEIGHT as nat) && exists|k: int|
                #[trigger] row_fault_at(program_rows(lines(source@))[y], y, WIDTH as nat, HEIGHT as nat, k) && r == Err::<
                    Machine<N, WIDTH, HEIGHT, STACK_CAPACITY, STACK_WIDTH, STACK_HEIGHT>,
                    Error<ParseNError, NToUsizeError>,
                >(row_error(program_rows(lines(source@))[y], y as usize, k)),
        r matches Err(Error::MissingStackPointer) ==> exists|i: int|
            0 <= i < stack_lines(lines(source@)).len() && stack_words(#[trigger] stack_lines(lines(source@))[i]).len() < 2,
        r matches Err(Error::StackPointerOutOfRange(p)) ==> !in_bounds(STACK_WIDTH as nat, STACK_HEIGHT as nat, p) && exists|i: int|
            0 <= i < stack_lines(lines(source@)).len() && converts_to(
                *try_parse_n,
                *try_usize_from_n,
                stack_words(#[trigger] stack_lines(lines(source@))[i])[0],
                p.0,
            ) && converts_to(*try_parse_n, *try_usize_from_n, stack_words(stack_lines(lines(source@))[i])[1], p.1),
        r matches Err(Error::InvalidNumber(e)) ==> exists|i: int|
            0 <= i < stack_lines(lines(source@)).len() && number_fails(*try_parse_n, #[trigger] stack_lines(lines(source@))[i], e),
        r matches Err(Error::InvalidCoordinate(e)) ==> exists|i: int|
            0 <= i < stack_lines(lines(source@)).len() && coordinate_fails(
                *try_parse_n,
                *try_usize_from_n,
                #[trigger] stack_lines(lines(source@))[i],
                e,
            ),
        (forall|y: int| 0 <= y < program_rows(lines(source@)).len() ==> row_fits(
            #[trigger] program_rows(lines(source@))[y],
            y,
            WIDTH as nat,
            HEIGHT as nat,
        )) && stack_lines(lines(source@)).len() == 0 ==> r is Ok,
{
    let chars = to_chars(source);
    let ranges = line_ranges(&chars);
    let ghost ls = lines(source@);
    let mut instructions: ArrayPlane<WIDTH, HEIGHT, Instruction> = ArrayPlane::new();
    let mut stacks: ArrayPlane<STACK_WIDTH, STACK_HEIGHT, ArrayStack<STACK_CAPACITY, N>> = ArrayPlane::filled(
        ArrayStack::new(),
    );
    let ghost mut declarations: Seq<(usize, usize, Seq<N>)> = Seq::empty();
    let mut y: usize = 0;
    proof {
        assert forall|x: int, yy: int| 0 <= x < WIDTH && 0 <= yy < HEIGHT implies #[trigger] instructions.cell(x, yy)
            == grid_cell(program_rows(ls.subrange(0, 0)), x, yy) by {
            assert(call_ensures(Instruction::default, (), instructions.cell(x, yy)));
        }
    }
    let mut i: usize = 0;
    while i < ranges.len()
        invariant
            i <= ranges@.len(),
            y == program_rows(ls.subrange(0, i as int)).len(),
            y <= i,
            forall|yy: int| 0 <= yy < y ==> row_fits(
                #[trigger] program_rows(ls.subrange(0, i as int))[yy],
                yy,
                WIDTH as nat,
                HEIGHT as nat,
            ),
            forall|k: int| 0 <= k < stack_lines(ls.subrange(0, i as int)).len() ==> stack_words(
                #[trigger] stack_lines(ls.subrange(0, i as int))[k],
            ).len() >= 2,
            instructions.wf(),
            stacks_wf(stacks),
            forall|x: int, yy: int|
                0 <= x < WIDTH && 0 <= yy < HEIGHT ==> #[trigger] instructions.cell(x, yy) == grid_cell(
                    program_rows(ls.subrange(0, i as int)),
                    x,
                    yy,
                ),
            declares_all(*try_parse_n, *try_usize_from_n, stack_lines(ls.subrange(0, i as int)), declarations),
            forall|x: int, yy: int|
                0 <= x < STACK_WIDTH && 0 <= yy < STACK_HEIGHT ==> (#[trigger] stacks.cell(x, yy)).items()
                    == declared_items::<ArrayStack<STACK_CAPACITY, N>>(declarations, x, yy),
        decreases ranges@.len() - i,
    {
        let (from, to) = ranges[i];
        assert(ranges@[i as int].0 <= ranges@[i as int].1 <= source@.len());
        let line = source.substring_char(from, to);
        assert(slice(chars@, ranges@[i as int]) == lines(chars@)[i as int]);
        assert(line@ == ls[i as int]);
        let ghost old_instructions = instructions;
        let ghost old_stacks = stacks;
        let ghost before = ls.subrange(0, i as int);
        let ghost after = ls.subrange(0, i as int + 1);
        proof {
            assert(after.drop_last() =~= before);
            lemma_program_rows_prefix(ls, i as int + 1);
            lemma_program_rows_prefix(ls, i as int);
            lemma_stack_lines_prefix(ls, i as int + 1);
        }
        let r = parse_line(line, &mut y, &mut instructions, &mut stacks, try_parse_n, try_usize_from_n);
        if let Err(e) = r {
            proof {
                if !is_comment(line@) && !is_stack_line(line@) {
                    let k = program_rows(before).len() as int;
                    assert(program_rows(after)[k] == row_text(line@));
                    assert(program_rows(ls)[k] == row_text(line@));
                } else if is_stack_line(line@) {
                    let k = stack_lines(before).len() as int;
                    assert(stack_lines(after)[k] == line@);
                    assert(stack_lines(ls)[k] == line@);
                }
            }
            return Err(e);
        }
        proof {
            if is_stack_line(line@) {
                assert(stack_lines(after) =~= stack_lines(before).push(line@));
                let d = choose|d: (usize, usize, Seq<N>)| {
                    &&& declares(*try_parse_n, *try_usize_from_n, line@, d)
                    &&& in_bounds(STACK_WIDTH as nat, STACK_HEIGHT as nat, (d.0, d.1))
                    &&& pushed_at(old_stacks, stacks, d.0 as int, d.1 as int, d.2)
                };
                let next = declarations.push(d);
                assert(next.drop_last() =~= declarations);
                assert forall|x: int, yy: int| 0 <= x < STACK_WIDTH && 0 <= yy < STACK_HEIGHT implies (#[trigger] stacks.cell(x, yy)).items()
                    == declared_items::<ArrayStack<STACK_CAPACITY, N>>(next, x, yy) by {
                    assert(old_stacks.cell(x, yy).items() == declared_items::<ArrayStack<STACK_CAPACITY, N>>(declarations, x, yy));
                }
                assert(stack_lines(after) =~= stack_lines(before).push(line@));
                declarations = next;
            } else if !is_comment(line@) {
                assert(program_rows(after) =~= program_rows(before).push(row_text(line@)));
                assert(row_fits(row_text(line@), y - 1, WIDTH as nat, HEIGHT as nat));
                assert forall|x: int, yy: int| 0 <= x < WIDTH && 0 <= yy < HEIGHT implies #[trigger] instructions.cell(x, yy)
                    == grid_cell(program_rows(after), x, yy) by {
                    assert(old_instructions.cell(x, yy) == grid_cell(program_rows(before), x, yy));
                }
            }
        }
        i += 1;
    }
    proof {
        assert(ls.subrange(0, i as int) =~= ls);
    }
    Ok(Machine::new(instructions, stacks))
}

} // verus!
