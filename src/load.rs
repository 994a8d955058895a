//! Loading a program into growable grids sized by its text.
//!
//! A line starting with `#` is a comment. A line starting with `s` declares
//! stack contents: `s <x> <y> <n0> <n1> ...`, where `(x, y)` is a stack cell
//! and the numbers are pushed in order. Any other line is a row of
//! instructions. On every line, a `#` ends what is read of it.

use vstd::prelude::*;
use vstd::string::*;

use crate::{
    instruction::{decoded, Instruction, IntoInstructionError},
    machine::{self, coarse_length},
    number::Number,
    plane::{in_bounds, rows_view, widest, Plane, VecPlane},
    stack::{Stack, VecStack},
    text::{
        before_hash, coordinate_value, find, lines, line_ranges, parse_coordinate, slice, to_chars,
        word_ranges, words,
    },
    Pointer,
};

verus! {

#[derive(Debug)]
pub enum Error<ParseNError> {
    /// A character of a row stands for no instruction.
    InvalidInstruction(IntoInstructionError),
    /// A stack value failed to parse.
    InvalidNumber(ParseNError),
    /// A stack coordinate is no decimal `usize`: the text given.
    InvalidCoordinate(String),
    /// A stack cell outside the stack plane.
    StackPointerOutOfRange(Pointer),
    /// A stack line with fewer than two coordinates: the line.
    MissingStackPointer(String),
}

/// The machine a program loads into.
pub type Machine<N> = machine::Machine<N, VecPlane<Instruction>, VecStack<N>, VecPlane<VecStack<N>>>;

pub open spec fn is_comment(line: Seq<char>) -> bool {
    line.len() > 0 && line[0] == '#'
}

pub open spec fn is_stack_line(line: Seq<char>) -> bool {
    line.len() > 0 && line[0] == 's'
}

/// The words of a stack line: coordinates, then values.
pub open spec fn stack_words(line: Seq<char>) -> Seq<Seq<char>> {
    words(before_hash(line.drop_first()))
}

/// The characters of a row line that stand for instructions.
pub open spec fn row_text(line: Seq<char>) -> Seq<char> {
    before_hash(line)
}

pub open spec fn all_decode(row: Seq<char>) -> bool {
    forall|i: int| 0 <= i < row.len() ==> (#[trigger] decoded(row[i])) is Some
}

/// `row[k]` is the first character of `row` that stands for no instruction.
pub open spec fn first_unknown_at(row: Seq<char>, k: int) -> bool {
    &&& 0 <= k < row.len()
    &&& decoded(row[k]) is None
    &&& forall|j: int| 0 <= j < k ==> (#[trigger] decoded(row[j])) is Some
}

pub open spec fn decoded_row(row: Seq<char>) -> Seq<Instruction> {
    row.map_values(|c: char| decoded(c)->Some_0)
}

/// `f` may return `r` for a string holding `text`.
pub open spec fn parses_to<N, E, F: Fn(&str) -> Result<N, E>>(f: F, text: Seq<char>, r: Result<N, E>) -> bool {
    exists|t: &str| t@ == text && call_ensures(f, (t,), r)
}

/// `values` are what `f` returned for `texts`, one for one.
pub open spec fn parsed_all<N, E, F: Fn(&str) -> Result<N, E>>(f: F, texts: Seq<Seq<char>>, values: Seq<N>) -> bool {
    &&& values.len() == texts.len()
    &&& forall|i: int| 0 <= i < texts.len() ==> parses_to(f, texts[i], Ok::<N, E>(#[trigger] values[i]))
}

/// `f` may succeed on a string holding `text`.
pub open spec fn parses_ok<N, E, F: Fn(&str) -> Result<N, E>>(f: F, text: Seq<char>) -> bool {
    exists|v: N| #[trigger] parses_to(f, text, Ok::<N, E>(v))
}

/// `f` failed with `e` on `texts[k]` after succeeding on those before it.
pub open spec fn first_failure<N, E, F: Fn(&str) -> Result<N, E>>(f: F, texts: Seq<Seq<char>>, k: int, e: E) -> bool {
    &&& 0 <= k < texts.len()
    &&& parses_to(f, texts[k], Err::<N, E>(e))
    &&& forall|j: int| 0 <= j < k ==> parses_ok::<N, E, F>(f, #[trigger] texts[j])
}

/// A stack line with two words that are coordinates.
pub open spec fn coordinates_given(line: Seq<char>) -> bool {
    &&& stack_words(line).len() >= 2
    &&& coordinate_value(stack_words(line)[0]) is Some
    &&& coordinate_value(stack_words(line)[1]) is Some
}

/// The words of a stack line after the coordinates.
pub open spec fn stack_values(line: Seq<char>) -> Seq<Seq<char>> {
    stack_words(line).subrange(2, stack_words(line).len() as int)
}

/// `declaration` is what the stack line `line` declares, its values as
/// `f` parsed them.
pub open spec fn declaration_of<N, E, F: Fn(&str) -> Result<N, E>>(
    f: F,
    line: Seq<char>,
    declaration: (usize, usize, Vec<N>),
) -> bool {
    &&& declaration.0 == coordinate_value(stack_words(line)[0])->Some_0
    &&& declaration.1 == coordinate_value(stack_words(line)[1])->Some_0
    &&& parsed_all(f, stack_values(line), declaration.2@)
}

/// The view of a stack declaration: coordinates and values.
pub open spec fn declarations_view<N>(declarations: Seq<(usize, usize, Vec<N>)>) -> Seq<(usize, usize, Seq<N>)> {
    declarations.map_values(|d: (usize, usize, Vec<N>)| (d.0, d.1, d.2@))
}

/// The pieces of `s` at `ranges`.
pub open spec fn slices(s: Seq<char>, ranges: Seq<(usize, usize)>) -> Seq<Seq<char>> {
    ranges.map_values(|range: (usize, usize)| slice(s, range))
}

/// Parses the words at `ranges[2..]` of `line` with `try_parse_n`, stopping
/// at the first failure.
fn parse_values<N, ParseNError, F: Fn(&str) -> Result<N, ParseNError>>(
    line: &str,
    chars: &Vec<char>,
    ranges: &Vec<(usize, usize)>,
    try_parse_n: &F,
) -> (r: Result<Vec<N>, ParseNError>)
    requires
        forall|t: &str| call_requires(*try_parse_n, (t,)),
        chars@ == line@,
        2 <= ranges@.len(),
        crate::text::ranges_within(ranges@, line@.len()),
    ensures
        r matches Ok(values) ==> parsed_all(
            *try_parse_n,
            slices(line@, ranges@.subrange(2, ranges@.len() as int)),
            values@,
        ),
        r matches Err(e) ==> exists|k: int|
            first_failure(
                *try_parse_n,
                slices(line@, ranges@.subrange(2, ranges@.len() as int)),
                k,
                e,
            ),
{
    let ghost texts = slices(line@, ranges@.subrange(2, ranges@.len() as int));
    let mut values: Vec<N> = Vec::new();
    let mut k: usize = 2;
    while k < ranges.len()
        invariant
            2 <= k <= ranges@.len(),
            texts == slices(line@, ranges@.subrange(2, ranges@.len() as int)),
            crate::text::ranges_within(ranges@, line@.len()),
            forall|t: &str| call_requires(*try_parse_n, (t,)),
            values@.len() == k - 2,
            forall|i: int| 0 <= i < k - 2 ==> parses_to(*try_parse_n, texts[i], Ok::<N, ParseNError>(#[trigger] values@[i])),
        decreases ranges@.len() - k,
    {
        let (from, to) = ranges[k];
        assert(ranges@[k as int].0 <= ranges@[k as int].1 <= line@.len());
        let text = line.substring_char(from, to);
        assert(text@ == texts[k - 2]);
        match try_parse_n(text) {
            Ok(value) => {
                values.push(value);
                assert(parses_to(*try_parse_n, texts[k - 2], Ok::<N, ParseNError>(value)));
            },
            Err(e) => {
                proof {
                    assert(parses_to(*try_parse_n, texts[k - 2], Err::<N, ParseNError>(e)));
                    assert forall|j: int| 0 <= j < k - 2 implies parses_ok::<N, ParseNError, F>(*try_parse_n, #[trigger] texts[j]) by {
                        assert(parses_to(*try_parse_n, texts[j], Ok::<N, ParseNError>(values@[j])));
                    }
                    assert(first_failure(*try_parse_n, texts, k - 2, e));
                }
                let r = Err(e);
                assert(r->Err_0 == e);
                return r;
            },
        }
        k += 1;
    }
    Ok(values)
}

/// Loads one line: a row is added to `instructions`, a stack declaration to
/// `stack_instructions`. Nothing is added when an error is returned.
#[verifier::loop_isolation(false)]
pub fn parse_line<N: Number, ParseNError, F: Fn(&str) -> Result<N, ParseNError>>(
    line: &str,
    instructions: &mut Vec<Vec<Instruction>>,
    stack_instructions: &mut Vec<(usize, usize, Vec<N>)>,
    try_parse_n: &F,
) -> (r: Result<(), Error<ParseNError>>)
    requires
        forall|t: &str| call_requires(*try_parse_n, (t,)),
    ensures
        r is Err ==> final(instructions)@ == old(instructions)@ && final(stack_instructions)@ == old(stack_instructions)@,
        is_comment(line@) ==> r is Ok && final(instructions)@ == old(instructions)@ && final(stack_instructions)@
            == old(stack_instructions)@,
        is_stack_line(line@) && stack_words(line@).len() < 2 ==> (r matches Err(Error::MissingStackPointer(s))
            && s@ == line@),
        is_stack_line(line@) && stack_words(line@).len() >= 2 && coordinate_value(stack_words(line@)[0]) is None
            ==> (r matches Err(Error::InvalidCoordinate(s)) && s@ == stack_words(line@)[0]),
        is_stack_line(line@) && stack_words(line@).len() >= 2 && coordinate_value(stack_words(line@)[0]) is Some
            && coordinate_value(stack_words(line@)[1]) is None ==> (r matches Err(Error::InvalidCoordinate(s))
            && s@ == stack_words(line@)[1]),
        is_stack_line(line@) && coordinates_given(line@) && r is Ok ==> {
            &&& final(instructions)@ == old(instructions)@
            &&& final(stack_instructions)@.drop_last() == old(stack_instructions)@
            &&& final(stack_instructions)@.len() == old(stack_instructions)@.len() + 1
            &&& declaration_of(*try_parse_n, line@, final(stack_instructions)@.last())
        },
        is_stack_line(line@) && coordinates_given(line@) && r is Err ==> (r matches Err(Error::InvalidNumber(e))
            && exists|k: int| first_failure(*try_parse_n, stack_values(line@), k, e)),
        !is_comment(line@) && !is_stack_line(line@) && !all_decode(row_text(line@)) ==> (r matches Err(
            Error::InvalidInstruction(IntoInstructionError::UnknownChar(c)),
        ) && exists|k: int| first_unknown_at(row_text(line@), k) && row_text(line@)[k] == c),
        !is_comment(line@) && !is_stack_line(line@) && all_decode(row_text(line@)) ==> r is Ok && rows_view(
            final(instructions)@,
        ) == rows_view(old(instructions)@).push(decoded_row(row_text(line@))) && final(stack_instructions)@
            == old(stack_instructions)@,
        r is Ok ==> line_loads::<N, ParseNError, F>(*try_parse_n, line@),
        r matches Err(e) ==> line_fails_with::<N, ParseNError, F>(*try_parse_n, line@, e),
{
    let chars = to_chars(line);
    let n = chars.len();
    if n > 0 && chars[0] == '#' {
        return Ok(());
    }
    if n > 0 && chars[0] == 's' {
        let end = find(&chars, 1, n, '#');
        let ranges = word_ranges(&chars, 1, end);
        proof {
            assert(chars@.subrange(1, n as int) =~= line@.drop_first());
            assert(chars@.subrange(1, end as int) =~= before_hash(line@.drop_first()));
        }
        let ghost w = stack_words(line@);
        if ranges.len() < 2 {
            return Err(Error::MissingStackPointer(line.to_owned()));
        }
        proof {
            assert(slices(line@, ranges@.subrange(2, ranges@.len() as int))
                =~= stack_values(line@));
        }
        let (x_from, x_to) = ranges[0];
        assert(slice(chars@, ranges@[0]) == w[0]);
        let x = match parse_coordinate(&chars, x_from, x_to) {
            Some(x) => x,
            None => return Err(Error::InvalidCoordinate(line.substring_char(x_from, x_to).to_owned())),
        };
        let (y_from, y_to) = ranges[1];
        assert(slice(chars@, ranges@[1]) == w[1]);
        let y = match parse_coordinate(&chars, y_from, y_to) {
            Some(y) => y,
            None => return Err(Error::InvalidCoordinate(line.substring_char(y_from, y_to).to_owned())),
        };
        let values = match parse_values(line, &chars, &ranges, try_parse_n) {
            Ok(values) => values,
            Err(e) => {
                let r = Err(Error::InvalidNumber(e));
                assert(r->Err_0->InvalidNumber_0 == e);
                return r;
            },
        };
        proof {
            assert forall|k: int| 0 <= k < stack_values(line@).len() implies parses_ok::<N, ParseNError, F>(
                *try_parse_n,
                #[trigger] stack_values(line@)[k],
            ) by {
                assert(parses_to(*try_parse_n, stack_values(line@)[k], Ok::<N, ParseNError>(values@[k])));
            }
        }
        stack_instructions.push((x, y, values));
        return Ok(());
    }
    let end = find(&chars, 0, n, '#');
    proof {
        assert(chars@.subrange(0, n as int) =~= line@);
    }
    let ghost row = row_text(line@);
    let mut decoded_instructions: Vec<Instruction> = Vec::new();
    let mut i: usize = 0;
    while i < end
        invariant
            i <= end,
            row == chars@.subrange(0, end as int),
            end <= chars@.len(),
            decoded_instructions@.len() == i,
            forall|j: int| 0 <= j < i ==> (#[trigger] decoded(row[j])) is Some,
            forall|j: int| 0 <= j < i ==> #[trigger] decoded_instructions@[j] == decoded(row[j])->Some_0,
        decreases end - i,
    {
        assert(row[i as int] == chars@[i as int]);
        match Instruction::from_char(chars[i]) {
            Ok(instruction) => decoded_instructions.push(instruction),
            Err(e) => {
                assert(first_unknown_at(row, i as int));
                return Err(Error::InvalidInstruction(e));
            },
        }
        i += 1;
    }
    proof {
        assert(decoded_instructions@ =~= decoded_row(row));
    }
    instructions.push(decoded_instructions);
    proof {
        assert(rows_view(instructions@) =~= rows_view(old(instructions)@).push(decoded_row(row)));
    }
    Ok(())
}

/// `f` may succeed on each value that the stack line `line` declares.
pub open spec fn values_parse<N, E, F: Fn(&str) -> Result<N, E>>(f: F, line: Seq<char>) -> bool {
    forall|k: int| 0 <= k < stack_values(line).len() ==> parses_ok::<N, E, F>(f, #[trigger] stack_values(line)[k])
}

/// The line loads: it has no fault of its own, and `f` may succeed on each
/// value it declares.
pub open spec fn line_loads<N, E, F: Fn(&str) -> Result<N, E>>(f: F, line: Seq<char>) -> bool {
    &&& well_formed_line(line)
    &&& is_stack_line(line) ==> values_parse::<N, E, F>(f, line)
}

/// Loading the single line `line` may fail with `e`.
pub open spec fn line_fails_with<N, E, F: Fn(&str) -> Result<N, E>>(f: F, line: Seq<char>, e: Error<E>) -> bool {
    let w = stack_words(line);
    match e {
        Error::InvalidInstruction(IntoInstructionError::UnknownChar(c)) => {
            &&& !is_comment(line)
            &&& !is_stack_line(line)
            &&& exists|k: int| first_unknown_at(row_text(line), k) && row_text(line)[k] == c
        },
        Error::InvalidNumber(e) => {
            &&& is_stack_line(line)
            &&& coordinates_given(line)
            &&& exists|k: int| first_failure::<N, E, F>(f, stack_values(line), k, e)
        },
        Error::InvalidCoordinate(s) => {
            &&& is_stack_line(line)
            &&& w.len() >= 2
            &&& if coordinate_value(w[0]) is None {
                s@ == w[0]
            } else {
                coordinate_value(w[1]) is None && s@ == w[1]
            }
        },
        Error::StackPointerOutOfRange(_) => false,
        Error::MissingStackPointer(s) => is_stack_line(line) && w.len() < 2 && s@ == line,
    }
}

/// The values declared for stack cell `(x, y)`: those of every declaration
/// for it, in order.
pub open spec fn declared_items<N>(declarations: Seq<(usize, usize, Seq<N>)>, x: int, y: int) -> Seq<N>
    decreases declarations.len(),
{
    if declarations.len() == 0 {
        Seq::empty()
    } else {
        let before = declared_items(declarations.drop_last(), x, y);
        let last = declarations.last();
        if last.0 == x && last.1 == y {
            before + last.2
        } else {
            before
        }
    }
}

/// Every declaration names a cell of a `width` by `height` stack plane.
pub open spec fn all_within<N>(declarations: Seq<(usize, usize, Seq<N>)>, width: nat, height: nat) -> bool {
    forall|i: int|
        0 <= i < declarations.len() ==> in_bounds(width, height, (#[trigger] declarations[i].0, declarations[i].1))
}

/// `declarations[k]` is the first to name a cell outside the stack plane.
pub open spec fn first_outside_at<N>(
    declarations: Seq<(usize, usize, Seq<N>)>,
    width: nat,
    height: nat,
    k: int,
) -> bool {
    &&& 0 <= k < declarations.len()
    &&& !in_bounds(width, height, (declarations[k].0, declarations[k].1))
    &&& all_within(declarations.subrange(0, k), width, height)
}

fn copy_values<N: Copy>(values: &Vec<N>) -> (r: Vec<N>)
    ensures
        r@ == values@,
{
    let mut r: Vec<N> = Vec::new();
    let mut i: usize = 0;
    while i < values.len()
        invariant
            i <= values@.len(),
            r@ == values@.subrange(0, i as int),
        decreases values@.len() - i,
    {
        r.push(values[i]);
        i += 1;
    }
    r
}

/// The number of stack cells covering `length` instruction cells.
fn coarse(length: usize) -> (r: usize)
    ensures
        r == coarse_length(length as nat),
{
    length / 4 + if length % 4 == 0 { 0 } else { 1 }
}

/// Builds the stack plane for `instructions`, one stack for each 4 by 4
/// block, and pushes the declared values onto their stacks in order.
pub fn create_stacks<N: Number, ParseNError>(
    stack_instructions: Vec<(usize, usize, Vec<N>)>,
    instructions: &VecPlane<Instruction>,
) -> (r: Result<VecPlane<VecStack<N>>, Error<ParseNError>>)
    requires
        instructions.wf(),
    ensures
        ({
            let declarations = declarations_view(stack_instructions@);
            let width = coarse_length(instructions.width_spec());
            let height = coarse_length(instructions.height_spec());
            &&& all_within(declarations, width, height) ==> (r matches Ok(stacks) && {
                &&& stacks.wf()
                &&& stacks.width_spec() == width
                &&& stacks.height_spec() == height
                &&& forall|x: int, y: int|
                    0 <= x < width && 0 <= y < height ==> (#[trigger] stacks.cell(x, y)).wf() && stacks.cell(x, y).items()
                        == declared_items(declarations, x, y)
            })
            &&& !all_within(declarations, width, height) ==> (r matches Err(Error::StackPointerOutOfRange(p))
                && exists|k: int| first_outside_at(declarations, width, height, k) && p == (declarations[k].0, declarations[k].1))
        }),
{
    let ghost declarations = declarations_view(stack_instructions@);
    let width = coarse(instructions.width());
    let height = coarse(instructions.height());
    let mut stacks: VecPlane<VecStack<N>> = VecPlane::new(width, height);
    proof {
        assert forall|x: int, y: int| 0 <= x < width && 0 <= y < height implies (#[trigger] stacks.cell(x, y)).wf()
            && stacks.cell(x, y).items() == declared_items(declarations.subrange(0, 0), x, y) by {
            assert(call_ensures(VecStack::<N>::default, (), stacks.cell(x, y)));
        }
    }
    let mut i: usize = 0;
    while i < stack_instructions.len()
        invariant
            i <= stack_instructions@.len(),
            declarations == declarations_view(stack_instructions@),
            width == coarse_length(instructions.width_spec()),
            height == coarse_length(instructions.height_spec()),
            stacks.wf(),
            stacks.width_spec() == width,
            stacks.height_spec() == height,
            all_within(declarations.subrange(0, i as int), width as nat, height as nat),
            forall|x: int, y: int|
                0 <= x < width && 0 <= y < height ==> (#[trigger] stacks.cell(x, y)).wf() && stacks.cell(x, y).items()
                    == declared_items(declarations.subrange(0, i as int), x, y),
        decreases stack_instructions@.len() - i,
    {
        let x = stack_instructions[i].0;
        let y = stack_instructions[i].1;
        let values = copy_values(&stack_instructions[i].2);
        let ghost before = stacks;
        proof {
            assert(declarations.subrange(0, i as int + 1).drop_last() =~= declarations.subrange(0, i as int));
            assert(declarations[i as int] == (x, y, values@));
        }
        match stacks.get_mut((x, y)) {
            Some(stack) => {
                stack.extend(values);
            },
            None => {
                proof {
                    assert(first_outside_at(declarations, width as nat, height as nat, i as int));
                }
                let r = Err(Error::StackPointerOutOfRange((x, y)));
                assert(r->Err_0->StackPointerOutOfRange_0 == (x, y));
                return r;
            },
        }
        proof {
            assert forall|k: int| 0 <= k < i + 1 implies in_bounds(width as nat, height as nat, (#[trigger] declarations.subrange(0, i as int + 1)[k].0, declarations.subrange(0, i as int + 1)[k].1)) by {
                if k < i {
                    assert(declarations.subrange(0, i as int + 1)[k] == declarations.subrange(0, i as int)[k]);
                }
            }
            assert forall|xx: int, yy: int| 0 <= xx < width && 0 <= yy < height implies (#[trigger] stacks.cell(xx, yy)).wf()
                && stacks.cell(xx, yy).items() == declared_items(declarations.subrange(0, i as int + 1), xx, yy) by {
                assert(before.cell(xx, yy).items() == declared_items(declarations.subrange(0, i as int), xx, yy));
            }
        }
        i += 1;
    }
    proof {
        assert(declarations.subrange(0, i as int) =~= declarations);
    }
    Ok(stacks)
}

/// The row text of each row line, in order.
pub open spec fn program_rows(lines: Seq<Seq<char>>) -> Seq<Seq<char>>
    decreases lines.len(),
{
    if lines.len() == 0 {
        Seq::empty()
    } else {
        let before = program_rows(lines.drop_last());
        let line = lines.last();
        if is_comment(line) || is_stack_line(line) {
            before
        } else {
            before.push(row_text(line))
        }
    }
}

/// The stack lines, in order.
pub open spec fn stack_lines(lines: Seq<Seq<char>>) -> Seq<Seq<char>>
    decreases lines.len(),
{
    if lines.len() == 0 {
        Seq::empty()
    } else {
        let before = stack_lines(lines.drop_last());
        if is_stack_line(lines.last()) {
            before.push(lines.last())
        } else {
            before
        }
    }
}

/// The line has no fault that the number parser plays no part in.
pub open spec fn well_formed_line(line: Seq<char>) -> bool {
    ||| is_comment(line)
    ||| is_stack_line(line) && coordinates_given(line)
    ||| !is_stack_line(line) && all_decode(row_text(line))
}

/// `declaration` is what the stack line `line` declares, with values as `f`
/// parsed them.
pub open spec fn declares<N, E, F: Fn(&str) -> Result<N, E>>(
    f: F,
    line: Seq<char>,
    declaration: (usize, usize, Seq<N>),
) -> bool {
    &&& declaration.0 == coordinate_value(stack_words(line)[0])->Some_0
    &&& declaration.1 == coordinate_value(stack_words(line)[1])->Some_0
    &&& parsed_all(f, stack_values(line), declaration.2)
}

pub open spec fn declares_all<N, E, F: Fn(&str) -> Result<N, E>>(
    f: F,
    lines: Seq<Seq<char>>,
    declarations: Seq<(usize, usize, Seq<N>)>,
) -> bool {
    &&& declarations.len() == lines.len()
    &&& forall|i: int| 0 <= i < lines.len() ==> declares(f, #[trigger] lines[i], declarations[i])
}

/// The stack cell that a stack line names.
pub open spec fn stack_cell(line: Seq<char>) -> Pointer {
    (coordinate_value(stack_words(line)[0])->Some_0, coordinate_value(stack_words(line)[1])->Some_0)
}

/// `stack_lines[k]` is the first stack line naming a cell outside a `width`
/// by `height` stack plane.
pub open spec fn first_out_of_range(stack_lines: Seq<Seq<char>>, width: nat, height: nat, k: int) -> bool {
    &&& 0 <= k < stack_lines.len()
    &&& !in_bounds(width, height, stack_cell(stack_lines[k]))
    &&& forall|j: int| 0 <= j < k ==> in_bounds(width, height, stack_cell(#[trigger] stack_lines[j]))
}

/// `lines[i]` is the first line that fails to load, with `e`.
pub open spec fn fails_first_at<N, E, F: Fn(&str) -> Result<N, E>>(
    f: F,
    lines: Seq<Seq<char>>,
    i: int,
    e: Error<E>,
) -> bool {
    &&& 0 <= i < lines.len()
    &&& forall|j: int| 0 <= j < i ==> line_loads::<N, E, F>(f, #[trigger] lines[j])
    &&& line_fails_with::<N, E, F>(f, lines[i], e)
}

/// The width of the stack plane of a program of the given lines: one cell
/// for each 4 columns of the instruction grid.
pub open spec fn stack_plane_width(lines: Seq<Seq<char>>) -> nat {
    coarse_length(widest(program_rows(lines)))
}

/// The height of the stack plane: one cell for each 4 rows.
pub open spec fn stack_plane_height(lines: Seq<Seq<char>>) -> nat {
    coarse_length(program_rows(lines).len())
}

/// Every stack line names a cell of the stack plane.
pub open spec fn stacks_in_range(lines: Seq<Seq<char>>) -> bool {
    forall|i: int|
        0 <= i < stack_lines(lines).len() ==> in_bounds(
            stack_plane_width(lines),
            stack_plane_height(lines),
            stack_cell(#[trigger] stack_lines(lines)[i]),
        )
}

/// Loading a program of the given lines may fail with `e`: the error of the
/// first line that fails to load or, when every line loads, that of the
/// first stack line naming a cell outside the stack plane.
pub open spec fn load_fails_with<N, E, F: Fn(&str) -> Result<N, E>>(f: F, lines: Seq<Seq<char>>, e: Error<E>) -> bool {
    match e {
        Error::StackPointerOutOfRange(p) => {
            &&& forall|j: int| 0 <= j < lines.len() ==> line_loads::<N, E, F>(f, #[trigger] lines[j])
            &&& exists|k: int|
                first_out_of_range(stack_lines(lines), stack_plane_width(lines), stack_plane_height(lines), k) && p
                    == stack_cell(stack_lines(lines)[k])
        },
        _ => exists|i: int| fails_first_at::<N, E, F>(f, lines, i, e),
    }
}

/// `f` cannot fail on a string holding `text`.
pub open spec fn cannot_fail<N, E, F: Fn(&str) -> Result<N, E>>(f: F, text: Seq<char>) -> bool {
    forall|e: E| !#[trigger] parses_to::<N, E, F>(f, text, Err(e))
}

/// `f` cannot fail on any value that a stack line of `lines` declares.
pub open spec fn all_values_parse<N, E, F: Fn(&str) -> Result<N, E>>(f: F, lines: Seq<Seq<char>>) -> bool {
    forall|i: int, k: int|
        0 <= i < stack_lines(lines).len() && 0 <= k < stack_values(stack_lines(lines)[i]).len() ==> cannot_fail::<
            N,
            E,
            F,
        >(f, #[trigger] stack_values(#[trigger] stack_lines(lines)[i])[k])
}

/// The instruction at `(x, y)` of a grid of the given rows: blank past the
/// end of a short row.
pub open spec fn row_cell(rows: Seq<Seq<char>>, x: int, y: int) -> Instruction {
    if x < rows[y].len() {
        decoded(rows[y][x])->Some_0
    } else {
        Instruction::Space
    }
}

pub open spec fn decoded_rows(rows: Seq<Seq<char>>) -> Seq<Seq<Instruction>> {
    rows.map_values(|row: Seq<char>| decoded_row(row))
}

/// Loads a program from its text. The grid is as wide as the longest row and
/// has one row for each row line; each stack line pushes its values onto the
/// stack at its cell.
#[verifier::loop_isolation(false)]
pub fn from_str<N: Number, ParseNError, F: Fn(&str) -> Result<N, ParseNError>>(
    source: &str,
    try_parse_n: &F,
) -> (r: Result<Machine<N>, Error<ParseNError>>)
    requires
        forall|t: &str| call_requires(*try_parse_n, (t,)),
    ensures
        r matches Ok(machine) ==> {
            let rows = program_rows(lines(source@));
            &&& machine.wf()
            &&& machine.state_spec() == crate::machine::State::Running
            &&& machine.register_spec() == N::zero_spec()
            &&& machine.pointer_spec() == (0usize, 0usize)
            &&& machine.velocity_spec() == crate::RIGHT
            &&& machine.width_spec() == widest(rows)
            &&& machine.height_spec() == rows.len()
            &&& forall|x: int, y: int|
                0 <= x < machine.width_spec() && 0 <= y < machine.height_spec() ==> #[trigger] machine.instruction_at(x, y)
                    == row_cell(rows, x, y)
            &&& exists|declarations: Seq<(usize, usize, Seq<N>)>| {
                &&& declares_all(*try_parse_n, stack_lines(lines(source@)), declarations)
                &&& forall|x: int, y: int|
                    0 <= x < machine.stack_width_spec() && 0 <= y < machine.stack_height_spec()
                        ==> #[trigger] machine.stack_at(x, y) == declared_items(declarations, x, y)
            }
        },
        r is Ok ==> stacks_in_range(lines(source@)) && forall|i: int|
            0 <= i < lines(source@).len() ==> line_loads::<N, ParseNError, F>(*try_parse_n, #[trigger] lines(source@)[i]),
        r matches Err(e) ==> load_fails_with::<N, ParseNError, F>(*try_parse_n, lines(source@), e),
        (forall|i: int| 0 <= i < lines(source@).len() ==> well_formed_line(#[trigger] lines(source@)[i]))
            && stacks_in_range(lines(source@)) ==> r is Ok || r matches Err(Error::InvalidNumber(_)),
        (forall|i: int| 0 <= i < lines(source@).len() ==> well_formed_line(#[trigger] lines(source@)[i]))
            && stacks_in_range(lines(source@)) && all_values_parse::<N, ParseNError, F>(*try_parse_n, lines(source@))
            ==> r is Ok,
{
    let chars = to_chars(source);
    let ranges = line_ranges(&chars);
    let ghost ls = lines(source@);
    let mut instructions: Vec<Vec<Instruction>> = Vec::new();
    let mut stack_instructions: Vec<(usize, usize, Vec<N>)> = Vec::new();
    let mut i: usize = 0;
    while i < ranges.len()
        invariant
            i <= ranges@.len(),
            rows_view(instructions@) == decoded_rows(program_rows(ls.subrange(0, i as int))),
            declares_all(*try_parse_n, stack_lines(ls.subrange(0, i as int)), declarations_view(stack_instructions@)),
            forall|j: int| 0 <= j < i ==> line_loads::<N, ParseNError, F>(*try_parse_n, #[trigger] ls[j]),
        decreases ranges@.len() - i,
    {
        let (from, to) = ranges[i];
        assert(ranges@[i as int].0 <= ranges@[i as int].1 <= source@.len());
        let line = source.substring_char(from, to);
        assert(slice(chars@, ranges@[i as int]) == lines(chars@)[i as int]);
        assert(line@ == ls[i as int]);
        let ghost old_instructions = instructions@;
        let ghost old_stack_instructions = stack_instructions@;
        proof {
            assert(ls.subrange(0, i as int + 1).drop_last() =~= ls.subrange(0, i as int));
        }
        match parse_line(line, &mut instructions, &mut stack_instructions, try_parse_n) {
            Ok(()) => {},
            Err(e) => {
                proof {
                    assert(fails_first_at::<N, ParseNError, F>(*try_parse_n, ls, i as int, e));
                    if is_stack_line(line@) {
                        lemma_stack_lines_prefix(ls, i as int + 1);
                        let m = stack_lines(ls.subrange(0, i as int)).len() as int;
                        let after = ls.subrange(0, i as int + 1);
                        assert(after.drop_last() =~= ls.subrange(0, i as int));
                        assert(after.last() == line@);
                        assert(stack_lines(after) == stack_lines(ls.subrange(0, i as int)).push(line@));
                        assert(stack_lines(after)[m] == line@);
                        assert(stack_lines(ls)[m] == line@);
                        if e is InvalidNumber && all_values_parse::<N, ParseNError, F>(*try_parse_n, ls) {
                            let k = choose|k: int| first_failure::<N, ParseNError, F>(*try_parse_n, stack_values(line@), k, e->InvalidNumber_0);
                            assert(cannot_fail::<N, ParseNError, F>(*try_parse_n, stack_values(stack_lines(ls)[m])[k]));
                            assert(parses_to(*try_parse_n, stack_values(line@)[k], Err::<N, ParseNError>(e->InvalidNumber_0)));
                        }
                    }
                }
                return Err(e);
            },
        }
        proof {
            assert(line_loads::<N, ParseNError, F>(*try_parse_n, ls[i as int]));
            if is_comment(line@) {
            } else if is_stack_line(line@) {
                assert(declarations_view(stack_instructions@) =~= declarations_view(old_stack_instructions).push(
                    declarations_view(stack_instructions@).last(),
                ));
            } else {
                assert(decoded_rows(program_rows(ls.subrange(0, i as int + 1))) =~= decoded_rows(program_rows(ls.subrange(0, i as int))).push(decoded_row(row_text(line@))));
            }
            assert forall|j: int| 0 <= j < i + 1 implies line_loads::<N, ParseNError, F>(*try_parse_n, #[trigger] ls[j]) by {}
        }
        i += 1;
    }
    proof {
        assert(ls.subrange(0, i as int) =~= ls);
    }
    let ghost rows = program_rows(ls);
    let ghost declarations = declarations_view(stack_instructions@);
    proof {
        lemma_widest_decoded(rows);
        assert(rows_view(instructions@).len() == rows.len());
    }
    let plane = VecPlane::from_rows(instructions);
    proof {
        assert forall|x: int, y: int| 0 <= x < plane.width_spec() && 0 <= y < plane.height_spec() implies #[trigger] plane.cell(x, y)
            == row_cell(rows, x, y) by {
            assert(rows_view(instructions@)[y] == decoded_row(rows[y]));
            assert(instructions@[y]@ == rows_view(instructions@)[y]);
            if x >= rows[y].len() {
                assert(call_ensures(Instruction::default, (), plane.cell(x, y)));
            }
        }
        assert forall|k: int| 0 <= k < declarations.len() implies declares(*try_parse_n, #[trigger] stack_lines(ls)[k], declarations[k]) by {}
    }
    let stacks = match create_stacks(stack_instructions, &plane) {
        Ok(stacks) => stacks,
        Err(e) => {
            proof {
                let width = coarse_length(plane.width_spec());
                let height = coarse_length(plane.height_spec());
                assert(!all_within(declarations, width, height));
                let k = choose|k: int| 0 <= k < declarations.len() && !in_bounds(width, height, (#[trigger] declarations[k].0, declarations[k].1));
                assert(declares(*try_parse_n, stack_lines(ls)[k], declarations[k]));
                let j = choose|j: int| first_outside_at(declarations, width, height, j) && e->StackPointerOutOfRange_0 == (declarations[j].0, declarations[j].1);
                assert(declares(*try_parse_n, stack_lines(ls)[j], declarations[j]));
                assert forall|m: int| 0 <= m < j implies in_bounds(width, height, stack_cell(#[trigger] stack_lines(ls)[m])) by {
                    assert(declares(*try_parse_n, stack_lines(ls)[m], declarations[m]));
                    assert(declarations.subrange(0, j)[m] == declarations[m]);
                }
                assert(width == stack_plane_width(ls));
                assert(height == stack_plane_height(ls));
                assert(first_out_of_range(stack_lines(ls), width, height, j));
                assert forall|m: int| 0 <= m < ls.len() implies line_loads::<N, ParseNError, F>(*try_parse_n, #[trigger] ls[m]) by {}
            }
            return Err(e);
        },
    };
    let machine = Machine::new(plane, stacks);
    proof {
        assert forall|k: int| 0 <= k < stack_lines(ls).len() implies in_bounds(
            stack_plane_width(ls),
            stack_plane_height(ls),
            stack_cell(#[trigger] stack_lines(ls)[k]),
        ) by {
            assert(declares(*try_parse_n, stack_lines(ls)[k], declarations[k]));
        }
        assert forall|x: int, y: int|
            0 <= x < machine.stack_width_spec() && 0 <= y < machine.stack_height_spec()
                implies #[trigger] machine.stack_at(x, y) == declared_items(declarations, x, y) by {
            assert(stacks.cell(x, y).items() == declared_items(declarations, x, y));
        }
    }
    Ok(machine)
}

/// The rows of a prefix of the lines are a prefix of the rows of all.
pub proof fn lemma_program_rows_prefix(lines: Seq<Seq<char>>, i: int)
    requires
        0 <= i <= lines.len(),
    ensures
        program_rows(lines.subrange(0, i)).len() <= program_rows(lines).len(),
        program_rows(lines.subrange(0, i)).len() <= i,
        forall|k: int|
            0 <= k < program_rows(lines.subrange(0, i)).len() ==> #[trigger] program_rows(lines.subrange(0, i))[k]
                == program_rows(lines)[k],
    decreases lines.len(),
{
    if i == lines.len() {
        assert(lines.subrange(0, i) =~= lines);
        if lines.len() > 0 {
            lemma_program_rows_prefix(lines.drop_last(), i - 1);
            assert(lines.drop_last().subrange(0, i - 1) =~= lines.drop_last());
        }
    } else {
        lemma_program_rows_prefix(lines.drop_last(), i);
        assert(lines.drop_last().subrange(0, i) =~= lines.subrange(0, i));
    }
}

/// The stack lines of a prefix of the lines are a prefix of all of them.
pub proof fn lemma_stack_lines_prefix(lines: Seq<Seq<char>>, i: int)
    requires
        0 <= i <= lines.len(),
    ensures
        stack_lines(lines.subrange(0, i)).len() <= stack_lines(lines).len(),
        forall|k: int|
            0 <= k < stack_lines(lines.subrange(0, i)).len() ==> #[trigger] stack_lines(lines.subrange(0, i))[k]
                == stack_lines(lines)[k],
    decreases lines.len(),
{
    if i == lines.len() {
        assert(lines.subrange(0, i) =~= lines);
    } else {
        lemma_stack_lines_prefix(lines.drop_last(), i);
        assert(lines.drop_last().subrange(0, i) =~= lines.subrange(0, i));
    }
}

/// Decoding keeps the length of every row.
pub proof fn lemma_widest_decoded(rows: Seq<Seq<char>>)
    ensures
        widest(decoded_rows(rows)) == widest(rows),
        decoded_rows(rows).len() == rows.len(),
    decreases rows.len(),
{
    if rows.len() > 0 {
        assert(decoded_rows(rows).drop_last() =~= decoded_rows(rows.drop_last()));
        lemma_widest_decoded(rows.drop_last());
    }
}

} // verus!
