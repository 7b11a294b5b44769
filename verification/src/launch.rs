//! Command lines, environments and the life of a wrapped process tree.

use vstd::prelude::*;

use crate::error::{Error, OsError};
use crate::handles::ascii_lower;
use crate::pe::smaller;
use crate::text::{characters, copy_units, lemma_char_range};

verus! {

/// The code unit of a backslash.
pub const BACKSLASH: u16 = 92;

/// The code unit of a quotation mark.
pub const QUOTE: u16 = 34;

/// The code unit of a space.
pub const SPACE: u16 = 32;

/// The code unit of a tabulator.
pub const TAB: u16 = 9;

/// Whether a unit makes its argument need quotation marks.
pub open spec fn forces_quotes(unit: u16) -> bool {
    unit == SPACE || unit == TAB || unit == 10 || unit == 11 || unit == QUOTE
}

/// Whether an argument must be quoted.
pub open spec fn needs_quotes(argument: Seq<u16>) -> bool {
    argument.len() == 0 || exists|index: int|
        0 <= index < argument.len() && forces_quotes(#[trigger] argument[index])
}

/// That many backslashes.
pub open spec fn backslashes(count: nat) -> Seq<u16> {
    Seq::new(count, |index: int| BACKSLASH)
}

/// What stands between the quotation marks for the rest of an argument, where
/// `pending` backslashes came just before. Backslashes are doubled in front of a
/// quotation mark, also in front of the closing one.
pub open spec fn quoted_rest(argument: Seq<u16>, pending: nat) -> Seq<u16>
    decreases argument.len(),
{
    if argument.len() == 0 {
        backslashes(2 * pending)
    } else if argument[0] == BACKSLASH {
        quoted_rest(argument.skip(1), pending + 1)
    } else if argument[0] == QUOTE {
        backslashes(2 * pending + 1) + seq![QUOTE] + quoted_rest(argument.skip(1), 0)
    } else {
        backslashes(pending) + seq![argument[0]] + quoted_rest(argument.skip(1), 0)
    }
}

/// An argument as it stands in a command line.
pub open spec fn quoted(argument: Seq<u16>) -> Seq<u16> {
    if needs_quotes(argument) {
        seq![QUOTE] + quoted_rest(argument, 0) + seq![QUOTE]
    } else {
        argument
    }
}

/// Arguments as a command line, without its terminator.
pub open spec fn joined(arguments: Seq<Seq<u16>>) -> Seq<u16>
    decreases arguments.len(),
{
    if arguments.len() == 0 {
        Seq::empty()
    } else if arguments.len() == 1 {
        quoted(arguments[0])
    } else {
        quoted(arguments[0]) + seq![SPACE] + joined(arguments.skip(1))
    }
}

fn push_backslashes(units: &mut Vec<u16>, count: usize)
    ensures
        final(units)@ == old(units)@ + backslashes(count as nat),
{
    let mut pushed: usize = 0;
    assert(units@ + backslashes(0) =~= units@);
    while pushed < count
        invariant
            pushed <= count,
            units@ == old(units)@ + backslashes(pushed as nat),
        decreases count - pushed,
    {
        units.push(BACKSLASH);
        pushed = pushed + 1;
        assert(units@ =~= old(units)@ + backslashes(pushed as nat));
    }
}

fn must_quote(argument: &[u16]) -> (result: bool)
    ensures
        result == needs_quotes(argument@),
{
    if argument.len() == 0 {
        return true;
    }
    let mut index: usize = 0;
    while index < argument.len()
        invariant
            index <= argument.len(),
            forall|before: int| 0 <= before < index ==> !forces_quotes(#[trigger] argument@[before]),
        decreases argument.len() - index,
    {
        let unit: u16 = argument[index];
        if unit == SPACE || unit == TAB || unit == 10 || unit == 11 || unit == QUOTE {
            assert(forces_quotes(argument@[index as int]));
            return true;
        }
        index = index + 1;
    }
    false
}

/// Quotes one argument for a command line.
pub fn quote_argument(argument: &[u16]) -> (units: Vec<u16>)
    ensures
        units@ == quoted(argument@),
{
    if !must_quote(argument) {
        return copy_units(argument);
    }
    let mut units: Vec<u16> = Vec::new();
    units.push(QUOTE);
    let ghost whole = seq![QUOTE] + quoted_rest(argument@, 0);
    let mut pending: usize = 0;
    let mut index: usize = 0;
    assert(argument@.skip(0) =~= argument@);
    assert(units@ =~= seq![QUOTE]);
    while index < argument.len()
        invariant
            index <= argument.len(),
            pending <= index,
            units@ + quoted_rest(argument@.skip(index as int), pending as nat) == whole,
        decreases argument.len() - index,
    {
        let unit: u16 = argument[index];
        let ghost before = units@;
        let ghost rest = argument@.skip(index as int);
        let ghost held = pending as nat;
        assert(rest.skip(1) =~= argument@.skip(index + 1));
        if unit == BACKSLASH {
            pending = pending + 1;
        } else if unit == QUOTE {
            push_backslashes(&mut units, pending);
            push_backslashes(&mut units, pending);
            units.push(BACKSLASH);
            units.push(unit);
            pending = 0;
            assert(units@ + quoted_rest(rest.skip(1), 0) =~= before + quoted_rest(rest, held));
        } else {
            push_backslashes(&mut units, pending);
            units.push(unit);
            pending = 0;
            assert(units@ + quoted_rest(rest.skip(1), 0) =~= before + quoted_rest(rest, held));
        }
        index = index + 1;
    }
    assert(argument@.skip(index as int) =~= Seq::empty());
    push_backslashes(&mut units, pending);
    push_backslashes(&mut units, pending);
    units.push(QUOTE);
    assert(units@ =~= whole + seq![QUOTE]);
    units
}

/// The views of a list of arguments.
pub open spec fn views(arguments: Seq<Vec<u16>>) -> Seq<Seq<u16>> {
    arguments.map_values(|argument: Vec<u16>| argument@)
}

proof fn lemma_joined_push(arguments: Seq<Seq<u16>>, last: Seq<u16>)
    ensures
        joined(arguments.push(last)) == if arguments.len() == 0 {
            quoted(last)
        } else {
            joined(arguments) + seq![SPACE] + quoted(last)
        },
    decreases arguments.len(),
{
    let longer = arguments.push(last);
    if arguments.len() > 0 {
        assert(longer.skip(1) =~= arguments.skip(1).push(last));
        lemma_joined_push(arguments.skip(1), last);
        assert(joined(longer) =~= joined(arguments) + seq![SPACE] + quoted(last));
    }
}

/// Builds a NUL-terminated command line.
pub fn command_line(arguments: &Vec<Vec<u16>>) -> (units: Vec<u16>)
    ensures
        units@ == joined(views(arguments@)).push(0),
{
    let mut units: Vec<u16> = Vec::new();
    let mut index: usize = 0;
    assert(views(arguments@).take(0) =~= Seq::empty());
    while index < arguments.len()
        invariant
            index <= arguments.len(),
            units@ == joined(views(arguments@).take(index as int)),
        decreases arguments.len() - index,
    {
        if index > 0 {
            units.push(SPACE);
        }
        let mut next = quote_argument(&arguments[index]);
        units.append(&mut next);
        proof {
            let done = views(arguments@).take(index as int);
            let last = arguments@[index as int]@;
            assert(views(arguments@).take(index + 1) =~= done.push(last));
            lemma_joined_push(done, last);
            assert(units@ =~= joined(done.push(last)));
        }
        index = index + 1;
    }
    assert(views(arguments@).take(arguments@.len() as int) =~= views(arguments@));
    units.push(0);
    units
}

/// What a program reads off its command line for one argument: the argument, and
/// what follows it.
///
/// These are the documented rules for arguments: an even number of backslashes
/// before a quotation mark stands for half as many and the mark begins or ends a
/// quoted part; an odd number stands for half as many and the mark itself; other
/// backslashes stand for themselves; white space outside a quoted part ends the
/// argument.
pub open spec fn read_argument(
    line: Seq<u16>,
    in_quotes: bool,
    pending: nat,
    argument: Seq<u16>,
) -> (Seq<u16>, Seq<u16>)
    decreases line.len(),
{
    if line.len() == 0 {
        (argument + backslashes(pending), line)
    } else if line[0] == BACKSLASH {
        read_argument(line.skip(1), in_quotes, pending + 1, argument)
    } else if line[0] == QUOTE {
        if pending % 2 == 0 {
            read_argument(line.skip(1), !in_quotes, 0, argument + backslashes(pending / 2))
        } else {
            read_argument(
                line.skip(1),
                in_quotes,
                0,
                argument + backslashes(pending / 2) + seq![QUOTE],
            )
        }
    } else if !in_quotes && (line[0] == SPACE || line[0] == TAB) {
        (argument + backslashes(pending), line)
    } else {
        read_argument(line.skip(1), in_quotes, 0, argument + backslashes(pending) + seq![line[0]])
    }
}

proof fn lemma_read_shrinks(line: Seq<u16>, in_quotes: bool, pending: nat, argument: Seq<u16>)
    ensures
        read_argument(line, in_quotes, pending, argument).1.len() <= line.len(),
        line.len() > 0 && !in_quotes && line[0] != SPACE && line[0] != TAB ==> read_argument(
            line,
            in_quotes,
            pending,
            argument,
        ).1.len() < line.len(),
    decreases line.len(),
{
    if line.len() > 0 {
        if line[0] == BACKSLASH {
            lemma_read_shrinks(line.skip(1), in_quotes, pending + 1, argument);
        } else if line[0] == QUOTE {
            if pending % 2 == 0 {
                lemma_read_shrinks(
                    line.skip(1),
                    !in_quotes,
                    0,
                    argument + backslashes(pending / 2),
                );
            } else {
                lemma_read_shrinks(
                    line.skip(1),
                    in_quotes,
                    0,
                    argument + backslashes(pending / 2) + seq![QUOTE],
                );
            }
        } else if !in_quotes && (line[0] == SPACE || line[0] == TAB) {
        } else {
            lemma_read_shrinks(
                line.skip(1),
                in_quotes,
                0,
                argument + backslashes(pending) + seq![line[0]],
            );
        }
    }
}

/// The arguments that a program reads off its command line.
pub open spec fn read_arguments(line: Seq<u16>) -> Seq<Seq<u16>>
    decreases line.len(),
    via read_arguments_decreases
{
    if line.len() == 0 {
        Seq::empty()
    } else if line[0] == SPACE || line[0] == TAB {
        read_arguments(line.skip(1))
    } else {
        let (argument, rest) = read_argument(line, false, 0, Seq::empty());
        seq![argument] + read_arguments(rest)
    }
}

#[via_fn]
proof fn read_arguments_decreases(line: Seq<u16>) {
    lemma_read_shrinks(line, false, 0, Seq::empty());
}

proof fn lemma_read_backslashes(
    count: nat,
    line: Seq<u16>,
    in_quotes: bool,
    pending: nat,
    argument: Seq<u16>,
)
    ensures
        read_argument(backslashes(count) + line, in_quotes, pending, argument) == read_argument(
            line,
            in_quotes,
            pending + count,
            argument,
        ),
    decreases count,
{
    if count == 0 {
        assert(backslashes(0) + line =~= line);
    } else {
        let all = backslashes(count) + line;
        assert(all.skip(1) =~= backslashes((count - 1) as nat) + line);
        assert(all[0] == BACKSLASH);
        lemma_read_backslashes((count - 1) as nat, line, in_quotes, pending + 1, argument);
    }
}

/// Whether nothing more belongs to an argument.
spec fn argument_ends(rest: Seq<u16>) -> bool {
    rest.len() == 0 || rest[0] == SPACE
}

proof fn lemma_read_end(rest: Seq<u16>, pending: nat, argument: Seq<u16>)
    requires
        argument_ends(rest),
    ensures
        read_argument(rest, false, pending, argument) == (argument + backslashes(pending), rest),
{
}

/// Reading inside the quotation marks gives the rest of the argument back.
proof fn lemma_read_quoted_rest(source: Seq<u16>, held: nat, rest: Seq<u16>, argument: Seq<u16>)
    requires
        argument_ends(rest),
    ensures
        read_argument(quoted_rest(source, held) + seq![QUOTE] + rest, true, 0, argument) == (
            argument + backslashes(held) + source,
            rest,
        ),
    decreases source.len(),
{
    let tail = seq![QUOTE] + rest;
    let line = quoted_rest(source, held) + seq![QUOTE] + rest;
    if source.len() == 0 {
        assert(line =~= backslashes(2 * held) + tail);
        lemma_read_backslashes(2 * held, tail, true, 0, argument);
        assert(tail.skip(1) =~= rest);
        let half = argument + backslashes(held);
        assert((2 * held) % 2 == 0 && (2 * held) / 2 == held);
        lemma_read_end(rest, 0, half);
        assert(half + backslashes(0) =~= half);
        assert(half + source =~= half);
        assert(read_argument(tail, true, 2 * held, argument) == read_argument(rest, false, 0, half));
    } else {
        let next = source.skip(1);
        assert(seq![source[0]] + next =~= source);
        if source[0] == BACKSLASH {
            lemma_read_quoted_rest(next, held + 1, rest, argument);
            assert(argument + backslashes(held + 1) + next =~= argument + backslashes(held)
                + source);
        } else if source[0] == QUOTE {
            let after = quoted_rest(next, 0) + seq![QUOTE] + rest;
            let at_mark = seq![QUOTE] + after;
            assert(line =~= backslashes(2 * held + 1) + at_mark);
            lemma_read_backslashes(2 * held + 1, at_mark, true, 0, argument);
            assert(at_mark.skip(1) =~= after);
            let grown = argument + backslashes(held) + seq![QUOTE];
            assert((2 * held + 1) % 2 == 1 && (2 * held + 1) / 2 == held);
            lemma_read_quoted_rest(next, 0, rest, grown);
            assert(grown + backslashes(0) + next =~= argument + backslashes(held) + source);
        } else {
            let after = quoted_rest(next, 0) + seq![QUOTE] + rest;
            let at_unit = seq![source[0]] + after;
            assert(line =~= backslashes(held) + at_unit);
            lemma_read_backslashes(held, at_unit, true, 0, argument);
            assert(at_unit.skip(1) =~= after);
            let grown = argument + backslashes(held) + seq![source[0]];
            lemma_read_quoted_rest(next, 0, rest, grown);
            assert(grown + backslashes(0) + next =~= argument + backslashes(held) + source);
        }
    }
}

/// An argument that needs no quotation marks reads as itself.
proof fn lemma_read_plain(source: Seq<u16>, held: nat, rest: Seq<u16>, argument: Seq<u16>)
    requires
        argument_ends(rest),
        forall|index: int|
            0 <= index < source.len() ==> !forces_quotes(#[trigger] source[index]),
    ensures
        read_argument(source + rest, false, held, argument) == (
            argument + backslashes(held) + source,
            rest,
        ),
    decreases source.len(),
{
    let line = source + rest;
    if source.len() == 0 {
        assert(line =~= rest);
        lemma_read_end(rest, held, argument);
        assert(argument + backslashes(held) + source =~= argument + backslashes(held));
    } else {
        let next = source.skip(1);
        assert(line.skip(1) =~= next + rest);
        assert(!forces_quotes(source[0]));
        assert forall|index: int| 0 <= index < next.len() implies !forces_quotes(
            #[trigger] next[index],
        ) by {
            assert(next[index] == source[index + 1]);
        }
        if source[0] == BACKSLASH {
            lemma_read_plain(next, held + 1, rest, argument);
            assert(argument + backslashes(held + 1) + next =~= argument + backslashes(held)
                + source);
        } else {
            let grown = argument + backslashes(held) + seq![source[0]];
            lemma_read_plain(next, 0, rest, grown);
            assert(grown + backslashes(0) + next =~= argument + backslashes(held) + source);
        }
    }
}

/// A quoted argument reads as the argument it was made from.
pub proof fn law_a_quoted_argument_reads_back(argument: Seq<u16>, rest: Seq<u16>)
    requires
        rest.len() == 0 || rest[0] == SPACE,
    ensures
        read_argument(quoted(argument) + rest, false, 0, Seq::empty()) == (argument, rest),
{
    let empty = Seq::<u16>::empty();
    if needs_quotes(argument) {
        let line = quoted(argument) + rest;
        let inside = quoted_rest(argument, 0) + seq![QUOTE] + rest;
        assert(line.skip(1) =~= inside);
        assert(line[0] == QUOTE);
        lemma_read_quoted_rest(argument, 0, rest, empty + backslashes(0));
        assert(empty + backslashes(0) + backslashes(0) + argument =~= argument);
    } else {
        lemma_read_plain(argument, 0, rest, empty);
        assert(empty + backslashes(0) + argument =~= argument);
    }
}

/// A command line reads as the arguments it was made from.
///
/// The rules are those for arguments; a program's own name, which stands first in
/// a full command line, is read by simpler rules.
pub proof fn law_a_command_line_reads_back(arguments: Seq<Seq<u16>>)
    ensures
        read_arguments(joined(arguments)) == arguments,
    decreases arguments.len(),
{
    if arguments.len() == 0 {
        assert(arguments =~= Seq::empty());
    } else {
        let first = arguments[0];
        let others = arguments.skip(1);
        let rest = if arguments.len() == 1 {
            Seq::empty()
        } else {
            seq![SPACE] + joined(others)
        };
        let line = joined(arguments);
        assert(line =~= quoted(first) + rest);
        law_a_quoted_argument_reads_back(first, rest);
        law_a_command_line_reads_back(others);
        assert(line.len() > 0 && line[0] != SPACE && line[0] != TAB) by {
            if !needs_quotes(first) {
                assert(!forces_quotes(first[0]));
            }
        }
        if arguments.len() == 1 {
            assert(others =~= Seq::empty());
            assert(read_arguments(rest) =~= others);
        } else {
            assert(rest.skip(1) =~= joined(others));
            assert(read_arguments(rest) == read_arguments(rest.skip(1)));
        }
        assert(seq![first] + others =~= arguments);
    }
}

/// What a program reads off its command line as its own name, and what follows
/// it: the text between two quotation marks, or up to the first white space.
/// Backslashes have no special meaning here.
pub open spec fn read_program(line: Seq<u16>) -> (Seq<u16>, Seq<u16>) {
    if line.len() > 0 && line[0] == QUOTE {
        let end = first_unit(line.skip(1), |unit: u16| unit == QUOTE);
        (line.skip(1).take(end), line.skip(smaller(end + 2, line.len() as int)))
    } else {
        let end = first_unit(line, |unit: u16| unit <= SPACE);
        (line.take(end), line.skip(end))
    }
}

/// The index of the first unit that is wanted, or the length where none is.
pub open spec fn first_unit(line: Seq<u16>, wanted: spec_fn(u16) -> bool) -> int
    decreases line.len(),
{
    if line.len() == 0 || wanted(line[0]) {
        0
    } else {
        1 + first_unit(line.skip(1), wanted)
    }
}

/// The units before the first zero unit.
pub open spec fn until_nul(units: Seq<u16>) -> Seq<u16> {
    units.take(first_unit(units, |unit: u16| unit == 0))
}

/// No zero unit stands before the first one.
pub proof fn lemma_first_zero(units: Seq<u16>, index: int)
    requires
        0 <= index <= units.len(),
        forall|before: int| 0 <= before < index ==> #[trigger] units[before] != 0,
    ensures
        index <= first_unit(units, |unit: u16| unit == 0) <= units.len(),
        index == units.len() || units[index] == 0 ==> first_unit(units, |unit: u16| unit == 0)
            == index,
    decreases units.len(),
{
    let rest = units.skip(1);
    if index > 0 {
        assert(units[0] != 0);
        assert forall|before: int| 0 <= before < index - 1 implies #[trigger] rest[before] != 0 by {
            assert(rest[before] == units[before + 1]);
        }
        lemma_first_zero(rest, index - 1);
    } else if units.len() > 0 && units[0] != 0 {
        lemma_first_zero(rest, 0);
    }
}

/// The number of units before the first zero unit.
pub fn length_until_nul(units: &[u16]) -> (length: usize)
    ensures
        length <= units@.len(),
        units@.take(length as int) == until_nul(units@),
{
    let mut length: usize = 0;
    while length < units.len() && units[length] != 0
        invariant
            length <= units.len(),
            forall|before: int| 0 <= before < length ==> #[trigger] units@[before] != 0,
        decreases units.len() - length,
    {
        length = length + 1;
    }
    proof {
        lemma_first_zero(units@, length as int);
    }
    length
}

proof fn lemma_first_unit(name: Seq<u16>, rest: Seq<u16>, wanted: spec_fn(u16) -> bool)
    requires
        forall|index: int| 0 <= index < name.len() ==> !wanted(#[trigger] name[index]),
        rest.len() == 0 || wanted(rest[0]),
    ensures
        first_unit(name + rest, wanted) == name.len(),
    decreases name.len(),
{
    let line = name + rest;
    if name.len() == 0 {
        assert(line =~= rest);
    } else {
        assert(line.skip(1) =~= name.skip(1) + rest);
        assert(!wanted(name[0]));
        assert forall|index: int| 0 <= index < name.skip(1).len() implies !wanted(
            #[trigger] name.skip(1)[index],
        ) by {
            assert(name.skip(1)[index] == name[index + 1]);
        }
        lemma_first_unit(name.skip(1), rest, wanted);
    }
}

proof fn lemma_quoted_rest_without_marks(name: Seq<u16>, held: nat)
    requires
        forall|index: int| 0 <= index < name.len() ==> #[trigger] name[index] != QUOTE,
        name.len() > 0,
        name.last() != BACKSLASH,
    ensures
        quoted_rest(name, held) == backslashes(held) + name,
    decreases name.len(),
{
    let next = name.skip(1);
    assert(seq![name[0]] + next =~= name);
    assert forall|index: int| 0 <= index < next.len() implies #[trigger] next[index] != QUOTE by {
        assert(next[index] == name[index + 1]);
    }
    assert(name[0] != QUOTE);
    if name[0] == BACKSLASH {
        assert(next.len() > 0 && next.last() == name.last());
        lemma_quoted_rest_without_marks(next, held + 1);
        assert(backslashes(held + 1) + next =~= backslashes(held) + name);
    } else if next.len() == 0 {
        assert(quoted_rest(next, 0) =~= backslashes(0));
        assert(quoted_rest(name, held) =~= backslashes(held) + name);
    } else {
        assert(next.last() == name.last());
        lemma_quoted_rest_without_marks(next, 0);
        assert(quoted_rest(name, held) =~= backslashes(held) + name);
    }
}

/// A program's name reads back from the start of a command line, where it holds
/// no quotation mark or control character and, if it must be quoted, does not end
/// in a backslash. Every path of a program file is such a name.
pub proof fn law_a_program_name_reads_back(name: Seq<u16>, rest: Seq<u16>)
    requires
        name.len() > 0,
        forall|index: int|
            0 <= index < name.len() ==> #[trigger] name[index] != QUOTE && name[index] >= SPACE,
        needs_quotes(name) ==> name.last() != BACKSLASH,
        rest.len() == 0 || rest[0] == SPACE,
    ensures
        read_program(quoted(name) + rest) == (name, rest),
{
    let line = quoted(name) + rest;
    if needs_quotes(name) {
        lemma_quoted_rest_without_marks(name, 0);
        assert(backslashes(0) + name =~= name);
        let tail = seq![QUOTE] + rest;
        assert(line.skip(1) =~= name + tail);
        lemma_first_unit(name, tail, |unit: u16| unit == QUOTE);
        assert(line.skip(1).take(name.len() as int) =~= name);
        assert(line.skip(name.len() as int + 2) =~= rest);
    } else {
        assert forall|index: int| 0 <= index < name.len() implies #[trigger] name[index]
            > SPACE by {
            assert(!forces_quotes(name[index]));
        }
        lemma_first_unit(name, rest, |unit: u16| unit <= SPACE);
        assert(line.take(name.len() as int) =~= name);
        assert(line.skip(name.len() as int) =~= rest);
    }
}

/// A whole command line, a program's name followed by arguments, reads as what it
/// was made from.
pub proof fn law_a_whole_command_line_reads_back(name: Seq<u16>, arguments: Seq<Seq<u16>>)
    requires
        name.len() > 0,
        forall|index: int|
            0 <= index < name.len() ==> #[trigger] name[index] != QUOTE && name[index] >= SPACE,
        needs_quotes(name) ==> name.last() != BACKSLASH,
    ensures
        ({
            let (program, rest) = read_program(joined(seq![name] + arguments));
            program == name && read_arguments(rest) == arguments
        }),
{
    let all = seq![name] + arguments;
    assert(all.skip(1) =~= arguments);
    let rest = if arguments.len() == 0 {
        Seq::empty()
    } else {
        seq![SPACE] + joined(arguments)
    };
    assert(joined(all) =~= quoted(name) + rest);
    law_a_program_name_reads_back(name, rest);
    law_a_command_line_reads_back(arguments);
    if arguments.len() == 0 {
        assert(read_arguments(rest) =~= arguments);
    } else {
        assert(rest.skip(1) =~= joined(arguments));
    }
}

/// The variable that Steam sets so that games leave controllers to it.
pub open spec fn ignore_variable() -> Seq<char> {
    "SDL_GAMECONTROLLER_IGNORE_DEVICES"@
}

/// Whether a unit is an ASCII character that differs from `c` at most in case.
pub open spec fn is_ascii_letter_like(unit: u16, c: char) -> bool {
    unit < 128 && ascii_lower(unit as int) == ascii_lower(c as int)
}

/// Whether units are ASCII text that differs from `text` at most in case.
pub open spec fn is_ascii_text_like(units: Seq<u16>, text: Seq<char>) -> bool {
    &&& units.len() == text.len()
    &&& forall|index: int|
        0 <= index < units.len() ==> is_ascii_letter_like(#[trigger] units[index], text[index])
}

fn lower(c: char) -> (value: u32)
    ensures
        value == ascii_lower(c as int),
{
    proof {
        lemma_char_range(c);
    }
    let value: u32 = c as u32;
    if value >= 65 && value <= 90 {
        value + 32
    } else {
        value
    }
}

/// Compares all units with ASCII text without regard to case.
///
/// A unit beyond ASCII never matches, whatever its low byte is.
pub fn units_eq_ignore_ascii_case(units: &[u16], text: &str) -> (equal: bool)
    ensures
        equal == is_ascii_text_like(units@, text@),
{
    let expected = characters(text);
    if units.len() != expected.len() {
        return false;
    }
    let mut index: usize = 0;
    while index < units.len()
        invariant
            index <= units.len(),
            units.len() == expected.len(),
            expected@ == text@,
            forall|before: int|
                0 <= before < index ==> is_ascii_letter_like(
                    #[trigger] units@[before],
                    text@[before],
                ),
        decreases units.len() - index,
    {
        let unit: u16 = units[index];
        let left: u32 = if unit >= 65 && unit <= 90 {
            unit as u32 + 32
        } else {
            unit as u32
        };
        if unit >= 128 || left != lower(expected[index]) {
            assert(!is_ascii_letter_like(units@[index as int], text@[index as int]));
            return false;
        }
        index = index + 1;
    }
    true
}

/// Compares the units before the first zero unit with ASCII text, without regard to
/// case.
pub fn wide_eq_ignore_ascii_case(units: &[u16], text: &str) -> (equal: bool)
    ensures
        equal == is_ascii_text_like(until_nul(units@), text@),
{
    let length: usize = length_until_nul(units);
    let part = vstd::slice::slice_subrange(units, 0, length);
    assert(part@ =~= until_nul(units@));
    units_eq_ignore_ascii_case(part, text)
}

/// Whether two texts are the same but for the case of ASCII letters.
pub open spec fn is_text_like(left: Seq<char>, right: Seq<char>) -> bool {
    &&& left.len() == right.len()
    &&& forall|index: int|
        0 <= index < left.len() ==> ascii_lower(#[trigger] left[index] as int) == ascii_lower(
            right[index] as int,
        )
}

/// Compares two texts without regard to the case of ASCII letters.
pub fn text_eq_ignore_ascii_case(left: &str, right: &str) -> (equal: bool)
    ensures
        equal == is_text_like(left@, right@),
{
    let first = characters(left);
    let second = characters(right);
    if first.len() != second.len() {
        return false;
    }
    let mut index: usize = 0;
    while index < first.len()
        invariant
            index <= first.len(),
            first.len() == second.len(),
            first@ == left@,
            second@ == right@,
            forall|before: int|
                0 <= before < index ==> ascii_lower(#[trigger] left@[before] as int) == ascii_lower(
                    right@[before] as int,
                ),
        decreases first.len() - index,
    {
        if lower(first[index]) != lower(second[index]) {
            assert(ascii_lower(left@[index as int] as int) != ascii_lower(
                right@[index as int] as int,
            ));
            return false;
        }
        index = index + 1;
    }
    true
}

/// Whether an environment entry sets the ignored variable.
pub open spec fn sets_ignore_variable(entry: Seq<u16>) -> bool {
    let length = ignore_variable().len() as int;
    &&& entry.len() > length
    &&& is_ascii_text_like(entry.take(length), ignore_variable())
    &&& entry[length] == 61
}

/// The entries without those that set the ignored variable.
pub open spec fn kept_entries(entries: Seq<Seq<u16>>) -> Seq<Seq<u16>>
    decreases entries.len(),
{
    if entries.len() == 0 {
        Seq::empty()
    } else {
        let before = kept_entries(entries.drop_last());
        if sets_ignore_variable(entries.last()) {
            before
        } else {
            before.push(entries.last())
        }
    }
}

/// Entries as an environment block, without its final terminator.
pub open spec fn environment_entries(entries: Seq<Seq<u16>>) -> Seq<u16>
    decreases entries.len(),
{
    if entries.len() == 0 {
        Seq::empty()
    } else {
        environment_entries(entries.drop_last()) + entries.last() + seq![0u16]
    }
}

/// Whether an environment entry sets the ignored variable, in whatever case.
pub fn is_ignored_entry(entry: &[u16]) -> (result: bool)
    ensures
        result == sets_ignore_variable(entry@),
{
    let name = "SDL_GAMECONTROLLER_IGNORE_DEVICES";
    let expected = characters(name);
    let length: usize = expected.len();
    if entry.len() <= length || entry[length] != 61 {
        return false;
    }
    let start = vstd::slice::slice_subrange(entry, 0, length);
    assert(start@ =~= entry@.take(length as int));
    units_eq_ignore_ascii_case(start, name)
}

/// Builds the environment block of a wrapped process: a copy of the given entries
/// without the ignored variable.
///
/// Steam sets that variable for games that use Steam Input; kept while a lease
/// blocks Steam, it would hide the controller from the game as well.
pub fn wrapped_environment(entries: &Vec<Vec<u16>>) -> (block: Vec<u16>)
    ensures
        block@ == environment_entries(kept_entries(views(entries@))) + if kept_entries(
            views(entries@),
        ).len() == 0 {
            seq![0u16, 0u16]
        } else {
            seq![0u16]
        },
{
    let mut block: Vec<u16> = Vec::new();
    let mut kept: usize = 0;
    let mut index: usize = 0;
    assert(views(entries@).take(0) =~= Seq::empty());
    while index < entries.len()
        invariant
            index <= entries.len(),
            kept <= index,
            kept == kept_entries(views(entries@).take(index as int)).len(),
            block@ == environment_entries(kept_entries(views(entries@).take(index as int))),
        decreases entries.len() - index,
    {
        let ghost done = views(entries@).take(index as int);
        let ghost next = views(entries@).take(index + 1);
        let ghost before = block@;
        assert(next.drop_last() =~= done);
        assert(next.last() == entries@[index as int]@);
        if !is_ignored_entry(&entries[index]) {
            let mut copy = copy_units(&entries[index]);
            block.append(&mut copy);
            block.push(0);
            kept = kept + 1;
            proof {
                let list = kept_entries(done);
                let longer = list.push(entries@[index as int]@);
                assert(longer.drop_last() =~= list);
                assert(block@ =~= environment_entries(longer));
            }
        }
        index = index + 1;
    }
    assert(views(entries@).take(entries@.len() as int) =~= views(entries@));
    if kept == 0 {
        block.push(0);
    }
    block.push(0);
    block
}

/// A wrapped process gets every entry but those that set the ignored variable.
pub proof fn law_only_the_ignored_variable_is_removed(entries: Seq<Seq<u16>>)
    ensures
        forall|entry: Seq<u16>| #[trigger]
            kept_entries(entries).contains(entry) <==> entries.contains(entry)
                && !sets_ignore_variable(entry),
    decreases entries.len(),
{
    if entries.len() > 0 {
        let fewer = entries.drop_last();
        let last = entries.last();
        law_only_the_ignored_variable_is_removed(fewer);
        let before = kept_entries(fewer);
        let after = kept_entries(entries);
        assert forall|entry: Seq<u16>| #[trigger] after.contains(entry) <==> entries.contains(entry)
            && !sets_ignore_variable(entry) by {
            assert(entries =~= fewer.push(last));
            assert(entries.contains(entry) <==> fewer.contains(entry) || entry == last) by {
                if fewer.contains(entry) {
                    let at = choose|at: int| 0 <= at < fewer.len() && fewer[at] == entry;
                    assert(entries[at] == entry);
                }
                if entries.contains(entry) && entry != last {
                    let at = choose|at: int| 0 <= at < entries.len() && entries[at] == entry;
                    assert(fewer[at] == entry);
                }
                assert(entries[entries.len() - 1] == last);
            }
            if !sets_ignore_variable(last) {
                assert(after.contains(entry) <==> before.contains(entry) || entry == last) by {
                    if before.contains(entry) {
                        let at = choose|at: int| 0 <= at < before.len() && before[at] == entry;
                        assert(after[at] == entry);
                    }
                    if after.contains(entry) && entry != last {
                        let at = choose|at: int| 0 <= at < after.len() && after[at] == entry;
                        assert(before[at] == entry);
                    }
                    assert(after[after.len() - 1] == last);
                }
            }
            assert(before.contains(entry) <==> fewer.contains(entry) && !sets_ignore_variable(
                entry,
            ));
        }
    }
}

/// The exit code of a program whose process tree could no longer be followed.
pub const ERROR_PROCESS_ABORTED: u32 = 1067;

/// The pause between looks at a process tree, in milliseconds.
pub const TREE_POLL_INTERVAL: u64 = 25;

/// A stage of running a program to its end.
#[derive(Debug)]
pub enum LaunchStage {
    /// Create the process, suspended.
    Creating,
    /// Create a job.
    CreatingJob,
    /// Put the process into the job.
    Assigning,
    /// Let the process run.
    Resuming,
    /// Count the processes of the job.
    Accounting,
    /// Pause for [`TREE_POLL_INTERVAL`].
    Pausing,
    /// Read the exit code.
    ReadingExit,
    /// Terminate the process, which never ran, because of this error.
    TerminatingProcess(Error),
    /// Terminate the job, which can no longer be followed.
    TerminatingJob,
    /// The program ran, with this exit code, or never started.
    Finished(Result<u32, Error>),
}

/// The outcome of a stage.
#[derive(Debug)]
pub enum LaunchEvent {
    /// The stage succeeded.
    Succeeded,
    /// The stage failed.
    Failed(OsError),
    /// So many processes of the job are active.
    Active(u32),
    /// The exit code.
    Exited(u32),
}

impl LaunchStage {
    /// Whether an event answers what the stage stands for.
    pub open spec fn awaits(self, event: LaunchEvent) -> bool {
        match self {
            LaunchStage::Creating
            | LaunchStage::CreatingJob
            | LaunchStage::Assigning
            | LaunchStage::Resuming => event is Succeeded || event is Failed,
            LaunchStage::Accounting => event is Active || event is Failed,
            LaunchStage::Pausing => event is Succeeded,
            LaunchStage::ReadingExit => event is Exited || event is Failed,
            LaunchStage::TerminatingProcess(_) | LaunchStage::TerminatingJob => event is Succeeded
                || event is Failed,
            LaunchStage::Finished(_) => false,
        }
    }

    /// The stage that follows.
    ///
    /// Everything up to the resumption is required: where it fails, the process is
    /// terminated before it ever ran, and the error says that it never started.
    /// After the resumption there is no error any more.
    pub open spec fn after(self, event: LaunchEvent) -> LaunchStage {
        match (self, event) {
            (LaunchStage::Creating, LaunchEvent::Failed(source)) => LaunchStage::Finished(
                Err(Error::Windows { operation: "could not start wrapped process", source }),
            ),
            (LaunchStage::Creating, _) => LaunchStage::CreatingJob,
            (LaunchStage::CreatingJob, LaunchEvent::Failed(source)) =>
                LaunchStage::TerminatingProcess(
                    Error::Windows { operation: "could not create the process job", source },
                ),
            (LaunchStage::CreatingJob, _) => LaunchStage::Assigning,
            (LaunchStage::Assigning, LaunchEvent::Failed(source)) =>
                LaunchStage::TerminatingProcess(
                    Error::Windows { operation: "could not assign the process to its job", source },
                ),
            (LaunchStage::Assigning, _) => LaunchStage::Resuming,
            (LaunchStage::Resuming, LaunchEvent::Failed(source)) =>
                LaunchStage::TerminatingProcess(
                    Error::Windows { operation: "could not resume the wrapped process", source },
                ),
            (LaunchStage::Resuming, _) => LaunchStage::Accounting,
            (LaunchStage::Accounting, LaunchEvent::Active(count)) => if count == 0 {
                LaunchStage::ReadingExit
            } else {
                LaunchStage::Pausing
            },
            (LaunchStage::Accounting, _) => LaunchStage::TerminatingJob,
            (LaunchStage::Pausing, _) => LaunchStage::Accounting,
            (LaunchStage::ReadingExit, LaunchEvent::Exited(code)) => LaunchStage::Finished(
                Ok(code),
            ),
            (LaunchStage::ReadingExit, _) => LaunchStage::Finished(Ok(0)),
            (LaunchStage::TerminatingProcess(error), _) => LaunchStage::Finished(Err(error)),
            (LaunchStage::TerminatingJob, _) => LaunchStage::Finished(Ok(ERROR_PROCESS_ABORTED)),
            (LaunchStage::Finished(result), _) => LaunchStage::Finished(result),
        }
    }
}

/// Decides the stage that follows.
///
/// The process joins its job before it runs, so that nothing it starts can escape
/// the wait.
pub fn launch_and_wait(stage: LaunchStage, event: LaunchEvent) -> (next: LaunchStage)
    requires
        stage.awaits(event),
    ensures
        next == stage.after(event),
{
    match (stage, event) {
        (LaunchStage::Creating, LaunchEvent::Failed(source)) => LaunchStage::Finished(
            Err(Error::windows("could not start wrapped process", source)),
        ),
        (LaunchStage::Creating, _) => LaunchStage::CreatingJob,
        (LaunchStage::CreatingJob, LaunchEvent::Failed(source)) => LaunchStage::TerminatingProcess(
            Error::windows("could not create the process job", source),
        ),
        (LaunchStage::CreatingJob, _) => LaunchStage::Assigning,
        (LaunchStage::Assigning, LaunchEvent::Failed(source)) => LaunchStage::TerminatingProcess(
            Error::windows("could not assign the process to its job", source),
        ),
        (LaunchStage::Assigning, _) => LaunchStage::Resuming,
        (LaunchStage::Resuming, LaunchEvent::Failed(source)) => LaunchStage::TerminatingProcess(
            Error::windows("could not resume the wrapped process", source),
        ),
        (LaunchStage::Resuming, _) => LaunchStage::Accounting,
        (LaunchStage::Accounting, LaunchEvent::Active(count)) => if count == 0 {
            LaunchStage::ReadingExit
        } else {
            LaunchStage::Pausing
        },
        (LaunchStage::Accounting, _) => LaunchStage::TerminatingJob,
        (LaunchStage::Pausing, _) => LaunchStage::Accounting,
        (LaunchStage::ReadingExit, LaunchEvent::Exited(code)) => LaunchStage::Finished(Ok(code)),
        (LaunchStage::ReadingExit, _) => LaunchStage::Finished(Ok(0)),
        (LaunchStage::TerminatingProcess(error), _) => LaunchStage::Finished(Err(error)),
        (LaunchStage::TerminatingJob, _) => LaunchStage::Finished(Ok(ERROR_PROCESS_ABORTED)),
        (LaunchStage::Finished(result), _) => LaunchStage::Finished(result),
    }
}

/// The stage after a whole history of outcomes.
pub open spec fn launch_stage(events: Seq<LaunchEvent>) -> LaunchStage
    decreases events.len(),
{
    if events.len() == 0 {
        LaunchStage::Creating
    } else {
        launch_stage(events.drop_last()).after(events.last())
    }
}

/// Whether the process was let run in a history of outcomes.
pub open spec fn resumed(events: Seq<LaunchEvent>) -> bool
    decreases events.len(),
{
    if events.len() == 0 {
        false
    } else {
        resumed(events.drop_last()) || (launch_stage(events.drop_last()) is Resuming
            && events.last() is Succeeded)
    }
}

/// Whether every event of a history answered its stage.
pub open spec fn in_order(events: Seq<LaunchEvent>) -> bool
    decreases events.len(),
{
    events.len() == 0 || (in_order(events.drop_last()) && launch_stage(events.drop_last()).awaits(
        events.last(),
    ))
}

/// An error means that the program never ran, so running it again cannot run it
/// twice; an exit code means that it did.
pub proof fn law_an_error_means_never_started(events: Seq<LaunchEvent>)
    requires
        in_order(events),
    ensures
        launch_stage(events) matches LaunchStage::Finished(Err(_)) ==> !resumed(events),
        launch_stage(events) matches LaunchStage::Finished(Ok(_)) ==> resumed(events),
        launch_stage(events) is TerminatingProcess ==> !resumed(events),
        launch_stage(events) is Accounting ==> resumed(events),
{
    lemma_running_follows_resumption(events);
}

proof fn lemma_running_follows_resumption(events: Seq<LaunchEvent>)
    requires
        in_order(events),
    ensures
        match launch_stage(events) {
            LaunchStage::Creating
            | LaunchStage::CreatingJob
            | LaunchStage::Assigning
            | LaunchStage::Resuming
            | LaunchStage::TerminatingProcess(_) => !resumed(events),
            LaunchStage::Accounting
            | LaunchStage::Pausing
            | LaunchStage::ReadingExit
            | LaunchStage::TerminatingJob => resumed(events),
            LaunchStage::Finished(Ok(_)) => resumed(events),
            LaunchStage::Finished(Err(_)) => !resumed(events),
        },
    decreases events.len(),
{
    if events.len() > 0 {
        lemma_running_follows_resumption(events.drop_last());
    }
}

/// Once the process runs, its exit code is read only after the job reported that no
/// process of the tree is active; any other count means one more pause and another look.
pub proof fn law_the_whole_tree_is_awaited(events: Seq<LaunchEvent>, count: u32)
    requires
        in_order(events),
    ensures
        launch_stage(events) is ReadingExit ==> events.len() > 0 && events.last()
            == LaunchEvent::Active(0),
        launch_stage(events) is Pausing ==> (events.last() matches LaunchEvent::Active(active)
            && active > 0),
        launch_stage(events) is Accounting ==> {
            let next = events.push(LaunchEvent::Active(count));
            let again = next.push(LaunchEvent::Succeeded);
            &&& in_order(next)
            &&& count == 0 <==> launch_stage(next) is ReadingExit
            &&& count > 0 ==> launch_stage(next) is Pausing && launch_stage(again) is Accounting
        },
{
    if events.len() > 0 {
        let earlier = events.drop_last();
        assert(launch_stage(earlier).awaits(events.last()));
    }
    let next = events.push(LaunchEvent::Active(count));
    let again = next.push(LaunchEvent::Succeeded);
    assert(next.drop_last() =~= events);
    assert(again.drop_last() =~= next);
}

/// A program that ran ends with the exit code that was read. Only where that could not
/// be read the code is zero, and only where the tree could no longer be followed the job
/// is terminated and the code says that the process was aborted.
pub proof fn law_the_exit_code_is_the_programs(events: Seq<LaunchEvent>)
    requires
        in_order(events),
        launch_stage(events) matches LaunchStage::Finished(Ok(_)),
    ensures
        ({
            let code = launch_stage(events)->Finished_0->Ok_0;
            let earlier = events.drop_last();
            &&& events.len() > 0
            &&& match events.last() {
                LaunchEvent::Exited(read) => code == read && earlier.last() == LaunchEvent::Active(
                    0,
                ),
                LaunchEvent::Active(_) => false,
                _ => {
                    ||| code == 0 && events.last() is Failed && earlier.last()
                        == LaunchEvent::Active(0)
                    ||| code == 1067 && launch_stage(earlier) is TerminatingJob && earlier.last() is Failed
                },
            }
        }),
{
    if events.len() > 0 {
        let earlier = events.drop_last();
        assert(launch_stage(earlier).awaits(events.last()));
        law_the_whole_tree_is_awaited(earlier, 0);
        assert(in_order(earlier));
        if earlier.len() > 0 {
            assert(launch_stage(earlier.drop_last()).awaits(earlier.last()));
        }
    }
}

/// The process is created, a job is made and the process is put into it, all with
/// success and in this order, before the process is let run: nothing that it starts can
/// escape the wait.
pub proof fn law_the_process_runs_inside_its_job(events: Seq<LaunchEvent>)
    requires
        in_order(events),
    ensures
        launch_stage(events.take(0)) is Creating,
        resumed(events) ==> {
            &&& events.len() >= 4
            &&& launch_stage(events.take(1)) is CreatingJob
            &&& launch_stage(events.take(2)) is Assigning
            &&& launch_stage(events.take(3)) is Resuming
            &&& forall|index: int| 0 <= index < 4 ==> #[trigger] events[index] is Succeeded
        },
    decreases events.len(),
{
    lemma_start_is_in_order(events);
}

proof fn lemma_start_is_in_order(events: Seq<LaunchEvent>)
    requires
        in_order(events),
    ensures
        match launch_stage(events) {
            LaunchStage::Creating => events.len() == 0,
            LaunchStage::CreatingJob => events.len() == 1 && events[0] is Succeeded,
            LaunchStage::Assigning => events.len() == 2 && events[0] is Succeeded
                && events[1] is Succeeded,
            LaunchStage::Resuming => events.len() == 3 && events[0] is Succeeded
                && events[1] is Succeeded && events[2] is Succeeded,
            _ => true,
        },
        launch_stage(events) is CreatingJob ==> launch_stage(events.take(1)) is CreatingJob,
        launch_stage(events) is Assigning || launch_stage(events) is Resuming ==> launch_stage(
            events.take(1),
        ) is CreatingJob && launch_stage(events.take(2)) is Assigning,
        resumed(events) ==> {
            &&& events.len() >= 4
            &&& launch_stage(events.take(1)) is CreatingJob
            &&& launch_stage(events.take(2)) is Assigning
            &&& launch_stage(events.take(3)) is Resuming
            &&& forall|index: int| 0 <= index < 4 ==> #[trigger] events[index] is Succeeded
        },
    decreases events.len(),
{
    if events.len() > 0 {
        let earlier = events.drop_last();
        lemma_start_is_in_order(earlier);
        assert(launch_stage(earlier).awaits(events.last()));
        assert(events.take(events.len() as int) =~= events);
        if events.len() > 1 {
            assert(events.take(1) =~= earlier.take(1));
        }
        if events.len() > 2 {
            assert(events.take(2) =~= earlier.take(2));
        }
        if events.len() > 3 {
            assert(events.take(3) =~= earlier.take(3));
            assert(earlier.take(3) =~= earlier || earlier.len() > 3);
        }
        if resumed(earlier) {
            assert forall|index: int| 0 <= index < 4 implies #[trigger] events[index] is Succeeded by {
                assert(events[index] == earlier[index]);
            }
        }
    }
}

/// An error carries what the system reported of the step that failed, and names that
/// step. A process that was created is terminated first.
pub proof fn law_an_error_tells_the_failed_step(events: Seq<LaunchEvent>)
    requires
        in_order(events),
        launch_stage(events) matches LaunchStage::Finished(Err(_)),
    ensures
        ({
            let error = launch_stage(events)->Finished_0->Err_0;
            exists|step: int|
                #![trigger events[step]]
                {
                    &&& 0 <= step < 4
                    &&& step < events.len()
                    &&& forall|before: int|
                        0 <= before < step ==> #[trigger] events[before] is Succeeded
                    &&& events[step] matches LaunchEvent::Failed(source)
                    &&& error matches Error::Windows { operation, source: reported }
                    &&& reported == source
                    &&& step == 0 <==> operation@ == "could not start wrapped process"@
                    &&& step == 1 <==> operation@ == "could not create the process job"@
                    &&& step == 2 <==> operation@ == "could not assign the process to its job"@
                    &&& step == 3 <==> operation@ == "could not resume the wrapped process"@
                    &&& step > 0 ==> launch_stage(events.drop_last()) is TerminatingProcess
                }
        }),
{
    let earlier = events.drop_last();
    assert(launch_stage(earlier).awaits(events.last()));
    lemma_texts_of_steps();
    lemma_start_is_in_order(earlier);
    if launch_stage(earlier) is Creating {
        assert(events[0] is Failed);
    } else {
        assert(launch_stage(earlier) is TerminatingProcess);
        let first = earlier.drop_last();
        assert(in_order(earlier));
        assert(launch_stage(first).awaits(earlier.last()));
        lemma_start_is_in_order(first);
        let step = first.len() as int;
        assert(events[step] == earlier.last());
        assert forall|before: int| 0 <= before < step implies #[trigger] events[before] is Succeeded by {
            assert(events[before] == first[before]);
        }
    }
}

proof fn lemma_texts_of_steps()
    ensures
        "could not start wrapped process"@.len() == 31,
        "could not create the process job"@.len() == 32,
        "could not assign the process to its job"@.len() == 39,
        "could not resume the wrapped process"@.len() == 36,
{
    reveal_strlit("could not start wrapped process");
    reveal_strlit("could not create the process job");
    reveal_strlit("could not assign the process to its job");
    reveal_strlit("could not resume the wrapped process");
}

/// An argument stays as it is exactly where it is not empty and holds neither a space, a
/// tabulator, a line feed, a vertical tabulator nor a quotation mark. Every other one
/// stands between quotation marks.
pub proof fn law_only_plain_arguments_stay_bare(argument: Seq<u16>)
    ensures
        quoted(argument) == argument <==> argument.len() > 0 && !argument.contains(32)
            && !argument.contains(9) && !argument.contains(10) && !argument.contains(11)
            && !argument.contains(34),
        quoted(argument) != argument ==> quoted(argument).len() >= argument.len() + 2
            && quoted(argument)[0] == 34 && quoted(argument).last() == 34,
{
    if needs_quotes(argument) {
        lemma_quoted_rest_is_no_shorter(argument, 0);
        assert(quoted(argument).len() > argument.len());
        if argument.len() > 0 {
            let index = choose|index: int|
                0 <= index < argument.len() && forces_quotes(#[trigger] argument[index]);
            assert(argument.contains(argument[index]));
        }
    } else {
        assert forall|unit: u16| #[trigger] argument.contains(unit) implies !forces_quotes(unit) by {
            let index = choose|index: int| 0 <= index < argument.len() && argument[index] == unit;
            assert(!forces_quotes(argument[index]));
        }
    }
}

proof fn lemma_quoted_rest_is_no_shorter(argument: Seq<u16>, pending: nat)
    ensures
        quoted_rest(argument, pending).len() >= argument.len() + pending,
    decreases argument.len(),
{
    if argument.len() > 0 {
        if argument[0] == BACKSLASH {
            lemma_quoted_rest_is_no_shorter(argument.skip(1), pending + 1);
        } else {
            lemma_quoted_rest_is_no_shorter(argument.skip(1), 0);
        }
    }
}

/// One more argument follows the others behind one space.
pub proof fn law_arguments_follow_behind_one_space(arguments: Seq<Seq<u16>>, last: Seq<u16>)
    ensures
        arguments.len() > 0 ==> joined(arguments.push(last)) == joined(arguments) + seq![32u16]
            + quoted(last),
        arguments.len() == 0 ==> joined(arguments.push(last)) == quoted(last),
{
    lemma_joined_push(arguments, last);
}

/// Text is compared character by character, an upper-case ASCII letter counting as the
/// lower-case one and nothing else being alike; a unit beyond ASCII is never alike.
pub proof fn law_only_the_case_of_letters_is_ignored(unit: u16, c: char, other: char)
    ensures
        is_ascii_letter_like(unit, c) <==> unit < 128 && (unit as int == c as int || (65 <= unit
            <= 90 && c as int == unit + 32) || (97 <= unit <= 122 && c as int == unit - 32)),
        is_text_like(seq![c], seq![other]) <==> c == other || (65 <= c as int <= 90 && other as int
            == c as int + 32) || (97 <= c as int <= 122 && other as int == c as int - 32),
{
    lemma_char_range(c);
    lemma_char_range(other);
    let one = seq![c];
    let two = seq![other];
    assert(one[0] == c && two[0] == other);
    assert(ascii_lower(one[0] as int) == ascii_lower(c as int));
    if is_text_like(one, two) {
        assert(ascii_lower(one[0] as int) == ascii_lower(two[0] as int));
    }
}

/// Texts are alike exactly where they are equally long and alike at every place.
pub proof fn law_texts_are_alike_place_by_place(left: Seq<char>, right: Seq<char>)
    ensures
        is_text_like(left, right) <==> left.len() == right.len() && forall|index: int|
            0 <= index < left.len() ==> is_text_like(
                seq![#[trigger] left[index]],
                seq![right[index]],
            ),
        is_text_like(left, left),
        is_text_like(left, right) ==> is_text_like(right, left),
{
    if is_text_like(left, right) {
        assert forall|index: int| 0 <= index < left.len() implies is_text_like(
            seq![#[trigger] left[index]],
            seq![right[index]],
        ) by {
            assert(ascii_lower(left[index] as int) == ascii_lower(right[index] as int));
        }
        assert forall|index: int| 0 <= index < right.len() implies ascii_lower(
            #[trigger] right[index] as int,
        ) == ascii_lower(left[index] as int) by {
            assert(ascii_lower(left[index] as int) == ascii_lower(right[index] as int));
        }
    } else if left.len() == right.len() && (forall|index: int|
        0 <= index < left.len() ==> is_text_like(seq![#[trigger] left[index]], seq![right[index]])) {
        assert forall|index: int| 0 <= index < left.len() implies ascii_lower(
            #[trigger] left[index] as int,
        ) == ascii_lower(right[index] as int) by {
            let one = seq![left[index]];
            let two = seq![right[index]];
            assert(is_text_like(one, two));
            assert(ascii_lower(one[0] as int) == ascii_lower(two[0] as int));
        }
    }
}

/// One more unit keeps units and text alike exactly where it is like the text's next
/// character.
pub proof fn law_units_are_alike_place_by_place(
    units: Seq<u16>,
    text: Seq<char>,
    unit: u16,
    c: char,
)
    ensures
        is_ascii_text_like(units.push(unit), text.push(c)) <==> is_ascii_text_like(units, text)
            && is_ascii_letter_like(unit, c),
        is_ascii_text_like(Seq::empty(), Seq::empty()),
        is_ascii_text_like(units, text) ==> units.len() == text.len(),
{
    let more = units.push(unit);
    let longer = text.push(c);
    if is_ascii_text_like(more, longer) {
        assert(more[units.len() as int] == unit && longer[units.len() as int] == c);
        assert(is_ascii_letter_like(more[units.len() as int], longer[units.len() as int]));
        assert forall|index: int| 0 <= index < units.len() implies is_ascii_letter_like(
            #[trigger] units[index],
            text[index],
        ) by {
            assert(is_ascii_letter_like(more[index], longer[index]));
        }
    }
}

/// Of units that end in a zero, what counts stands before the first zero.
pub proof fn law_text_ends_at_the_first_zero(text: Seq<u16>, rest: Seq<u16>)
    requires
        forall|index: int| 0 <= index < text.len() ==> #[trigger] text[index] != 0,
    ensures
        until_nul(text) == text,
        until_nul(text.push(0) + rest) == text,
{
    let all = text.push(0) + rest;
    assert forall|index: int| 0 <= index < text.len() implies #[trigger] all[index] != 0 by {
        assert(all[index] == text[index]);
    }
    lemma_first_zero(text, text.len() as int);
    lemma_first_zero(all, text.len() as int);
    assert(text.take(text.len() as int) =~= text);
    assert(all.take(text.len() as int) =~= text);
}

/// An entry sets the ignored variable exactly where it is that variable's name in
/// whatever case, an equals sign and any value.
pub proof fn law_the_ignored_variable_is_told_by_its_name(
    name: Seq<u16>,
    value: Seq<u16>,
    entry: Seq<u16>,
)
    ensures
        is_ascii_text_like(name, "SDL_GAMECONTROLLER_IGNORE_DEVICES"@) ==> sets_ignore_variable(
            name + seq![61u16] + value,
        ),
        sets_ignore_variable(entry) ==> entry.len() > 33 && entry[33] == 61 && is_ascii_text_like(
            entry.take(33),
            "SDL_GAMECONTROLLER_IGNORE_DEVICES"@,
        ),
{
    reveal_strlit("SDL_GAMECONTROLLER_IGNORE_DEVICES");
    let whole = name + seq![61u16] + value;
    if is_ascii_text_like(name, "SDL_GAMECONTROLLER_IGNORE_DEVICES"@) {
        assert(whole.take(33) =~= name);
        assert(whole[33] == 61);
    }
}

/// Entries are judged one by one and keep their order, and each that is kept stands in
/// the block followed by a zero unit.
pub proof fn law_entries_are_kept_in_order(first: Seq<Seq<u16>>, second: Seq<Seq<u16>>)
    ensures
        kept_entries(first + second) == kept_entries(first) + kept_entries(second),
        environment_entries(first + second) == environment_entries(first) + environment_entries(
            second,
        ),
        first.len() == 1 ==> environment_entries(first) == first[0].push(0),
        first.len() == 0 ==> environment_entries(first).len() == 0,
    decreases second.len(),
{
    if first.len() == 1 {
        assert(environment_entries(first.drop_last()) =~= Seq::empty());
        assert(environment_entries(first) =~= first[0].push(0));
    }
    if second.len() == 0 {
        assert(first + second =~= first);
        assert(kept_entries(first) + kept_entries(second) =~= kept_entries(first));
        assert(environment_entries(first) + environment_entries(second) =~= environment_entries(
            first,
        ));
    } else {
        let fewer = second.drop_last();
        law_entries_are_kept_in_order(first, fewer);
        assert((first + second).drop_last() =~= first + fewer);
        assert((first + second).last() == second.last());
        assert(kept_entries(first + second) =~= kept_entries(first) + kept_entries(second));
        assert(environment_entries(first + second) =~= environment_entries(first)
            + environment_entries(second));
    }
}

} // verus!
