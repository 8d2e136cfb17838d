//! The line interpreter: it reads one source line, checks it, and has the
//! emitter write what the line asks for.

use vstd::prelude::*;
use crate::command::{
    command_of, command_of_tokens, has_num_prefix, read_command, without_marker, Command,
    ParseError,
};
use crate::text::{
    chars_of, is_blank, is_whitespace, lemma_last_token, lemma_marked_is_no_number,
    lemma_no_tokens_iff_blank, tokens,
};
use crate::transpiler::{
    lemma_put_multiple, lemma_put_multiple_appends, move_code, EmitterState, Transpiler,
};

verus! {

/// Whether a line ends in the marker `!`, which asks for one step to the
/// right after the line's command. The line is taken as written: white space
/// after the `!` hides it.
pub open spec fn ends_with_marker(line: Seq<char>) -> bool {
    line.len() > 0 && line.last() == '!'
}

/// Where `command` leaves a cursor that stood at `cursor`. The result is out
/// of range where the command would leave the tape.
pub open spec fn target_of(command: Command, cursor: nat) -> int {
    match command {
        Command::MoveTo(n) => n as int,
        Command::MoveRight(n) => cursor + n,
        Command::MoveLeft(n) => cursor - n,
        Command::PutMultiple(n) => cursor + n,
        Command::Advance => cursor as int + 1,
        _ => cursor as int,
    }
}

/// What `command` makes of the emitter state `state`, where
/// `target_of(command, state.cursor)` is not negative.
pub open spec fn run_command(state: EmitterState, command: Command) -> EmitterState {
    match command {
        Command::MoveTo(n) => state.move_to(n as nat),
        Command::MoveRight(n) => state.move_to(state.cursor + n as nat),
        Command::MoveLeft(n) => state.move_to((state.cursor - n) as nat),
        Command::StoreExact(n) => state.store_exact(n as nat),
        Command::StoreAdd(n) => state.store_add(n as nat),
        Command::StoreSub(n) => state.store_sub(n as nat),
        Command::StoreChar(c) => state.store_char(c),
        Command::Put => state.put(),
        Command::PutMultiple(n) => state.put_multiple(n as nat),
        Command::PutUntilNull => state.put_until_null(),
        Command::Advance => state.move_to(state.cursor + 1),
        Command::Ignored => state,
    }
}

/// What a source line makes of the emitter state `state`, or why the line is
/// rejected.
///
/// The line's command is carried out first; a line that ends in `!` then
/// steps one cell to the right. A line is rejected, with nothing written,
/// when it spells no command, when its command would take the cursor below
/// cell zero, and when the cursor would end past `usize::MAX`.
pub open spec fn interpret(state: EmitterState, line: Seq<char>) -> Result<
    EmitterState,
    ParseError,
> {
    match command_of(line) {
        Err(e) => Err(e),
        Ok(command) => {
            let target = target_of(command, state.cursor);
            let end = if ends_with_marker(line) {
                target + 1
            } else {
                target
            };
            if target < 0 {
                Err(ParseError::CursorUnderflow)
            } else if end > usize::MAX {
                Err(ParseError::CursorOverflow)
            } else {
                let after = run_command(state, command);
                Ok(
                    if ends_with_marker(line) {
                        after.move_to(after.cursor + 1)
                    } else {
                        after
                    },
                )
            }
        },
    }
}

/// A marker that is taken off a line leaves the line's command as it was,
/// where the line with the marker spells a command that is carried out and
/// the line without it does not end in a second marker.
pub proof fn lemma_marker_keeps_command(line: Seq<char>)
    requires
        ends_with_marker(line),
        !ends_with_marker(line.drop_last()),
        command_of(line) is Ok,
        command_of(line) != Ok::<Command, ParseError>(Command::Ignored),
    ensures
        command_of(line.drop_last()) == command_of(line),
{
    let bare = line.drop_last();
    let parts = tokens(line);
    let bare_parts = tokens(bare);
    reveal_strlit("move");
    reveal_strlit("store");
    reveal_strlit("storec");
    reveal_strlit("put");
    reveal_strlit("putw");
    reveal_strlit(">");
    reveal_strlit("*");
    reveal_strlit("<space>");
    assert(!is_whitespace('!'));
    assert(!is_whitespace(line[line.len() - 1]));
    lemma_no_tokens_iff_blank(bare);
    if bare.len() > 0 && !is_whitespace(bare.last()) && bare_parts.len() > 0 {
        // The marker is the last character of the line's last token.
        lemma_last_token(bare);
        let last = bare_parts.len() - 1;
        assert(line[line.len() - 2] == bare.last());
        assert(parts == bare_parts.drop_last().push(bare_parts.last().push('!')));
        assert(parts.len() == bare_parts.len());
        assert(parts[last] == bare_parts[last].push('!'));
        assert(parts[last].last() == '!');
        assert(!is_blank(bare));
        if last == 0 {
            assert(command_of_tokens(parts) is Err);
        } else if last == 1 {
            let arg = parts[1];
            assert(parts[0] == bare_parts[0]);
            lemma_marked_is_no_number(arg);
            if has_num_prefix(arg) {
                assert(arg.len() >= 2);
                assert(arg.drop_first().last() == '!');
                lemma_marked_is_no_number(arg.drop_first());
            }
            assert(without_marker(arg) =~= bare_parts[1]);
            assert(without_marker(bare_parts[1]) == bare_parts[1]);
        } else {
            assert(parts[0] == bare_parts[0]);
            assert(parts[1] == bare_parts[1]);
        }
    } else {
        // The marker is a token of its own.
        assert(parts == bare_parts.push(seq!['!']));
        if bare_parts.len() == 0 {
            assert(parts[0] == seq!['!']);
            assert(parts[0].len() == 1 && parts[0][0] == '!');
            assert(command_of_tokens(parts) is Err);
        } else if bare_parts.len() == 1 {
            let arg = parts[1];
            assert(parts[0] == bare_parts[0]);
            assert(arg == seq!['!']);
            lemma_marked_is_no_number(arg);
            assert(without_marker(arg) =~= Seq::<char>::empty());
        } else {
            assert(parts[0] == bare_parts[0]);
            assert(parts[1] == bare_parts[1]);
        }
    }
}

/// Where a line ends in `!` and spells the same command without it, the
/// line with the `!` leaves the cursor one cell to the right of where the
/// line without it leaves it, and writes one `>` more.
pub proof fn lemma_marker_adds_one_step(state: EmitterState, line: Seq<char>)
    requires
        ends_with_marker(line),
        !ends_with_marker(line.drop_last()),
        interpret(state, line) is Ok,
        command_of(line.drop_last()) == command_of(line),
    ensures
        interpret(state, line.drop_last()) is Ok,
        interpret(state, line).unwrap().cursor == interpret(state, line.drop_last()).unwrap().cursor
            + 1,
        interpret(state, line).unwrap().output == interpret(
            state,
            line.drop_last(),
        ).unwrap().output + seq!['>'],
{
    let command = command_of(line).unwrap();
    let after = run_command(state, command);
    lemma_run_command_cursor(state, command);
    assert(move_code(after.cursor, after.cursor + 1) =~= seq!['>']);
}

/// A line that ends in `!` and carries out its command leaves the cursor one
/// cell to the right of where the same line without the `!` leaves it, and
/// writes one `>` more.
///
/// The line without the `!` must not itself end in `!`: it would advance too.
pub proof fn lemma_marker_advances(state: EmitterState, line: Seq<char>)
    requires
        ends_with_marker(line),
        !ends_with_marker(line.drop_last()),
        interpret(state, line) is Ok,
        command_of(line) != Ok::<Command, ParseError>(Command::Ignored),
    ensures
        interpret(state, line.drop_last()) is Ok,
        interpret(state, line).unwrap().cursor == interpret(state, line.drop_last()).unwrap().cursor
            + 1,
        interpret(state, line).unwrap().output == interpret(
            state,
            line.drop_last(),
        ).unwrap().output + seq!['>'],
{
    lemma_marker_keeps_command(line);
    lemma_marker_adds_one_step(state, line);
}

/// A command that stays on the tape leaves the cursor at its target.
pub proof fn lemma_run_command_cursor(state: EmitterState, command: Command)
    requires
        target_of(command, state.cursor) >= 0,
    ensures
        run_command(state, command).cursor == target_of(command, state.cursor),
{
    if let Command::PutMultiple(n) = command {
        lemma_put_multiple(state, n as nat);
    }
}

/// A line only appends to what was written: no character written before it
/// is taken back or changed.
pub proof fn lemma_interpret_appends(state: EmitterState, line: Seq<char>)
    ensures
        interpret(state, line) matches Ok(next) ==> state.output.is_prefix_of(next.output),
{
    if let Ok(command) = command_of(line) {
        if let Command::PutMultiple(n) = command {
            lemma_put_multiple_appends(state, n as nat);
        }
    }
}

/// `putw n` leaves the cursor `n` cells to the right, and one more where the
/// line ends in `!`; it is rejected where that would pass `usize::MAX`.
pub proof fn lemma_putw_count_cursor(state: EmitterState, line: Seq<char>, n: usize)
    requires
        command_of(line) == Ok::<Command, ParseError>(Command::PutMultiple(n)),
    ensures
        interpret(state, line) is Ok <==> state.cursor + n + (if ends_with_marker(line) {
            1nat
        } else {
            0nat
        }) <= usize::MAX,
        interpret(state, line) matches Ok(next) ==> next.cursor == state.cursor + n + (
        if ends_with_marker(line) {
            1nat
        } else {
            0nat
        }),
        interpret(state, line) matches Err(e) ==> e == ParseError::CursorOverflow,
{
    lemma_put_multiple(state, n as nat);
}

/// `putw *` leaves the emitter's cursor where it was, and one cell to the
/// right where the line ends in `!`. The emitter does not follow the machine
/// here: where the printing loop stops depends on the tape.
pub proof fn lemma_putw_star_cursor(state: EmitterState, line: Seq<char>)
    requires
        command_of(line) == Ok::<Command, ParseError>(Command::PutUntilNull),
        interpret(state, line) is Ok,
    ensures
        interpret(state, line).unwrap().cursor == state.cursor + (if ends_with_marker(line) {
            1nat
        } else {
            0nat
        }),
{
}

/// The line interpreter. It keeps nothing between lines but the emitter it
/// borrows, so the cursor carries over from each line to the next.
pub struct Parser<'a> {
    /// The emitter that the lines drive.
    pub transpiler: &'a mut Transpiler,
}

impl<'a> Parser<'a> {
    /// An interpreter that drives `transpiler`, which is left as it is.
    pub fn new(transpiler: &'a mut Transpiler) -> (parser: Self)
        ensures
            *parser.transpiler == *old(transpiler),
            *final(parser.transpiler) == *final(transpiler),
    {
        Self { transpiler }
    }

    /// Interprets one source line, as [`interpret`] says. On success the
    /// emitter has written what the line asks for; on an error it is exactly
    /// as it was. The interpreter goes on borrowing the same emitter.
    pub fn parse_line(&mut self, line: &str) -> (r: Result<(), ParseError>)
        ensures
            *final(final(self).transpiler) == *final(old(self).transpiler),
            match interpret(old(self).transpiler@, line@) {
                Ok(next) => r == Ok::<(), ParseError>(()) && final(self).transpiler@ == next,
                Err(e) => r == Err::<(), ParseError>(e) && *final(self).transpiler == *old(
                    self,
                ).transpiler,
            },
    {
        let chars = chars_of(line);
        let command = match read_command(chars.as_slice()) {
            Ok(command) => command,
            Err(e) => {
                return Err(e);
            },
        };
        let advance = chars.len() > 0 && chars[chars.len() - 1] == '!';
        let cursor = self.transpiler.pointer;

        // Where the command leaves the cursor; nothing is written before the
        // whole line is known to stay on the tape.
        let target: usize = match command {
            Command::MoveTo(n) => n,
            Command::MoveRight(n) | Command::PutMultiple(n) => {
                if n > usize::MAX - cursor {
                    return Err(ParseError::CursorOverflow);
                }
                cursor + n
            },
            Command::MoveLeft(n) => {
                if n > cursor {
                    return Err(ParseError::CursorUnderflow);
                }
                cursor - n
            },
            Command::Advance => {
                if cursor == usize::MAX {
                    return Err(ParseError::CursorOverflow);
                }
                cursor + 1
            },
            _ => cursor,
        };
        if advance && target == usize::MAX {
            return Err(ParseError::CursorOverflow);
        }
        match command {
            Command::MoveTo(_) | Command::MoveRight(_) | Command::MoveLeft(_) | Command::Advance => {
                self.transpiler.move_to(target);
            },
            Command::StoreExact(n) => {
                self.transpiler.store_exact(n);
            },
            Command::StoreAdd(n) => {
                self.transpiler.store_add(n);
            },
            Command::StoreSub(n) => {
                self.transpiler.store_sub(n);
            },
            Command::StoreChar(c) => {
                self.transpiler.store_char(c);
            },
            Command::Put => {
                self.transpiler.put();
            },
            Command::PutMultiple(n) => {
                self.transpiler.put_multiple(n);
            },
            Command::PutUntilNull => {
                self.transpiler.put_until_null();
            },
            Command::Ignored => {},
        }

        proof {
            lemma_run_command_cursor(old(self).transpiler@, command);
        }

        // A line that ends in `!` steps one cell to the right.
        if advance {
            self.transpiler.move_to(self.transpiler.pointer + 1);
        }
        Ok(())
    }
}

} // verus!
