//! The commands of the source language and how one line spells one of them.

use vstd::prelude::*;
use vstd::slice::slice_subrange;
use crate::text::{
    chars_of, fitting, is_blank, is_text, lemma_no_tokens_iff_blank, number_of, parse_number,
    split_whitespace, tokens, views,
};

verus! {

/// Why a line was rejected.
#[derive(Clone, Copy, Debug, PartialEq, Eq, Structural)]
pub enum ParseError {
    /// The line holds nothing but white space.
    EmptyLine,
    /// The first token is no command keyword.
    UnknownCommand,
    /// The command needs an argument and the line has none.
    MissingArgument,
    /// A numeric argument does not begin with `:`, `+` or `-`.
    InvalidPrefix,
    /// The character argument is empty once its trailing `!` is taken off.
    InvalidCharacter,
    /// The line would take the cursor below cell zero.
    CursorUnderflow,
    /// The line would take the cursor past the last cell a `usize` can number.
    CursorOverflow,
}

/// One recognised command with its argument.
#[derive(Clone, Copy, Debug, PartialEq, Eq, Structural)]
pub enum Command {
    /// `move :n`
    MoveTo(usize),
    /// `move +n`
    MoveRight(usize),
    /// `move -n`
    MoveLeft(usize),
    /// `store :n`
    StoreExact(usize),
    /// `store +n`
    StoreAdd(usize),
    /// `store -n`
    StoreSub(usize),
    /// `storec c`
    StoreChar(char),
    /// `put`
    Put,
    /// `putw n`
    PutMultiple(usize),
    /// `putw *`
    PutUntilNull,
    /// `>`
    Advance,
    /// A command whose argument is present but is no number that fits: it is
    /// accepted and does nothing.
    Ignored,
}

/// Whether `arg` begins with one of the three numeric prefixes.
pub open spec fn has_num_prefix(arg: Seq<char>) -> bool {
    arg.len() > 0 && (arg[0] == ':' || arg[0] == '+' || arg[0] == '-')
}

/// `arg` without one trailing `!`, if it has one.
pub open spec fn without_marker(arg: Seq<char>) -> Seq<char> {
    if arg.len() > 0 && arg.last() == '!' {
        arg.drop_last()
    } else {
        arg
    }
}

/// The command that `move` makes with the argument `arg`.
pub open spec fn move_command(arg: Seq<char>) -> Result<Command, ParseError> {
    if !has_num_prefix(arg) {
        Err(ParseError::InvalidPrefix)
    } else {
        match fitting(number_of(arg.drop_first())) {
            None => Ok(Command::Ignored),
            Some(n) => Ok(
                if arg[0] == ':' {
                    Command::MoveTo(n)
                } else if arg[0] == '+' {
                    Command::MoveRight(n)
                } else {
                    Command::MoveLeft(n)
                },
            ),
        }
    }
}

/// The command that `store` makes with the argument `arg`.
pub open spec fn store_command(arg: Seq<char>) -> Result<Command, ParseError> {
    if !has_num_prefix(arg) {
        Err(ParseError::InvalidPrefix)
    } else {
        match fitting(number_of(arg.drop_first())) {
            None => Ok(Command::Ignored),
            Some(n) => Ok(
                if arg[0] == ':' {
                    Command::StoreExact(n)
                } else if arg[0] == '+' {
                    Command::StoreAdd(n)
                } else {
                    Command::StoreSub(n)
                },
            ),
        }
    }
}

/// The command that `storec` makes with the argument `arg`: the argument
/// names a space as `<space>`, and any other character by beginning with it.
pub open spec fn storec_command(arg: Seq<char>) -> Result<Command, ParseError> {
    let name = without_marker(arg);
    if name == "<space>"@ {
        Ok(Command::StoreChar(' '))
    } else if name.len() == 0 {
        Err(ParseError::InvalidCharacter)
    } else {
        Ok(Command::StoreChar(name[0]))
    }
}

/// The command that `putw` makes with the argument `arg`.
pub open spec fn putw_command(arg: Seq<char>) -> Result<Command, ParseError> {
    match fitting(number_of(arg)) {
        Some(n) => Ok(Command::PutMultiple(n)),
        None => if arg == "*"@ {
            Ok(Command::PutUntilNull)
        } else {
            Ok(Command::Ignored)
        },
    }
}

/// The command that the tokens `parts` spell, of which there is at least one.
/// Tokens after the ones a command reads are not looked at.
pub open spec fn command_of_tokens(parts: Seq<Seq<char>>) -> Result<Command, ParseError> {
    let keyword = parts[0];
    if keyword == "move"@ {
        if parts.len() < 2 {
            Err(ParseError::MissingArgument)
        } else {
            move_command(parts[1])
        }
    } else if keyword == "store"@ {
        if parts.len() < 2 {
            Err(ParseError::MissingArgument)
        } else {
            store_command(parts[1])
        }
    } else if keyword == "storec"@ {
        if parts.len() < 2 {
            Err(ParseError::MissingArgument)
        } else {
            storec_command(parts[1])
        }
    } else if keyword == "put"@ {
        Ok(Command::Put)
    } else if keyword == "putw"@ {
        if parts.len() < 2 {
            Err(ParseError::MissingArgument)
        } else {
            putw_command(parts[1])
        }
    } else if keyword == ">"@ {
        Ok(Command::Advance)
    } else {
        Err(ParseError::UnknownCommand)
    }
}

/// The command that a source line spells, or why it spells none.
pub open spec fn command_of(line: Seq<char>) -> Result<Command, ParseError> {
    if is_blank(line) {
        Err(ParseError::EmptyLine)
    } else {
        command_of_tokens(tokens(line))
    }
}

impl ParseError {
    /// The words that describe this error.
    pub open spec fn text(self) -> Seq<char> {
        match self {
            ParseError::EmptyLine => "Line empty"@,
            ParseError::UnknownCommand => "Unknown command"@,
            ParseError::MissingArgument => "Missing argument"@,
            ParseError::InvalidPrefix => "Invalid number prefix"@,
            ParseError::InvalidCharacter => "Invalid ASCII character"@,
            ParseError::CursorUnderflow => "Cursor moved below cell zero"@,
            ParseError::CursorOverflow => "Cursor moved past the last cell"@,
        }
    }

    pub fn message(&self) -> (m: &'static str)
        ensures
            m@ == self.text(),
    {
        match self {
            ParseError::EmptyLine => "Line empty",
            ParseError::UnknownCommand => "Unknown command",
            ParseError::MissingArgument => "Missing argument",
            ParseError::InvalidPrefix => "Invalid number prefix",
            ParseError::InvalidCharacter => "Invalid ASCII character",
            ParseError::CursorUnderflow => "Cursor moved below cell zero",
            ParseError::CursorOverflow => "Cursor moved past the last cell",
        }
    }
}

/// Takes the `:`, `+` or `-` off the front of a numeric argument; `None`
/// when it begins with none of them.
pub fn try_remove_num_prefix(num: &[char]) -> (r: Option<&[char]>)
    ensures
        r is Some <==> has_num_prefix(num@),
        r matches Some(rest) ==> rest@ == num@.drop_first(),
{
    if num.len() > 0 && (num[0] == ':' || num[0] == '+' || num[0] == '-') {
        let rest = slice_subrange(num, 1, num.len());
        assert(rest@ =~= num@.drop_first());
        Some(rest)
    } else {
        None
    }
}

fn parse_move(arg: &[char]) -> (r: Result<Command, ParseError>)
    ensures
        r == move_command(arg@),
{
    match try_remove_num_prefix(arg) {
        None => Err(ParseError::InvalidPrefix),
        Some(digits) => match parse_number(digits) {
            None => Ok(Command::Ignored),
            Some(n) => if arg[0] == ':' {
                Ok(Command::MoveTo(n))
            } else if arg[0] == '+' {
                Ok(Command::MoveRight(n))
            } else {
                Ok(Command::MoveLeft(n))
            },
        },
    }
}

fn parse_store(arg: &[char]) -> (r: Result<Command, ParseError>)
    ensures
        r == store_command(arg@),
{
    match try_remove_num_prefix(arg) {
        None => Err(ParseError::InvalidPrefix),
        Some(digits) => match parse_number(digits) {
            None => Ok(Command::Ignored),
            Some(n) => if arg[0] == ':' {
                Ok(Command::StoreExact(n))
            } else if arg[0] == '+' {
                Ok(Command::StoreAdd(n))
            } else {
                Ok(Command::StoreSub(n))
            },
        },
    }
}

fn parse_storec(arg: &[char]) -> (r: Result<Command, ParseError>)
    ensures
        r == storec_command(arg@),
{
    let name = if arg.len() > 0 && arg[arg.len() - 1] == '!' {
        slice_subrange(arg, 0, arg.len() - 1)
    } else {
        arg
    };
    assert(name@ =~= without_marker(arg@));
    if is_text(name, "<space>") {
        Ok(Command::StoreChar(' '))
    } else if name.len() == 0 {
        Err(ParseError::InvalidCharacter)
    } else {
        Ok(Command::StoreChar(name[0]))
    }
}

fn parse_putw(arg: &[char]) -> (r: Result<Command, ParseError>)
    ensures
        r == putw_command(arg@),
{
    match parse_number(arg) {
        Some(n) => Ok(Command::PutMultiple(n)),
        None => if is_text(arg, "*") {
            Ok(Command::PutUntilNull)
        } else {
            Ok(Command::Ignored)
        },
    }
}

/// Reads the command that a source line spells.
pub fn parse_command(line: &str) -> (r: Result<Command, ParseError>)
    ensures
        r == command_of(line@),
{
    let chars = chars_of(line);
    read_command(chars.as_slice())
}

/// Reads the command that the characters of a source line spell.
pub fn read_command(line: &[char]) -> (r: Result<Command, ParseError>)
    ensures
        r == command_of(line@),
{
    let parts = split_whitespace(line);
    proof {
        lemma_no_tokens_iff_blank(line@);
    }
    if parts.len() == 0 {
        return Err(ParseError::EmptyLine);
    }
    let keyword = parts[0].as_slice();
    assert(keyword@ == tokens(line@)[0]);
    if parts.len() >= 2 {
        assert(parts[1]@ == tokens(line@)[1]);
    }
    if is_text(keyword, "move") {
        if parts.len() < 2 {
            Err(ParseError::MissingArgument)
        } else {
            parse_move(parts[1].as_slice())
        }
    } else if is_text(keyword, "store") {
        if parts.len() < 2 {
            Err(ParseError::MissingArgument)
        } else {
            parse_store(parts[1].as_slice())
        }
    } else if is_text(keyword, "storec") {
        if parts.len() < 2 {
            Err(ParseError::MissingArgument)
        } else {
            parse_storec(parts[1].as_slice())
        }
    } else if is_text(keyword, "put") {
        Ok(Command::Put)
    } else if is_text(keyword, "putw") {
        if parts.len() < 2 {
            Err(ParseError::MissingArgument)
        } else {
            parse_putw(parts[1].as_slice())
        }
    } else if is_text(keyword, ">") {
        Ok(Command::Advance)
    } else {
        Err(ParseError::UnknownCommand)
    }
}

} // verus!
