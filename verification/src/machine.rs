//! A model of the tape machine that runs the emitted text, and what the
//! emitter's idioms do on it.
//!
//! Nothing here is executable. The model covers the seven instructions that
//! the emitter writes (`>`, `<`, `+`, `-`, `.`, `[`, `]`); the input
//! instruction is never emitted and is not modelled.

use vstd::prelude::*;
use crate::command::Command;
use crate::parser::{run_command, target_of};
use crate::transpiler::{
    lemma_put_multiple, move_code, ordinal, print_run, print_until_zero_idiom, repeated,
    zero_idiom, EmitterState,
};

verus! {

/// A tape of byte cells that is unbounded to the right, the cell the machine
/// looks at, and what it has printed.
pub struct Machine {
    pub tape: spec_fn(nat) -> u8,
    pub cursor: nat,
    pub printed: Seq<u8>,
}

/// How a run of the machine ends.
pub enum Outcome {
    /// The text was run to its end.
    Done(Machine),
    /// The cursor was asked to step left of cell zero.
    Fault,
    /// The text is not a program: a bracket has no partner, or a character
    /// is none of the seven instructions.
    Stuck,
    /// The loops took more rounds than the run was given.
    OutOfFuel,
}

impl Machine {
    /// The value of the current cell.
    pub open spec fn cell(self) -> u8 {
        (self.tape)(self.cursor)
    }

    /// The machine with `value` in the current cell.
    pub open spec fn write(self, value: u8) -> Machine {
        Machine {
            tape: |i: nat|
                if i == self.cursor {
                    value
                } else {
                    (self.tape)(i)
                },
            cursor: self.cursor,
            printed: self.printed,
        }
    }

    /// The machine after `n` increments of the current cell, which wraps at 256.
    pub open spec fn add(self, n: nat) -> Machine {
        self.write(((self.cell() + n) % 256) as u8)
    }

    /// The machine after `n` decrements of the current cell, which wraps at 256.
    pub open spec fn sub(self, n: nat) -> Machine {
        self.write(((self.cell() - n) % 256) as u8)
    }

    /// The machine looking at cell `cursor`.
    pub open spec fn at(self, cursor: nat) -> Machine {
        Machine { tape: self.tape, cursor, printed: self.printed }
    }

    /// The machine after it has printed the current cell.
    pub open spec fn print(self) -> Machine {
        Machine { tape: self.tape, cursor: self.cursor, printed: self.printed.push(self.cell()) }
    }

    /// The values of the `n` cells from the current one on, left to right.
    pub open spec fn cells_ahead(self, n: nat) -> Seq<u8> {
        Seq::new(n, |i: int| (self.tape)((self.cursor + i) as nat))
    }

    /// The machine after it has printed the `n` cells from the current one
    /// on and stepped past the last of them.
    pub open spec fn print_ahead(self, n: nat) -> Machine {
        Machine {
            tape: self.tape,
            cursor: self.cursor + n,
            printed: self.printed + self.cells_ahead(n),
        }
    }
}

/// Whether `c` is one of the five instructions that are no bracket.
pub open spec fn is_simple(c: char) -> bool {
    c == '>' || c == '<' || c == '+' || c == '-' || c == '.'
}

/// One instruction that is no bracket. `None` when the instruction is `<`
/// and the machine looks at cell zero.
pub open spec fn step(c: char, m: Machine) -> Option<Machine> {
    if c == '>' {
        Some(m.at(m.cursor + 1))
    } else if c == '<' {
        if m.cursor == 0 {
            None
        } else {
            Some(m.at((m.cursor - 1) as nat))
        }
    } else if c == '+' {
        Some(m.add(1))
    } else if c == '-' {
        Some(m.sub(1))
    } else {
        Some(m.print())
    }
}

/// The place of the `]` that closes a loop, looking from `from` on with
/// `depth` inner loops still open; the length of the text when there is none.
pub open spec fn close_of(code: Seq<char>, from: int, depth: nat) -> int
    decreases code.len() - from,
{
    if from < 0 || from >= code.len() {
        code.len() as int
    } else if code[from] == ']' {
        if depth == 0 {
            from
        } else {
            close_of(code, from + 1, (depth - 1) as nat)
        }
    } else if code[from] == '[' {
        close_of(code, from + 1, depth + 1)
    } else {
        close_of(code, from + 1, depth)
    }
}

/// Runs `code` on the machine `m`. A loop `[body]` runs `body` for as long
/// as the current cell is not zero; each round of a loop costs one unit of
/// `fuel`.
pub open spec fn run(code: Seq<char>, m: Machine, fuel: nat) -> Outcome
    decreases fuel, code.len(),
{
    if code.len() == 0 {
        Outcome::Done(m)
    } else if code[0] == '[' {
        let close = close_of(code, 1, 0);
        if !(0 < close < code.len()) {
            Outcome::Stuck
        } else if m.cell() == 0 {
            run(code.skip(close + 1), m, fuel)
        } else if fuel == 0 {
            Outcome::OutOfFuel
        } else {
            match run(code.subrange(1, close), m, (fuel - 1) as nat) {
                Outcome::Done(next) => run(code, next, (fuel - 1) as nat),
                other => other,
            }
        }
    } else if is_simple(code[0]) {
        match step(code[0], m) {
            Some(next) => run(code.drop_first(), next, fuel),
            None => Outcome::Fault,
        }
    } else {
        Outcome::Stuck
    }
}

/// A run of `n` increments, and then the rest of the text.
pub proof fn lemma_run_increments(n: nat, rest: Seq<char>, m: Machine, fuel: nat)
    ensures
        run(repeated('+', n) + rest, m, fuel) == run(rest, m.add(n), fuel),
    decreases n,
{
    let code = repeated('+', n) + rest;
    if n == 0 {
        assert(code =~= rest);
        assert(m.add(0).tape =~= m.tape);
    } else {
        assert(code[0] == '+');
        assert(code.drop_first() =~= repeated('+', (n - 1) as nat) + rest);
        lemma_run_increments((n - 1) as nat, rest, m.add(1), fuel);
        assert(m.add(1).add((n - 1) as nat).tape =~= m.add(n).tape);
    }
}

/// A run of `n` decrements, and then the rest of the text.
pub proof fn lemma_run_decrements(n: nat, rest: Seq<char>, m: Machine, fuel: nat)
    ensures
        run(repeated('-', n) + rest, m, fuel) == run(rest, m.sub(n), fuel),
    decreases n,
{
    let code = repeated('-', n) + rest;
    if n == 0 {
        assert(code =~= rest);
        assert(m.sub(0).tape =~= m.tape);
    } else {
        assert(code[0] == '-');
        assert(code.drop_first() =~= repeated('-', (n - 1) as nat) + rest);
        lemma_run_decrements((n - 1) as nat, rest, m.sub(1), fuel);
        assert(m.sub(1).sub((n - 1) as nat).tape =~= m.sub(n).tape);
    }
}

/// The text that moves an emitter from cell `from` to cell `to` moves a
/// machine that looks at `from` to `to`, and then the rest of the text runs.
pub proof fn lemma_run_move(from: nat, to: nat, rest: Seq<char>, m: Machine, fuel: nat)
    requires
        m.cursor == from,
    ensures
        run(move_code(from, to) + rest, m, fuel) == run(rest, m.at(to), fuel),
    decreases
            if to >= from {
                to - from
            } else {
                from - to
            },
{
    let code = move_code(from, to) + rest;
    if to == from {
        assert(code =~= rest);
    } else if to > from {
        assert(code[0] == '>');
        assert(code.drop_first() =~= move_code(from + 1, to) + rest);
        lemma_run_move(from + 1, to, rest, m.at(from + 1), fuel);
    } else {
        assert(code[0] == '<');
        assert(code.drop_first() =~= move_code((from - 1) as nat, to) + rest);
        lemma_run_move((from - 1) as nat, to, rest, m.at((from - 1) as nat), fuel);
    }
}

/// `n` rounds of print-and-step print the `n` cells from the current one on
/// and leave the machine `n` cells to the right; then the rest of the text
/// runs.
pub proof fn lemma_run_print_run(n: nat, rest: Seq<char>, m: Machine, fuel: nat)
    ensures
        run(print_run(n) + rest, m, fuel) == run(rest, m.print_ahead(n), fuel),
    decreases n,
{
    let code = print_run(n) + rest;
    if n == 0 {
        assert(code =~= rest);
        assert(m.printed + m.cells_ahead(0) =~= m.printed);
    } else {
        let next = m.print().at(m.cursor + 1);
        assert(code[0] == '.');
        assert(code.drop_first()[0] == '>');
        assert(code.drop_first().drop_first() =~= print_run((n - 1) as nat) + rest);
        assert(run(code, m, fuel) == run(code.drop_first().drop_first(), next, fuel)) by {
            reveal_with_fuel(run, 2);
        }
        lemma_run_print_run((n - 1) as nat, rest, next, fuel);
        assert(next.printed + next.cells_ahead((n - 1) as nat) =~= m.printed + m.cells_ahead(n));
    }
}

/// The print-until-zero idiom prints the cells from the current one up to
/// the next cell that holds zero and leaves the machine on that cell; then
/// the rest of the text runs. `k` is the number of cells before the zero.
pub proof fn lemma_run_print_until_zero(k: nat, rest: Seq<char>, m: Machine, fuel: nat)
    requires
        fuel >= k,
        forall|i: nat| i < k ==> #[trigger] (m.tape)(m.cursor + i) != 0,
        (m.tape)(m.cursor + k) == 0,
    ensures
        run(print_until_zero_idiom() + rest, m, fuel) == run(
            rest,
            m.print_ahead(k),
            (fuel - k) as nat,
        ),
    decreases k,
{
    let code = print_until_zero_idiom() + rest;
    assert(code[0] == '[' && code[1] == '.' && code[2] == '>' && code[3] == ']');
    assert(close_of(code, 1, 0) == 3) by {
        reveal_with_fuel(close_of, 4);
    }
    assert(code.skip(4) =~= rest);
    if k == 0 {
        assert(m.printed + m.cells_ahead(0) =~= m.printed);
    } else {
        assert((m.tape)(m.cursor + 0nat) != 0);
        let body = code.subrange(1, 3);
        let next = m.print().at(m.cursor + 1);
        assert(body =~= seq!['.', '>']);
        assert(body.drop_first() =~= seq!['>']);
        assert(body.drop_first().drop_first() =~= Seq::<char>::empty());
        assert(run(body, m, (fuel - 1) as nat) == Outcome::Done(next)) by {
            reveal_with_fuel(run, 4);
        }
        assert forall|i: nat| i < k - 1 implies #[trigger] (next.tape)(next.cursor + i) != 0 by {
            assert((m.tape)(m.cursor + (i + 1)) != 0);
        }
        lemma_run_print_until_zero((k - 1) as nat, rest, next, (fuel - 1) as nat);
        assert(next.printed + next.cells_ahead((k - 1) as nat) =~= m.printed + m.cells_ahead(k));
    }
}

/// The zero idiom leaves zero in the current cell whatever it held, touches
/// nothing else, and costs as many rounds as the cell's value.
pub proof fn lemma_run_zero_idiom(rest: Seq<char>, m: Machine, fuel: nat)
    requires
        fuel >= m.cell(),
    ensures
        run(zero_idiom() + rest, m, fuel) == run(rest, m.write(0), (fuel - m.cell()) as nat),
    decreases m.cell(),
{
    let code = zero_idiom() + rest;
    assert(code[0] == '[' && code[1] == '-' && code[2] == ']');
    assert(close_of(code, 1, 0) == 2) by {
        reveal_with_fuel(close_of, 3);
    }
    assert(code.skip(3) =~= rest);
    if m.cell() == 0 {
        assert(m.write(0).tape =~= m.tape);
    } else {
        let body = code.subrange(1, 2);
        assert(body =~= seq!['-']);
        assert(body.drop_first() =~= Seq::<char>::empty());
        assert(run(body, m, (fuel - 1) as nat) == Outcome::Done(m.sub(1))) by {
            reveal_with_fuel(run, 3);
        }
        lemma_run_zero_idiom(rest, m.sub(1), (fuel - 1) as nat);
        assert(m.sub(1).write(0).tape =~= m.write(0).tape);
    }
}

/// Store a value, then print: the current cell holds the value, reduced to a
/// byte, whatever it held before, and that byte is printed. Nothing else on
/// the machine changes.
pub proof fn lemma_store_exact_then_put(state: EmitterState, value: nat, m: Machine, fuel: nat)
    requires
        fuel >= 255,
    ensures
        run(state.store_exact(value).put().written_since(state), m, fuel) == Outcome::Done(
            m.write((value % 256) as u8).print(),
        ),
{
    let code = state.store_exact(value).put().written_since(state);
    let tail = repeated('+', value) + seq!['.'];
    assert(code =~= zero_idiom() + tail);
    lemma_run_zero_idiom(tail, m, fuel);
    let left = (fuel - m.cell()) as nat;
    lemma_run_increments(value, seq!['.'], m.write(0), left);
    assert(m.write(0).add(value).tape =~= m.write((value % 256) as u8).tape);
    assert(seq!['.'].drop_first() =~= Seq::<char>::empty());
    assert(run(seq!['.'], m.write(0).add(value), left) == Outcome::Done(
        m.write(0).add(value).print(),
    )) by {
        reveal_with_fuel(run, 3);
    }
}

/// Storing a value leaves it, reduced to a byte, in the current cell,
/// whatever the cell held before.
pub proof fn lemma_store_exact(state: EmitterState, value: nat, m: Machine, fuel: nat)
    requires
        fuel >= 255,
    ensures
        run(state.store_exact(value).written_since(state), m, fuel) == Outcome::Done(
            m.write((value % 256) as u8),
        ),
{
    let code = state.store_exact(value).written_since(state);
    assert(code =~= zero_idiom() + repeated('+', value));
    lemma_run_zero_idiom(repeated('+', value), m, fuel);
    let left = (fuel - m.cell()) as nat;
    assert(repeated('+', value) + Seq::<char>::empty() =~= repeated('+', value));
    lemma_run_increments(value, Seq::empty(), m.write(0), left);
    assert(m.write(0).add(value).tape =~= m.write((value % 256) as u8).tape);
}

/// Storing the same value twice in a row leaves the machine as storing it
/// once does.
pub proof fn lemma_store_exact_twice(state: EmitterState, value: nat, m: Machine, fuel: nat)
    requires
        fuel >= 510,
    ensures
        run(state.store_exact(value).store_exact(value).written_since(state), m, fuel) == run(
            state.store_exact(value).written_since(state),
            m,
            fuel,
        ),
        run(state.store_exact(value).store_exact(value).written_since(state), m, fuel)
            == Outcome::Done(m.write((value % 256) as u8)),
{
    let once = zero_idiom() + repeated('+', value);
    let code = state.store_exact(value).store_exact(value).written_since(state);
    assert(code =~= zero_idiom() + (repeated('+', value) + once));
    lemma_store_exact(state, value, m, fuel);
    lemma_run_zero_idiom(repeated('+', value) + once, m, fuel);
    let left = (fuel - m.cell()) as nat;
    lemma_run_increments(value, once, m.write(0), left);
    let stored = m.write(0).add(value);
    assert(stored.tape =~= m.write((value % 256) as u8).tape);
    assert(state.store_exact(value).written_since(state) =~= once);
    lemma_store_exact(state, value, stored, left);
    assert(stored.write((value % 256) as u8).tape =~= stored.tape);
}

/// Adding `x` and then `y` writes what adding `x + y` writes, and on the
/// machine raises the current cell by `x + y`, wrapping at 256.
pub proof fn lemma_store_add_composes(state: EmitterState, x: nat, y: nat, m: Machine, fuel: nat)
    ensures
        state.store_add(x).store_add(y) == state.store_add(x + y),
        run(state.store_add(x).store_add(y).written_since(state), m, fuel) == Outcome::Done(
            m.add(x + y),
        ),
{
    assert(state.output + repeated('+', x) + repeated('+', y) =~= state.output + repeated(
        '+',
        x + y,
    ));
    let code = state.store_add(x + y).written_since(state);
    assert(code =~= repeated('+', x + y) + Seq::<char>::empty());
    lemma_run_increments(x + y, Seq::empty(), m, fuel);
}

/// What a command does to a machine that looks at the cell where the
/// emitter's cursor stands. `putw *` is left as it is here: what it does
/// depends on where the next zero cell lies
/// (see [`lemma_run_print_until_zero`]).
pub open spec fn effect(command: Command, m: Machine) -> Machine {
    match command {
        Command::MoveTo(n) => m.at(n as nat),
        Command::MoveRight(n) => m.at(m.cursor + n as nat),
        Command::MoveLeft(n) => m.at((m.cursor - n) as nat),
        Command::StoreExact(n) => m.write((n % 256) as u8),
        Command::StoreAdd(n) => m.add(n as nat),
        Command::StoreSub(n) => m.sub(n as nat),
        Command::StoreChar(c) => m.write(ordinal(c) as u8),
        Command::Put => m.print(),
        Command::PutMultiple(n) => m.print_ahead(n as nat),
        Command::PutUntilNull => m,
        Command::Advance => m.at(m.cursor + 1),
        Command::Ignored => m,
    }
}

/// What the emitter writes for a command does on the machine what the
/// command means, and the emitter's cursor follows the machine's: for every
/// command but `putw *`, on a machine that looks at the emitter's cell, the
/// written text runs to its end, leaves the machine as [`effect`] says, and
/// leaves it on the cell where the emitter's cursor then stands.
pub proof fn lemma_command_on_machine(
    state: EmitterState,
    command: Command,
    m: Machine,
    fuel: nat,
)
    requires
        target_of(command, state.cursor) >= 0,
        command != Command::PutUntilNull,
        m.cursor == state.cursor,
        fuel >= 255,
    ensures
        run(run_command(state, command).written_since(state), m, fuel) == Outcome::Done(
            effect(command, m),
        ),
        effect(command, m).cursor == run_command(state, command).cursor,
{
    let code = run_command(state, command).written_since(state);
    let nothing = Seq::<char>::empty();
    match command {
        Command::MoveTo(_) | Command::MoveRight(_) | Command::MoveLeft(_) | Command::Advance => {
            let to = target_of(command, state.cursor) as nat;
            assert(code =~= move_code(state.cursor, to) + nothing);
            lemma_run_move(state.cursor, to, nothing, m, fuel);
        },
        Command::StoreExact(n) => {
            lemma_store_exact(state, n as nat, m, fuel);
        },
        Command::StoreChar(c) => {
            lemma_store_exact(state, ordinal(c), m, fuel);
        },
        Command::StoreAdd(n) => {
            assert(code =~= repeated('+', n as nat) + nothing);
            lemma_run_increments(n as nat, nothing, m, fuel);
        },
        Command::StoreSub(n) => {
            assert(code =~= repeated('-', n as nat) + nothing);
            lemma_run_decrements(n as nat, nothing, m, fuel);
        },
        Command::Put => {
            assert(code =~= seq!['.']);
            assert(code.drop_first() =~= nothing);
            assert(run(code, m, fuel) == Outcome::Done(m.print())) by {
                reveal_with_fuel(run, 3);
            }
        },
        Command::PutMultiple(n) => {
            lemma_put_multiple(state, n as nat);
            assert(code =~= print_run(n as nat) + nothing);
            lemma_run_print_run(n as nat, nothing, m, fuel);
        },
        Command::PutUntilNull => {},
        Command::Ignored => {
            assert(code =~= nothing);
        },
    }
}

} // verus!
