//! The emitter: it turns one intent at a time into tape instructions, appends
//! them to the output text and keeps the cursor position.

use vstd::prelude::*;
use vstd::string::StringExecFns;

verus! {

/// `n` copies of the character `c`.
pub open spec fn repeated(c: char, n: nat) -> Seq<char> {
    Seq::new(n, |i: int| c)
}

/// The instructions that drive the current cell down to zero, whatever it held.
pub open spec fn zero_idiom() -> Seq<char> {
    seq!['[', '-', ']']
}

/// The instructions that print cells from the current one up to the next zero cell.
pub open spec fn print_until_zero_idiom() -> Seq<char> {
    seq!['[', '.', '>', ']']
}

/// The instructions that take the cursor from cell `from` to cell `to`.
pub open spec fn move_code(from: nat, to: nat) -> Seq<char> {
    if to >= from {
        repeated('>', (to - from) as nat)
    } else {
        repeated('<', (from - to) as nat)
    }
}

/// The value a character is stored as: the low byte of its code point.
pub open spec fn ordinal(c: char) -> nat {
    (c as nat) % 256
}

/// The mathematical state of an emitter: where its cursor stands and what it
/// has written so far.
pub struct EmitterState {
    pub cursor: nat,
    pub output: Seq<char>,
}

impl EmitterState {
    /// The state of a fresh emitter.
    pub open spec fn initial() -> EmitterState {
        EmitterState { cursor: 0, output: Seq::empty() }
    }

    /// Appends `code` and leaves the cursor where it is.
    pub open spec fn emit(self, code: Seq<char>) -> EmitterState {
        EmitterState { cursor: self.cursor, output: self.output + code }
    }

    /// What this state has written beyond what `earlier` had.
    pub open spec fn written_since(self, earlier: EmitterState) -> Seq<char> {
        self.output.skip(earlier.output.len() as int)
    }

    /// Steps to `target` and stands there.
    pub open spec fn move_to(self, target: nat) -> EmitterState {
        EmitterState { cursor: target, output: self.output + move_code(self.cursor, target) }
    }

    /// Zeroes the current cell, then counts it up to `value`.
    pub open spec fn store_exact(self, value: nat) -> EmitterState {
        self.emit(zero_idiom() + repeated('+', value))
    }

    /// `value` increments.
    pub open spec fn store_add(self, value: nat) -> EmitterState {
        self.emit(repeated('+', value))
    }

    /// `value` decrements.
    pub open spec fn store_sub(self, value: nat) -> EmitterState {
        self.emit(repeated('-', value))
    }

    /// Stores the value that stands for `c`.
    pub open spec fn store_char(self, c: char) -> EmitterState {
        self.store_exact(ordinal(c))
    }

    /// One print instruction.
    pub open spec fn put(self) -> EmitterState {
        self.emit(seq!['.'])
    }

    /// `n` rounds of printing the current cell and stepping one cell right.
    pub open spec fn put_multiple(self, n: nat) -> EmitterState
        decreases n,
    {
        if n == 0 {
            self
        } else {
            let before = self.put_multiple((n - 1) as nat).put();
            before.move_to(before.cursor + 1)
        }
    }

    /// The cursor is left as it was: where the printing loop stops is known
    /// only when the emitted program runs.
    pub open spec fn put_until_null(self) -> EmitterState {
        self.emit(print_until_zero_idiom())
    }

    /// Stores each byte in turn, stepping one cell right after each.
    pub open spec fn store_vec(self, bytes: Seq<u8>) -> EmitterState
        decreases bytes.len(),
    {
        if bytes.len() == 0 {
            self
        } else {
            let before = self.store_vec(bytes.drop_last()).store_exact(bytes.last() as nat);
            before.move_to(before.cursor + 1)
        }
    }
}

/// `n` rounds of "print the current cell, step right", written out.
pub open spec fn print_run(n: nat) -> Seq<char> {
    Seq::new(
        2 * n,
        |i: int|
            if i % 2 == 0 {
                '.'
            } else {
                '>'
            },
    )
}

/// Printing `n` cells in a row moves the cursor `n` cells to the right and
/// writes `n` times a print and a step.
pub proof fn lemma_put_multiple(state: EmitterState, n: nat)
    ensures
        state.put_multiple(n).cursor == state.cursor + n,
        state.put_multiple(n).output == state.output + print_run(n),
    decreases n,
{
    if n > 0 {
        lemma_put_multiple(state, (n - 1) as nat);
        let before = state.put_multiple((n - 1) as nat).put();
        assert(move_code(before.cursor, before.cursor + 1) =~= seq!['>']);
        assert(state.output + print_run((n - 1) as nat) + seq!['.'] + seq!['>'] =~= state.output
            + print_run(n));
    } else {
        assert(state.output + print_run(0) =~= state.output);
    }
}

/// Two moves in a row leave the cursor on the second target, and the second
/// writes as many steps as the two targets are apart, all to the right when
/// the second target is not left of the first and all to the left otherwise.
pub proof fn lemma_move_twice(state: EmitterState, a: nat, b: nat)
    ensures
        state.move_to(a).move_to(b).cursor == b,
        state.move_to(a).move_to(b).written_since(state.move_to(a)) == if b >= a {
            repeated('>', (b - a) as nat)
        } else {
            repeated('<', (a - b) as nat)
        },
        state.move_to(a).move_to(b).written_since(state.move_to(a)).len() == if b >= a {
            b - a
        } else {
            a - b
        },
{
    let first = state.move_to(a);
    assert(first.move_to(b).written_since(first) =~= move_code(a, b));
}

/// A move to the cell where the cursor stands writes nothing.
pub proof fn lemma_move_in_place(state: EmitterState)
    ensures
        state.move_to(state.cursor) == state,
{
    assert(state.output + move_code(state.cursor, state.cursor) =~= state.output);
}

/// Printing cells in a row only appends to what was written.
pub proof fn lemma_put_multiple_appends(state: EmitterState, n: nat)
    ensures
        state.output.is_prefix_of(state.put_multiple(n).output),
{
    lemma_put_multiple(state, n);
}

/// Storing a run of bytes only appends to what was written.
pub proof fn lemma_store_vec_appends(state: EmitterState, bytes: Seq<u8>)
    ensures
        state.output.is_prefix_of(state.store_vec(bytes).output),
    decreases bytes.len(),
{
    if bytes.len() > 0 {
        lemma_store_vec_appends(state, bytes.drop_last());
    }
}

/// Storing a run of bytes moves the cursor one cell to the right for each.
pub proof fn lemma_store_vec_cursor(state: EmitterState, bytes: Seq<u8>)
    ensures
        state.store_vec(bytes).cursor == state.cursor + bytes.len(),
    decreases bytes.len(),
{
    if bytes.len() > 0 {
        lemma_store_vec_cursor(state, bytes.drop_last());
    }
}

/// The emitter. Its mathematical state is its view, an [`EmitterState`]; each
/// operation is stated as the spec function of the same name on that state.
pub struct Transpiler {
    /// The cell the cursor stands on.
    pub pointer: usize,
    /// The tape instructions written so far.
    pub output: String,
}

impl View for Transpiler {
    type V = EmitterState;

    open spec fn view(&self) -> EmitterState {
        EmitterState { cursor: self.pointer as nat, output: self.output@ }
    }
}

/// Appends `n` copies of the one-character text `unit` to `out`.
fn push_repeated(out: &mut String, unit: &str, n: usize)
    requires
        unit@.len() == 1,
    ensures
        final(out)@ == old(out)@ + repeated(unit@[0], n as nat),
{
    let mut i: usize = 0;
    while i < n
        invariant
            i <= n,
            unit@.len() == 1,
            out@ == old(out)@ + repeated(unit@[0], i as nat),
        decreases n - i,
    {
        out.append(unit);
        i = i + 1;
        assert(out@ =~= old(out)@ + repeated(unit@[0], i as nat));
    }
}

impl Transpiler {
    /// An emitter on cell zero that has written nothing.
    pub fn new() -> (t: Self)
        ensures
            t@ == EmitterState::initial(),
    {
        Self { pointer: 0, output: String::new() }
    }

    /// The text written so far.
    pub fn get_output(&self) -> (text: &str)
        ensures
            text@ == self@.output,
    {
        self.output.as_str()
    }

    /// Writes the steps from the current cell to `target`, right or left,
    /// and sets the cursor there. Writes nothing when it is there already.
    pub fn move_to(&mut self, target: usize)
        ensures
            final(self)@ == old(self)@.move_to(target as nat),
    {
        if target > self.pointer {
            proof {
                reveal_strlit(">");
            }
            push_repeated(&mut self.output, ">", target - self.pointer);
        } else {
            proof {
                reveal_strlit("<");
            }
            push_repeated(&mut self.output, "<", self.pointer - target);
        }
        self.pointer = target;
    }

    /// Writes the zero idiom and then `value` increments.
    pub fn store_exact(&mut self, value: usize)
        ensures
            final(self)@ == old(self)@.store_exact(value as nat),
    {
        proof {
            reveal_strlit("[-]");
            reveal_strlit("+");
        }
        self.output.append("[-]");
        push_repeated(&mut self.output, "+", value);
        assert(self@.output =~= old(self)@.output + (zero_idiom() + repeated('+', value as nat)));
    }

    /// Stores each byte of `v` in turn and steps one cell right after each.
    /// The cursor must be able to step `v.len()` cells to the right.
    pub fn store_vec(&mut self, v: Vec<u8>)
        requires
            old(self).pointer + v.len() <= usize::MAX,
        ensures
            final(self)@ == old(self)@.store_vec(v@),
    {
        let mut i: usize = 0;
        while i < v.len()
            invariant
                i <= v.len(),
                old(self).pointer + v.len() <= usize::MAX,
                self.pointer == old(self).pointer + i,
                self@ == old(self)@.store_vec(v@.take(i as int)),
            decreases v.len() - i,
        {
            let byte = v[i];
            self.store_exact(byte as usize);
            self.move_to(self.pointer + 1);
            i = i + 1;
            assert(v@.take(i as int).drop_last() =~= v@.take(i - 1));
        }
        assert(v@.take(i as int) =~= v@);
    }

    /// Writes `value` increments; the cell is not zeroed first.
    pub fn store_add(&mut self, value: usize)
        ensures
            final(self)@ == old(self)@.store_add(value as nat),
    {
        proof {
            reveal_strlit("+");
        }
        push_repeated(&mut self.output, "+", value);
    }

    /// Writes `value` decrements; the cell is not zeroed first.
    pub fn store_sub(&mut self, value: usize)
        ensures
            final(self)@ == old(self)@.store_sub(value as nat),
    {
        proof {
            reveal_strlit("-");
        }
        push_repeated(&mut self.output, "-", value);
    }

    /// Stores the low byte of the code point of `c`.
    pub fn store_char(&mut self, c: char)
        ensures
            final(self)@ == old(self)@.store_char(c),
    {
        let ascii = (c as u32 % 256) as usize;
        self.store_exact(ascii);
    }

    /// Writes one print instruction.
    pub fn put(&mut self)
        ensures
            final(self)@ == old(self)@.put(),
    {
        proof {
            reveal_strlit(".");
        }
        self.output.append(".");
        assert(self@.output =~= old(self)@.output + seq!['.']);
    }

    /// `n` times: prints the current cell and steps one cell right.
    /// The cursor must be able to step `n` cells to the right.
    pub fn put_multiple(&mut self, n: usize)
        requires
            old(self).pointer + n <= usize::MAX,
        ensures
            final(self)@ == old(self)@.put_multiple(n as nat),
    {
        let mut i: usize = 0;
        while i < n
            invariant
                i <= n,
                old(self).pointer + n <= usize::MAX,
                self.pointer == old(self).pointer + i,
                self@ == old(self)@.put_multiple(i as nat),
            decreases n - i,
        {
            self.put();
            self.move_to(self.pointer + 1);
            i = i + 1;
        }
    }

    /// Writes the loop that prints cells up to the next zero cell. The cursor
    /// is not changed, and does not say where the machine stands afterwards.
    pub fn put_until_null(&mut self)
        ensures
            final(self)@ == old(self)@.put_until_null(),
    {
        proof {
            reveal_strlit("[.>]");
        }
        self.output.append("[.>]");
        assert(self@.output =~= old(self)@.output + print_until_zero_idiom());
    }
}

} // verus!
