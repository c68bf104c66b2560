//! The execution engine: a program, its tape and its two pointers.

use vstd::prelude::*;
use crate::token::{Token, tokens_of, tokenize};
use crate::nesting::{NestingError, balanced, check_nesting, close_of, delta, depth,
    has_stray_close, is_pair, lemma_close_unique, lemma_depth_bound, lemma_open_unique, open_of};
use crate::tape::{Tape, cell_at};
use crate::machine::Machine;

verus! {

/// Why a call of `exec` came back.
#[derive(Clone, Copy, Debug, PartialEq, Eq, Structural)]
pub enum Stop {
    /// The program ran to its end.
    Halted,
    /// The allowance of instructions is used up and the program has not ended.
    OutOfSteps,
    /// The next instruction would move the data pointer past the last
    /// address that this machine can form.
    TapeEdge,
}

/// The next instruction of `m` is a move that would take the data pointer out
/// of the range of machine addresses.
pub open spec fn at_edge(m: Machine) -> bool {
    &&& 0 <= m.ip < m.code.len()
    &&& ((m.code[m.ip] == Token::INCP && m.dp >= isize::MAX) || (m.code[m.ip] == Token::DECP
        && m.dp <= isize::MIN))
}

/// A loaded program together with the state of its run.
///
/// Input and output are buffers: `feed` appends input, `,` reads from it,
/// `.` appends to the output, and `take_output` hands the output over.
pub struct Program {
    dp: isize,
    ip: usize,
    len: usize,
    dtape: Tape,
    itape: Vec<Token>,
    input: Vec<u8>,
    consumed: usize,
    output: Vec<u8>,
}

impl View for Program {
    type V = Machine;

    /// The state of the machine that this value holds.
    closed spec fn view(&self) -> Machine {
        Machine {
            code: self.itape@,
            ip: self.ip as int,
            dp: self.dp as int,
            cells: self.dtape@,
            input: self.input@.skip(self.consumed as int),
            output: self.output@,
        }
    }
}

impl Program {
    /// The invariant of the engine: the state it holds is well-formed, and
    /// its bookkeeping agrees with it.
    pub closed spec fn wf(&self) -> bool {
        &&& self.len == self.itape.len()
        &&& self.consumed <= self.input.len()
        &&& self@.wf()
    }

    /// A well-formed engine holds a well-formed state, within machine limits.
    pub proof fn lemma_wf(&self)
        requires
            self.wf(),
        ensures
            self@.wf(),
            self@.code.len() <= usize::MAX,
            isize::MIN <= self@.dp <= isize::MAX,
    {
    }

    /// The engine at the start of a run of `code`, which must be balanced.
    pub fn new(code: Vec<Token>) -> (prog: Program)
        requires
            balanced(code@),
        ensures
            prog.wf(),
            prog@ == Machine::start(code@),
    {
        let dp: isize = 0;
        let ip: usize = 0;
        let mut dtape = Tape::new();
        dtape.write(0, 0);
        let len: usize = code.len();
        let input: Vec<u8> = Vec::new();
        let output: Vec<u8> = Vec::new();
        let prog = Program { dp, ip, len, dtape, itape: code, input, consumed: 0, output };
        assert(prog@.input =~= Seq::<u8>::empty());
        prog
    }

    /// Tokenizes source text that is known to be balanced and sets the
    /// engine up to run it.
    pub fn from_source(source: &str) -> (prog: Program)
        requires
            balanced(tokens_of(source@)),
        ensures
            prog.wf(),
            prog@ == Machine::start(tokens_of(source@)),
    {
        Program::new(tokenize(source))
    }

    /// Tokenizes source text, tests its balance, and sets the engine up to
    /// run it. Unbalanced text is rejected, with the reason.
    pub fn load(source: &str) -> (res: Result<Program, NestingError>)
        ensures
            match res {
                Ok(prog) => balanced(tokens_of(source@)) && prog.wf() && prog@ == Machine::start(
                    tokens_of(source@),
                ),
                Err(NestingError::StrayClose) => has_stray_close(tokens_of(source@)),
                Err(NestingError::UnclosedOpen) => !balanced(tokens_of(source@)) && !has_stray_close(
                    tokens_of(source@),
                ),
            },
    {
        let code = tokenize(source);
        match check_nesting(&code) {
            Ok(()) => Ok(Program::new(code)),
            Err(e) => Err(e),
        }
    }

    /// `[`: skips the loop if the current cell is zero, enters it otherwise.
    pub fn lbrk(&mut self)
        requires
            old(self).wf(),
            !old(self)@.halted(),
            old(self)@.code[old(self)@.ip] == Token::LBRK,
        ensures
            final(self).wf(),
            final(self)@ == old(self)@.after_lbrk(),
            old(self)@.cell() == 0 ==> is_pair(old(self)@.code, old(self)@.ip, final(self)@.ip - 1),
    {
        let ghost code = self@.code;
        let ghost open = self.ip as int;

        self.ip += 1;

        if self.dtape.peek(self.dp) != 0 {
            return;
        }

        let mut count: usize = 1;

        while count != 0
            invariant
                *self == (Program { ip: self.ip, ..*old(self) }),
                self.len == self.itape.len(),
                self.itape@ == code,
                balanced(code),
                0 <= open < self.ip <= self.len,
                code[open] == Token::LBRK,
                count == depth(code, self.ip as int) - depth(code, open),
                forall|k: int| open < k < self.ip ==> #[trigger] depth(code, k) > depth(code, open),
                count == 0 ==> code[self.ip - 1] == Token::RBRK,
            decreases self.len - self.ip,
        {
            proof {
                lemma_depth_bound(code, self.ip as int + 1);
            }
            match self.itape[self.ip] {
                Token::LBRK => {
                    count += 1;
                },
                Token::RBRK => {
                    count -= 1;
                },
                _ => {},
            }

            self.ip += 1;
        }

        proof {
            let close = self.ip as int - 1;
            assert(is_pair(code, open, close));
            let chosen = close_of(code, open);
            lemma_close_unique(code, open, close, chosen);
        }
    }

    /// `]`: leaves the loop if the current cell is zero, goes back to the
    /// first instruction of its body otherwise.
    pub fn rbrk(&mut self)
        requires
            old(self).wf(),
            !old(self)@.halted(),
            old(self)@.code[old(self)@.ip] == Token::RBRK,
        ensures
            final(self).wf(),
            final(self)@ == old(self)@.after_rbrk(),
            old(self)@.cell() != 0 ==> is_pair(old(self)@.code, final(self)@.ip - 1, old(self)@.ip),
    {
        let ghost code = self@.code;
        let ghost close = self.ip as int;

        if self.dtape.peek(self.dp) == 0 {
            self.ip += 1;
            return;
        }

        let mut count: usize = 1;

        while count != 0
            invariant
                *self == (Program { ip: self.ip, ..*old(self) }),
                self.len == self.itape.len(),
                self.itape@ == code,
                balanced(code),
                0 <= self.ip <= close < self.len,
                code[close] == Token::RBRK,
                count == depth(code, self.ip as int) - depth(code, close + 1),
                forall|k: int| self.ip < k <= close ==> #[trigger] depth(code, k) > depth(code, close + 1),
                count == 0 ==> self.ip < close && code[self.ip as int] == Token::LBRK,
            decreases self.ip,
        {
            proof {
                lemma_depth_bound(code, self.ip as int - 1);
            }
            self.ip -= 1;

            match self.itape[self.ip] {
                Token::RBRK => {
                    count += 1;
                },
                Token::LBRK => {
                    count -= 1;
                },
                _ => {},
            }
        }

        proof {
            let open = self.ip as int;
            assert(is_pair(code, open, close));
            let chosen = open_of(code, close);
            lemma_open_unique(code, open, chosen, close);
        }

        self.ip += 1;
    }

    /// `.`: appends the current cell to the output.
    pub fn pchr(&mut self)
        requires
            old(self).wf(),
            !old(self)@.halted(),
        ensures
            final(self).wf(),
            final(self)@ == old(self)@.after_pchr(),
    {
        let value: u8 = self.dtape.peek(self.dp);
        self.output.push(value);
        self.ip += 1;
    }

    /// `>`: moves the data pointer one cell to the right.
    pub fn incp(&mut self)
        requires
            old(self).wf(),
            !old(self)@.halted(),
            old(self)@.dp < isize::MAX,
        ensures
            final(self).wf(),
            final(self)@ == old(self)@.after_incp(),
    {
        self.dp += 1;
        self.dtape.touch(self.dp);
        self.ip += 1;
    }

    /// `<`: moves the data pointer one cell to the left.
    pub fn decp(&mut self)
        requires
            old(self).wf(),
            !old(self)@.halted(),
            old(self)@.dp > isize::MIN,
        ensures
            final(self).wf(),
            final(self)@ == old(self)@.after_decp(),
    {
        self.dp -= 1;
        self.dtape.touch(self.dp);
        self.ip += 1;
    }

    /// `+`: adds one to the current cell; 255 becomes 0.
    pub fn incc(&mut self)
        requires
            old(self).wf(),
            !old(self)@.halted(),
        ensures
            final(self).wf(),
            final(self)@ == old(self)@.after_incc(),
            final(self)@.cell() == (old(self)@.cell() + 1) % 256,
    {
        let value: u8 = self.dtape.peek(self.dp);
        self.dtape.write(self.dp, value.wrapping_add(1));
        self.ip += 1;
    }

    /// `-`: subtracts one from the current cell; 0 becomes 255.
    pub fn decc(&mut self)
        requires
            old(self).wf(),
            !old(self)@.halted(),
        ensures
            final(self).wf(),
            final(self)@ == old(self)@.after_decc(),
            final(self)@.cell() == (old(self)@.cell() - 1) % 256,
    {
        let value: u8 = self.dtape.peek(self.dp);
        self.dtape.write(self.dp, value.wrapping_sub(1));
        self.ip += 1;
    }

    /// `,`: moves the next byte of input to the current cell, or zero when
    /// no input is left.
    pub fn gchr(&mut self)
        requires
            old(self).wf(),
            !old(self)@.halted(),
        ensures
            final(self).wf(),
            final(self)@ == old(self)@.after_gchr(),
    {
        let chr: u8 = if self.consumed < self.input.len() {
            let byte: u8 = self.input[self.consumed];
            self.consumed += 1;
            byte
        } else {
            0
        };
        self.dtape.write(self.dp, chr);
        self.ip += 1;
        assert(self@.input =~= old(self)@.after_gchr().input);
    }

    /// Whether the run is over: the instruction pointer is behind the last
    /// instruction.
    pub fn is_halted(&self) -> (halted: bool)
        requires
            self.wf(),
        ensures
            halted == self@.halted(),
    {
        self.ip == self.len
    }

    /// Executes the instruction under the instruction pointer. Returns `false`,
    /// and changes nothing, where that instruction would move the data
    /// pointer out of the range of machine addresses.
    pub fn step(&mut self) -> (done: bool)
        requires
            old(self).wf(),
            !old(self)@.halted(),
        ensures
            final(self).wf(),
            done == !at_edge(old(self)@),
            done ==> final(self)@ == old(self)@.step(),
            !done ==> final(self)@ == old(self)@,
    {
        match self.itape[self.ip] {
            Token::INCP => {
                if self.dp == isize::MAX {
                    return false;
                }
                self.incp();
            },
            Token::DECP => {
                if self.dp == isize::MIN {
                    return false;
                }
                self.decp();
            },
            Token::INCC => {
                self.incc();
            },
            Token::DECC => {
                self.decc();
            },
            Token::PCHR => {
                self.pchr();
            },
            Token::GCHR => {
                self.gchr();
            },
            Token::LBRK => {
                self.lbrk();
            },
            Token::RBRK => {
                self.rbrk();
            },
        }
        true
    }

    /// Runs the program for at most `limit` instructions: until it halts, the
    /// allowance is used up, or the data pointer is about to leave the range
    /// of machine addresses. Returns why it stopped and how many instructions
    /// it executed.
    pub fn exec(&mut self, limit: u64) -> (end: (Stop, u64))
        requires
            old(self).wf(),
        ensures
            final(self).wf(),
            end.1 <= limit,
            final(self)@ == old(self)@.run(end.1 as nat),
            forall|k: nat|
                k < end.1 ==> !(#[trigger] old(self)@.run(k)).halted() && !at_edge(
                    old(self)@.run(k),
                ),
            match end.0 {
                Stop::Halted => final(self)@.halted(),
                Stop::OutOfSteps => !final(self)@.halted() && end.1 == limit,
                Stop::TapeEdge => !final(self)@.halted() && end.1 < limit && at_edge(final(self)@),
            },
    {
        let mut steps: u64 = 0;
        while steps < limit && !self.is_halted()
            invariant
                self.wf(),
                steps <= limit,
                self@ == old(self)@.run(steps as nat),
                forall|k: nat|
                    k < steps ==> !(#[trigger] old(self)@.run(k)).halted() && !at_edge(
                        old(self)@.run(k),
                    ),
            decreases limit - steps,
        {
            if !self.step() {
                return (Stop::TapeEdge, steps);
            }
            proof {
                old(self)@.lemma_run_step(steps as nat);
            }
            steps += 1;
        }
        if self.is_halted() {
            (Stop::Halted, steps)
        } else {
            (Stop::OutOfSteps, steps)
        }
    }

    /// Appends one byte to the input.
    pub fn feed(&mut self, byte: u8)
        requires
            old(self).wf(),
        ensures
            final(self).wf(),
            final(self)@ == old(self)@.fed(seq![byte]),
    {
        self.input.push(byte);
        assert(self@.input =~= old(self)@.input + seq![byte]);
    }

    /// Hands over the output written since the last call, and empties it.
    pub fn take_output(&mut self) -> (bytes: Vec<u8>)
        requires
            old(self).wf(),
        ensures
            final(self).wf(),
            bytes@ == old(self)@.output,
            final(self)@ == old(self)@.drained(),
    {
        let mut bytes: Vec<u8> = Vec::new();
        std::mem::swap(&mut self.output, &mut bytes);
        bytes
    }

    /// Whether the next instruction is `,` and no input is left for it.
    pub fn awaits_input(&self) -> (waiting: bool)
        requires
            self.wf(),
        ensures
            waiting == (!self@.halted() && self@.code[self@.ip] == Token::GCHR
                && self@.input.len() == 0),
    {
        if self.ip == self.len || self.consumed < self.input.len() {
            false
        } else {
            match self.itape[self.ip] {
                Token::GCHR => true,
                _ => false,
            }
        }
    }

    /// The instruction pointer.
    pub fn ip(&self) -> (ip: usize)
        ensures
            ip == self@.ip,
    {
        self.ip
    }

    /// The data pointer.
    pub fn dp(&self) -> (dp: isize)
        ensures
            dp == self@.dp,
    {
        self.dp
    }

    /// The value of the current cell.
    pub fn cell(&self) -> (value: u8)
        ensures
            value == self@.cell(),
    {
        self.dtape.peek(self.dp)
    }

    /// The value of the cell at `addr`; zero if it was never visited.
    pub fn cell_at(&self, addr: isize) -> (value: u8)
        ensures
            value == cell_at(self@.cells, addr as int),
    {
        self.dtape.peek(addr)
    }

    /// The output written and not yet taken.
    pub fn output(&self) -> (bytes: &Vec<u8>)
        ensures
            bytes@ == self@.output,
    {
        &self.output
    }
}

} // verus!
