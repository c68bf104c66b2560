//! The mathematical model of the machine: its state and what one instruction
//! does to it. The executable engine is specified against this model.

use vstd::prelude::*;
use crate::token::Token;
use crate::nesting::{balanced, close_of, open_of, is_pair, lemma_close_exists, lemma_open_exists,
    lemma_close_unique, lemma_open_unique};
use crate::tape::{cell_at, touched, succ_cell, pred_cell};

verus! {

/// A state of the machine. Addresses and positions are mathematical integers:
/// the tape has no end in either direction.
pub struct Machine {
    /// The program.
    pub code: Seq<Token>,
    /// The instruction pointer: the position of the next instruction, or the
    /// length of the program once the machine has halted.
    pub ip: int,
    /// The data pointer: the address of the current cell.
    pub dp: int,
    /// The entries of the tape: one for each address visited so far.
    pub cells: Map<int, u8>,
    /// The input not yet read.
    pub input: Seq<u8>,
    /// The output written so far.
    pub output: Seq<u8>,
}

impl Machine {
    /// The state in which a run of `code` begins: both pointers at zero, one
    /// tape entry, at address zero and holding zero, no input, no output.
    pub open spec fn start(code: Seq<Token>) -> Machine {
        Machine {
            code,
            ip: 0,
            dp: 0,
            cells: Map::<int, u8>::empty().insert(0, 0),
            input: Seq::<u8>::empty(),
            output: Seq::<u8>::empty(),
        }
    }

    /// The invariant of every state at an instruction boundary: the program is
    /// balanced, the instruction pointer is a position of it or its length,
    /// and the current cell has an entry.
    pub open spec fn wf(self) -> bool {
        &&& balanced(self.code)
        &&& 0 <= self.ip <= self.code.len()
        &&& self.cells.contains_key(self.dp)
    }

    /// The machine has halted: the instruction pointer is behind the last instruction.
    pub open spec fn halted(self) -> bool {
        self.ip >= self.code.len()
    }

    /// The value of the current cell.
    pub open spec fn cell(self) -> u8 {
        cell_at(self.cells, self.dp)
    }

    /// The state with `bytes` appended to the unread input.
    pub open spec fn fed(self, bytes: Seq<u8>) -> Machine {
        Machine { input: self.input + bytes, ..self }
    }

    /// The state with the output taken away.
    pub open spec fn drained(self) -> Machine {
        Machine { output: Seq::<u8>::empty(), ..self }
    }

    /// `>`: the data pointer moves right and the cell it reaches is visited.
    pub open spec fn after_incp(self) -> Machine {
        Machine { dp: self.dp + 1, cells: touched(self.cells, self.dp + 1), ip: self.ip + 1, ..self }
    }

    /// `<`: the data pointer moves left and the cell it reaches is visited.
    pub open spec fn after_decp(self) -> Machine {
        Machine { dp: self.dp - 1, cells: touched(self.cells, self.dp - 1), ip: self.ip + 1, ..self }
    }

    /// `+`: the current cell grows by one, modulo 256.
    pub open spec fn after_incc(self) -> Machine {
        Machine { cells: self.cells.insert(self.dp, succ_cell(self.cell())), ip: self.ip + 1, ..self }
    }

    /// `-`: the current cell shrinks by one, modulo 256.
    pub open spec fn after_decc(self) -> Machine {
        Machine { cells: self.cells.insert(self.dp, pred_cell(self.cell())), ip: self.ip + 1, ..self }
    }

    /// `.`: the current cell is appended to the output.
    pub open spec fn after_pchr(self) -> Machine {
        Machine { output: self.output.push(self.cell()), ip: self.ip + 1, ..self }
    }

    /// `,`: the next byte of input goes to the current cell; once the input
    /// is used up, zero does.
    pub open spec fn after_gchr(self) -> Machine {
        if self.input.len() > 0 {
            Machine {
                cells: self.cells.insert(self.dp, self.input[0]),
                input: self.input.drop_first(),
                ip: self.ip + 1,
                ..self
            }
        } else {
            Machine { cells: self.cells.insert(self.dp, 0), ip: self.ip + 1, ..self }
        }
    }

    /// `[`: on a zero cell, go to just behind the matching `]`; on any
    /// other, enter the loop body.
    pub open spec fn after_lbrk(self) -> Machine {
        if self.cell() == 0 {
            Machine { ip: close_of(self.code, self.ip) + 1, ..self }
        } else {
            Machine { ip: self.ip + 1, ..self }
        }
    }

    /// `]`: on a zero cell, leave the loop; on any other, go back to just
    /// behind the matching `[`, the first instruction of the loop body.
    pub open spec fn after_rbrk(self) -> Machine {
        if self.cell() == 0 {
            Machine { ip: self.ip + 1, ..self }
        } else {
            Machine { ip: open_of(self.code, self.ip) + 1, ..self }
        }
    }

    /// The state after the instruction under the instruction pointer; a halted
    /// machine stays as it is.
    pub open spec fn step(self) -> Machine {
        if self.halted() || self.ip < 0 {
            self
        } else {
            match self.code[self.ip] {
                Token::INCP => self.after_incp(),
                Token::DECP => self.after_decp(),
                Token::INCC => self.after_incc(),
                Token::DECC => self.after_decc(),
                Token::PCHR => self.after_pchr(),
                Token::GCHR => self.after_gchr(),
                Token::LBRK => self.after_lbrk(),
                Token::RBRK => self.after_rbrk(),
            }
        }
    }

    /// The state after `n` instructions, or after the last one if the machine
    /// halts before that.
    pub open spec fn run(self, n: nat) -> Machine
        decreases n,
    {
        if n == 0 {
            self
        } else {
            self.step().run((n - 1) as nat)
        }
    }

    /// One more instruction after `n` is `n + 1` instructions.
    pub proof fn lemma_run_step(self, n: nat)
        ensures
            self.run(n + 1) == self.run(n).step(),
        decreases n,
    {
        if n > 0 {
            self.step().lemma_run_step((n - 1) as nat);
        } else {
            assert(self.run(1) == self.step().run(0));
        }
    }

    /// The start of a run on a balanced program is well-formed.
    pub proof fn lemma_start_wf(code: Seq<Token>)
        requires
            balanced(code),
        ensures
            Machine::start(code).wf(),
    {
    }

    /// An instruction takes a well-formed state to a well-formed state and
    /// leaves the program as it is.
    pub proof fn lemma_step_wf(self)
        requires
            self.wf(),
        ensures
            self.step().wf(),
            self.step().code == self.code,
    {
        if !self.halted() {
            match self.code[self.ip] {
                Token::LBRK => {
                    lemma_close_exists(self.code, self.ip);
                },
                Token::RBRK => {
                    lemma_open_exists(self.code, self.ip);
                },
                _ => {},
            }
        }
    }

    /// Every state of a run that begins well-formed is well-formed.
    pub proof fn lemma_run_wf(self, n: nat)
        requires
            self.wf(),
        ensures
            self.run(n).wf(),
            self.run(n).code == self.code,
        decreases n,
    {
        if n > 0 {
            self.lemma_step_wf();
            self.step().lemma_run_wf((n - 1) as nat);
        }
    }

    /// At a `[` whose `]` is at `close`: a zero cell sends the machine to just
    /// behind `close`, any other into the loop body; nothing else changes.
    pub proof fn lemma_loop_entry(self, close: int)
        requires
            is_pair(self.code, self.ip, close),
        ensures
            self.step() == (Machine {
                ip: if self.cell() == 0 {
                    close + 1
                } else {
                    self.ip + 1
                },
                ..self
            }),
    {
        if self.cell() == 0 {
            lemma_close_unique(self.code, self.ip, close, close_of(self.code, self.ip));
        }
    }

    /// At a `]` whose `[` is at `open`, every time it is reached: a zero cell
    /// lets the machine leave the loop, any other sends it back to just
    /// behind `open`; nothing else changes.
    pub proof fn lemma_loop_recheck(self, open: int)
        requires
            is_pair(self.code, open, self.ip),
        ensures
            self.step() == (Machine {
                ip: if self.cell() == 0 {
                    self.ip + 1
                } else {
                    open + 1
                },
                ..self
            }),
    {
        if self.cell() != 0 {
            lemma_open_unique(self.code, open, open_of(self.code, self.ip), self.ip);
        }
    }

    /// An instruction changes no cell but the current one.
    pub proof fn lemma_step_keeps_other_cells(self, addr: int)
        requires
            addr != self.dp,
        ensures
            cell_at(self.step().cells, addr) == cell_at(self.cells, addr),
    {
    }

    /// An address that the data pointer has not been at has no entry and
    /// reads as zero: if `addr` has no entry and the data pointer stays off it
    /// for `n` instructions, it has none after them.
    pub proof fn lemma_unvisited_is_zero(self, n: nat, addr: int)
        requires
            !self.cells.contains_key(addr),
            forall|k: nat| k <= n ==> (#[trigger] self.run(k)).dp != addr,
        ensures
            !self.run(n).cells.contains_key(addr),
            cell_at(self.run(n).cells, addr) == 0,
        decreases n,
    {
        if n > 0 {
            let m = (n - 1) as nat;
            self.lemma_unvisited_is_zero(m, addr);
            self.lemma_run_step(m);
        }
    }

    /// A move onto an address without an entry finds zero there.
    pub proof fn lemma_fresh_cell_is_zero(self)
        ensures
            !self.cells.contains_key(self.dp + 1) ==> self.after_incp().cell() == 0,
            !self.cells.contains_key(self.dp - 1) ==> self.after_decp().cell() == 0,
    {
    }
}

} // verus!
