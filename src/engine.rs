use crate::jump_table::{build_brace_map, describes, pairs_brackets, balanced, BracketError, JumpTable};
use vstd::prelude::*;

verus! {

/// An instruction sequence together with the jump table of its brackets.
pub struct Program {
    pub code: Vec<char>,
    pub jumps: JumpTable,
}

impl Program {
    /// The jump table pairs exactly the brackets of the code.
    pub open spec fn wf(&self) -> bool {
        pairs_brackets(self.code@, self.jumps@)
    }

    /// Builds the jump table of `code`; fails when its brackets do not balance.
    pub fn new(code: Vec<char>) -> (r: Result<Program, BracketError>)
        ensures
            r is Ok <==> balanced(code@),
            match r {
                Ok(p) => p.code@ == code@ && p.wf(),
                Err(e) => describes(code@, e),
            },
    {
        match build_brace_map(&code) {
            Ok(jumps) => Ok(Program { code, jumps }),
            Err(e) => Err(e),
        }
    }
}

/// The abstract state of a run: the tape, the cell pointer and the
/// instruction pointer.
pub struct State {
    pub tape: Seq<u8>,
    pub cell: int,
    pub pc: int,
}

/// A cell value plus one, modulo 256.
pub open spec fn wrap_inc(x: u8) -> u8 {
    ((x + 1) % 256) as u8
}

/// A cell value minus one, modulo 256.
pub open spec fn wrap_dec(x: u8) -> u8 {
    ((x + 255) % 256) as u8
}

/// The state after the instruction at `s.pc`, for any instruction but input.
pub open spec fn advance(code: Seq<char>, jumps: Map<usize, usize>, s: State) -> State {
    let c = code[s.pc];
    if c == '>' {
        State {
            tape: if s.cell + 1 == s.tape.len() {
                s.tape.push(0)
            } else {
                s.tape
            },
            cell: s.cell + 1,
            pc: s.pc + 1,
        }
    } else if c == '<' {
        State {
            tape: s.tape,
            cell: if s.cell == 0 {
                0
            } else {
                s.cell - 1
            },
            pc: s.pc + 1,
        }
    } else if c == '+' {
        State { tape: s.tape.update(s.cell, wrap_inc(s.tape[s.cell])), cell: s.cell, pc: s.pc + 1 }
    } else if c == '-' {
        State { tape: s.tape.update(s.cell, wrap_dec(s.tape[s.cell])), cell: s.cell, pc: s.pc + 1 }
    } else if c == '[' && s.tape[s.cell] == 0 {
        State { tape: s.tape, cell: s.cell, pc: jumps[s.pc as usize] + 1 }
    } else if c == ']' && s.tape[s.cell] != 0 {
        State { tape: s.tape, cell: s.cell, pc: jumps[s.pc as usize] + 1 }
    } else {
        State { tape: s.tape, cell: s.cell, pc: s.pc + 1 }
    }
}

/// The state after an input instruction at `s.pc` read the byte `b`.
pub open spec fn take_input(s: State, b: u8) -> State {
    State { tape: s.tape.update(s.cell, b), cell: s.cell, pc: s.pc + 1 }
}

/// Cell arithmetic wraps: one increment of 255 gives 0, one decrement of 0
/// gives 255, and every other value moves by exactly one.
pub proof fn lemma_cell_wraps(code: Seq<char>, jumps: Map<usize, usize>, s: State)
    requires
        0 <= s.pc < code.len(),
        0 <= s.cell < s.tape.len(),
    ensures
        code[s.pc] == '+' && s.tape[s.cell] == 255 ==> advance(code, jumps, s).tape[s.cell] == 0,
        code[s.pc] == '-' && s.tape[s.cell] == 0 ==> advance(code, jumps, s).tape[s.cell] == 255,
        code[s.pc] == '+' && s.tape[s.cell] < 255 ==> advance(code, jumps, s).tape[s.cell]
            == s.tape[s.cell] + 1,
        code[s.pc] == '-' && s.tape[s.cell] > 0 ==> advance(code, jumps, s).tape[s.cell]
            == s.tape[s.cell] - 1,
{
}

/// Moving left from the first cell keeps the cell pointer at zero and leaves
/// the tape as it was.
pub proof fn lemma_left_clamps_at_zero(code: Seq<char>, jumps: Map<usize, usize>, s: State)
    requires
        0 <= s.pc < code.len(),
        code[s.pc] == '<',
        s.cell == 0,
    ensures
        advance(code, jumps, s).cell == 0,
        advance(code, jumps, s).tape == s.tape,
{
}

/// Moving right from the last cell appends exactly one zero cell and keeps
/// every earlier cell; moving right inside the tape leaves it as it was.
pub proof fn lemma_right_grows_by_one(code: Seq<char>, jumps: Map<usize, usize>, s: State)
    requires
        0 <= s.pc < code.len(),
        code[s.pc] == '>',
        0 <= s.cell < s.tape.len(),
    ensures
        s.cell + 1 == s.tape.len() ==> {
            let t = advance(code, jumps, s).tape;
            &&& t.len() == s.tape.len() + 1
            &&& t[s.tape.len() as int] == 0
            &&& t.subrange(0, s.tape.len() as int) == s.tape
        },
        s.cell + 1 < s.tape.len() ==> advance(code, jumps, s).tape == s.tape,
        advance(code, jumps, s).cell == s.cell + 1,
{
    if s.cell + 1 == s.tape.len() {
        assert(s.tape.push(0).subrange(0, s.tape.len() as int) =~= s.tape);
    }
}

/// What one step of a machine asks of its surroundings.
#[derive(Debug, Clone, Copy, PartialEq, Eq, Structural)]
pub enum Step {
    /// An instruction ran that needs nothing from outside.
    Ran,
    /// An output instruction ran and emits this byte.
    Output(u8),
    /// The next instruction reads a byte: hand it over with `feed`.
    NeedsInput,
    /// The instruction pointer is past the end: the run is over.
    Halted,
}

/// A running program's tape, cell pointer and instruction pointer.
pub struct Machine {
    pub tape: Vec<u8>,
    pub cell: usize,
    pub pc: usize,
}

impl View for Machine {
    type V = State;

    open spec fn view(&self) -> State {
        State { tape: self.tape@, cell: self.cell as int, pc: self.pc as int }
    }
}

impl Machine {
    /// The cell pointer addresses a cell of the tape.
    pub open spec fn wf(&self) -> bool {
        self.cell < self.tape.len()
    }

    /// A machine at the start of a run, on the given tape or on one zero cell.
    /// An empty tape has no current cell, so it is given one zero cell too.
    pub fn new(tape: Option<Vec<u8>>) -> (r: Machine)
        ensures
            r.wf(),
            r.cell == 0,
            r.pc == 0,
            r.tape@ == (match tape {
                Some(t) => if t@.len() > 0 {
                    t@
                } else {
                    seq![0u8]
                },
                None => seq![0u8],
            }),
    {
        let mut cells = match tape {
            Some(t) => t,
            None => Vec::new(),
        };
        if cells.len() == 0 {
            cells.push(0);
        }
        Machine { tape: cells, cell: 0, pc: 0 }
    }

    /// Runs the instruction at the instruction pointer, unless the run is over
    /// or the instruction waits for input.
    pub fn step(&mut self, program: &Program) -> (r: Step)
        requires
            old(self).wf(),
            program.wf(),
        ensures
            final(self).wf(),
            old(self).pc >= program.code.len() ==> r == Step::Halted && final(self)@ == old(self)@,
            old(self).pc < program.code.len() && program.code@[old(self).pc as int] == ','
                ==> r == Step::NeedsInput && final(self)@ == old(self)@,
            old(self).pc < program.code.len() && program.code@[old(self).pc as int] != ',' ==> {
                &&& final(self)@ == advance(program.code@, program.jumps@, old(self)@)
                &&& r == if program.code@[old(self).pc as int] == '.' {
                    Step::Output(old(self).tape@[old(self).cell as int])
                } else {
                    Step::Ran
                }
            },
    {
        if self.pc >= program.code.len() {
            return Step::Halted;
        }
        let c = program.code[self.pc];
        if c == ',' {
            return Step::NeedsInput;
        }
        let mut r = Step::Ran;
        if c == '>' {
            self.cell = self.cell + 1;
            if self.cell == self.tape.len() {
                self.tape.push(0);
            }
            self.pc = self.pc + 1;
        } else if c == '<' {
            if self.cell > 0 {
                self.cell = self.cell - 1;
            }
            self.pc = self.pc + 1;
        } else if c == '+' {
            let v = self.tape[self.cell];
            let w: u8 = if v == 255 { 0 } else { v + 1 };
            self.tape.set(self.cell, w);
            self.pc = self.pc + 1;
        } else if c == '-' {
            let v = self.tape[self.cell];
            let w: u8 = if v == 0 { 255 } else { v - 1 };
            self.tape.set(self.cell, w);
            self.pc = self.pc + 1;
        } else if (c == '[' && self.tape[self.cell] == 0) || (c == ']' && self.tape[self.cell]
            != 0) {
            proof {
                assert(crate::jump_table::is_bracket(program.code@[self.pc as int]));
            }
            match program.jumps.target(self.pc) {
                Some(t) => {
                    self.pc = t + 1;
                },
                None => {
                    self.pc = self.pc + 1;
                },
            }
        } else {
            if c == '.' {
                r = Step::Output(self.tape[self.cell]);
            }
            self.pc = self.pc + 1;
        }
        r
    }

    /// Completes an input instruction: the current cell takes `byte` and the
    /// instruction pointer moves on.
    pub fn feed(&mut self, program: &Program, byte: u8)
        requires
            old(self).wf(),
            old(self).pc < program.code.len(),
            program.code@[old(self).pc as int] == ',',
        ensures
            final(self).wf(),
            final(self)@ == take_input(old(self)@, byte),
    {
        self.tape.set(self.cell, byte);
        self.pc = self.pc + 1;
    }
}

} // verus!
