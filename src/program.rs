use vstd::prelude::*;
use crate::brackets::{
    balanced, check_balanced, lemma_close_exists, lemma_level_step_bound, lemma_noop_tail,
    lemma_open_exists, lemma_pair_unique, level, pairs,
};
use crate::operation::Operation;
use crate::tape::{grown, Blank, Tape};

verus! {

/// The number of memory cells a program starts with.
pub const MEMORY_CELLS: usize = 512;

/// A cell value after an increment: 255 wraps to 0.
pub open spec fn wrap_inc(v: u8) -> u8 {
    if v == 255 {
        0
    } else {
        (v + 1) as u8
    }
}

/// A cell value after a decrement: 0 wraps to 255.
pub open spec fn wrap_dec(v: u8) -> u8 {
    if v == 0 {
        255
    } else {
        (v - 1) as u8
    }
}

/// Increment and decrement undo each other on every cell value.
pub proof fn lemma_inc_dec_inverse(v: u8)
    ensures
        wrap_inc(wrap_dec(v)) == v,
        wrap_dec(wrap_inc(v)) == v,
{
}

/// Growing a tape doubles its length, keeps its cells and fills the new
/// ones with the blank value.
pub proof fn lemma_growth_doubles<T: Blank>(cells: Seq<T>, cursor: int)
    requires
        cursor + 1 >= cells.len(),
    ensures
        grown(cells, cursor).len() == 2 * cells.len(),
        grown(cells, cursor).subrange(0, cells.len() as int) == cells,
        forall|i: int|
            cells.len() <= i < 2 * cells.len() ==> #[trigger] grown(cells, cursor)[i]
                == T::blank_spec(),
{
    assert(grown(cells, cursor).subrange(0, cells.len() as int) =~= cells);
}

/// What a step reports besides its effect on the program.
#[derive(PartialEq, Eq, Structural, Clone, Copy, Debug)]
pub enum Signal {
    /// Nothing to report: the next step may follow.
    Continue,
    /// The instruction was an output: this byte is to be written out.
    Output(u8),
    /// The instruction was an input: the cell under the memory cursor is to
    /// receive the next value read in.
    Input,
    /// The instruction under the cursor is a no-op: the program has ended.
    Halt,
    /// A move left from the first memory cell was refused; nothing changed.
    Underflow,
    /// The allowed number of steps ran out before the program ended.
    Paused,
}

/// Why a sequence of instructions cannot be run.
#[derive(PartialEq, Eq, Structural, Clone, Copy, Debug)]
pub enum LoadError {
    /// There is no instruction at all.
    Empty,
    /// A jump-back closes no jump-forward, or a jump-forward is never closed.
    Unbalanced,
}

/// The state of a program, as plain values: the instructions and the
/// instruction cursor, the memory cells and the memory cursor.
pub struct Machine {
    pub code: Seq<Operation>,
    pub pc: int,
    pub cells: Seq<u8>,
    pub mp: int,
}

impl Machine {
    /// Both cursors stand on a cell, and the brackets are balanced.
    pub open spec fn wf(self) -> bool {
        &&& 0 <= self.pc < self.code.len()
        &&& 0 <= self.mp < self.cells.len()
        &&& balanced(self.code)
    }

    /// The instruction under the instruction cursor.
    pub open spec fn op(self) -> Operation {
        self.code[self.pc]
    }

    /// The value under the memory cursor.
    pub open spec fn cell(self) -> u8 {
        self.cells[self.mp]
    }

    /// The instruction is a move left from the first memory cell.
    pub open spec fn stuck(self) -> bool {
        self.op() == Operation::MoveLeft && self.mp == 0
    }

    /// The state after the instruction under the cursor took effect; the
    /// instruction cursor has not advanced yet.
    pub open spec fn operated(self) -> Machine {
        match self.op() {
            Operation::Increment => Machine { cells: self.cells.update(self.mp, wrap_inc(self.cell())), ..self },
            Operation::Decrement => Machine { cells: self.cells.update(self.mp, wrap_dec(self.cell())), ..self },
            Operation::MoveLeft => Machine { mp: self.mp - 1, ..self },
            Operation::MoveRight => Machine { cells: grown(self.cells, self.mp), mp: self.mp + 1, ..self },
            Operation::JumpForward => if self.cell() == 0 {
                Machine { pc: choose|c: int| pairs(self.code, self.pc, c), ..self }
            } else {
                self
            },
            Operation::JumpBack => if self.cell() != 0 {
                Machine { pc: choose|o: int| pairs(self.code, o, self.pc), ..self }
            } else {
                self
            },
            _ => self,
        }
    }

    /// The state after one full step: the instruction took effect, then the
    /// instruction cursor moved one right.
    pub open spec fn stepped(self) -> Machine {
        let m = self.operated();
        Machine { code: grown(m.code, m.pc), pc: m.pc + 1, ..m }
    }

    /// What a step from this state reports.
    pub open spec fn signal(self) -> Signal {
        if self.stuck() {
            Signal::Underflow
        } else {
            match self.op() {
                Operation::Output => Signal::Output(self.cell()),
                Operation::Input => Signal::Input,
                _ => Signal::Continue,
            }
        }
    }

    /// Running for at most `fuel` steps: the state reached and what stopped
    /// the run.
    pub open spec fn run(self, fuel: nat) -> (Machine, Signal)
        decreases fuel,
    {
        if fuel == 0 {
            (self, Signal::Paused)
        } else if self.op() == Operation::NoOp {
            (self, Signal::Halt)
        } else if self.stuck() {
            (self, Signal::Underflow)
        } else if self.signal() == Signal::Continue {
            self.stepped().run((fuel - 1) as nat)
        } else {
            (self.stepped(), self.signal())
        }
    }
}

/// A step from a state whose cursors stand on their tapes and whose
/// brackets balance leads to such a state again, unless the move left is
/// refused, in which case nothing changes.
pub proof fn lemma_step_keeps_wf(m: Machine)
    requires
        m.wf(),
        !m.stuck(),
    ensures
        m.operated().wf(),
        m.stepped().wf(),
{
    if m.op() == Operation::JumpForward && m.cell() == 0 {
        lemma_close_exists(m.code, m.pc);
    }
    if m.op() == Operation::JumpBack && m.cell() != 0 {
        lemma_open_exists(m.code, m.pc);
    }
    let o = m.operated();
    assert(o.wf());
    lemma_noop_tail(o.code, grown(o.code, o.pc));
}

/// Every state a run reaches from a well-formed state is well-formed.
pub proof fn lemma_run_keeps_wf(m: Machine, fuel: nat)
    requires
        m.wf(),
    ensures
        m.run(fuel).0.wf(),
    decreases fuel,
{
    if fuel > 0 && m.op() != Operation::NoOp && !m.stuck() {
        lemma_step_keeps_wf(m);
        if m.signal() == Signal::Continue {
            lemma_run_keeps_wf(m.stepped(), (fuel - 1) as nat);
        }
    }
}

/// A program being run: its instruction tape and its memory tape.
pub struct Program {
    pub ops: Tape<Operation>,
    pub memory: Tape<u8>,
}

impl View for Program {
    type V = Machine;

    open spec fn view(&self) -> Machine {
        Machine {
            code: self.ops.data@,
            pc: self.ops.cursor as int,
            cells: self.memory.data@,
            mp: self.memory.cursor as int,
        }
    }
}

impl Program {
    /// Both cursors stand on a cell, and the brackets are balanced.
    pub open spec fn wf(&self) -> bool {
        self@.wf()
    }

    /// A program over `program`, with fresh memory of zeros and both cursors
    /// on the first cell.
    pub fn new(program: Vec<Operation>) -> (r: Self)
        requires
            program@.len() > 0,
            balanced(program@),
        ensures
            r.wf(),
            r@.code == program@,
            r@.pc == 0,
            r@.cells == Seq::new(MEMORY_CELLS as nat, |i: int| 0u8),
            r@.mp == 0,
    {
        let mut memory: Vec<u8> = Vec::new();
        let mut i: usize = 0;
        while i < MEMORY_CELLS
            invariant
                i <= MEMORY_CELLS,
                memory@ =~= Seq::new(i as nat, |k: int| 0u8),
            decreases MEMORY_CELLS - i,
        {
            memory.push(0);
            i = i + 1;
            assert(memory@ =~= Seq::new(i as nat, |k: int| 0u8));
        }
        Program { ops: Tape::new(program), memory: Tape::new(memory) }
    }

    /// A program over `program`, once its instructions are checked: there is
    /// at least one, and the brackets are balanced.
    pub fn load(program: Vec<Operation>) -> (r: Result<Self, LoadError>)
        ensures
            program@.len() == 0 ==> r == Err::<Self, LoadError>(LoadError::Empty),
            program@.len() > 0 && !balanced(program@) ==> r == Err::<Self, LoadError>(
                LoadError::Unbalanced,
            ),
            program@.len() > 0 && balanced(program@) ==> r is Ok,
            r matches Ok(p) ==> p.wf() && p@.code == program@ && p@.pc == 0 && p@.mp == 0
                && p@.cells == Seq::new(MEMORY_CELLS as nat, |i: int| 0u8),
    {
        if program.len() == 0 {
            return Err(LoadError::Empty);
        }
        if !check_balanced(program.as_slice()) {
            return Err(LoadError::Unbalanced);
        }
        Ok(Program::new(program))
    }

    /// Adds one to the cell under the memory cursor, wrapping 255 to 0.
    pub fn inc(&mut self)
        requires
            old(self).wf(),
        ensures
            final(self).wf(),
            final(self)@ == (Machine { cells: old(self)@.cells.update(old(self)@.mp, wrap_inc(old(self)@.cell())), ..old(self)@ }),
    {
        let v = *self.memory.cell();
        *self.memory.cell_mut() = v.wrapping_add(1);
    }

    /// Takes one from the cell under the memory cursor, wrapping 0 to 255.
    pub fn dec(&mut self)
        requires
            old(self).wf(),
        ensures
            final(self).wf(),
            final(self)@ == (Machine { cells: old(self)@.cells.update(old(self)@.mp, wrap_dec(old(self)@.cell())), ..old(self)@ }),
    {
        let v = *self.memory.cell();
        *self.memory.cell_mut() = v.wrapping_sub(1);
    }

    /// Moves the memory cursor one cell left.
    pub fn mvl(&mut self)
        requires
            old(self).wf(),
            old(self)@.mp > 0,
        ensures
            final(self).wf(),
            final(self)@ == (Machine { mp: old(self)@.mp - 1, ..old(self)@ }),
    {
        self.memory.mv_left();
    }

    /// Moves the memory cursor one cell right, growing the memory where it
    /// ends.
    pub fn mvr(&mut self)
        requires
            old(self).wf(),
        ensures
            final(self).wf(),
            final(self)@ == (Machine { cells: grown(old(self)@.cells, old(self)@.mp), mp: old(self)@.mp + 1, ..old(self)@ }),
    {
        self.memory.mv_right();
    }

    /// The byte that an output instruction writes: the cell under the
    /// memory cursor.
    pub fn prt(&self) -> (r: u8)
        requires
            self.wf(),
        ensures
            r == self@.cell(),
    {
        *self.memory.cell()
    }

    /// Stores a value read in into the cell under the memory cursor.
    pub fn inp(&mut self, value: u8)
        requires
            old(self).wf(),
        ensures
            final(self).wf(),
            final(self)@ == (Machine { cells: old(self)@.cells.update(old(self)@.mp, value), ..old(self)@ }),
    {
        *self.memory.cell_mut() = value;
    }

    /// A jump-forward: where the cell under the memory cursor is 0, moves
    /// the instruction cursor onto the matching jump-back.
    pub fn jpf(&mut self)
        requires
            old(self).wf(),
            old(self)@.op() == Operation::JumpForward,
        ensures
            final(self).wf(),
            final(self)@ == old(self)@.operated(),
            old(self)@.cell() == 0 ==> pairs(old(self)@.code, old(self)@.pc, final(self)@.pc),
    {
        if *self.memory.cell() == 0 {
            let ghost s = self.ops.data@;
            let ghost p = self.ops.cursor as int;
            let ghost mem = self.memory;
            let mut count: usize = 1;
            while count > 0
                invariant
                    self.ops.wf(),
                    self.ops.data@ == s,
                    self.memory == mem,
                    balanced(s),
                    0 <= p <= self.ops.cursor,
                    count == level(s, self.ops.cursor + 1) - level(s, p),
                    self.ops.cursor == p ==> count == 1,
                    forall|k: int| p < k <= self.ops.cursor ==> #[trigger] level(s, k) > level(s, p),
                decreases s.len() - self.ops.cursor,
            {
                let ghost c = self.ops.cursor as int;
                assert(level(s, p) >= 0);
                assert(c + 1 < s.len());
                self.ops.mv_right();
                let op = *self.ops.cell();
                proof {
                    lemma_level_step_bound(s, p, c + 2);
                    vstd::std_specs::vec::axiom_spec_len(&self.ops.data);
                    assert(count + 1 <= s.len());
                }
                if op == Operation::JumpForward {
                    count = count + 1;
                } else if op == Operation::JumpBack {
                    count = count - 1;
                }
            }
            proof {
                let c = self.ops.cursor as int;
                assert(pairs(s, p, c));
                let q = choose|q: int| pairs(s, p, q);
                lemma_pair_unique(s, p, c, p, q);
            }
        }
    }

    /// A jump-back: where the cell under the memory cursor is not 0, moves
    /// the instruction cursor onto the matching jump-forward.
    pub fn jpb(&mut self)
        requires
            old(self).wf(),
            old(self)@.op() == Operation::JumpBack,
        ensures
            final(self).wf(),
            final(self)@ == old(self)@.operated(),
            old(self)@.cell() != 0 ==> pairs(old(self)@.code, final(self)@.pc, old(self)@.pc),
    {
        if *self.memory.cell() != 0 {
            let ghost s = self.ops.data@;
            let ghost p = self.ops.cursor as int;
            let ghost mem = self.memory;
            let mut count: usize = 1;
            while count > 0
                invariant
                    self.ops.wf(),
                    self.ops.data@ == s,
                    self.memory == mem,
                    balanced(s),
                    p < s.len(),
                    0 <= self.ops.cursor <= p,
                    count == level(s, self.ops.cursor as int) - level(s, p + 1),
                    self.ops.cursor == p ==> count == 1,
                    forall|k: int| self.ops.cursor < k <= p ==> #[trigger] level(s, k) > level(s, p + 1),
                decreases self.ops.cursor,
            {
                let ghost c = self.ops.cursor as int;
                assert(level(s, p + 1) >= 0);
                assert(c > 0);
                self.ops.mv_left();
                let op = *self.ops.cell();
                proof {
                    lemma_level_step_bound(s, c, p + 1);
                    vstd::std_specs::vec::axiom_spec_len(&self.ops.data);
                    assert(count + 1 <= s.len());
                }
                if op == Operation::JumpBack {
                    count = count + 1;
                } else if op == Operation::JumpForward {
                    count = count - 1;
                }
            }
            proof {
                let c = self.ops.cursor as int;
                assert(pairs(s, c, p));
                let q = choose|q: int| pairs(s, q, p);
                lemma_pair_unique(s, c, p, q, p);
            }
        }
    }

    /// Carries out the instruction under the instruction cursor, leaving
    /// that cursor where the instruction put it. Output and input are
    /// reported for the caller to perform; a move left from the first
    /// memory cell is refused and changes nothing.
    pub fn operate(&mut self) -> (r: Signal)
        requires
            old(self).wf(),
        ensures
            final(self).wf(),
            r == old(self)@.signal(),
            old(self)@.stuck() ==> final(self)@ == old(self)@,
            !old(self)@.stuck() ==> final(self)@ == old(self)@.operated(),
            old(self)@.op() == Operation::JumpForward && old(self)@.cell() == 0 ==> pairs(
                old(self)@.code,
                old(self)@.pc,
                final(self)@.pc,
            ),
            old(self)@.op() == Operation::JumpBack && old(self)@.cell() != 0 ==> pairs(
                old(self)@.code,
                final(self)@.pc,
                old(self)@.pc,
            ),
    {
        match *self.ops.cell() {
            Operation::Increment => self.inc(),
            Operation::Decrement => self.dec(),
            Operation::MoveLeft => {
                if self.memory.cursor == 0 {
                    return Signal::Underflow;
                }
                self.mvl();
            },
            Operation::MoveRight => self.mvr(),
            Operation::Output => {
                return Signal::Output(self.prt());
            },
            Operation::Input => {
                return Signal::Input;
            },
            Operation::JumpForward => self.jpf(),
            Operation::JumpBack => self.jpb(),
            _ => {},
        }
        Signal::Continue
    }

    /// Carries out one instruction, then moves the instruction cursor one
    /// right, growing the instruction tape with no-ops where it ends. A jump
    /// taken thus lands just past its matching bracket.
    pub fn step(&mut self) -> (r: Signal)
        requires
            old(self).wf(),
        ensures
            final(self).wf(),
            r == old(self)@.signal(),
            old(self)@.stuck() ==> final(self)@ == old(self)@,
            !old(self)@.stuck() ==> final(self)@ == old(self)@.stepped(),
            old(self)@.op() == Operation::JumpForward && old(self)@.cell() == 0 ==> pairs(
                old(self)@.code,
                old(self)@.pc,
                final(self)@.pc - 1,
            ),
            old(self)@.op() == Operation::JumpBack && old(self)@.cell() != 0 ==> pairs(
                old(self)@.code,
                final(self)@.pc - 1,
                old(self)@.pc,
            ),
    {
        let ghost start = self@;
        let r = self.operate();
        match r {
            Signal::Underflow => {},
            _ => {
                let ghost code = self.ops.data@;
                let ghost pc = self.ops.cursor as int;
                self.ops.mv_right();
                proof {
                    lemma_noop_tail(code, self.ops.data@);
                }
            },
        }
        r
    }

    /// Runs for at most `limit` steps: stops before a no-op (the end of the
    /// program), after an output or an input instruction, at a refused move
    /// left, or when the steps run out.
    pub fn run_for(&mut self, limit: u64) -> (r: Signal)
        requires
            old(self).wf(),
        ensures
            final(self).wf(),
            (final(self)@, r) == old(self)@.run(limit as nat),
    {
        let ghost start = self@;
        let mut left: u64 = limit;
        while left > 0
            invariant
                self.wf(),
                start == old(self)@,
                self@.run(left as nat) == start.run(limit as nat),
            decreases left,
        {
            let ghost before = self@;
            if *self.ops.cell() == Operation::NoOp {
                assert(before.run(left as nat) == (before, Signal::Halt));
                return Signal::Halt;
            }
            let r = self.step();
            match r {
                Signal::Continue => {},
                _ => {
                    assert(before.run(left as nat) == (self@, r));
                    return r;
                },
            }
            left = left - 1;
        }
        Signal::Paused
    }

    /// Runs until the program ends or asks for output or input, or a move
    /// left from the first memory cell is refused. A program that does none
    /// of these pauses after `u64::MAX` steps; running again resumes it.
    pub fn run(&mut self) -> (r: Signal)
        requires
            old(self).wf(),
        ensures
            final(self).wf(),
            (final(self)@, r) == old(self)@.run(u64::MAX as nat),
    {
        self.run_for(u64::MAX)
    }
}

} // verus!
