use vstd::prelude::*;
use crate::error::Error;
use crate::inst::{Inst, InstKind, ARRAY_LEN, EOF};

verus! {

/// What the caller has to do after a step.
#[derive(Debug, PartialEq, Eq, Structural, Clone, Copy)]
pub enum Action {
    /// Nothing: take the next step.
    Continue,
    /// Write `byte` to the output `times` times, one byte per write.
    Write {
        /// The byte to write.
        byte: u8,
        /// How many times to write it.
        times: usize,
    },
    /// Flush the output: the program is about to read.
    Flush,
    /// Read one byte from the input and hand what it gave, the byte or its
    /// end, to [`Machine::input`].
    Read,
    /// The program has ended.
    Halt,
}

/// The state of a machine as a mathematical value.
pub struct MachineView {
    /// The cells of the tape.
    pub tape: Seq<u8>,
    /// Index of the current cell.
    pub ptr: int,
    /// Index of the next instruction.
    pub inst_ptr: int,
    /// How many bytes the instruction at `inst_ptr` still has to read.
    pub pending: int,
    /// Whether the input has reported its end. From then on the machine
    /// asks for no byte: every read stores [`EOF`].
    pub input_ended: bool,
}

impl MachineView {
    /// The tape has its full length, the pointer is on it, no count is
    /// negative, and a machine whose input has ended waits for no byte.
    pub open spec fn wf(self) -> bool {
        &&& self.tape.len() == ARRAY_LEN
        &&& 0 <= self.ptr < ARRAY_LEN
        &&& 0 <= self.inst_ptr
        &&& 0 <= self.pending
        &&& self.input_ended ==> self.pending == 0
    }

    /// The state before the first step: all cells zero, both pointers at 0,
    /// the input not yet at its end.
    pub open spec fn initial() -> MachineView {
        MachineView {
            tape: Seq::new(ARRAY_LEN as nat, |i: int| 0u8),
            ptr: 0,
            inst_ptr: 0,
            pending: 0,
            input_ended: false,
        }
    }

    /// The current cell.
    pub open spec fn cell(self) -> u8 {
        self.tape[self.ptr]
    }

    /// This state with `value` in the current cell.
    pub open spec fn store(self, value: u8) -> MachineView {
        MachineView { tape: self.tape.update(self.ptr, value), ..self }
    }

    /// This state with the instruction pointer at `inst_ptr`.
    pub open spec fn jump(self, inst_ptr: int) -> MachineView {
        MachineView { inst_ptr, ..self }
    }

    /// This state with the instruction pointer one further.
    pub open spec fn advance(self) -> MachineView {
        self.jump(self.inst_ptr + 1)
    }

    /// The state after one step over `insts`, and what the step returns.
    pub open spec fn step(self, insts: Seq<Inst>) -> (MachineView, Result<Action, Error>) {
        if self.pending > 0 {
            (self, Ok(Action::Read))
        } else if self.inst_ptr >= insts.len() {
            (self, Ok(Action::Halt))
        } else {
            let inst = insts[self.inst_ptr];
            let times = inst.times as int;
            match inst.kind {
                InstKind::IncPtr => if self.ptr + times >= ARRAY_LEN {
                    (self, Err(Error::PtrAboveLimit))
                } else {
                    (MachineView { ptr: self.ptr + times, ..self.advance() }, Ok(Action::Continue))
                },
                InstKind::DecPtr => if times > self.ptr {
                    (self, Err(Error::PtrBelowZero))
                } else {
                    (MachineView { ptr: self.ptr - times, ..self.advance() }, Ok(Action::Continue))
                },
                InstKind::IncByte => (
                    self.store(add_wrapping(self.cell(), times)).advance(),
                    Ok(Action::Continue),
                ),
                InstKind::DecByte => (
                    self.store(sub_wrapping(self.cell(), times)).advance(),
                    Ok(Action::Continue),
                ),
                InstKind::WriteByte => (
                    self.advance(),
                    Ok(Action::Write { byte: self.cell(), times: inst.times }),
                ),
                InstKind::ReadByte => if times == 0 {
                    (self.advance(), Ok(Action::Flush))
                } else if self.input_ended {
                    (self.store(EOF).advance(), Ok(Action::Flush))
                } else {
                    (MachineView { pending: times, ..self }, Ok(Action::Flush))
                },
                InstKind::LoopStart { end_idx } => if self.cell() == 0 {
                    (self.jump(end_idx as int), Ok(Action::Continue))
                } else {
                    (self.advance(), Ok(Action::Continue))
                },
                InstKind::LoopEnd { start_idx } => if self.cell() != 0 {
                    (self.jump(start_idx as int), Ok(Action::Continue))
                } else {
                    (self.advance(), Ok(Action::Continue))
                },
            }
        }
    }

    /// The state after the input handed over `byte`, or reported its end
    /// (`None`). A byte is stored and counts as one read of the instruction.
    /// The end is final: it stores [`EOF`], which stands for this read and
    /// for all that the instruction still wanted, and the instruction is
    /// done. A machine that waits for no byte stays as it is.
    pub open spec fn input(self, byte: Option<u8>) -> MachineView {
        if self.pending > 0 {
            match byte {
                Some(b) => {
                    let left = MachineView { pending: self.pending - 1, ..self.store(b) };
                    if left.pending == 0 {
                        left.advance()
                    } else {
                        left
                    }
                },
                None => MachineView {
                    pending: 0,
                    input_ended: true,
                    ..self.store(EOF)
                }.advance(),
            }
        } else {
            self
        }
    }
}

/// `cell` plus `n`, modulo 256.
pub open spec fn add_wrapping(cell: u8, n: int) -> u8 {
    ((cell + n) % 256) as u8
}

/// `cell` minus `n`, modulo 256.
pub open spec fn sub_wrapping(cell: u8, n: int) -> u8 {
    ((cell - n) % 256) as u8
}

/// Adds `times` to a cell, wrapping around at 256.
fn cell_add(cell: u8, times: usize) -> (r: u8)
    ensures
        r == add_wrapping(cell, times as int),
{
    let step: usize = times % 256;
    let r = cell.wrapping_add(step as u8);
    assert(r == add_wrapping(cell, times as int)) by {
        let q = times as int / 256;
        assert(times as int == 256 * q + step as int);
        if cell + step >= 256 {
            assert(cell + times == 256 * (q + 1) + (cell + step - 256));
            vstd::arithmetic::div_mod::lemma_fundamental_div_mod_converse(
                cell + times,
                256,
                q + 1,
                cell + step - 256,
            );
        } else {
            assert(cell + times == 256 * q + (cell + step));
            vstd::arithmetic::div_mod::lemma_fundamental_div_mod_converse(
                cell + times,
                256,
                q,
                cell + step,
            );
        }
    }
    r
}

/// Subtracts `times` from a cell, wrapping around at 0.
fn cell_sub(cell: u8, times: usize) -> (r: u8)
    ensures
        r == sub_wrapping(cell, times as int),
{
    let step: usize = times % 256;
    let r = cell.wrapping_sub(step as u8);
    assert(r == sub_wrapping(cell, times as int)) by {
        let q = times as int / 256;
        assert(times as int == 256 * q + step as int);
        if cell - step < 0 {
            assert(cell - times == 256 * (-q - 1) + (cell - step + 256));
            vstd::arithmetic::div_mod::lemma_fundamental_div_mod_converse(
                cell - times,
                256,
                -q - 1,
                cell - step + 256,
            );
        } else {
            assert(cell - times == 256 * (-q) + (cell - step));
            vstd::arithmetic::div_mod::lemma_fundamental_div_mod_converse(
                cell - times,
                256,
                -q,
                cell - step,
            );
        }
    }
    r
}

/// A tape machine: the cells, the tape pointer, the instruction pointer, how
/// many bytes a read in progress still wants, and whether the input has
/// ended.
pub struct Machine {
    tape: Vec<u8>,
    ptr: usize,
    inst_ptr: usize,
    pending: usize,
    input_ended: bool,
}

impl View for Machine {
    type V = MachineView;

    closed spec fn view(&self) -> MachineView {
        MachineView {
            tape: self.tape@,
            ptr: self.ptr as int,
            inst_ptr: self.inst_ptr as int,
            pending: self.pending as int,
            input_ended: self.input_ended,
        }
    }
}

impl Machine {
    #[verifier::type_invariant]
    spec fn inv(self) -> bool {
        &&& self.tape.len() == ARRAY_LEN
        &&& self.ptr < ARRAY_LEN
        &&& self.pending > 0 ==> self.inst_ptr < usize::MAX
        &&& self.input_ended ==> self.pending == 0
    }

    /// A machine in its initial state.
    pub fn new() -> (m: Machine)
        ensures
            m@ == MachineView::initial(),
            m@.wf(),
    {
        let tape = vec![0u8; ARRAY_LEN];
        assert(tape@ =~= MachineView::initial().tape);
        Machine { tape, ptr: 0, inst_ptr: 0, pending: 0, input_ended: false }
    }

    /// Executes the instruction at the instruction pointer and says what the
    /// caller has to do. A move off the tape fails and leaves the machine as
    /// it was.
    pub fn step(&mut self, insts: &[Inst]) -> (result: Result<Action, Error>)
        ensures
            (final(self)@, result) == old(self)@.step(insts@),
            final(self)@.wf(),
    {
        proof {
            use_type_invariant(&*self);
        }
        if self.pending > 0 {
            return Ok(Action::Read);
        }
        if self.inst_ptr >= insts.len() {
            return Ok(Action::Halt);
        }
        let inst = &insts[self.inst_ptr];
        let times = inst.times;
        match inst.kind {
            InstKind::IncPtr => {
                if times >= ARRAY_LEN - self.ptr {
                    return Err(Error::PtrAboveLimit);
                }
                self.ptr += times;
                self.inst_ptr += 1;
                Ok(Action::Continue)
            },
            InstKind::DecPtr => {
                if times > self.ptr {
                    return Err(Error::PtrBelowZero);
                }
                self.ptr -= times;
                self.inst_ptr += 1;
                Ok(Action::Continue)
            },
            InstKind::IncByte => {
                let cell = self.tape[self.ptr];
                self.tape[self.ptr] = cell_add(cell, times);
                self.inst_ptr += 1;
                Ok(Action::Continue)
            },
            InstKind::DecByte => {
                let cell = self.tape[self.ptr];
                self.tape[self.ptr] = cell_sub(cell, times);
                self.inst_ptr += 1;
                Ok(Action::Continue)
            },
            InstKind::WriteByte => {
                let byte = self.tape[self.ptr];
                self.inst_ptr += 1;
                Ok(Action::Write { byte, times })
            },
            InstKind::ReadByte => {
                if times == 0 {
                    self.inst_ptr += 1;
                } else if self.input_ended {
                    self.tape[self.ptr] = EOF;
                    self.inst_ptr += 1;
                } else {
                    self.pending = times;
                }
                Ok(Action::Flush)
            },
            InstKind::LoopStart { end_idx } => {
                if self.tape[self.ptr] == 0 {
                    self.inst_ptr = end_idx;
                } else {
                    self.inst_ptr += 1;
                }
                Ok(Action::Continue)
            },
            InstKind::LoopEnd { start_idx } => {
                if self.tape[self.ptr] != 0 {
                    self.inst_ptr = start_idx;
                } else {
                    self.inst_ptr += 1;
                }
                Ok(Action::Continue)
            },
        }
    }

    /// Hands the machine what the input gave: a byte, or `None` at the end of
    /// the stream. The end is final: it stores [`EOF`], finishes the
    /// instruction, and the machine never asks for a byte again. The machine
    /// takes what it is handed only after a step has returned
    /// [`Action::Read`].
    pub fn input(&mut self, byte: Option<u8>)
        ensures
            final(self)@ == old(self)@.input(byte),
            final(self)@.wf(),
    {
        proof {
            use_type_invariant(&*self);
        }
        if self.pending > 0 {
            match byte {
                Some(b) => {
                    self.tape[self.ptr] = b;
                    self.pending -= 1;
                    if self.pending == 0 {
                        self.inst_ptr += 1;
                    }
                },
                None => {
                    self.tape[self.ptr] = EOF;
                    self.pending = 0;
                    self.input_ended = true;
                    self.inst_ptr += 1;
                },
            }
        }
    }

    /// Index of the current cell.
    pub fn ptr(&self) -> (ptr: usize)
        ensures
            ptr == self@.ptr,
            ptr < ARRAY_LEN,
            self@.wf(),
    {
        proof {
            use_type_invariant(self);
        }
        self.ptr
    }

    /// Index of the next instruction.
    pub fn inst_ptr(&self) -> (inst_ptr: usize)
        ensures
            inst_ptr == self@.inst_ptr,
            self@.wf(),
    {
        proof {
            use_type_invariant(self);
        }
        self.inst_ptr
    }

    /// How many bytes the machine still waits for.
    pub fn pending(&self) -> (pending: usize)
        ensures
            pending == self@.pending,
            self@.wf(),
    {
        proof {
            use_type_invariant(self);
        }
        self.pending
    }

    /// Whether the input has reported its end.
    pub fn input_ended(&self) -> (ended: bool)
        ensures
            ended == self@.input_ended,
            self@.wf(),
    {
        proof {
            use_type_invariant(self);
        }
        self.input_ended
    }

    /// The cell at `idx`, or `None` if `idx` is off the tape.
    pub fn cell(&self, idx: usize) -> (cell: Option<u8>)
        ensures
            cell == if idx < ARRAY_LEN {
                Some(self@.tape[idx as int])
            } else {
                None
            },
            self@.wf(),
    {
        proof {
            use_type_invariant(self);
        }
        if idx < ARRAY_LEN {
            Some(self.tape[idx])
        } else {
            None
        }
    }

    /// Stores `value` in the cell at `idx` and says whether `idx` is on the
    /// tape; if it is not, nothing changes.
    pub fn set_cell(&mut self, idx: usize, value: u8) -> (stored: bool)
        ensures
            stored == (idx < ARRAY_LEN),
            final(self)@ == if stored {
                (MachineView { tape: old(self)@.tape.update(idx as int, value), ..old(self)@ })
            } else {
                old(self)@
            },
            final(self)@.wf(),
    {
        proof {
            use_type_invariant(&*self);
        }
        if idx < ARRAY_LEN {
            self.tape[idx] = value;
            true
        } else {
            false
        }
    }
}

} // verus!
