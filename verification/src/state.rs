//! The executable machine.

use std::collections::HashMap;
use std::str::Chars;
use vstd::prelude::*;
use vstd::std_specs::iter::IteratorSpec;
use crate::inst::{Inst, decode, parse, inst_at};
use crate::brackets::{find_open, find_close, position, matching_open, matching_close};
use crate::machine::{Fault, Machine, Trace, read, lemma_truncation_is_remainder};

verus! {

/// The value of a memory cell.
pub type Data = i64;

/// The address of a memory cell on the data tape.
pub type DataPtr = usize;

/// The position of an instruction on the instruction tape.
pub type InstPtr = usize;

/// A Brainfuck machine: its program, its sparse memory and its two pointers.
#[derive(Debug)]
pub struct State {
    term: bool,
    depth: usize,
    data_ptr: DataPtr,
    inst_ptr: InstPtr,
    data_tape: HashMap<DataPtr, Data>,
    inst_tape: Vec<Inst>,
}

impl View for State {
    type V = Machine;

    closed spec fn view(&self) -> Machine {
        Machine {
            term: self.term,
            depth: self.depth,
            data_ptr: self.data_ptr,
            inst_ptr: self.inst_ptr as nat,
            cells: self.data_tape@,
            prog: self.inst_tape@,
        }
    }
}

/// What a run produced.
#[derive(Debug)]
pub struct Report {
    /// The bytes that the machine wrote, in order.
    pub output: Vec<u8>,
    /// How many bytes of the input the machine read.
    pub consumed: usize,
    /// The fault that stopped the run, if one did.
    pub fault: Option<Fault>,
}

impl Report {
    /// The run that the report tells of, for a machine that it left as
    /// `machine`.
    pub open spec fn of(self, machine: Machine) -> Trace {
        Trace {
            machine,
            consumed: self.consumed as nat,
            output: self.output@,
            fault: self.fault,
        }
    }
}

/// `prog`, grown with `Null` instructions to at least `len` positions.
pub open spec fn padded(prog: Seq<Inst>, len: nat) -> Seq<Inst> {
    if prog.len() >= len {
        prog
    } else {
        Seq::new(len, |i: int| inst_at(prog, i))
    }
}

impl Default for State {
    /// A machine with an empty program.
    fn default() -> (state: Self)
        ensures
            state@ == Machine::fresh(Seq::empty()),
    {
        State {
            term: false,
            depth: 0,
            data_ptr: 0,
            inst_ptr: 0,
            data_tape: HashMap::new(),
            inst_tape: Vec::new(),
        }
    }
}

impl State {
    /// A machine that has not run yet, with the program that the rest of `c`
    /// stands for. The iterator is used up.
    ///
    /// `c` must carry a measure by which its end is reached, as every
    /// iterator does that `str::chars` made.
    pub fn from_chars(c: &mut Chars) -> (state: Self)
        requires
            (*old(c)).decrease() is Some,
        ensures
            state@ == Machine::fresh(parse((*old(c)).remaining())),
            (*final(c)).remaining().len() == 0,
    {
        let mut inst_tape: Vec<Inst> = Vec::new();
        Self::parse_chars(c, &mut inst_tape);
        State {
            term: false,
            depth: 0,
            data_ptr: 0,
            inst_ptr: 0,
            data_tape: HashMap::new(),
            inst_tape,
        }
    }

    /// A machine that has not run yet, with the program that `s` stands for.
    pub fn from_str(s: &str) -> (state: Self)
        ensures
            state@ == Machine::fresh(parse(s@)),
    {
        let mut chars = s.chars();
        Self::from_chars(&mut chars)
    }

    /// Decodes the rest of `c` and appends its instructions to `inst_tape`.
    /// The iterator is used up; it must carry a measure by which its end is
    /// reached, as every iterator does that `str::chars` made.
    pub fn parse_chars(c: &mut Chars, inst_tape: &mut Vec<Inst>)
        requires
            (*old(c)).decrease() is Some,
        ensures
            final(inst_tape)@ == old(inst_tape)@ + parse((*old(c)).remaining()),
            (*final(c)).remaining().len() == 0,
    {
        let ghost tape0 = inst_tape@;
        let ghost text0 = (*c).remaining();
        loop
            invariant
                (*c).decrease() is Some,
                inst_tape@ + parse((*c).remaining()) == tape0 + parse(text0),
            ensures
                (*c).remaining().len() == 0,
                inst_tape@ == tape0 + parse(text0),
            decreases (*c).decrease()->0,
        {
            let ghost before = inst_tape@;
            let ghost text = (*c).remaining();
            match c.next() {
                Some(ch) => {
                    match decode(ch) {
                        Some(inst) => {
                            inst_tape.push(inst);
                            assert(inst_tape@ + parse((*c).remaining()) =~= before + parse(text));
                        },
                        None => {},
                    }
                },
                None => {
                    assert(before + parse(text) =~= before);
                    break;
                },
            }
        }
    }

    /// Whether the instruction pointer has run past the end of the program
    /// and a step has found it there.
    pub fn terminated(&self) -> (r: bool)
        ensures
            r == self@.term,
    {
        self.term
    }

    /// The number of loops that were entered and not yet left.
    pub fn depth(&self) -> (r: usize)
        ensures
            r == self@.depth,
    {
        self.depth
    }

    /// The address of the current cell.
    pub fn data_ptr(&self) -> (r: DataPtr)
        ensures
            r == self@.data_ptr,
    {
        self.data_ptr
    }

    /// The position of the next instruction.
    pub fn inst_ptr(&self) -> (r: InstPtr)
        ensures
            r == self@.inst_ptr,
    {
        self.inst_ptr
    }

    /// The value of the cell at `ptr`; zero where nothing was written. No
    /// cell is created.
    pub fn get_data(&self, ptr: &DataPtr) -> (data: Data)
        ensures
            data == read(self@.cells, *ptr),
    {
        match self.data_tape.get(ptr) {
            Some(data) => *data,
            None => 0,
        }
    }

    /// The cell at `ptr`, to be written. A cell that did not exist is created
    /// with the value zero.
    pub fn get_data_mut(&mut self, ptr: &DataPtr) -> (data: &mut Data)
        ensures
            *data == read(old(self)@.cells, *ptr),
            final(self)@ == (Machine {
                cells: old(self)@.cells.insert(*ptr, *final(data)),
                ..old(self)@
            }),
    {
        self.data_tape.entry(*ptr).or_insert(0)
    }

    /// The instruction at `ptr`; `Null` past the end of the tape.
    pub fn get_inst(&mut self, ptr: &InstPtr) -> (inst: Inst)
        ensures
            inst == inst_at(old(self)@.prog, *ptr as int),
            final(self)@ == old(self)@,
    {
        if *ptr < self.inst_tape.len() {
            self.inst_tape[*ptr]
        } else {
            Inst::Null
        }
    }

    /// The instruction at `ptr`, to be written. A tape that ends at or before
    /// `ptr` is first grown with `Null` instructions up to `ptr`.
    pub fn get_inst_mut(&mut self, ptr: &InstPtr) -> (inst: &mut Inst)
        ensures
            *inst == inst_at(old(self)@.prog, *ptr as int),
            final(self)@ == (Machine {
                prog: padded(old(self)@.prog, (*ptr + 1) as nat).update(*ptr as int, *final(inst)),
                ..old(self)@
            }),
    {
        let ghost prog0 = self.inst_tape@;
        while self.inst_tape.len() <= *ptr
            invariant
                prog0.len() <= self.inst_tape@.len(),
                self.inst_tape@.len() <= *ptr + 1 || self.inst_tape@ == prog0,
                forall|i: int| 0 <= i < self.inst_tape@.len() ==> self.inst_tape@[i] == inst_at(prog0, i),
                self.term == old(self).term,
                self.depth == old(self).depth,
                self.data_ptr == old(self).data_ptr,
                self.inst_ptr == old(self).inst_ptr,
                self.data_tape == old(self).data_tape,
            decreases *ptr + 1 - self.inst_tape@.len(),
        {
            self.inst_tape.push(Inst::Null);
        }
        proof {
            let grown = padded(prog0, (*ptr + 1) as nat);
            assert(self.inst_tape@.len() == grown.len());
            assert forall|i: int| 0 <= i < grown.len() implies self.inst_tape@[i] == grown[i] by {
                assert(self.inst_tape@[i] == inst_at(prog0, i));
            }
            assert(self.inst_tape@ =~= grown);
        }
        &mut self.inst_tape[*ptr]
    }

    /// Whether the next instruction reads a byte of input. A caller that
    /// feeds the machine from a stream asks this before it reads from it.
    pub fn wants_input(&self) -> (r: bool)
        ensures
            r == self@.wants_input(),
    {
        self.inst_ptr < self.inst_tape.len() && self.inst_tape[self.inst_ptr] == Inst::In
    }

    /// Executes the instruction at the instruction pointer.
    ///
    /// `input` is what the input stream gave: a byte, or `None` at its end.
    /// Only an `In` instruction looks at it. The result is the byte that an
    /// `Out` instruction wrote. With the instruction pointer past the end of
    /// the program, the machine becomes terminated and nothing else changes.
    /// A fault leaves the machine as it was.
    pub fn step(&mut self, input: Option<u8>) -> (r: Result<Option<u8>, Fault>)
        ensures
            match r {
                Ok(out) => {
                    &&& old(self)@.fault() is None
                    &&& out == old(self)@.emits()
                    &&& final(self)@ == old(self)@.advance(input)
                },
                Err(fault) => {
                    &&& old(self)@.fault() == Some(fault)
                    &&& final(self)@ == old(self)@
                },
            },
    {
        if self.inst_ptr >= self.inst_tape.len() {
            self.term = true;
            return Ok(None);
        }
        let data_ptr = self.data_ptr;
        let cell = self.get_data(&data_ptr);
        match self.inst_tape[self.inst_ptr] {
            Inst::IncPtr => {
                if data_ptr == usize::MAX {
                    return Err(Fault::PointerOutOfRange);
                }
                self.data_ptr = data_ptr + 1;
                self.inst_ptr += 1;
                Ok(None)
            },
            Inst::DecPtr => {
                if data_ptr == 0 {
                    return Err(Fault::PointerOutOfRange);
                }
                self.data_ptr = data_ptr - 1;
                self.inst_ptr += 1;
                Ok(None)
            },
            Inst::IncData => {
                if cell == i64::MAX {
                    return Err(Fault::CellOutOfRange);
                }
                let data = self.get_data_mut(&data_ptr);
                *data += 1;
                self.inst_ptr += 1;
                Ok(None)
            },
            Inst::DecData => {
                if cell == i64::MIN {
                    return Err(Fault::CellOutOfRange);
                }
                let data = self.get_data_mut(&data_ptr);
                *data -= 1;
                self.inst_ptr += 1;
                Ok(None)
            },
            Inst::In => {
                let data = self.get_data_mut(&data_ptr);
                *data = match input {
                    Some(byte) => byte as i64,
                    None => -1,
                };
                self.inst_ptr += 1;
                Ok(None)
            },
            Inst::Out => {
                let byte = #[verifier::truncate] (cell as u8);
                proof {
                    lemma_truncation_is_remainder(cell);
                }
                self.inst_ptr += 1;
                Ok(Some(byte))
            },
            Inst::Forward => {
                if cell == 0 {
                    match self.find_matching_rbrace() {
                        Some(partner) => {
                            self.inst_ptr = partner + 1;
                        },
                        None => {
                            return Err(Fault::UnmatchedBracket);
                        },
                    }
                } else {
                    if self.depth == usize::MAX {
                        return Err(Fault::DepthOutOfRange);
                    }
                    self.depth += 1;
                    self.inst_ptr += 1;
                }
                Ok(None)
            },
            Inst::Back => {
                if cell != 0 {
                    match self.find_matching_lbrace() {
                        Some(partner) => {
                            self.inst_ptr = partner + 1;
                        },
                        None => {
                            return Err(Fault::UnmatchedBracket);
                        },
                    }
                } else {
                    if self.depth == 0 {
                        return Err(Fault::DepthOutOfRange);
                    }
                    self.depth -= 1;
                    self.inst_ptr += 1;
                }
                Ok(None)
            },
            Inst::Null => {
                self.inst_ptr += 1;
                Ok(None)
            },
        }
    }

    /// Runs the machine until it has terminated or met a fault, for at most
    /// `fuel` steps, with `input` as the whole input stream: once its bytes
    /// are used up, every further read finds the end of the stream.
    ///
    /// The report holds the bytes written, in order, the number of input
    /// bytes read, and the fault that stopped the run, if one did. Neither a
    /// fault nor termination was reached where the machine is not terminated
    /// and the report holds no fault: then the steps were used up.
    pub fn run(&mut self, input: &Vec<u8>, fuel: u64) -> (report: Report)
        ensures
            report.of(final(self)@) == Trace::start(old(self)@).run(input@, fuel as nat),
    {
        let mut output: Vec<u8> = Vec::new();
        let mut consumed: usize = 0;
        let mut fault: Option<Fault> = None;
        let mut left: u64 = fuel;
        while left > 0 && !self.term && fault.is_none()
            invariant
                consumed <= input@.len(),
                (Trace { machine: self@, consumed: consumed as nat, output: output@, fault }).run(
                    input@,
                    left as nat,
                ) == Trace::start(old(self)@).run(input@, fuel as nat),
            decreases left,
        {
            let ghost before = Trace {
                machine: self@,
                consumed: consumed as nat,
                output: output@,
                fault,
            };
            let wanted = self.wants_input();
            let given = if consumed < input.len() {
                Some(input[consumed])
            } else {
                None
            };
            match self.step(given) {
                Ok(Some(byte)) => {
                    output.push(byte);
                },
                Ok(None) => {},
                Err(met) => {
                    fault = Some(met);
                },
            }
            if fault.is_none() && wanted && consumed < input.len() {
                consumed += 1;
            }
            left -= 1;
            assert((Trace { machine: self@, consumed: consumed as nat, output: output@, fault })
                == before.step(input@));
        }
        Report { output, consumed, fault }
    }

    /// The position of the `[` that matches a `]` at the instruction pointer,
    /// searched leftward from just before it; `None` where the search runs
    /// off the start of the program.
    pub fn find_matching_lbrace(&self) -> (found: Option<InstPtr>)
        ensures
            position(found) == matching_open(self@.prog, self@.inst_ptr as int),
    {
        find_open(&self.inst_tape, self.inst_ptr)
    }

    /// The position of the `]` that matches a `[` at the instruction pointer,
    /// searched rightward from just after it; `None` where the search runs
    /// off the end of the program.
    pub fn find_matching_rbrace(&self) -> (found: Option<InstPtr>)
        ensures
            position(found) == matching_close(self@.prog, self@.inst_ptr as int),
    {
        find_close(&self.inst_tape, self.inst_ptr)
    }
}

} // verus!
