//! The mathematical model of the machine: what one instruction does to it,
//! and what a bounded run over a given input produces.

use vstd::prelude::*;
use crate::inst::Inst;
use crate::brackets::{matching_open, matching_close};

verus! {

/// Why an instruction could not be executed. A machine that meets one of
/// these is left as it was.
#[derive(Clone, Copy, Debug, PartialEq, Eq, Structural)]
pub enum Fault {
    /// A jump found no partner for its bracket before running off the program.
    UnmatchedBracket,
    /// The nesting depth would leave the range of `usize`: a loop was left
    /// that was never entered, or too many were entered.
    DepthOutOfRange,
    /// The data pointer would leave the range of `usize`.
    PointerOutOfRange,
    /// The current cell would leave the range of `i64`.
    CellOutOfRange,
}

/// The value of the cell at `addr`: an address that was never written holds
/// zero.
pub open spec fn read(cells: Map<usize, i64>, addr: usize) -> i64 {
    if cells.contains_key(addr) {
        cells[addr]
    } else {
        0
    }
}

/// The byte that is written for a cell value: the value modulo 256, which
/// is what its low eight bits hold.
pub open spec fn low_byte(value: i64) -> u8 {
    (value as int % 256) as u8
}

/// Cutting a cell value down to eight bits gives its remainder modulo 256,
/// for negative values too.
pub proof fn lemma_truncation_is_remainder(value: i64)
    ensures
        value as u8 == low_byte(value),
{
    let bits = value as u64;
    assert(value as u8 == (bits % 256) as u8) by (bit_vector)
        requires
            bits == value as u64,
    ;
    assert((bits % 256) as u8 == bits % 256) by (bit_vector);
    if value >= 0 {
        assert(bits == value) by (bit_vector)
            requires
                value >= 0,
                bits == value as u64,
        ;
    } else {
        assert(bits == value + 0x1_0000_0000_0000_0000) by (bit_vector)
            requires
                value < 0,
                bits == value as u64,
        ;
        vstd::arithmetic::div_mod::lemma_mod_multiples_vanish(
            0x100_0000_0000_0000,
            value as int,
            256,
        );
    }
}

/// The cell value that is stored for what the input gave: a byte as it is,
/// never sign-extended, and -1 at the end of the stream.
pub open spec fn input_value(input: Option<u8>) -> i64 {
    match input {
        Some(byte) => byte as i64,
        None => -1i64,
    }
}

/// The state of a machine.
pub struct Machine {
    pub term: bool,
    pub depth: usize,
    pub data_ptr: usize,
    pub inst_ptr: nat,
    pub cells: Map<usize, i64>,
    pub prog: Seq<Inst>,
}

impl Machine {
    /// A machine that has not run yet.
    pub open spec fn fresh(prog: Seq<Inst>) -> Machine {
        Machine {
            term: false,
            depth: 0,
            data_ptr: 0,
            inst_ptr: 0,
            cells: Map::empty(),
            prog,
        }
    }

    /// The value of the current cell.
    pub open spec fn cell(self) -> i64 {
        read(self.cells, self.data_ptr)
    }

    /// The instruction pointer has run past the end of the program.
    pub open spec fn at_end(self) -> bool {
        self.inst_ptr >= self.prog.len()
    }

    /// The next instruction reads a byte of input.
    pub open spec fn wants_input(self) -> bool {
        !self.at_end() && self.prog[self.inst_ptr as int] == Inst::In
    }

    /// The byte that the next instruction writes, if it writes one.
    pub open spec fn emits(self) -> Option<u8> {
        if !self.at_end() && self.prog[self.inst_ptr as int] == Inst::Out {
            Some(low_byte(self.cell()))
        } else {
            None
        }
    }

    /// The fault that stops the next instruction, if one does.
    pub open spec fn fault(self) -> Option<Fault> {
        if self.at_end() {
            None
        } else {
            match self.prog[self.inst_ptr as int] {
                Inst::IncPtr => if self.data_ptr == usize::MAX {
                    Some(Fault::PointerOutOfRange)
                } else {
                    None
                },
                Inst::DecPtr => if self.data_ptr == 0 {
                    Some(Fault::PointerOutOfRange)
                } else {
                    None
                },
                Inst::IncData => if self.cell() == i64::MAX {
                    Some(Fault::CellOutOfRange)
                } else {
                    None
                },
                Inst::DecData => if self.cell() == i64::MIN {
                    Some(Fault::CellOutOfRange)
                } else {
                    None
                },
                Inst::Forward => if self.cell() == 0 {
                    if matching_close(self.prog, self.inst_ptr as int) is None {
                        Some(Fault::UnmatchedBracket)
                    } else {
                        None
                    }
                } else if self.depth == usize::MAX {
                    Some(Fault::DepthOutOfRange)
                } else {
                    None
                },
                Inst::Back => if self.cell() != 0 {
                    if matching_open(self.prog, self.inst_ptr as int) is None {
                        Some(Fault::UnmatchedBracket)
                    } else {
                        None
                    }
                } else if self.depth == 0 {
                    Some(Fault::DepthOutOfRange)
                } else {
                    None
                },
                Inst::In | Inst::Out | Inst::Null => None,
            }
        }
    }

    /// The machine moved on to the instruction at `inst_ptr`.
    pub open spec fn moved_to(self, inst_ptr: int) -> Machine {
        Machine { inst_ptr: inst_ptr as nat, ..self }
    }

    /// The machine after its next instruction, where no fault stops it.
    /// `input` is what the input gave; only an `In` instruction looks at it.
    pub open spec fn advance(self, input: Option<u8>) -> Machine {
        let next = (self.inst_ptr + 1) as int;
        if self.at_end() {
            Machine { term: true, ..self }
        } else {
            match self.prog[self.inst_ptr as int] {
                Inst::IncPtr => Machine {
                    data_ptr: (self.data_ptr + 1) as usize,
                    ..self
                }.moved_to(next),
                Inst::DecPtr => Machine {
                    data_ptr: (self.data_ptr - 1) as usize,
                    ..self
                }.moved_to(next),
                Inst::IncData => Machine {
                    cells: self.cells.insert(self.data_ptr, (self.cell() + 1) as i64),
                    ..self
                }.moved_to(next),
                Inst::DecData => Machine {
                    cells: self.cells.insert(self.data_ptr, (self.cell() - 1) as i64),
                    ..self
                }.moved_to(next),
                Inst::In => Machine {
                    cells: self.cells.insert(self.data_ptr, input_value(input)),
                    ..self
                }.moved_to(next),
                Inst::Out | Inst::Null => self.moved_to(next),
                Inst::Forward => if self.cell() == 0 {
                    self.moved_to(matching_close(self.prog, self.inst_ptr as int).unwrap() + 1)
                } else {
                    Machine { depth: (self.depth + 1) as usize, ..self }.moved_to(next)
                },
                Inst::Back => if self.cell() != 0 {
                    self.moved_to(matching_open(self.prog, self.inst_ptr as int).unwrap() + 1)
                } else {
                    Machine { depth: (self.depth - 1) as usize, ..self }.moved_to(next)
                },
            }
        }
    }
}

/// A run in progress: the machine, how much of the input it has read, what
/// it has written, and the fault that stopped it.
pub struct Trace {
    pub machine: Machine,
    pub consumed: nat,
    pub output: Seq<u8>,
    pub fault: Option<Fault>,
}

/// What the input holds after `consumed` bytes of it were read: the next
/// byte, or `None` at the end of the stream.
pub open spec fn next_input(input: Seq<u8>, consumed: nat) -> Option<u8> {
    if consumed < input.len() {
        Some(input[consumed as int])
    } else {
        None
    }
}

impl Trace {
    /// The start of a run of `machine`.
    pub open spec fn start(machine: Machine) -> Trace {
        Trace { machine, consumed: 0, output: Seq::empty(), fault: None }
    }

    /// The run has stopped: the machine has terminated or met a fault.
    pub open spec fn stopped(self) -> bool {
        self.machine.term || self.fault is Some
    }

    /// The run one step further, with `input` as the whole input stream.
    pub open spec fn step(self, input: Seq<u8>) -> Trace {
        let m = self.machine;
        if m.fault() is Some {
            Trace { fault: m.fault(), ..self }
        } else {
            Trace {
                machine: m.advance(next_input(input, self.consumed)),
                consumed: if m.wants_input() && self.consumed < input.len() {
                    self.consumed + 1
                } else {
                    self.consumed
                },
                output: match m.emits() {
                    Some(byte) => self.output.push(byte),
                    None => self.output,
                },
                fault: None,
            }
        }
    }

    /// The run after at most `fuel` further steps: it goes on until it has
    /// stopped or the steps are used up.
    pub open spec fn run(self, input: Seq<u8>, fuel: nat) -> Trace
        decreases fuel,
    {
        if fuel == 0 || self.stopped() {
            self
        } else {
            self.step(input).run(input, (fuel - 1) as nat)
        }
    }
}

} // verus!
