//! Instructions, and the decoding of program text.

use vstd::prelude::*;

verus! {

/// One instruction of the machine.
///
/// `Null` is never produced by decoding; it stands for positions of the
/// instruction tape that were padded when the tape was grown.
#[derive(Clone, Copy, Debug, PartialEq, Eq, Structural)]
pub enum Inst {
    IncPtr,
    DecPtr,
    IncData,
    DecData,
    In,
    Out,
    Forward,
    Back,
    Null,
}

/// The instruction that a character of program text stands for, if any.
pub open spec fn decode_spec(c: char) -> Option<Inst> {
    if c == '>' {
        Some(Inst::IncPtr)
    } else if c == '<' {
        Some(Inst::DecPtr)
    } else if c == '+' {
        Some(Inst::IncData)
    } else if c == '-' {
        Some(Inst::DecData)
    } else if c == ',' {
        Some(Inst::In)
    } else if c == '.' {
        Some(Inst::Out)
    } else if c == '[' {
        Some(Inst::Forward)
    } else if c == ']' {
        Some(Inst::Back)
    } else {
        None
    }
}

/// The program that a text stands for: the instructions of its recognised
/// characters, in order. Every other character contributes nothing.
pub open spec fn parse(text: Seq<char>) -> Seq<Inst>
    decreases text.len(),
{
    if text.len() == 0 {
        Seq::empty()
    } else {
        match decode_spec(text[0]) {
            Some(inst) => seq![inst] + parse(text.drop_first()),
            None => parse(text.drop_first()),
        }
    }
}

/// The instruction at `at`, where every position past the end of the tape
/// reads as `Null`.
pub open spec fn inst_at(prog: Seq<Inst>, at: int) -> Inst {
    if 0 <= at < prog.len() {
        prog[at]
    } else {
        Inst::Null
    }
}

/// Decodes one character of program text.
pub fn decode(c: char) -> (r: Option<Inst>)
    ensures
        r == decode_spec(c),
{
    match c {
        '>' => Some(Inst::IncPtr),
        '<' => Some(Inst::DecPtr),
        '+' => Some(Inst::IncData),
        '-' => Some(Inst::DecData),
        ',' => Some(Inst::In),
        '.' => Some(Inst::Out),
        '[' => Some(Inst::Forward),
        ']' => Some(Inst::Back),
        _ => None,
    }
}

} // verus!
