//! Laws of the machine, proved over its model.

use vstd::prelude::*;
use crate::inst::{Inst, decode_spec, parse};
use crate::brackets::{
    closes_at, closes_over_opens, is_matching_close, is_matching_open, matching_close,
    matching_open, opens_at, opens_over_closes,
};
use crate::machine::{Fault, Machine, Trace, low_byte, read};

verus! {

/// No character of `text` stands for an instruction.
pub open spec fn only_comments(text: Seq<char>) -> bool {
    forall|i: int| 0 <= i < text.len() ==> decode_spec(#[trigger] text[i]) is None
}

/// A text without any recognised character is an empty program.
pub proof fn lemma_comments_parse_to_nothing(text: Seq<char>)
    requires
        only_comments(text),
    ensures
        parse(text) == Seq::<Inst>::empty(),
    decreases text.len(),
{
    if text.len() > 0 {
        let rest = text.drop_first();
        assert forall|i: int| 0 <= i < rest.len() implies decode_spec(#[trigger] rest[i]) is None by {
            assert(rest[i] == text[i + 1]);
        }
        assert(decode_spec(text[0]) is None);
        lemma_comments_parse_to_nothing(rest);
    }
}

/// The run of a text without any recognised character terminates without
/// executing an instruction: its first step finds the end of the program,
/// and nothing but the termination flag has changed.
pub proof fn lemma_comments_run_no_instruction(text: Seq<char>, input: Seq<u8>, fuel: nat)
    requires
        only_comments(text),
        fuel > 0,
    ensures
        Trace::start(Machine::fresh(parse(text))).run(input, fuel) == Trace::start(
            Machine { term: true, ..Machine::fresh(Seq::empty()) },
        ),
{
    lemma_comments_parse_to_nothing(text);
    let first = Trace::start(Machine::fresh(parse(text)));
    let second = first.step(input);
    assert(first.machine.at_end());
    assert(second == Trace::start(Machine { term: true, ..Machine::fresh(Seq::empty()) }));
    assert(first.run(input, fuel) == second.run(input, (fuel - 1) as nat));
    assert(second.stopped());
}

/// Decoding goes character by character: the program of two texts put
/// together is the program of the first followed by that of the second.
pub proof fn lemma_parse_of_joined_texts(a: Seq<char>, b: Seq<char>)
    ensures
        parse(a + b) == parse(a) + parse(b),
    decreases a.len(),
{
    if a.len() == 0 {
        assert(a + b =~= b);
        assert(parse(a) + parse(b) =~= parse(b));
    } else {
        assert((a + b).drop_first() =~= a.drop_first() + b);
        assert((a + b)[0] == a[0]);
        lemma_parse_of_joined_texts(a.drop_first(), b);
        assert(parse(a + b) =~= parse(a) + parse(b));
    }
}

/// A run that has stopped within `fuel` steps ends the same however many
/// more steps it is given: the limit on the steps decides nothing but
/// where a run that has not stopped is cut off.
pub proof fn lemma_more_fuel_changes_nothing(t: Trace, input: Seq<u8>, fuel: nat, more: nat)
    requires
        t.run(input, fuel).stopped(),
    ensures
        t.run(input, fuel + more) == t.run(input, fuel),
    decreases fuel,
{
    if fuel > 0 && !t.stopped() {
        lemma_more_fuel_changes_nothing(t.step(input), input, (fuel - 1) as nat, more);
    }
}

/// A run is made of steps: a run of `first + second` steps is a run of
/// `first` steps followed by one of `second`.
pub proof fn lemma_run_in_two_parts(t: Trace, input: Seq<u8>, first: nat, second: nat)
    ensures
        t.run(input, first + second) == t.run(input, first).run(input, second),
    decreases first,
{
    if first == 0 {
    } else if t.stopped() {
        assert(t.run(input, second) == t);
    } else {
        lemma_run_in_two_parts(t.step(input), input, (first - 1) as nat, second);
    }
}

/// Every instruction of `prog` from `from` on adds one to the current cell
/// or takes one from it.
pub open spec fn only_counts(prog: Seq<Inst>, from: int) -> bool {
    forall|i: int|
        from <= i < prog.len() ==> #[trigger] prog[i] == Inst::IncData || prog[i] == Inst::DecData
}

/// The number of `IncData` less the number of `DecData` among the
/// instructions of `prog` from `from` on.
pub open spec fn tally(prog: Seq<Inst>, from: int) -> int
    decreases prog.len() - from,
{
    if from < 0 || from >= prog.len() {
        0
    } else {
        tally(prog, from + 1) + match prog[from] {
            Inst::IncData => 1int,
            Inst::DecData => -1int,
            _ => 0int,
        }
    }
}

/// Where only `IncData` follows, the tally is the number of instructions.
pub proof fn lemma_tally_of_increments(prog: Seq<Inst>, from: int)
    requires
        0 <= from <= prog.len(),
        forall|i: int| from <= i < prog.len() ==> prog[i] == Inst::IncData,
    ensures
        tally(prog, from) == prog.len() - from,
    decreases prog.len() - from,
{
    if from < prog.len() {
        lemma_tally_of_increments(prog, from + 1);
    }
}

proof fn lemma_counting_from(t: Trace, start: int, input: Seq<u8>, fuel: nat)
    requires
        !t.stopped(),
        0 <= start <= t.machine.inst_ptr <= t.machine.prog.len(),
        only_counts(t.machine.prog, start),
        t.machine.prog.len() - start <= i64::MAX,
        -(t.machine.inst_ptr - start) <= t.machine.cell() <= t.machine.inst_ptr - start,
        fuel > t.machine.prog.len() - t.machine.inst_ptr,
    ensures
        ({
            let end = t.run(input, fuel);
            &&& end.fault is None
            &&& end.consumed == t.consumed
            &&& end.output == t.output
            &&& end.machine.term
            &&& end.machine.inst_ptr == t.machine.prog.len()
            &&& end.machine.data_ptr == t.machine.data_ptr
            &&& end.machine.depth == t.machine.depth
            &&& end.machine.prog == t.machine.prog
            &&& end.machine.cell() == t.machine.cell() + tally(
                t.machine.prog,
                t.machine.inst_ptr as int,
            )
            &&& forall|addr: usize|
                addr != t.machine.data_ptr ==> read(end.machine.cells, addr) == read(
                    t.machine.cells,
                    addr,
                )
        }),
    decreases t.machine.prog.len() - t.machine.inst_ptr,
{
    let m = t.machine;
    let next = t.step(input);
    assert(t.run(input, fuel) == next.run(input, (fuel - 1) as nat));
    if m.at_end() {
        assert(next.stopped());
    } else {
        assert(m.prog[m.inst_ptr as int] == Inst::IncData || m.prog[m.inst_ptr as int]
            == Inst::DecData);
        assert(m.fault() is None);
        assert(next.machine.inst_ptr == m.inst_ptr + 1);
        lemma_counting_from(next, start, input, (fuel - 1) as nat);
    }
}

/// A run of nothing but `IncData` and `DecData` on a cell that was never
/// written leaves in it the number of the first less the number of the
/// second, writes and reads nothing, touches no other cell, and terminates.
///
/// The run starts at `m` and executes the rest of its program; the tally
/// must fit a cell, and `fuel` must suffice for the instructions and the
/// step that finds the end.
pub proof fn lemma_counting_gives_the_sum(m: Machine, input: Seq<u8>, fuel: nat)
    requires
        !m.term,
        m.inst_ptr <= m.prog.len(),
        only_counts(m.prog, m.inst_ptr as int),
        m.prog.len() - m.inst_ptr <= i64::MAX,
        !m.cells.contains_key(m.data_ptr),
        fuel > m.prog.len() - m.inst_ptr,
    ensures
        ({
            let end = Trace::start(m).run(input, fuel);
            &&& end.fault is None
            &&& end.machine.term
            &&& end.output == Seq::<u8>::empty()
            &&& end.consumed == 0
            &&& read(end.machine.cells, m.data_ptr) == tally(m.prog, m.inst_ptr as int)
            &&& forall|addr: usize|
                addr != m.data_ptr ==> read(end.machine.cells, addr) == read(m.cells, addr)
        }),
{
    lemma_counting_from(Trace::start(m), m.inst_ptr as int, input, fuel);
}

/// The two memories hold the same value at every address, whether or not
/// the address was ever written.
pub open spec fn same_cells(a: Map<usize, i64>, b: Map<usize, i64>) -> bool {
    forall|addr: usize| #[trigger] read(a, addr) == read(b, addr)
}

/// The two machines differ at most in which zero cells were written.
pub open spec fn alike(a: Machine, b: Machine) -> bool {
    &&& a.term == b.term
    &&& a.depth == b.depth
    &&& a.data_ptr == b.data_ptr
    &&& a.inst_ptr == b.inst_ptr
    &&& a.prog == b.prog
    &&& same_cells(a.cells, b.cells)
}

/// The two runs differ at most in which zero cells were written.
pub open spec fn alike_runs(a: Trace, b: Trace) -> bool {
    &&& alike(a.machine, b.machine)
    &&& a.consumed == b.consumed
    &&& a.output == b.output
    &&& a.fault == b.fault
}

/// A cell that was never written reads as zero, as one does that holds zero.
pub proof fn lemma_unwritten_reads_zero(cells: Map<usize, i64>, addr: usize)
    requires
        !cells.contains_key(addr),
    ensures
        read(cells, addr) == 0,
        same_cells(cells, cells.insert(addr, 0)),
{
    assert forall|other: usize| #[trigger]
        read(cells, other) == read(cells.insert(addr, 0), other) by {}
}

/// No instruction can tell a cell that was never written from one that
/// holds zero: two machines that are alike meet the same fault, read and
/// write the same, and are alike afterwards.
pub proof fn lemma_step_keeps_alike(a: Machine, b: Machine, input: Option<u8>)
    requires
        alike(a, b),
    ensures
        a.fault() == b.fault(),
        a.emits() == b.emits(),
        a.wants_input() == b.wants_input(),
        alike(a.advance(input), b.advance(input)),
{
    assert(a.cell() == read(a.cells, a.data_ptr));
    assert(a.cell() == b.cell());
    let a2 = a.advance(input);
    let b2 = b.advance(input);
    assert forall|addr: usize| #[trigger] read(a2.cells, addr) == read(b2.cells, addr) by {
        assert(read(a.cells, addr) == read(b.cells, addr));
    }
}

/// No run can tell a cell that was never written from one that holds zero.
pub proof fn lemma_run_keeps_alike(a: Trace, b: Trace, input: Seq<u8>, fuel: nat)
    requires
        alike_runs(a, b),
    ensures
        alike_runs(a.run(input, fuel), b.run(input, fuel)),
    decreases fuel,
{
    if fuel > 0 && !a.stopped() {
        lemma_step_keeps_alike(a.machine, b.machine, crate::machine::next_input(input, a.consumed));
        lemma_run_keeps_alike(a.step(input), b.step(input), input, (fuel - 1) as nat);
    }
}

/// What is written wraps at 256, whatever the cell itself holds: two cell
/// values that are 256 apart are written as the same byte, and a value
/// from 0 to 255 as itself.
pub proof fn lemma_output_wraps_at_256(value: i64)
    ensures
        value + 256 <= i64::MAX ==> low_byte((value + 256) as i64) == low_byte(value),
        0 <= value < 256 ==> low_byte(value) == value,
{
    if value + 256 <= i64::MAX {
        vstd::arithmetic::div_mod::lemma_mod_multiples_vanish(1, value as int, 256);
    }
}

/// A `Forward` met with a non-zero cell does not jump: the machine goes on
/// to the next instruction, one loop deeper, and nothing else changes.
pub proof fn lemma_forward_enters_on_nonzero(m: Machine, input: Option<u8>)
    requires
        !m.at_end(),
        m.prog[m.inst_ptr as int] == Inst::Forward,
        m.cell() != 0,
        m.depth < usize::MAX,
    ensures
        m.fault() is None,
        m.emits() is None,
        m.advance(input) == (Machine {
            inst_ptr: m.inst_ptr + 1,
            depth: (m.depth + 1) as usize,
            ..m
        }),
{
}

/// A `Back` met with a zero cell does not jump: the machine goes on to the
/// next instruction, one loop less deep, and nothing else changes.
pub proof fn lemma_back_leaves_on_zero(m: Machine, input: Option<u8>)
    requires
        !m.at_end(),
        m.prog[m.inst_ptr as int] == Inst::Back,
        m.cell() == 0,
        m.depth > 0,
    ensures
        m.fault() is None,
        m.emits() is None,
        m.advance(input) == (Machine {
            inst_ptr: m.inst_ptr + 1,
            depth: (m.depth - 1) as usize,
            ..m
        }),
{
}

/// A `Forward` met with a zero cell resumes just past its partner, and a
/// `Back` met with a non-zero cell just past its own; the partner holds the
/// other bracket, and the brackets between the two are balanced.
pub proof fn lemma_jump_lands_past_the_partner(m: Machine, input: Option<u8>)
    requires
        !m.at_end(),
        m.fault() is None,
    ensures
        m.prog[m.inst_ptr as int] == Inst::Forward && m.cell() == 0 ==> {
            &&& is_matching_close(m.prog, m.inst_ptr as int, m.advance(input).inst_ptr - 1)
            &&& m.advance(input) == Machine { inst_ptr: m.advance(input).inst_ptr, ..m }
        },
        m.prog[m.inst_ptr as int] == Inst::Back && m.cell() != 0 ==> {
            &&& is_matching_open(m.prog, m.inst_ptr as int, m.advance(input).inst_ptr - 1)
            &&& m.advance(input) == Machine { inst_ptr: m.advance(input).inst_ptr, ..m }
        },
{
}

/// The loop `[-]` stands in `prog` with its `Forward` at `open`.
pub open spec fn clear_loop_at(prog: Seq<Inst>, open: int) -> bool {
    &&& 0 <= open
    &&& open + 2 < prog.len()
    &&& prog[open] == Inst::Forward
    &&& prog[open + 1] == Inst::DecData
    &&& prog[open + 2] == Inst::Back
}

/// `m`, having left a loop that ends just before `inst_ptr` with the
/// current cell at zero.
pub open spec fn cleared(m: Machine, inst_ptr: int, depth: int) -> Machine {
    Machine {
        inst_ptr: inst_ptr as nat,
        depth: depth as usize,
        cells: m.cells.insert(m.data_ptr, 0),
        ..m
    }
}

proof fn lemma_clear_loop_rounds(t: Trace, input: Seq<u8>, open: int)
    requires
        !t.stopped(),
        clear_loop_at(t.machine.prog, open),
        t.machine.inst_ptr == open + 1,
        t.machine.cell() > 0,
        t.machine.depth > 0,
    ensures
        t.run(input, (2 * t.machine.cell()) as nat) == (Trace {
            machine: cleared(t.machine, open + 3, t.machine.depth - 1),
            ..t
        }),
    decreases t.machine.cell(),
{
    let m = t.machine;
    let rounds = m.cell() as int;
    let body = t.step(input);
    let back = body.step(input);
    assert(m.fault() is None);
    assert(body.machine.cell() == rounds - 1);
    assert(t.run(input, (2 * rounds) as nat) == body.run(input, (2 * rounds - 1) as nat));
    assert(body.run(input, (2 * rounds - 1) as nat) == back.run(input, (2 * rounds - 2) as nat));
    if rounds == 1 {
        assert(back.machine.cells =~= m.cells.insert(m.data_ptr, 0));
        assert(back.machine == cleared(m, open + 3, m.depth - 1));
    } else {
        assert(closes_over_opens(m.prog, open + 2, open + 2) == 0);
        assert(closes_over_opens(m.prog, open + 1, open + 2) == 0);
        assert(is_matching_open(m.prog, open + 2, open));
        assert(back.machine.inst_ptr == open + 1);
        lemma_clear_loop_rounds(back, input, open);
        assert(back.machine.cells.insert(m.data_ptr, 0) =~= m.cells.insert(m.data_ptr, 0));
    }
}

/// The decrement loop `[-]`, met with a positive cell, runs its body as
/// many times as the cell says and leaves the cell at zero: after one step
/// into the loop and two for each round, the machine stands just past the
/// loop, as deep as it was, with nothing else changed, read or written.
pub proof fn lemma_clear_loop_runs_cell_times(m: Machine, input: Seq<u8>)
    requires
        !m.term,
        clear_loop_at(m.prog, m.inst_ptr as int),
        m.cell() > 0,
        m.depth < usize::MAX,
    ensures
        Trace::start(m).run(input, (2 * m.cell() + 1) as nat) == Trace::start(
            cleared(m, (m.inst_ptr + 3) as int, m.depth as int),
        ),
{
    let t = Trace::start(m);
    let inside = t.step(input);
    assert(t.run(input, (2 * m.cell() + 1) as nat) == inside.run(input, (2 * m.cell()) as nat));
    lemma_clear_loop_rounds(inside, input, m.inst_ptr as int);
}

/// The decrement loop `[-]`, met with a cell at zero, is skipped in one
/// step, and nothing but the instruction pointer changes.
pub proof fn lemma_clear_loop_skipped_on_zero(m: Machine, input: Option<u8>)
    requires
        clear_loop_at(m.prog, m.inst_ptr as int),
        m.cell() == 0,
    ensures
        m.fault() is None,
        m.emits() is None,
        m.advance(input) == (Machine { inst_ptr: m.inst_ptr + 3, ..m }),
{
    let open = m.inst_ptr as int;
    assert(opens_over_closes(m.prog, open + 1, open + 1) == 0);
    assert(opens_over_closes(m.prog, open + 1, open + 2) == 0);
    assert(is_matching_close(m.prog, open, open + 2));
}

/// Where no `Back` stands after `ip`, a `Forward` at `ip` has no partner.
pub proof fn lemma_no_back_no_partner(prog: Seq<Inst>, ip: int)
    requires
        forall|j: int| ip < j < prog.len() ==> prog[j] != Inst::Back,
    ensures
        matching_close(prog, ip) is None,
{
    assert forall|j: int| !is_matching_close(prog, ip, j) by {
        if closes_at(prog, ip, j) {
            assert(prog[j] == Inst::Back);
        }
    }
}

/// Where no `Forward` stands before `ip`, a `Back` at `ip` has no partner.
pub proof fn lemma_no_forward_no_partner(prog: Seq<Inst>, ip: int)
    requires
        forall|j: int| 0 <= j < ip && j < prog.len() ==> prog[j] != Inst::Forward,
    ensures
        matching_open(prog, ip) is None,
{
    assert forall|j: int| !is_matching_open(prog, ip, j) by {
        if opens_at(prog, ip, j) {
            assert(prog[j] == Inst::Forward);
        }
    }
}

/// The machine is about to jump from a bracket that has no partner.
pub open spec fn jumps_without_partner(m: Machine) -> bool {
    &&& !m.at_end()
    &&& {
        ||| {
            &&& m.prog[m.inst_ptr as int] == Inst::Forward
            &&& m.cell() == 0
            &&& matching_close(m.prog, m.inst_ptr as int) is None
        }
        ||| {
            &&& m.prog[m.inst_ptr as int] == Inst::Back
            &&& m.cell() != 0
            &&& matching_open(m.prog, m.inst_ptr as int) is None
        }
    }
}

/// A jump from a bracket without a partner is a fault when it is executed,
/// and the run does not get past it: however many steps it is given, it
/// ends where the jump stood, with the machine as it was.
pub proof fn lemma_unmatched_jump_stops_the_run(t: Trace, input: Seq<u8>, fuel: nat)
    requires
        !t.stopped(),
        jumps_without_partner(t.machine),
        fuel > 0,
    ensures
        t.machine.fault() == Some(Fault::UnmatchedBracket),
        t.run(input, fuel) == (Trace { fault: Some(Fault::UnmatchedBracket), ..t }),
{
    let next = t.step(input);
    assert(t.run(input, fuel) == next.run(input, (fuel - 1) as nat));
    assert(next.stopped());
}

/// An unmatched bracket that is not jumped from is no fault: a `Forward`
/// without a partner is entered on a non-zero cell like any other.
pub proof fn lemma_unmatched_bracket_is_found_lazily(m: Machine)
    requires
        !m.at_end(),
        m.prog[m.inst_ptr as int] == Inst::Forward,
        m.cell() != 0,
        m.depth < usize::MAX,
        matching_close(m.prog, m.inst_ptr as int) is None,
    ensures
        m.fault() is None,
{
}

} // verus!
