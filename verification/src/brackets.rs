//! Matching of loop brackets, searched for on demand.

use vstd::prelude::*;
use crate::inst::{Inst, inst_at};

verus! {

/// How many more `Back` than `Forward` instructions stand at the positions
/// `lo <= k < hi`.
pub open spec fn closes_over_opens(prog: Seq<Inst>, lo: int, hi: int) -> int
    decreases hi - lo,
{
    if hi <= lo {
        0
    } else {
        let rest = closes_over_opens(prog, lo + 1, hi);
        match inst_at(prog, lo) {
            Inst::Back => rest + 1,
            Inst::Forward => rest - 1,
            _ => rest,
        }
    }
}

/// How many more `Forward` than `Back` instructions stand at the positions
/// `lo <= k < hi`.
pub open spec fn opens_over_closes(prog: Seq<Inst>, lo: int, hi: int) -> int
    decreases hi - lo,
{
    if hi <= lo {
        0
    } else {
        let rest = opens_over_closes(prog, lo, hi - 1);
        match inst_at(prog, hi - 1) {
            Inst::Forward => rest + 1,
            Inst::Back => rest - 1,
            _ => rest,
        }
    }
}

/// `j` holds a `Forward` before `ip`, and the brackets between the two are
/// balanced.
pub open spec fn opens_at(prog: Seq<Inst>, ip: int, j: int) -> bool {
    &&& 0 <= j < ip
    &&& j < prog.len()
    &&& prog[j] == Inst::Forward
    &&& closes_over_opens(prog, j + 1, ip) == 0
}

/// `j` holds a `Back` after `ip`, and the brackets between the two are
/// balanced.
pub open spec fn closes_at(prog: Seq<Inst>, ip: int, j: int) -> bool {
    &&& 0 <= ip < j < prog.len()
    &&& prog[j] == Inst::Back
    &&& opens_over_closes(prog, ip + 1, j) == 0
}

/// `j` is the nearest position before `ip` that opens a loop around `ip`.
pub open spec fn is_matching_open(prog: Seq<Inst>, ip: int, j: int) -> bool {
    &&& opens_at(prog, ip, j)
    &&& forall|k: int| j < k < ip ==> !#[trigger] opens_at(prog, ip, k)
}

/// `j` is the nearest position after `ip` that closes a loop around `ip`.
pub open spec fn is_matching_close(prog: Seq<Inst>, ip: int, j: int) -> bool {
    &&& closes_at(prog, ip, j)
    &&& forall|k: int| ip < k < j ==> !#[trigger] closes_at(prog, ip, k)
}

/// The position of the `Forward` that matches a `Back` at `ip`; `None` where
/// the program has none.
pub open spec fn matching_open(prog: Seq<Inst>, ip: int) -> Option<int> {
    if exists|j: int| is_matching_open(prog, ip, j) {
        Some(choose|j: int| is_matching_open(prog, ip, j))
    } else {
        None
    }
}

/// The position of the `Back` that matches a `Forward` at `ip`; `None` where
/// the program has none.
pub open spec fn matching_close(prog: Seq<Inst>, ip: int) -> Option<int> {
    if exists|j: int| is_matching_close(prog, ip, j) {
        Some(choose|j: int| is_matching_close(prog, ip, j))
    } else {
        None
    }
}

/// A found position, as a mathematical integer.
pub open spec fn position(found: Option<usize>) -> Option<int> {
    match found {
        Some(j) => Some(j as int),
        None => None,
    }
}

/// The leftward scan that a machine at nesting depth `depth` makes for the
/// partner of a `Back`: it has come down to just before `i` with the
/// counter at `counter`. A `Back` raises the counter; a `Forward` is the
/// partner where the counter stands at `depth`, and lowers it otherwise.
pub open spec fn scan_left(prog: Seq<Inst>, i: int, depth: nat, counter: nat) -> Option<int>
    decreases i,
{
    if i <= 0 {
        None
    } else {
        match inst_at(prog, i - 1) {
            Inst::Forward => if counter == depth {
                Some(i - 1)
            } else {
                scan_left(prog, i - 1, depth, (counter - 1) as nat)
            },
            Inst::Back => scan_left(prog, i - 1, depth, counter + 1),
            _ => scan_left(prog, i - 1, depth, counter),
        }
    }
}

/// The rightward scan that a machine at nesting depth `depth` makes for the
/// partner of a `Forward`: it has come up to `i` with the counter at
/// `counter`. A `Forward` raises the counter; a `Back` is the partner where
/// the counter stands at `depth`, and lowers it otherwise.
pub open spec fn scan_right(prog: Seq<Inst>, i: int, depth: nat, counter: nat) -> Option<int>
    decreases prog.len() - i,
{
    if i < 0 || i >= prog.len() {
        None
    } else {
        match prog[i] {
            Inst::Back => if counter == depth {
                Some(i)
            } else {
                scan_right(prog, i + 1, depth, (counter - 1) as nat)
            },
            Inst::Forward => scan_right(prog, i + 1, depth, counter + 1),
            _ => scan_right(prog, i + 1, depth, counter),
        }
    }
}

proof fn lemma_scan_left_from(prog: Seq<Inst>, ip: int, i: int, depth: nat, counter: nat)
    requires
        i <= ip,
        counter >= depth,
        counter == depth + closes_over_opens(prog, i, ip),
        forall|k: int| i <= k < ip ==> !#[trigger] opens_at(prog, ip, k),
    ensures
        scan_left(prog, i, depth, counter) == matching_open(prog, ip),
    decreases i,
{
    if i <= 0 {
        assert forall|j: int| !is_matching_open(prog, ip, j) by {
            if opens_at(prog, ip, j) {
                assert(0 <= j < ip);
            }
        }
    } else {
        match inst_at(prog, i - 1) {
            Inst::Forward => {
                if counter == depth {
                    assert(is_matching_open(prog, ip, i - 1));
                } else {
                    lemma_scan_left_from(prog, ip, i - 1, depth, (counter - 1) as nat);
                }
            },
            Inst::Back => {
                lemma_scan_left_from(prog, ip, i - 1, depth, counter + 1);
            },
            _ => {
                lemma_scan_left_from(prog, ip, i - 1, depth, counter);
            },
        }
    }
}

proof fn lemma_scan_right_from(prog: Seq<Inst>, ip: int, i: int, depth: nat, counter: nat)
    requires
        0 <= ip < i,
        counter >= depth,
        counter == depth + opens_over_closes(prog, ip + 1, i),
        forall|k: int| ip < k < i ==> !#[trigger] closes_at(prog, ip, k),
    ensures
        scan_right(prog, i, depth, counter) == matching_close(prog, ip),
    decreases prog.len() - i,
{
    if i >= prog.len() {
        assert forall|j: int| !is_matching_close(prog, ip, j) by {
            if closes_at(prog, ip, j) {
                assert(ip < j < prog.len());
            }
        }
    } else {
        match prog[i] {
            Inst::Back => {
                if counter == depth {
                    assert(is_matching_close(prog, ip, i));
                } else {
                    lemma_scan_right_from(prog, ip, i + 1, depth, (counter - 1) as nat);
                }
            },
            Inst::Forward => {
                lemma_scan_right_from(prog, ip, i + 1, depth, counter + 1);
            },
            _ => {
                lemma_scan_right_from(prog, ip, i + 1, depth, counter);
            },
        }
    }
}

/// The partner of a `Back` at `ip` is what the leftward scan finds that
/// starts just before `ip` with its counter at the machine's nesting depth,
/// whatever that depth is.
pub proof fn lemma_matching_open_is_the_scan(prog: Seq<Inst>, ip: int, depth: nat)
    ensures
        matching_open(prog, ip) == scan_left(prog, ip, depth, depth),
{
    lemma_scan_left_from(prog, ip, ip, depth, depth);
}

/// The partner of a `Forward` at `ip` is what the rightward scan finds that
/// starts just after `ip` with its counter at the machine's nesting depth,
/// whatever that depth is.
pub proof fn lemma_matching_close_is_the_scan(prog: Seq<Inst>, ip: int, depth: nat)
    requires
        0 <= ip,
    ensures
        matching_close(prog, ip) == scan_right(prog, ip + 1, depth, depth),
{
    lemma_scan_right_from(prog, ip, ip + 1, depth, depth);
}

/// Positions past the end of the program hold no bracket.
pub proof fn lemma_no_brackets_past_end(prog: Seq<Inst>, lo: int, hi: int)
    requires
        prog.len() <= lo,
    ensures
        closes_over_opens(prog, lo, hi) == 0,
    decreases hi - lo,
{
    if lo < hi {
        lemma_no_brackets_past_end(prog, lo + 1, hi);
    }
}

/// Searches leftward from just before `ip` for the `Forward` that matches a
/// `Back` at `ip`.
pub fn find_open(prog: &Vec<Inst>, ip: usize) -> (found: Option<usize>)
    ensures
        position(found) == matching_open(prog@, ip as int),
{
    let mut i: usize = if ip < prog.len() { ip } else { prog.len() };
    let mut pending: usize = 0;
    proof {
        if ip >= prog.len() {
            lemma_no_brackets_past_end(prog@, i as int, ip as int);
        }
    }
    while i > 0
        invariant
            i <= ip,
            i <= prog.len(),
            pending as int == closes_over_opens(prog@, i as int, ip as int),
            pending <= ip - i,
            forall|k: int| i <= k < ip ==> !#[trigger] opens_at(prog@, ip as int, k),
        decreases i,
    {
        i -= 1;
        match prog[i] {
            Inst::Forward => {
                if pending == 0 {
                    assert(is_matching_open(prog@, ip as int, i as int));
                    return Some(i);
                }
                pending -= 1;
            },
            Inst::Back => {
                pending += 1;
            },
            _ => {},
        }
    }
    assert forall|j: int| !is_matching_open(prog@, ip as int, j) by {
        if opens_at(prog@, ip as int, j) {
            assert(0 <= j < ip);
        }
    }
    None
}

/// Searches rightward from just after `ip` for the `Back` that matches a
/// `Forward` at `ip`.
pub fn find_close(prog: &Vec<Inst>, ip: usize) -> (found: Option<usize>)
    ensures
        position(found) == matching_close(prog@, ip as int),
{
    if ip >= prog.len() {
        assert forall|j: int| !is_matching_close(prog@, ip as int, j) by {}
        return None;
    }
    let mut i: usize = ip + 1;
    let mut pending: usize = 0;
    while i < prog.len()
        invariant
            ip < i <= prog.len(),
            pending as int == opens_over_closes(prog@, ip as int + 1, i as int),
            pending <= i - ip - 1,
            forall|k: int| ip < k < i ==> !#[trigger] closes_at(prog@, ip as int, k),
        decreases prog.len() - i,
    {
        match prog[i] {
            Inst::Back => {
                if pending == 0 {
                    assert(is_matching_close(prog@, ip as int, i as int));
                    return Some(i);
                }
                pending -= 1;
            },
            Inst::Forward => {
                pending += 1;
            },
            _ => {},
        }
        i += 1;
    }
    assert forall|j: int| !is_matching_close(prog@, ip as int, j) by {
        if closes_at(prog@, ip as int, j) {
            assert(ip < j < prog@.len());
        }
    }
    None
}

} // verus!
