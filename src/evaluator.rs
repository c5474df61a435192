use vstd::prelude::*;
use crate::instruction::{Instruction, targets_at_most, valid_program};

verus! {

broadcast use vstd::std_specs::vec::group_vec_axioms;

/// Why a program could not be run.
#[derive(Debug, Clone, Copy, PartialEq, Eq, Structural)]
pub enum EvalError {
    /// A jump or split target lies beyond the end of the program.
    InvalidPC,
}

/// A state of the machine is a pair (program counter, input offset).
/// `step` holds when the machine can go from `s` to `t` in one instruction.
pub open spec fn step(prog: Seq<Instruction>, text: Seq<char>, s: (int, int), t: (int, int)) -> bool {
    &&& 0 <= s.0 < prog.len()
    &&& match prog[s.0] {
        Instruction::Char(c) => 0 <= s.1 < text.len() && text[s.1] == c && t == (s.0 + 1, s.1 + 1),
        Instruction::Jump(a) => t == (a as int, s.1),
        Instruction::Split(a, b) => t == (a as int, s.1) || t == (b as int, s.1),
        Instruction::Match => false,
    }
}

/// The machine accepts in state `s`.
pub open spec fn accepting(prog: Seq<Instruction>, s: (int, int)) -> bool {
    0 <= s.0 < prog.len() && prog[s.0] == Instruction::Match
}

/// `path` is a run of the machine from address 0 at offset 0: each state
/// steps to the next.
pub open spec fn is_run(prog: Seq<Instruction>, text: Seq<char>, path: Seq<(int, int)>) -> bool {
    &&& path.len() >= 1
    &&& path[0] == (0int, 0int)
    &&& forall|j: int| 0 <= j < path.len() - 1 ==> step(prog, text, #[trigger] path[j], path[j + 1])
}

/// Some run reaches a `Match`; what input is left over does not matter.
pub open spec fn accepts(prog: Seq<Instruction>, text: Seq<char>) -> bool {
    exists|path: Seq<(int, int)>| #[trigger] is_run(prog, text, path) && accepting(prog, path.last())
}

/// What running `prog` on `text` yields, whichever strategy runs it.
pub open spec fn eval_result(prog: Seq<Instruction>, text: Seq<char>) -> Result<bool, EvalError> {
    if valid_program(prog) {
        Ok(accepts(prog, text))
    } else {
        Err(EvalError::InvalidPC)
    }
}

/// The state `u` is marked in the table of visited states (one row per offset).
pub open spec fn seen(rows: Seq<Vec<bool>>, u: (int, int)) -> bool {
    0 <= u.1 < rows.len() && 0 <= u.0 < rows[u.1]@.len() && rows[u.1]@[u.0]
}

/// Number of unmarked cells in a row.
pub open spec fn count_false(r: Seq<bool>) -> nat
    decreases r.len(),
{
    if r.len() == 0 {
        0
    } else {
        count_false(r.drop_last()) + if r.last() {
            0nat
        } else {
            1nat
        }
    }
}

/// Number of unmarked cells in a table.
pub open spec fn falses(rows: Seq<Vec<bool>>) -> nat
    decreases rows.len(),
{
    if rows.len() == 0 {
        0
    } else {
        falses(rows.drop_last()) + count_false(rows.last()@)
    }
}

proof fn lemma_count_false_update(r: Seq<bool>, p: int)
    requires
        0 <= p < r.len(),
        !r[p],
    ensures
        count_false(r.update(p, true)) + 1 == count_false(r),
    decreases r.len(),
{
    let r2 = r.update(p, true);
    if p < r.len() - 1 {
        assert(r2.drop_last() =~= r.drop_last().update(p, true));
        lemma_count_false_update(r.drop_last(), p);
    } else {
        assert(r2.drop_last() =~= r.drop_last());
    }
}

proof fn lemma_falses_update(rows: Seq<Vec<bool>>, i: int, row: Vec<bool>)
    requires
        0 <= i < rows.len(),
        count_false(row@) + 1 == count_false(rows[i]@),
    ensures
        falses(rows.update(i, row)) + 1 == falses(rows),
    decreases rows.len(),
{
    let rows2 = rows.update(i, row);
    if i < rows.len() - 1 {
        assert(rows2.drop_last() =~= rows.drop_last().update(i, row));
        lemma_falses_update(rows.drop_last(), i, row);
    } else {
        assert(rows2.drop_last() =~= rows.drop_last());
    }
}

proof fn lemma_run_extend(prog: Seq<Instruction>, text: Seq<char>, path: Seq<(int, int)>, t: (int, int))
    requires
        is_run(prog, text, path),
        step(prog, text, path.last(), t),
    ensures
        is_run(prog, text, path.push(t)),
        path.push(t).last() == t,
{
    let p2 = path.push(t);
    assert forall|j: int| 0 <= j < p2.len() - 1 implies step(prog, text, #[trigger] p2[j], p2[j + 1]) by {
        if j < path.len() - 1 {
            assert(p2[j] == path[j] && p2[j + 1] == path[j + 1]);
        }
    }
}

/// Every state of a run is visited, or lies at the address just past the
/// program, where the machine stops, when the visited states are closed
/// under steps.
proof fn lemma_closed_run(
    prog: Seq<Instruction>,
    text: Seq<char>,
    rows: Seq<Vec<bool>>,
    path: Seq<(int, int)>,
    n: int,
)
    requires
        forall|u: (int, int), v: (int, int)|
            seen(rows, u) && #[trigger] step(prog, text, u, v) ==> seen(rows, v) || v.0
                == prog.len(),
        is_run(prog, text, path),
        seen(rows, (0, 0)),
        0 <= n < path.len(),
    ensures
        seen(rows, path[n]) || path[n].0 == prog.len(),
    decreases n,
{
    if n > 0 {
        lemma_closed_run(prog, text, rows, path, n - 1);
        assert(step(prog, text, path[n - 1], path[n]));
    }
}

/// Whether every target of `prog` is an address of it or the one just past it.
pub fn check_program(prog: &Vec<Instruction>) -> (r: bool)
    ensures
        r == valid_program(prog@),
{
    let len = prog.len();
    let mut k: usize = 0;
    while k < len
        invariant
            len == prog.len(),
            0 <= k <= len,
            forall|j: int| 0 <= j < k ==> targets_at_most(#[trigger] prog@[j], len as int),
        decreases len - k,
    {
        let ok = match prog[k] {
            Instruction::Jump(t) => t <= len,
            Instruction::Split(a, b) => a <= len && b <= len,
            _ => true,
        };
        if !ok {
            assert(!targets_at_most(prog@[k as int], len as int));
            return false;
        }
        k = k + 1;
    }
    true
}

/// A table of unmarked cells, `width` in each row, with a row for each
/// offset from 0 to `last`.
fn new_table(last: usize, width: usize) -> (r: Vec<Vec<bool>>)
    ensures
        r.len() == last + 1,
        forall|i: int| 0 <= i <= last ==> #[trigger] r[i].len() == width,
        forall|u: (int, int)| !seen(r@, u),
{
    let mut r: Vec<Vec<bool>> = Vec::new();
    while r.len() <= last
        invariant
            r.len() <= last + 1,
            forall|i: int| 0 <= i < r.len() ==> #[trigger] r[i].len() == width,
            forall|u: (int, int)| !seen(r@, u),
        decreases last + 1 - r.len(),
    {
        let mut row: Vec<bool> = Vec::new();
        while row.len() < width
            invariant
                row.len() <= width,
                forall|p: int| 0 <= p < row.len() ==> !row@[p],
            decreases width - row.len(),
        {
            row.push(false);
        }
        let ghost r0 = r@;
        r.push(row);
        proof {
            assert forall|u: (int, int)| !seen(r@, u) by {
                if 0 <= u.1 < r0.len() {
                    assert(r@[u.1] == r0[u.1]);
                    assert(!seen(r0, u));
                }
            }
        }
    }
    r
}

/// Marks the state (`pc`, `i`).
fn mark(table: &mut Vec<Vec<bool>>, pc: usize, i: usize)
    requires
        i < old(table).len(),
        pc < old(table)[i as int].len(),
        !seen(old(table)@, (pc as int, i as int)),
    ensures
        final(table).len() == old(table).len(),
        forall|j: int| 0 <= j < final(table).len() ==> #[trigger] final(table)[j].len() == old(table)[j].len(),
        forall|u: (int, int)|
            #[trigger] seen(final(table)@, u) == (seen(old(table)@, u) || u == (pc as int, i as int)),
        falses(final(table)@) + 1 == falses(old(table)@),
{
    let ghost before = table@;
    let mut row: Vec<bool> = Vec::new();
    table.set_and_swap(i, &mut row);
    proof {
        lemma_count_false_update(row@, pc as int);
    }
    row.set(pc, true);
    table.set_and_swap(i, &mut row);
    proof {
        lemma_falses_update(before, i as int, table@[i as int]);
        assert(table@ == before.update(i as int, table@[i as int]));
    }
}

/// `u` is one of the states on `stack`.
pub open spec fn on_stack(stack: Seq<(usize, usize)>, u: (int, int)) -> bool {
    exists|j: int| 0 <= j < stack.len() && (#[trigger] stack[j]).0 as int == u.0 && stack[j].1 as int == u.1
}

proof fn lemma_on_stack_push(stack: Seq<(usize, usize)>, x: (usize, usize))
    ensures
        forall|u: (int, int)|
            #[trigger] on_stack(stack.push(x), u) == (on_stack(stack, u) || u == (x.0 as int, x.1 as int)),
{
    let s2 = stack.push(x);
    assert forall|u: (int, int)|
        #[trigger] on_stack(s2, u) == (on_stack(stack, u) || u == (x.0 as int, x.1 as int)) by {
        if on_stack(stack, u) {
            let j = choose|j: int| 0 <= j < stack.len() && (#[trigger] stack[j]).0 as int == u.0 && stack[j].1 as int == u.1;
            assert(s2[j] == stack[j]);
        }
        if u == (x.0 as int, x.1 as int) {
            assert(s2[stack.len() as int] == x);
        }
        if on_stack(s2, u) && u != (x.0 as int, x.1 as int) {
            let j = choose|j: int| 0 <= j < s2.len() && (#[trigger] s2[j]).0 as int == u.0 && s2[j].1 as int == u.1;
            assert(stack[j] == s2[j]);
        }
    }
}

proof fn lemma_on_stack_pop(stack: Seq<(usize, usize)>)
    requires
        stack.len() > 0,
    ensures
        forall|u: (int, int)|
            #[trigger] on_stack(stack, u) == (on_stack(stack.drop_last(), u) || u == (
                stack.last().0 as int,
                stack.last().1 as int,
            )),
{
    assert(stack =~= stack.drop_last().push(stack.last()));
    lemma_on_stack_push(stack.drop_last(), stack.last());
}

/// What holds of the table of visited states and of the states still to be
/// explored (`pend`) while a search runs: every visited state is reachable
/// from the start; a visited state that is no longer pending does not accept,
/// and each state it steps to is visited or stops the machine.
pub open spec fn search_inv(
    p: Seq<Instruction>,
    tx: Seq<char>,
    rows: Seq<Vec<bool>>,
    pend: spec_fn((int, int)) -> bool,
) -> bool {
    &&& seen(rows, (0, 0))
    &&& forall|u: (int, int)| #[trigger]
        seen(rows, u) ==> exists|path: Seq<(int, int)>| #[trigger] is_run(p, tx, path) && path.last() == u
    &&& forall|u: (int, int)| #[trigger] pend(u) ==> seen(rows, u)
    &&& forall|u: (int, int)| seen(rows, u) && !pend(u) ==> !#[trigger] accepting(p, u)
    &&& forall|u: (int, int), v: (int, int)|
        seen(rows, u) && !pend(u) && #[trigger] step(p, tx, u, v) ==> seen(rows, v) || v.0
            == p.len()
}

/// One round of a search: the pending state `x` is taken out and explored;
/// the states it steps to that were not yet visited are visited and become
/// pending.
proof fn lemma_search_round(
    p: Seq<Instruction>,
    tx: Seq<char>,
    rows0: Seq<Vec<bool>>,
    rows1: Seq<Vec<bool>>,
    pend0: spec_fn((int, int)) -> bool,
    pend_mid: spec_fn((int, int)) -> bool,
    pend1: spec_fn((int, int)) -> bool,
    x: (int, int),
)
    requires
        search_inv(p, tx, rows0, pend0),
        pend0(x),
        !accepting(p, x),
        forall|u: (int, int)| #[trigger] pend_mid(u) ==> pend0(u),
        forall|u: (int, int)| #[trigger] pend0(u) && u != x ==> pend_mid(u),
        forall|u: (int, int)| #[trigger] pend_mid(u) ==> pend1(u),
        forall|u: (int, int)| #[trigger] seen(rows0, u) ==> seen(rows1, u),
        forall|u: (int, int)| #[trigger]
            seen(rows1, u) ==> seen(rows0, u) || (pend1(u) && step(p, tx, x, u)),
        forall|u: (int, int)| #[trigger]
            pend1(u) ==> pend_mid(u) || (seen(rows1, u) && step(p, tx, x, u)),
        forall|v: (int, int)| #[trigger] step(p, tx, x, v) ==> seen(rows1, v) || v.0 == p.len(),
    ensures
        search_inv(p, tx, rows1, pend1),
{
    let px = choose|path: Seq<(int, int)>| #[trigger] is_run(p, tx, path) && path.last() == x;
    assert forall|u: (int, int)| #[trigger] seen(rows1, u) implies exists|path: Seq<(int, int)>| #[trigger]
        is_run(p, tx, path) && path.last() == u by {
        if !seen(rows0, u) {
            lemma_run_extend(p, tx, px, u);
        }
    }
    assert forall|u: (int, int)| seen(rows1, u) && !pend1(u) implies !#[trigger] accepting(p, u) by {
        assert(seen(rows0, u));
        if u != x {
            assert(!pend_mid(u));
            assert(!pend0(u));
        }
    }
    assert forall|u: (int, int), v: (int, int)|
        seen(rows1, u) && !pend1(u) && #[trigger] step(p, tx, u, v) implies seen(rows1, v) || v.0
            == p.len() by {
        assert(seen(rows0, u));
        if u != x {
            assert(!pend_mid(u));
            assert(!pend0(u));
            if !(v.0 == p.len()) {
                assert(seen(rows0, v));
            }
        }
    }
}

/// A search that has nothing left pending has decided: the program does not
/// accept.
proof fn lemma_search_done(p: Seq<Instruction>, tx: Seq<char>, rows: Seq<Vec<bool>>, pend: spec_fn((int, int)) -> bool)
    requires
        search_inv(p, tx, rows, pend),
        forall|u: (int, int)| !#[trigger] pend(u),
    ensures
        !accepts(p, tx),
{
    assert forall|path: Seq<(int, int)>| #[trigger] is_run(p, tx, path) implies !accepting(
        p,
        path.last(),
    ) by {
        assert forall|u: (int, int), v: (int, int)|
            seen(rows, u) && #[trigger] step(p, tx, u, v) implies seen(rows, v) || v.0 == p.len() by {
            assert(!pend(u));
        }
        lemma_closed_run(p, tx, rows, path, path.len() - 1);
        if seen(rows, path.last()) {
            assert(!pend(path.last()));
        }
    }
}

/// A visited state that accepts decides the search: the program accepts.
proof fn lemma_search_found(p: Seq<Instruction>, tx: Seq<char>, rows: Seq<Vec<bool>>, pend: spec_fn((int, int)) -> bool, x: (int, int))
    requires
        search_inv(p, tx, rows, pend),
        seen(rows, x),
        accepting(p, x),
    ensures
        accepts(p, tx),
{
    let px = choose|path: Seq<(int, int)>| #[trigger] is_run(p, tx, path) && path.last() == x;
    assert(is_run(p, tx, px) && accepting(p, px.last()));
}

/// Visits (`pc`, `i`) for the depth-first search: where it is an address of
/// the program and not yet visited, marks it and pushes it.
fn visit_depth(table: &mut Vec<Vec<bool>>, stack: &mut Vec<(usize, usize)>, pc: usize, i: usize, len: usize)
    requires
        i < old(table).len(),
        pc <= len,
        forall|j: int| 0 <= j < old(table).len() ==> #[trigger] old(table)[j].len() == len,
    ensures
        final(table).len() == old(table).len(),
        forall|j: int| 0 <= j < final(table).len() ==> #[trigger] final(table)[j].len() == len,
        forall|u: (int, int)|
            #[trigger] seen(final(table)@, u) == (seen(old(table)@, u) || (u == (pc as int, i as int) && pc < len)),
        forall|u: (int, int)|
            #[trigger] on_stack(final(stack)@, u) == (on_stack(old(stack)@, u) || (u == (pc as int, i as int) && pc < len
                && !seen(old(table)@, u))),
        2 * falses(final(table)@) + final(stack).len() <= 2 * falses(old(table)@) + old(stack).len(),
{
    assert(table[i as int].len() == len);
    if pc < len && !table[i][pc] {
        mark(table, pc, i);
        proof {
            lemma_on_stack_push(stack@, (pc, i));
        }
        stack.push((pc, i));
    }
}

/// Depth-first search over the states of the machine: the first target of a
/// split is explored before the second. Each state is explored at most once.
pub fn eval_depth(prog: &Vec<Instruction>, text: &Vec<char>) -> (r: Result<bool, EvalError>)
    ensures
        r == eval_result(prog@, text@),
{
    if !check_program(prog) {
        return Err(EvalError::InvalidPC);
    }
    let len = prog.len();
    let n = text.len();
    if len == 0 {
        assert(!accepts(prog@, text@));
        return Ok(false);
    }
    let ghost p = prog@;
    let ghost tx = text@;
    let mut table = new_table(n, len);
    mark(&mut table, 0, 0);
    let mut stack: Vec<(usize, usize)> = Vec::new();
    proof {
        lemma_on_stack_push(stack@, (0usize, 0usize));
        assert(is_run(p, tx, seq![(0int, 0int)]));
    }
    stack.push((0, 0));
    while stack.len() > 0
        invariant
            p == prog@,
            tx == text@,
            valid_program(p),
            len == p.len(),
            len > 0,
            n == tx.len(),
            table.len() == n + 1,
            forall|j: int| 0 <= j < table.len() ==> #[trigger] table[j].len() == len,
            search_inv(p, tx, table@, |u: (int, int)| on_stack(stack@, u)),
        decreases 2 * falses(table@) + stack.len(),
    {
        let ghost stack0 = stack@;
        let ghost table0 = table@;
        let (pc, i) = stack.pop().unwrap();
        let ghost x = (pc as int, i as int);
        let ghost stack_mid = stack@;
        proof {
            assert((|u: (int, int)| on_stack(stack0, u))(x) ==> seen(table@, x));
            assert(table[i as int].len() == len);
            lemma_on_stack_pop(stack0);
            assert(stack0.drop_last() =~= stack_mid);
            assert(on_stack(stack0, x));
        }
        match prog[pc] {
            Instruction::Match => {
                proof {
                    lemma_search_found(p, tx, table@, |u: (int, int)| on_stack(stack0, u), x);
                }
                return Ok(true);
            },
            Instruction::Char(c) => {
                if i < n && text[i] == c {
                    visit_depth(&mut table, &mut stack, pc + 1, i + 1, len);
                }
            },
            Instruction::Jump(t) => {
                visit_depth(&mut table, &mut stack, t, i, len);
            },
            Instruction::Split(a, b) => {
                visit_depth(&mut table, &mut stack, b, i, len);
                visit_depth(&mut table, &mut stack, a, i, len);
            },
        }
        proof {
            lemma_search_round(
                p,
                tx,
                table0,
                table@,
                |u: (int, int)| on_stack(stack0, u),
                |u: (int, int)| on_stack(stack_mid, u),
                |u: (int, int)| on_stack(stack@, u),
                x,
            );
        }
    }
    proof {
        lemma_search_done(p, tx, table@, |u: (int, int)| on_stack(stack@, u));
    }
    Ok(false)
}

/// `pc` is one of the addresses on `list`.
pub open spec fn on_list(list: Seq<usize>, pc: int) -> bool {
    exists|j: int| 0 <= j < list.len() && (#[trigger] list[j]) as int == pc
}

proof fn lemma_on_list_push(list: Seq<usize>, x: usize)
    ensures
        forall|pc: int| #[trigger] on_list(list.push(x), pc) == (on_list(list, pc) || pc == x as int),
{
    let l2 = list.push(x);
    assert forall|pc: int| #[trigger] on_list(l2, pc) == (on_list(list, pc) || pc == x as int) by {
        if on_list(list, pc) {
            let j = choose|j: int| 0 <= j < list.len() && (#[trigger] list[j]) as int == pc;
            assert(l2[j] == list[j]);
        }
        if pc == x as int {
            assert(l2[list.len() as int] == x);
        }
        if on_list(l2, pc) && pc != x as int {
            let j = choose|j: int| 0 <= j < l2.len() && (#[trigger] l2[j]) as int == pc;
            assert(list[j] == l2[j]);
        }
    }
}

proof fn lemma_on_list_pop(list: Seq<usize>)
    requires
        list.len() > 0,
    ensures
        forall|pc: int| #[trigger] on_list(list, pc) == (on_list(list.drop_last(), pc) || pc == list.last() as int),
{
    assert(list =~= list.drop_last().push(list.last()));
    lemma_on_list_push(list.drop_last(), list.last());
}

/// The states pending in the breadth-first search: the addresses of `clist`
/// at offset `i` and those of `nlist` at offset `i + 1`.
pub open spec fn pending_rounds(clist: Seq<usize>, nlist: Seq<usize>, i: int, u: (int, int)) -> bool {
    (u.1 == i && on_list(clist, u.0)) || (u.1 == i + 1 && on_list(nlist, u.0))
}

proof fn lemma_search_inv_same_pending(
    p: Seq<Instruction>,
    tx: Seq<char>,
    rows: Seq<Vec<bool>>,
    f: spec_fn((int, int)) -> bool,
    g: spec_fn((int, int)) -> bool,
)
    requires
        search_inv(p, tx, rows, f),
        forall|u: (int, int)| #[trigger] f(u) == g(u),
    ensures
        search_inv(p, tx, rows, g),
{
    assert(f =~= g);
}

/// Visits (`pc`, `i`) for the breadth-first search: where it is an address
/// of the program and not yet visited, marks it and appends it to `list`.
fn visit_list(table: &mut Vec<Vec<bool>>, list: &mut Vec<usize>, pc: usize, i: usize, len: usize)
    requires
        i < old(table).len(),
        pc <= len,
        forall|j: int| 0 <= j < old(table).len() ==> #[trigger] old(table)[j].len() == len,
    ensures
        final(table).len() == old(table).len(),
        forall|j: int| 0 <= j < final(table).len() ==> #[trigger] final(table)[j].len() == len,
        forall|u: (int, int)|
            #[trigger] seen(final(table)@, u) == (seen(old(table)@, u) || (u == (pc as int, i as int) && pc < len)),
        forall|q: int|
            #[trigger] on_list(final(list)@, q) == (on_list(old(list)@, q) || (q == pc as int && pc < len
                && !seen(old(table)@, (pc as int, i as int)))),
        2 * falses(final(table)@) + final(list).len() <= 2 * falses(old(table)@) + old(list).len(),
{
    assert(table[i as int].len() == len);
    if pc < len && !table[i][pc] {
        mark(table, pc, i);
        proof {
            lemma_on_list_push(list@, pc);
        }
        list.push(pc);
    }
}

/// Breadth-first search over the states of the machine: all the addresses
/// live at one input offset are explored before the input advances, and
/// each (address, offset) pair is explored at most once.
pub fn eval_width(prog: &Vec<Instruction>, text: &Vec<char>) -> (r: Result<bool, EvalError>)
    ensures
        r == eval_result(prog@, text@),
{
    if !check_program(prog) {
        return Err(EvalError::InvalidPC);
    }
    let len = prog.len();
    let n = text.len();
    if len == 0 {
        assert(!accepts(prog@, text@));
        return Ok(false);
    }
    let ghost p = prog@;
    let ghost tx = text@;
    let mut table = new_table(n, len);
    mark(&mut table, 0, 0);
    let mut clist: Vec<usize> = Vec::new();
    let mut nlist: Vec<usize> = Vec::new();
    proof {
        lemma_on_list_push(clist@, 0usize);
        assert(is_run(p, tx, seq![(0int, 0int)]));
    }
    clist.push(0);
    let mut i: usize = 0;
    loop
        invariant
            p == prog@,
            tx == text@,
            valid_program(p),
            len == p.len(),
            len > 0,
            n == tx.len(),
            i <= n,
            table.len() == n + 1,
            forall|j: int| 0 <= j < table.len() ==> #[trigger] table[j].len() == len,
            search_inv(p, tx, table@, |u: (int, int)| pending_rounds(clist@, nlist@, i as int, u)),
        decreases 2 * falses(table@) + clist.len() + nlist.len(), n - i,
    {
        let ghost pend0 = |u: (int, int)| pending_rounds(clist@, nlist@, i as int, u);
        if clist.len() == 0 {
            if nlist.len() == 0 {
                proof {
                    lemma_search_done(p, tx, table@, pend0);
                }
                return Ok(false);
            }
            proof {
                let q = nlist@[0];
                assert(on_list(nlist@, q as int));
                assert(pend0((q as int, i + 1)));
            }
            clist = nlist;
            nlist = Vec::new();
            i = i + 1;
            proof {
                lemma_search_inv_same_pending(
                    p,
                    tx,
                    table@,
                    pend0,
                    |u: (int, int)| pending_rounds(clist@, nlist@, i as int, u),
                );
            }
        } else {
            let ghost table0 = table@;
            let ghost clist0 = clist@;
            let ghost nlist0 = nlist@;
            let pc = clist.pop().unwrap();
            let ghost x = (pc as int, i as int);
            let ghost clist_mid = clist@;
            proof {
                lemma_on_list_pop(clist0);
                assert(clist0.drop_last() =~= clist_mid);
                assert(pend0(x));
                assert(table[i as int].len() == len);
            }
            match prog[pc] {
                Instruction::Match => {
                    proof {
                        lemma_search_found(p, tx, table@, pend0, x);
                    }
                    return Ok(true);
                },
                Instruction::Char(c) => {
                    if i < n && text[i] == c {
                        visit_list(&mut table, &mut nlist, pc + 1, i + 1, len);
                    }
                },
                Instruction::Jump(t) => {
                    visit_list(&mut table, &mut clist, t, i, len);
                },
                Instruction::Split(a, b) => {
                    visit_list(&mut table, &mut clist, b, i, len);
                    visit_list(&mut table, &mut clist, a, i, len);
                },
            }
            proof {
                lemma_search_round(
                    p,
                    tx,
                    table0,
                    table@,
                    pend0,
                    |u: (int, int)| pending_rounds(clist_mid, nlist0, i as int, u),
                    |u: (int, int)| pending_rounds(clist@, nlist@, i as int, u),
                    x,
                );
            }
        }
    }
}

/// How the machine explores its states.
#[derive(Debug, Clone, Copy, PartialEq, Eq, Structural)]
pub enum Strategy {
    /// Backtracking: one branch of a split is explored to the end before the other.
    DepthFirst,
    /// Lockstep: every live address advances over one input character at a time.
    BreadthFirst,
}

/// Runs `inst` on `line` with the given strategy.
pub fn eval(inst: &Vec<Instruction>, line: &Vec<char>, strategy: Strategy) -> (r: Result<bool, EvalError>)
    ensures
        r == eval_result(inst@, line@),
{
    match strategy {
        Strategy::DepthFirst => eval_depth(inst, line),
        Strategy::BreadthFirst => eval_width(inst, line),
    }
}

/// The two strategies decide alike: whatever each returns on a program and a
/// text is the same result.
pub proof fn lemma_strategies_agree(
    prog: Seq<Instruction>,
    text: Seq<char>,
    depth: Result<bool, EvalError>,
    width: Result<bool, EvalError>,
)
    requires
        depth == eval_result(prog, text),
        width == eval_result(prog, text),
    ensures
        depth == width,
        valid_program(prog) ==> depth == Ok::<bool, EvalError>(accepts(prog, text)),
{
}

} // verus!
