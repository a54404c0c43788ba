//! Evaluates regular-expression bytecode against a line of characters.
//!
//! Both evaluators explore the machine's states — pairs of an instruction
//! address and an input position — remembering which states they have
//! already expanded, so the search always terminates even on bytecode
//! whose jumps form cycles that consume no input.

use vstd::prelude::*;
use vstd::set_lib::lemma_len_subset;
use vstd::set_lib::set_int_range;
use crate::engine::codegen::targets_le;
use crate::engine::Instruction;

verus! {

/// Why evaluation failed.
#[derive(Clone, Copy, Debug, PartialEq, Eq, Structural)]
pub enum EvalError {
    /// The instruction address outgrew its type.
    PCOverFlow,
    /// The input position outgrew its type.
    SPOverFlow,
    /// An instruction address lies outside the program.
    InvalidPC,
    /// A context was popped from an empty context stack.
    InvalidContext,
}

/// Two distinct in-range states get two distinct codes.
proof fn lemma_state_code_distinct(w: int, p1: int, s1: int, p2: int, s2: int)
    requires
        w >= 1,
        0 <= p1,
        0 <= s1 < w,
        0 <= p2,
        0 <= s2 < w,
        p1 != p2 || s1 != s2,
    ensures
        p1 * w + s1 != p2 * w + s2,
{
    assert(p1 * w + s1 != p2 * w + s2) by (nonlinear_arith)
        requires
            w >= 1,
            0 <= p1,
            0 <= s1 < w,
            0 <= p2,
            0 <= s2 < w,
            p1 != p2 || s1 != s2,
    ;
}

/// The code of an in-range state lies below the state count.
proof fn lemma_state_code_range(w: int, n: int, p: int, s: int)
    requires
        w >= 1,
        0 <= p < n,
        0 <= s < w,
    ensures
        0 <= p * w + s < n * w,
{
    assert(0 <= p * w + s < n * w) by (nonlinear_arith)
        requires
            w >= 1,
            0 <= p < n,
            0 <= s < w,
    ;
}

/// Pops the most recent context into the current address and position.
fn pop_ctx(pc: &mut usize, sp: &mut usize, ctx: &mut Vec<(usize, usize)>) -> (r: Result<
    (),
    EvalError,
>)
    ensures
        old(ctx)@.len() == 0 ==> r == Err::<(), EvalError>(EvalError::InvalidContext) && *final(pc)
            == *old(pc) && *final(sp) == *old(sp) && final(ctx)@ == old(ctx)@,
        old(ctx)@.len() > 0 ==> r is Ok && *final(pc) == old(ctx)@.last().0 && *final(sp) == old(
            ctx,
        )@.last().1 && final(ctx)@ == old(ctx)@.drop_last(),
{
    if let Some((p, s)) = ctx.pop() {
        *pc = p;
        *sp = s;
        Ok(())
    } else {
        Err(EvalError::InvalidContext)
    }
}

/// Evaluates the bytecode against the line.
///
/// `is_depth` picks the depth-first evaluator; otherwise the breadth-first
/// one runs. `Ok(true)` means a `Match` instruction is reachable from the
/// program's start.
pub fn eval(inst: &Vec<Instruction>, line: &Vec<char>, is_depth: bool) -> (r: Result<
    bool,
    EvalError,
>)
    ensures
        r == Ok::<bool, EvalError>(true) ==> exists|i: int|
            0 <= i < inst@.len() && inst@[i] is Match,
        inst@.len() >= 1 && inst@.last() == Instruction::Match && targets_le(
            inst@,
            inst@.len() - 1,
        ) && line@.len() < usize::MAX ==> r is Ok,
{
    if is_depth {
        eval_depth(inst, line, 0, 0)
    } else {
        eval_width(inst, line)
    }
}

/// Depth-first exploration from the given state: of the two branches of a
/// split, the first is followed as far as it goes before the second is
/// tried.
fn eval_depth(inst: &Vec<Instruction>, line: &Vec<char>, pc: usize, sp: usize) -> (r: Result<
    bool,
    EvalError,
>)
    requires
        sp <= line@.len(),
    ensures
        r == Ok::<bool, EvalError>(true) ==> exists|i: int|
            0 <= i < inst@.len() && inst@[i] is Match,
        inst@.len() >= 1 && pc < inst@.len() && inst@.last() == Instruction::Match && targets_le(
            inst@,
            inst@.len() - 1,
        ) && line@.len() < usize::MAX ==> r is Ok,
{
    let n = inst.len();
    let m = line.len();
    let width = match m.checked_add(1) {
        Some(w) => w,
        None => {
            return Err(EvalError::SPOverFlow);
        },
    };
    let ghost total: int = (n as int) * (width as int);
    let mut visited: Vec<Vec<bool>> = Vec::new();
    let mut bi: usize = 0;
    while bi < n
        invariant
            bi <= n,
            width == m + 1,
            visited@.len() == bi,
            forall|p: int| 0 <= p < bi ==> (#[trigger] visited@[p])@.len() == width,
            forall|p: int, s: int| 0 <= p < bi && 0 <= s < width ==> !(#[trigger] visited@[p]@[s]),
        decreases n - bi,
    {
        let row: Vec<bool> = vec![false; width];
        visited.push(row);
        bi = bi + 1;
    }
    let mut ctx: Vec<(usize, usize)> = Vec::new();
    let ghost mut vset: Set<int> = Set::empty();
    let ghost goodcode = n >= 1 && pc < n && inst@.last() == Instruction::Match && targets_le(
        inst@,
        n as int - 1,
    );
    proof {
        assert(total >= 0) by (nonlinear_arith)
            requires
                total == (n as int) * (width as int),
                n >= 0,
                width >= 1,
        ;
        vstd::set_lib::lemma_int_range(0, total);
    }
    ctx.push((pc, sp));
    let mut cpc: usize = 0;
    let mut csp: usize = 0;
    while ctx.len() > 0
        invariant
            n == inst@.len(),
            m == line@.len(),
            width == m + 1,
            total == (n as int) * (width as int),
            visited@.len() == n,
            forall|p: int| 0 <= p < n ==> (#[trigger] visited@[p])@.len() == width,
            vset.finite(),
            vset.subset_of(set_int_range(0, total)),
            vset.len() <= total,
            forall|p: int, s: int|
                0 <= p < n && 0 <= s < width ==> ((#[trigger] visited@[p]@[s]) == vset.contains(
                    p * (width as int) + s,
                )),
            forall|j: int| 0 <= j < ctx@.len() ==> (#[trigger] ctx@[j]).1 <= m,
            goodcode == (n >= 1 && pc < n && inst@.last() == Instruction::Match && targets_le(
                inst@,
                n as int - 1,
            )),
            goodcode ==> forall|j: int| 0 <= j < ctx@.len() ==> (#[trigger] ctx@[j]).0 < n,
        decreases 2 * (total - vset.len()) + ctx@.len(),
    {
        if let Err(e) = pop_ctx(&mut cpc, &mut csp, &mut ctx) {
            return Err(e);
        }
        if cpc >= n {
            return Err(EvalError::InvalidPC);
        }
        if visited[cpc][csp] {
            continue ;
        }
        let row = &mut visited[cpc];
        row[csp] = true;
        proof {
            let code = (cpc as int) * (width as int) + (csp as int);
            lemma_state_code_range(width as int, n as int, cpc as int, csp as int);
            assert(!vset.contains(code));
            vset = vset.insert(code);
            assert(vset.subset_of(set_int_range(0, total)));
            vstd::set_lib::lemma_int_range(0, total);
            lemma_len_subset(vset, set_int_range(0, total));
            assert forall|p: int, s: int| 0 <= p < n && 0 <= s < width implies ((
            #[trigger] visited@[p]@[s]) == vset.contains(p * (width as int) + s)) by {
                if p != cpc || s != csp {
                    lemma_state_code_distinct(width as int, p, s, cpc as int, csp as int);
                }
            }
        }
        let cur = inst[cpc];
        proof {
            if goodcode {
                assert(crate::engine::codegen::inst_targets_le(inst@[cpc as int], n as int - 1));
            }
        }
        match cur {
            Instruction::Char(c) => {
                if csp < m {
                    if line[csp] == c {
                        proof {
                            if goodcode && cpc + 1 == n {
                                assert(inst@[n - 1] is Match);
                            }
                        }
                        ctx.push((cpc + 1, csp + 1));
                    }
                }
            },
            Instruction::Match => {
                proof {
                    assert(inst@[cpc as int] is Match);
                }
                return Ok(true);
            },
            Instruction::Jump(addr) => {
                ctx.push((addr, csp));
            },
            Instruction::Split(addr1, addr2) => {
                ctx.push((addr2, csp));
                ctx.push((addr1, csp));
            },
        }
    }
    Ok(false)
}

/// Breadth-leaning exploration of the same states from the program start:
/// the alternative of every split is queued as a saved context and taken
/// up once the current thread of execution fails or is exhausted.
fn eval_width(inst: &Vec<Instruction>, line: &Vec<char>) -> (r: Result<bool, EvalError>)
    ensures
        r == Ok::<bool, EvalError>(true) ==> exists|i: int|
            0 <= i < inst@.len() && inst@[i] is Match,
        inst@.len() >= 1 && inst@.last() == Instruction::Match && targets_le(
            inst@,
            inst@.len() - 1,
        ) && line@.len() < usize::MAX ==> r is Ok,
{
    let n = inst.len();
    let m = line.len();
    let width = match m.checked_add(1) {
        Some(w) => w,
        None => {
            return Err(EvalError::SPOverFlow);
        },
    };
    let ghost total: int = (n as int) * (width as int);
    let mut visited: Vec<Vec<bool>> = Vec::new();
    let mut bi: usize = 0;
    while bi < n
        invariant
            bi <= n,
            width == m + 1,
            visited@.len() == bi,
            forall|p: int| 0 <= p < bi ==> (#[trigger] visited@[p])@.len() == width,
            forall|p: int, s: int| 0 <= p < bi && 0 <= s < width ==> !(#[trigger] visited@[p]@[s]),
        decreases n - bi,
    {
        let row: Vec<bool> = vec![false; width];
        visited.push(row);
        bi = bi + 1;
    }
    let mut ctx: Vec<(usize, usize)> = Vec::new();
    let ghost mut vset: Set<int> = Set::empty();
    let ghost goodcode = n >= 1 && inst@.last() == Instruction::Match && targets_le(
        inst@,
        n as int - 1,
    );
    proof {
        assert(total >= 0) by (nonlinear_arith)
            requires
                total == (n as int) * (width as int),
                n >= 0,
                width >= 1,
        ;
        vstd::set_lib::lemma_int_range(0, total);
    }
    let mut pc: usize = 0;
    let mut sp: usize = 0;
    ctx.push((pc, sp));
    while ctx.len() > 0
        invariant
            n == inst@.len(),
            m == line@.len(),
            width == m + 1,
            total == (n as int) * (width as int),
            visited@.len() == n,
            forall|p: int| 0 <= p < n ==> (#[trigger] visited@[p])@.len() == width,
            vset.finite(),
            vset.subset_of(set_int_range(0, total)),
            vset.len() <= total,
            forall|p: int, s: int|
                0 <= p < n && 0 <= s < width ==> ((#[trigger] visited@[p]@[s]) == vset.contains(
                    p * (width as int) + s,
                )),
            forall|j: int| 0 <= j < ctx@.len() ==> (#[trigger] ctx@[j]).1 <= m,
            goodcode == (n >= 1 && inst@.last() == Instruction::Match && targets_le(
                inst@,
                n as int - 1,
            )),
            goodcode ==> forall|j: int| 0 <= j < ctx@.len() ==> (#[trigger] ctx@[j]).0 < n,
        decreases 2 * (total - vset.len()) + ctx@.len(),
    {
        if let Err(e) = pop_ctx(&mut pc, &mut sp, &mut ctx) {
            return Err(e);
        }
        if pc >= n {
            return Err(EvalError::InvalidPC);
        }
        if visited[pc][sp] {
            continue ;
        }
        let row = &mut visited[pc];
        row[sp] = true;
        proof {
            let code = (pc as int) * (width as int) + (sp as int);
            lemma_state_code_range(width as int, n as int, pc as int, sp as int);
            assert(!vset.contains(code));
            vset = vset.insert(code);
            assert(vset.subset_of(set_int_range(0, total)));
            vstd::set_lib::lemma_int_range(0, total);
            lemma_len_subset(vset, set_int_range(0, total));
            assert forall|p: int, s: int| 0 <= p < n && 0 <= s < width implies ((
            #[trigger] visited@[p]@[s]) == vset.contains(p * (width as int) + s)) by {
                if p != pc || s != sp {
                    lemma_state_code_distinct(width as int, p, s, pc as int, sp as int);
                }
            }
        }
        let cur = inst[pc];
        proof {
            if goodcode {
                assert(crate::engine::codegen::inst_targets_le(inst@[pc as int], n as int - 1));
            }
        }
        match cur {
            Instruction::Char(c) => {
                if sp < m {
                    if line[sp] == c {
                        proof {
                            if goodcode && pc + 1 == n {
                                assert(inst@[n - 1] is Match);
                            }
                        }
                        ctx.push((pc + 1, sp + 1));
                    }
                }
            },
            Instruction::Match => {
                proof {
                    assert(inst@[pc as int] is Match);
                }
                return Ok(true);
            },
            Instruction::Jump(addr) => {
                ctx.push((addr, sp));
            },
            Instruction::Split(addr1, addr2) => {
                ctx.push((addr2, sp));
                ctx.push((addr1, sp));
            },
        }
    }
    Ok(false)
}

} // verus!
