//! Generates bytecode from a regular-expression syntax tree.

use vstd::prelude::*;
use crate::engine::Instruction;
use crate::engine::parser::AST;
use crate::helper::safe_add;

verus! {

/// Why code generation failed.
#[derive(Clone, Copy, Debug, PartialEq, Eq, Structural)]
pub enum CodeGenError {
    /// The program counter outgrew its type.
    PCOverFlow,
    /// A star's split instruction went missing.
    FailStar,
    /// An alternation's split or jump instruction went missing.
    FailOr,
    /// A question's split instruction went missing.
    FailQuestion,
}

/// The code generator: the next instruction address and the instructions
/// emitted so far. The address always equals the number of instructions.
struct Generator {
    pc: usize,
    insts: Vec<Instruction>,
}

/// The instruction's jump and split targets stay at or below the bound.
pub open spec fn inst_targets_le(inst: Instruction, bound: int) -> bool {
    match inst {
        Instruction::Jump(a) => a <= bound,
        Instruction::Split(a, b) => a <= bound && b <= bound,
        _ => true,
    }
}

/// Every jump and split target of the code stays at or below the bound.
pub open spec fn targets_le(code: Seq<Instruction>, bound: int) -> bool {
    forall|i: int| 0 <= i < code.len() ==> inst_targets_le(#[trigger] code[i], bound)
}

proof fn lemma_targets_le_mono(code: Seq<Instruction>, b1: int, b2: int)
    requires
        targets_le(code, b1),
        b1 <= b2,
    ensures
        targets_le(code, b2),
{
    assert forall|i: int| 0 <= i < code.len() implies inst_targets_le(#[trigger] code[i], b2) by {
        assert(inst_targets_le(code[i], b1));
    }
}

proof fn lemma_targets_le_push(code: Seq<Instruction>, inst: Instruction, b: int)
    requires
        targets_le(code, b),
        inst_targets_le(inst, b),
    ensures
        targets_le(code.push(inst), b),
{
    let c2 = code.push(inst);
    assert forall|i: int| 0 <= i < c2.len() implies inst_targets_le(#[trigger] c2[i], b) by {
        if i < code.len() {
            assert(inst_targets_le(code[i], b));
        }
    }
}

proof fn lemma_targets_le_update(code: Seq<Instruction>, j: int, inst: Instruction, b: int)
    requires
        targets_le(code, b),
        0 <= j < code.len(),
        inst_targets_le(inst, b),
    ensures
        targets_le(code.update(j, inst), b),
{
    let c2 = code.update(j, inst);
    assert forall|i: int| 0 <= i < c2.len() implies inst_targets_le(#[trigger] c2[i], b) by {
        if i != j {
            assert(inst_targets_le(code[i], b));
        }
    }
}

/// Generates the bytecode of a syntax tree. The code of the whole pattern
/// is followed by one final `Match` instruction, and every jump and split
/// target lies below the code's length, so the evaluator can never step
/// outside it.
pub fn get_code(ast: &AST) -> (r: Result<Vec<Instruction>, CodeGenError>)
    ensures
        r matches Ok(code) ==> code@.len() >= 1 && code@.last() == Instruction::Match,
        r matches Ok(code) ==> targets_le(code@, code@.len() - 1),
{
    let mut generator = Generator { pc: 0, insts: Vec::new() };
    match generator.gen_code(ast) {
        Ok(_) => Ok(generator.insts),
        Err(e) => Err(e),
    }
}

impl Generator {
    /// The generator's bookkeeping invariant.
    spec fn wf(&self) -> bool {
        self.pc == self.insts@.len()
    }

    /// Emits the code of the whole pattern and the final `Match`.
    fn gen_code(&mut self, ast: &AST) -> (r: Result<(), CodeGenError>)
        requires
            old(self).wf(),
            targets_le(old(self).insts@, old(self).pc as int),
        ensures
            r is Ok ==> final(self).wf() && final(self).insts@.len() >= 1 && final(self).insts@.last() == Instruction::Match,
            r is Ok ==> targets_le(final(self).insts@, final(self).insts@.len() - 1),
    {
        self.gen_expr(ast)?;
        let ghost mid = self.insts@;
        self.inc_pc()?;
        self.insts.push(Instruction::Match);
        proof {
            lemma_targets_le_push(mid, Instruction::Match, mid.len() as int);
        }
        Ok(())
    }

    /// Emits the code of one subexpression.
    fn gen_expr(&mut self, ast: &AST) -> (r: Result<(), CodeGenError>)
        requires
            old(self).wf(),
        ensures
            r is Ok ==> final(self).wf() && final(self).insts@.len() >= old(self).insts@.len(),
            r is Ok ==> final(self).pc >= old(self).pc,
            r is Ok && targets_le(old(self).insts@, old(self).pc as int) ==> targets_le(
                final(self).insts@,
                final(self).pc as int,
            ),
        decreases ast, 1int,
    {
        match ast {
            AST::Char(c) => self.gen_char(*c)?,
            AST::Or(e1, e2) => self.gen_or(e1, e2)?,
            AST::Plus(e) => self.gen_plus(e)?,
            AST::Star(e1) => {
                match &**e1 {
                    // Nested stars collapse to one: `((r*)*)*` matches the
                    // same strings as `r*`, and flattening keeps the
                    // evaluator's backtracking stack small.
                    AST::Star(_) => self.gen_expr(e1)?,
                    AST::Concat(e2) if e2.len() == 1 => {
                        let inner = &e2[0];
                        if matches!(inner, AST::Star(_)) {
                            self.gen_expr(inner)?
                        } else {
                            self.gen_star(e1)?
                        }
                    },
                    _ => self.gen_star(e1)?,
                }
            },
            AST::Question(e) => self.gen_question(e)?,
            AST::Concat(v) => self.gen_seq(v)?,
        }
        Ok(())
    }

    /// Emits the single instruction matching one character.
    fn gen_char(&mut self, c: char) -> (r: Result<(), CodeGenError>)
        requires
            old(self).wf(),
        ensures
            r is Ok ==> final(self).wf() && final(self).insts@.len() >= old(self).insts@.len(),
            r is Ok ==> final(self).pc >= old(self).pc,
            r is Ok && targets_le(old(self).insts@, old(self).pc as int) ==> targets_le(
                final(self).insts@,
                final(self).pc as int,
            ),
    {
        let inst = Instruction::Char(c);
        self.insts.push(inst);
        self.inc_pc()?;
        Ok(())
    }

    /// Emits `split L1, L2; L1: e1; jump L3; L2: e2; L3:`.
    fn gen_or(&mut self, e1: &AST, e2: &AST) -> (r: Result<(), CodeGenError>)
        requires
            old(self).wf(),
        ensures
            r is Ok ==> final(self).wf() && final(self).insts@.len() >= old(self).insts@.len(),
            r is Ok ==> final(self).pc >= old(self).pc,
            r is Ok && targets_le(old(self).insts@, old(self).pc as int) ==> targets_le(
                final(self).insts@,
                final(self).pc as int,
            ),
        decreases AST::Or(Box::new(*e1), Box::new(*e2)), 0int,
    {
        proof {
            let ghost me = AST::Or(Box::new(*e1), Box::new(*e2));
            assert(decreases_to!(me => me->Or_0));
            assert(decreases_to!(me => me->Or_1));
        }
        let split_addr = self.pc;
        self.inc_pc()?;
        let split = Instruction::Split(self.pc, 0);
        self.insts.push(split);
        self.gen_expr(e1)?;
        let jmp_addr = self.pc;
        self.insts.push(Instruction::Jump(0));
        self.inc_pc()?;
        let cur = self.insts[split_addr];
        match cur {
            Instruction::Split(l1, _) => {
                self.insts[split_addr] = Instruction::Split(l1, self.pc);
            },
            _ => {
                return Err(CodeGenError::FailOr);
            },
        }
        self.gen_expr(e2)?;
        let cur = self.insts[jmp_addr];
        match cur {
            Instruction::Jump(_) => {
                self.insts[jmp_addr] = Instruction::Jump(self.pc);
                Ok(())
            },
            _ => Err(CodeGenError::FailOr),
        }
    }

    /// Emits `split L1, L2; L1: e; L2:`.
    fn gen_question(&mut self, e: &AST) -> (r: Result<(), CodeGenError>)
        requires
            old(self).wf(),
        ensures
            r is Ok ==> final(self).wf() && final(self).insts@.len() >= old(self).insts@.len(),
            r is Ok ==> final(self).pc >= old(self).pc,
            r is Ok && targets_le(old(self).insts@, old(self).pc as int) ==> targets_le(
                final(self).insts@,
                final(self).pc as int,
            ),
        decreases AST::Question(Box::new(*e)), 0int,
    {
        proof {
            let ghost me = AST::Question(Box::new(*e));
            assert(decreases_to!(me => me->Question_0));
        }
        let split_addr = self.pc;
        self.inc_pc()?;
        let split = Instruction::Split(self.pc, 0);
        self.insts.push(split);
        self.gen_expr(e)?;
        let cur = self.insts[split_addr];
        match cur {
            Instruction::Split(l1, _) => {
                self.insts[split_addr] = Instruction::Split(l1, self.pc);
                Ok(())
            },
            _ => Err(CodeGenError::FailQuestion),
        }
    }

    /// Emits `L1: e; split L1, L2; L2:`.
    fn gen_plus(&mut self, e: &AST) -> (r: Result<(), CodeGenError>)
        requires
            old(self).wf(),
        ensures
            r is Ok ==> final(self).wf() && final(self).insts@.len() >= old(self).insts@.len(),
            r is Ok ==> final(self).pc >= old(self).pc,
            r is Ok && targets_le(old(self).insts@, old(self).pc as int) ==> targets_le(
                final(self).insts@,
                final(self).pc as int,
            ),
        decreases AST::Plus(Box::new(*e)), 0int,
    {
        proof {
            let ghost me = AST::Plus(Box::new(*e));
            assert(decreases_to!(me => me->Plus_0));
        }
        let l1 = self.pc;
        self.gen_expr(e)?;
        self.inc_pc()?;
        let split = Instruction::Split(l1, self.pc);
        self.insts.push(split);
        Ok(())
    }

    /// Emits `L1: split L2, L3; L2: e; jump L1; L3:`.
    fn gen_star(&mut self, e: &AST) -> (r: Result<(), CodeGenError>)
        requires
            old(self).wf(),
        ensures
            r is Ok ==> final(self).wf() && final(self).insts@.len() >= old(self).insts@.len(),
            r is Ok ==> final(self).pc >= old(self).pc,
            r is Ok && targets_le(old(self).insts@, old(self).pc as int) ==> targets_le(
                final(self).insts@,
                final(self).pc as int,
            ),
        decreases AST::Star(Box::new(*e)), 0int,
    {
        proof {
            let ghost me = AST::Star(Box::new(*e));
            assert(decreases_to!(me => me->Star_0));
        }
        let l1 = self.pc;
        self.inc_pc()?;
        let split = Instruction::Split(self.pc, 0);
        self.insts.push(split);
        self.gen_expr(e)?;
        self.inc_pc()?;
        self.insts.push(Instruction::Jump(l1));
        let cur = self.insts[l1];
        match cur {
            Instruction::Split(l2, _) => {
                self.insts[l1] = Instruction::Split(l2, self.pc);
                Ok(())
            },
            _ => Err(CodeGenError::FailStar),
        }
    }

    /// Emits the concatenated subexpressions in order.
    fn gen_seq(&mut self, exprs: &Vec<AST>) -> (r: Result<(), CodeGenError>)
        requires
            old(self).wf(),
        ensures
            r is Ok ==> final(self).wf() && final(self).insts@.len() >= old(self).insts@.len(),
            r is Ok ==> final(self).pc >= old(self).pc,
            r is Ok && targets_le(old(self).insts@, old(self).pc as int) ==> targets_le(
                final(self).insts@,
                final(self).pc as int,
            ),
        decreases AST::Concat(*exprs), 0int,
    {
        let n = exprs.len();
        let mut i: usize = 0;
        while i < n
            invariant
                n == exprs@.len(),
                i <= n,
                self.wf(),
                self.insts@.len() >= old(self).insts@.len(),
                self.pc >= old(self).pc,
                targets_le(old(self).insts@, old(self).pc as int) ==> targets_le(
                    self.insts@,
                    self.pc as int,
                ),
            decreases n - i,
        {
            proof {
                let ghost me = AST::Concat(*exprs);
                assert(decreases_to!(me => me->Concat_0));
                assert(decreases_to!(me->Concat_0 => me->Concat_0@));
                assert(decreases_to!(me->Concat_0@ => me->Concat_0@[i as int]));
                assert(decreases_to!(me => exprs@[i as int]));
            }
            self.gen_expr(&exprs[i])?;
            i = i + 1;
        }
        Ok(())
    }

    /// Advances the instruction address, reporting overflow.
    fn inc_pc(&mut self) -> (r: Result<(), CodeGenError>)
        ensures
            r is Ok ==> final(self).pc == old(self).pc + 1 && final(self).insts == old(self).insts,
            r is Err ==> *final(self) == *old(self),
    {
        safe_add(&mut self.pc, &1, || CodeGenError::PCOverFlow)
    }
}

} // verus!
