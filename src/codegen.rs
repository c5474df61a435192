use vstd::prelude::*;
use crate::ast::{AST, Re, views};
use crate::helper::safe_add;
use crate::instruction::{Instruction, targets_at_least, targets_at_most};

verus! {

broadcast use vstd::std_specs::vec::group_vec_axioms;

/// Why code generation failed.
#[derive(Debug, Clone, Copy, PartialEq, Eq, Structural)]
pub enum CodeGenError {
    /// The program counter does not fit in `usize`.
    PCOverFlow,
    /// A star's split placeholder was not found where it was emitted.
    FailStar,
    /// An alternation's split or jump placeholder was not found where it was emitted.
    FailOr,
    /// A question mark's split placeholder was not found where it was emitted.
    FailQuestion,
}

/// The body that a star compiles, once nested stars are collapsed: `Some(r)`
/// where `re` is itself a star or a group holding exactly one star, whose code
/// then stands for the whole.
pub open spec fn collapsed_star(e: Re) -> Option<Re> {
    match e {
        Re::Star(_) => Some(e),
        Re::Sequence(s) => if s.len() == 1 && s[0] is Star {
            Some(s[0])
        } else {
            None
        },
        _ => None,
    }
}

/// Number of instructions that `re` compiles to.
pub open spec fn code_len(re: Re) -> nat
    decreases re,
{
    match re {
        Re::Char(_) => 1,
        Re::Or(a, b) => code_len(*a) + code_len(*b) + 2,
        Re::Plus(a) => code_len(*a) + 1,
        Re::Star(e) => match *e {
            Re::Star(_) => code_len(*e),
            Re::Sequence(s) => if s.len() == 1 && s[0] is Star {
                code_len(s[0])
            } else {
                code_len(*e) + 2
            },
            _ => code_len(*e) + 2,
        },
        Re::Question(a) => code_len(*a) + 1,
        Re::Sequence(s) => seq_code_len(s),
    }
}

/// Number of instructions that the concatenation `s` compiles to.
pub open spec fn seq_code_len(s: Seq<Re>) -> nat
    decreases s,
{
    if s.len() == 0 {
        0
    } else {
        seq_code_len(s.drop_last()) + code_len(s.last())
    }
}

/// The code of `re` when its first instruction stands at address `pc`.
pub open spec fn compile(re: Re, pc: int) -> Seq<Instruction>
    decreases re,
{
    match re {
        Re::Char(c) => seq![Instruction::Char(c)],
        Re::Or(a, b) => {
            let l2 = pc + 2 + code_len(*a);
            let l3 = l2 + code_len(*b);
            seq![Instruction::Split((pc + 1) as usize, l2 as usize)] + compile(*a, pc + 1)
                + seq![Instruction::Jump(l3 as usize)] + compile(*b, l2)
        },
        Re::Plus(a) => compile(*a, pc) + seq![
            Instruction::Split(pc as usize, (pc + code_len(*a) + 1) as usize),
        ],
        Re::Star(e) => match *e {
            Re::Star(_) => compile(*e, pc),
            Re::Sequence(s) => if s.len() == 1 && s[0] is Star {
                compile(s[0], pc)
            } else {
                seq![Instruction::Split((pc + 1) as usize, (pc + code_len(*e) + 2) as usize)]
                    + compile(*e, pc + 1) + seq![Instruction::Jump(pc as usize)]
            },
            _ => seq![Instruction::Split((pc + 1) as usize, (pc + code_len(*e) + 2) as usize)]
                + compile(*e, pc + 1) + seq![Instruction::Jump(pc as usize)],
        },
        Re::Question(a) => seq![
            Instruction::Split((pc + 1) as usize, (pc + 1 + code_len(*a)) as usize),
        ] + compile(*a, pc + 1),
        Re::Sequence(s) => compile_seq(s, pc),
    }
}

/// The code of the concatenation `s` when it starts at address `pc`.
pub open spec fn compile_seq(s: Seq<Re>, pc: int) -> Seq<Instruction>
    decreases s,
{
    if s.len() == 0 {
        seq![]
    } else {
        compile_seq(s.drop_last(), pc) + compile(s.last(), pc + seq_code_len(s.drop_last()))
    }
}

/// The whole program for `re`: its code from address 0, then `Match`.
pub open spec fn program_of(re: Re) -> Seq<Instruction> {
    compile(re, 0).push(Instruction::Match)
}

/// The code of `re` has `code_len(re)` instructions, none of them `Match`,
/// and its targets lie between its first address and the one just past it.
pub proof fn lemma_compile_shape(re: Re, pc: int)
    requires
        0 <= pc,
        pc + code_len(re) <= usize::MAX,
    ensures
        compile(re, pc).len() == code_len(re),
        forall|k: int|
            0 <= k < compile(re, pc).len() ==> {
                let inst = #[trigger] compile(re, pc)[k];
                &&& inst != Instruction::Match
                &&& targets_at_least(inst, pc)
                &&& targets_at_most(inst, pc + code_len(re))
            },
    decreases re,
{
    match re {
        Re::Char(_) => {},
        Re::Or(a, b) => {
            lemma_compile_shape(*a, pc + 1);
            lemma_compile_shape(*b, pc + 2 + code_len(*a));
        },
        Re::Plus(a) => {
            lemma_compile_shape(*a, pc);
        },
        Re::Star(e) => {
            match *e {
                Re::Star(_) => {
                    lemma_compile_shape(*e, pc);
                },
                Re::Sequence(s) => {
                    if s.len() == 1 && s[0] is Star {
                        lemma_compile_shape(s[0], pc);
                    } else {
                        lemma_compile_shape(*e, pc + 1);
                    }
                },
                _ => {
                    lemma_compile_shape(*e, pc + 1);
                },
            }
        },
        Re::Question(a) => {
            lemma_compile_shape(*a, pc + 1);
        },
        Re::Sequence(s) => {
            lemma_compile_seq_shape(s, pc);
        },
    }
}

/// What `lemma_compile_shape` says, for a concatenation.
pub proof fn lemma_compile_seq_shape(s: Seq<Re>, pc: int)
    requires
        0 <= pc,
        pc + seq_code_len(s) <= usize::MAX,
    ensures
        compile_seq(s, pc).len() == seq_code_len(s),
        forall|k: int|
            0 <= k < compile_seq(s, pc).len() ==> {
                let inst = #[trigger] compile_seq(s, pc)[k];
                &&& inst != Instruction::Match
                &&& targets_at_least(inst, pc)
                &&& targets_at_most(inst, pc + seq_code_len(s))
            },
    decreases s,
{
    if s.len() > 0 {
        lemma_compile_seq_shape(s.drop_last(), pc);
        lemma_compile_shape(s.last(), pc + seq_code_len(s.drop_last()));
    }
}

/// A compiled program ends in its only `Match`, and each of its targets is
/// an address of it.
pub proof fn lemma_program_shape(re: Re)
    requires
        code_len(re) + 1 <= usize::MAX,
    ensures
        program_of(re).len() == code_len(re) + 1,
        program_of(re).last() == Instruction::Match,
        forall|k: int| 0 <= k < program_of(re).len() - 1 ==> #[trigger] program_of(re)[k] != Instruction::Match,
        forall|k: int|
            0 <= k < program_of(re).len() ==> targets_at_most(
                #[trigger] program_of(re)[k],
                program_of(re).len() as int,
            ),
{
    lemma_compile_shape(re, 0);
    assert forall|k: int| 0 <= k < program_of(re).len() - 1 implies #[trigger] program_of(re)[k]
        == compile(re, 0)[k] by {}
}

/// Nested stars compile to the code of the innermost star: a star around a
/// star, or around a group that holds only a star, adds no instruction.
pub proof fn lemma_nested_star_collapse(re: Re, pc: int)
    ensures
        compile(Re::Star(Box::new(Re::Star(Box::new(re)))), pc) == compile(Re::Star(Box::new(re)), pc),
        compile(
            Re::Star(Box::new(Re::Sequence(seq![Re::Star(Box::new(re))]))),
            pc,
        ) == compile(Re::Star(Box::new(re)), pc),
        code_len(Re::Star(Box::new(Re::Sequence(seq![Re::Star(Box::new(re))]))))
            == code_len(Re::Star(Box::new(re))),
{
}

/// The pattern `(r*)*`, as the parser builds it (each group and the whole
/// pattern a concatenation), compiles to the same program as `r*`: repeated
/// use covers any depth of nesting, as in `((a*)*)*`.
pub proof fn lemma_grouped_star_program(re: Re)
    ensures
        program_of(
            Re::Sequence(seq![Re::Star(Box::new(Re::Sequence(seq![Re::Star(Box::new(re))])))]),
        ) == program_of(Re::Sequence(seq![Re::Star(Box::new(re))])),
{
    let inner = Re::Star(Box::new(re));
    let outer = Re::Star(Box::new(Re::Sequence(seq![inner])));
    assert(seq![inner].drop_last() =~= Seq::<Re>::empty());
    assert(seq![outer].drop_last() =~= Seq::<Re>::empty());
    assert(compile_seq(Seq::<Re>::empty(), 0) == Seq::<Instruction>::empty());
    assert(seq_code_len(Seq::<Re>::empty()) == 0);
    assert(seq![inner].last() == inner);
    assert(seq![outer].last() == outer);
    assert(compile_seq(seq![inner], 0) =~= compile(inner, 0));
    assert(compile_seq(seq![outer], 0) =~= compile(outer, 0));
}

/// Builds the program for a pattern.
pub fn get_code(ast: &AST) -> (r: Result<Vec<Instruction>, CodeGenError>)
    ensures
        match r {
            Ok(code) => code_len(ast@) + 1 <= usize::MAX && code@ == program_of(ast@),
            Err(e) => code_len(ast@) + 1 > usize::MAX && e == CodeGenError::PCOverFlow,
        },
{
    let mut generator = Generator::new();
    match generator.gen_code(ast) {
        Ok(()) => {
            assert(generator.insts@ =~= program_of(ast@));
            Ok(generator.insts)
        },
        Err(e) => Err(e),
    }
}

/// The error of a program counter that no longer fits.
fn pc_overflow() -> (e: CodeGenError)
    ensures
        e == CodeGenError::PCOverFlow,
{
    CodeGenError::PCOverFlow
}

/// Emits code while counting the addresses used.
#[derive(Debug)]
pub struct Generator {
    pc: usize,
    insts: Vec<Instruction>,
}

impl Default for Generator {
    fn default() -> (r: Generator)
        ensures
            r.wf(),
            r.pc() == 0,
            r.insts() == Seq::<Instruction>::empty(),
    {
        Generator::new()
    }
}

impl Generator {
    /// The next free address equals the number of instructions emitted.
    pub closed spec fn wf(&self) -> bool {
        self.pc as int == self.insts@.len()
    }

    /// The next free address.
    pub closed spec fn pc(&self) -> nat {
        self.pc as nat
    }

    /// The instructions emitted so far.
    pub closed spec fn insts(&self) -> Seq<Instruction> {
        self.insts@
    }

    /// A generator that has emitted nothing.
    pub fn new() -> (r: Generator)
        ensures
            r.wf(),
            r.pc() == 0,
            r.insts() == Seq::<Instruction>::empty(),
    {
        Generator { pc: 0, insts: Vec::new() }
    }

    /// The instructions emitted so far.
    pub fn insts_ref(&self) -> (r: &Vec<Instruction>)
        ensures
            r@ == self.insts(),
    {
        &self.insts
    }

    /// Emits the code of `ast` at the next free address, then `Match`.
    pub fn gen_code(&mut self, ast: &AST) -> (r: Result<(), CodeGenError>)
        requires
            old(self).wf(),
        ensures
            final(self).wf(),
            match r {
                Ok(()) => {
                    &&& old(self).pc() + code_len(ast@) + 1 <= usize::MAX
                    &&& final(self).insts() == old(self).insts() + compile(ast@, old(self).pc() as int)
                        + seq![Instruction::Match]
                    &&& final(self).pc() == old(self).pc() + code_len(ast@) + 1
                },
                Err(e) => old(self).pc() + code_len(ast@) + 1 > usize::MAX && e
                    == CodeGenError::PCOverFlow,
            },
    {
        self.gen_expr(ast)?;
        self.inc_pc()?;
        self.insts.push(Instruction::Match);
        Ok(())
    }

    /// Takes the next address.
    fn inc_pc(&mut self) -> (r: Result<(), CodeGenError>)
        ensures
            final(self).insts == old(self).insts,
            match r {
                Ok(()) => old(self).pc < usize::MAX && final(self).pc == old(self).pc + 1,
                Err(e) => {
                    &&& old(self).pc == usize::MAX
                    &&& e == CodeGenError::PCOverFlow
                    &&& final(self).pc == old(self).pc
                },
            },
    {
        safe_add(&mut self.pc, &1, pc_overflow)
    }

    /// Emits the code of `ast` at the next free address.
    fn gen_expr(&mut self, ast: &AST) -> (r: Result<(), CodeGenError>)
        requires
            old(self).wf(),
        ensures
            final(self).wf(),
            match r {
                Ok(()) => {
                    &&& old(self).pc + code_len(ast@) <= usize::MAX
                    &&& final(self).insts@ == old(self).insts@ + compile(ast@, old(self).pc as int)
                    &&& final(self).pc == old(self).pc + code_len(ast@)
                },
                Err(e) => old(self).pc + code_len(ast@) > usize::MAX && e
                    == CodeGenError::PCOverFlow,
            },
        decreases ast, 1nat,
    {
        let ghost pc0 = self.pc as int;
        let ghost old_insts = self.insts@;
        let r = match ast {
            AST::Char(c) => self.gen_char(*c),
            AST::Or(ast1, ast2) => {
                assert(ast@ == Re::Or(Box::new(ast1@), Box::new(ast2@)));
                self.gen_or(ast1, ast2, Ghost(*ast))
            },
            AST::Plus(e) => {
                assert(ast@ == Re::Plus(Box::new(e@)));
                self.gen_plus(e)
            },
            // A star directly around a star, or around a group that holds one
            // star and nothing else, adds nothing: emitting it would put a
            // split in front of a loop that can go round without consuming
            // input. The inner star is emitted in its place.
            AST::Star(e1) => {
                match &**e1 {
                    AST::Star(_) => self.gen_expr(e1),
                    AST::Sequence(e2) => {
                        if e2.len() == 1 {
                            let e3 = &e2[0];
                            if let AST::Star(_) = e3 {
                                self.gen_expr(e3)
                            } else {
                                assert(e1@->Sequence_0[0] == e3@);
                                assert(!(e3@ is Star));
                                self.gen_star(e1)
                            }
                        } else {
                            self.gen_star(e1)
                        }
                    },
                    _ => self.gen_star(e1),
                }
            },
            AST::Question(e) => {
                assert(ast@ == Re::Question(Box::new(e@)));
                self.gen_question(e)
            },
            AST::Sequence(v) => {
                assert(ast@->Sequence_0 =~= views(v@));
                self.gen_seq(v)
            },
        };
        proof {
            if r is Ok {
                assert(self.insts@ =~= old_insts + compile(ast@, pc0));
            }
        }
        r
    }

    /// `char c`
    fn gen_char(&mut self, c: char) -> (r: Result<(), CodeGenError>)
        requires
            old(self).wf(),
        ensures
            final(self).wf(),
            match r {
                Ok(()) => {
                    &&& old(self).pc + 1 <= usize::MAX
                    &&& final(self).insts@ == old(self).insts@.push(Instruction::Char(c))
                    &&& final(self).pc == old(self).pc + 1
                },
                Err(e) => old(self).pc + 1 > usize::MAX && e == CodeGenError::PCOverFlow,
            },
    {
        self.inc_pc()?;
        self.insts.push(Instruction::Char(c));
        Ok(())
    }

    /// ```text
    ///     split L1, L2
    /// L1: code of ast1
    ///     jmp L3
    /// L2: code of ast2
    /// L3:
    /// ```
    fn gen_or(&mut self, ast1: &AST, ast2: &AST, Ghost(whole): Ghost<AST>) -> (r: Result<
        (),
        CodeGenError,
    >)
        requires
            old(self).wf(),
            whole == AST::Or(Box::new(*ast1), Box::new(*ast2)),
        ensures
            final(self).wf(),
            match r {
                Ok(()) => {
                    &&& old(self).pc + code_len(ast1@) + code_len(ast2@) + 2 <= usize::MAX
                    &&& final(self).insts@ == old(self).insts@ + compile(
                        Re::Or(Box::new(ast1@), Box::new(ast2@)),
                        old(self).pc as int,
                    )
                    &&& final(self).pc == old(self).pc + code_len(ast1@) + code_len(ast2@) + 2
                },
                Err(e) => old(self).pc + code_len(ast1@) + code_len(ast2@) + 2 > usize::MAX
                    && e == CodeGenError::PCOverFlow,
            },
        decreases whole, 0nat,
    {
        let ghost old_insts = self.insts@;
        proof {
            assert(decreases_to!(whole => whole->Or_0));
            assert(decreases_to!(whole => whole->Or_1));
        }
        let split_addr = self.pc;
        self.inc_pc()?;
        self.insts.push(Instruction::Split(self.pc, 0));
        self.gen_expr(ast1)?;
        let jmp_addr = self.pc;
        self.inc_pc()?;
        self.insts.push(Instruction::Jump(0));
        // L2
        if let Instruction::Split(l1, _) = self.insts[split_addr] {
            self.insts.set(split_addr, Instruction::Split(l1, self.pc));
        } else {
            return Err(CodeGenError::FailOr);
        }
        self.gen_expr(ast2)?;
        // L3
        if let Instruction::Jump(_) = self.insts[jmp_addr] {
            self.insts.set(jmp_addr, Instruction::Jump(self.pc));
        } else {
            return Err(CodeGenError::FailOr);
        }
        assert(self.insts@ =~= old_insts + compile(
            Re::Or(Box::new(ast1@), Box::new(ast2@)),
            split_addr as int,
        ));
        Ok(())
    }

    /// ```text
    /// L1: code of ast
    ///     split L1, L2
    /// L2:
    /// ```
    fn gen_plus(&mut self, ast: &AST) -> (r: Result<(), CodeGenError>)
        requires
            old(self).wf(),
        ensures
            final(self).wf(),
            match r {
                Ok(()) => {
                    &&& old(self).pc + code_len(ast@) + 1 <= usize::MAX
                    &&& final(self).insts@ == old(self).insts@ + compile(
                        Re::Plus(Box::new(ast@)),
                        old(self).pc as int,
                    )
                    &&& final(self).pc == old(self).pc + code_len(ast@) + 1
                },
                Err(e) => old(self).pc + code_len(ast@) + 1 > usize::MAX && e
                    == CodeGenError::PCOverFlow,
            },
        decreases ast, 2nat,
    {
        let ghost old_insts = self.insts@;
        let l1 = self.pc;
        self.gen_expr(ast)?;
        self.inc_pc()?;
        self.insts.push(Instruction::Split(l1, self.pc));
        assert(self.insts@ =~= old_insts + compile(Re::Plus(Box::new(ast@)), l1 as int));
        Ok(())
    }

    /// ```text
    /// L1: split L2, L3
    /// L2: code of ast
    ///     jmp L1
    /// L3:
    /// ```
    fn gen_star(&mut self, ast: &AST) -> (r: Result<(), CodeGenError>)
        requires
            old(self).wf(),
        ensures
            final(self).wf(),
            match r {
                Ok(()) => {
                    &&& old(self).pc + code_len(ast@) + 2 <= usize::MAX
                    &&& final(self).insts@ == old(self).insts@ + seq![
                        Instruction::Split(
                            (old(self).pc + 1) as usize,
                            (old(self).pc + code_len(ast@) + 2) as usize,
                        ),
                    ] + compile(ast@, old(self).pc + 1) + seq![Instruction::Jump(old(self).pc)]
                    &&& final(self).pc == old(self).pc + code_len(ast@) + 2
                },
                Err(e) => old(self).pc + code_len(ast@) + 2 > usize::MAX && e
                    == CodeGenError::PCOverFlow,
            },
        decreases ast, 2nat,
    {
        let ghost old_insts = self.insts@;
        let l1 = self.pc;
        self.inc_pc()?;
        self.insts.push(Instruction::Split(self.pc, 0));
        self.gen_expr(ast)?;
        self.inc_pc()?;
        self.insts.push(Instruction::Jump(l1));
        // L3
        if let Instruction::Split(l2, _) = self.insts[l1] {
            self.insts.set(l1, Instruction::Split(l2, self.pc));
        } else {
            return Err(CodeGenError::FailStar);
        }
        assert(self.insts@ =~= old_insts + seq![
            Instruction::Split((l1 + 1) as usize, (l1 + code_len(ast@) + 2) as usize),
        ] + compile(ast@, l1 + 1) + seq![Instruction::Jump(l1)]);
        Ok(())
    }

    /// ```text
    ///     split L1, L2
    /// L1: code of ast
    /// L2:
    /// ```
    fn gen_question(&mut self, ast: &AST) -> (r: Result<(), CodeGenError>)
        requires
            old(self).wf(),
        ensures
            final(self).wf(),
            match r {
                Ok(()) => {
                    &&& old(self).pc + code_len(ast@) + 1 <= usize::MAX
                    &&& final(self).insts@ == old(self).insts@ + compile(
                        Re::Question(Box::new(ast@)),
                        old(self).pc as int,
                    )
                    &&& final(self).pc == old(self).pc + code_len(ast@) + 1
                },
                Err(e) => old(self).pc + code_len(ast@) + 1 > usize::MAX && e
                    == CodeGenError::PCOverFlow,
            },
        decreases ast, 2nat,
    {
        let ghost old_insts = self.insts@;
        let split_addr = self.pc;
        self.inc_pc()?;
        self.insts.push(Instruction::Split(self.pc, 0));
        self.gen_expr(ast)?;
        // L2
        if let Instruction::Split(l1, _) = self.insts[split_addr] {
            self.insts.set(split_addr, Instruction::Split(l1, self.pc));
        } else {
            return Err(CodeGenError::FailQuestion);
        }
        assert(self.insts@ =~= old_insts + compile(
            Re::Question(Box::new(ast@)),
            split_addr as int,
        ));
        Ok(())
    }

    /// The code of each element in turn.
    fn gen_seq(&mut self, asts: &Vec<AST>) -> (r: Result<(), CodeGenError>)
        requires
            old(self).wf(),
        ensures
            final(self).wf(),
            ({
                let s = views(asts@);
                match r {
                    Ok(()) => {
                        &&& old(self).pc + seq_code_len(s) <= usize::MAX
                        &&& final(self).insts@ == old(self).insts@ + compile_seq(
                            s,
                            old(self).pc as int,
                        )
                        &&& final(self).pc == old(self).pc + seq_code_len(s)
                    },
                    Err(e) => old(self).pc + seq_code_len(s) > usize::MAX && e
                        == CodeGenError::PCOverFlow,
                }
            }),
        decreases asts, 2nat,
    {
        let ghost s = views(asts@);
        let ghost pc0 = self.pc as int;
        let ghost old_insts = self.insts@;
        let mut k: usize = 0;
        while k < asts.len()
            invariant
                0 <= k <= asts.len(),
                s == views(asts@),
                pc0 == old(self).pc,
                old_insts == old(self).insts@,
                self.wf(),
                pc0 + seq_code_len(s.take(k as int)) <= usize::MAX,
                self.insts@ == old_insts + compile_seq(s.take(k as int), pc0),
                self.pc == pc0 + seq_code_len(s.take(k as int)),
            decreases asts.len() - k,
        {
            let ghost before = s.take(k as int);
            assert(s.take(k + 1).drop_last() =~= before);
            let r = self.gen_expr(&asts[k]);
            if r.is_err() {
                proof {
                    assert(s.take(k + 1).last() == s[k as int]);
                    lemma_seq_code_len_prefix(s, k as int + 1);
                }
                return r;
            }
            k = k + 1;
        }
        assert(s.take(k as int) =~= s);
        Ok(())
    }
}

/// The code length of a concatenation grows with its prefix.
proof fn lemma_seq_code_len_prefix(s: Seq<Re>, n: int)
    requires
        0 <= n <= s.len(),
    ensures
        seq_code_len(s.take(n)) <= seq_code_len(s),
    decreases s.len() - n,
{
    if n < s.len() {
        lemma_seq_code_len_prefix(s, n + 1);
        assert(s.take(n + 1).drop_last() =~= s.take(n));
    } else {
        assert(s.take(n) =~= s);
    }
}

} // verus!
