use vstd::prelude::*;
use crate::codegen::{CodeGenError, code_len, get_code, lemma_program_shape, program_of};
use crate::evaluator::{EvalError, Strategy, accepts, eval};
use crate::instruction::valid_program;
use crate::ast::{AST, Re};
use crate::instruction::Instruction;
use crate::parser::{ParseError, chars_of, parse, parse_spec};
use crate::text::{decimal, decimal_padded, pad_left, string_of};

verus! {

/// An error of any stage of the engine.
#[derive(Debug, Clone, Copy, PartialEq, Eq, Structural)]
pub enum EngineError {
    Parse(ParseError),
    CodeGen(CodeGenError),
    Eval(EvalError),
}

/// What matching `line` against the pattern `expr`, anchored at its start,
/// yields: a parse error, an overflow of the program counter, or whether
/// the compiled program accepts.
pub open spec fn matching_result(expr: Seq<char>, line: Seq<char>) -> Result<bool, EngineError> {
    match parse_spec(expr) {
        Err(e) => Err(EngineError::Parse(e)),
        Ok(re) => if code_len(re) + 1 > usize::MAX {
            Err(EngineError::CodeGen(CodeGenError::PCOverFlow))
        } else {
            Ok(accepts(program_of(re), line))
        },
    }
}

/// Matches `line` against the pattern `expr`, anchored at the start of
/// `line`: depth-first where `is_depth` holds, breadth-first otherwise.
/// A match need not consume the whole line.
pub fn do_matching(expr: &str, line: &str, is_depth: bool) -> (r: Result<bool, EngineError>)
    ensures
        r == matching_result(expr@, line@),
{
    let ast = match parse(expr) {
        Ok(a) => a,
        Err(e) => return Err(EngineError::Parse(e)),
    };
    let code = match get_code(&ast) {
        Ok(c) => c,
        Err(e) => return Err(EngineError::CodeGen(e)),
    };
    proof {
        lemma_program_shape(ast@);
        assert(valid_program(code@));
    }
    let line = chars_of(line);
    let strategy = if is_depth {
        Strategy::DepthFirst
    } else {
        Strategy::BreadthFirst
    };
    match eval(&code, &line, strategy) {
        Ok(b) => Ok(b),
        Err(e) => Err(EngineError::Eval(e)),
    }
}

/// The text of a syntax tree, written as its constructors.
pub open spec fn ast_text(re: Re) -> Seq<char>
    decreases re,
{
    match re {
        Re::Char(c) => "Char("@ + seq![c] + ")"@,
        Re::Plus(a) => "Plus("@ + ast_text(*a) + ")"@,
        Re::Star(a) => "Star("@ + ast_text(*a) + ")"@,
        Re::Question(a) => "Question("@ + ast_text(*a) + ")"@,
        Re::Or(a, b) => "Or("@ + ast_text(*a) + ", "@ + ast_text(*b) + ")"@,
        Re::Sequence(v) => "Sequence(["@ + list_text(v) + "])"@,
    }
}

/// The texts of `v`, separated by commas.
pub open spec fn list_text(v: Seq<Re>) -> Seq<char>
    decreases v,
{
    if v.len() == 0 {
        seq![]
    } else if v.len() == 1 {
        ast_text(v[0])
    } else {
        list_text(v.drop_last()) + ", "@ + ast_text(v.last())
    }
}

/// An address in four digits.
pub open spec fn addr_text(a: usize) -> Seq<char> {
    pad_left(decimal(a as nat), 4, '0')
}

/// The mnemonic and operands of an instruction.
pub open spec fn inst_text(inst: Instruction) -> Seq<char> {
    match inst {
        Instruction::Char(c) => "char "@ + seq![c],
        Instruction::Match => "match"@,
        Instruction::Jump(t) => "jump "@ + addr_text(t),
        Instruction::Split(a, b) => "split "@ + addr_text(a) + ", "@ + addr_text(b),
    }
}

/// The listing of a program, one instruction per line after its address.
pub open spec fn listing(prog: Seq<Instruction>) -> Seq<char>
    decreases prog.len(),
{
    if prog.len() == 0 {
        seq![]
    } else {
        listing(prog.drop_last()) + line_text((prog.len() - 1) as usize, prog.last())
    }
}

/// The line of the listing for the instruction at address `k`.
pub open spec fn line_text(k: usize, inst: Instruction) -> Seq<char> {
    (if k == 0 {
        "CODE: "@
    } else {
        "      "@
    }) + addr_text(k) + " "@ + inst_text(inst) + "\n"@
}

/// What `explain` yields for a pattern: its text, its tree and its program,
/// or the error that stops compiling it.
pub open spec fn explain_result(expr: Seq<char>) -> Result<Seq<char>, EngineError> {
    match parse_spec(expr) {
        Err(e) => Err(EngineError::Parse(e)),
        Ok(re) => if code_len(re) + 1 > usize::MAX {
            Err(EngineError::CodeGen(CodeGenError::PCOverFlow))
        } else {
            Ok("EXPR: "@ + expr + "\n"@ + "AST : "@ + ast_text(re) + "\n"@ + listing(program_of(re)))
        },
    }
}

/// Appends the characters of `s`.
fn push_str(out: &mut Vec<char>, s: &str)
    ensures
        final(out)@ == old(out)@ + s@,
{
    let cs = chars_of(s);
    let mut k: usize = 0;
    while k < cs.len()
        invariant
            0 <= k <= cs.len(),
            cs@ == s@,
            out@ == old(out)@ + cs@.take(k as int),
        decreases cs.len() - k,
    {
        assert(cs@.take(k + 1) =~= cs@.take(k as int).push(cs@[k as int]));
        out.push(cs[k]);
        k = k + 1;
    }
    assert(cs@.take(k as int) =~= cs@);
}

/// Appends the characters of `s`.
fn push_chars(out: &mut Vec<char>, s: &Vec<char>)
    ensures
        final(out)@ == old(out)@ + s@,
{
    let mut k: usize = 0;
    while k < s.len()
        invariant
            0 <= k <= s.len(),
            out@ == old(out)@ + s@.take(k as int),
        decreases s.len() - k,
    {
        assert(s@.take(k + 1) =~= s@.take(k as int).push(s@[k as int]));
        out.push(s[k]);
        k = k + 1;
    }
    assert(s@.take(k as int) =~= s@);
}

/// Appends the text of a syntax tree.
fn write_ast(a: &AST, out: &mut Vec<char>)
    ensures
        final(out)@ == old(out)@ + ast_text(a@),
    decreases a,
{
    let ghost o = out@;
    match a {
        AST::Char(c) => {
            push_str(out, "Char(");
            out.push(*c);
            push_str(out, ")");
        },
        AST::Plus(e) => {
            push_str(out, "Plus(");
            write_ast(e, out);
            push_str(out, ")");
        },
        AST::Star(e) => {
            push_str(out, "Star(");
            write_ast(e, out);
            push_str(out, ")");
        },
        AST::Question(e) => {
            push_str(out, "Question(");
            write_ast(e, out);
            push_str(out, ")");
        },
        AST::Or(e1, e2) => {
            push_str(out, "Or(");
            write_ast(e1, out);
            push_str(out, ", ");
            write_ast(e2, out);
            push_str(out, ")");
        },
        AST::Sequence(v) => {
            push_str(out, "Sequence([");
            let ghost o2 = out@;
            let ghost s = crate::ast::views(v@);
            let mut k: usize = 0;
            while k < v.len()
                invariant
                    0 <= k <= v.len(),
                    s == crate::ast::views(v@),
                    *a == AST::Sequence(*v),
                    out@ == o2 + list_text(s.take(k as int)),
                decreases v.len() - k,
            {
                assert(s.take(k + 1).drop_last() =~= s.take(k as int));
                if k > 0 {
                    push_str(out, ", ");
                }
                proof {
                    assert(decreases_to!(*a => (*a)->Sequence_0));
                    assert(decreases_to!((*a)->Sequence_0 => (*a)->Sequence_0[k as int]));
                }
                write_ast(&v[k], out);
                k = k + 1;
            }
            assert(s.take(k as int) =~= s);
            push_str(out, "])");
            assert(a@->Sequence_0 =~= s);
        },
    }
    assert(out@ =~= o + ast_text(a@));
}

/// Appends an instruction's mnemonic and operands.
fn write_inst(inst: Instruction, out: &mut Vec<char>)
    ensures
        final(out)@ == old(out)@ + inst_text(inst),
{
    let ghost o = out@;
    match inst {
        Instruction::Char(c) => {
            push_str(out, "char ");
            out.push(c);
        },
        Instruction::Match => {
            push_str(out, "match");
        },
        Instruction::Jump(t) => {
            push_str(out, "jump ");
            push_chars(out, &decimal_padded(t, 4, '0'));
        },
        Instruction::Split(a, b) => {
            push_str(out, "split ");
            push_chars(out, &decimal_padded(a, 4, '0'));
            push_str(out, ", ");
            push_chars(out, &decimal_padded(b, 4, '0'));
        },
    }
    assert(out@ =~= o + inst_text(inst));
}

/// Appends the line of the listing for the instruction at address `k`.
fn write_line(k: usize, inst: Instruction, out: &mut Vec<char>)
    ensures
        final(out)@ == old(out)@ + line_text(k, inst),
{
    let ghost o = out@;
    if k == 0 {
        push_str(out, "CODE: ");
    } else {
        push_str(out, "      ");
    }
    push_chars(out, &decimal_padded(k, 4, '0'));
    push_str(out, " ");
    write_inst(inst, out);
    push_str(out, "\n");
    assert(out@ =~= o + line_text(k, inst));
}

/// Appends the listing of a program.
fn write_listing(prog: &Vec<Instruction>, out: &mut Vec<char>)
    ensures
        final(out)@ == old(out)@ + listing(prog@),
{
    let ghost o = out@;
    let mut k: usize = 0;
    while k < prog.len()
        invariant
            0 <= k <= prog.len(),
            out@ == o + listing(prog@.take(k as int)),
        decreases prog.len() - k,
    {
        assert(prog@.take(k + 1).drop_last() =~= prog@.take(k as int));
        write_line(k, prog[k], out);
        assert(out@ =~= o + listing(prog@.take(k + 1)));
        k = k + 1;
    }
    assert(prog@.take(k as int) =~= prog@);
}

/// A dump of a pattern for diagnostics: the pattern, its syntax tree and
/// its program, one instruction per line with its address. Nothing is
/// matched.
pub fn explain(expr: &str) -> (r: Result<String, EngineError>)
    ensures
        match r {
            Ok(s) => explain_result(expr@) == Ok::<Seq<char>, EngineError>(s@),
            Err(e) => explain_result(expr@) == Err::<Seq<char>, EngineError>(e),
        },
{
    let ast = match parse(expr) {
        Ok(a) => a,
        Err(e) => return Err(EngineError::Parse(e)),
    };
    let code = match get_code(&ast) {
        Ok(c) => c,
        Err(e) => return Err(EngineError::CodeGen(e)),
    };
    let mut out: Vec<char> = Vec::new();
    push_str(&mut out, "EXPR: ");
    push_str(&mut out, expr);
    push_str(&mut out, "\n");
    push_str(&mut out, "AST : ");
    write_ast(&ast, &mut out);
    push_str(&mut out, "\n");
    write_listing(&code, &mut out);
    proof {
        assert(out@ =~= "EXPR: "@ + expr@ + "\n"@ + "AST : "@ + ast_text(ast@) + "\n"@ + listing(code@));
    }
    Ok(string_of(&out))
}

/// `explain` is a pure function of the pattern and agrees with matching:
/// it fails exactly where matching fails, with the same error, and where it
/// succeeds matching yields whether the listed program accepts the line.
pub proof fn lemma_explain_agrees_with_matching(expr: Seq<char>, line: Seq<char>)
    ensures
        explain_result(expr) is Err <==> matching_result(expr, line) is Err,
        explain_result(expr) is Err ==> explain_result(expr)->Err_0 == matching_result(
            expr,
            line,
        )->Err_0,
        parse_spec(expr) is Ok && explain_result(expr) is Ok ==> matching_result(expr, line)
            == Ok::<bool, EngineError>(accepts(program_of(parse_spec(expr)->Ok_0), line)),
{
}

} // verus!
