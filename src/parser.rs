use vstd::prelude::*;
use crate::ast::{AST, Re, views};

verus! {

broadcast use vstd::std_specs::vec::group_vec_axioms;

/// Why a pattern could not be parsed; positions count characters from 0.
#[derive(Debug, Clone, Copy, PartialEq, Eq, Structural)]
pub enum ParseError {
    /// A backslash before a character that needs no escaping.
    InvalidEscape(usize, char),
    /// A closing parenthesis without an open group.
    InvalidRightParen(usize),
    /// `+`, `*`, `?` or `|` with nothing before it.
    NoPrev(usize),
    /// A group left open at the end of the pattern.
    NoRightParen,
    /// A pattern that holds nothing.
    Empty,
}

/// Where the parser stands after a prefix of the pattern: the elements of the
/// open concatenation, the alternatives closed so far by `|`, the saved pairs
/// of the enclosing groups, and whether a backslash is waiting.
pub struct ParseState {
    pub seq: Seq<Re>,
    pub alts: Seq<Re>,
    pub stack: Seq<(Seq<Re>, Seq<Re>)>,
    pub escape: bool,
}

/// The characters that a backslash may escape.
pub open spec fn is_escapable(c: char) -> bool {
    c == '\\' || c == '(' || c == '|' || c == '+' || c == '*' || c == '?'
}

/// Alternatives folded to the right: `[a, b, c]` becomes `a | (b | c)`, so
/// that the first one written is tried first.
pub open spec fn fold_alts(alts: Seq<Re>) -> Option<Re>
    decreases alts.len(),
{
    if alts.len() == 0 {
        None
    } else if alts.len() == 1 {
        Some(alts[0])
    } else {
        Some(Re::Or(Box::new(alts[0]), Box::new(fold_alts(alts.drop_first())->Some_0)))
    }
}

/// What a group yields when it closes: its open concatenation, if not empty,
/// joins its alternatives, which are then folded.
pub open spec fn close_group(seq: Seq<Re>, alts: Seq<Re>) -> Option<Re> {
    fold_alts(
        if seq.len() > 0 {
            alts.push(Re::Sequence(seq))
        } else {
            alts
        },
    )
}

/// `+`, `*` or `?` applied to `r`.
pub open spec fn postfix(c: char, r: Re) -> Re {
    if c == '+' {
        Re::Plus(Box::new(r))
    } else if c == '*' {
        Re::Star(Box::new(r))
    } else {
        Re::Question(Box::new(r))
    }
}

pub open spec fn initial_state() -> ParseState {
    ParseState { seq: seq![], alts: seq![], stack: seq![], escape: false }
}

/// The parser reads character `c` at position `pos`.
pub open spec fn parse_step(st: ParseState, pos: int, c: char) -> Result<ParseState, ParseError> {
    if st.escape {
        if is_escapable(c) {
            Ok(ParseState { seq: st.seq.push(Re::Char(c)), alts: st.alts, stack: st.stack, escape: false })
        } else {
            Err(ParseError::InvalidEscape(pos as usize, c))
        }
    } else if c == '+' || c == '*' || c == '?' {
        if st.seq.len() == 0 {
            Err(ParseError::NoPrev(pos as usize))
        } else {
            Ok(ParseState {
                seq: st.seq.drop_last().push(postfix(c, st.seq.last())),
                alts: st.alts,
                stack: st.stack,
                escape: false,
            })
        }
    } else if c == '(' {
        Ok(ParseState { seq: seq![], alts: seq![], stack: st.stack.push((st.seq, st.alts)), escape: false })
    } else if c == ')' {
        if st.stack.len() == 0 {
            Err(ParseError::InvalidRightParen(pos as usize))
        } else {
            let prev = st.stack.last().0;
            Ok(ParseState {
                seq: match close_group(st.seq, st.alts) {
                    Some(r) => prev.push(r),
                    None => prev,
                },
                alts: st.stack.last().1,
                stack: st.stack.drop_last(),
                escape: false,
            })
        }
    } else if c == '|' {
        if st.seq.len() == 0 {
            Err(ParseError::NoPrev(pos as usize))
        } else {
            Ok(ParseState { seq: seq![], alts: st.alts.push(Re::Sequence(st.seq)), stack: st.stack, escape: false })
        }
    } else if c == '\\' {
        Ok(ParseState { seq: st.seq, alts: st.alts, stack: st.stack, escape: true })
    } else {
        Ok(ParseState { seq: st.seq.push(Re::Char(c)), alts: st.alts, stack: st.stack, escape: false })
    }
}

/// The parser's state after the first `k` characters of `s`, or the first error.
pub open spec fn parse_prefix(s: Seq<char>, k: nat) -> Result<ParseState, ParseError>
    decreases k,
{
    if k == 0 {
        Ok(initial_state())
    } else {
        match parse_prefix(s, (k - 1) as nat) {
            Err(e) => Err(e),
            Ok(st) => parse_step(st, k - 1, s[k - 1]),
        }
    }
}

/// The result of parsing the whole of `s`. A backslash at the very end is
/// ignored.
pub open spec fn parse_spec(s: Seq<char>) -> Result<Re, ParseError> {
    match parse_prefix(s, s.len()) {
        Err(e) => Err(e),
        Ok(st) => if st.stack.len() > 0 {
            Err(ParseError::NoRightParen)
        } else {
            match close_group(st.seq, st.alts) {
                Some(r) => Ok(r),
                None => Err(ParseError::Empty),
            }
        },
    }
}

/// Parsing is a function of the pattern: the same characters give the same
/// tree, or the same error.
pub proof fn lemma_parse_deterministic(a: Seq<char>, b: Seq<char>)
    requires
        a == b,
    ensures
        parse_spec(a) == parse_spec(b),
{
}

proof fn lemma_prefix_err(s: Seq<char>, k: nat, e: ParseError)
    requires
        k <= s.len(),
        parse_prefix(s, k) == Err::<ParseState, ParseError>(e),
    ensures
        parse_spec(s) == Err::<Re, ParseError>(e),
    decreases s.len() - k,
{
    if k < s.len() {
        lemma_prefix_err(s, k + 1, e);
    }
}

proof fn lemma_view_sequence(v: Vec<AST>)
    ensures
        AST::Sequence(v)@ == Re::Sequence(views(v@)),
{
    assert(AST::Sequence(v)@->Sequence_0 =~= views(v@));
}

/// An escaped character: one of `\ ( | + * ?`, taken literally.
fn parse_escape(pos: usize, c: char) -> (r: Result<AST, ParseError>)
    ensures
        match r {
            Ok(a) => is_escapable(c) && a@ == Re::Char(c),
            Err(e) => !is_escapable(c) && e == ParseError::InvalidEscape(pos, c),
        },
{
    match c {
        '\\' | '(' | '|' | '+' | '*' | '?' => Ok(AST::Char(c)),
        _ => {
            let err = ParseError::InvalidEscape(pos, c);
            Err(err)
        },
    }
}

/// The postfix operators.
enum PSQ {
    Plus,
    Star,
    Question,
}

/// The operator character of a postfix operator.
spec fn psq_char(t: PSQ) -> char {
    match t {
        PSQ::Plus => '+',
        PSQ::Star => '*',
        PSQ::Question => '?',
    }
}

/// Applies `+`, `*` or `?` to the last element of `seq`; an operator with
/// nothing before it is an error.
fn parse_plus_star_question(seq: &mut Vec<AST>, ast_type: PSQ, pos: usize) -> (r: Result<(), ParseError>)
    ensures
        match r {
            Ok(()) => old(seq).len() > 0 && views(final(seq)@) == views(old(seq)@).drop_last().push(
                postfix(psq_char(ast_type), views(old(seq)@).last()),
            ),
            Err(e) => old(seq).len() == 0 && e == ParseError::NoPrev(pos) && final(seq)@ == old(seq)@,
        },
{
    let ghost before = views(seq@);
    match seq.pop() {
        Some(prev) => {
            let ast = match ast_type {
                PSQ::Plus => AST::Plus(Box::new(prev)),
                PSQ::Star => AST::Star(Box::new(prev)),
                PSQ::Question => AST::Question(Box::new(prev)),
            };
            seq.push(ast);
            assert(views(seq@) =~= before.drop_last().push(postfix(psq_char(ast_type), before.last())));
            Ok(())
        },
        None => Err(ParseError::NoPrev(pos)),
    }
}

/// Folds alternatives to the right: `a | bc | def` becomes
/// `Or(a, Or(bc, def))`.
fn fold_or(seq_or: Vec<AST>) -> (r: Option<AST>)
    ensures
        match r {
            Some(a) => fold_alts(views(seq_or@)) == Some(a@),
            None => fold_alts(views(seq_or@)) is None,
        },
{
    let ghost all = views(seq_or@);
    let mut seq_or = seq_or;
    if seq_or.len() > 1 {
        let mut ast = seq_or.pop().unwrap();
        assert(all.subrange(all.len() - 1, all.len() as int) =~= seq![ast@]);
        while seq_or.len() > 0
            invariant
                0 <= seq_or.len() < all.len(),
                views(seq_or@) == all.subrange(0, seq_or.len() as int),
                fold_alts(all.subrange(seq_or.len() as int, all.len() as int)) == Some(ast@),
            decreases seq_or.len(),
        {
            let ghost k = seq_or.len() as int;
            let ghost before = seq_or@;
            let s = seq_or.pop().unwrap();
            assert(views(before)[k - 1] == before[k - 1]@);
            assert(views(seq_or@) =~= all.subrange(0, k - 1));
            assert(all.subrange(k - 1, all.len() as int).drop_first() =~= all.subrange(k, all.len() as int));
            assert(all[k - 1] == s@);
            ast = AST::Or(Box::new(s), Box::new(ast));
        }
        assert(all.subrange(0, all.len() as int) =~= all);
        Some(ast)
    } else {
        seq_or.pop()
    }
}

proof fn lemma_view_char(c: char)
    ensures
        AST::Char(c)@ == Re::Char(c),
{
}

proof fn lemma_views_push(v: Seq<AST>, a: AST)
    ensures
        views(v.push(a)) == views(v).push(a@),
{
    assert(views(v.push(a)) =~= views(v).push(a@));
}

/// The model of the stack of saved groups.
pub open spec fn stack_view(stack: Seq<(Vec<AST>, Vec<AST>)>) -> Seq<(Seq<Re>, Seq<Re>)> {
    stack.map_values(|p: (Vec<AST>, Vec<AST>)| (views(p.0@), views(p.1@)))
}

proof fn lemma_stack_push(stack: Seq<(Vec<AST>, Vec<AST>)>, p: (Vec<AST>, Vec<AST>))
    ensures
        stack_view(stack.push(p)) == stack_view(stack).push((views(p.0@), views(p.1@))),
{
    assert(stack_view(stack.push(p)) =~= stack_view(stack).push((views(p.0@), views(p.1@))));
}

proof fn lemma_stack_pop(stack: Seq<(Vec<AST>, Vec<AST>)>)
    requires
        stack.len() > 0,
    ensures
        stack_view(stack.drop_last()) == stack_view(stack).drop_last(),
        stack_view(stack).last() == (views(stack.last().0@), views(stack.last().1@)),
{
    assert(stack_view(stack.drop_last()) =~= stack_view(stack).drop_last());
}

/// Relies on str::chars: it yields the characters of the string, in order.
#[verifier::external_body]
pub(crate) fn chars_of(s: &str) -> (r: Vec<char>)
    ensures
        r@ == s@,
{
    s.chars().collect()
}

/// Parses a pattern into its syntax tree.
pub fn parse(expr: &str) -> (r: Result<AST, ParseError>)
    ensures
        match r {
            Ok(a) => parse_spec(expr@) == Ok::<Re, ParseError>(a@),
            Err(e) => parse_spec(expr@) == Err::<Re, ParseError>(e),
        },
{
    let chars = chars_of(expr);
    // the open concatenation
    let mut seq: Vec<AST> = Vec::new();
    // the alternatives closed by `|` in the open group
    let mut seq_or: Vec<AST> = Vec::new();
    // the saved pairs of the enclosing groups
    let mut stack: Vec<(Vec<AST>, Vec<AST>)> = Vec::new();
    // a backslash is waiting
    let mut escape = false;
    let mut i: usize = 0;
    proof {
        assert(views(seq@) =~= seq![]);
        assert(views(seq_or@) =~= seq![]);
        assert(stack_view(stack@) =~= seq![]);
    }
    while i < chars.len()
        invariant
            chars@ == expr@,
            0 <= i <= chars.len(),
            parse_prefix(expr@, i as nat) == Ok::<ParseState, ParseError>(
                ParseState { seq: views(seq@), alts: views(seq_or@), stack: stack_view(stack@), escape },
            ),
        decreases chars.len() - i,
    {
        let c = chars[i];
        let ghost st = ParseState { seq: views(seq@), alts: views(seq_or@), stack: stack_view(stack@), escape };
        assert(parse_prefix(expr@, (i + 1) as nat) == parse_step(st, i as int, c));
        if escape {
            match parse_escape(i, c) {
                Ok(ast) => {
                    proof {
                        lemma_views_push(seq@, ast);
                    }
                    seq.push(ast);
                    escape = false;
                },
                Err(e) => {
                    proof {
                        lemma_prefix_err(expr@, (i + 1) as nat, e);
                    }
                    return Err(e);
                },
            }
        } else if c == '+' || c == '*' || c == '?' {
            let t = if c == '+' {
                PSQ::Plus
            } else if c == '*' {
                PSQ::Star
            } else {
                PSQ::Question
            };
            match parse_plus_star_question(&mut seq, t, i) {
                Ok(()) => {
                    assert(psq_char(t) == c);
                },
                Err(e) => {
                    proof {
                        lemma_prefix_err(expr@, (i + 1) as nat, e);
                    }
                    return Err(e);
                },
            }
        } else if c == '(' {
            let prev = seq;
            let prev_or = seq_or;
            proof {
                lemma_stack_push(stack@, (prev, prev_or));
            }
            stack.push((prev, prev_or));
            seq = Vec::new();
            seq_or = Vec::new();
            assert(views(seq@) =~= seq![]);
            assert(views(seq_or@) =~= seq![]);
        } else if c == ')' {
            let ghost stack0 = stack@;
            match stack.pop() {
                Some(pair) => {
                    proof {
                        lemma_stack_pop(stack0);
                    }
                    let (mut prev, prev_or) = pair;
                    let cur = seq;
                    let mut alts = seq_or;
                    if cur.len() > 0 {
                        proof {
                            lemma_views_push(alts@, AST::Sequence(cur));
                            lemma_view_sequence(cur);
                        }
                        alts.push(AST::Sequence(cur));
                    }
                    match fold_or(alts) {
                        Some(ast) => {
                            proof {
                                lemma_views_push(prev@, ast);
                            }
                            prev.push(ast);
                        },
                        None => {},
                    }
                    seq = prev;
                    seq_or = prev_or;
                },
                None => {
                    proof {
                        lemma_prefix_err(expr@, (i + 1) as nat, ParseError::InvalidRightParen(i));
                    }
                    return Err(ParseError::InvalidRightParen(i));
                },
            }
        } else if c == '|' {
            if seq.len() == 0 {
                proof {
                    lemma_prefix_err(expr@, (i + 1) as nat, ParseError::NoPrev(i));
                }
                return Err(ParseError::NoPrev(i));
            }
            let prev = seq;
            proof {
                lemma_views_push(seq_or@, AST::Sequence(prev));
                lemma_view_sequence(prev);
            }
            seq_or.push(AST::Sequence(prev));
            seq = Vec::new();
            assert(views(seq@) =~= seq![]);
        } else if c == '\\' {
            escape = true;
        } else {
            let ghost old_seq = seq@;
            seq.push(AST::Char(c));
            proof {
                lemma_view_char(c);
                lemma_views_push(old_seq, AST::Char(c));
            }
        }
        i = i + 1;
    }
    assert(chars@.len() == expr@.len());
    if stack.len() > 0 {
        return Err(ParseError::NoRightParen);
    }
    let cur = seq;
    let mut alts = seq_or;
    if cur.len() > 0 {
        proof {
            lemma_views_push(alts@, AST::Sequence(cur));
            lemma_view_sequence(cur);
        }
        alts.push(AST::Sequence(cur));
    }
    match fold_or(alts) {
        Some(ast) => Ok(ast),
        None => Err(ParseError::Empty),
    }
}

} // verus!
