use regex_vm::codegen::{get_code, Generator};
use regex_vm::engine::{do_matching, explain, EngineError};
use regex_vm::evaluator::{eval, EvalError, Strategy};
use regex_vm::instruction::Instruction;
use regex_vm::parser::{parse, ParseError};

#[test]
fn test_matching() {
    // parse errors
    assert!(do_matching("+b", "bbb", true).is_err());
    assert!(do_matching("*b", "bbb", true).is_err());
    assert!(do_matching("|b", "bbb", true).is_err());
    assert!(do_matching("?b", "bbb", true).is_err());

    // parsed, matched
    assert!(do_matching("abc|def", "def", true).unwrap());
    assert!(do_matching("(abc)*", "abcabc", true).unwrap());
    assert!(do_matching("(ab|cd)+", "abcdcd", true).unwrap());
    assert!(do_matching("abc?", "ab", true).unwrap());
    assert!(do_matching("abc?d", "abcd", true).unwrap());
    assert!(do_matching("abc?d", "abd", true).unwrap());
    assert!(do_matching("ab*", "a", true).unwrap());
    assert!(do_matching("ab*", "aabb", true).unwrap());
    assert!(do_matching("((ab+)+)+", "ababababab", true).unwrap());
    assert!(do_matching("((((a*)*)*)*)", "aaaaaaaaa", true).unwrap());
    assert!(do_matching("(a*)*b", "aaaaaaaaab", true).unwrap());
    assert!(do_matching("(a*)*b", "b", true).unwrap());
    assert!(do_matching("a**b", "aaaaaaaaab", true).unwrap());
    assert!(do_matching("a**b", "b", true).unwrap());

    // parsed, not matched
    assert!(!do_matching("abc|def", "efa", true).unwrap());
    assert!(!do_matching("(ab|cd)+", "", true).unwrap());
    assert!(!do_matching("abc?", "acb", true).unwrap());
}

#[test]
fn scenarios_both_strategies() {
    let cases: Vec<(&str, &str, bool)> = vec![
        ("abc|def", "def", true),
        ("(abc)*", "abcabc", true),
        ("(ab|cd)+", "abcdcd", true),
        ("abc?", "ab", true),
        ("abc?", "acb", false),
        ("a**b", "aaaaaaaaab", true),
        ("a**b", "b", true),
        ("(ab|cd)+", "", false),
    ];
    for (p, t, want) in cases {
        assert_eq!(do_matching(p, t, true), Ok(want), "depth-first {p} on {t}");
        assert_eq!(do_matching(p, t, false), Ok(want), "breadth-first {p} on {t}");
    }
}

#[test]
fn operator_without_operand_is_no_prev() {
    assert_eq!(do_matching("+b", "bbb", true), Err(EngineError::Parse(ParseError::NoPrev(0))));
    assert_eq!(do_matching("+b", "bbb", false), Err(EngineError::Parse(ParseError::NoPrev(0))));
    assert_eq!(do_matching("a||b", "a", false), Err(EngineError::Parse(ParseError::NoPrev(2))));
}

#[test]
fn parse_error_variants() {
    assert_eq!(parse("a\\b").err(), Some(ParseError::InvalidEscape(2, 'b')));
    assert_eq!(parse("ab)").err(), Some(ParseError::InvalidRightParen(2)));
    assert_eq!(parse("(ab").err(), Some(ParseError::NoRightParen));
    assert_eq!(parse("").err(), Some(ParseError::Empty));
    assert_eq!(parse("()").err(), Some(ParseError::Empty));
    assert!(parse("a\\*").is_ok());
    assert!(do_matching("a\\*", "a*", true).unwrap());
    assert!(!do_matching("a\\*", "aa", true).unwrap());
}

#[test]
fn parse_is_deterministic() {
    for p in ["abc|def", "(ab|cd)+", "((a*)*)*", "a\\(b?"] {
        let a = format!("{:?}", parse(p).unwrap());
        let b = format!("{:?}", parse(p).unwrap());
        assert_eq!(a, b);
    }
}

#[test]
fn program_ends_in_one_match() {
    for p in ["abc|def", "(abc)*", "(ab|cd)+", "abc?d", "((ab+)+)+", "(a*)*b"] {
        let code = get_code(&parse(p).unwrap()).unwrap();
        let n = code.len();
        assert_eq!(code[n - 1], Instruction::Match);
        for (k, inst) in code.iter().enumerate() {
            if k + 1 < n {
                assert_ne!(*inst, Instruction::Match);
            }
            match inst {
                Instruction::Jump(t) => assert!(*t <= n),
                Instruction::Split(a, b) => assert!(*a <= n && *b <= n),
                _ => {}
            }
        }
    }
}

#[test]
fn exact_code_of_alternation() {
    let code = get_code(&parse("a|b").unwrap()).unwrap();
    // a|b parses to Or(Seq[a], Seq[b])
    assert_eq!(
        code,
        vec![
            Instruction::Split(1, 3),
            Instruction::Char('a'),
            Instruction::Jump(4),
            Instruction::Char('b'),
            Instruction::Match,
        ]
    );
}

#[test]
fn nested_stars_compile_alike() {
    let one = get_code(&parse("a*").unwrap()).unwrap();
    let two = get_code(&parse("(a*)*").unwrap()).unwrap();
    let three = get_code(&parse("((a*)*)*").unwrap()).unwrap();
    assert_eq!(
        one,
        vec![Instruction::Split(1, 3), Instruction::Char('a'), Instruction::Jump(0), Instruction::Match]
    );
    assert_eq!(one, two);
    assert_eq!(one, three);
    for p in ["a*", "(a*)*", "((a*)*)*", "(a?)*", "(a*|b)*"] {
        for t in ["", "a", "aaaa", "b", "ab"] {
            assert!(do_matching(p, t, true).unwrap());
            assert!(do_matching(p, t, false).unwrap());
        }
    }
}

#[test]
fn strategies_agree_on_corpus() {
    let alphabet = ['a', 'b'];
    let mut patterns: Vec<String> = Vec::new();
    let atoms = ["a", "b", "(a|b)", "(ab)", "(a*)", "(b?)"];
    let ops = ["", "*", "+", "?"];
    for x in atoms {
        for o1 in ops {
            for y in atoms {
                for o2 in ops {
                    patterns.push(format!("{x}{o1}{y}{o2}"));
                    patterns.push(format!("{x}{o1}|{y}{o2}"));
                }
            }
        }
    }
    let mut texts: Vec<String> = vec![String::new()];
    for len in 1..=4u32 {
        for bits in 0..(1u32 << len) {
            let s: String = (0..len).map(|k| alphabet[((bits >> k) & 1) as usize]).collect();
            texts.push(s);
        }
    }
    for p in &patterns {
        for t in &texts {
            assert_eq!(do_matching(p, t, true), do_matching(p, t, false), "{p} on {t}");
        }
    }
}

#[test]
fn eval_rejects_targets_past_the_end() {
    let prog = vec![Instruction::Jump(5), Instruction::Match];
    assert_eq!(eval(&prog, &vec!['a'], Strategy::DepthFirst), Err(EvalError::InvalidPC));
    assert_eq!(eval(&prog, &vec!['a'], Strategy::BreadthFirst), Err(EvalError::InvalidPC));
    let fine = vec![Instruction::Split(1, 2), Instruction::Match];
    assert_eq!(eval(&fine, &vec![], Strategy::DepthFirst), Ok(true));
    assert_eq!(eval(&fine, &vec![], Strategy::BreadthFirst), Ok(true));
    let looping = vec![Instruction::Jump(0), Instruction::Match];
    assert_eq!(eval(&looping, &vec![], Strategy::DepthFirst), Ok(false));
    assert_eq!(eval(&looping, &vec![], Strategy::BreadthFirst), Ok(false));
}

#[test]
fn match_needs_no_full_consumption() {
    assert!(do_matching("ab", "abzzz", true).unwrap());
    assert!(do_matching("ab", "abzzz", false).unwrap());
    assert!(!do_matching("ab", "zab", false).unwrap());
}

#[test]
fn explain_dumps_tree_and_listing() {
    assert_eq!(
        explain("a*").unwrap(),
        "EXPR: a*\nAST : Sequence([Star(Char(a))])\nCODE: 0000 split 0001, 0003\n      0001 char a\n      0002 jump 0000\n      0003 match\n"
    );
    assert_eq!(
        explain("a|bc").unwrap(),
        "EXPR: a|bc\nAST : Or(Sequence([Char(a)]), Sequence([Char(b), Char(c)]))\nCODE: 0000 split 0001, 0003\n      0001 char a\n      0002 jump 0005\n      0003 char b\n      0004 char c\n      0005 match\n"
    );
    assert_eq!(explain("(a"), Err(EngineError::Parse(ParseError::NoRightParen)));
}

#[test]
fn explain_leaves_matching_unchanged() {
    for (p, t) in [("abc|def", "def"), ("(ab|cd)+", ""), ("a**b", "b"), ("abc?", "acb")] {
        let before = do_matching(p, t, true);
        let _ = explain(p);
        let after = do_matching(p, t, true);
        let _ = explain(p);
        assert_eq!(before, after);
        assert_eq!(do_matching(p, t, false), after);
    }
}

#[test]
fn generator_emits_into_its_buffer() {
    let ast = parse("ab?").unwrap();
    let mut g = Generator::new();
    g.gen_code(&ast).unwrap();
    assert_eq!(
        *g.insts_ref(),
        vec![Instruction::Char('a'), Instruction::Split(2, 3), Instruction::Char('b'), Instruction::Match]
    );
}
