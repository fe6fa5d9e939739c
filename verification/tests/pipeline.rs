use minicc::compile;
use minicc::grammar::{parse_function, parse_program, parse_statement};
use minicc::lexer::lex;
use minicc::lower::{
    generate_assembly, generate_function, generate_return, ASMFunction, ASMInstruction,
    ASMOperand, ASMProgram,
};
use minicc::emit::{emit_op, emit_program};
use minicc::grammar::lookahead_without_advance;
use minicc::parser::{Event, Parser};
use minicc::pretty::pretty_print;
use minicc::token::{Token, TokenKind};
use minicc::tree::{Child, Tree, TreeKind};
use minicc::CompileError;

const SOURCE: &str = "int main(void){return 2;}";

fn parsed_tree(source: &str) -> Tree {
    let mut p = Parser::new(lex(source));
    parse_program(&mut p).expect("should parse");
    p.build_tree().expect("should build")
}

#[test]
fn parse_and_build_yield_program_function_return_shape() {
    let tree = parsed_tree(SOURCE);
    assert_eq!(tree.kind, TreeKind::Program);
    assert_eq!(tree.children.len(), 1);
    let f = match &tree.children[0] {
        Child::Tree(f) => f,
        Child::Token(_) => panic!("program child should be a tree"),
    };
    assert_eq!(f.kind, TreeKind::Function);
    assert_eq!(f.children.len(), 8);
    match &f.children[1] {
        Child::Token(t) => {
            assert_eq!(t.kind, TokenKind::Identifier);
            assert_eq!(t.text, "main");
        }
        Child::Tree(_) => panic!("identifier position should hold a token"),
    }
    let body = match &f.children[6] {
        Child::Tree(b) => b,
        Child::Token(_) => panic!("body position should hold a tree"),
    };
    assert_eq!(body.kind, TreeKind::Return);
    assert_eq!(body.children.len(), 3);
    match &body.children[1] {
        Child::Token(t) => {
            assert_eq!(t.kind, TokenKind::Constant);
            assert_eq!(t.text, "2");
        }
        Child::Tree(_) => panic!("constant position should hold a token"),
    }
}

#[test]
fn tree_building_is_deterministic() {
    let t1 = parsed_tree(SOURCE);
    let t2 = parsed_tree(SOURCE);
    assert_eq!(t1, t2);
}

#[test]
fn lookahead_without_advancing_hits_the_fuel_guard() {
    let mut p = Parser::new(lex(SOURCE));
    let mut successes = 0u32;
    loop {
        match p.nth(0) {
            Ok(k) => {
                assert_eq!(k, TokenKind::Keyword);
                successes += 1;
                assert!(successes <= 256, "fuel should have run out by now");
            }
            Err(e) => {
                assert_eq!(e, CompileError::Stuck);
                break;
            }
        }
    }
    assert_eq!(successes, 256);
}

#[test]
fn adversarial_rule_terminates_with_liveness_fault() {
    let mut p = Parser::new(lex(SOURCE));
    assert_eq!(lookahead_without_advance(&mut p), CompileError::Stuck);
    // the guard reports the fault without consuming anything
    assert_eq!(p.pos, 0);
    assert!(p.events.is_empty());
}

#[test]
fn advancing_refills_fuel() {
    let mut p = Parser::new(lex(SOURCE));
    for _ in 0..200 {
        p.nth(0).unwrap();
    }
    assert!(p.eat(TokenKind::Keyword).unwrap());
    for _ in 0..256 {
        p.nth(0).unwrap();
    }
    assert_eq!(p.nth(0), Err(CompileError::Stuck));
}

#[test]
fn eat_mismatch_has_no_effect() {
    let mut p = Parser::new(lex(SOURCE));
    assert!(!p.eat(TokenKind::Semicolon).unwrap());
    assert_eq!(p.pos, 0);
    assert!(p.events.is_empty());
    assert!(p.eat(TokenKind::Keyword).unwrap());
    assert_eq!(p.pos, 1);
    assert_eq!(p.events, vec![Event::Advance]);
}

#[test]
fn expect_missing_token_names_it() {
    let mut p = Parser::new(lex("int main(void){return 2}"));
    assert_eq!(
        parse_program(&mut p),
        Err(CompileError::Expected(TokenKind::Semicolon))
    );
}

#[test]
fn program_must_begin_with_keyword() {
    let mut p = Parser::new(lex("main(void){return 2;}"));
    assert_eq!(parse_program(&mut p), Err(CompileError::ExpectedKeyword));
}

#[test]
fn empty_input_parses_to_empty_program() {
    let mut p = Parser::new(lex(""));
    assert_eq!(parse_program(&mut p), Ok(()));
    let tree = p.build_tree().unwrap();
    assert_eq!(tree.kind, TreeKind::Program);
    assert!(tree.children.is_empty());
}

#[test]
fn two_functions_parse_to_two_children() {
    let mut p = Parser::new(lex("int a(void){return 1;} int b(void){return 2;}"));
    assert_eq!(parse_program(&mut p), Ok(()));
    let tree = p.build_tree().unwrap();
    assert_eq!(tree.children.len(), 2);
}

#[test]
fn parse_statement_consumes_exactly_its_tokens() {
    let mut p = Parser::new(lex("return 5;"));
    assert_eq!(parse_statement(&mut p), Ok(()));
    assert_eq!(p.pos, 3);
    assert_eq!(
        p.events,
        vec![
            Event::Open {
                kind: TreeKind::Return
            },
            Event::Advance,
            Event::Advance,
            Event::Advance,
            Event::Close,
        ]
    );
}

#[test]
fn parse_function_accepts_one_group() {
    let mut p = Parser::new(lex("int f(void){return 0;}"));
    assert_eq!(parse_function(&mut p), Ok(()));
    assert_eq!(p.pos, 10);
}

#[test]
fn build_tree_rejects_log_not_ending_in_close() {
    let mut p = Parser::new(lex(""));
    p.events = vec![Event::Advance];
    assert_eq!(p.build_tree(), Err(CompileError::TreeIntegrity));
}

#[test]
fn build_tree_rejects_empty_log() {
    let p = Parser::new(lex(""));
    assert_eq!(p.build_tree(), Err(CompileError::TreeIntegrity));
}

#[test]
fn build_tree_rejects_undrained_tokens() {
    let mut p = Parser::new(lex("int"));
    p.events = vec![
        Event::Open {
            kind: TreeKind::Program,
        },
        Event::Close,
    ];
    assert_eq!(p.build_tree(), Err(CompileError::TreeIntegrity));
}

#[test]
fn lowering_the_minimal_program() {
    let tree = parsed_tree(SOURCE);
    let prog = generate_assembly(&tree).unwrap();
    assert_eq!(
        prog,
        ASMProgram(ASMFunction {
            identifier: "main".to_string(),
            instructions: vec![
                ASMInstruction::Mov {
                    src: ASMOperand::Imm(2),
                    dst: ASMOperand::Register,
                },
                ASMInstruction::Ret,
            ],
        })
    );
}

#[test]
fn lowering_rejects_wrong_root() {
    let tree = Tree {
        kind: TreeKind::Return,
        children: vec![],
    };
    assert_eq!(
        generate_assembly(&tree),
        Err(CompileError::LoweringStructure)
    );
}

#[test]
fn lowering_rejects_empty_program() {
    let tree = Tree {
        kind: TreeKind::Program,
        children: vec![],
    };
    assert_eq!(
        generate_assembly(&tree),
        Err(CompileError::LoweringStructure)
    );
}

#[test]
fn generate_function_rejects_missing_identifier() {
    let tree = Tree {
        kind: TreeKind::Function,
        children: vec![],
    };
    assert_eq!(
        generate_function(&tree),
        Err(CompileError::LoweringStructure)
    );
}

#[test]
fn generate_return_parses_the_constant() {
    let tree = Tree {
        kind: TreeKind::Return,
        children: vec![
            Child::Token(Token::keyword("return")),
            Child::Token(Token::constant("41")),
            Child::Token(Token::semicolon()),
        ],
    };
    assert_eq!(
        generate_return(&tree),
        Ok(vec![
            ASMInstruction::Mov {
                src: ASMOperand::Imm(41),
                dst: ASMOperand::Register,
            },
            ASMInstruction::Ret,
        ])
    );
}

#[test]
fn generate_return_rejects_oversized_constant() {
    let tree = Tree {
        kind: TreeKind::Return,
        children: vec![
            Child::Token(Token::keyword("return")),
            Child::Token(Token::constant("4294967296")),
            Child::Token(Token::semicolon()),
        ],
    };
    assert_eq!(generate_return(&tree), Err(CompileError::BadConstant));
}

#[test]
fn largest_constant_still_fits() {
    let out = compile("int main(void){return 4294967295;}").unwrap();
    assert_eq!(
        out,
        b"\t.globl\t_main\n_main:\n\tmovl\t$4294967295, %eax\n\tret\n".to_vec()
    );
}

#[test]
fn emit_op_formats_both_operands() {
    assert_eq!(emit_op(&ASMOperand::Imm(42)), b"$42".to_vec());
    assert_eq!(emit_op(&ASMOperand::Imm(0)), b"$0".to_vec());
    assert_eq!(emit_op(&ASMOperand::Register), b"%eax".to_vec());
}

#[test]
fn emit_program_serializes_in_order() {
    let prog = ASMProgram(ASMFunction {
        identifier: "main".to_string(),
        instructions: vec![
            ASMInstruction::Mov {
                src: ASMOperand::Imm(2),
                dst: ASMOperand::Register,
            },
            ASMInstruction::Ret,
        ],
    });
    assert_eq!(
        emit_program(&prog),
        b"\t.globl\t_main\n_main:\n\tmovl\t$2, %eax\n\tret\n".to_vec()
    );
}

#[test]
fn end_to_end_minimal_program() {
    let out = compile(SOURCE).unwrap();
    let text = String::from_utf8(out).unwrap();
    assert_eq!(text, "\t.globl\t_main\n_main:\n\tmovl\t$2, %eax\n\tret\n");
    let globl = text.find(".globl\t_main").unwrap();
    let label = text.find("_main:").unwrap();
    let mov = text.find("movl\t$2, %eax").unwrap();
    let ret = text.find("\tret").unwrap();
    assert!(globl < label && label < mov && mov < ret);
}

#[test]
fn compile_reports_syntax_fault() {
    assert_eq!(
        compile("int main(void){return 2}"),
        Err(CompileError::Expected(TokenKind::Semicolon))
    );
}

#[test]
fn compile_reports_missing_keyword() {
    assert_eq!(
        compile("main(void){return 2;}"),
        Err(CompileError::ExpectedKeyword)
    );
}

#[test]
fn compile_rejects_empty_input() {
    assert_eq!(compile(""), Err(CompileError::LoweringStructure));
}

#[test]
fn compile_rejects_oversized_constant() {
    assert_eq!(
        compile("int main(void){return 4294967296;}"),
        Err(CompileError::BadConstant)
    );
}

#[test]
fn compile_takes_the_first_of_two_functions() {
    let out = compile("int a(void){return 1;} int b(void){return 2;}").unwrap();
    assert_eq!(
        out,
        b"\t.globl\t_a\n_a:\n\tmovl\t$1, %eax\n\tret\n".to_vec()
    );
}

#[test]
fn pretty_print_renders_the_minimal_program() {
    let tree = parsed_tree(SOURCE);
    let text = pretty_print(&tree, 0, true);
    assert_eq!(
        text,
        "Program(\n    Function(\n        name = \"main\"\n        body = Return(\n            Constant(2)\n        )\n    )\n)\n"
    );
}

#[test]
fn pretty_print_error_tree_is_bare() {
    let tree = Tree {
        kind: TreeKind::ErrorTree,
        children: vec![],
    };
    assert_eq!(pretty_print(&tree, 0, true), "ErrorTree(\n)\n");
    assert_eq!(pretty_print(&tree, 0, false), "");
}

#[test]
fn nth_past_end_reports_eof() {
    let mut p = Parser::new(lex("int"));
    assert_eq!(p.nth(0), Ok(TokenKind::Keyword));
    assert_eq!(p.nth(1), Ok(TokenKind::Eof));
    assert_eq!(p.nth(17), Ok(TokenKind::Eof));
    assert!(p.at(TokenKind::Keyword).unwrap());
    assert!(!p.at(TokenKind::Constant).unwrap());
}

#[test]
fn eof_tracks_the_cursor() {
    let mut p = Parser::new(lex("int"));
    assert!(!p.eof());
    p.advance();
    assert!(p.eof());
}
