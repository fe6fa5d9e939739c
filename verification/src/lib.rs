pub mod emit;
pub mod grammar;
pub mod lexer;
pub mod lower;
pub mod parser;
pub mod pretty;
pub mod token;
pub mod tree;

use vstd::prelude::*;

use crate::emit::{emit_program, emit_text};
use crate::grammar::{
    func_kinds, func_tree, funcs_matches, lemma_funcs_matches_div, lemma_grammar_log_builds,
    matches_pat, parse_program, program_error, program_events, program_tree, stmt_tree,
    token_kinds,
};
use crate::lexer::{lex, spec_lex};
use crate::lower::{
    func_body, func_ident_text, func_shape, generate_assembly, lower_instructions, prog_func,
    prog_shape, return_const_text, return_shape, u32_of_digits,
};
use crate::parser::{kind_or_eof, Parser};
use crate::token::{TokenKind, TokenV};
use crate::tree::{children_deep, lemma_children_deep, Child, ChildV, Tree};
use vstd::utf8::encode_utf8;

verus! {

/// A typed failure from one of the pipeline stages. Stages return these
/// instead of terminating the process, so that only the top-level driver
/// decides what to do with a failed compilation.
#[derive(Debug, PartialEq, Eq, Structural, Clone, Copy)]
pub enum CompileError {
    /// Engine-liveness fault: a grammar rule kept looking ahead without
    /// advancing until the fuel budget ran out.
    Stuck,
    /// Syntax fault: the token kind required at this position was absent.
    Expected(crate::token::TokenKind),
    /// Syntax fault at the top level: only a keyword may begin a construct.
    ExpectedKeyword,
    /// Tree-integrity fault: the event log was not well nested or the token
    /// sequence was not drained exactly.
    TreeIntegrity,
    /// Lowering-structure fault: the tree handed to lowering does not have
    /// the fixed shape the grammar produces.
    LoweringStructure,
    /// Lowering fault: the return value does not fit in an unsigned
    /// 32-bit immediate.
    BadConstant,
}

/// A tree that collapses from a grammar log with at least one function has
/// exactly the fixed shape lowering addresses by position.
proof fn lemma_program_tree_lowers(tree: Tree, toks: Seq<TokenV>, n: nat)
    requires
        tree.deep() == program_tree(toks, n),
        n >= 1,
        toks.len() == 10 * n,
        toks[1].kind == TokenKind::Identifier,
        toks[7].kind == TokenKind::Constant,
    ensures
        prog_shape(tree),
        func_shape(prog_func(tree)),
        return_shape(func_body(prog_func(tree))),
        func_ident_text(prog_func(tree)) == toks[1].text,
        return_const_text(func_body(prog_func(tree))) == toks[7].text,
{
    lemma_children_deep(tree.children@);
    assert(tree.deep().children == children_deep(tree.children@));
    assert(tree.children@.len() == n);
    assert(tree.children@[0].deep() == ChildV::Tree(func_tree(toks, 0)));
    let f = prog_func(tree);
    assert(tree.children@[0] matches Child::Tree(ft) && ft == f);
    assert(f.deep() == func_tree(toks, 0));
    lemma_children_deep(f.children@);
    assert(f.children@.len() == 8);
    assert(f.children@[1].deep() == ChildV::Token(toks[1]));
    assert(f.children@[1] matches Child::Token(tok1) && tok1@ == toks[1]);
    assert(f.children@[6].deep() == ChildV::Tree(stmt_tree(toks, 6)));
    let b = func_body(f);
    assert(f.children@[6] matches Child::Tree(bt) && bt == b);
    assert(b.deep() == stmt_tree(toks, 6));
    lemma_children_deep(b.children@);
    assert(b.children@.len() == 3);
    assert(b.children@[1].deep() == ChildV::Token(toks[7]));
    assert(b.children@[1] matches Child::Token(tok7) && tok7@ == toks[7]);
}

/// The whole pipeline on preprocessed text, end to end: lex, parse, build
/// the tree, lower it, emit assembly bytes. Succeeds exactly when the
/// lexed tokens spell at least one grammar-shaped function and the first
/// function's return constant fits an unsigned 32-bit immediate, and the
/// bytes are then, letter for letter, the assembly of that function.
#[verifier::rlimit(100)]
pub fn compile(source: &str) -> (r: Result<Vec<u8>, CompileError>)
    ensures
        ({
            let toks = spec_lex(source@, 0);
            let kinds = token_kinds(toks);
            &&& (r is Ok <==> funcs_matches(kinds, 0) && toks.len() >= 10 && u32_of_digits(
                toks[7].text,
            ) is Some)
            &&& (r matches Ok(out) ==> out@ == encode_utf8(
                emit_text(toks[1].text, lower_instructions(u32_of_digits(toks[7].text).unwrap())),
            ))
            &&& (!funcs_matches(kinds, 0) ==> r == Err::<Vec<u8>, CompileError>(
                program_error(kinds, 0),
            ))
            &&& (funcs_matches(kinds, 0) && toks.len() == 0 ==> r == Err::<Vec<u8>, CompileError>(
                CompileError::LoweringStructure,
            ))
            &&& (funcs_matches(kinds, 0) && toks.len() >= 10 && u32_of_digits(toks[7].text)
                is None ==> r == Err::<Vec<u8>, CompileError>(CompileError::BadConstant))
        }),
{
    let tokens = lex(source);
    let ghost toks = spec_lex(source@, 0);
    let ghost kinds = token_kinds(toks);
    let mut parser = Parser::new(tokens);
    proof {
        assert forall|i: int| 0 <= i < toks.len() implies parser.kinds()[i] == kinds[i] by {
            assert(parser.tokens.deep_view()[i] == toks[i]);
        }
        assert(parser.kinds() =~= kinds);
    }
    match parse_program(&mut parser) {
        Ok(()) => {},
        Err(e) => {
            proof {
                if toks.len() == 0 {
                    assert(false);
                }
                assert(!funcs_matches(kinds, 0));
            }
            return Err(e);
        },
    }
    let ghost n = ((toks.len() / 10) as nat);
    proof {
        if toks.len() == 0 {
            assert(funcs_matches(kinds, 0));
        } else {
            lemma_funcs_matches_div(kinds, 0);
        }
        assert(toks.len() == 10 * n);
        lemma_grammar_log_builds(toks, n);
        assert(parser.events@ =~= program_events(n));
        assert(parser.tokens.deep_view() == toks);
    }
    let tree = match parser.build_tree() {
        Ok(t) => t,
        Err(_) => {
            proof {
                assert(false);
            }
            return Err(CompileError::TreeIntegrity);
        },
    };
    proof {
        assert(tree.deep() == program_tree(toks, n));
        if n >= 1 {
            assert(matches_pat(kinds, 0, func_kinds()));
            assert(kind_or_eof(kinds, 1) == func_kinds()[1]);
            assert(kind_or_eof(kinds, 7) == func_kinds()[7]);
            assert(toks[1].kind == TokenKind::Identifier);
            assert(toks[7].kind == TokenKind::Constant);
            lemma_program_tree_lowers(tree, toks, n);
        } else {
            lemma_children_deep(tree.children@);
            assert(tree.children@.len() == 0);
        }
    }
    let prog = match generate_assembly(&tree) {
        Ok(p) => p,
        Err(e) => {
            return Err(e);
        },
    };
    let out = emit_program(&prog);
    Ok(out)
}

} // verus!
