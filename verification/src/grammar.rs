use vstd::prelude::*;

use crate::parser::{apply_event, build_spec, kind_or_eof, run_events, Event, Parser, FUEL};
use crate::token::{TokenKind, TokenV};
use crate::tree::{ChildV, TreeKind, TreeV};
use crate::CompileError;

verus! {

/// The token kinds of a return statement: `return <constant> ;`.
pub open spec fn stmt_kinds() -> Seq<TokenKind> {
    seq![TokenKind::Keyword, TokenKind::Constant, TokenKind::Semicolon]
}

/// The token kinds of a whole function:
/// `<type> <name> ( void ) { return <constant> ; }`.
pub open spec fn func_kinds() -> Seq<TokenKind> {
    seq![
        TokenKind::Keyword,
        TokenKind::Identifier,
        TokenKind::OpenParen,
        TokenKind::Keyword,
        TokenKind::CloseParen,
        TokenKind::OpenBrace,
        TokenKind::Keyword,
        TokenKind::Constant,
        TokenKind::Semicolon,
        TokenKind::CloseBrace,
    ]
}

/// The events a successful statement rule appends to the log.
pub open spec fn stmt_events() -> Seq<Event> {
    seq![
        Event::Open { kind: TreeKind::Return },
        Event::Advance,
        Event::Advance,
        Event::Advance,
        Event::Close,
    ]
}

/// The events a successful function rule appends to the log.
pub open spec fn func_events() -> Seq<Event> {
    seq![
        Event::Open { kind: TreeKind::Function },
        Event::Advance,
        Event::Advance,
        Event::Advance,
        Event::Advance,
        Event::Advance,
        Event::Advance,
        Event::Open { kind: TreeKind::Return },
        Event::Advance,
        Event::Advance,
        Event::Advance,
        Event::Close,
        Event::Advance,
        Event::Close,
    ]
}

/// The events a successful program rule appends for `n` functions, the
/// root's own `Close` included.
pub open spec fn program_body_events(n: nat) -> Seq<Event>
    decreases n,
{
    if n == 0 {
        Seq::empty()
    } else {
        program_body_events((n - 1) as nat) + func_events()
    }
}

pub open spec fn program_events(n: nat) -> Seq<Event> {
    seq![Event::Open { kind: TreeKind::Program }] + program_body_events(n) + seq![Event::Close]
}

/// The first `j` kinds of `pat` stand at `pos` onward.
pub open spec fn matches_upto(t: Seq<TokenKind>, pos: int, pat: Seq<TokenKind>, j: int) -> bool {
    forall|i: int| 0 <= i < j ==> kind_or_eof(t, pos + i) == pat[i]
}

/// All of `pat` stands at `pos` onward.
pub open spec fn matches_pat(t: Seq<TokenKind>, pos: int, pat: Seq<TokenKind>) -> bool {
    matches_upto(t, pos, pat, pat.len() as int)
}

/// From `pos` to the end of the kind sequence, the kinds form complete
/// function groups, one after the other.
pub open spec fn funcs_matches(t: Seq<TokenKind>, pos: int) -> bool
    decreases t.len() - pos
        when pos >= 0
{
    if pos >= t.len() {
        true
    } else if matches_pat(t, pos, func_kinds()) {
        proof {
            assert(kind_or_eof(t, pos + 9) == func_kinds()[9]);
        }
        funcs_matches(t, pos + 10)
    } else {
        false
    }
}

/// The syntax fault the program rule reports for the first function group
/// that does not match, assuming fuel never runs out.
pub open spec fn program_error(t: Seq<TokenKind>, pos: int) -> CompileError
    decreases t.len() - pos
        when pos >= 0
{
    if pos >= t.len() {
        CompileError::ExpectedKeyword
    } else if kind_or_eof(t, pos) != TokenKind::Keyword {
        CompileError::ExpectedKeyword
    } else if matches_pat(t, pos, func_kinds()) {
        proof {
            assert(kind_or_eof(t, pos + 9) == func_kinds()[9]);
        }
        program_error(t, pos + 10)
    } else {
        CompileError::Expected(func_kinds()[first_mismatch(t, pos, func_kinds())])
    }
}

/// The unique position at which `pat` first fails to stand at `pos`.
pub open spec fn first_mismatch(t: Seq<TokenKind>, pos: int, pat: Seq<TokenKind>) -> int {
    choose|j: int|
        0 <= j < pat.len() && matches_upto(t, pos, pat, j) && kind_or_eof(t, pos + j) != pat[j]
}

/// A pattern that does not stand at `pos` has a first mismatch: a position
/// below which everything matches and at which the kinds differ.
pub proof fn lemma_exists_first_mismatch(t: Seq<TokenKind>, pos: int, pat: Seq<TokenKind>, k: int)
    requires
        0 <= k <= pat.len(),
        matches_upto(t, pos, pat, k),
        !matches_pat(t, pos, pat),
    ensures
        exists|j: int|
            0 <= j < pat.len() && matches_upto(t, pos, pat, j) && kind_or_eof(t, pos + j) != pat[j],
    decreases pat.len() - k,
{
    if k == pat.len() {
        assert(false);
    } else if kind_or_eof(t, pos + k) != pat[k] {
        assert(0 <= k < pat.len() && matches_upto(t, pos, pat, k) && kind_or_eof(t, pos + k)
            != pat[k]);
    } else {
        assert(matches_upto(t, pos, pat, k + 1));
        lemma_exists_first_mismatch(t, pos, pat, k + 1);
    }
}

/// `statement := Keyword("return") Constant ";"`. Succeeds exactly when
/// those three kinds stand under the cursor (and fuel remains); on the
/// first kind that is absent it reports the syntax fault naming it, having
/// consumed the kinds before it.
pub fn parse_statement(p: &mut Parser) -> (r: Result<(), CompileError>)
    requires
        old(p).wf(),
    ensures
        final(p).tokens == old(p).tokens,
        final(p).wf(),
        old(p).events@.is_prefix_of(final(p).events@),
        r is Ok <==> (old(p).fuel > 0 && matches_pat(old(p).kinds(), old(p).pos as int, stmt_kinds())),
        old(p).fuel == 0 ==> r == Err::<(), CompileError>(CompileError::Stuck),
        old(p).fuel > 0 && matches_pat(old(p).kinds(), old(p).pos as int, stmt_kinds()) ==> final(p).pos
            == old(p).pos + 3 && final(p).events@ == old(p).events@ + stmt_events() && final(p).fuel == FUEL,
        old(p).fuel > 0 ==> forall|j: int|
            0 <= j < 3 && matches_upto(old(p).kinds(), old(p).pos as int, stmt_kinds(), j) && old(p).kind_at(old(p).pos + j) != stmt_kinds()[j] ==> r == Err::<(), CompileError>(
                CompileError::Expected(stmt_kinds()[j]),
            ) && final(p).pos == old(p).pos + j,
{
    let m = p.open();
    p.expect(TokenKind::Keyword)?;
    p.expect(TokenKind::Constant)?;
    p.expect(TokenKind::Semicolon)?;
    p.close(m, TreeKind::Return);
    proof {
        assert(p.events@ =~= old(p).events@ + stmt_events());
        assert(matches_pat(old(p).kinds(), old(p).pos as int, stmt_kinds()));
    }
    Ok(())
}

/// `function := Keyword(type) Identifier "(" Keyword("void") ")" "{"
/// statement "}"`. The cursor must stand on a keyword. Succeeds exactly
/// when the ten kinds of a function group stand under the cursor (and fuel
/// remains); on the first kind that is absent it reports the syntax fault
/// naming it.
pub fn parse_function(p: &mut Parser) -> (r: Result<(), CompileError>)
    requires
        old(p).wf(),
        old(p).kind_at(old(p).pos as int) == TokenKind::Keyword,
    ensures
        final(p).tokens == old(p).tokens,
        final(p).wf(),
        old(p).events@.is_prefix_of(final(p).events@),
        r is Ok <==> (old(p).fuel > 0 && matches_pat(old(p).kinds(), old(p).pos as int, func_kinds())),
        old(p).fuel == 0 ==> r == Err::<(), CompileError>(CompileError::Stuck),
        old(p).fuel > 0 && matches_pat(old(p).kinds(), old(p).pos as int, func_kinds()) ==> final(p).pos
            == old(p).pos + 10 && final(p).events@ == old(p).events@ + func_events() && final(p).fuel == FUEL,
        old(p).fuel > 0 ==> forall|j: int|
            0 <= j < 10 && matches_upto(old(p).kinds(), old(p).pos as int, func_kinds(), j) && old(p).kind_at(old(p).pos + j) != func_kinds()[j] ==> r == Err::<(), CompileError>(
                CompileError::Expected(func_kinds()[j]),
            ) && final(p).pos == old(p).pos + j,
{
    let m = p.open();
    p.expect(TokenKind::Keyword)?;
    p.expect(TokenKind::Identifier)?;
    p.expect(TokenKind::OpenParen)?;
    p.expect(TokenKind::Keyword)?;
    p.expect(TokenKind::CloseParen)?;
    p.expect(TokenKind::OpenBrace)?;
    parse_statement(p)?;
    p.expect(TokenKind::CloseBrace)?;
    p.close(m, TreeKind::Function);
    proof {
        assert(p.events@ =~= old(p).events@ + func_events());
        assert(matches_pat(old(p).kinds(), old(p).pos as int, func_kinds()));
    }
    Ok(())
}

/// `program := function*` at this engine level: while tokens remain, each
/// construct must begin with a keyword and parse as a function. Succeeds
/// exactly when the whole remaining token sequence is complete function
/// groups (and fuel suffices to begin), and then closes the mark as
/// `Program`.
#[verifier::loop_isolation(false)]
#[verifier::rlimit(100)]
pub fn parse_program(p: &mut Parser) -> (r: Result<(), CompileError>)
    requires
        old(p).wf(),
    ensures
        final(p).tokens == old(p).tokens,
        final(p).wf(),
        old(p).events@.is_prefix_of(final(p).events@),
        r is Ok <==> (old(p).pos == old(p).tokens@.len() || (old(p).fuel >= 2 && funcs_matches(
            old(p).kinds(),
            old(p).pos as int,
        ))),
        r is Ok ==> final(p).pos == old(p).tokens@.len() && final(p).events@ == old(p).events@
            + program_events((((old(p).tokens@.len() - old(p).pos) / 10) as nat)),
        old(p).pos < old(p).tokens@.len() && old(p).fuel == 0 ==> r == Err::<(), CompileError>(
            CompileError::Stuck,
        ),
        old(p).pos < old(p).tokens@.len() && old(p).fuel == 1 ==> r == Err::<(), CompileError>(
            if old(p).kind_at(old(p).pos as int) == TokenKind::Keyword {
                CompileError::Stuck
            } else {
                CompileError::ExpectedKeyword
            },
        ),
        old(p).pos < old(p).tokens@.len() && old(p).fuel >= 2 && !funcs_matches(
            old(p).kinds(),
            old(p).pos as int,
        ) ==> r == Err::<(), CompileError>(program_error(old(p).kinds(), old(p).pos as int)),
{
    let ghost p0 = *old(p);
    let m = p.open();
    while !p.eof()
        invariant
            p.wf(),
            p.tokens == p0.tokens,
            p0.pos <= p.pos,
            (p.pos - p0.pos) % 10 == 0,
            p.events@ == p0.events@.push(Event::Open { kind: TreeKind::ErrorTree })
                + program_body_events((((p.pos - p0.pos) / 10) as nat)),
            funcs_matches(p0.kinds(), p0.pos as int) == funcs_matches(p0.kinds(), p.pos as int),
            !funcs_matches(p0.kinds(), p0.pos as int) && p.pos < p.tokens@.len() ==> program_error(
                p0.kinds(),
                p0.pos as int,
            ) == program_error(p0.kinds(), p.pos as int),
            p.pos == p0.pos ==> p.fuel == p0.fuel,
            p.pos > p0.pos ==> p.fuel == FUEL && p0.fuel >= 2,
        decreases p.tokens@.len() - p.pos,
    {
        let ghost entry_pos = p.pos;
        let ghost entry_fuel = p.fuel;
        let at_kw = match p.at(TokenKind::Keyword) {
            Ok(b) => b,
            Err(e) => {
                proof {
                    assert(entry_fuel == 0);
                    assert(entry_pos == p0.pos && p0.fuel == 0);
                }
                return Err(e);
            },
        };
        if at_kw {
            let ghost q = p.pos as int;
            match parse_function(p) {
                Ok(()) => {
                    proof {
                        assert(matches_pat(p0.kinds(), q, func_kinds()));
                        assert(kind_or_eof(p0.kinds(), q + 9) == func_kinds()[9]);
                        assert(q + 10 <= p0.tokens@.len());
                        assert(funcs_matches(p0.kinds(), q) == funcs_matches(p0.kinds(), q + 10));
                        if !funcs_matches(p0.kinds(), p0.pos as int) && q + 10 < p0.tokens@.len() {
                            assert(program_error(p0.kinds(), q) == program_error(p0.kinds(), q + 10));
                        }
                        lemma_body_events_snoc(
                            p0.events@.push(Event::Open { kind: TreeKind::ErrorTree }),
                            (((q - p0.pos) / 10) as nat),
                        );
                        assert((((p.pos - p0.pos) / 10) as nat) == (((q - p0.pos) / 10) as nat)
                            + 1);
                    }
                },
                Err(e) => {
                    proof {
                        if e == CompileError::Stuck {
                            // only possible when this was the first group and the
                            // whole run began with exactly one unit of fuel
                            assert(entry_fuel == 1);
                            assert(entry_pos == p0.pos && p0.fuel == 1);
                            assert(p0.kind_at(p0.pos as int) == TokenKind::Keyword);
                        } else {
                            assert(!matches_pat(p0.kinds(), q, func_kinds()));
                            assert(!funcs_matches(p0.kinds(), q));
                            lemma_exists_first_mismatch(p0.kinds(), q, func_kinds(), 0);
                            let j = first_mismatch(p0.kinds(), q, func_kinds());
                            assert(0 <= j < 10 && matches_upto(p0.kinds(), q, func_kinds(), j)
                                && kind_or_eof(p0.kinds(), q + j) != func_kinds()[j]);
                            assert(e == CompileError::Expected(func_kinds()[j]));
                            assert(p0.kind_at(q) == TokenKind::Keyword);
                            assert(program_error(p0.kinds(), q) == e);
                        }
                    }
                    return Err(e);
                },
            }
        } else {
            proof {
                assert(kind_or_eof(p0.kinds(), p.pos as int) != TokenKind::Keyword);
                assert(kind_or_eof(p0.kinds(), p.pos as int + 0) != func_kinds()[0]);
                assert(!matches_pat(p0.kinds(), p.pos as int, func_kinds()));
                assert(!funcs_matches(p0.kinds(), p.pos as int));
                assert(program_error(p0.kinds(), p.pos as int) == CompileError::ExpectedKeyword);
            }
            return Err(CompileError::ExpectedKeyword);
        }
    }
    proof {
        assert(funcs_matches(p0.kinds(), p.pos as int));
    }
    proof {
        lemma_program_close_events(p0.events@, (((p0.tokens@.len() - p0.pos) / 10) as nat));
    }
    p.close(m, TreeKind::Program);
    Ok(())
}

/// Appending one function's events to a log holding `g` functions gives
/// the log of `g + 1` functions.
proof fn lemma_body_events_snoc(e0: Seq<Event>, g: nat)
    ensures
        (e0 + program_body_events(g)) + func_events() == e0 + program_body_events(g + 1),
{
    assert(program_body_events(g + 1) == program_body_events(g) + func_events());
    assert((e0 + program_body_events(g)) + func_events() =~= e0 + (program_body_events(g)
        + func_events()));
}

/// Patching the placeholder mark to `Program` and closing it turns the
/// program rule's working log into the finished one.
proof fn lemma_program_close_events(e0: Seq<Event>, n: nat)
    ensures
        (e0.push(Event::Open { kind: TreeKind::ErrorTree }) + program_body_events(n)).update(
            e0.len() as int,
            Event::Open { kind: TreeKind::Program },
        ).push(Event::Close) == e0 + program_events(n),
{
    assert((e0.push(Event::Open { kind: TreeKind::ErrorTree }) + program_body_events(n)).update(
        e0.len() as int,
        Event::Open { kind: TreeKind::Program },
    ).push(Event::Close) =~= e0 + program_events(n));
}

/// The kinds of a sequence of token values, in order.
pub open spec fn token_kinds(toks: Seq<TokenV>) -> Seq<TokenKind> {
    toks.map_values(|t: TokenV| t.kind)
}

/// The tree value the statement rule's events collapse to, over the three
/// tokens from `u` on.
pub open spec fn stmt_tree(toks: Seq<TokenV>, u: int) -> TreeV {
    TreeV {
        kind: TreeKind::Return,
        children: seq![
            ChildV::Token(toks[u]),
            ChildV::Token(toks[u + 1]),
            ChildV::Token(toks[u + 2]),
        ],
    }
}

/// The tree value the function rule's events collapse to, over the ten
/// tokens from `u` on: six signature tokens, the body, the closing brace.
pub open spec fn func_tree(toks: Seq<TokenV>, u: int) -> TreeV {
    TreeV {
        kind: TreeKind::Function,
        children: seq![
            ChildV::Token(toks[u]),
            ChildV::Token(toks[u + 1]),
            ChildV::Token(toks[u + 2]),
            ChildV::Token(toks[u + 3]),
            ChildV::Token(toks[u + 4]),
            ChildV::Token(toks[u + 5]),
            ChildV::Tree(stmt_tree(toks, u + 6)),
            ChildV::Token(toks[u + 9]),
        ],
    }
}

/// The tree value a whole grammar log collapses to: a `Program` with one
/// `Function` child per group of ten tokens.
pub open spec fn program_tree(toks: Seq<TokenV>, n: nat) -> TreeV {
    TreeV {
        kind: TreeKind::Program,
        children: Seq::new(n, |k: int| ChildV::Tree(func_tree(toks, 10 * k))),
    }
}

/// Replaying one more event applies it to the state so far.
pub proof fn lemma_run_push(s: Seq<Event>, e: Event, toks: Seq<TokenV>)
    ensures
        run_events(s.push(e), toks) == (match run_events(s, toks) {
            None => None,
            Some((stack, used)) => apply_event(stack, used, e, toks),
        }),
{
    assert(s.push(e).drop_last() =~= s);
    assert(s.push(e).last() == e);
}

/// Replaying a statement rule's events onto any state with an open frame
/// appends the statement's tree to that frame and pulls three tokens.
pub proof fn lemma_run_stmt(prefix: Seq<Event>, toks: Seq<TokenV>, stack: Seq<TreeV>, used: nat)
    requires
        run_events(prefix, toks) == Some((stack, used)),
        stack.len() >= 1,
        used + 3 <= toks.len(),
    ensures
        run_events(prefix + stmt_events(), toks) == Some(
            (
                stack.drop_last().push(
                    TreeV {
                        kind: stack.last().kind,
                        children: stack.last().children.push(
                            ChildV::Tree(stmt_tree(toks, used as int)),
                        ),
                    },
                ),
                (used + 3) as nat,
            ),
        ),
{
    let u = used as int;
    let s1 = prefix.push(Event::Open { kind: TreeKind::Return });
    lemma_run_push(prefix, Event::Open { kind: TreeKind::Return }, toks);
    let r0 = TreeV { kind: TreeKind::Return, children: Seq::<ChildV>::empty() };
    assert(run_events(s1, toks) == Some((stack.push(r0), used)));
    let s2 = s1.push(Event::Advance);
    lemma_run_push(s1, Event::Advance, toks);
    let r1 = TreeV { kind: TreeKind::Return, children: r0.children.push(ChildV::Token(toks[u])) };
    assert(stack.push(r0).drop_last() =~= stack);
    assert(run_events(s2, toks) == Some((stack.push(r1), (used + 1) as nat)));
    let s3 = s2.push(Event::Advance);
    lemma_run_push(s2, Event::Advance, toks);
    let r2 = TreeV {
        kind: TreeKind::Return,
        children: r1.children.push(ChildV::Token(toks[u + 1])),
    };
    assert(stack.push(r1).drop_last() =~= stack);
    assert(run_events(s3, toks) == Some((stack.push(r2), (used + 2) as nat)));
    let s4 = s3.push(Event::Advance);
    lemma_run_push(s3, Event::Advance, toks);
    let r3 = TreeV {
        kind: TreeKind::Return,
        children: r2.children.push(ChildV::Token(toks[u + 2])),
    };
    assert(stack.push(r2).drop_last() =~= stack);
    assert(run_events(s4, toks) == Some((stack.push(r3), (used + 3) as nat)));
    assert(r3.children =~= stmt_tree(toks, u).children);
    assert(r3 == stmt_tree(toks, u));
    let s5 = s4.push(Event::Close);
    lemma_run_push(s4, Event::Close, toks);
    assert(stack.push(r3).len() >= 2);
    assert(stack.push(r3).last() == r3);
    assert(stack.push(r3)[stack.push(r3).len() - 2] == stack.last());
    assert(stack.push(r3).drop_last().drop_last() =~= stack.drop_last());
    assert(run_events(s5, toks) == Some(
        (
            stack.drop_last().push(
                TreeV {
                    kind: stack.last().kind,
                    children: stack.last().children.push(ChildV::Tree(stmt_tree(toks, u))),
                },
            ),
            (used + 3) as nat,
        ),
    ));
    assert(prefix + stmt_events() =~= s5);
}

/// Replaying a function rule's events onto any state with an open frame
/// appends the function's tree to that frame and pulls ten tokens.
pub proof fn lemma_run_func(prefix: Seq<Event>, toks: Seq<TokenV>, stack: Seq<TreeV>, used: nat)
    requires
        run_events(prefix, toks) == Some((stack, used)),
        stack.len() >= 1,
        used + 10 <= toks.len(),
    ensures
        run_events(prefix + func_events(), toks) == Some(
            (
                stack.drop_last().push(
                    TreeV {
                        kind: stack.last().kind,
                        children: stack.last().children.push(
                            ChildV::Tree(func_tree(toks, used as int)),
                        ),
                    },
                ),
                (used + 10) as nat,
            ),
        ),
{
    let u = used as int;
    let s1 = prefix.push(Event::Open { kind: TreeKind::Function });
    lemma_run_push(prefix, Event::Open { kind: TreeKind::Function }, toks);
    let f0 = TreeV { kind: TreeKind::Function, children: Seq::<ChildV>::empty() };
    assert(run_events(s1, toks) == Some((stack.push(f0), used)));
    let s2 = s1.push(Event::Advance);
    lemma_run_push(s1, Event::Advance, toks);
    let f1 = TreeV { kind: TreeKind::Function, children: f0.children.push(ChildV::Token(toks[u])) };
    assert(stack.push(f0).drop_last() =~= stack);
    assert(run_events(s2, toks) == Some((stack.push(f1), (used + 1) as nat)));
    let s3 = s2.push(Event::Advance);
    lemma_run_push(s2, Event::Advance, toks);
    let f2 = TreeV {
        kind: TreeKind::Function,
        children: f1.children.push(ChildV::Token(toks[u + 1])),
    };
    assert(stack.push(f1).drop_last() =~= stack);
    assert(run_events(s3, toks) == Some((stack.push(f2), (used + 2) as nat)));
    let s4 = s3.push(Event::Advance);
    lemma_run_push(s3, Event::Advance, toks);
    let f3 = TreeV {
        kind: TreeKind::Function,
        children: f2.children.push(ChildV::Token(toks[u + 2])),
    };
    assert(stack.push(f2).drop_last() =~= stack);
    assert(run_events(s4, toks) == Some((stack.push(f3), (used + 3) as nat)));
    let s5 = s4.push(Event::Advance);
    lemma_run_push(s4, Event::Advance, toks);
    let f4 = TreeV {
        kind: TreeKind::Function,
        children: f3.children.push(ChildV::Token(toks[u + 3])),
    };
    assert(stack.push(f3).drop_last() =~= stack);
    assert(run_events(s5, toks) == Some((stack.push(f4), (used + 4) as nat)));
    let s6 = s5.push(Event::Advance);
    lemma_run_push(s5, Event::Advance, toks);
    let f5 = TreeV {
        kind: TreeKind::Function,
        children: f4.children.push(ChildV::Token(toks[u + 4])),
    };
    assert(stack.push(f4).drop_last() =~= stack);
    assert(run_events(s6, toks) == Some((stack.push(f5), (used + 5) as nat)));
    let s7 = s6.push(Event::Advance);
    lemma_run_push(s6, Event::Advance, toks);
    let f6 = TreeV {
        kind: TreeKind::Function,
        children: f5.children.push(ChildV::Token(toks[u + 5])),
    };
    assert(stack.push(f5).drop_last() =~= stack);
    assert(run_events(s7, toks) == Some((stack.push(f6), (used + 6) as nat)));
    lemma_run_stmt(s7, toks, stack.push(f6), (used + 6) as nat);
    let f7 = TreeV {
        kind: TreeKind::Function,
        children: f6.children.push(ChildV::Tree(stmt_tree(toks, u + 6))),
    };
    assert(stack.push(f6).drop_last() =~= stack);
    assert(stack.push(f6).last() == f6);
    let s8 = s7 + stmt_events();
    assert(run_events(s8, toks) == Some((stack.push(f7), (used + 9) as nat)));
    let s9 = s8.push(Event::Advance);
    lemma_run_push(s8, Event::Advance, toks);
    let f8 = TreeV {
        kind: TreeKind::Function,
        children: f7.children.push(ChildV::Token(toks[u + 9])),
    };
    assert(stack.push(f7).drop_last() =~= stack);
    assert(run_events(s9, toks) == Some((stack.push(f8), (used + 10) as nat)));
    assert(f8.children =~= func_tree(toks, u).children);
    assert(f8 == func_tree(toks, u));
    let s10 = s9.push(Event::Close);
    lemma_run_push(s9, Event::Close, toks);
    assert(stack.push(f8).len() >= 2);
    assert(stack.push(f8)[stack.push(f8).len() - 2] == stack.last());
    assert(stack.push(f8).drop_last().drop_last() =~= stack.drop_last());
    assert(run_events(s10, toks) == Some(
        (
            stack.drop_last().push(
                TreeV {
                    kind: stack.last().kind,
                    children: stack.last().children.push(ChildV::Tree(func_tree(toks, u))),
                },
            ),
            (used + 10) as nat,
        ),
    ));
    assert(prefix + func_events() =~= s10);
}

/// Replaying the events of `n` function rules appends their `n` trees, in
/// order, to the open frame.
pub proof fn lemma_run_body(
    prefix: Seq<Event>,
    toks: Seq<TokenV>,
    stack: Seq<TreeV>,
    used: nat,
    n: nat,
)
    requires
        run_events(prefix, toks) == Some((stack, used)),
        stack.len() >= 1,
        used + 10 * n <= toks.len(),
    ensures
        run_events(prefix + program_body_events(n), toks) == Some(
            (
                stack.drop_last().push(
                    TreeV {
                        kind: stack.last().kind,
                        children: stack.last().children + Seq::new(
                            n,
                            |k: int| ChildV::Tree(func_tree(toks, used + 10 * k)),
                        ),
                    },
                ),
                (used + 10 * n) as nat,
            ),
        ),
    decreases n,
{
    if n == 0 {
        assert(prefix + program_body_events(0) =~= prefix);
        assert(stack.last().children + Seq::new(0nat, |k: int| ChildV::Tree(func_tree(toks, used + 10 * k)))
            =~= stack.last().children);
        assert(TreeV {
            kind: stack.last().kind,
            children: stack.last().children + Seq::new(
                0nat,
                |k: int| ChildV::Tree(func_tree(toks, used + 10 * k)),
            ),
        } == stack.last());
        assert(stack.drop_last().push(stack.last()) =~= stack);
    } else {
        let m = (n - 1) as nat;
        lemma_run_body(prefix, toks, stack, used, m);
        let stack1 = stack.drop_last().push(
            TreeV {
                kind: stack.last().kind,
                children: stack.last().children + Seq::new(
                    m,
                    |k: int| ChildV::Tree(func_tree(toks, used + 10 * k)),
                ),
            },
        );
        lemma_run_func(prefix + program_body_events(m), toks, stack1, (used + 10 * m) as nat);
        assert((prefix + program_body_events(m)) + func_events() =~= prefix
            + program_body_events(n));
        assert(stack1.drop_last() =~= stack.drop_last());
        assert(stack1.last().children.push(ChildV::Tree(func_tree(toks, used + 10 * (m as int))))
            =~= stack.last().children + Seq::new(
            n,
            |k: int| ChildV::Tree(func_tree(toks, used + 10 * k)),
        ));
    }
}

/// Tree-building is total over the grammar rules' logs: a log of `n`
/// well-formed function groups over exactly their `10 n` tokens always
/// collapses, and to the one program tree those tokens spell.
pub proof fn lemma_grammar_log_builds(toks: Seq<TokenV>, n: nat)
    requires
        toks.len() == 10 * n,
    ensures
        build_spec(program_events(n), toks) == Some(program_tree(toks, n)),
{
    let ev = program_events(n);
    assert(ev.last() == Event::Close);
    assert(ev.len() >= 2);
    assert(ev.drop_last() =~= seq![Event::Open { kind: TreeKind::Program }]
        + program_body_events(n));
    let p0 = TreeV { kind: TreeKind::Program, children: Seq::<ChildV>::empty() };
    let s1 = seq![Event::Open { kind: TreeKind::Program }];
    assert(Seq::<Event>::empty().push(Event::Open { kind: TreeKind::Program }) =~= s1);
    lemma_run_push(Seq::empty(), Event::Open { kind: TreeKind::Program }, toks);
    assert(run_events(s1, toks) == Some((Seq::<TreeV>::empty().push(p0), 0nat)));
    lemma_run_body(s1, toks, Seq::<TreeV>::empty().push(p0), 0, n);
    let stackf = Seq::<TreeV>::empty().push(p0).drop_last().push(
        TreeV {
            kind: TreeKind::Program,
            children: p0.children + Seq::new(
                n,
                |k: int| ChildV::Tree(func_tree(toks, 0 + 10 * k)),
            ),
        },
    );
    assert(run_events(ev.drop_last(), toks) == Some((stackf, (10 * n) as nat)));
    assert(stackf.len() == 1);
    assert(p0.children + Seq::new(n, |k: int| ChildV::Tree(func_tree(toks, 0 + 10 * k)))
        =~= Seq::new(n, |k: int| ChildV::Tree(func_tree(toks, 10 * k))));
    assert(stackf[0] == program_tree(toks, n));
}

/// Tree-building is deterministic: the same event log and token sequence
/// always collapse to the same tree.
pub proof fn lemma_build_deterministic(
    events: Seq<Event>,
    toks: Seq<TokenV>,
    t1: TreeV,
    t2: TreeV,
)
    requires
        build_spec(events, toks) == Some(t1),
        build_spec(events, toks) == Some(t2),
    ensures
        t1 == t2,
{
}

/// Kinds that parse as complete function groups come in tens.
pub proof fn lemma_funcs_matches_div(t: Seq<TokenKind>, pos: int)
    requires
        0 <= pos <= t.len(),
        funcs_matches(t, pos),
    ensures
        (t.len() - pos) % 10 == 0,
    decreases t.len() - pos,
{
    if pos < t.len() {
        assert(kind_or_eof(t, pos + 9) == func_kinds()[9]);
        lemma_funcs_matches_div(t, pos + 10);
    }
}

/// Any token sequence that matches the grammar parses and builds to a
/// `Program` tree with exactly one `Function` child, whose fixed-position
/// body child is a `Return` node containing one `Constant` token.
pub proof fn lemma_grammar_tree_shape(toks: Seq<TokenV>)
    requires
        toks.len() == 10,
        matches_pat(token_kinds(toks), 0, func_kinds()),
    ensures
        ({
            let root = build_spec(program_events(1), toks).unwrap();
            &&& build_spec(program_events(1), toks) is Some
            &&& root.kind == TreeKind::Program
            &&& root.children.len() == 1
            &&& root.children[0] matches ChildV::Tree(f) && f.kind == TreeKind::Function
                && f.children.len() == 8 && (f.children[6] matches ChildV::Tree(b) && b.kind
                == TreeKind::Return && b.children.len() == 3 && (b.children[1] matches
            ChildV::Token(c) && c.kind == TokenKind::Constant))
        }),
{
    lemma_grammar_log_builds(toks, 1);
    let root = program_tree(toks, 1);
    assert(root.children[0] == ChildV::Tree(func_tree(toks, 0)));
    assert(kind_or_eof(token_kinds(toks), 7) == func_kinds()[7]);
    assert(token_kinds(toks)[7] == toks[7].kind);
    assert(toks[7].kind == TokenKind::Constant);
    assert(func_tree(toks, 0).children[6] == ChildV::Tree(stmt_tree(toks, 6)));
    assert(stmt_tree(toks, 6).children[1] == ChildV::Token(toks[7]));
}

/// The engine's liveness guard at work: a rule that keeps looking ahead
/// without ever advancing cannot hang. However much fuel is left, the loop
/// below terminates and reports the liveness fault, with the rest of the
/// parser state untouched.
pub fn lookahead_without_advance(p: &mut Parser) -> (r: CompileError)
    requires
        old(p).wf(),
    ensures
        r == CompileError::Stuck,
        final(p).tokens == old(p).tokens,
        final(p).pos == old(p).pos,
        final(p).events == old(p).events,
        final(p).fuel == 0,
{
    loop
        invariant
            p.wf(),
            p.tokens == old(p).tokens,
            p.pos == old(p).pos,
            p.events == old(p).events,
        decreases p.fuel,
    {
        match p.nth(0) {
            Ok(_) => {},
            Err(e) => {
                return e;
            },
        }
    }
}

} // verus!
