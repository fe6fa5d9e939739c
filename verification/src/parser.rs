use vstd::prelude::*;

use crate::token::{Token, TokenKind, TokenV};
use crate::tree::{children_deep, lemma_children_deep, Child, ChildV, Tree, TreeKind, TreeV};
use crate::CompileError;

verus! {

/// One entry of the flat, append-only event log the parser engine produces.
#[derive(Debug, PartialEq, Eq, Structural, Copy, Clone)]
pub enum Event {
    Open { kind: TreeKind },
    Close,
    Advance,
}

/// An index into the event log, returned by `open()`; `close()` later
/// overwrites the placeholder event at this index with the real kind.
pub struct MarkOpened {
    pub index: usize,
}

/// The ceiling of the lookahead fuel budget: `advance` resets the budget to
/// this value, and every lookahead spends one unit of it.
pub const FUEL: u32 = 256;

/// The speculative-tree-building substrate: the token sequence, a read
/// cursor, a decrementing fuel counter guarding liveness, and the growable
/// event log.
pub struct Parser {
    pub tokens: Vec<Token>,
    pub pos: usize,
    pub fuel: u32,
    pub events: Vec<Event>,
}

/// The kind at position `i` of a kind sequence, with the synthetic `Eof`
/// kind for every position past the end.
pub open spec fn kind_or_eof(t: Seq<TokenKind>, i: int) -> TokenKind {
    if 0 <= i < t.len() {
        t[i]
    } else {
        TokenKind::Eof
    }
}

impl Parser {
    /// The kinds of the token sequence, in order.
    pub open spec fn kinds(self) -> Seq<TokenKind> {
        self.tokens@.map_values(|t: Token| t.kind)
    }

    /// The kind found `i` positions into the token sequence, with the
    /// synthetic `Eof` kind for every position past the end.
    pub open spec fn kind_at(self, i: int) -> TokenKind {
        kind_or_eof(self.kinds(), i)
    }

    /// The cursor never runs past the token sequence.
    pub open spec fn wf(self) -> bool {
        self.pos <= self.tokens@.len()
    }

    pub fn new(tokens: Vec<Token>) -> (r: Parser)
        ensures
            r.tokens == tokens,
            r.pos == 0,
            r.fuel == FUEL,
            r.events@ == Seq::<Event>::empty(),
            r.wf(),
    {
        Parser { tokens, pos: 0, fuel: FUEL, events: Vec::new() }
    }

    /// Begins a subtree speculatively: pushes a placeholder
    /// `Open { ErrorTree }` event and returns its index, so that the real
    /// kind can be patched in once the subtree is known to parse.
    pub fn open(&mut self) -> (m: MarkOpened)
        ensures
            m.index == old(self).events@.len(),
            final(self).events@ == old(self).events@.push(
                Event::Open { kind: TreeKind::ErrorTree },
            ),
            final(self).tokens == old(self).tokens,
            final(self).pos == old(self).pos,
            final(self).fuel == old(self).fuel,
    {
        let m = MarkOpened { index: self.events.len() };
        self.events.push(Event::Open { kind: TreeKind::ErrorTree });
        m
    }

    /// Overwrites the placeholder event at `m` with the real kind and ends
    /// the subtree with a `Close` event.
    pub fn close(&mut self, m: MarkOpened, kind: TreeKind)
        requires
            m.index < old(self).events@.len(),
        ensures
            final(self).events@ == old(self).events@.update(
                m.index as int,
                Event::Open { kind },
            ).push(Event::Close),
            final(self).tokens == old(self).tokens,
            final(self).pos == old(self).pos,
            final(self).fuel == old(self).fuel,
    {
        self.events.set(m.index, Event::Open { kind });
        self.events.push(Event::Close);
    }

    /// Consumes one token: records an `Advance` event, refills the fuel
    /// budget, and moves the cursor forward. The cursor must not be at the
    /// end of the token sequence.
    pub fn advance(&mut self)
        requires
            old(self).pos < old(self).tokens@.len(),
        ensures
            final(self).events@ == old(self).events@.push(Event::Advance),
            final(self).tokens == old(self).tokens,
            final(self).pos == old(self).pos + 1,
            final(self).fuel == FUEL,
    {
        self.fuel = FUEL;
        self.events.push(Event::Advance);
        let n = self.tokens.len();
        assert(self.pos < n);
        self.pos = self.pos + 1;
    }

    pub fn eof(&self) -> (r: bool)
        ensures
            r == (self.pos == self.tokens@.len()),
    {
        self.pos == self.tokens.len()
    }

    /// Peeks `lookahead` tokens past the cursor without consuming any,
    /// reporting `Eof` past the end of the sequence. Each peek spends one
    /// unit of fuel; once the budget is exhausted the engine reports the
    /// liveness fault instead of answering, so no rule can loop on
    /// lookahead forever.
    pub fn nth(&mut self, lookahead: usize) -> (r: Result<TokenKind, CompileError>)
        requires
            old(self).wf(),
        ensures
            final(self).tokens == old(self).tokens,
            final(self).pos == old(self).pos,
            final(self).events == old(self).events,
            old(self).fuel == 0 ==> r == Err::<TokenKind, CompileError>(CompileError::Stuck)
                && final(self).fuel == old(self).fuel,
            old(self).fuel > 0 ==> r == Ok::<TokenKind, CompileError>(
                old(self).kind_at(old(self).pos + lookahead),
            ) && final(self).fuel == old(self).fuel - 1,
    {
        if self.fuel == 0 {
            return Err(CompileError::Stuck);
        }
        self.fuel = self.fuel - 1;
        if lookahead < self.tokens.len() - self.pos {
            Ok(self.tokens[self.pos + lookahead].kind)
        } else {
            Ok(TokenKind::Eof)
        }
    }

    /// Whether the token under the cursor has the given kind; spends one
    /// unit of fuel like any lookahead.
    pub fn at(&mut self, kind: TokenKind) -> (r: Result<bool, CompileError>)
        requires
            old(self).wf(),
        ensures
            final(self).tokens == old(self).tokens,
            final(self).pos == old(self).pos,
            final(self).events == old(self).events,
            old(self).fuel == 0 ==> r == Err::<bool, CompileError>(CompileError::Stuck)
                && final(self).fuel == old(self).fuel,
            old(self).fuel > 0 ==> r == Ok::<bool, CompileError>(
                old(self).kind_at(old(self).pos as int) == kind,
            ) && final(self).fuel == old(self).fuel - 1,
    {
        match self.nth(0) {
            Ok(k) => Ok(k == kind),
            Err(e) => Err(e),
        }
    }

    /// Consumes the token under the cursor if it has the given kind and
    /// says whether it did; a mismatch has no effect beyond the spent fuel.
    pub fn eat(&mut self, kind: TokenKind) -> (r: Result<bool, CompileError>)
        requires
            old(self).wf(),
            kind != TokenKind::Eof,
        ensures
            final(self).tokens == old(self).tokens,
            final(self).wf(),
            old(self).fuel == 0 ==> r == Err::<bool, CompileError>(CompileError::Stuck)
                && final(self).pos == old(self).pos
                && final(self).events == old(self).events
                && final(self).fuel == old(self).fuel,
            old(self).fuel > 0 && old(self).kind_at(old(self).pos as int) == kind ==> r == Ok::<
                bool,
                CompileError,
            >(true) && final(self).pos == old(self).pos + 1
                && final(self).events@ == old(self).events@.push(Event::Advance)
                && final(self).fuel == FUEL,
            old(self).fuel > 0 && old(self).kind_at(old(self).pos as int) != kind ==> r == Ok::<
                bool,
                CompileError,
            >(false) && final(self).pos == old(self).pos && final(self).events == old(self).events
                && final(self).fuel == old(self).fuel - 1,
    {
        match self.at(kind) {
            Ok(true) => {
                self.advance();
                Ok(true)
            },
            Ok(false) => Ok(false),
            Err(e) => Err(e),
        }
    }

    /// Consumes the token under the cursor if it has the given kind;
    /// otherwise reports the syntax fault naming the expected kind.
    pub fn expect(&mut self, kind: TokenKind) -> (r: Result<(), CompileError>)
        requires
            old(self).wf(),
            kind != TokenKind::Eof,
        ensures
            final(self).tokens == old(self).tokens,
            final(self).wf(),
            old(self).fuel == 0 ==> r == Err::<(), CompileError>(CompileError::Stuck)
                && final(self).pos == old(self).pos
                && final(self).events == old(self).events
                && final(self).fuel == old(self).fuel,
            old(self).fuel > 0 && old(self).kind_at(old(self).pos as int) == kind ==> r == Ok::<
                (),
                CompileError,
            >(()) && final(self).pos == old(self).pos + 1
                && final(self).events@ == old(self).events@.push(Event::Advance)
                && final(self).fuel == FUEL,
            old(self).fuel > 0 && old(self).kind_at(old(self).pos as int) != kind ==> r == Err::<
                (),
                CompileError,
            >(CompileError::Expected(kind)) && final(self).pos == old(self).pos
                && final(self).events == old(self).events
                && final(self).fuel == old(self).fuel - 1,
    {
        match self.eat(kind) {
            Ok(true) => Ok(()),
            Ok(false) => Err(CompileError::Expected(kind)),
            Err(e) => Err(e),
        }
    }

    /// Consumes the event log and the token sequence together, replaying
    /// the log onto a stack of in-progress frames, and returns the single
    /// tree the log collapses to. A log that is not well nested, or that
    /// does not drain the token sequence exactly, is a tree-integrity
    /// fault.
    #[verifier::loop_isolation(false)]
    pub fn build_tree(self) -> (r: Result<Tree, CompileError>)
        ensures
            r matches Ok(t) ==> build_spec(self.events@, self.tokens.deep_view()) == Some(
                t.deep(),
            ),
            r matches Err(e) ==> e == CompileError::TreeIntegrity && build_spec(
                self.events@,
                self.tokens.deep_view(),
            ) is None,
    {
        let Parser { tokens, pos: _, fuel: _, events } = self;
        let ghost toksv: Seq<TokenV> = tokens.deep_view();
        let n = events.len();
        if n == 0 {
            return Err(CompileError::TreeIntegrity);
        }
        match events[n - 1] {
            Event::Close => {},
            _ => {
                return Err(CompileError::TreeIntegrity);
            },
        }
        let mut stack: Vec<Tree> = Vec::new();
        let mut used: usize = 0;
        let mut i: usize = 0;
        while i < n - 1
            invariant
                n == events@.len(),
                0 < n <= usize::MAX,
                i <= n - 1,
                used <= tokens@.len(),
                toksv == tokens.deep_view(),
                run_events(events@.take(i as int), toksv) == Some(
                    (stack_deep(stack@), used as nat),
                ),
            decreases n - 1 - i,
        {
            proof {
                assert(events@.take(i + 1).drop_last() =~= events@.take(i as int));
                assert(events@.take(i + 1).last() == events@[i as int]);
            }
            let ghost prev_stack = stack_deep(stack@);
            match events[i] {
                Event::Open { kind } => {
                    let t = Tree { kind, children: Vec::new() };
                    proof {
                        assert(children_deep(t.children@) =~= Seq::<ChildV>::empty());
                        assert(t.deep() == TreeV { kind, children: Seq::<ChildV>::empty() });
                    }
                    let ghost tv = t.deep();
                    stack.push(t);
                    proof {
                        assert(stack_deep(stack@) =~= prev_stack.push(tv));
                    }
                },
                Event::Close => {
                    if stack.len() < 2 {
                        proof {
                            assert(apply_event(
                                stack_deep(stack@),
                                used as nat,
                                events@[i as int],
                                toksv,
                            ) is None);
                            assert(run_events(events@.take(i + 1), toksv) is None);
                            lemma_run_none_prefix(events@, toksv, i + 1, n - 1);
                            assert(events@.take(n - 1) =~= events@.drop_last());
                        }
                        return Err(CompileError::TreeIntegrity);
                    }
                    let top = stack.pop().unwrap();
                    let mut below = stack.pop().unwrap();
                    let ghost below0 = below;
                    below.children.push(Child::Tree(top));
                    proof {
                        lemma_children_deep_push(below0.children@, Child::Tree(top));
                        assert(below.deep() == TreeV {
                            kind: below0.kind,
                            children: below0.deep().children.push(ChildV::Tree(top.deep())),
                        });
                    }
                    stack.push(below);
                    proof {
                        assert(prev_stack.last() == top.deep());
                        assert(prev_stack[prev_stack.len() - 2] == below0.deep());
                        assert(stack_deep(stack@) =~= prev_stack.drop_last().drop_last().push(
                            below.deep(),
                        ));
                    }
                },
                Event::Advance => {
                    if used >= tokens.len() || stack.len() == 0 {
                        proof {
                            assert(apply_event(
                                stack_deep(stack@),
                                used as nat,
                                events@[i as int],
                                toksv,
                            ) is None);
                            assert(run_events(events@.take(i + 1), toksv) is None);
                            lemma_run_none_prefix(events@, toksv, i + 1, n - 1);
                            assert(events@.take(n - 1) =~= events@.drop_last());
                        }
                        return Err(CompileError::TreeIntegrity);
                    }
                    let tok = tokens[used].clone();
                    let mut below = stack.pop().unwrap();
                    let ghost below0 = below;
                    below.children.push(Child::Token(tok));
                    proof {
                        lemma_children_deep_push(below0.children@, Child::Token(tok));
                        assert(tok@ == toksv[used as int]);
                        assert(below.deep() == TreeV {
                            kind: below0.kind,
                            children: below0.deep().children.push(ChildV::Token(toksv[used as int])),
                        });
                    }
                    stack.push(below);
                    used = used + 1;
                    proof {
                        assert(prev_stack.last() == below0.deep());
                        assert(stack_deep(stack@) =~= prev_stack.drop_last().push(below.deep()));
                    }
                },
            }
            i = i + 1;
        }
        proof {
            assert(events@.take(n - 1) =~= events@.drop_last());
        }
        if stack.len() != 1 {
            return Err(CompileError::TreeIntegrity);
        }
        if used != tokens.len() {
            return Err(CompileError::TreeIntegrity);
        }
        let root = stack.pop().unwrap();
        proof {
            assert(stack_deep(stack@.push(root))[0] == root.deep());
        }
        Ok(root)
    }
}

/// The mathematical values of a stack of in-progress tree frames.
pub open spec fn stack_deep(s: Seq<Tree>) -> Seq<TreeV> {
    Seq::new(s.len(), |i: int| s[i].deep())
}

/// What one event does to the tree-builder state: a stack of open frames
/// and the count of tokens pulled so far. `None` is a tree-integrity
/// fault.
pub open spec fn apply_event(
    stack: Seq<TreeV>,
    used: nat,
    e: Event,
    toks: Seq<TokenV>,
) -> Option<(Seq<TreeV>, nat)> {
    match e {
        Event::Open { kind } => Some(
            (stack.push(TreeV { kind, children: Seq::empty() }), used),
        ),
        Event::Close => if stack.len() >= 2 {
            let top = stack.last();
            let below = stack[stack.len() - 2];
            Some(
                (
                    stack.drop_last().drop_last().push(
                        TreeV { kind: below.kind, children: below.children.push(ChildV::Tree(top)) },
                    ),
                    used,
                ),
            )
        } else {
            None
        },
        Event::Advance => if used < toks.len() && stack.len() >= 1 {
            let top = stack.last();
            Some(
                (
                    stack.drop_last().push(
                        TreeV {
                            kind: top.kind,
                            children: top.children.push(ChildV::Token(toks[used as int])),
                        },
                    ),
                    used + 1,
                ),
            )
        } else {
            None
        },
    }
}

/// Replays a whole event log from the left onto an empty stack.
pub open spec fn run_events(events: Seq<Event>, toks: Seq<TokenV>) -> Option<(Seq<TreeV>, nat)>
    decreases events.len(),
{
    if events.len() == 0 {
        Some((Seq::empty(), 0))
    } else {
        match run_events(events.drop_last(), toks) {
            None => None,
            Some((stack, used)) => apply_event(stack, used, events.last(), toks),
        }
    }
}

/// The tree a full event log plus a token sequence collapses to: the log
/// must end with the root's own `Close`, replay without faults, leave
/// exactly one frame, and drain the tokens.
pub open spec fn build_spec(events: Seq<Event>, toks: Seq<TokenV>) -> Option<TreeV> {
    if events.len() == 0 || events.last() != Event::Close {
        None
    } else {
        match run_events(events.drop_last(), toks) {
            Some((stack, used)) => if stack.len() == 1 && used == toks.len() {
                Some(stack[0])
            } else {
                None
            },
            None => None,
        }
    }
}

/// Pushing one child onto a frame appends its value to the frame's values.
pub proof fn lemma_children_deep_push(s: Seq<Child>, c: Child)
    ensures
        children_deep(s.push(c)) == children_deep(s).push(c.deep()),
{
    lemma_children_deep(s.push(c));
    lemma_children_deep(s);
    assert forall|i: int| 0 <= i < s.len() implies children_deep(s.push(c))[i] == children_deep(
        s,
    ).push(c.deep())[i] by {
        assert(s.push(c)[i] == s[i]);
        assert(children_deep(s.push(c))[i] == s.push(c)[i].deep());
    }
    assert(children_deep(s.push(c))[s.len() as int] == s.push(c)[s.len() as int].deep());
    assert(s.push(c)[s.len() as int] == c);
    assert(children_deep(s.push(c)) =~= children_deep(s).push(c.deep()));
}

/// Once the replay of a prefix has faulted, every longer prefix faults.
pub proof fn lemma_run_none_prefix(events: Seq<Event>, toks: Seq<TokenV>, k: int, m: int)
    requires
        0 <= k <= m <= events.len(),
        run_events(events.take(k), toks) is None,
    ensures
        run_events(events.take(m), toks) is None,
    decreases m - k,
{
    if m > k {
        lemma_run_none_prefix(events, toks, k, m - 1);
        assert(events.take(m).drop_last() =~= events.take(m - 1));
    }
}

} // verus!
