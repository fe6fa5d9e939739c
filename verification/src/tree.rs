use vstd::prelude::*;

use crate::token::{Token, TokenV};

verus! {

broadcast use vstd::std_specs::vec::axiom_vec_index_decreases;

/// The kinds of node a concrete syntax tree can hold. `ErrorTree` is both
/// the placeholder kind of a speculatively opened subtree and the kind a
/// failed subtree keeps.
#[derive(Debug, PartialEq, Eq, Structural, Copy, Clone)]
pub enum TreeKind {
    Program,
    Function,
    Return,
    ErrorTree,
}

/// A concrete syntax tree: every matched token is retained as a child.
#[derive(Debug, PartialEq)]
pub struct Tree {
    pub kind: TreeKind,
    pub children: Vec<Child>,
}

/// A child of a tree node: either a token or a nested subtree.
#[derive(Debug, PartialEq)]
pub enum Child {
    Token(Token),
    Tree(Tree),
}

/// The mathematical value of a tree: its kind and the sequence of the
/// values of its children.
pub struct TreeV {
    pub kind: TreeKind,
    pub children: Seq<ChildV>,
}

/// The mathematical value of a child.
pub enum ChildV {
    Token(TokenV),
    Tree(TreeV),
}

impl Tree {
    /// The mathematical value of this tree, children included.
    pub open spec fn deep(self) -> TreeV
        decreases self,
    {
        proof {
            assert(decreases_to!(self => self.children));
            assert(decreases_to!(self.children => self.children@));
        }
        TreeV { kind: self.kind, children: children_deep(self.children@) }
    }
}

/// The mathematical values of a sequence of children.
pub open spec fn children_deep(s: Seq<Child>) -> Seq<ChildV>
    decreases s,
{
    if s.len() == 0 {
        Seq::empty()
    } else {
        seq![s[0].deep()] + children_deep(s.drop_first())
    }
}

impl Child {
    /// The mathematical value of this child.
    pub open spec fn deep(self) -> ChildV
        decreases self,
    {
        match self {
            Child::Token(t) => ChildV::Token(t@),
            Child::Tree(t) => ChildV::Tree(t.deep()),
        }
    }
}

/// `children_deep` maps the value of each child in place: it keeps the
/// length and takes every position to the value of the child there.
pub proof fn lemma_children_deep(s: Seq<Child>)
    ensures
        children_deep(s).len() == s.len(),
        forall|i: int| 0 <= i < s.len() ==> children_deep(s)[i] == #[trigger] s[i].deep(),
    decreases s.len(),
{
    if s.len() > 0 {
        lemma_children_deep(s.drop_first());
        assert forall|i: int| 0 <= i < s.len() implies children_deep(s)[i] == #[trigger] s[i].deep() by {
            if i > 0 {
                assert(children_deep(s)[i] == children_deep(s.drop_first())[i - 1]);
                assert(s.drop_first()[i - 1] == s[i]);
            }
        }
    }
}

} // verus!
