use vstd::prelude::*;

use crate::token::TokenKind;
use crate::tree::{Child, Tree, TreeKind};
use vstd::string::StringExecFns;

verus! {

broadcast use vstd::std_specs::vec::axiom_vec_index_decreases;

/// `n` spaces, the indentation of one pretty-printed line.
pub open spec fn spaces(n: nat) -> Seq<char>
    decreases n,
{
    if n == 0 {
        Seq::empty()
    } else {
        spaces((n - 1) as nat) + " "@
    }
}

/// The printed name of a tree kind.
pub open spec fn tree_kind_text(k: TreeKind) -> Seq<char> {
    match k {
        TreeKind::Program => "Program"@,
        TreeKind::Function => "Function"@,
        TreeKind::Return => "Return"@,
        TreeKind::ErrorTree => "ErrorTree"@,
    }
}

/// The printed name of a token kind.
pub open spec fn token_kind_text(k: TokenKind) -> Seq<char> {
    match k {
        TokenKind::Identifier => "Identifier"@,
        TokenKind::Constant => "Constant"@,
        TokenKind::Keyword => "Keyword"@,
        TokenKind::OpenParen => "OpenParen"@,
        TokenKind::CloseParen => "CloseParen"@,
        TokenKind::OpenBrace => "OpenBrace"@,
        TokenKind::CloseBrace => "CloseBrace"@,
        TokenKind::Semicolon => "Semicolon"@,
        TokenKind::Eof => "Eof"@,
        TokenKind::ErrorToken => "ErrorToken"@,
    }
}

/// How many levels of subtrees stand below this node, itself included.
pub open spec fn tree_height(t: Tree) -> nat
    decreases t,
{
    proof {
        assert(decreases_to!(t => t.children));
        assert(decreases_to!(t.children => t.children@));
    }
    1 + children_height(t.children@)
}

pub open spec fn children_height(s: Seq<Child>) -> nat
    decreases s,
{
    if s.len() == 0 {
        0
    } else if child_height(s[0]) > children_height(s.drop_first()) {
        child_height(s[0])
    } else {
        children_height(s.drop_first())
    }
}

pub open spec fn child_height(c: Child) -> nat
    decreases c,
{
    match c {
        Child::Token(_) => 0,
        Child::Tree(t) => tree_height(t),
    }
}

/// Every child stands no taller than the tallest.
pub proof fn lemma_children_height(s: Seq<Child>, i: int)
    requires
        0 <= i < s.len(),
    ensures
        child_height(s[i]) <= children_height(s),
    decreases s.len(),
{
    if i > 0 {
        lemma_children_height(s.drop_first(), i - 1);
        assert(s.drop_first()[i - 1] == s[i]);
    }
}

/// The rendering of one tree, as the debug listing prints it: the kind
/// (when shown) around an indented body.
pub open spec fn pretty_text(t: Tree, depth: nat, show_kind: bool) -> Seq<char>
    decreases t, 2int,
{
    (if show_kind {
        spaces(depth) + tree_kind_text(t.kind) + "(\n"@
    } else {
        Seq::<char>::empty()
    }) + pretty_mid(t, depth) + (if show_kind {
        spaces(depth) + ")\n"@
    } else {
        Seq::<char>::empty()
    })
}

/// The body of one rendered tree: the fixed-position identifier, body and
/// constant of the rigid grammar, called out by name.
pub open spec fn pretty_mid(t: Tree, depth: nat) -> Seq<char>
    decreases t, 1int,
{
    proof {
        assert(decreases_to!(t => t.children));
        assert(decreases_to!(t.children => t.children@));
    }
    match t.kind {
        TreeKind::Program => pretty_children(t.children@, (depth + 4) as nat),
        TreeKind::Function => (if t.children@.len() > 1 && (t.children@[1] matches Child::Token(
            tok,
        ) && tok.kind == TokenKind::Identifier) {
            (match t.children@[1] {
                Child::Token(tok) => spaces((depth + 4) as nat) + "name = \""@ + tok.text@
                    + "\"\n"@,
                Child::Tree(_) => Seq::<char>::empty(),
            })
        } else {
            Seq::<char>::empty()
        }) + (if t.children@.len() > 6 && (t.children@[6] matches Child::Tree(_)) {
            (match t.children@[6] {
                Child::Tree(b) => spaces((depth + 4) as nat) + "body = "@ + tree_kind_text(b.kind)
                    + "(\n"@ + pretty_text(b, (depth + 4) as nat, false) + spaces((depth + 4) as nat)
                    + ")\n"@,
                Child::Token(_) => Seq::<char>::empty(),
            })
        } else {
            Seq::<char>::empty()
        }),
        TreeKind::Return => if t.children@.len() > 1 && (t.children@[1] matches Child::Token(_)) {
            (match t.children@[1] {
                Child::Token(tok) => spaces((depth + 4) as nat) + token_kind_text(tok.kind) + "("@
                    + tok.text@ + ")\n"@,
                Child::Tree(_) => Seq::<char>::empty(),
            })
        } else {
            Seq::<char>::empty()
        },
        TreeKind::ErrorTree => Seq::<char>::empty(),
    }
}

/// The renderings of a program's subtree children, in order; token
/// children print nothing at this level.
pub open spec fn pretty_children(s: Seq<Child>, depth: nat) -> Seq<char>
    decreases s, 3int,
{
    if s.len() == 0 {
        Seq::empty()
    } else {
        (match s[0] {
            Child::Tree(t) => pretty_text(t, depth, true),
            Child::Token(_) => Seq::<char>::empty(),
        }) + pretty_children(s.drop_first(), depth)
    }
}

/// Rendering one more child appends its rendering.
pub proof fn lemma_pretty_children_take(s: Seq<Child>, depth: nat, i: int)
    requires
        0 <= i < s.len(),
    ensures
        pretty_children(s.take(i + 1), depth) == pretty_children(s.take(i), depth) + (match s[i] {
            Child::Tree(t) => pretty_text(t, depth, true),
            Child::Token(_) => Seq::<char>::empty(),
        }),
    decreases i,
{
    if i == 0 {
        assert(s.take(1).drop_first() =~= Seq::<Child>::empty());
        assert(s.take(0) =~= Seq::<Child>::empty());
        assert(s.take(1)[0] == s[0]);
        assert(pretty_children(s.take(1), depth) =~= pretty_children(s.take(0), depth) + (
        match s[0] {
            Child::Tree(t) => pretty_text(t, depth, true),
            Child::Token(_) => Seq::<char>::empty(),
        }));
    } else {
        lemma_pretty_children_take(s.drop_first(), depth, i - 1);
        assert(s.take(i + 1).drop_first() =~= s.drop_first().take(i));
        assert(s.take(i).drop_first() =~= s.drop_first().take(i - 1));
        assert(s.take(i + 1)[0] == s[0]);
        assert(s.take(i)[0] == s[0]);
        assert(s.drop_first()[i - 1] == s[i]);
        let h = (match s[0] {
            Child::Tree(t) => pretty_text(t, depth, true),
            Child::Token(_) => Seq::<char>::empty(),
        });
        let m = (match s[i] {
            Child::Tree(t) => pretty_text(t, depth, true),
            Child::Token(_) => Seq::<char>::empty(),
        });
        assert(h + (pretty_children(s.drop_first().take(i - 1), depth) + m) =~= (h
            + pretty_children(s.drop_first().take(i - 1), depth)) + m);
    }
}

fn spaces_x(n: usize) -> (r: String)
    ensures
        r@ == spaces(n as nat),
{
    let mut out = String::new();
    let mut i: usize = 0;
    while i < n
        invariant
            i <= n,
            out@ == spaces(i as nat),
        decreases n - i,
    {
        out.append(" ");
        i = i + 1;
    }
    out
}

fn tree_kind_str(k: TreeKind) -> (r: &'static str)
    ensures
        r@ == tree_kind_text(k),
{
    match k {
        TreeKind::Program => "Program",
        TreeKind::Function => "Function",
        TreeKind::Return => "Return",
        TreeKind::ErrorTree => "ErrorTree",
    }
}

fn token_kind_str(k: TokenKind) -> (r: &'static str)
    ensures
        r@ == token_kind_text(k),
{
    match k {
        TokenKind::Identifier => "Identifier",
        TokenKind::Constant => "Constant",
        TokenKind::Keyword => "Keyword",
        TokenKind::OpenParen => "OpenParen",
        TokenKind::CloseParen => "CloseParen",
        TokenKind::OpenBrace => "OpenBrace",
        TokenKind::CloseBrace => "CloseBrace",
        TokenKind::Semicolon => "Semicolon",
        TokenKind::Eof => "Eof",
        TokenKind::ErrorToken => "ErrorToken",
    }
}

/// Renders a tree for inspection, exactly as `pretty_text` says. The
/// caller prints the returned text; nothing here touches the outside
/// world.
pub fn pretty_print(tree: &Tree, depth: usize, show_kind: bool) -> (r: String)
    requires
        depth + 4 * tree_height(*tree) <= usize::MAX,
    ensures
        r@ == pretty_text(*tree, depth as nat, show_kind),
    decreases *tree, 1int,
{
    let mut out = String::new();
    if show_kind {
        let sp = spaces_x(depth);
        out.append(sp.as_str());
        out.append(tree_kind_str(tree.kind));
        out.append("(\n");
    }
    let mid = pretty_mid_x(tree, depth);
    out.append(mid.as_str());
    if show_kind {
        let sp = spaces_x(depth);
        out.append(sp.as_str());
        out.append(")\n");
    }
    out
}

/// Renders the body of one tree, as `pretty_mid` says.
#[verifier::loop_isolation(false)]
#[verifier::rlimit(100)]
fn pretty_mid_x(tree: &Tree, depth: usize) -> (r: String)
    requires
        depth + 4 * tree_height(*tree) <= usize::MAX,
    ensures
        r@ == pretty_mid(*tree, depth as nat),
    decreases *tree, 0int,
{
    let mut out = String::new();
    match tree.kind {
        TreeKind::Program => {
            let n = tree.children.len();
            let mut i: usize = 0;
            while i < n
                invariant
                    i <= n,
                    out@ == pretty_children(tree.children@.take(i as int), (depth + 4) as nat),
                decreases n - i,
            {
                proof {
                    lemma_pretty_children_take(tree.children@, (depth + 4) as nat, i as int);
                    lemma_children_height(tree.children@, i as int);
                }
                match &tree.children[i] {
                    Child::Tree(t) => {
                        let sub = pretty_print(t, depth + 4, true);
                        out.append(sub.as_str());
                    },
                    Child::Token(_) => {},
                }
                i = i + 1;
            }
            proof {
                assert(tree.children@.take(n as int) =~= tree.children@);
            }
        },
        TreeKind::Function => {
            if tree.children.len() > 1 {
                match &tree.children[1] {
                    Child::Token(tok) => {
                        if tok.kind == TokenKind::Identifier {
                            let sp = spaces_x(depth + 4);
                            out.append(sp.as_str());
                            out.append("name = \"");
                            out.append(tok.text.as_str());
                            out.append("\"\n");
                        }
                    },
                    Child::Tree(_) => {},
                }
            }
            if tree.children.len() > 6 {
                match &tree.children[6] {
                    Child::Tree(b) => {
                        proof {
                            lemma_children_height(tree.children@, 6);
                        }
                        let sp = spaces_x(depth + 4);
                        out.append(sp.as_str());
                        out.append("body = ");
                        out.append(tree_kind_str(b.kind));
                        out.append("(\n");
                        let sub = pretty_print(b, depth + 4, false);
                        out.append(sub.as_str());
                        out.append(sp.as_str());
                        out.append(")\n");
                    },
                    Child::Token(_) => {},
                }
            }
        },
        TreeKind::Return => {
            if tree.children.len() > 1 {
                match &tree.children[1] {
                    Child::Token(tok) => {
                        let sp = spaces_x(depth + 4);
                        out.append(sp.as_str());
                        out.append(token_kind_str(tok.kind));
                        out.append("(");
                        out.append(tok.text.as_str());
                        out.append(")\n");
                    },
                    Child::Tree(_) => {},
                }
            }
        },
        TreeKind::ErrorTree => {},
    }
    out
}


/// Taking one more child into account keeps the running maximum.
pub proof fn lemma_children_height_take(s: Seq<Child>, i: int)
    requires
        0 <= i < s.len(),
    ensures
        children_height(s.take(i + 1)) == (if child_height(s[i]) > children_height(s.take(i)) {
            child_height(s[i])
        } else {
            children_height(s.take(i))
        }),
    decreases i,
{
    if i == 0 {
        assert(s.take(1).drop_first() =~= Seq::<Child>::empty());
        assert(s.take(0) =~= Seq::<Child>::empty());
        assert(s.take(1)[0] == s[0]);
    } else {
        lemma_children_height_take(s.drop_first(), i - 1);
        assert(s.take(i + 1).drop_first() =~= s.drop_first().take(i));
        assert(s.take(i).drop_first() =~= s.drop_first().take(i - 1));
        assert(s.take(i + 1)[0] == s[0]);
        assert(s.take(i)[0] == s[0]);
        assert(s.drop_first()[i - 1] == s[i]);
    }
}

/// Measures a tree's height, or reports that it does not fit a machine
/// word (and the indentation arithmetic of the renderer would overflow).
#[verifier::loop_isolation(false)]
pub fn tree_depth(tree: &Tree) -> (r: Option<usize>)
    ensures
        r matches Some(h) ==> h as nat == tree_height(*tree),
        r is None ==> tree_height(*tree) > usize::MAX,
    decreases *tree,
{
    let mut best: usize = 0;
    let n = tree.children.len();
    let mut i: usize = 0;
    while i < n
        invariant
            i <= n,
            best as nat == children_height(tree.children@.take(i as int)),
        decreases n - i,
    {
        proof {
            lemma_children_height_take(tree.children@, i as int);
        }
        match &tree.children[i] {
            Child::Token(_) => {},
            Child::Tree(sub) => {
                match tree_depth(sub) {
                    Some(h) => {
                        if h > best {
                            best = h;
                        }
                    },
                    None => {
                        proof {
                            lemma_children_height(tree.children@, i as int);
                        }
                        return None;
                    },
                }
            },
        }
        i = i + 1;
    }
    proof {
        assert(tree.children@.take(n as int) =~= tree.children@);
    }
    if best == usize::MAX {
        None
    } else {
        Some(best + 1)
    }
}

/// Renders a tree if its indentation arithmetic fits a machine word,
/// which it does for every tree that fits in memory; reports nothing
/// otherwise instead of failing.
pub fn render_tree(tree: &Tree, depth: usize, show_kind: bool) -> (r: Option<String>)
    ensures
        r matches Some(s) ==> s@ == pretty_text(*tree, depth as nat, show_kind),
        r is None ==> depth + 4 * tree_height(*tree) > usize::MAX,
{
    match tree_depth(tree) {
        None => None,
        Some(h) => {
            if h <= (usize::MAX - depth) / 4 {
                Some(pretty_print(tree, depth, show_kind))
            } else {
                None
            }
        },
    }
}

} // verus!
