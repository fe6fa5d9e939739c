use vstd::prelude::*;

use crate::lexer::is_digit;
use crate::token::TokenKind;
use crate::tree::{Child, Tree, TreeKind};
use crate::CompileError;

verus! {

/// The whole intermediate representation: one function.
#[derive(Debug, PartialEq, Clone)]
pub struct ASMProgram(pub ASMFunction);

/// One target function: its name and its instructions in order.
#[derive(Debug, PartialEq, Clone)]
pub struct ASMFunction {
    pub identifier: String,
    pub instructions: Vec<ASMInstruction>,
}

#[derive(Debug, PartialEq, Eq, Structural, Copy, Clone)]
pub enum ASMInstruction {
    Mov { src: ASMOperand, dst: ASMOperand },
    Ret,
}

#[derive(Debug, PartialEq, Eq, Structural, Copy, Clone)]
pub enum ASMOperand {
    Imm(u32),
    Register,
}

/// The number a sequence of decimal digits denotes, most significant
/// first.
pub open spec fn digits_val(s: Seq<char>) -> int
    decreases s.len(),
{
    if s.len() == 0 {
        0
    } else {
        digits_val(s.drop_last()) * 10 + (s.last() as int - '0' as int)
    }
}

pub open spec fn all_digits(s: Seq<char>) -> bool {
    forall|i: int| 0 <= i < s.len() ==> is_digit(#[trigger] s[i])
}

/// The unsigned 32-bit value a lexeme denotes: nonempty, all digits, and
/// within range, or nothing.
pub open spec fn u32_of_digits(s: Seq<char>) -> Option<u32> {
    if s.len() > 0 && all_digits(s) && digits_val(s) <= u32::MAX {
        Some(digits_val(s) as u32)
    } else {
        None
    }
}

pub proof fn lemma_digits_val_nonneg(s: Seq<char>)
    requires
        all_digits(s),
    ensures
        digits_val(s) >= 0,
    decreases s.len(),
{
    if s.len() > 0 {
        assert(all_digits(s.drop_last()));
        lemma_digits_val_nonneg(s.drop_last());
        assert(is_digit(s.last()));
    }
}

/// A prefix of a digit string never denotes more than the whole.
pub proof fn lemma_digits_val_take_le(s: Seq<char>, k: int)
    requires
        all_digits(s),
        0 <= k <= s.len(),
    ensures
        digits_val(s.take(k)) <= digits_val(s),
    decreases s.len() - k,
{
    if k < s.len() {
        lemma_digits_val_take_le(s, k + 1);
        assert(s.take(k + 1).drop_last() =~= s.take(k));
        assert(all_digits(s.take(k)));
        lemma_digits_val_nonneg(s.take(k));
        assert(is_digit(s.take(k + 1).last()));
        assert(digits_val(s.take(k + 1)) >= digits_val(s.take(k)));
    } else {
        assert(s.take(k) =~= s);
    }
}

/// Reads a lexeme as an unsigned 32-bit constant: the value when the
/// lexeme is a nonempty digit string whose value fits, nothing otherwise.
#[verifier::loop_isolation(false)]
pub fn parse_u32(s: &str) -> (r: Option<u32>)
    ensures
        r == u32_of_digits(s@),
{
    let n = s.unicode_len();
    if n == 0 {
        return None;
    }
    let mut acc: u32 = 0;
    let mut i: usize = 0;
    while i < n
        invariant
            i <= n,
            all_digits(s@.take(i as int)),
            acc == digits_val(s@.take(i as int)),
        decreases n - i,
    {
        let c = s.get_char(i);
        if !crate::lexer::is_digit_x(c) {
            proof {
                assert(!is_digit(s@[i as int]));
                assert(!all_digits(s@));
            }
            return None;
        }
        let d: u32 = (c as u32) - ('0' as u32);
        let wide: u64 = (acc as u64) * 10 + (d as u64);
        proof {
            assert(s@.take(i + 1).drop_last() =~= s@.take(i as int));
            assert(s@.take(i + 1).last() == s@[i as int]);
            assert(all_digits(s@.take(i + 1)));
            assert(digits_val(s@.take(i + 1)) == wide);
        }
        if wide > 0xffff_ffff {
            proof {
                if all_digits(s@) {
                    lemma_digits_val_take_le(s@, i + 1);
                    assert(digits_val(s@) > u32::MAX);
                }
            }
            return None;
        }
        acc = wide as u32;
        i = i + 1;
    }
    proof {
        assert(s@.take(n as int) =~= s@);
    }
    Some(acc)
}

/// The fixed shape lowering expects of a `Return` node: the constant token
/// at child position one.
pub open spec fn return_shape(t: Tree) -> bool {
    &&& t.kind == TreeKind::Return
    &&& t.children@.len() >= 2
    &&& t.children@[1] matches Child::Token(tok) && tok.kind == TokenKind::Constant
}

/// The lexeme of the constant a `Return` node carries.
pub open spec fn return_const_text(t: Tree) -> Seq<char> {
    match t.children@[1] {
        Child::Token(tok) => tok.text@,
        Child::Tree(_) => Seq::empty(),
    }
}

/// The fixed shape lowering expects of a `Function` node: the identifier
/// at child position one, the `Return` body at child position six.
pub open spec fn func_shape(t: Tree) -> bool {
    &&& t.kind == TreeKind::Function
    &&& t.children@.len() >= 7
    &&& t.children@[1] matches Child::Token(tok) && tok.kind == TokenKind::Identifier
    &&& t.children@[6] matches Child::Tree(_)
}

pub open spec fn func_ident_text(t: Tree) -> Seq<char> {
    match t.children@[1] {
        Child::Token(tok) => tok.text@,
        Child::Tree(_) => Seq::empty(),
    }
}

pub open spec fn func_body(t: Tree) -> Tree {
    match t.children@[6] {
        Child::Tree(b) => b,
        Child::Token(_) => t,
    }
}

/// The fixed shape lowering expects of the root: a `Program` whose first
/// child is the function subtree.
pub open spec fn prog_shape(t: Tree) -> bool {
    &&& t.kind == TreeKind::Program
    &&& t.children@.len() >= 1
    &&& t.children@[0] matches Child::Tree(_)
}

pub open spec fn prog_func(t: Tree) -> Tree {
    match t.children@[0] {
        Child::Tree(f) => f,
        Child::Token(_) => t,
    }
}

/// The whole structural condition under which a tree lowers.
pub open spec fn lower_ok(t: Tree) -> bool {
    &&& prog_shape(t)
    &&& func_shape(prog_func(t))
    &&& return_shape(func_body(prog_func(t)))
    &&& u32_of_digits(return_const_text(func_body(prog_func(t)))) is Some
}

/// The name the lowered function keeps.
pub open spec fn lower_ident(t: Tree) -> Seq<char> {
    func_ident_text(prog_func(t))
}

/// The immediate the lowered function returns.
pub open spec fn lower_value(t: Tree) -> u32 {
    u32_of_digits(return_const_text(func_body(prog_func(t)))).unwrap()
}

/// The two instructions every lowered function consists of.
pub open spec fn lower_instructions(v: u32) -> Seq<ASMInstruction> {
    seq![
        ASMInstruction::Mov { src: ASMOperand::Imm(v), dst: ASMOperand::Register },
        ASMInstruction::Ret,
    ]
}

/// Lowers a `Return` node: parses its constant and emits the move into
/// the return register followed by the return.
pub fn generate_return(tree: &Tree) -> (r: Result<Vec<ASMInstruction>, CompileError>)
    ensures
        r is Ok <==> (return_shape(*tree) && u32_of_digits(return_const_text(*tree)) is Some),
        r matches Ok(v) ==> v@ == lower_instructions(u32_of_digits(return_const_text(*tree)).unwrap()),
        r matches Err(e) ==> e == (if return_shape(*tree) {
            CompileError::BadConstant
        } else {
            CompileError::LoweringStructure
        }),
{
    match tree.kind {
        TreeKind::Return => {},
        _ => {
            return Err(CompileError::LoweringStructure);
        },
    }
    if tree.children.len() < 2 {
        return Err(CompileError::LoweringStructure);
    }
    match &tree.children[1] {
        Child::Token(tok) => {
            if tok.kind == TokenKind::Constant {
                match crate::lower::parse_u32(tok.text.as_str()) {
                    Some(v) => {
                        let out: Vec<ASMInstruction> = vec![
                            ASMInstruction::Mov {
                                src: ASMOperand::Imm(v),
                                dst: ASMOperand::Register,
                            },
                            ASMInstruction::Ret,
                        ];
                        proof {
                            assert(out@ =~= lower_instructions(v));
                        }
                        Ok(out)
                    },
                    None => Err(CompileError::BadConstant),
                }
            } else {
                Err(CompileError::LoweringStructure)
            }
        },
        Child::Tree(_) => Err(CompileError::LoweringStructure),
    }
}

/// Lowers a `Function` node: keeps its identifier and lowers its body.
pub fn generate_function(tree: &Tree) -> (r: Result<ASMFunction, CompileError>)
    ensures
        r is Ok <==> (func_shape(*tree) && return_shape(func_body(*tree)) && u32_of_digits(
            return_const_text(func_body(*tree)),
        ) is Some),
        r matches Ok(f) ==> f.identifier@ == func_ident_text(*tree) && f.instructions@
            == lower_instructions(u32_of_digits(return_const_text(func_body(*tree))).unwrap()),
        r matches Err(e) ==> e == (if func_shape(*tree) && return_shape(func_body(*tree)) {
            CompileError::BadConstant
        } else {
            CompileError::LoweringStructure
        }),
{
    match tree.kind {
        TreeKind::Function => {},
        _ => {
            return Err(CompileError::LoweringStructure);
        },
    }
    if tree.children.len() < 7 {
        return Err(CompileError::LoweringStructure);
    }
    let ident = match &tree.children[1] {
        Child::Token(tok) => {
            if tok.kind == TokenKind::Identifier {
                tok.text.clone()
            } else {
                return Err(CompileError::LoweringStructure);
            }
        },
        Child::Tree(_) => {
            return Err(CompileError::LoweringStructure);
        },
    };
    match &tree.children[6] {
        Child::Tree(body) => {
            match generate_return(body) {
                Ok(instructions) => Ok(ASMFunction { identifier: ident, instructions }),
                Err(e) => Err(e),
            }
        },
        Child::Token(_) => Err(CompileError::LoweringStructure),
    }
}

/// Lowers a whole tree: the root must be a `Program` whose first child is
/// the function.
pub fn generate_assembly(tree: &Tree) -> (r: Result<ASMProgram, CompileError>)
    ensures
        r is Ok <==> lower_ok(*tree),
        r matches Ok(p) ==> p.0.identifier@ == lower_ident(*tree) && p.0.instructions@
            == lower_instructions(lower_value(*tree)),
        r matches Err(e) ==> e == (if prog_shape(*tree) && func_shape(prog_func(*tree))
            && return_shape(func_body(prog_func(*tree))) {
            CompileError::BadConstant
        } else {
            CompileError::LoweringStructure
        }),
{
    match tree.kind {
        TreeKind::Program => {},
        _ => {
            return Err(CompileError::LoweringStructure);
        },
    }
    if tree.children.len() < 1 {
        return Err(CompileError::LoweringStructure);
    }
    match &tree.children[0] {
        Child::Tree(f) => {
            match generate_function(f) {
                Ok(func) => Ok(ASMProgram(func)),
                Err(e) => Err(e),
            }
        },
        Child::Token(_) => Err(CompileError::LoweringStructure),
    }
}

} // verus!
