use vstd::prelude::*;

use crate::lower::{ASMInstruction, ASMOperand, ASMProgram};
use vstd::string::StrSliceExecFns;
use vstd::string::StringExecFns;
use vstd::utf8::encode_utf8;

verus! {

/// The single decimal digit `d` as text.
pub open spec fn digit_lit(d: int) -> Seq<char> {
    if d == 0 {
        "0"@
    } else if d == 1 {
        "1"@
    } else if d == 2 {
        "2"@
    } else if d == 3 {
        "3"@
    } else if d == 4 {
        "4"@
    } else if d == 5 {
        "5"@
    } else if d == 6 {
        "6"@
    } else if d == 7 {
        "7"@
    } else if d == 8 {
        "8"@
    } else {
        "9"@
    }
}

/// The decimal rendering of `n`, most significant digit first, no sign
/// and no leading zero.
pub open spec fn dec_str(n: int) -> Seq<char>
    decreases n
        when 0 <= n
{
    if n < 10 {
        digit_lit(n)
    } else {
        dec_str(n / 10) + digit_lit(n % 10)
    }
}

/// The operand syntax of the target: `$i` for an immediate, the one
/// hardware register otherwise.
pub open spec fn emit_op_text(op: ASMOperand) -> Seq<char> {
    match op {
        ASMOperand::Imm(i) => "$"@ + dec_str(i as int),
        ASMOperand::Register => "%eax"@,
    }
}

/// One emitted instruction line.
pub open spec fn instr_text(ins: ASMInstruction) -> Seq<char> {
    match ins {
        ASMInstruction::Mov { src, dst } => "\tmovl\t"@ + emit_op_text(src) + ", "@ + emit_op_text(
            dst,
        ) + "\n"@,
        ASMInstruction::Ret => "\tret\n"@,
    }
}

/// The emitted lines of an instruction list, in order.
pub open spec fn instrs_text(l: Seq<ASMInstruction>) -> Seq<char>
    decreases l.len(),
{
    if l.len() == 0 {
        Seq::empty()
    } else {
        instr_text(l[0]) + instrs_text(l.drop_first())
    }
}

/// The whole assembly text of a function: the global-symbol directive for
/// the externally prefixed name, the label, then the instructions.
pub open spec fn emit_text(identifier: Seq<char>, instrs: Seq<ASMInstruction>) -> Seq<char> {
    "\t.globl\t_"@ + identifier + "\n"@ + "_"@ + identifier + ":\n"@ + instrs_text(instrs)
}

/// Extending the instruction list by one extends the text by its line.
pub proof fn lemma_instrs_text_take(l: Seq<ASMInstruction>, i: int)
    requires
        0 <= i < l.len(),
    ensures
        instrs_text(l.take(i + 1)) == instrs_text(l.take(i)) + instr_text(l[i]),
    decreases i,
{
    if i == 0 {
        assert(l.take(1).drop_first() =~= Seq::<ASMInstruction>::empty());
        assert(l.take(0) =~= Seq::<ASMInstruction>::empty());
        assert(instrs_text(l.take(1)) =~= instrs_text(l.take(0)) + instr_text(l[0]));
    } else {
        lemma_instrs_text_take(l.drop_first(), i - 1);
        assert(l.take(i + 1).drop_first() =~= l.drop_first().take(i));
        assert(l.take(i).drop_first() =~= l.drop_first().take(i - 1));
        assert(l.take(i + 1)[0] == l[0]);
        assert(l.take(i)[0] == l[0]);
        assert(l.drop_first()[i - 1] == l[i]);
        assert(instr_text(l[0]) + (instrs_text(l.drop_first().take(i - 1)) + instr_text(l[i]))
            =~= (instr_text(l[0]) + instrs_text(l.drop_first().take(i - 1))) + instr_text(l[i]));
    }
}

fn digit_str(d: u32) -> (r: &'static str)
    requires
        d < 10,
    ensures
        r@ == digit_lit(d as int),
{
    if d == 0 {
        "0"
    } else if d == 1 {
        "1"
    } else if d == 2 {
        "2"
    } else if d == 3 {
        "3"
    } else if d == 4 {
        "4"
    } else if d == 5 {
        "5"
    } else if d == 6 {
        "6"
    } else if d == 7 {
        "7"
    } else if d == 8 {
        "8"
    } else {
        "9"
    }
}

fn dec_str_x(n: u32) -> (r: String)
    ensures
        r@ == dec_str(n as int),
    decreases n,
{
    if n < 10 {
        digit_str(n).to_owned()
    } else {
        let mut s = dec_str_x(n / 10);
        s.append(digit_str(n % 10));
        s
    }
}

fn emit_op_str(op: &ASMOperand) -> (r: String)
    ensures
        r@ == emit_op_text(*op),
{
    match op {
        ASMOperand::Imm(i) => {
            let mut s = "$".to_owned();
            let d = dec_str_x(*i);
            s.append(d.as_str());
            s
        },
        ASMOperand::Register => "%eax".to_owned(),
    }
}

/// Serializes one operand, centralizing the target's operand syntax.
pub fn emit_op(op: &ASMOperand) -> (r: Vec<u8>)
    ensures
        r@ == encode_utf8(emit_op_text(*op)),
{
    let s = emit_op_str(op);
    s.as_str().as_bytes_vec()
}

/// Serializes the whole program as assembly text, one pass, no
/// optimization: deterministic and byte for byte what `emit_text` says.
#[verifier::loop_isolation(false)]
pub fn emit_program(prog: &ASMProgram) -> (r: Vec<u8>)
    ensures
        r@ == encode_utf8(emit_text(prog.0.identifier@, prog.0.instructions@)),
{
    let mut out: String = "\t.globl\t_".to_owned();
    out.append(prog.0.identifier.as_str());
    out.append("\n");
    out.append("_");
    out.append(prog.0.identifier.as_str());
    out.append(":\n");
    let ghost head = out@;
    let n = prog.0.instructions.len();
    let mut i: usize = 0;
    while i < n
        invariant
            i <= n,
            out@ == head + instrs_text(prog.0.instructions@.take(i as int)),
        decreases n - i,
    {
        proof {
            lemma_instrs_text_take(prog.0.instructions@, i as int);
        }
        match prog.0.instructions[i] {
            ASMInstruction::Mov { src, dst } => {
                out.append("\tmovl\t");
                let s = emit_op_str(&src);
                out.append(s.as_str());
                out.append(", ");
                let d = emit_op_str(&dst);
                out.append(d.as_str());
                out.append("\n");
            },
            ASMInstruction::Ret => {
                out.append("\tret\n");
            },
        }
        i = i + 1;
    }
    proof {
        assert(prog.0.instructions@.take(n as int) =~= prog.0.instructions@);
        assert(out@ =~= emit_text(prog.0.identifier@, prog.0.instructions@));
    }
    out.as_str().as_bytes_vec()
}

} // verus!
