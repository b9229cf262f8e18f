//! Stack balance: in the code of a program that passed semantic analysis
//! the operand stack has a fixed height at each address, relative to the
//! base of the active frame, and so every call that returns leaves the
//! stack exactly one deeper than it was below the arguments.

use super::bytecode::{find_function, SpecFunction, SpecInstruction, SpecProgram};
use super::checked::{lemma_checked_block_compiles, lemma_valid_program_compiles};
use super::jumps::{jumps_within, lemma_function_jumps};
use super::lowering::{
    args_code, block_code, block_len, call_instruction, compile, else_code, expr_code,
    function_code, function_len, functions_code, functions_len, lemma_block_code_len,
    lemma_else_code_len, lemma_stmts_code_len, op_instruction, params_code, stmt_code, stmts_code,
    stmts_len, LoopTargets,
};
use super::model::{lemma_steps_split, steps, SpecVm};
use super::scoping::{
    lemma_found_in_table, lemma_functions_code_len, lemma_functions_len_grows, resume_at,
};
use super::vm::load;
use crate::ast::{SpecBlock, SpecExpr, SpecFunctionDecl, SpecProgram as SpecSource, SpecStmt};
use crate::semantic::{
    args_error, block_error, check_stmt, check_stmts, collect, expr_error, fresh, function_error,
    functions_error, is_valid, lemma_args_error_prefix, names_set, SpecNames, SpecSignature,
};
use vstd::prelude::*;

verus! {

/// What an instruction does to the height of the operand stack, counted
/// for a call as a whole: a call takes its arguments and leaves the
/// result, a return takes the result. A call of `print` is the builtin,
/// which takes one value and leaves one.
pub open spec fn stack_effect(i: SpecInstruction) -> int {
    match i {
        SpecInstruction::PushInt(_) => 1,
        SpecInstruction::PushString(_) => 1,
        SpecInstruction::PushVoid => 1,
        SpecInstruction::LoadVar(_) => 1,
        SpecInstruction::StoreVar(_) => -1,
        SpecInstruction::EnterScope => 0,
        SpecInstruction::ExitScope => 0,
        SpecInstruction::Add => -1,
        SpecInstruction::Sub => -1,
        SpecInstruction::Mul => -1,
        SpecInstruction::Div => -1,
        SpecInstruction::Less => -1,
        SpecInstruction::Greater => -1,
        SpecInstruction::Equal => -1,
        SpecInstruction::Call(name, argc) => if name == "print"@ {
            0
        } else {
            1 - argc
        },
        SpecInstruction::Return => -1,
        SpecInstruction::Print => 0,
        SpecInstruction::Pop => -1,
        SpecInstruction::Jump(_) => 0,
        SpecInstruction::JumpIfFalse(_) => -1,
        SpecInstruction::Halt => 0,
    }
}

/// How many values an instruction takes off the operand stack.
pub open spec fn operands(i: SpecInstruction) -> int {
    match i {
        SpecInstruction::StoreVar(_) => 1,
        SpecInstruction::Add => 2,
        SpecInstruction::Sub => 2,
        SpecInstruction::Mul => 2,
        SpecInstruction::Div => 2,
        SpecInstruction::Less => 2,
        SpecInstruction::Greater => 2,
        SpecInstruction::Equal => 2,
        SpecInstruction::Call(name, argc) => if name == "print"@ {
            1
        } else {
            argc as int
        },
        SpecInstruction::Return => 1,
        SpecInstruction::Print => 1,
        SpecInstruction::Pop => 1,
        SpecInstruction::JumpIfFalse(_) => 1,
        _ => 0,
    }
}

/// The effect of the instruction at address `i`; nothing behind the
/// code.
pub open spec fn stack_effect_at(code: Seq<SpecInstruction>, i: nat) -> int {
    if i < code.len() {
        stack_effect(code[i as int])
    } else {
        0
    }
}

/// The height of the stack at address `pc`, over what it is at the start
/// of the code, if the code before `pc` is executed in line.
pub open spec fn height_at(code: Seq<SpecInstruction>, pc: nat) -> int
    decreases pc,
{
    if pc == 0 {
        0
    } else {
        height_at(code, (pc - 1) as nat) + stack_effect_at(code, (pc - 1) as nat)
    }
}

/// The height behind the whole code.
pub open spec fn rise(code: Seq<SpecInstruction>) -> int {
    height_at(code, code.len())
}

/// Inside the first of two pieces of code the height is that of the
/// first piece alone.
pub proof fn lemma_height_prefix(a: Seq<SpecInstruction>, b: Seq<SpecInstruction>, pc: nat)
    requires
        pc <= a.len(),
    ensures
        height_at(a + b, pc) == height_at(a, pc),
    decreases pc,
{
    if pc > 0 {
        lemma_height_prefix(a, b, (pc - 1) as nat);
        assert((a + b)[pc - 1] == a[pc - 1]);
    }
}

/// Inside the second of two pieces of code the height is that of the
/// second piece on top of what the first piece leaves.
pub proof fn lemma_height_suffix(a: Seq<SpecInstruction>, b: Seq<SpecInstruction>, j: nat)
    ensures
        height_at(a + b, a.len() + j) == rise(a) + height_at(b, j),
    decreases j,
{
    if j == 0 {
        lemma_height_prefix(a, b, a.len());
    } else {
        lemma_height_suffix(a, b, (j - 1) as nat);
        if j - 1 < b.len() {
            assert((a + b)[a.len() + j - 1] == b[j - 1]);
        }
    }
}

/// The height inside the middle one of three pieces of code.
pub proof fn lemma_height_in_middle(
    pre: Seq<SpecInstruction>,
    inner: Seq<SpecInstruction>,
    post: Seq<SpecInstruction>,
    x: nat,
)
    requires
        x <= inner.len(),
    ensures
        height_at(pre + inner + post, pre.len() + x) == rise(pre) + height_at(inner, x),
{
    lemma_height_prefix(pre + inner, post, pre.len() + x);
    lemma_height_suffix(pre, inner, x);
}

/// The rises of two pieces of code, one behind the other, add up.
pub proof fn lemma_rise_concat(a: Seq<SpecInstruction>, b: Seq<SpecInstruction>)
    ensures
        rise(a + b) == rise(a) + rise(b),
{
    lemma_height_suffix(a, b, b.len());
}

/// One more instruction adds its effect to the rise.
pub proof fn lemma_rise_push(a: Seq<SpecInstruction>, x: SpecInstruction)
    ensures
        rise(a.push(x)) == rise(a) + stack_effect(x),
{
    let one = seq![x];
    assert(height_at(one, 1) == height_at(one, 0) + stack_effect_at(one, 0));
    lemma_rise_concat(a, one);
    assert(a.push(x) =~= a + one);
}

/// Code that holds neither a jump nor a return.
pub open spec fn straight(piece: Seq<SpecInstruction>) -> bool {
    forall|i: int|
        0 <= i < piece.len() ==> (#[trigger] piece[i]).jump_target() is None && piece[i]
            != SpecInstruction::Return
}

/// Two straight pieces of code, one behind the other, are straight.
pub proof fn lemma_straight_concat(a: Seq<SpecInstruction>, b: Seq<SpecInstruction>)
    requires
        straight(a),
        straight(b),
    ensures
        straight(a + b),
{
    assert forall|i: int| 0 <= i < (a + b).len() implies (#[trigger] (a + b)[i]).jump_target()
        is None && (a + b)[i] != SpecInstruction::Return by {
        if i < a.len() {
            assert((a + b)[i] == a[i]);
        } else {
            assert((a + b)[i] == b[i - a.len()]);
        }
    }
}

/// Straight code with a straight instruction behind it is straight.
pub proof fn lemma_straight_push(a: Seq<SpecInstruction>, x: SpecInstruction)
    requires
        straight(a),
        x.jump_target() is None,
        x != SpecInstruction::Return,
    ensures
        straight(a.push(x)),
{
    assert forall|i: int| 0 <= i < a.push(x).len() implies (#[trigger] a.push(
        x,
    )[i]).jump_target() is None && a.push(x)[i] != SpecInstruction::Return by {
        if i < a.len() {
            assert(a.push(x)[i] == a[i]);
        }
    }
}

/// Whether every instruction of a piece of code finds its operands among
/// the values that the code before it has left.
pub open spec fn fed(piece: Seq<SpecInstruction>) -> bool {
    forall|i: int| 0 <= i < piece.len() ==> #[trigger] operand_ready(piece, i)
}

/// Whether the instruction at index `i` finds its operands above where
/// the piece started.
pub open spec fn operand_ready(piece: Seq<SpecInstruction>, i: int) -> bool {
    height_at(piece, i as nat) >= operands(piece[i])
}

/// Two pieces of code that find their operands, one behind the other,
/// where the first takes nothing that it did not bring.
pub proof fn lemma_fed_concat(a: Seq<SpecInstruction>, b: Seq<SpecInstruction>)
    requires
        fed(a),
        fed(b),
        rise(a) >= 0,
    ensures
        fed(a + b),
{
    assert forall|i: int| 0 <= i < (a + b).len() implies #[trigger] operand_ready(a + b, i) by {
        if i < a.len() {
            assert((a + b)[i] == a[i]);
            assert(operand_ready(a, i));
            lemma_height_prefix(a, b, i as nat);
        } else {
            assert((a + b)[i] == b[i - a.len()]);
            assert(operand_ready(b, i - a.len()));
            lemma_height_suffix(a, b, (i - a.len()) as nat);
        }
    }
}

/// Code that finds its operands, and one more instruction that finds
/// its own in what the code leaves.
pub proof fn lemma_fed_push(a: Seq<SpecInstruction>, x: SpecInstruction)
    requires
        fed(a),
        rise(a) >= operands(x),
    ensures
        fed(a.push(x)),
{
    let code = a.push(x);
    assert(code =~= a + seq![x]);
    assert forall|i: int| 0 <= i < code.len() implies #[trigger] operand_ready(code, i) by {
        lemma_height_prefix(a, seq![x], i as nat);
        if i < a.len() {
            assert(code[i] == a[i]);
            assert(operand_ready(a, i));
        }
    }
}

/// The code of an expression without violation is straight, finds its
/// operands, and leaves one value more on the stack than it found.
pub proof fn lemma_expr_rises(e: SpecExpr, scopes: Seq<SpecNames>, table: Seq<SpecSignature>)
    requires
        expr_error(e, scopes, table) is None,
    ensures
        straight(expr_code(e)),
        fed(expr_code(e)),
        rise(expr_code(e)) == 1,
    decreases e, 0nat,
{
    let none = Seq::<SpecInstruction>::empty();
    assert(straight(none));
    assert(fed(none));
    assert(rise(none) == 0);
    match e {
        SpecExpr::IntLiteral(v) => {
            lemma_straight_push(none, SpecInstruction::PushInt(v));
            lemma_fed_push(none, SpecInstruction::PushInt(v));
            lemma_rise_push(none, SpecInstruction::PushInt(v));
            assert(expr_code(e) =~= none.push(SpecInstruction::PushInt(v)));
        },
        SpecExpr::StringLiteral(s) => {
            lemma_straight_push(none, SpecInstruction::PushString(s));
            lemma_fed_push(none, SpecInstruction::PushString(s));
            lemma_rise_push(none, SpecInstruction::PushString(s));
            assert(expr_code(e) =~= none.push(SpecInstruction::PushString(s)));
        },
        SpecExpr::VarRef(name) => {
            lemma_straight_push(none, SpecInstruction::LoadVar(name));
            lemma_fed_push(none, SpecInstruction::LoadVar(name));
            lemma_rise_push(none, SpecInstruction::LoadVar(name));
            assert(expr_code(e) =~= none.push(SpecInstruction::LoadVar(name)));
        },
        SpecExpr::Binary { left, op, right } => {
            lemma_expr_rises(*left, scopes, table);
            lemma_expr_rises(*right, scopes, table);
            lemma_straight_concat(expr_code(*left), expr_code(*right));
            lemma_fed_concat(expr_code(*left), expr_code(*right));
            lemma_rise_concat(expr_code(*left), expr_code(*right));
            lemma_straight_push(expr_code(*left) + expr_code(*right), op_instruction(op));
            lemma_fed_push(expr_code(*left) + expr_code(*right), op_instruction(op));
            lemma_rise_push(expr_code(*left) + expr_code(*right), op_instruction(op));
        },
        SpecExpr::Call { name, args } => {
            lemma_args_rise(args, args.len(), args.len(), scopes, table);
            lemma_straight_push(
                args_code(args, args.len()),
                call_instruction(name, args.len()),
            );
            lemma_fed_push(args_code(args, args.len()), call_instruction(name, args.len()));
            lemma_rise_push(args_code(args, args.len()), call_instruction(name, args.len()));
        },
    }
}

/// The code of the first `n` arguments of a call without violation is
/// straight and leaves `n` values more on the stack.
pub proof fn lemma_args_rise(
    args: Seq<SpecExpr>,
    n: nat,
    m: nat,
    scopes: Seq<SpecNames>,
    table: Seq<SpecSignature>,
)
    requires
        n <= m <= args.len(),
        args_error(args, m, scopes, table) is None,
    ensures
        straight(args_code(args, n)),
        fed(args_code(args, n)),
        rise(args_code(args, n)) == n,
        args_error(args, n, scopes, table) is None,
    decreases args, n,
{
    lemma_args_error_prefix(args, n, m, scopes, table);
    if n > 0 {
        let k = (n - 1) as nat;
        lemma_args_rise(args, k, m, scopes, table);
        lemma_expr_rises(args[n - 1], scopes, table);
        lemma_straight_concat(args_code(args, k), expr_code(args[n - 1]));
        lemma_fed_concat(args_code(args, k), expr_code(args[n - 1]));
        lemma_rise_concat(args_code(args, k), expr_code(args[n - 1]));
    } else {
        assert(straight(args_code(args, 0)));
        assert(fed(args_code(args, 0)));
    }
}

/// Whether the jump at index `i` of a piece of code that stands at `at`,
/// if there is one, leads to a place in the piece where the stack is as
/// high as the jump leaves it, or, inside a loop, leaves the stack as
/// high as it is at the start of the piece and leads to a target of the
/// loop.
pub open spec fn jump_steady(
    piece: Seq<SpecInstruction>,
    at: nat,
    lp: LoopTargets,
    in_loop: bool,
    i: int,
) -> bool {
    piece[i].jump_target() matches Some(t) ==> {
        ||| at <= t <= at + piece.len() && height_at(piece, (t - at) as nat) == height_at(
            piece,
            (i + 1) as nat,
        )
        ||| in_loop && (t == lp.start || t == lp.end) && height_at(piece, (i + 1) as nat) == 0
    }
}

/// Whether a piece of code that stands at `at` keeps the stack in
/// order: it leaves the stack as high as it found it, its jumps are
/// steady and its instructions find their operands.
pub open spec fn orderly(piece: Seq<SpecInstruction>, at: nat, lp: LoopTargets, in_loop: bool)
    -> bool {
    &&& rise(piece) == 0
    &&& forall|i: int| 0 <= i < piece.len() ==> #[trigger] jump_steady(piece, at, lp, in_loop, i)
    &&& forall|i: int| 0 <= i < piece.len() ==> #[trigger] operand_ready(piece, i)
}

/// What holds of an instruction of an orderly piece of code holds of it
/// where the piece stands between two others, behind code that leaves
/// the stack as high as it found it.
pub proof fn lemma_orderly_embedded(
    pre: Seq<SpecInstruction>,
    inner: Seq<SpecInstruction>,
    post: Seq<SpecInstruction>,
    at: nat,
    lp: LoopTargets,
    in_loop: bool,
    i: int,
)
    requires
        orderly(inner, at + pre.len(), lp, in_loop),
        rise(pre) == 0,
        pre.len() <= i < pre.len() + inner.len(),
    ensures
        jump_steady(pre + inner + post, at, lp, in_loop, i),
        operand_ready(pre + inner + post, i),
{
    let whole = pre + inner + post;
    let j = i - pre.len();
    assert(whole[i] == inner[j]);
    assert(jump_steady(inner, at + pre.len(), lp, in_loop, j));
    assert(operand_ready(inner, j));
    lemma_height_in_middle(pre, inner, post, j as nat);
    lemma_height_in_middle(pre, inner, post, (j + 1) as nat);
    if inner[j].jump_target() is Some {
        let t = inner[j].jump_target()->Some_0;
        if at + pre.len() <= t <= at + pre.len() + inner.len() {
            lemma_height_in_middle(pre, inner, post, (t - at - pre.len()) as nat);
        }
    }
}

/// Straight code that leaves one value, and an instruction behind it
/// that takes one and is no jump: an orderly piece of code.
pub proof fn lemma_plain_orderly(
    piece: Seq<SpecInstruction>,
    x: SpecInstruction,
    at: nat,
    lp: LoopTargets,
    in_loop: bool,
)
    requires
        straight(piece),
        fed(piece),
        rise(piece) == 1,
        x.jump_target() is None,
        stack_effect(x) == -1,
        operands(x) <= 1,
    ensures
        orderly(piece.push(x), at, lp, in_loop),
{
    let code = piece.push(x);
    lemma_rise_push(piece, x);
    assert(code =~= piece + seq![x]);
    lemma_height_prefix(piece, seq![x], piece.len());
    assert forall|i: int| 0 <= i < code.len() implies #[trigger] jump_steady(
        code,
        at,
        lp,
        in_loop,
        i,
    ) by {
        if i < piece.len() {
            assert(code[i] == piece[i]);
        }
    }
    assert forall|i: int| 0 <= i < code.len() implies #[trigger] operand_ready(code, i) by {
        if i < piece.len() {
            assert(code[i] == piece[i]);
            assert(operand_ready(piece, i));
            lemma_height_prefix(piece, seq![x], i as nat);
        }
    }
}

/// A conditional whose branches are orderly is orderly.
pub proof fn lemma_if_orderly(
    cond: Seq<SpecInstruction>,
    t: Seq<SpecInstruction>,
    e: Seq<SpecInstruction>,
    at: nat,
    lp: LoopTargets,
    in_loop: bool,
)
    requires
        straight(cond),
        fed(cond),
        rise(cond) == 1,
        orderly(t, at + cond.len() + 1, lp, in_loop),
        orderly(e, at + cond.len() + 1 + t.len() + 1, lp, in_loop),
    ensures
        orderly(
            cond.push(SpecInstruction::JumpIfFalse(at + cond.len() + 1 + t.len() + 1)) + t.push(
                SpecInstruction::Jump(at + cond.len() + 1 + t.len() + 1 + e.len()),
            ) + e,
            at,
            lp,
            in_loop,
        ),
{
    let else_at = at + cond.len() + 1 + t.len() + 1;
    let end = else_at + e.len();
    let test = seq![SpecInstruction::JumpIfFalse(else_at)];
    let head = cond.push(SpecInstruction::JumpIfFalse(else_at));
    let skip = seq![SpecInstruction::Jump(end)];
    let none = Seq::<SpecInstruction>::empty();
    let code = head + t.push(SpecInstruction::Jump(end)) + e;
    lemma_rise_push(cond, SpecInstruction::JumpIfFalse(else_at));
    lemma_rise_push(none, SpecInstruction::Jump(end));
    assert(skip =~= none.push(SpecInstruction::Jump(end)));
    assert(rise(none) == 0);
    lemma_rise_concat(head, t);
    lemma_rise_concat(head + t, skip);
    lemma_rise_concat(head + t + skip, e);
    assert(code =~= head + t + (skip + e));
    assert(code =~= (head + t + skip) + e + none);
    assert(code =~= (head + t + skip) + e);
    assert(code =~= (head + t) + (skip + e));
    assert(code =~= head + (t + (skip + e)));
    assert(head =~= cond + test);
    lemma_height_prefix(head + t + skip, e, (head + t + skip).len());
    lemma_height_prefix(head + t, skip + e, (head + t).len());
    lemma_height_prefix(head, t + (skip + e), head.len());
    lemma_height_prefix(head, t + (skip + e), cond.len());
    lemma_height_prefix(cond, test, cond.len());
    assert(height_at(code, code.len()) == 0);
    assert(height_at(code, head.len()) == 0);
    assert(height_at(code, (head + t).len()) == 0);
    assert(height_at(code, (head + t + skip).len()) == 0);
    assert forall|i: int| 0 <= i < code.len() implies #[trigger] jump_steady(
        code,
        at,
        lp,
        in_loop,
        i,
    ) by {
        if i < cond.len() {
            assert(code[i] == cond[i]);
        } else if i == cond.len() {
            assert(code[i] == SpecInstruction::JumpIfFalse(else_at));
        } else if i < head.len() + t.len() {
            lemma_orderly_embedded(head, t, skip + e, at, lp, in_loop, i);
        } else if i == head.len() + t.len() {
            assert(code[i] == SpecInstruction::Jump(end));
        } else {
            lemma_orderly_embedded(head + t + skip, e, none, at, lp, in_loop, i);
        }
    }
    assert forall|i: int| 0 <= i < code.len() implies #[trigger] operand_ready(code, i) by {
        if i <= cond.len() {
            lemma_height_prefix(head, t + (skip + e), i as nat);
            lemma_height_prefix(cond, test, i as nat);
            if i < cond.len() {
                assert(code[i] == cond[i]);
                assert(operand_ready(cond, i));
            } else {
                assert(code[i] == SpecInstruction::JumpIfFalse(else_at));
            }
        } else if i < head.len() + t.len() {
            lemma_orderly_embedded(head, t, skip + e, at, lp, in_loop, i);
        } else if i == head.len() + t.len() {
            assert(code[i] == SpecInstruction::Jump(end));
        } else {
            lemma_orderly_embedded(head + t + skip, e, none, at, lp, in_loop, i);
        }
    }
}

/// A loop whose body is orderly is orderly; the jumps of the body to
/// the loop's targets lead to its start and right behind its end.
pub proof fn lemma_while_orderly(
    cond: Seq<SpecInstruction>,
    b: Seq<SpecInstruction>,
    at: nat,
    lp: LoopTargets,
    in_loop: bool,
)
    requires
        straight(cond),
        fed(cond),
        rise(cond) == 1,
        orderly(
            b,
            at + cond.len() + 1,
            LoopTargets { start: at, end: at + cond.len() + 1 + b.len() + 1 },
            true,
        ),
    ensures
        orderly(
            cond.push(SpecInstruction::JumpIfFalse(at + cond.len() + 1 + b.len() + 1)) + b.push(
                SpecInstruction::Jump(at),
            ),
            at,
            lp,
            in_loop,
        ),
{
    let end = at + cond.len() + 1 + b.len() + 1;
    let inner = LoopTargets { start: at, end };
    let test = seq![SpecInstruction::JumpIfFalse(end)];
    let head = cond.push(SpecInstruction::JumpIfFalse(end));
    let back = seq![SpecInstruction::Jump(at)];
    let none = Seq::<SpecInstruction>::empty();
    let code = head + b.push(SpecInstruction::Jump(at));
    lemma_rise_push(cond, SpecInstruction::JumpIfFalse(end));
    lemma_rise_push(none, SpecInstruction::Jump(at));
    assert(back =~= none.push(SpecInstruction::Jump(at)));
    assert(rise(none) == 0);
    lemma_rise_concat(head, b);
    lemma_rise_concat(head + b, back);
    assert(code =~= head + b + back);
    assert(code =~= head + (b + back));
    assert(code =~= (head + b) + back);
    assert(head =~= cond + test);
    lemma_height_prefix(head, b + back, head.len());
    lemma_height_prefix(head + b, back, (head + b).len());
    assert(height_at(code, code.len()) == 0);
    assert(height_at(code, 0) == 0);
    assert(height_at(code, head.len()) == 0);
    assert(height_at(code, (head + b).len()) == 0);
    assert forall|i: int| 0 <= i < code.len() implies #[trigger] jump_steady(
        code,
        at,
        lp,
        in_loop,
        i,
    ) by {
        if i < cond.len() {
            assert(code[i] == cond[i]);
        } else if i == cond.len() {
            assert(code[i] == SpecInstruction::JumpIfFalse(end));
        } else if i < head.len() + b.len() {
            lemma_orderly_embedded(head, b, back, at, inner, true, i);
            assert(jump_steady(code, at, inner, true, i));
        } else {
            assert(code[i] == SpecInstruction::Jump(at));
        }
    }
    assert forall|i: int| 0 <= i < code.len() implies #[trigger] operand_ready(code, i) by {
        if i <= cond.len() {
            lemma_height_prefix(head, b + back, i as nat);
            lemma_height_prefix(cond, test, i as nat);
            if i < cond.len() {
                assert(code[i] == cond[i]);
                assert(operand_ready(cond, i));
            } else {
                assert(code[i] == SpecInstruction::JumpIfFalse(end));
            }
        } else if i < head.len() + b.len() {
            lemma_orderly_embedded(head, b, back, at, inner, true, i);
        } else {
            assert(code[i] == SpecInstruction::Jump(at));
        }
    }
}

/// The code of a statement that passes semantic analysis is orderly.
pub proof fn lemma_stmt_orderly(
    s: SpecStmt,
    at: nat,
    lp: LoopTargets,
    scopes: Seq<SpecNames>,
    in_loop: bool,
    table: Seq<SpecSignature>,
)
    requires
        check_stmt(s, scopes, in_loop, table) is Ok,
    ensures
        orderly(stmt_code(s, at, lp), at, lp, in_loop),
    decreases s, 0nat,
{
    match s {
        SpecStmt::Let { name, value } => {
            lemma_expr_rises(value, scopes, table);
            lemma_plain_orderly(expr_code(value), SpecInstruction::StoreVar(name), at, lp, in_loop);
        },
        SpecStmt::Assign { name, value } => {
            lemma_expr_rises(value, scopes, table);
            lemma_plain_orderly(expr_code(value), SpecInstruction::StoreVar(name), at, lp, in_loop);
        },
        SpecStmt::ExprStmt(e) => {
            lemma_expr_rises(e, scopes, table);
            lemma_plain_orderly(expr_code(e), SpecInstruction::Pop, at, lp, in_loop);
        },
        SpecStmt::Return(e) => {
            lemma_expr_rises(e, scopes, table);
            lemma_return_orderly(expr_code(e), at, lp, in_loop);
        },
        SpecStmt::If { condition, then_block, else_block } => {
            let cond = expr_code(condition);
            let then_at = at + cond.len() + 1;
            let else_at = then_at + block_len(then_block) + 1;
            lemma_expr_rises(condition, scopes, table);
            lemma_block_orderly(then_block, then_at, lp, scopes, in_loop, table);
            lemma_block_code_len(then_block, then_at, lp);
            lemma_else_code_len(else_block, else_at, lp);
            match else_block {
                Some(b) => {
                    lemma_block_orderly(b, else_at, lp, scopes, in_loop, table);
                },
                None => {
                    lemma_empty_orderly(else_at, lp, in_loop);
                },
            }
            lemma_if_orderly(
                cond,
                block_code(then_block, then_at, lp),
                else_code(else_block, else_at, lp),
                at,
                lp,
                in_loop,
            );
        },
        SpecStmt::While { condition, body } => {
            let cond = expr_code(condition);
            let body_at = at + cond.len() + 1;
            let end = body_at + block_len(body) + 1;
            let inner = LoopTargets { start: at, end };
            lemma_expr_rises(condition, scopes, table);
            lemma_block_orderly(body, body_at, inner, scopes, true, table);
            lemma_block_code_len(body, body_at, inner);
            lemma_while_orderly(cond, block_code(body, body_at, inner), at, lp, in_loop);
        },
        SpecStmt::Break => {
            lemma_exit_orderly(lp.end, at, lp);
        },
        SpecStmt::Continue => {
            lemma_exit_orderly(lp.start, at, lp);
        },
    }
}

/// The jump of a `break` or `continue` is orderly code: it leaves the
/// stack as it is and leads to a target of the loop.
pub proof fn lemma_exit_orderly(target: nat, at: nat, lp: LoopTargets)
    requires
        target == lp.start || target == lp.end,
    ensures
        orderly(seq![SpecInstruction::Jump(target)], at, lp, true),
{
    let code = seq![SpecInstruction::Jump(target)];
    assert(height_at(code, 1) == height_at(code, 0) + stack_effect_at(code, 0));
    assert forall|i: int| 0 <= i < code.len() implies #[trigger] jump_steady(
        code,
        at,
        lp,
        true,
        i,
    ) by {}
}

/// No code at all is orderly.
pub proof fn lemma_empty_orderly(at: nat, lp: LoopTargets, in_loop: bool)
    ensures
        orderly(Seq::<SpecInstruction>::empty(), at, lp, in_loop),
{
}

/// Straight code that leaves one value, and a return behind it, is
/// orderly: the return finds the value.
pub proof fn lemma_return_orderly(
    piece: Seq<SpecInstruction>,
    at: nat,
    lp: LoopTargets,
    in_loop: bool,
)
    requires
        straight(piece),
        fed(piece),
        rise(piece) == 1,
    ensures
        orderly(piece.push(SpecInstruction::Return), at, lp, in_loop),
{
    let x = SpecInstruction::Return;
    let code = piece.push(x);
    lemma_rise_push(piece, x);
    assert(code =~= piece + seq![x]);
    lemma_height_prefix(piece, seq![x], piece.len());
    assert forall|i: int| 0 <= i < code.len() implies #[trigger] jump_steady(
        code,
        at,
        lp,
        in_loop,
        i,
    ) by {
        if i < piece.len() {
            assert(code[i] == piece[i]);
        }
    }
    assert forall|i: int| 0 <= i < code.len() implies #[trigger] operand_ready(code, i) by {
        if i < piece.len() {
            assert(code[i] == piece[i]);
            assert(operand_ready(piece, i));
            lemma_height_prefix(piece, seq![x], i as nat);
        }
    }
}

/// The code of a block that passes semantic analysis is orderly.
pub proof fn lemma_block_orderly(
    b: SpecBlock,
    at: nat,
    lp: LoopTargets,
    scopes: Seq<SpecNames>,
    in_loop: bool,
    table: Seq<SpecSignature>,
)
    requires
        block_error(b, scopes, in_loop, table) is None,
    ensures
        orderly(block_code(b, at, lp), at, lp, in_loop),
    decreases b, b.len() + 1,
{
    let enter = seq![SpecInstruction::EnterScope];
    let leave = seq![SpecInstruction::ExitScope];
    let none = Seq::<SpecInstruction>::empty();
    let inner = stmts_code(b, b.len(), at + 1, lp);
    let code = block_code(b, at, lp);
    lemma_stmts_orderly(b, b.len(), at + 1, lp, scopes.push(Set::empty()), in_loop, table);
    assert(rise(none) == 0);
    lemma_rise_push(none, SpecInstruction::EnterScope);
    lemma_rise_push(none, SpecInstruction::ExitScope);
    assert(enter =~= none.push(SpecInstruction::EnterScope));
    assert(leave =~= none.push(SpecInstruction::ExitScope));
    lemma_rise_concat(enter, inner);
    lemma_rise_concat(enter + inner, leave);
    assert(code =~= enter + inner + leave);
    assert forall|i: int| 0 <= i < code.len() implies #[trigger] jump_steady(
        code,
        at,
        lp,
        in_loop,
        i,
    ) by {
        if 1 <= i < 1 + inner.len() {
            lemma_orderly_embedded(enter, inner, leave, at, lp, in_loop, i);
        }
    }
    assert forall|i: int| 0 <= i < code.len() implies #[trigger] operand_ready(code, i) by {
        if 1 <= i < 1 + inner.len() {
            lemma_orderly_embedded(enter, inner, leave, at, lp, in_loop, i);
        }
    }
}

/// The code of the first `n` statements of a block that pass semantic
/// analysis is orderly.
pub proof fn lemma_stmts_orderly(
    b: SpecBlock,
    n: nat,
    at: nat,
    lp: LoopTargets,
    scopes: Seq<SpecNames>,
    in_loop: bool,
    table: Seq<SpecSignature>,
)
    requires
        n <= b.len(),
        check_stmts(b, n, scopes, in_loop, table) is Ok,
    ensures
        orderly(stmts_code(b, n, at, lp), at, lp, in_loop),
    decreases b, n,
{
    if n > 0 {
        let m = (n - 1) as nat;
        let next = at + stmts_len(b, m);
        let first = stmts_code(b, m, at, lp);
        let last = stmt_code(b[n - 1], next, lp);
        let none = Seq::<SpecInstruction>::empty();
        let code = stmts_code(b, n, at, lp);
        let mid = check_stmts(b, m, scopes, in_loop, table)->Ok_0;
        lemma_stmts_orderly(b, m, at, lp, scopes, in_loop, table);
        lemma_stmt_orderly(b[n - 1], next, lp, mid, in_loop, table);
        lemma_stmts_code_len(b, m, at, lp);
        lemma_rise_concat(first, last);
        assert(rise(none) == 0);
        assert(code =~= none + first + last);
        assert(code =~= first + last + none);
        assert forall|i: int| 0 <= i < code.len() implies #[trigger] jump_steady(
            code,
            at,
            lp,
            in_loop,
            i,
        ) by {
            if i < first.len() {
                lemma_orderly_embedded(none, first, last, at, lp, in_loop, i);
            } else {
                lemma_orderly_embedded(first, last, none, at, lp, in_loop, i);
            }
        }
        assert forall|i: int| 0 <= i < code.len() implies #[trigger] operand_ready(code, i) by {
            if i < first.len() {
                lemma_orderly_embedded(none, first, last, at, lp, in_loop, i);
            } else {
                lemma_orderly_embedded(first, last, none, at, lp, in_loop, i);
            }
        }
    }
}

/// The prologue of a function is straight code that takes one value off
/// the stack for each parameter.
pub proof fn lemma_params_fall(params: Seq<Seq<char>>, n: nat)
    requires
        n <= params.len(),
    ensures
        straight(params_code(params).take(n as int)),
        rise(params_code(params).take(n as int)) == -n,
    decreases n,
{
    let code = params_code(params);
    if n == 0 {
        assert(code.take(0) =~= Seq::<SpecInstruction>::empty());
    } else {
        lemma_params_fall(params, (n - 1) as nat);
        lemma_straight_push(code.take(n - 1), code[n - 1]);
        lemma_rise_push(code.take(n - 1), code[n - 1]);
        assert(code.take(n as int) =~= code.take(n - 1).push(code[n - 1]));
    }
}

/// The height of the stack over the base of the frame at index `j` of
/// the code of the function `f` that stands at `at`: the arguments at
/// the entry, and from there on what the code before `j` adds.
pub open spec fn local_height(f: SpecFunctionDecl, at: nat, j: nat) -> int {
    f.params.len() + height_at(function_code(f, at), j)
}

/// Whether the instruction at index `j` of the function `f` fits the
/// heights: a jump leads to another place in the function where the
/// stack is as high as the jump leaves it, the instruction finds its
/// operands above the base, and the function ends with a return.
pub open spec fn fits_locally(f: SpecFunctionDecl, at: nat, j: int) -> bool {
    let code = function_code(f, at);
    &&& code[j].jump_target() matches Some(t) ==> at <= t < at + code.len() && local_height(
        f,
        at,
        (t - at) as nat,
    ) == local_height(f, at, (j + 1) as nat)
    &&& local_height(f, at, j as nat) >= operands(code[j])
    &&& j == code.len() - 1 ==> code[j] == SpecInstruction::Return
}

/// Every instruction of a function that passes semantic analysis fits
/// the heights.
pub proof fn lemma_function_fits(
    f: SpecFunctionDecl,
    at: nat,
    scopes: Seq<SpecNames>,
    table: Seq<SpecSignature>,
)
    requires
        function_error(f, scopes, false, table) is None,
    ensures
        function_code(f, at).len() == function_len(f),
        forall|j: int| 0 <= j < function_len(f) ==> #[trigger] fits_locally(f, at, j),
{
    let lp = LoopTargets { start: 0, end: 0 };
    let prologue = params_code(f.params);
    let body_at = at + f.params.len();
    let body = block_code(f.body, body_at, lp);
    let tail = seq![SpecInstruction::PushVoid, SpecInstruction::Return];
    let code = function_code(f, at);
    let inner_scopes = scopes.push(names_set(f.params));
    lemma_block_orderly(f.body, body_at, lp, inner_scopes, false, table);
    lemma_block_code_len(f.body, body_at, lp);
    lemma_checked_block_compiles(f.body, inner_scopes, false, table);
    lemma_function_jumps(f, at);
    lemma_params_fall(f.params, f.params.len());
    assert(prologue.take(f.params.len() as int) == prologue);
    assert(code =~= prologue + body + tail);
    assert(code =~= (prologue + body) + tail);
    lemma_rise_concat(prologue, body);
    lemma_height_prefix(prologue + body, tail, (prologue + body).len());
    lemma_height_suffix(prologue + body, tail, 1);
    assert(height_at(tail, 1) == height_at(tail, 0) + stack_effect_at(tail, 0));
    assert forall|j: int| 0 <= j < function_len(f) implies #[trigger] fits_locally(f, at, j) by {
        if j < prologue.len() {
            assert(code[j] == prologue[j]);
            lemma_params_fall(f.params, j as nat);
            assert(prologue =~= prologue.take(j) + prologue.skip(j));
            lemma_height_prefix(prologue.take(j), prologue.skip(j), j as nat);
            lemma_height_prefix(prologue, body + tail, j as nat);
            assert(code =~= prologue + (body + tail));
        } else if j < prologue.len() + body.len() {
            let i = j - prologue.len();
            assert(code[j] == body[i]);
            assert(jump_steady(body, body_at, lp, false, i));
            assert(operand_ready(body, i));
            lemma_height_in_middle(prologue, body, tail, i as nat);
            lemma_height_in_middle(prologue, body, tail, (i + 1) as nat);
            if body[i].jump_target() is Some {
                let t = body[i].jump_target()->Some_0;
                lemma_height_in_middle(prologue, body, tail, (t - body_at) as nat);
                assert(jumps_within(code, at + 1, at + function_len(f)));
            }
        } else if j == prologue.len() + body.len() {
            assert(code[j] == SpecInstruction::PushVoid);
        } else {
            assert(code[j] == SpecInstruction::Return);
        }
    }
}

/// The height of the stack over the base of the active frame at address
/// `pc` of the code of the first `n` functions.
pub open spec fn frame_height(fs: Seq<SpecFunctionDecl>, n: nat, pc: nat) -> int
    decreases n,
{
    if n == 0 || n > fs.len() {
        0
    } else if pc >= functions_len(fs, (n - 1) as nat) {
        local_height(
            fs[n - 1],
            functions_len(fs, (n - 1) as nat),
            (pc - functions_len(fs, (n - 1) as nat)) as nat,
        )
    } else {
        frame_height(fs, (n - 1) as nat, pc)
    }
}

/// Whether the instruction at address `i` fits the heights `h`: it finds
/// its operands above the base of the frame; the stack is as high behind
/// it as its effect makes it, where execution falls through as well as
/// where a jump leads; and execution stays below `limit`.
pub open spec fn fits(code: Seq<SpecInstruction>, h: spec_fn(nat) -> int, limit: nat, i: nat)
    -> bool {
    &&& h(i) >= operands(code[i as int])
    &&& match code[i as int] {
        SpecInstruction::Return => true,
        SpecInstruction::Jump(t) => t < limit && h(t) == h(i),
        SpecInstruction::JumpIfFalse(t) => t < limit && h(t) == h(i) - 1 && i + 1 < limit && h(
            i + 1,
        ) == h(i) - 1,
        other => i + 1 < limit && h(i + 1) == h(i) + stack_effect(other),
    }
}

/// Whether a loaded program keeps the stack in order with the heights
/// `h`: every instruction below `limit` fits, every function begins
/// below `limit` at the height of its parameter count, and at `limit`
/// stand the call of `main` and the `halt`.
pub open spec fn stack_safe(
    code: Seq<SpecInstruction>,
    functions: Seq<SpecFunction>,
    h: spec_fn(nat) -> int,
    limit: nat,
) -> bool {
    &&& code.len() == limit + 2
    &&& code[limit as int] == SpecInstruction::Call("main"@, 0)
    &&& code[limit as int + 1] == SpecInstruction::Halt
    &&& forall|i: nat| i < limit ==> #[trigger] fits(code, h, limit, i)
    &&& forall|k: int|
        0 <= k < functions.len() ==> (#[trigger] functions[k]).entry < limit && h(
            functions[k].entry,
        ) == functions[k].arity
}

/// The code of the first `n` functions of a program that passes
/// semantic analysis fits the heights of its frames.
pub proof fn lemma_functions_fit(
    fs: Seq<SpecFunctionDecl>,
    n: nat,
    scopes: Seq<SpecNames>,
    table: Seq<SpecSignature>,
    i: nat,
)
    requires
        n <= fs.len(),
        functions_error(fs, n, scopes, false, table) is None,
        i < functions_len(fs, n),
    ensures
        functions_code(fs, n).len() == functions_len(fs, n),
        fits(
            functions_code(fs, n),
            |pc: nat| frame_height(fs, n, pc),
            functions_len(fs, n),
            i,
        ),
    decreases n,
{
    lemma_functions_code_len(fs, n);
    if n > 0 {
        let m = (n - 1) as nat;
        let entry = functions_len(fs, m);
        let f = fs[n - 1];
        let first = functions_code(fs, m);
        let last = function_code(f, entry);
        let code = functions_code(fs, n);
        let h = |pc: nat| frame_height(fs, n, pc);
        let limit = functions_len(fs, n);
        lemma_functions_code_len(fs, m);
        lemma_function_fits(f, entry, scopes, table);
        if i < entry {
            lemma_functions_fit(fs, m, scopes, table, i);
            let g = |pc: nat| frame_height(fs, m, pc);
            assert(fits(first, g, entry, i));
            assert(code[i as int] == first[i as int]);
            assert(h(i) == g(i));
            match first[i as int] {
                SpecInstruction::Return => {},
                SpecInstruction::Jump(t) => {
                    assert(h(t) == g(t));
                },
                SpecInstruction::JumpIfFalse(t) => {
                    assert(h(t) == g(t));
                    assert(h(i + 1) == g(i + 1));
                },
                _ => {
                    assert(h(i + 1) == g(i + 1));
                },
            }
        } else {
            let j = i - entry;
            assert(code[i as int] == last[j]);
            assert(fits_locally(f, entry, j));
            assert(height_at(last, (j + 1) as nat) == height_at(last, j as nat) + stack_effect_at(
                last,
                j as nat,
            ));
            match last[j] {
                SpecInstruction::Return => {},
                SpecInstruction::Jump(t) => {},
                SpecInstruction::JumpIfFalse(t) => {},
                _ => {},
            }
        }
    }
}

/// Each function of a program begins inside the code, and there the
/// stack holds the arguments.
pub proof fn lemma_entry_height(fs: Seq<SpecFunctionDecl>, k: nat, n: nat)
    requires
        k < n <= fs.len(),
    ensures
        functions_len(fs, k) < functions_len(fs, n),
        frame_height(fs, n, functions_len(fs, k)) == fs[k as int].params.len(),
    decreases n,
{
    let m = (n - 1) as nat;
    lemma_functions_len_grows(fs, k, m);
    if k < m {
        lemma_entry_height(fs, k, m);
    }
}

/// A program that passes semantic analysis, compiled and loaded, keeps
/// the stack in order.
pub proof fn lemma_loaded_stack_safe(p: SpecSource)
    requires
        is_valid(p),
        load(compile(p)->Ok_0) is Ok,
    ensures
        compile(p) is Ok,
        stack_safe(
            load(compile(p)->Ok_0)->Ok_0.code,
            load(compile(p)->Ok_0)->Ok_0.functions,
            |pc: nat| frame_height(p.functions, p.functions.len(), pc),
            compile(p)->Ok_0.code.len(),
        ),
{
    lemma_valid_program_compiles(p);
    let fs = p.functions;
    let c = compile(p)->Ok_0;
    let s = load(c)->Ok_0;
    let h = |pc: nat| frame_height(fs, fs.len(), pc);
    let limit = c.code.len();
    let st = fresh();
    let table = collect(st.functions, fs, fs.len())->Ok_0;
    lemma_functions_code_len(fs, fs.len());
    assert forall|i: nat| i < limit implies #[trigger] fits(s.code, h, limit, i) by {
        lemma_functions_fit(fs, fs.len(), st.scopes, table, i);
        assert(s.code[i as int] == c.code[i as int]);
    }
    assert forall|k: int| 0 <= k < s.functions.len() implies (#[trigger] s.functions[k]).entry
        < limit && h(s.functions[k].entry) == s.functions[k].arity by {
        lemma_entry_height(fs, k as nat, fs.len());
    }
}

/// How high the stack will be when frame number `level` goes on: as
/// high as it is, for the active frame; for a frame that waits for a
/// call to return, one above the base of the callee's frame.
pub open spec fn resume_len(s: SpecVm, level: nat) -> int
    recommends
        1 <= level <= s.frames.len(),
{
    if s.frames.len() == level {
        s.stack.len() as int
    } else {
        s.frames[level as int].base as int + 1
    }
}

/// Whether frame number `level` goes on below `limit`, with the stack as
/// high over its base as the heights `h` say.
pub open spec fn frame_fits(s: SpecVm, h: spec_fn(nat) -> int, limit: nat, level: nat) -> bool {
    &&& resume_at(s, level) < limit
    &&& resume_len(s, level) - s.frames[level - 1].base == h(resume_at(s, level))
}

/// Whether the state of a run fits the heights `h`: every frame does;
/// without a frame the machine stands at the call of `main` or at the
/// `halt`; and the first frame returns to the `halt`.
pub open spec fn stack_fits(s: SpecVm, h: spec_fn(nat) -> int, limit: nat) -> bool {
    &&& forall|level: nat| 1 <= level <= s.frames.len() ==> #[trigger] frame_fits(s, h, limit, level)
    &&& s.frames.len() == 0 ==> s.ip == limit || s.ip == limit + 1
    &&& s.frames.len() > 0 ==> s.frames[0].return_ip == limit + 1
}

/// A step of a program that keeps the stack in order leads from a state
/// that fits the heights to one that does.
pub proof fn lemma_step_fits(s: SpecVm, h: spec_fn(nat) -> int, limit: nat)
    requires
        stack_safe(s.code, s.functions, h, limit),
        stack_fits(s, h, limit),
        s.step() is Ok,
    ensures
        s.step()->Ok_0.0.code == s.code,
        s.step()->Ok_0.0.functions == s.functions,
        stack_fits(s.step()->Ok_0.0, h, limit),
{
    let v = s.step()->Ok_0.0;
    let top = s.frames.len();
    let instruction = s.fetch()->Some_0;
    reveal_strlit("main");
    reveal_strlit("print");
    if top > 0 {
        assert(frame_fits(s, h, limit, top));
        assert(fits(s.code, h, limit, s.ip));
    }
    match instruction {
        SpecInstruction::Call(name, argc) => {
            if name != "print"@ {
                lemma_found_in_table(s.functions, name);
                let f = find_function(s.functions, name)->Some_0;
                let k = choose|k: int| 0 <= k < s.functions.len() && s.functions[k] == f;
                assert(s.functions[k].entry < limit && h(s.functions[k].entry) == f.arity);
                if top > 0 {
                    assert(v.frames[0] == s.frames[0]);
                }
            }
        },
        SpecInstruction::Return => {
            if top > 1 {
                assert(v.frames[0] == s.frames[0]);
            }
        },
        _ => {},
    }
    assert forall|level: nat| 1 <= level <= v.frames.len() implies #[trigger] frame_fits(
        v,
        h,
        limit,
        level,
    ) by {
        if level <= s.frames.len() {
            assert(frame_fits(s, h, limit, level));
        }
        match instruction {
            SpecInstruction::Call(name, argc) => {
                if name != "print"@ {
                    if level <= s.frames.len() {
                        assert(v.frames[level - 1] == s.frames[level - 1]);
                    }
                    if level < s.frames.len() {
                        assert(v.frames[level as int] == s.frames[level as int]);
                    }
                }
            },
            SpecInstruction::Return => {
                assert(v.frames[level - 1] == s.frames[level - 1]);
                if level < v.frames.len() {
                    assert(v.frames[level as int] == s.frames[level as int]);
                }
            },
            _ => {},
        }
    }
}

/// In a run of a program that keeps the stack in order every state fits
/// the heights.
pub proof fn lemma_run_fits(s: SpecVm, h: spec_fn(nat) -> int, limit: nat, n: nat)
    requires
        stack_safe(s.code, s.functions, h, limit),
        stack_fits(s, h, limit),
        steps(s, n) is Some,
    ensures
        steps(s, n)->Some_0.code == s.code,
        steps(s, n)->Some_0.functions == s.functions,
        stack_fits(steps(s, n)->Some_0, h, limit),
    decreases n,
{
    if n > 0 {
        lemma_step_fits(s, h, limit);
        lemma_run_fits(s.step()->Ok_0.0, h, limit, (n - 1) as nat);
    }
}

/// Stack balance on return, in a compiled program. Let a program that
/// passes semantic analysis be compiled and loaded, and let a run from
/// the start reach a state `s` that is about to execute a `return`.
/// Then a call is in progress, the operand stack holds at least one
/// value above the base of its frame, and behind the return the stack is
/// exactly one deeper than that base: the arguments and whatever the
/// callee left are gone and the result is on top.
pub proof fn lemma_return_leaves_one(p: SpecSource, n: nat)
    requires
        is_valid(p),
        load(compile(p)->Ok_0) is Ok,
        steps(load(compile(p)->Ok_0)->Ok_0, n) is Some,
        steps(load(compile(p)->Ok_0)->Ok_0, n)->Some_0.fetch() == Some(SpecInstruction::Return),
    ensures
        ({
            let s = steps(load(compile(p)->Ok_0)->Ok_0, n)->Some_0;
            &&& s.frames.len() > 0
            &&& s.stack.len() > s.frames.last().base
            &&& s.step() is Ok
            &&& s.step()->Ok_0.0.stack.len() == s.frames.last().base + 1
            &&& s.step()->Ok_0.0.stack.last() == s.stack.last()
            &&& s.step()->Ok_0.0.ip == s.frames.last().return_ip
            &&& s.step()->Ok_0.0.frames == s.frames.drop_last()
        }),
{
    let s0 = load(compile(p)->Ok_0)->Ok_0;
    let s = steps(s0, n)->Some_0;
    let h = |pc: nat| frame_height(p.functions, p.functions.len(), pc);
    let limit = compile(p)->Ok_0.code.len();
    lemma_loaded_stack_safe(p);
    lemma_run_fits(s0, h, limit, n);
    if s.frames.len() > 0 {
        assert(frame_fits(s, h, limit, s.frames.len()));
        assert(fits(s.code, h, limit, s.ip));
    }
}

/// A step keeps the base and the return address of every frame that it
/// does not close.
pub proof fn lemma_step_keeps_frame(s: SpecVm, index: int)
    requires
        s.step() is Ok,
        0 <= index < s.frames.len(),
        index < s.step()->Ok_0.0.frames.len(),
    ensures
        s.step()->Ok_0.0.frames[index].base == s.frames[index].base,
        s.step()->Ok_0.0.frames[index].return_ip == s.frames[index].return_ip,
{
}

/// A run keeps the base and the return address of a frame as long as
/// the frame is open.
pub proof fn lemma_run_keeps_frame(s: SpecVm, n: nat, index: int)
    requires
        0 <= index < s.frames.len(),
        steps(s, n) is Some,
        forall|k: nat| k <= n ==> (#[trigger] steps(s, k)) is Some && index < steps(
            s,
            k,
        )->Some_0.frames.len(),
    ensures
        steps(s, n)->Some_0.frames[index].base == s.frames[index].base,
        steps(s, n)->Some_0.frames[index].return_ip == s.frames[index].return_ip,
    decreases n,
{
    if n > 0 {
        let m = (n - 1) as nat;
        lemma_run_keeps_frame(s, m, index);
        let u = steps(s, m)->Some_0;
        lemma_steps_split(s, m, 1);
        assert(steps(u, 1) == steps(s, n));
        assert(u.step() is Ok && u.step()->Ok_0.0 == steps(s, n)->Some_0) by {
            reveal_with_fuel(steps, 2);
        }
        assert(steps(s, n) is Some && index < steps(s, n)->Some_0.frames.len());
        lemma_step_keeps_frame(u, index);
    }
}

/// Stack balance of a call, in a compiled program. Let a program that
/// passes semantic analysis be compiled and loaded, let a run from the
/// start reach a state `before` that executes a call of a function with
/// `argc` arguments, and let `m` more steps, through which the frame of
/// that call stays open, lead to a state in which that frame is the
/// active one and the instruction to execute is a `return`. Then the
/// return succeeds, and behind it the operand stack is exactly one
/// deeper than it was in `before` below the arguments; execution goes
/// on behind the call, in the caller's frame.
pub proof fn lemma_call_leaves_one(p: SpecSource, n: nat, m: nat, name: Seq<char>, argc: nat)
    requires
        is_valid(p),
        load(compile(p)->Ok_0) is Ok,
        steps(load(compile(p)->Ok_0)->Ok_0, n) is Some,
        m >= 1,
        ({
            let before = steps(load(compile(p)->Ok_0)->Ok_0, n)->Some_0;
            &&& before.fetch() == Some(SpecInstruction::Call(name, argc))
            &&& name != "print"@
            &&& forall|k: nat|
                1 <= k <= m ==> (#[trigger] steps(before, k)) is Some && steps(
                    before,
                    k,
                )->Some_0.frames.len() > before.frames.len()
            &&& steps(before, m)->Some_0.frames.len() == before.frames.len() + 1
            &&& steps(before, m)->Some_0.fetch() == Some(SpecInstruction::Return)
        }),
    ensures
        ({
            let before = steps(load(compile(p)->Ok_0)->Ok_0, n)->Some_0;
            let after = steps(before, m + 1);
            &&& argc <= before.stack.len()
            &&& after is Some
            &&& after->Some_0.stack.len() == before.stack.len() - argc + 1
            &&& after->Some_0.ip == before.ip + 1
            &&& after->Some_0.frames.len() == before.frames.len()
        }),
{
    let s0 = load(compile(p)->Ok_0)->Ok_0;
    let before = steps(s0, n)->Some_0;
    let index = before.frames.len() as int;
    assert(steps(before, 1) is Some);
    assert(before.step() is Ok && steps(before, 1) == Some(before.step()->Ok_0.0)) by {
        reveal_with_fuel(steps, 2);
    }
    let entered = before.step()->Ok_0.0;
    lemma_call_opens_frame(before, name, argc);
    let k = (m - 1) as nat;
    lemma_steps_split(before, 1, k);
    assert forall|j: nat| j <= k implies (#[trigger] steps(entered, j)) is Some && index < steps(
        entered,
        j,
    )->Some_0.frames.len() by {
        lemma_steps_split(before, 1, j);
        assert(steps(before, 1 + j) is Some);
    }
    lemma_run_keeps_frame(entered, k, index);
    let during = steps(before, m)->Some_0;
    assert(during == steps(entered, k)->Some_0);
    lemma_steps_split(s0, n, m);
    lemma_return_leaves_one(p, n + m);
    lemma_steps_split(before, m, 1);
    assert(steps(during, 1) == Some(during.step()->Ok_0.0)) by {
        reveal_with_fuel(steps, 2);
    }
    assert(during.frames.last() == during.frames[index]);
}

/// A call of a function of the program opens a frame that remembers the
/// depth of the operand stack below the arguments.
pub proof fn lemma_call_opens_frame(s: SpecVm, name: Seq<char>, argc: nat)
    requires
        s.fetch() == Some(SpecInstruction::Call(name, argc)),
        name != "print"@,
        s.step() is Ok,
    ensures
        ({
            let next = s.step()->Ok_0.0;
            &&& argc <= s.stack.len()
            &&& next.stack == s.stack
            &&& next.frames.len() == s.frames.len() + 1
            &&& next.frames.drop_last() == s.frames
            &&& next.frames.last().base + argc == s.stack.len()
            &&& next.frames.last().return_ip == s.ip + 1
            &&& find_function(s.functions, name) matches Some(f) && f.arity == argc && next.ip
                == f.entry
        }),
{
    let next = s.step()->Ok_0.0;
    assert(next.frames.drop_last() == s.frames);
}

/// Stack balance on return. Let a call of a function with `argc`
/// arguments be executed in the state `before`, and let `during` be a
/// later state in which the frame of that call is the active one, the
/// instruction to execute is `return`, and the operand stack holds at
/// least one value above the frame's base. Then the return succeeds, and
/// behind it the operand stack is exactly one deeper than it was in
/// `before` below the arguments: the arguments and whatever the callee
/// left are gone and the result is on top. Execution resumes behind the
/// call, in the caller's frame.
pub proof fn lemma_stack_balance_on_return(
    before: SpecVm,
    name: Seq<char>,
    argc: nat,
    during: SpecVm,
)
    requires
        before.fetch() == Some(SpecInstruction::Call(name, argc)),
        name != "print"@,
        before.step() is Ok,
        during.code == before.code,
        during.fetch() == Some(SpecInstruction::Return),
        during.frames.len() == before.frames.len() + 1,
        during.frames.last().base == before.step()->Ok_0.0.frames.last().base,
        during.frames.last().return_ip == before.step()->Ok_0.0.frames.last().return_ip,
        during.stack.len() > during.frames.last().base,
    ensures
        during.step() is Ok,
        during.step()->Ok_0.0.stack.len() == before.stack.len() - argc + 1,
        during.step()->Ok_0.0.stack.last() == during.stack.last(),
        during.step()->Ok_0.0.ip == before.ip + 1,
        during.step()->Ok_0.0.frames.len() == before.frames.len(),
{
    lemma_call_opens_frame(before, name, argc);
}

/// A return leaves the operand stack exactly one deeper than the base of
/// the frame it closes, whenever the stack had not sunk to that base or
/// below it: that is, unless the callee consumed what the caller had on
/// the stack.
pub proof fn lemma_return_depth(s: SpecVm)
    requires
        s.fetch() == Some(SpecInstruction::Return),
        s.frames.len() > 0,
    ensures
        s.step() is Ok,
        s.stack.len() > s.frames.last().base ==> s.step()->Ok_0.0.stack.len()
            == s.frames.last().base + 1,
        s.stack.len() == 0 ==> s.step()->Ok_0.0.stack == seq![super::value::SpecValue::Void],
{
    if s.stack.len() == 0 {
        assert(s.step()->Ok_0.0.stack =~= seq![super::value::SpecValue::Void]);
    }
}

/// Whether the state `s` of a machine that was loaded with code of
/// length `limit` stands, outside any call, at the call of `main` or at
/// the `halt` behind the code, and its first frame, if there is one,
/// returns to that `halt`.
pub open spec fn anchored(s: SpecVm, limit: nat) -> bool {
    &&& s.code.len() == limit + 2
    &&& s.code[limit as int] is Call
    &&& s.code[limit as int + 1] == SpecInstruction::Halt
    &&& s.frames.len() == 0 ==> s.ip == limit || s.ip == limit + 1
    &&& s.frames.len() > 0 ==> s.frames[0].return_ip == limit + 1
}

/// A run keeps the machine anchored.
pub proof fn lemma_run_anchored(s: SpecVm, limit: nat, n: nat)
    requires
        anchored(s, limit),
        steps(s, n) is Some,
    ensures
        anchored(steps(s, n)->Some_0, limit),
    decreases n,
{
    if n > 0 {
        let v = s.step()->Ok_0.0;
        match s.fetch()->Some_0 {
            SpecInstruction::Call(name, argc) => {
                if s.frames.len() > 0 && v.frames.len() > s.frames.len() {
                    assert(v.frames[0] == s.frames[0]);
                }
            },
            SpecInstruction::Return => {
                if s.frames.len() > 1 {
                    assert(v.frames[0] == s.frames[0]);
                }
            },
            _ => {},
        }
        lemma_run_anchored(v, limit, (n - 1) as nat);
    }
}

/// In a run of a loaded program, whatever the program, a `return` is
/// only ever executed inside a call: the fault of a return outside a
/// function guards against a state that no run reaches.
pub proof fn lemma_return_inside_call(program: SpecProgram, n: nat)
    requires
        load(program) is Ok,
        steps(load(program)->Ok_0, n) is Some,
        steps(load(program)->Ok_0, n)->Some_0.fetch() == Some(SpecInstruction::Return),
    ensures
        steps(load(program)->Ok_0, n)->Some_0.frames.len() > 0,
        steps(load(program)->Ok_0, n)->Some_0.step() is Ok,
{
    lemma_run_anchored(load(program)->Ok_0, program.code.len(), n);
}

} // verus!
