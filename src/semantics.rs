//! The meaning of a compilation: the state carried from line to line, what
//! each construct does to it, and the text appended at the end.
use vstd::prelude::*;
use crate::lexer::{Kind, Token, tokens};
use crate::text::dec_int;

verus! {

/// A frame of the scope stack, recording what the closer of a construct needs.
#[derive(Clone, Copy, Debug, PartialEq, Eq, Structural)]
pub enum Scope {
    /// An open `while`, with the line of its header.
    While { start_line: usize },
    /// An open `if`: the line of the `if`, the line of its latest `else` or
    /// `else if` (the `if` line while there is none), and whether an `else`
    /// was seen.
    If { if_start_line: usize, else_start_line: usize, has_else: bool },
}

/// What compiling the lines so far has produced: the declared variables with
/// their initial values in order of declaration, the constants referenced in
/// order of first reference, the scope stack, and the assembly text.
pub struct State {
    pub vars: Seq<(Seq<char>, i32)>,
    pub consts: Seq<i32>,
    pub stack: Seq<Scope>,
    pub out: Seq<char>,
}

pub open spec fn initial_state() -> State {
    State { vars: Seq::empty(), consts: seq![0i32], stack: Seq::empty(), out: Seq::empty() }
}

pub open spec fn has_var(vars: Seq<(Seq<char>, i32)>, name: Seq<char>) -> bool {
    exists|j: int| 0 <= j < vars.len() && (#[trigger] vars[j]).0 == name
}

/// Declares `name` with `init` unless it is already declared.
pub open spec fn declare(vars: Seq<(Seq<char>, i32)>, name: Seq<char>, init: i32) -> Seq<
    (Seq<char>, i32),
> {
    if has_var(vars, name) {
        vars
    } else {
        vars.push((name, init))
    }
}

pub open spec fn add_const(consts: Seq<i32>, n: i32) -> Seq<i32> {
    if consts.contains(n) {
        consts
    } else {
        consts.push(n)
    }
}

/// The characters of an identifier token.
pub open spec fn name(src: Seq<char>, k: Kind) -> Seq<char> {
    match k {
        Kind::Identifier { start, end } => src.subrange(start as int, end as int),
        _ => Seq::empty(),
    }
}

pub open spec fn is_operand(k: Kind) -> bool {
    k is Identifier || k is Number
}

/// An identifier that has not been declared.
pub open spec fn undeclared(vars: Seq<(Seq<char>, i32)>, src: Seq<char>, k: Kind) -> bool {
    k is Identifier && !has_var(vars, name(src, k))
}

/// The storage label an operand is addressed by.
pub open spec fn operand_text(src: Seq<char>, k: Kind) -> Seq<char> {
    match k {
        Kind::Number(n) => "const_"@ + dec_int(n as int),
        _ => "var_"@ + name(src, k),
    }
}

/// The constant set after referencing an operand.
pub open spec fn operand_consts(consts: Seq<i32>, k: Kind) -> Seq<i32> {
    match k {
        Kind::Number(n) => add_const(consts, n),
        _ => consts,
    }
}

pub open spec fn is_cmp(k: Kind) -> bool {
    k is Eq || k is Ne || k is Gt || k is Lt || k is Ge || k is Le
}

pub open spec fn arith_text(k: Kind) -> Seq<char> {
    if k is Add {
        "ADD "@
    } else {
        "SUB "@
    }
}

pub open spec fn err(line: int, msg: Seq<char>) -> Seq<char> {
    "Error on line "@ + dec_int(line) + ": "@ + msg
}

pub open spec fn err_at(line: int, tok: int, msg: Seq<char>) -> Seq<char> {
    "Error on line "@ + dec_int(line) + " token "@ + dec_int(tok) + ": "@ + msg
}

/// The name error for an undeclared identifier.
pub open spec fn unknown(line: int, prefix: Seq<char>, name: Seq<char>) -> Seq<char> {
    err_at(line, 2, prefix + name + "'"@)
}

/// A label such as `while_3_body`.
pub open spec fn label(prefix: Seq<char>, line: int, suffix: Seq<char>) -> Seq<char> {
    prefix + dec_int(line) + suffix
}

/// Load `a`, subtract `b`, branch with `br` to `x`, else jump to `y`.
pub open spec fn test_code(
    a: Seq<char>,
    b: Seq<char>,
    br: Seq<char>,
    x: Seq<char>,
    y: Seq<char>,
) -> Seq<char> {
    "LDA "@ + a + "\nSUB "@ + b + "\n"@ + br + " "@ + x + "\nBRA "@ + y + "\n"@
}

/// The branch schema of a comparison, jumping to `t` when it holds and to `f`
/// when it does not.
pub open spec fn cond_code(
    op: Kind,
    lhs: Seq<char>,
    rhs: Seq<char>,
    t: Seq<char>,
    f: Seq<char>,
) -> Seq<char> {
    match op {
        Kind::Eq => test_code(lhs, rhs, "BRZ"@, t, f),
        Kind::Ne => test_code(lhs, rhs, "BRZ"@, f, t),
        Kind::Gt => test_code(rhs, lhs, "BRP"@, f, t),
        Kind::Lt => test_code(lhs, rhs, "BRP"@, f, t),
        Kind::Ge => test_code(lhs, rhs, "BRP"@, t, f),
        _ => test_code(rhs, lhs, "BRP"@, t, f),
    }
}

/// What reading a condition yields.
pub enum CondResult {
    Error(Seq<char>),
    /// `while true`: no condition.
    Forever,
    /// The branch code and the constant set after it.
    Code(Seq<char>, Seq<i32>),
}

pub open spec fn cond_missing_msg() -> Seq<char> {
    "Expected condition formed of two arguments and a comparison operator"@
}

/// The condition `l[p] l[p + 1] l[p + 2]` of a header on line `ln`.
pub open spec fn cond(
    st: State,
    src: Seq<char>,
    l: Seq<Token>,
    p: int,
    ln: int,
    t: Seq<char>,
    f: Seq<char>,
    allow_true: bool,
) -> CondResult {
    if l.len() <= p {
        CondResult::Error(err(ln, cond_missing_msg()))
    } else if allow_true && l[p].kind is True {
        CondResult::Forever
    } else if !is_operand(l[p].kind) {
        CondResult::Error(err_at(ln, 1, "Expected identifier or number"@))
    } else if undeclared(st.vars, src, l[p].kind) {
        CondResult::Error(unknown(ln, "Variable unknown identifier '"@, name(src, l[p].kind)))
    } else if l.len() <= p + 2 {
        CondResult::Error(err(ln, cond_missing_msg()))
    } else if !is_operand(l[p + 2].kind) {
        CondResult::Error(err_at(ln, 3, "Expected identifier or number"@))
    } else if undeclared(st.vars, src, l[p + 2].kind) {
        CondResult::Error(unknown(ln, "Variable unknown identifier '"@, name(src, l[p + 2].kind)))
    } else if !is_cmp(l[p + 1].kind) {
        CondResult::Error(err_at(ln, 2, "Expected comparison operator"@))
    } else {
        CondResult::Code(
            cond_code(
                l[p + 1].kind,
                operand_text(src, l[p].kind),
                operand_text(src, l[p + 2].kind),
                t,
                f,
            ),
            operand_consts(operand_consts(st.consts, l[p].kind), l[p + 2].kind),
        )
    }
}

/// `x = a`, `x = a + b` or `x = a - b`.
pub open spec fn assign_step(st: State, src: Seq<char>, l: Seq<Token>) -> Result<State, Seq<char>> {
    let ln = l[0].line as int;
    let x = name(src, l[0].kind);
    if l.len() == 1 || l[1].kind != Kind::Assign {
        Err(err(ln, "Identifer at the beginning of a line must be followed by '='"@))
    } else if l.len() == 2 {
        Err(err(ln, "Expected identifier or number"@))
    } else if !is_operand(l[2].kind) {
        Err(err_at(ln, 2, "Expected identifier or number"@))
    } else if undeclared(st.vars, src, l[2].kind) {
        Err(unknown(ln, "Variable unknown identifier '"@, name(src, l[2].kind)))
    } else if l[2].kind is Number && l.len() == 3 && !has_var(st.vars, x) {
        Ok(State { vars: st.vars.push((x, l[2].kind->Number_0)), ..st })
    } else {
        let c1 = operand_consts(st.consts, l[2].kind);
        let o1 = st.out + "LDA "@ + operand_text(src, l[2].kind) + "\n"@;
        if l.len() == 3 {
            Ok(
                State {
                    vars: declare(st.vars, x, 0),
                    consts: c1,
                    stack: st.stack,
                    out: o1 + "STA var_"@ + x + "\n"@,
                },
            )
        } else if !(l[3].kind is Add || l[3].kind is Sub) {
            Err(err_at(ln, 3, "Expected '+' or '-'"@))
        } else if l.len() == 4 {
            Err(err(ln, "Expected identifer or number"@))
        } else if !is_operand(l[4].kind) {
            Err(err_at(ln, 4, "Expected identifer or number"@))
        } else if undeclared(st.vars, src, l[4].kind) {
            Err(unknown(ln, "Unknown identifier '"@, name(src, l[4].kind)))
        } else if l.len() > 5 {
            Err(err_at(ln, 5, "Unexpected token"@))
        } else {
            Ok(
                State {
                    vars: declare(st.vars, x, 0),
                    consts: operand_consts(c1, l[4].kind),
                    stack: st.stack,
                    out: o1 + arith_text(l[3].kind) + operand_text(src, l[4].kind) + "\n"@
                        + "STA var_"@ + x + "\n"@,
                },
            )
        }
    }
}

/// `input x`.
pub open spec fn input_step(st: State, src: Seq<char>, l: Seq<Token>) -> Result<State, Seq<char>> {
    let ln = l[0].line as int;
    if l.len() == 1 {
        Err(err(ln, "Expected identifier"@))
    } else if !(l[1].kind is Identifier) {
        Err(err_at(ln, 1, "Expected identifier"@))
    } else if l.len() > 2 {
        Err(err_at(ln, 2, "Unexpected token"@))
    } else {
        let x = name(src, l[1].kind);
        Ok(
            State {
                vars: declare(st.vars, x, 0),
                out: st.out + "INP\nSTA var_"@ + x + "\n"@,
                ..st
            },
        )
    }
}

/// `output a`, `output a + b` or `output a - b`.
pub open spec fn output_step(st: State, src: Seq<char>, l: Seq<Token>) -> Result<State, Seq<char>> {
    let ln = l[0].line as int;
    if l.len() == 1 {
        Err(err(ln, "Expected identifier or number"@))
    } else if !is_operand(l[1].kind) {
        Err(err_at(ln, 2, "Expected identifier or number"@))
    } else if undeclared(st.vars, src, l[1].kind) {
        Err(unknown(ln, "Variable unknown identifier '"@, name(src, l[1].kind)))
    } else {
        let c1 = operand_consts(st.consts, l[1].kind);
        let o1 = st.out + "LDA "@ + operand_text(src, l[1].kind) + "\n"@;
        if l.len() == 2 {
            Ok(State { consts: c1, out: o1 + "OUT\n"@, ..st })
        } else if !(l[2].kind is Add || l[2].kind is Sub) {
            Err(err_at(ln, 3, "Expected '+' or '-'"@))
        } else if l.len() == 3 {
            Err(err(ln, "Expected identifer or number"@))
        } else if !is_operand(l[3].kind) {
            Err(err_at(ln, 4, "Expected identifer or number"@))
        } else if undeclared(st.vars, src, l[3].kind) {
            Err(unknown(ln, "Variable unknown identifier '"@, name(src, l[3].kind)))
        } else {
            Ok(
                State {
                    consts: operand_consts(c1, l[3].kind),
                    out: o1 + arith_text(l[2].kind) + operand_text(src, l[3].kind) + "\n"@
                        + "OUT\n"@,
                    ..st
                },
            )
        }
    }
}

/// `while a op b` or `while true`.
pub open spec fn while_step(st: State, src: Seq<char>, l: Seq<Token>) -> Result<State, Seq<char>> {
    let ln = l[0].line as int;
    let opened = State {
        stack: st.stack.push(Scope::While { start_line: l[0].line }),
        out: st.out + label("while_"@, ln, " "@),
        ..st
    };
    let body = label("while_"@, ln, "_body"@);
    match cond(st, src, l, 1, ln, body, label("while_"@, ln, "_end"@), true) {
        CondResult::Error(m) => Err(m),
        CondResult::Forever => Ok(opened),
        CondResult::Code(code, cs) => Ok(
            State { consts: cs, out: opened.out + code + body + " "@, ..opened },
        ),
    }
}

/// The innermost open `while`, searching the stack below `n`.
pub open spec fn innermost_while(stack: Seq<Scope>, n: int) -> Option<usize>
    decreases n,
{
    if n <= 0 {
        None
    } else {
        match stack[n - 1] {
            Scope::While { start_line } => Some(start_line),
            _ => innermost_while(stack, n - 1),
        }
    }
}

/// `break`.
pub open spec fn break_step(st: State, l: Seq<Token>) -> Result<State, Seq<char>> {
    match innermost_while(st.stack, st.stack.len() as int) {
        None => Err(err(l[0].line as int, "'break' while not in loop"@)),
        Some(w) => Ok(State { out: st.out + label("BRA while_"@, w as int, "_end\n"@), ..st }),
    }
}

/// `endwhile`.
pub open spec fn endwhile_step(st: State, l: Seq<Token>) -> Result<State, Seq<char>> {
    if st.stack.len() > 0 && st.stack.last() is While {
        let w = st.stack.last()->start_line as int;
        Ok(
            State {
                stack: st.stack.drop_last(),
                out: st.out + label("BRA while_"@, w, "\n"@) + label("while_"@, w, "_end "@),
                ..st
            },
        )
    } else {
        Err(
            err(
                l[0].line as int,
                "'endwhile' found while 'while' loop was not inner most control flow construct"@,
            ),
        )
    }
}

/// `if a op b`.
pub open spec fn if_step(st: State, src: Seq<char>, l: Seq<Token>) -> Result<State, Seq<char>> {
    let ln = l[0].line as int;
    let body = label("if_"@, ln, "_body"@);
    match cond(st, src, l, 1, ln, body, label("if_"@, ln, "_else"@), false) {
        CondResult::Code(code, cs) => Ok(
            State {
                consts: cs,
                stack: st.stack.push(
                    Scope::If { if_start_line: l[0].line, else_start_line: l[0].line, has_else: false },
                ),
                out: st.out + code + body + " "@,
                ..st
            },
        ),
        CondResult::Error(m) => Err(m),
        // `if` does not take `true`, so this arm is never taken.
        CondResult::Forever => Err(Seq::empty()),
    }
}

pub open spec fn else_mismatch_msg() -> Seq<char> {
    "'else' found while 'if' statement was not inner most control flow construct"@
}

/// `else` or `else if a op b`.
pub open spec fn else_step(st: State, src: Seq<char>, l: Seq<Token>) -> Result<State, Seq<char>> {
    let ln = l[0].line as int;
    if st.stack.len() == 0 {
        Err(err(ln, else_mismatch_msg()))
    } else if st.stack.last() is While {
        Err(err(ln, "expected 'else if' or just 'else'"@))
    } else {
        let a = st.stack.last()->if_start_line;
        let b = st.stack.last()->else_start_line;
        let stack = st.stack.drop_last().push(
            Scope::If { if_start_line: a, else_start_line: l[0].line, has_else: true },
        );
        let jump = label("BRA if_"@, a as int, "_end\n"@) + label("if_"@, b as int, "_else "@);
        if l.len() == 1 {
            Ok(State { stack: stack, out: st.out + jump, ..st })
        } else if !(l[1].kind is If) {
            Err(err(ln, else_mismatch_msg()))
        } else {
            let body = label("if_"@, ln, "_body"@);
            match cond(st, src, l, 2, ln, body, label("if_"@, ln, "_else"@), false) {
                CondResult::Code(code, cs) => Ok(
                    State { consts: cs, stack: stack, out: st.out + jump + code + body + " "@, ..st },
                ),
                CondResult::Error(m) => Err(m),
                CondResult::Forever => Err(Seq::empty()),
            }
        }
    }
}

pub open spec fn endif_mismatch_msg() -> Seq<char> {
    "'endif' found while 'if' statement was not inner most control flow construct"@
}

/// `endif`.
pub open spec fn endif_step(st: State, l: Seq<Token>) -> Result<State, Seq<char>> {
    if st.stack.len() > 0 && st.stack.last() is If {
        let a = st.stack.last()->if_start_line as int;
        let lab = if st.stack.last()->has_else {
            label("if_"@, a, "_end"@)
        } else {
            label("if_"@, a, "_else"@)
        };
        Ok(State { stack: st.stack.drop_last(), out: st.out + lab + " ADD const_0\n"@, ..st })
    } else {
        Err(err(l[0].line as int, endif_mismatch_msg()))
    }
}

/// One non-empty logical line, dispatched on its first token.
pub open spec fn step(st: State, src: Seq<char>, l: Seq<Token>) -> Result<State, Seq<char>> {
    match l[0].kind {
        Kind::Identifier { .. } => assign_step(st, src, l),
        Kind::Input => input_step(st, src, l),
        Kind::Output => output_step(st, src, l),
        Kind::While => while_step(st, src, l),
        Kind::Break => break_step(st, l),
        Kind::EndWhile => endwhile_step(st, l),
        Kind::If => if_step(st, src, l),
        Kind::Else => else_step(st, src, l),
        Kind::EndIf => endif_step(st, l),
        _ => Err(
            err(
                l[0].line as int,
                "Expected assignment, input, output, or start or end of if statement or while loop"@,
            ),
        ),
    }
}

/// Feeds the tokens from `i` on to the line steps; `cur` holds the tokens of
/// the logical line read so far.
pub open spec fn run_from(
    src: Seq<char>,
    toks: Seq<Token>,
    i: int,
    cur: Seq<Token>,
    st: State,
) -> Result<State, Seq<char>>
    decreases toks.len() - i,
{
    if i >= toks.len() {
        if cur.len() > 0 {
            step(st, src, cur)
        } else {
            Ok(st)
        }
    } else if toks[i].kind is NewLine {
        if cur.len() > 0 {
            match step(st, src, cur) {
                Ok(s2) => run_from(src, toks, i + 1, Seq::empty(), s2),
                Err(m) => Err(m),
            }
        } else {
            run_from(src, toks, i + 1, Seq::empty(), st)
        }
    } else {
        run_from(src, toks, i + 1, cur.push(toks[i]), st)
    }
}

/// The data cell of one variable.
pub open spec fn var_line(v: (Seq<char>, i32)) -> Seq<char> {
    "var_"@ + v.0 + " DAT "@ + dec_int(v.1 as int) + "\n"@
}

/// The data cells of the variables, in order of declaration.
pub open spec fn var_lines(vars: Seq<(Seq<char>, i32)>) -> Seq<char>
    decreases vars.len(),
{
    if vars.len() == 0 {
        Seq::empty()
    } else {
        var_lines(vars.drop_last()) + var_line(vars.last())
    }
}

/// The data cell of one constant.
pub open spec fn const_line(n: i32) -> Seq<char> {
    "const_"@ + dec_int(n as int) + " DAT "@ + dec_int(n as int) + "\n"@
}

/// The data cells of the constants, in order of first reference.
pub open spec fn const_lines(consts: Seq<i32>) -> Seq<char>
    decreases consts.len(),
{
    if consts.len() == 0 {
        Seq::empty()
    } else {
        const_lines(consts.drop_last()) + const_line(consts.last())
    }
}

/// The line a frame was opened on.
pub open spec fn frame_line(s: Scope) -> usize {
    match s {
        Scope::While { start_line } => start_line,
        Scope::If { if_start_line, .. } => if_start_line,
    }
}

pub open spec fn unclosed_msg() -> Seq<char> {
    "control flow construct opened on this line is never closed"@
}

/// The program after the last line: `HLT`, the variables, a blank line, the
/// constants; or an error where a construct is still open.
pub open spec fn finish(st: State) -> Result<Seq<char>, Seq<char>> {
    if st.stack.len() > 0 {
        Err(err(frame_line(st.stack.last()) as int, unclosed_msg()))
    } else {
        Ok(st.out + "HLT\n\n"@ + var_lines(st.vars) + "\n"@ + const_lines(st.consts))
    }
}

/// The result of compiling a source text.
pub open spec fn compile_result(src: Seq<char>) -> Result<Seq<char>, Seq<char>> {
    match run_from(src, tokens(src), 0, Seq::empty(), initial_state()) {
        Ok(st) => finish(st),
        Err(m) => Err(m),
    }
}

} // verus!
