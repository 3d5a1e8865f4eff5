//! The code emitter: compiles logical lines one at a time into LMC assembly.
use vstd::prelude::*;
use crate::lexer::{Kind, Token, token_wf, tokens_wf};
use crate::semantics::{
    CondResult, Scope, State, add_const, arith_text, assign_step, break_step, cond, const_lines,
    declare, else_step, endif_step, endwhile_step, err, err_at, finish, frame_line, has_var,
    if_step, initial_state, innermost_while, input_step, is_cmp, is_operand, label, name,
    operand_consts, operand_text, output_step, step, test_code, undeclared, unknown, var_lines,
    while_step,
};
use crate::text::{push_i32, push_range, push_str, push_usize, ranges_equal};

verus! {

/// A declared variable and its initial value.
pub struct Var {
    pub name: Vec<char>,
    pub init: i32,
}

pub open spec fn var_view(v: Var) -> (Seq<char>, i32) {
    (v.name@, v.init)
}

/// The state of one compilation.
pub struct Emitter {
    pub vars: Vec<Var>,
    pub consts: Vec<i32>,
    pub stack: Vec<Scope>,
    pub out: Vec<char>,
}

impl View for Emitter {
    type V = State;

    open spec fn view(&self) -> State {
        State {
            vars: self.vars@.map_values(|v: Var| var_view(v)),
            consts: self.consts@,
            stack: self.stack@,
            out: self.out@,
        }
    }
}

/// A line step's outcome agrees with its specification: on success the new
/// state is the one specified, on failure the message is.
pub open spec fn agrees(expected: Result<State, Seq<char>>, after: State, r: Result<(), Vec<char>>) -> bool {
    match expected {
        Ok(s) => r is Ok && after == s,
        Err(m) => r matches Err(e) && e@ == m,
    }
}

fn is_operand_kind(k: Kind) -> (r: bool)
    ensures
        r == is_operand(k),
{
    match k {
        Kind::Identifier { .. } => true,
        Kind::Number(_) => true,
        _ => false,
    }
}

fn is_arith_kind(k: Kind) -> (r: bool)
    ensures
        r == (k is Add || k is Sub),
{
    match k {
        Kind::Add => true,
        Kind::Sub => true,
        _ => false,
    }
}

fn is_cmp_kind(k: Kind) -> (r: bool)
    ensures
        r == is_cmp(k),
{
    match k {
        Kind::Eq => true,
        Kind::Ne => true,
        Kind::Gt => true,
        Kind::Lt => true,
        Kind::Ge => true,
        Kind::Le => true,
        _ => false,
    }
}

/// `Error on line <line>: <msg>`.
pub fn error_line(line: usize, msg: &str) -> (r: Vec<char>)
    ensures
        r@ == err(line as int, msg@),
{
    let mut r: Vec<char> = Vec::new();
    push_str(&mut r, "Error on line ");
    push_usize(&mut r, line);
    push_str(&mut r, ": ");
    push_str(&mut r, msg);
    proof {
        assert(r@ =~= err(line as int, msg@));
    }
    r
}

/// `Error on line <line> token <tok>: <msg>`.
pub fn error_token(line: usize, tok: usize, msg: &str) -> (r: Vec<char>)
    ensures
        r@ == err_at(line as int, tok as int, msg@),
{
    let mut r: Vec<char> = Vec::new();
    push_str(&mut r, "Error on line ");
    push_usize(&mut r, line);
    push_str(&mut r, " token ");
    push_usize(&mut r, tok);
    push_str(&mut r, ": ");
    push_str(&mut r, msg);
    proof {
        assert(r@ =~= err_at(line as int, tok as int, msg@));
    }
    r
}

/// The name error for the identifier token `k`.
pub fn error_unknown(line: usize, prefix: &str, src: &Vec<char>, k: Kind) -> (r: Vec<char>)
    requires
        k is Identifier,
        token_wf(Token { line, kind: k }, src@.len()),
    ensures
        r@ == unknown(line as int, prefix@, name(src@, k)),
{
    let mut m: Vec<char> = Vec::new();
    push_str(&mut m, "Error on line ");
    push_usize(&mut m, line);
    push_str(&mut m, " token ");
    push_usize(&mut m, 2);
    push_str(&mut m, ": ");
    push_str(&mut m, prefix);
    if let Kind::Identifier { start, end } = k {
        push_range(&mut m, src, start, end);
    }
    push_str(&mut m, "'");
    proof {
        assert(m@ =~= unknown(line as int, prefix@, name(src@, k)));
    }
    m
}

/// A label `<prefix><line><suffix>`.
pub fn make_label(prefix: &str, line: usize, suffix: &str) -> (r: Vec<char>)
    ensures
        r@ == label(prefix@, line as int, suffix@),
{
    let mut r: Vec<char> = Vec::new();
    push_str(&mut r, prefix);
    push_usize(&mut r, line);
    push_str(&mut r, suffix);
    proof {
        assert(r@ =~= label(prefix@, line as int, suffix@));
    }
    r
}

/// Appends the storage label of an operand.
fn push_operand(out: &mut Vec<char>, src: &Vec<char>, k: Kind)
    requires
        is_operand(k),
        token_wf(Token { line: 0, kind: k }, src@.len()),
    ensures
        final(out)@ == old(out)@ + operand_text(src@, k),
{
    match k {
        Kind::Number(n) => {
            push_str(out, "const_");
            push_i32(out, n);
        },
        Kind::Identifier { start, end } => {
            push_str(out, "var_");
            push_range(out, src, start, end);
        },
        _ => {},
    }
    proof {
        assert(final(out)@ =~= old(out)@ + operand_text(src@, k));
    }
}

/// Appends `LDA a`, `SUB b`, `<br> x`, `BRA y`.
fn push_test(out: &mut Vec<char>, src: &Vec<char>, a: Kind, b: Kind, br: &str, x: &Vec<char>, y: &Vec<char>)
    requires
        is_operand(a),
        is_operand(b),
        token_wf(Token { line: 0, kind: a }, src@.len()),
        token_wf(Token { line: 0, kind: b }, src@.len()),
    ensures
        final(out)@ == old(out)@ + test_code(
            operand_text(src@, a),
            operand_text(src@, b),
            br@,
            x@,
            y@,
        ),
{
    push_str(out, "LDA ");
    push_operand(out, src, a);
    push_str(out, "\nSUB ");
    push_operand(out, src, b);
    push_str(out, "\n");
    push_str(out, br);
    push_str(out, " ");
    out.extend_from_slice(x.as_slice());
    push_str(out, "\nBRA ");
    out.extend_from_slice(y.as_slice());
    push_str(out, "\n");
    proof {
        assert(final(out)@ =~= old(out)@ + test_code(
            operand_text(src@, a),
            operand_text(src@, b),
            br@,
            x@,
            y@,
        ));
    }
}

impl Emitter {
    /// An emitter before the first line: no variables, the constant 0, no
    /// open construct, no text.
    pub fn new() -> (r: Emitter)
        ensures
            r@ == initial_state(),
    {
        let r = Emitter { vars: Vec::new(), consts: vec![0i32], stack: Vec::new(), out: Vec::new() };
        proof {
            assert(r@.vars =~= initial_state().vars);
            assert(r@.consts =~= initial_state().consts);
        }
        r
    }

    /// Whether the variable `src[start..end]` is declared.
    pub fn is_declared(&self, src: &Vec<char>, start: usize, end: usize) -> (r: bool)
        requires
            start <= end <= src@.len(),
        ensures
            r == has_var(self@.vars, src@.subrange(start as int, end as int)),
    {
        let ghost nm = src@.subrange(start as int, end as int);
        let mut j: usize = 0;
        while j < self.vars.len()
            invariant
                start <= end <= src@.len(),
                0 <= j <= self.vars@.len(),
                nm == src@.subrange(start as int, end as int),
                forall|i: int| 0 <= i < j ==> (#[trigger] self@.vars[i]).0 != nm,
            decreases self.vars.len() - j,
        {
            proof {
                assert(self@.vars[j as int] == var_view(self.vars@[j as int]));
            }
            if ranges_equal(src, start, end, &self.vars[j].name) {
                proof {
                    assert(self@.vars[j as int].0 == nm);
                }
                return true;
            }
            j = j + 1;
        }
        false
    }

    /// Declares the variable `src[start..end]` with `init` unless it is declared.
    pub fn declare(&mut self, src: &Vec<char>, start: usize, end: usize, init: i32)
        requires
            start <= end <= src@.len(),
        ensures
            final(self)@ == (State {
                vars: declare(old(self)@.vars, src@.subrange(start as int, end as int), init),
                ..old(self)@
            }),
    {
        if !self.is_declared(src, start, end) {
            let mut nm: Vec<char> = Vec::new();
            push_range(&mut nm, src, start, end);
            let ghost before = self.vars@;
            self.vars.push(Var { name: nm, init });
            proof {
                assert(self.vars@.map_values(|v: Var| var_view(v)) =~= before.map_values(
                    |v: Var| var_view(v),
                ).push((src@.subrange(start as int, end as int), init)));
            }
        }
    }

    /// Adds `n` to the constants unless it is there.
    pub fn add_const(&mut self, n: i32)
        ensures
            final(self)@ == (State { consts: add_const(old(self)@.consts, n), ..old(self)@ }),
    {
        let mut j: usize = 0;
        while j < self.consts.len()
            invariant
                0 <= j <= self.consts@.len(),
                forall|i: int| 0 <= i < j ==> self.consts@[i] != n,
            decreases self.consts.len() - j,
        {
            if self.consts[j] == n {
                proof {
                    assert(self.consts@.contains(n));
                }
                return;
            }
            j = j + 1;
        }
        self.consts.push(n);
    }

    /// Records the constant an operand refers to, if it is a number.
    fn add_operand_const(&mut self, k: Kind)
        ensures
            final(self)@ == (State { consts: operand_consts(old(self)@.consts, k), ..old(self)@ }),
    {
        if let Kind::Number(n) = k {
            self.add_const(n);
        }
    }

    /// Whether an operand token is an undeclared identifier.
    fn is_undeclared(&self, src: &Vec<char>, k: Kind) -> (r: bool)
        requires
            token_wf(Token { line: 0, kind: k }, src@.len()),
        ensures
            r == undeclared(self@.vars, src@, k),
    {
        match k {
            Kind::Identifier { start, end } => !self.is_declared(src, start, end),
            _ => false,
        }
    }

    /// Reads the condition `l[p] l[p + 1] l[p + 2]` and appends its branch code
    /// towards `t` and `f`. `Ok(true)` stands for `while true`.
    fn condition(
        &mut self,
        src: &Vec<char>,
        l: &Vec<Token>,
        p: usize,
        ln: usize,
        t: &Vec<char>,
        f: &Vec<char>,
        allow_true: bool,
    ) -> (r: Result<bool, Vec<char>>)
        requires
            tokens_wf(l@, src@.len()),
            p <= 2,
        ensures
            match cond(old(self)@, src@, l@, p as int, ln as int, t@, f@, allow_true) {
                CondResult::Error(m) => r matches Err(e) && e@ == m,
                CondResult::Forever => r matches Ok(b) && b && final(self)@ == old(self)@,
                CondResult::Code(code, cs) => r matches Ok(b) && !b && final(self)@ == (State {
                    consts: cs,
                    out: old(self)@.out + code,
                    ..old(self)@
                }),
            },
    {
        if l.len() <= p {
            return Err(
                error_line(ln, "Expected condition formed of two arguments and a comparison operator"),
            );
        }
        let a = l[p].kind;
        proof {
            assert(token_wf(l@[p as int], src@.len()));
        }
        if allow_true && matches!(a, Kind::True) {
            return Ok(true);
        }
        if !is_operand_kind(a) {
            return Err(error_token(ln, 1, "Expected identifier or number"));
        }
        if self.is_undeclared(src, a) {
            return Err(error_unknown(ln, "Variable unknown identifier '", src, a));
        }
        if l.len() <= p + 2 {
            return Err(
                error_line(ln, "Expected condition formed of two arguments and a comparison operator"),
            );
        }
        let b = l[p + 2].kind;
        proof {
            assert(token_wf(l@[p + 2], src@.len()));
        }
        if !is_operand_kind(b) {
            return Err(error_token(ln, 3, "Expected identifier or number"));
        }
        if self.is_undeclared(src, b) {
            return Err(error_unknown(ln, "Variable unknown identifier '", src, b));
        }
        let op = l[p + 1].kind;
        if !is_cmp_kind(op) {
            return Err(error_token(ln, 2, "Expected comparison operator"));
        }
        self.add_operand_const(a);
        self.add_operand_const(b);
        match op {
            Kind::Eq => push_test(&mut self.out, src, a, b, "BRZ", t, f),
            Kind::Ne => push_test(&mut self.out, src, a, b, "BRZ", f, t),
            Kind::Gt => push_test(&mut self.out, src, b, a, "BRP", f, t),
            Kind::Lt => push_test(&mut self.out, src, a, b, "BRP", f, t),
            Kind::Ge => push_test(&mut self.out, src, a, b, "BRP", t, f),
            _ => push_test(&mut self.out, src, b, a, "BRP", t, f),
        }
        Ok(false)
    }

    /// Compiles an assignment line.
    fn assign(&mut self, src: &Vec<char>, l: &Vec<Token>) -> (r: Result<(), Vec<char>>)
        requires
            l@.len() >= 1,
            l@[0].kind is Identifier,
            tokens_wf(l@, src@.len()),
        ensures
            agrees(assign_step(old(self)@, src@, l@), final(self)@, r),
    {
        let ghost st0 = self@;
        let ln = l[0].line;
        proof {
            assert(token_wf(l@[0], src@.len()));
        }
        let (xs, xe) = match l[0].kind {
            Kind::Identifier { start, end } => (start, end),
            _ => (0, 0),
        };
        let ghost x = src@.subrange(xs as int, xe as int);
        if l.len() == 1 || l[1].kind != Kind::Assign {
            return Err(
                error_line(ln, "Identifer at the beginning of a line must be followed by '='"),
            );
        }
        if l.len() == 2 {
            return Err(error_line(ln, "Expected identifier or number"));
        }
        let a = l[2].kind;
        proof {
            assert(token_wf(l@[2], src@.len()));
        }
        if !is_operand_kind(a) {
            return Err(error_token(ln, 2, "Expected identifier or number"));
        }
        if self.is_undeclared(src, a) {
            return Err(error_unknown(ln, "Variable unknown identifier '", src, a));
        }
        if let Kind::Number(n) = a {
            if l.len() == 3 && !self.is_declared(src, xs, xe) {
                self.declare(src, xs, xe, n);
                return Ok(());
            }
        }
        self.add_operand_const(a);
        push_str(&mut self.out, "LDA ");
        push_operand(&mut self.out, src, a);
        push_str(&mut self.out, "\n");
        let ghost o1 = self.out@;
        proof {
            assert(o1 =~= st0.out + "LDA "@ + operand_text(src@, a) + "\n"@);
        }
        if l.len() == 3 {
            push_str(&mut self.out, "STA var_");
            push_range(&mut self.out, src, xs, xe);
            push_str(&mut self.out, "\n");
            proof {
                assert(self.out@ =~= o1 + "STA var_"@ + x + "\n"@);
            }
            self.declare(src, xs, xe, 0);
            return Ok(());
        }
        let op = l[3].kind;
        if !is_arith_kind(op) {
            return Err(error_token(ln, 3, "Expected '+' or '-'"));
        }
        if l.len() == 4 {
            return Err(error_line(ln, "Expected identifer or number"));
        }
        let b = l[4].kind;
        proof {
            assert(token_wf(l@[4], src@.len()));
        }
        if !is_operand_kind(b) {
            return Err(error_token(ln, 4, "Expected identifer or number"));
        }
        if self.is_undeclared(src, b) {
            return Err(error_unknown(ln, "Unknown identifier '", src, b));
        }
        if l.len() > 5 {
            return Err(error_token(ln, 5, "Unexpected token"));
        }
        self.add_operand_const(b);
        if matches!(op, Kind::Add) {
            push_str(&mut self.out, "ADD ");
        } else {
            push_str(&mut self.out, "SUB ");
        }
        push_operand(&mut self.out, src, b);
        push_str(&mut self.out, "\n");
        push_str(&mut self.out, "STA var_");
        push_range(&mut self.out, src, xs, xe);
        push_str(&mut self.out, "\n");
        proof {
            assert(self.out@ =~= o1 + arith_text(op) + operand_text(src@, b) + "\n"@ + "STA var_"@
                + x + "\n"@);
        }
        self.declare(src, xs, xe, 0);
        Ok(())
    }

    /// Compiles an `input` line.
    fn input(&mut self, src: &Vec<char>, l: &Vec<Token>) -> (r: Result<(), Vec<char>>)
        requires
            l@.len() >= 1,
            tokens_wf(l@, src@.len()),
        ensures
            agrees(input_step(old(self)@, src@, l@), final(self)@, r),
    {
        let ghost st0 = self@;
        let ln = l[0].line;
        if l.len() == 1 {
            return Err(error_line(ln, "Expected identifier"));
        }
        proof {
            assert(token_wf(l@[1], src@.len()));
        }
        let (xs, xe) = match l[1].kind {
            Kind::Identifier { start, end } => (start, end),
            _ => {
                return Err(error_token(ln, 1, "Expected identifier"));
            },
        };
        if l.len() > 2 {
            return Err(error_token(ln, 2, "Unexpected token"));
        }
        push_str(&mut self.out, "INP\nSTA var_");
        push_range(&mut self.out, src, xs, xe);
        push_str(&mut self.out, "\n");
        proof {
            assert(self.out@ =~= st0.out + "INP\nSTA var_"@ + src@.subrange(xs as int, xe as int)
                + "\n"@);
        }
        self.declare(src, xs, xe, 0);
        Ok(())
    }

    /// Compiles an `output` line.
    fn output(&mut self, src: &Vec<char>, l: &Vec<Token>) -> (r: Result<(), Vec<char>>)
        requires
            l@.len() >= 1,
            tokens_wf(l@, src@.len()),
        ensures
            agrees(output_step(old(self)@, src@, l@), final(self)@, r),
    {
        let ghost st0 = self@;
        let ln = l[0].line;
        if l.len() == 1 {
            return Err(error_line(ln, "Expected identifier or number"));
        }
        let a = l[1].kind;
        proof {
            assert(token_wf(l@[1], src@.len()));
        }
        if !is_operand_kind(a) {
            return Err(error_token(ln, 2, "Expected identifier or number"));
        }
        if self.is_undeclared(src, a) {
            return Err(error_unknown(ln, "Variable unknown identifier '", src, a));
        }
        self.add_operand_const(a);
        push_str(&mut self.out, "LDA ");
        push_operand(&mut self.out, src, a);
        push_str(&mut self.out, "\n");
        let ghost o1 = self.out@;
        proof {
            assert(o1 =~= st0.out + "LDA "@ + operand_text(src@, a) + "\n"@);
        }
        if l.len() == 2 {
            push_str(&mut self.out, "OUT\n");
            return Ok(());
        }
        let op = l[2].kind;
        if !is_arith_kind(op) {
            return Err(error_token(ln, 3, "Expected '+' or '-'"));
        }
        if l.len() == 3 {
            return Err(error_line(ln, "Expected identifer or number"));
        }
        let b = l[3].kind;
        proof {
            assert(token_wf(l@[3], src@.len()));
        }
        if !is_operand_kind(b) {
            return Err(error_token(ln, 4, "Expected identifer or number"));
        }
        if self.is_undeclared(src, b) {
            return Err(error_unknown(ln, "Variable unknown identifier '", src, b));
        }
        self.add_operand_const(b);
        if matches!(op, Kind::Add) {
            push_str(&mut self.out, "ADD ");
        } else {
            push_str(&mut self.out, "SUB ");
        }
        push_operand(&mut self.out, src, b);
        push_str(&mut self.out, "\n");
        push_str(&mut self.out, "OUT\n");
        proof {
            assert(self.out@ =~= o1 + arith_text(op) + operand_text(src@, b) + "\n"@ + "OUT\n"@);
        }
        Ok(())
    }

    /// Compiles a `while` header.
    fn while_header(&mut self, src: &Vec<char>, l: &Vec<Token>) -> (r: Result<(), Vec<char>>)
        requires
            l@.len() >= 1,
            tokens_wf(l@, src@.len()),
        ensures
            agrees(while_step(old(self)@, src@, l@), final(self)@, r),
    {
        let ghost st0 = self@;
        let ln = l[0].line;
        let top = make_label("while_", ln, " ");
        let body = make_label("while_", ln, "_body");
        let end = make_label("while_", ln, "_end");
        self.out.extend_from_slice(top.as_slice());
        self.stack.push(Scope::While { start_line: ln });
        let ghost opened = self@;
        proof {
            assert(opened.vars == st0.vars);
            assert(opened.consts == st0.consts);
        }
        let res = self.condition(src, l, 1, ln, &body, &end, true);
        match res {
            Err(e) => Err(e),
            Ok(forever) => {
                if !forever {
                    self.out.extend_from_slice(body.as_slice());
                    push_str(&mut self.out, " ");
                }
                proof {
                    assert(opened.out =~= st0.out + label("while_"@, ln as int, " "@));
                    assert(opened.stack =~= st0.stack.push(Scope::While { start_line: ln }));
                    if !forever {
                        let c = cond(opened, src@, l@, 1, ln as int, body@, end@, true);
                        assert(cond(st0, src@, l@, 1, ln as int, body@, end@, true) == c);
                        assert(self@.out =~= opened.out + c->Code_0 + body@ + " "@);
                    }
                }
                Ok(())
            },
        }
    }

    /// Compiles a `break` line.
    fn break_line(&mut self, l: &Vec<Token>) -> (r: Result<(), Vec<char>>)
        requires
            l@.len() >= 1,
        ensures
            agrees(break_step(old(self)@, l@), final(self)@, r),
    {
        let ghost st0 = self@;
        let mut k = self.stack.len();
        while k > 0
            invariant
                k <= self.stack@.len(),
                self@ == st0,
                st0 == old(self)@,
                innermost_while(self.stack@, self.stack@.len() as int) == innermost_while(
                    self.stack@,
                    k as int,
                ),
            decreases k,
        {
            if let Scope::While { start_line } = self.stack[k - 1] {
                let lab = make_label("BRA while_", start_line, "_end\n");
                self.out.extend_from_slice(lab.as_slice());
                proof {
                    assert(innermost_while(self.stack@, k as int) == Some(start_line));
                    assert(self.out@ =~= st0.out + label("BRA while_"@, start_line as int, "_end\n"@));


                }
                return Ok(());
            }
            k = k - 1;
        }
        Err(error_line(l[0].line, "'break' while not in loop"))
    }

    /// Compiles an `endwhile` line.
    fn endwhile_line(&mut self, l: &Vec<Token>) -> (r: Result<(), Vec<char>>)
        requires
            l@.len() >= 1,
        ensures
            agrees(endwhile_step(old(self)@, l@), final(self)@, r),
    {
        let ghost st0 = self@;
        match self.stack.pop() {
            Some(Scope::While { start_line }) => {
                let back = make_label("BRA while_", start_line, "\n");
                let end = make_label("while_", start_line, "_end ");
                self.out.extend_from_slice(back.as_slice());
                self.out.extend_from_slice(end.as_slice());
                proof {
                    assert(self.stack@ =~= st0.stack.drop_last());
                    assert(self.out@ =~= st0.out + back@ + end@);
                }
                Ok(())
            },
            _ => Err(
                error_line(
                    l[0].line,
                    "'endwhile' found while 'while' loop was not inner most control flow construct",
                ),
            ),
        }
    }

    /// Compiles an `if` header.
    fn if_header(&mut self, src: &Vec<char>, l: &Vec<Token>) -> (r: Result<(), Vec<char>>)
        requires
            l@.len() >= 1,
            tokens_wf(l@, src@.len()),
        ensures
            agrees(if_step(old(self)@, src@, l@), final(self)@, r),
    {
        let ghost st0 = self@;
        let ln = l[0].line;
        let body = make_label("if_", ln, "_body");
        let other = make_label("if_", ln, "_else");
        match self.condition(src, l, 1, ln, &body, &other, false) {
            Err(e) => Err(e),
            Ok(_) => {
                self.out.extend_from_slice(body.as_slice());
                push_str(&mut self.out, " ");
                self.stack.push(Scope::If { if_start_line: ln, else_start_line: ln, has_else: false });
                proof {
                    let c = cond(st0, src@, l@, 1, ln as int, body@, other@, false);
                    assert(self@.out =~= st0.out + c->Code_0 + body@ + " "@);
                }
                Ok(())
            },
        }
    }

    /// Compiles an `else` or `else if` line.
    fn else_line(&mut self, src: &Vec<char>, l: &Vec<Token>) -> (r: Result<(), Vec<char>>)
        requires
            l@.len() >= 1,
            tokens_wf(l@, src@.len()),
        ensures
            agrees(else_step(old(self)@, src@, l@), final(self)@, r),
    {
        let ghost st0 = self@;
        let ln = l[0].line;
        let (a, b) = match self.stack.pop() {
            None => {
                return Err(
                    error_line(
                        ln,
                        "'else' found while 'if' statement was not inner most control flow construct",
                    ),
                );
            },
            Some(Scope::While { .. }) => {
                return Err(error_line(ln, "expected 'else if' or just 'else'"));
            },
            Some(Scope::If { if_start_line, else_start_line, .. }) => (if_start_line, else_start_line),
        };
        self.stack.push(Scope::If { if_start_line: a, else_start_line: ln, has_else: true });
        proof {
            assert(self.stack@ =~= st0.stack.drop_last().push(
                Scope::If { if_start_line: a, else_start_line: ln, has_else: true },
            ));
        }
        let jump_end = make_label("BRA if_", a, "_end\n");
        let open_else = make_label("if_", b, "_else ");
        if l.len() == 1 {
            self.out.extend_from_slice(jump_end.as_slice());
            self.out.extend_from_slice(open_else.as_slice());
            proof {
                assert(self.out@ =~= st0.out + (jump_end@ + open_else@));
            }
            return Ok(());
        }
        if !matches!(l[1].kind, Kind::If) {
            return Err(
                error_line(
                    ln,
                    "'else' found while 'if' statement was not inner most control flow construct",
                ),
            );
        }
        let body = make_label("if_", ln, "_body");
        let other = make_label("if_", ln, "_else");
        let ghost popped = self@;
        // The condition's checks and constants do not depend on the text, so
        // it is read first and its code placed after the jump.
        let mut code: Vec<char> = Vec::new();
        std::mem::swap(&mut self.out, &mut code);
        let ghost blank = self@;
        proof {
            assert(blank.vars == st0.vars);
            assert(blank.consts == st0.consts);
        }
        let res = self.condition(src, l, 2, ln, &body, &other, false);
        std::mem::swap(&mut self.out, &mut code);
        match res {
            Err(e) => Err(e),
            Ok(_) => {
                let ghost c = cond(st0, src@, l@, 2, ln as int, body@, other@, false);
                proof {
                    assert(cond(blank, src@, l@, 2, ln as int, body@, other@, false) == c);
                    assert(code@ =~= c->Code_0);
                }
                self.out.extend_from_slice(jump_end.as_slice());
                self.out.extend_from_slice(open_else.as_slice());
                self.out.extend_from_slice(code.as_slice());
                self.out.extend_from_slice(body.as_slice());
                push_str(&mut self.out, " ");
                proof {
                    assert(self.out@ =~= st0.out + (jump_end@ + open_else@) + c->Code_0 + body@
                        + " "@);
                }
                Ok(())
            },
        }
    }

    /// Compiles an `endif` line.
    fn endif_line(&mut self, l: &Vec<Token>) -> (r: Result<(), Vec<char>>)
        requires
            l@.len() >= 1,
        ensures
            agrees(endif_step(old(self)@, l@), final(self)@, r),
    {
        let ghost st0 = self@;
        match self.stack.pop() {
            Some(Scope::If { if_start_line, has_else, .. }) => {
                let lab = if has_else {
                    make_label("if_", if_start_line, "_end")
                } else {
                    make_label("if_", if_start_line, "_else")
                };
                self.out.extend_from_slice(lab.as_slice());
                push_str(&mut self.out, " ADD const_0\n");
                proof {
                    assert(self.stack@ =~= st0.stack.drop_last());
                    assert(self.out@ =~= st0.out + lab@ + " ADD const_0\n"@);
                }
                Ok(())
            },
            _ => Err(
                error_line(
                    l[0].line,
                    "'endif' found while 'if' statement was not inner most control flow construct",
                ),
            ),
        }
    }

    /// Compiles one non-empty logical line.
    pub fn line(&mut self, src: &Vec<char>, l: &Vec<Token>) -> (r: Result<(), Vec<char>>)
        requires
            l@.len() >= 1,
            tokens_wf(l@, src@.len()),
        ensures
            agrees(step(old(self)@, src@, l@), final(self)@, r),
    {
        match l[0].kind {
            Kind::Identifier { .. } => self.assign(src, l),
            Kind::Input => self.input(src, l),
            Kind::Output => self.output(src, l),
            Kind::While => self.while_header(src, l),
            Kind::Break => self.break_line(l),
            Kind::EndWhile => self.endwhile_line(l),
            Kind::If => self.if_header(src, l),
            Kind::Else => self.else_line(src, l),
            Kind::EndIf => self.endif_line(l),
            _ => Err(
                error_line(
                    l[0].line,
                    "Expected assignment, input, output, or start or end of if statement or while loop",
                ),
            ),
        }
    }

    /// Ends the compilation: appends `HLT` and the data section, or reports the
    /// innermost construct that is still open.
    pub fn finish(self) -> (r: Result<Vec<char>, Vec<char>>)
        ensures
            match finish(self@) {
                Ok(s) => r matches Ok(o) && o@ == s,
                Err(m) => r matches Err(e) && e@ == m,
            },
    {
        let ghost st = self@;
        let Emitter { vars, consts, stack, mut out } = self;
        if stack.len() > 0 {
            let top = stack[stack.len() - 1];
            let ln = match top {
                Scope::While { start_line } => start_line,
                Scope::If { if_start_line, .. } => if_start_line,
            };
            proof {
                assert(ln == frame_line(st.stack.last()));
            }
            return Err(error_line(ln, "control flow construct opened on this line is never closed"));
        }
        push_str(&mut out, "HLT\n\n");
        let ghost base = out@;
        let mut j: usize = 0;
        while j < vars.len()
            invariant
                0 <= j <= vars@.len(),
                st.vars == vars@.map_values(|v: Var| var_view(v)),
                out@ == base + var_lines(st.vars.subrange(0, j as int)),
            decreases vars.len() - j,
        {
            let ghost before = out@;
            push_str(&mut out, "var_");
            out.extend_from_slice(vars[j].name.as_slice());
            push_str(&mut out, " DAT ");
            push_i32(&mut out, vars[j].init);
            push_str(&mut out, "\n");
            proof {
                let pre = st.vars.subrange(0, j + 1);
                assert(pre.drop_last() =~= st.vars.subrange(0, j as int));
                assert(pre.last() == var_view(vars@[j as int]));
                assert(crate::semantics::var_line(pre.last()) =~= "var_"@ + vars@[j as int].name@ + " DAT "@
                    + crate::text::dec_int(vars@[j as int].init as int) + "\n"@);
                assert(out@ =~= base + var_lines(pre));
            }
            j = j + 1;
        }
        proof {
            assert(st.vars.subrange(0, st.vars.len() as int) =~= st.vars);
        }
        push_str(&mut out, "\n");
        let ghost base2 = out@;
        let mut k: usize = 0;
        while k < consts.len()
            invariant
                0 <= k <= consts@.len(),
                st.consts == consts@,
                out@ == base2 + const_lines(st.consts.subrange(0, k as int)),
            decreases consts.len() - k,
        {
            let n = consts[k];
            push_str(&mut out, "const_");
            push_i32(&mut out, n);
            push_str(&mut out, " DAT ");
            push_i32(&mut out, n);
            push_str(&mut out, "\n");
            proof {
                let pre = st.consts.subrange(0, k + 1);
                assert(pre.drop_last() =~= st.consts.subrange(0, k as int));
                assert(out@ =~= base2 + const_lines(pre));
            }
            k = k + 1;
        }
        proof {
            assert(st.consts.subrange(0, st.consts.len() as int) =~= st.consts);
            assert(out@ =~= st.out + "HLT\n\n"@ + var_lines(st.vars) + "\n"@ + const_lines(st.consts));
        }
        Ok(out)
    }
}

} // verus!
