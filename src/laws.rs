//! Laws of the compiler, proved over the specification.
use vstd::prelude::*;
use crate::lexer::{Kind, Token, tokens};
use crate::semantics::{
    Scope, State, add_const, compile_result, const_line, const_lines, declare, finish, has_var,
    initial_state, name, operand_consts, run_from, step, undeclared, unknown, var_line, var_lines,
};
use crate::text::{dec_int, dec_nat};

verus! {

/// A first assignment of a literal to a new name emits no code: it declares
/// the name with the literal as its initial value and changes nothing else.
pub proof fn lemma_constant_init_fold(st: State, src: Seq<char>, l: Seq<Token>)
    requires
        l.len() == 3,
        l[0].kind is Identifier,
        l[1].kind is Assign,
        l[2].kind is Number,
        !has_var(st.vars, name(src, l[0].kind)),
    ensures
        step(st, src, l) == Ok::<State, Seq<char>>(
            State { vars: st.vars.push((name(src, l[0].kind), l[2].kind->Number_0)), ..st },
        ),
{
}

/// How a successful line changes the scope stack: an opener pushes its frame,
/// a closer pops a frame of its own kind, `else` replaces the top `if` frame,
/// and every other line leaves the stack as it was.
pub open spec fn frame_effect(st: State, l: Seq<Token>, after: State) -> bool {
    match l[0].kind {
        Kind::While => after.stack == st.stack.push(Scope::While { start_line: l[0].line }),
        Kind::If => after.stack == st.stack.push(
            Scope::If { if_start_line: l[0].line, else_start_line: l[0].line, has_else: false },
        ),
        Kind::EndWhile => st.stack.len() > 0 && st.stack.last() is While && after.stack
            == st.stack.drop_last(),
        Kind::EndIf => st.stack.len() > 0 && st.stack.last() is If && after.stack
            == st.stack.drop_last(),
        Kind::Else => st.stack.len() > 0 && st.stack.last() is If && after.stack.len()
            == st.stack.len() && after.stack.last() is If && after.stack.drop_last()
            == st.stack.drop_last(),
        _ => after.stack == st.stack,
    }
}

/// Every line that compiles changes the scope stack as `frame_effect` says.
pub proof fn lemma_scope_frames(st: State, src: Seq<char>, l: Seq<Token>)
    requires
        l.len() >= 1,
        step(st, src, l) is Ok,
    ensures
        frame_effect(st, l, step(st, src, l)->Ok_0),
{
    let after = step(st, src, l)->Ok_0;
    match l[0].kind {
        Kind::Else => {
            assert(after.stack.drop_last() =~= st.stack.drop_last());
        },
        _ => {},
    }
}

/// How many frames a line opens (one), closes (minus one) or neither.
pub open spec fn depth_change(l: Seq<Token>) -> int {
    match l[0].kind {
        Kind::While | Kind::If => 1,
        Kind::EndWhile | Kind::EndIf => -1,
        _ => 0,
    }
}

/// The frames a run of lines leaves open.
pub open spec fn depth(ls: Seq<Seq<Token>>) -> int
    decreases ls.len(),
{
    if ls.len() == 0 {
        0
    } else {
        depth(ls.drop_last()) + depth_change(ls.last())
    }
}

/// Compiling a run of lines one after another.
pub open spec fn run_lines(st: State, src: Seq<char>, ls: Seq<Seq<Token>>) -> Result<State, Seq<char>>
    decreases ls.len(),
{
    if ls.len() == 0 {
        Ok(st)
    } else {
        match run_lines(st, src, ls.drop_last()) {
            Ok(s) => step(s, src, ls.last()),
            Err(m) => Err(m),
        }
    }
}

/// A run of non-empty lines whose closers and `else` lines only ever reach
/// frames that the run itself opened.
pub open spec fn well_nested(ls: Seq<Seq<Token>>) -> bool {
    &&& forall|k: int| 0 <= k < ls.len() ==> (#[trigger] ls[k]).len() >= 1
    &&& forall|k: int|
        0 <= k < ls.len() ==> depth(#[trigger] ls.subrange(0, k)) + depth_change(ls[k]) >= 0
    &&& forall|k: int|
        0 <= k < ls.len() && (#[trigger] ls[k])[0].kind is Else ==> depth(ls.subrange(0, k)) >= 1
}

proof fn lemma_run_lines_frames(st: State, src: Seq<char>, ls: Seq<Seq<Token>>)
    requires
        well_nested(ls),
        run_lines(st, src, ls) is Ok,
    ensures
        run_lines(st, src, ls)->Ok_0.stack.len() == st.stack.len() + depth(ls),
        run_lines(st, src, ls)->Ok_0.stack.subrange(0, st.stack.len() as int) == st.stack,
    decreases ls.len(),
{
    if ls.len() == 0 {
        assert(st.stack.subrange(0, st.stack.len() as int) =~= st.stack);
    } else {
        let pre = ls.drop_last();
        let n = ls.len() - 1;
        assert(pre =~= ls.subrange(0, n));
        assert forall|k: int| 0 <= k < pre.len() implies (#[trigger] pre.subrange(0, k)) =~= ls.subrange(0, k) by {}
        assert(well_nested(pre)) by {
            assert forall|k: int| 0 <= k < pre.len() implies (#[trigger] pre[k]).len() >= 1 by {
                assert(pre[k] == ls[k]);
            }
            assert forall|k: int| 0 <= k < pre.len() implies depth(#[trigger] pre.subrange(0, k)) + depth_change(pre[k]) >= 0 by {
                assert(pre.subrange(0, k) =~= ls.subrange(0, k));
                assert(pre[k] == ls[k]);
                assert(depth(ls.subrange(0, k)) + depth_change(ls[k]) >= 0);
            }
            assert forall|k: int| 0 <= k < pre.len() && (#[trigger] pre[k])[0].kind is Else implies depth(pre.subrange(0, k)) >= 1 by {
                assert(pre.subrange(0, k) =~= ls.subrange(0, k));
                assert(pre[k] == ls[k]);
            }
        }
        lemma_run_lines_frames(st, src, pre);
        let s = run_lines(st, src, pre)->Ok_0;
        let l = ls.last();
        assert(l == ls[n]);
        assert(l.len() >= 1);
        assert(depth(ls.subrange(0, n)) + depth_change(ls[n]) >= 0);
        lemma_scope_frames(s, src, l);
        let after = step(s, src, l)->Ok_0;
        let m = st.stack.len() as int;
        if l[0].kind is Else {
            assert(depth(ls.subrange(0, n)) >= 1);
        }
        assert(after.stack.subrange(0, m) =~= st.stack) by {
            assert forall|j: int| 0 <= j < m implies after.stack[j] == st.stack[j] by {
                assert(s.stack.subrange(0, m)[j] == st.stack[j]);
                if l[0].kind is Else {
                    assert(after.stack.drop_last()[j] == s.stack.drop_last()[j]);
                }
            }
        }
    }
}

/// Scope closure: an opener, then a well-nested body, then a closer, leave the
/// scope stack as it was before the opener.
pub proof fn lemma_scope_closure_body(
    st: State,
    src: Seq<char>,
    opener: Seq<Token>,
    body: Seq<Seq<Token>>,
    closer: Seq<Token>,
)
    requires
        opener.len() >= 1,
        closer.len() >= 1,
        opener[0].kind is While || opener[0].kind is If,
        closer[0].kind is EndWhile || closer[0].kind is EndIf,
        well_nested(body),
        depth(body) == 0,
        step(st, src, opener) is Ok,
        run_lines(step(st, src, opener)->Ok_0, src, body) is Ok,
        step(run_lines(step(st, src, opener)->Ok_0, src, body)->Ok_0, src, closer) is Ok,
    ensures
        step(run_lines(step(st, src, opener)->Ok_0, src, body)->Ok_0, src, closer)->Ok_0.stack
            == st.stack,
{
    let s1 = step(st, src, opener)->Ok_0;
    lemma_scope_frames(st, src, opener);
    lemma_run_lines_frames(s1, src, body);
    let s2 = run_lines(s1, src, body)->Ok_0;
    assert(s2.stack =~= s1.stack) by {
        assert(s2.stack.len() == s1.stack.len());
        assert forall|j: int| 0 <= j < s1.stack.len() implies s2.stack[j] == s1.stack[j] by {
            assert(s2.stack.subrange(0, s1.stack.len() as int)[j] == s2.stack[j]);
        }
    }
    lemma_scope_frames(s2, src, closer);
    assert(s1.stack.drop_last() =~= st.stack);
}

/// Declaration before use: a line whose first read operand is an undeclared
/// identifier fails with the name error citing that line and that name. The
/// read positions are the first operand of `output`, of an assignment's
/// right-hand side, and of the condition of `while`, `if` and `else if`.
pub proof fn lemma_undeclared_read(st: State, src: Seq<char>, l: Seq<Token>, p: int)
    requires
        0 < p < l.len(),
        (l[0].kind is Output && p == 1) || (l[0].kind is Identifier && l[1].kind is Assign && p
            == 2) || ((l[0].kind is While || l[0].kind is If) && p == 1) || (l[0].kind is Else
            && l[1].kind is If && p == 2 && st.stack.len() > 0 && st.stack.last() is If),
        undeclared(st.vars, src, l[p].kind),
    ensures
        step(st, src, l) == Err::<State, Seq<char>>(
            unknown(l[0].line as int, "Variable unknown identifier '"@, name(src, l[p].kind)),
        ),
{
}


/// `a` keeps the entries of `b` in their places, and may hold more after them.
pub open spec fn extends(a: Seq<i32>, b: Seq<i32>) -> bool {
    a.len() >= b.len() && forall|j: int| 0 <= j < b.len() ==> a[j] == b[j]
}

/// A line that compiles never removes or reorders constants.
pub proof fn lemma_step_keeps_consts(st: State, src: Seq<char>, l: Seq<Token>)
    requires
        l.len() >= 1,
        step(st, src, l) is Ok,
    ensures
        extends(step(st, src, l)->Ok_0.consts, st.consts),
{
}

/// Compiling the remaining lines keeps `0` as the first constant.
proof fn lemma_run_keeps_zero(src: Seq<char>, toks: Seq<Token>, i: int, cur: Seq<Token>, st: State)
    requires
        st.consts.len() >= 1,
        st.consts[0] == 0,
    ensures
        run_from(src, toks, i, cur, st) is Ok ==> run_from(src, toks, i, cur, st)->Ok_0.consts.len()
            >= 1 && run_from(src, toks, i, cur, st)->Ok_0.consts[0] == 0,
    decreases toks.len() - i,
{
    if i >= toks.len() {
        if cur.len() > 0 && step(st, src, cur) is Ok {
            lemma_step_keeps_consts(st, src, cur);
        }
    } else if toks[i].kind is NewLine {
        if cur.len() > 0 {
            if step(st, src, cur) is Ok {
                lemma_step_keeps_consts(st, src, cur);
                lemma_run_keeps_zero(src, toks, i + 1, Seq::empty(), step(st, src, cur)->Ok_0);
            }
        } else {
            lemma_run_keeps_zero(src, toks, i + 1, Seq::empty(), st);
        }
    } else {
        lemma_run_keeps_zero(src, toks, i + 1, cur.push(toks[i]), st);
    }
}

/// The data cells of the constants start with the cell of the first one.
proof fn lemma_const_lines_start(c: Seq<i32>)
    requires
        c.len() >= 1,
    ensures
        const_line(c[0]).len() <= const_lines(c).len(),
        const_lines(c).subrange(0, const_line(c[0]).len() as int) == const_line(c[0]),
    decreases c.len(),
{
    if c.len() == 1 {
        assert(c.drop_last() =~= Seq::<i32>::empty());
        assert(const_lines(c.drop_last()) == Seq::<char>::empty());
        assert(const_lines(c) =~= const_line(c[0]));
    } else {
        let d = c.drop_last();
        lemma_const_lines_start(d);
        assert(d[0] == c[0]);
        assert(const_lines(c).subrange(0, const_line(c[0]).len() as int) =~= const_lines(d).subrange(
            0,
            const_line(c[0]).len() as int,
        ));
    }
}

/// Every program that compiles holds the data cell `const_0 DAT 0`.
pub proof fn lemma_zero_constant_present(src: Seq<char>)
    requires
        compile_result(src) is Ok,
    ensures
        exists|k: int|
            0 <= k && k + "const_0 DAT 0\n"@.len() <= compile_result(src)->Ok_0.len()
                && #[trigger] compile_result(src)->Ok_0.subrange(k, k + "const_0 DAT 0\n"@.len())
                == "const_0 DAT 0\n"@,
{
    let init = initial_state();
    lemma_run_keeps_zero(src, tokens(src), 0, Seq::empty(), init);
    let st = run_from(src, tokens(src), 0, Seq::empty(), init)->Ok_0;
    let out = compile_result(src)->Ok_0;
    let head = st.out + "HLT\n\n"@ + crate::semantics::var_lines(st.vars) + "\n"@;
    assert(out == head + const_lines(st.consts));
    lemma_const_lines_start(st.consts);
    proof_zero_line();
    let k = head.len() as int;
    let n = const_line(0).len() as int;
    assert(out.subrange(k, k + n) =~= const_lines(st.consts).subrange(0, n));
}

proof fn proof_zero_line()
    ensures
        const_line(0) == "const_0 DAT 0\n"@,
{
    reveal_strlit("const_0 DAT 0\n");
    reveal_strlit("const_");
    reveal_strlit(" DAT ");
    reveal_strlit("\n");
    assert(dec_nat(0) =~= seq!['0']);
    assert(dec_int(0) =~= seq!['0']);
    assert(const_line(0) =~= "const_0 DAT 0\n"@);
}


/// The line is a first assignment of a literal to a new name, which emits no
/// code.
pub open spec fn is_fold(st: State, src: Seq<char>, l: Seq<Token>) -> bool {
    l[0].kind is Identifier && l.len() == 3 && l[1].kind is Assign && l[2].kind is Number
        && !has_var(st.vars, name(src, l[0].kind))
}

/// The positions of the operands whose cells a line's code addresses.
pub open spec fn operand_positions(st: State, src: Seq<char>, l: Seq<Token>) -> Seq<int> {
    match l[0].kind {
        Kind::Identifier { .. } => if is_fold(st, src, l) {
            Seq::empty()
        } else if l.len() >= 5 {
            seq![2int, 4int]
        } else {
            seq![2int]
        },
        Kind::Output => if l.len() >= 4 {
            seq![1int, 3int]
        } else {
            seq![1int]
        },
        Kind::While => if l.len() >= 2 && l[1].kind is True {
            Seq::empty()
        } else {
            seq![1int, 3int]
        },
        Kind::If => seq![1int, 3int],
        Kind::Else => if l.len() > 1 {
            seq![2int, 4int]
        } else {
            Seq::empty()
        },
        _ => Seq::empty(),
    }
}

/// An operand has a storage cell: a declared variable or a listed constant.
pub open spec fn operand_stored(st: State, src: Seq<char>, k: Kind) -> bool {
    match k {
        Kind::Identifier { .. } => has_var(st.vars, name(src, k)),
        Kind::Number(n) => st.consts.contains(n),
        _ => true,
    }
}

/// The variable a line stores to, if any.
pub open spec fn destination(l: Seq<Token>) -> Option<Kind> {
    match l[0].kind {
        Kind::Identifier { .. } => Some(l[0].kind),
        Kind::Input => Some(l[1].kind),
        _ => None,
    }
}

proof fn lemma_declare_keeps(vars: Seq<(Seq<char>, i32)>, x: Seq<char>, init: i32, y: Seq<char>)
    ensures
        has_var(declare(vars, x, init), x),
        has_var(vars, y) ==> has_var(declare(vars, x, init), y),
{
    let d = declare(vars, x, init);
    if !has_var(vars, x) {
        assert(d[vars.len() as int].0 == x);
    }
    if has_var(vars, y) {
        let j = choose|j: int| 0 <= j < vars.len() && (#[trigger] vars[j]).0 == y;
        assert(d[j] == vars[j]);
    }
}

proof fn lemma_add_const_keeps(c: Seq<i32>, n: i32, m: i32)
    ensures
        add_const(c, n).contains(n),
        c.contains(m) ==> add_const(c, n).contains(m),
        extends(add_const(c, n), c),
{
    if !c.contains(n) {
        assert(add_const(c, n)[c.len() as int] == n);
    }
    if c.contains(m) {
        let j = choose|j: int| 0 <= j < c.len() && c[j] == m;
        assert(add_const(c, n)[j] == m);
    }
}

proof fn lemma_operand_consts_keeps(c: Seq<i32>, k: Kind, m: i32)
    ensures
        k matches Kind::Number(n) ==> operand_consts(c, k).contains(n),
        c.contains(m) ==> operand_consts(c, k).contains(m),
        extends(operand_consts(c, k), c),
{
    if let Kind::Number(n) = k {
        lemma_add_const_keeps(c, n, m);
    }
}

/// Symbol closure: after a line compiles, every operand it addresses and the
/// variable it stores to have a storage cell, and no variable or constant of
/// the tables before it is lost. The data section lists one cell for each
/// entry of the tables.
pub proof fn lemma_symbols_stored(st: State, src: Seq<char>, l: Seq<Token>)
    requires
        l.len() >= 1,
        step(st, src, l) is Ok,
    ensures
        forall|j: int|
            0 <= j < operand_positions(st, src, l).len() ==> operand_stored(
                step(st, src, l)->Ok_0,
                src,
                l[#[trigger] operand_positions(st, src, l)[j]].kind,
            ),
        destination(l) matches Some(k) ==> has_var(step(st, src, l)->Ok_0.vars, name(src, k)),
        forall|y: Seq<char>| #[trigger]
            has_var(st.vars, y) ==> has_var(step(st, src, l)->Ok_0.vars, y),
        extends(step(st, src, l)->Ok_0.consts, st.consts),
{
    let after = step(st, src, l)->Ok_0;
    let ps = operand_positions(st, src, l);
    let fold = is_fold(st, src, l);
    assert forall|y: Seq<char>| #[trigger] has_var(st.vars, y) implies has_var(after.vars, y) by {
        match l[0].kind {
            Kind::Identifier { .. } => if fold {
                lemma_declare_keeps(st.vars, name(src, l[0].kind), l[2].kind->Number_0, y);
            } else {
                lemma_declare_keeps(st.vars, name(src, l[0].kind), 0, y);
            },
            Kind::Input => lemma_declare_keeps(st.vars, name(src, l[1].kind), 0, y),
            _ => {},
        }
    }
    // The first operand sits at `p`, the second, if any, at `p + 2`.
    let p: int = if l[0].kind is Else || l[0].kind is Identifier {
        2
    } else {
        1
    };
    if ps.len() > 0 {
        assert(ps[0] == p);
        let c1 = operand_consts(st.consts, l[p].kind);
        lemma_operand_consts_keeps(st.consts, l[p].kind, 0);
        if ps.len() == 1 {
            assert(after.consts == c1);
            assert(operand_stored(after, src, l[p].kind));
        } else {
            assert(ps[1] == p + 2);
            if let Kind::Number(n) = l[p].kind {
                lemma_operand_consts_keeps(c1, l[p + 2].kind, n);
            } else {
                lemma_operand_consts_keeps(c1, l[p + 2].kind, 0);
            }
            assert(after.consts == operand_consts(c1, l[p + 2].kind));
            assert(operand_stored(after, src, l[p].kind));
            assert(operand_stored(after, src, l[p + 2].kind));
        }
        assert forall|j: int| 0 <= j < ps.len() implies operand_stored(
            after,
            src,
            l[#[trigger] ps[j]].kind,
        ) by {
            if j == 0 {
            } else {
            }
        }
    } else if fold {
        assert(after.consts == st.consts);
    }
    match l[0].kind {
        Kind::Identifier { .. } => if fold {
            lemma_declare_keeps(st.vars, name(src, l[0].kind), l[2].kind->Number_0, name(src, l[0].kind));
        } else {
            lemma_declare_keeps(st.vars, name(src, l[0].kind), 0, name(src, l[0].kind));
        },
        Kind::Input => lemma_declare_keeps(st.vars, name(src, l[1].kind), 0, name(src, l[1].kind)),
        _ => {},
    }
}


/// `a` begins with `b`.
pub open spec fn starts_with(a: Seq<char>, b: Seq<char>) -> bool {
    b.len() <= a.len() && a.subrange(0, b.len() as int) == b
}

/// `a` holds `b` somewhere.
pub open spec fn holds(a: Seq<char>, b: Seq<char>) -> bool {
    exists|k: int| 0 <= k && k + b.len() <= a.len() && #[trigger] a.subrange(k, k + b.len()) == b
}

proof fn lemma_var_lines_prefix(vars: Seq<(Seq<char>, i32)>, m: int)
    requires
        0 <= m <= vars.len(),
    ensures
        starts_with(var_lines(vars), var_lines(vars.subrange(0, m))),
    decreases vars.len(),
{
    if m == vars.len() {
        assert(vars.subrange(0, m) =~= vars);
        assert(var_lines(vars).subrange(0, var_lines(vars).len() as int) =~= var_lines(vars));
    } else {
        let d = vars.drop_last();
        lemma_var_lines_prefix(d, m);
        assert(d.subrange(0, m) =~= vars.subrange(0, m));
        let p = var_lines(vars.subrange(0, m));
        assert(var_lines(vars) == var_lines(d) + var_line(vars.last()));
        assert(var_lines(vars).subrange(0, p.len() as int) =~= var_lines(d).subrange(0, p.len() as int));
    }
}

proof fn lemma_const_lines_prefix(c: Seq<i32>, m: int)
    requires
        0 <= m <= c.len(),
    ensures
        starts_with(const_lines(c), const_lines(c.subrange(0, m))),
    decreases c.len(),
{
    if m == c.len() {
        assert(c.subrange(0, m) =~= c);
        assert(const_lines(c).subrange(0, const_lines(c).len() as int) =~= const_lines(c));
    } else {
        let d = c.drop_last();
        lemma_const_lines_prefix(d, m);
        assert(d.subrange(0, m) =~= c.subrange(0, m));
        let p = const_lines(c.subrange(0, m));
        assert(const_lines(c) == const_lines(d) + const_line(c.last()));
        assert(const_lines(c).subrange(0, p.len() as int) =~= const_lines(d).subrange(0, p.len() as int));
    }
}

/// The data section of a finished program holds the cell `var_X DAT N` of
/// every declared variable and the cell `const_N DAT N` of every constant.
pub proof fn lemma_data_cells(st: State)
    requires
        finish(st) is Ok,
    ensures
        forall|j: int| 0 <= j < st.vars.len() ==> holds(finish(st)->Ok_0, #[trigger] var_line(st.vars[j])),
        forall|j: int| 0 <= j < st.consts.len() ==> holds(finish(st)->Ok_0, #[trigger] const_line(st.consts[j])),
{
    let out = finish(st)->Ok_0;
    let h1 = st.out + "HLT\n\n"@;
    let h2 = h1 + var_lines(st.vars) + "\n"@;
    assert(out == h2 + const_lines(st.consts));
    assert forall|j: int| 0 <= j < st.vars.len() implies holds(out, #[trigger] var_line(st.vars[j])) by {
        let pre = st.vars.subrange(0, j + 1);
        lemma_var_lines_prefix(st.vars, j + 1);
        assert(pre.drop_last() =~= st.vars.subrange(0, j));
        let a = var_lines(st.vars.subrange(0, j));
        let cell = var_line(st.vars[j]);
        assert(var_lines(pre) == a + cell);
        let k: int = (h1.len() + a.len()) as int;
        let all = var_lines(st.vars);
        assert(all.subrange(0, var_lines(pre).len() as int) == var_lines(pre));
        assert forall|i: int| 0 <= i < cell.len() implies out[k + i] == cell[i] by {
            assert(out[k + i] == all[a.len() + i]);
            assert(all.subrange(0, var_lines(pre).len() as int)[a.len() + i] == var_lines(pre)[a.len() + i]);
            assert(var_lines(pre)[a.len() + i] == cell[i]);
        }
        assert(out.subrange(k, k + cell.len()) =~= cell);
    }
    assert forall|j: int| 0 <= j < st.consts.len() implies holds(out, #[trigger] const_line(st.consts[j])) by {
        let pre = st.consts.subrange(0, j + 1);
        lemma_const_lines_prefix(st.consts, j + 1);
        assert(pre.drop_last() =~= st.consts.subrange(0, j));
        let a = const_lines(st.consts.subrange(0, j));
        let cell = const_line(st.consts[j]);
        assert(const_lines(pre) == a + cell);
        let k: int = (h2.len() + a.len()) as int;
        let all = const_lines(st.consts);
        assert(all.subrange(0, const_lines(pre).len() as int) == const_lines(pre));
        assert forall|i: int| 0 <= i < cell.len() implies out[k + i] == cell[i] by {
            assert(out[k + i] == all[a.len() + i]);
            assert(all.subrange(0, const_lines(pre).len() as int)[a.len() + i] == const_lines(pre)[a.len() + i]);
            assert(const_lines(pre)[a.len() + i] == cell[i]);
        }
        assert(out.subrange(k, k + cell.len()) =~= cell);
    }
}

} // verus!
