//! Laws of the lexer: comments and the length of whitespace runs do not
//! change what is read.
use vstd::prelude::*;
use crate::lexer::{
    Kind, Lex, Token, classify, flush, is_space, lex_from, lex_init, lex_run, lex_step, tokens,
};

verus! {

/// A token with its identifier given by its characters rather than by its
/// place in the source.
pub open spec fn shape(src: Seq<char>, t: Token) -> (usize, Kind, Seq<char>) {
    match t.kind {
        Kind::Identifier { start, end } => (
            t.line,
            Kind::Identifier { start: 0, end: 0 },
            src.subrange(start as int, end as int),
        ),
        k => (t.line, k, Seq::empty()),
    }
}

/// The tokens of `src` as they read, wherever in the source they stand.
pub open spec fn shapes(src: Seq<char>, ts: Seq<Token>) -> Seq<(usize, Kind, Seq<char>)> {
    ts.map_values(|t: Token| shape(src, t))
}

/// Every identifier of `ts` lies within the first `n` characters.
pub open spec fn bounded(ts: Seq<Token>, n: int) -> bool {
    forall|j: int|
        0 <= j < ts.len() ==> ((#[trigger] ts[j]).kind matches Kind::Identifier { start, end }
            ==> start <= end <= n)
}

/// Reading from `i` is reading up to `k`, then on from `k`.
proof fn lemma_run_split(src: Seq<char>, i: int, k: int, s: Lex)
    requires
        0 <= i <= k <= src.len(),
    ensures
        lex_from(src, i, s) == lex_from(src, k, lex_run(src, i, k, s)),
    decreases k - i,
{
    if i < k {
        lemma_run_split(src, i + 1, k, lex_step(src, i, s));
    }
}

proof fn lemma_shapes_push(src: Seq<char>, ts: Seq<Token>, t: Token)
    ensures
        shapes(src, ts.push(t)) == shapes(src, ts).push(shape(src, t)),
{
    assert(shapes(src, ts.push(t)) =~= shapes(src, ts).push(shape(src, t)));
}

proof fn lemma_bounded_flush(src: Seq<char>, in_lex: bool, start: int, end: int, line: int, ts: Seq<Token>, n: int)
    requires
        bounded(ts, n),
        in_lex ==> 0 <= start <= end <= n,
        src.len() <= usize::MAX,
        n <= src.len(),
    ensures
        bounded(flush(src, in_lex, start, end, line, ts), n),
{
    let f = flush(src, in_lex, start, end, line, ts);
    assert forall|j: int| 0 <= j < f.len() implies ((#[trigger] f[j]).kind matches Kind::Identifier { start, end }
        ==> start <= end <= n) by {
        if j < ts.len() {
            assert(f[j] == ts[j]);
        }
    }
}

/// Two sources that agree on their first `n` characters, and on whether the
/// next one is `/`, are read alike up to `n`.
proof fn lemma_same_prefix(a: Seq<char>, b: Seq<char>, i: int, n: int, s: Lex)
    requires
        0 <= i <= n,
        n < a.len(),
        n < b.len(),
        a.len() <= usize::MAX,
        b.len() <= usize::MAX,
        a.subrange(0, n) == b.subrange(0, n),
        (a[n] == '/') == (b[n] == '/'),
        bounded(s.toks, i),
        s.in_lex ==> 0 <= s.start <= i,
        s.in_comment ==> !s.in_lex,
    ensures
        lex_run(a, i, n, s) == lex_run(b, i, n, s),
        bounded(lex_run(a, i, n, s).toks, n),
        lex_run(a, i, n, s).in_lex ==> 0 <= lex_run(a, i, n, s).start <= n,
        lex_run(a, i, n, s).in_comment ==> !lex_run(a, i, n, s).in_lex,
    decreases n - i,
{
    if i < n {
        assert(a[i] == a.subrange(0, n)[i]);
        assert(b[i] == b.subrange(0, n)[i]);
        if i + 1 < n {
            assert(a[i + 1] == a.subrange(0, n)[i + 1]);
            assert(b[i + 1] == b.subrange(0, n)[i + 1]);
        }
        if s.in_lex {
            assert(a.subrange(s.start, i) =~= b.subrange(s.start, i)) by {
                assert forall|j: int| s.start <= j < i implies a[j] == b[j] by {
                    assert(a[j] == a.subrange(0, n)[j]);
                    assert(b[j] == b.subrange(0, n)[j]);
                }
            }
        }
        let t = lex_step(a, i, s);
        assert(t == lex_step(b, i, s));
        lemma_bounded_flush(a, s.in_lex, s.start, i, s.line, s.toks, i + 1);
        assert(bounded(s.toks, i + 1));
        assert(bounded(t.toks, i + 1)) by {
            let f = flush(a, s.in_lex, s.start, i, s.line, s.toks);
            if a[i] == '\n' {
                assert forall|j: int| 0 <= j < t.toks.len() implies ((#[trigger] t.toks[j]).kind matches Kind::Identifier { start, end }
                    ==> start <= end <= i + 1) by {
                    if j < f.len() {
                        assert(t.toks[j] == f[j]);
                    }
                }
            }
        }
        lemma_same_prefix(a, b, i + 1, n, t);
    }
}

/// The states of two readings that will read alike from here on.
pub open spec fn related(a: Seq<char>, b: Seq<char>, i: int, j: int, sa: Lex, sb: Lex) -> bool {
    &&& sa.line == sb.line
    &&& sa.in_lex == sb.in_lex
    &&& sa.in_comment == sb.in_comment
    &&& sa.has_chars == sb.has_chars
    &&& shapes(a, sa.toks) == shapes(b, sb.toks)
    &&& sa.in_lex ==> 0 <= sa.start <= i && 0 <= sb.start <= j && a.subrange(sa.start, i)
        == b.subrange(sb.start, j)
}

proof fn lemma_flush_alike(
    a: Seq<char>,
    b: Seq<char>,
    in_lex: bool,
    s1: int,
    e1: int,
    s2: int,
    e2: int,
    line: int,
    ta: Seq<Token>,
    tb: Seq<Token>,
)
    requires
        a.len() <= usize::MAX,
        b.len() <= usize::MAX,
        shapes(a, ta) == shapes(b, tb),
        in_lex ==> 0 <= s1 <= e1 <= a.len() && 0 <= s2 <= e2 <= b.len() && a.subrange(s1, e1)
            == b.subrange(s2, e2),
    ensures
        shapes(a, flush(a, in_lex, s1, e1, line, ta)) == shapes(b, flush(b, in_lex, s2, e2, line, tb)),
{
    if in_lex {
        let t1 = Token { line: line as usize, kind: classify(a, s1, e1) };
        let t2 = Token { line: line as usize, kind: classify(b, s2, e2) };
        lemma_shapes_push(a, ta, t1);
        lemma_shapes_push(b, tb, t2);
        assert(shape(a, t1) == shape(b, t2));
    }
}

/// Two readings in related states over the same remaining text yield the
/// same tokens, as they read.
proof fn lemma_shift(a: Seq<char>, b: Seq<char>, i: int, j: int, sa: Lex, sb: Lex)
    requires
        0 <= i <= a.len(),
        0 <= j <= b.len(),
        a.len() <= usize::MAX,
        b.len() <= usize::MAX,
        a.subrange(i, a.len() as int) == b.subrange(j, b.len() as int),
        related(a, b, i, j, sa, sb),
    ensures
        shapes(a, lex_from(a, i, sa)) == shapes(b, lex_from(b, j, sb)),
    decreases a.len() - i,
{
    assert(a.len() - i == b.len() - j) by {
        assert(a.subrange(i, a.len() as int).len() == b.subrange(j, b.len() as int).len());
    }
    if i >= a.len() {
        lemma_flush_alike(a, b, sa.in_lex, sa.start, i, sb.start, j, sa.line, sa.toks, sb.toks);
        if sa.has_chars {
            lemma_shapes_push(a, flush(a, sa.in_lex, sa.start, i, sa.line, sa.toks), Token { line: sa.line as usize, kind: Kind::NewLine });
            lemma_shapes_push(b, flush(b, sb.in_lex, sb.start, j, sb.line, sb.toks), Token { line: sb.line as usize, kind: Kind::NewLine });
        }
    } else {
        assert(a[i] == a.subrange(i, a.len() as int)[0]);
        assert(b[j] == b.subrange(j, b.len() as int)[0]);
        if i + 1 < a.len() {
            assert(a[i + 1] == a.subrange(i, a.len() as int)[1]);
            assert(b[j + 1] == b.subrange(j, b.len() as int)[1]);
        }
        let na = lex_step(a, i, sa);
        let nb = lex_step(b, j, sb);
        lemma_flush_alike(a, b, sa.in_lex, sa.start, i, sb.start, j, sa.line, sa.toks, sb.toks);
        let fa = flush(a, sa.in_lex, sa.start, i, sa.line, sa.toks);
        let fb = flush(b, sb.in_lex, sb.start, j, sb.line, sb.toks);
        lemma_shapes_push(a, fa, Token { line: sa.line as usize, kind: Kind::NewLine });
        lemma_shapes_push(b, fb, Token { line: sb.line as usize, kind: Kind::NewLine });
        if na.in_lex {
            if sa.in_lex {
                assert(a.subrange(sa.start, i + 1) =~= a.subrange(sa.start, i).push(a[i]));
                assert(b.subrange(sb.start, j + 1) =~= b.subrange(sb.start, j).push(b[j]));
            } else {
                assert(a.subrange(i, i + 1) =~= seq![a[i]]);
                assert(b.subrange(j, j + 1) =~= seq![b[j]]);
            }
        }
        assert(related(a, b, i + 1, j + 1, na, nb));
        assert(a.subrange(i + 1, a.len() as int) =~= a.subrange(i, a.len() as int).drop_first());
        assert(b.subrange(j + 1, b.len() as int) =~= b.subrange(j, b.len() as int).drop_first());
        lemma_shift(a, b, i + 1, j + 1, na, nb);
    }
}

/// Inside a comment, characters other than a newline change nothing but the
/// mark that the line holds characters.
proof fn lemma_comment_run(src: Seq<char>, i: int, k: int, s: Lex)
    requires
        0 <= i <= k <= src.len(),
        s.in_comment,
        s.has_chars,
        forall|j: int| i <= j < k ==> src[j] != '\n',
    ensures
        lex_run(src, i, k, s) == s,
    decreases k - i,
{
    if i < k {
        assert(lex_step(src, i, s) == s);
        lemma_comment_run(src, i + 1, k, s);
    }
}

/// Whitespace other than newlines, once a lexeme has been ended or inside a
/// comment, changes nothing.
proof fn lemma_space_run(src: Seq<char>, i: int, k: int, t: Lex)
    requires
        0 <= i <= k <= src.len(),
        forall|j: int| i <= j < k ==> is_space(#[trigger] src[j]) && src[j] != '\n',
        t.has_chars,
        t.in_comment || (!t.in_lex && t.start == 0),
    ensures
        lex_run(src, i, k, t) == t,
    decreases k - i,
{
    if i < k {
        assert(is_space(src[i]) && src[i] != '\n');
        assert(lex_step(src, i, t) == t);
        lemma_space_run(src, i + 1, k, t);
    }
}

proof fn lemma_run_last(src: Seq<char>, i: int, k: int, s: Lex)
    requires
        i <= k,
    ensures
        lex_run(src, i, k + 1, s) == lex_step(src, k, lex_run(src, i, k, s)),
    decreases k - i,
{
    if i < k {
        lemma_run_last(src, i + 1, k, lex_step(src, i, s));
    } else {
        assert(lex_run(src, i, k, s) == s);
        assert(lex_run(src, k + 1, k + 1, lex_step(src, k, s)) == lex_step(src, k, s));
    }
}

/// Tokens whose identifiers lie in a common prefix read alike in both sources.
proof fn lemma_shapes_prefix(a: Seq<char>, b: Seq<char>, ts: Seq<Token>, n: int)
    requires
        0 <= n <= a.len(),
        n <= b.len(),
        a.subrange(0, n) == b.subrange(0, n),
        bounded(ts, n),
    ensures
        shapes(a, ts) == shapes(b, ts),
{
    assert forall|j: int| 0 <= j < ts.len() implies shapes(a, ts)[j] == shapes(b, ts)[j] by {
        if let Kind::Identifier { start, end } = ts[j].kind {
            assert(a.subrange(start as int, end as int) =~= b.subrange(start as int, end as int)) by {
                assert forall|m: int| start <= m < end implies a[m] == b[m] by {
                    assert(a[m] == a.subrange(0, n)[m]);
                    assert(b[m] == b.subrange(0, n)[m]);
                }
            }
        }
    }
    assert(shapes(a, ts) =~= shapes(b, ts));
}

/// Comment stripping: the text of a comment never reaches the tokens. Removing
/// any stretch of it, short of the newline that ends it, leaves the tokens as
/// they read unchanged.
pub proof fn lemma_comment_stripped(p: Seq<char>, c: Seq<char>, q: Seq<char>)
    requires
        !c.contains('\n'),
        p.len() + 2 + c.len() + q.len() <= usize::MAX,
    ensures
        shapes(p + "//"@ + c + q, tokens(p + "//"@ + c + q)) == shapes(
            p + "//"@ + q,
            tokens(p + "//"@ + q),
        ),
{
    reveal_strlit("//");
    let a = p + "//"@ + c + q;
    let b = p + "//"@ + q;
    let n = p.len() as int;
    let m = n + 2;
    assert(a.subrange(0, n) =~= b.subrange(0, n));
    assert(a.subrange(0, n + 1) =~= b.subrange(0, n + 1));
    assert(a[n] == '/' && a[n + 1] == '/' && b[n] == '/' && b[n + 1] == '/');
    lemma_same_prefix(a, b, 0, n, lex_init());
    lemma_same_prefix(a, b, 0, n + 1, lex_init());
    let r0 = lex_run(a, 0, n, lex_init());
    lemma_run_last(a, 0, n, lex_init());
    let s1 = lex_step(a, n, r0);
    assert(s1 == lex_run(a, 0, n + 1, lex_init()));
    assert(s1.in_comment && s1.has_chars && !s1.in_lex);
    assert(lex_step(a, n + 1, s1) == s1);
    assert(lex_step(b, n + 1, s1) == s1);
    lemma_run_last(a, 0, n + 1, lex_init());
    lemma_run_last(b, 0, n + 1, lex_init());
    lemma_run_split(a, 0, m, lex_init());
    lemma_run_split(b, 0, m, lex_init());
    assert forall|j: int| m <= j < m + c.len() implies a[j] != '\n' by {
        assert(a[j] == c[j - m]);
    }
    lemma_comment_run(a, m, m + c.len(), s1);
    lemma_run_split(a, m, m + c.len(), s1);
    assert(a.subrange(m + c.len(), a.len() as int) =~= b.subrange(m, b.len() as int));
    lemma_shapes_prefix(a, b, s1.toks, n + 1);
    lemma_shift(a, b, m + c.len(), m, s1, s1);
}

/// Whitespace runs: replacing a run of whitespace without newlines by another
/// such run leaves the tokens as they read unchanged.
pub proof fn lemma_whitespace_runs(p: Seq<char>, w1: Seq<char>, w2: Seq<char>, q: Seq<char>)
    requires
        w1.len() > 0,
        w2.len() > 0,
        forall|j: int| 0 <= j < w1.len() ==> is_space(#[trigger] w1[j]) && w1[j] != '\n',
        forall|j: int| 0 <= j < w2.len() ==> is_space(#[trigger] w2[j]) && w2[j] != '\n',
        p.len() + w1.len() + q.len() <= usize::MAX,
        p.len() + w2.len() + q.len() <= usize::MAX,
    ensures
        shapes(p + w1 + q, tokens(p + w1 + q)) == shapes(p + w2 + q, tokens(p + w2 + q)),
{
    let a = p + w1 + q;
    let b = p + w2 + q;
    let n = p.len() as int;
    let ka = n + w1.len();
    let kb = n + w2.len();
    assert(a.subrange(0, n) =~= b.subrange(0, n));
    assert(a[n] == w1[0] && b[n] == w2[0]);
    assert(is_space(w1[0]) && is_space(w2[0]));
    lemma_same_prefix(a, b, 0, n, lex_init());
    let r0 = lex_run(a, 0, n, lex_init());
    if r0.in_lex {
        assert(a.subrange(r0.start, n) =~= b.subrange(r0.start, n)) by {
            assert forall|j: int| r0.start <= j < n implies a[j] == b[j] by {
                assert(a[j] == a.subrange(0, n)[j]);
                assert(b[j] == b.subrange(0, n)[j]);
            }
        }
    }
    let t = lex_step(a, n, r0);
    assert(t == lex_step(b, n, r0));
    lemma_bounded_flush(a, r0.in_lex, r0.start, n, r0.line, r0.toks, n);
    assert(bounded(t.toks, n));
    assert forall|j: int| n <= j < ka implies is_space(#[trigger] a[j]) && a[j] != '\n' by {
        assert(a[j] == w1[j - n]);
    }
    assert forall|j: int| n <= j < kb implies is_space(#[trigger] b[j]) && b[j] != '\n' by {
        assert(b[j] == w2[j - n]);
    }
    lemma_space_run(a, n + 1, ka, t);
    lemma_space_run(b, n + 1, kb, t);
    lemma_run_split(a, 0, n, lex_init());
    lemma_run_split(b, 0, n, lex_init());
    lemma_run_split(a, n + 1, ka, t);
    lemma_run_split(b, n + 1, kb, t);
    assert(a.subrange(ka, a.len() as int) =~= b.subrange(kb, b.len() as int));
    lemma_shapes_prefix(a, b, t.toks, n);
    lemma_shift(a, b, ka, kb, t, t);
}

} // verus!
