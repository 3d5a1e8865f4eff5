//! The compiler entry points.
use vstd::prelude::*;
use crate::emitter::Emitter;
use crate::lexer::{Kind, Token, tokenise, tokens, tokens_wf};
use crate::semantics::{compile_result, finish, initial_state, run_from};
use crate::text::{chars_of, string_of};

verus! {

/// Compiles source characters to assembly text, or to the diagnostic of the
/// first error.
pub fn compile_chars(src: &Vec<char>) -> (r: Result<Vec<char>, Vec<char>>)
    ensures
        match compile_result(src@) {
            Ok(s) => r matches Ok(o) && o@ == s,
            Err(m) => r matches Err(e) && e@ == m,
        },
{
    let toks = tokenise(src);
    let mut em = Emitter::new();
    let mut cur: Vec<Token> = Vec::new();
    let mut i: usize = 0;
    while i < toks.len()
        invariant
            0 <= i <= toks@.len(),
            toks@ == tokens(src@),
            tokens_wf(toks@, src@.len()),
            tokens_wf(cur@, src@.len()),
            run_from(src@, toks@, 0, Seq::empty(), initial_state()) == run_from(
                src@,
                toks@,
                i as int,
                cur@,
                em@,
            ),
        decreases toks.len() - i,
    {
        let t = toks[i];
        if matches!(t.kind, Kind::NewLine) {
            if cur.len() > 0 {
                match em.line(src, &cur) {
                    Err(e) => {
                        return Err(e);
                    },
                    Ok(()) => {},
                }
            }
            cur = Vec::new();
        } else {
            proof {
                assert(tokens_wf(toks@, src@.len()));
                assert(crate::lexer::token_wf(toks@[i as int], src@.len()));
            }
            let ghost before = cur@;
            cur.push(t);
            proof {
                assert forall|j: int| 0 <= j < cur@.len() implies crate::lexer::token_wf(
                    #[trigger] cur@[j],
                    src@.len(),
                ) by {
                    if j < cur@.len() - 1 {
                        assert(cur@[j] == before[j]);
                    }
                }
            }
        }
        i = i + 1;
    }
    if cur.len() > 0 {
        match em.line(src, &cur) {
            Err(e) => {
                return Err(e);
            },
            Ok(()) => {},
        }
    }
    proof {
        assert(finish(em@) == compile_result(src@));
    }
    em.finish()
}

/// Compiles a program to Little Man Computer assembly. On failure the result
/// is the single diagnostic of the first error.
pub fn compile(src: &str) -> (r: Result<String, String>)
    ensures
        match compile_result(src@) {
            Ok(s) => r matches Ok(o) && o@ == s,
            Err(m) => r matches Err(e) && e@ == m,
        },
{
    let chars = chars_of(src);
    match compile_chars(&chars) {
        Ok(o) => Ok(string_of(&o)),
        Err(e) => Err(string_of(&e)),
    }
}

} // verus!
