//! Line-oriented payload tokenization.
//!
//! Device listings, tracking payloads and mapping listings all arrive as
//! text: newline-separated lines, each holding whitespace-separated tokens.
//! `lines_tokens` is the spec-level model of that grammar — a character
//! machine that closes a token on whitespace and a line on a newline — and
//! `tokenize_lines` is its verified executable counterpart.

use vstd::prelude::*;
use vstd::string::StrSliceExecFns;
use vstd::string::StringExecFns;

verus! {

/// Whether a character separates tokens within one line: ASCII whitespace
/// other than the line separator itself.
pub open spec fn is_line_ws(c: char) -> bool {
    c == ' ' || c == '\t' || c == '\r' || c == '\u{c}'
}

/// Appends the pending token to a line, unless no token is pending.
pub open spec fn close_tok(line: Seq<Seq<char>>, tok: Seq<char>) -> Seq<Seq<char>> {
    if tok.len() == 0 {
        line
    } else {
        line.push(tok)
    }
}

/// The token machine, one step per character: a newline closes the pending
/// token and the line, other whitespace closes the pending token, and any
/// remaining character extends it.
pub open spec fn lt_rec(s: Seq<char>, line: Seq<Seq<char>>, tok: Seq<char>) -> Seq<
    Seq<Seq<char>>,
>
    decreases s.len(),
{
    if s.len() == 0 {
        seq![close_tok(line, tok)]
    } else if s[0] == '\n' {
        seq![close_tok(line, tok)] + lt_rec(s.drop_first(), seq![], seq![])
    } else if is_line_ws(s[0]) {
        lt_rec(s.drop_first(), close_tok(line, tok), seq![])
    } else {
        lt_rec(s.drop_first(), line, tok.push(s[0]))
    }
}

/// The whitespace-separated tokens of each newline-separated line of a
/// payload. Every payload has at least one (possibly token-free) line.
pub open spec fn lines_tokens(s: Seq<char>) -> Seq<Seq<Seq<char>>> {
    lt_rec(s, seq![], seq![])
}

/// Splits a payload into lines and each line into its whitespace-separated
/// tokens, in the order the daemon sent them.
pub fn tokenize_lines(s: &str) -> (r: Vec<Vec<String>>)
    ensures
        r.deep_view() == lines_tokens(s@),
{
    let len = s.unicode_len();
    let mut out: Vec<Vec<String>> = Vec::new();
    let mut line: Vec<String> = Vec::new();
    let mut tok_start: usize = 0;
    let mut i: usize = 0;
    proof {
        assert(out.deep_view() =~= Seq::<Seq<Seq<char>>>::empty());
        assert(line.deep_view() =~= Seq::<Seq<char>>::empty());
        assert(s@.skip(0) =~= s@);
        assert(s@.subrange(0, 0) =~= Seq::<char>::empty());
    }
    while i < len
        invariant
            len == s@.len(),
            i <= len,
            tok_start <= i,
            lines_tokens(s@) == out.deep_view() + lt_rec(
                s@.skip(i as int),
                line.deep_view(),
                s@.subrange(tok_start as int, i as int),
            ),
        decreases len - i,
    {
        let ghost pre_line = line.deep_view();
        let ghost pre_tok = s@.subrange(tok_start as int, i as int);
        let c = s.get_char(i);
        proof {
            assert(s@.skip(i as int)[0] == s@[i as int]);
            assert(s@.skip(i as int).drop_first() =~= s@.skip(i + 1));
        }
        if c == '\n' {
            if tok_start < i {
                let t = String::from_str(s.substring_char(tok_start, i));
                line.push(t);
                proof {
                    assert(line.deep_view() =~= close_tok(pre_line, pre_tok));
                }
            } else {
                proof {
                    assert(pre_tok.len() == 0);
                }
            }
            out.push(line);
            line = Vec::new();
            tok_start = i + 1;
            proof {
                assert(out.deep_view() =~= out.deep_view().subrange(
                    0,
                    out.deep_view().len() - 1,
                ) + seq![close_tok(pre_line, pre_tok)]);
                assert(line.deep_view() =~= Seq::<Seq<char>>::empty());
                assert(s@.subrange(i + 1, i + 1) =~= Seq::<char>::empty());
                assert(lines_tokens(s@) == out.deep_view() + lt_rec(
                    s@.skip(i + 1),
                    line.deep_view(),
                    s@.subrange(i + 1, i + 1),
                ));
            }
        } else if c == ' ' || c == '\t' || c == '\r' || c == '\u{c}' {
            if tok_start < i {
                let t = String::from_str(s.substring_char(tok_start, i));
                line.push(t);
                proof {
                    assert(line.deep_view() =~= close_tok(pre_line, pre_tok));
                }
            } else {
                proof {
                    assert(pre_tok.len() == 0);
                }
            }
            tok_start = i + 1;
            proof {
                assert(s@.subrange(i + 1, i + 1) =~= Seq::<char>::empty());
            }
        } else {
            proof {
                assert(!is_line_ws(s@[i as int]) && s@[i as int] != '\n');
                assert(s@.subrange(tok_start as int, i + 1) =~= pre_tok.push(s@[i as int]));
            }
        }
        i = i + 1;
    }
    let ghost pre_line = line.deep_view();
    let ghost pre_tok = s@.subrange(tok_start as int, i as int);
    if tok_start < len {
        let t = String::from_str(s.substring_char(tok_start, len));
        line.push(t);
        proof {
            assert(line.deep_view() =~= close_tok(pre_line, pre_tok));
        }
    } else {
        proof {
            assert(pre_tok.len() == 0);
        }
    }
    out.push(line);
    proof {
        assert(s@.skip(len as int).len() == 0);
        assert(out.deep_view() =~= out.deep_view().subrange(0, out.deep_view().len() - 1)
            + seq![close_tok(pre_line, pre_tok)]);
    }
    out
}

} // verus!
