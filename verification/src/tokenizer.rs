//! The quote-aware tokenizer: partitions one raw input line into a command
//! name and its arguments.
//!
//! Spaces outside quotes separate tokens, runs of spaces collapse, a double
//! quote groups text (single quotes literal inside) and a single quote does
//! the symmetric thing. Closing a quote flushes the token accumulated so far
//! at once, so text adjacent to a closing quote starts a fresh token. An
//! unterminated quote still emits the partial token at end of line.
use vstd::prelude::*;

use crate::text::push_char;

verus! {

/// One step of tokenization at a time: `s` is the input not yet consumed,
/// `in_d`/`in_s` the quoting modes, `cur` the token accumulated so far.
/// Returns the tokens still to be produced.
pub open spec fn tok(s: Seq<char>, in_d: bool, in_s: bool, cur: Seq<char>) -> Seq<Seq<char>>
    decreases s.len(),
{
    if s.len() == 0 {
        if cur.len() == 0 {
            Seq::<Seq<char>>::empty()
        } else {
            seq![cur]
        }
    } else {
        let c = s[0];
        let rest = s.drop_first();
        if c == '"' {
            if in_s {
                tok(rest, in_d, in_s, cur.push(c))
            } else if in_d {
                if cur.len() > 0 {
                    seq![cur] + tok(rest, false, in_s, Seq::<char>::empty())
                } else {
                    tok(rest, false, in_s, cur)
                }
            } else {
                tok(rest, true, in_s, cur)
            }
        } else if c == '\'' {
            if in_d {
                tok(rest, in_d, in_s, cur.push(c))
            } else if in_s {
                if cur.len() > 0 {
                    seq![cur] + tok(rest, in_d, false, Seq::<char>::empty())
                } else {
                    tok(rest, in_d, false, cur)
                }
            } else {
                tok(rest, in_d, true, cur)
            }
        } else if c == ' ' && !in_d && !in_s {
            if cur.len() > 0 {
                seq![cur] + tok(rest, in_d, in_s, Seq::<char>::empty())
            } else {
                tok(rest, in_d, in_s, cur)
            }
        } else {
            tok(rest, in_d, in_s, cur.push(c))
        }
    }
}

/// The token sequence of a whole input line.
pub open spec fn tokens_of(s: Seq<char>) -> Seq<Seq<char>> {
    tok(s, false, false, Seq::<char>::empty())
}

/// Holds when every token in the sequence has at least one character.
pub open spec fn all_nonempty(x: Seq<Seq<char>>) -> bool {
    forall|i: int| 0 <= i < x.len() ==> #[trigger] x[i].len() > 0
}

/// Every token a line tokenizes to is nonempty: a token is only ever flushed
/// once at least one character has been accumulated.
pub proof fn lemma_tok_nonempty(s: Seq<char>, in_d: bool, in_s: bool, cur: Seq<char>)
    ensures
        all_nonempty(tok(s, in_d, in_s, cur)),
    decreases s.len(),
{
    if s.len() == 0 {
        if cur.len() > 0 {
            assert forall|i: int| 0 <= i < seq![cur].len() implies #[trigger] seq![cur][i].len()
                > 0 by {
                assert(seq![cur][i] == cur);
            }
            assert(all_nonempty(seq![cur]));
        }
    } else {
        let c = s[0];
        let rest = s.drop_first();
        if c == '"' {
            if in_s {
                lemma_tok_nonempty(rest, in_d, in_s, cur.push(c));
            } else if in_d {
                if cur.len() > 0 {
                    lemma_tok_nonempty(rest, false, in_s, Seq::<char>::empty());
                    lemma_flush_nonempty(cur, tok(rest, false, in_s, Seq::<char>::empty()));
                } else {
                    lemma_tok_nonempty(rest, false, in_s, cur);
                }
            } else {
                lemma_tok_nonempty(rest, true, in_s, cur);
            }
        } else if c == '\'' {
            if in_d {
                lemma_tok_nonempty(rest, in_d, in_s, cur.push(c));
            } else if in_s {
                if cur.len() > 0 {
                    lemma_tok_nonempty(rest, in_d, false, Seq::<char>::empty());
                    lemma_flush_nonempty(cur, tok(rest, in_d, false, Seq::<char>::empty()));
                } else {
                    lemma_tok_nonempty(rest, in_d, false, cur);
                }
            } else {
                lemma_tok_nonempty(rest, in_d, true, cur);
            }
        } else if c == ' ' && !in_d && !in_s {
            if cur.len() > 0 {
                lemma_tok_nonempty(rest, in_d, in_s, Seq::<char>::empty());
                lemma_flush_nonempty(cur, tok(rest, in_d, in_s, Seq::<char>::empty()));
            } else {
                lemma_tok_nonempty(rest, in_d, in_s, cur);
            }
        } else {
            lemma_tok_nonempty(rest, in_d, in_s, cur.push(c));
        }
    }
}

/// Prepending a nonempty token to a run of nonempty tokens keeps them all nonempty.
proof fn lemma_flush_nonempty(cur: Seq<char>, x: Seq<Seq<char>>)
    requires
        cur.len() > 0,
        all_nonempty(x),
    ensures
        all_nonempty(seq![cur] + x),
{
    assert forall|i: int| 0 <= i < (seq![cur] + x).len() implies #[trigger] (seq![cur] + x)[i].len()
        > 0 by {
        if i == 0 {
            assert((seq![cur] + x)[i] == cur);
        } else {
            assert((seq![cur] + x)[i] == x[i - 1]);
        }
    }
}

/// No token of a line is empty; an empty line yields no tokens at all.
pub proof fn lemma_tokens_nonempty(s: Seq<char>)
    ensures
        all_nonempty(tokens_of(s)),
        s.len() == 0 ==> tokens_of(s).len() == 0,
{
    lemma_tok_nonempty(s, false, false, Seq::<char>::empty());
}

/// Splits an input line into tokens, exactly as `tokens_of` describes.
pub fn tokenize(input: &str) -> (r: Vec<String>)
    ensures
        r.deep_view() == tokens_of(input@),
{
    let len = input.unicode_len();
    let mut parts: Vec<String> = Vec::new();
    let mut current = String::new();
    let mut in_d = false;
    let mut in_s = false;
    let mut i: usize = 0;
    proof {
        assert(input@.skip(0) =~= input@);
        assert(parts.deep_view() =~= Seq::<Seq<char>>::empty());
    }
    while i < len
        invariant
            i <= len,
            len == input@.len(),
            tokens_of(input@) == parts.deep_view() + tok(
                input@.skip(i as int),
                in_d,
                in_s,
                current@,
            ),
        decreases len - i,
    {
        let ghost pre = input@.skip(i as int);
        let ghost old_parts = parts.deep_view();
        let ghost old_cur = current@;
        proof {
            assert(pre[0] == input@[i as int]);
            assert(pre.drop_first() =~= input@.skip(i + 1));
        }
        let c = input.get_char(i);
        if c == '"' {
            if !in_s {
                in_d = !in_d;
                if !in_d && !current.as_str().is_empty() {
                    parts.push(current);
                    current = String::new();
                    proof {
                        assert(parts.deep_view() =~= old_parts.push(old_cur));
                        assert(old_parts + (seq![old_cur] + tok(
                            pre.drop_first(),
                            false,
                            in_s,
                            Seq::<char>::empty(),
                        )) =~= old_parts.push(old_cur) + tok(
                            pre.drop_first(),
                            false,
                            in_s,
                            Seq::<char>::empty(),
                        ));
                    }
                }
            } else {
                push_char(&mut current, c);
            }
        } else if c == '\'' {
            if !in_d {
                in_s = !in_s;
                if !in_s && !current.as_str().is_empty() {
                    parts.push(current);
                    current = String::new();
                    proof {
                        assert(parts.deep_view() =~= old_parts.push(old_cur));
                        assert(old_parts + (seq![old_cur] + tok(
                            pre.drop_first(),
                            in_d,
                            false,
                            Seq::<char>::empty(),
                        )) =~= old_parts.push(old_cur) + tok(
                            pre.drop_first(),
                            in_d,
                            false,
                            Seq::<char>::empty(),
                        ));
                    }
                }
            } else {
                push_char(&mut current, c);
            }
        } else if c == ' ' && !in_d && !in_s {
            if !current.as_str().is_empty() {
                parts.push(current);
                current = String::new();
                proof {
                    assert(parts.deep_view() =~= old_parts.push(old_cur));
                    assert(old_parts + (seq![old_cur] + tok(
                        pre.drop_first(),
                        in_d,
                        in_s,
                        Seq::<char>::empty(),
                    )) =~= old_parts.push(old_cur) + tok(
                        pre.drop_first(),
                        in_d,
                        in_s,
                        Seq::<char>::empty(),
                    ));
                }
            }
        } else {
            push_char(&mut current, c);
        }
        i += 1;
    }
    proof {
        assert(input@.skip(len as int).len() == 0);
    }
    if !current.as_str().is_empty() {
        let ghost old_parts = parts.deep_view();
        let ghost old_cur = current@;
        parts.push(current);
        proof {
            assert(parts.deep_view() =~= old_parts.push(old_cur));
            assert(old_parts + seq![old_cur] =~= old_parts.push(old_cur));
        }
    } else {
        proof {
            assert(parts.deep_view() + Seq::<Seq<char>>::empty() =~= parts.deep_view());
        }
    }
    parts
}

/// Splits an input line into the command name and its arguments, in order.
/// An input with no tokens yields an empty command name and no arguments.
pub fn get_parts(input: String) -> (r: (String, Vec<String>))
    ensures
        tokens_of(input@).len() == 0 ==> r.0@.len() == 0 && r.1@.len() == 0,
        tokens_of(input@).len() > 0 ==> r.0@ == tokens_of(input@)[0] && r.1.deep_view()
            == tokens_of(input@).drop_first(),
{
    let mut toks = tokenize(input.as_str());
    if toks.len() == 0 {
        (String::new(), Vec::<String>::new())
    } else {
        let ghost old_deep = toks.deep_view();
        let command = toks.remove(0);
        proof {
            assert(toks.deep_view() =~= old_deep.drop_first());
        }
        (command, toks)
    }
}

} // verus!
