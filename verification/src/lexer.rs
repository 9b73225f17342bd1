use vstd::prelude::*;
use vstd::string::StrSliceExecFns;
use crate::error::{Error, SpecError};
use crate::token::{SpecToken, Token, tokens_wf, toks_view};

verus! {

/// Whitespace the lexer skips: space, tab, newline, carriage return.
pub open spec fn is_json_ws(c: char) -> bool {
    c == ' ' || c == '\t' || c == '\n' || c == '\r'
}

/// The position of the first `"` at or after `i`, or the input length if
/// no quote remains.
pub open spec fn close_quote(cs: Seq<char>, i: int) -> int
    decreases cs.len() - i,
{
    if i < 0 || i >= cs.len() {
        cs.len() as int
    } else if cs[i] == '"' {
        i
    } else {
        close_quote(cs, i + 1)
    }
}

/// `close_quote` lands between `i` and the end, on a quote if on anything,
/// and skips no quote on the way.
pub proof fn lemma_close_quote(cs: Seq<char>, i: int)
    requires
        0 <= i <= cs.len(),
    ensures
        i <= close_quote(cs, i) <= cs.len(),
        forall|j: int| i <= j < close_quote(cs, i) ==> cs[j] != '"',
        close_quote(cs, i) < cs.len() ==> cs[close_quote(cs, i)] == '"',
    decreases cs.len() - i,
{
    if i < cs.len() && cs[i] != '"' {
        lemma_close_quote(cs, i + 1);
    }
}

/// Where the first quote is known, `close_quote` finds exactly it.
pub proof fn lemma_close_quote_at(cs: Seq<char>, i: int, k: int)
    requires
        0 <= i <= k <= cs.len(),
        forall|j: int| i <= j < k ==> cs[j] != '"',
        k < cs.len() ==> cs[k] == '"',
    ensures
        close_quote(cs, i) == k,
    decreases k - i,
{
    if i < k {
        lemma_close_quote_at(cs, i + 1, k);
    }
}

/// Prepends a token to a scan result, keeping an error as it is.
pub open spec fn lex_cons(t: SpecToken, rest: Result<Seq<SpecToken>, SpecError>) -> Result<
    Seq<SpecToken>,
    SpecError,
> {
    match rest {
        Ok(ts) => Ok(seq![t] + ts),
        Err(e) => Err(e),
    }
}

/// The scan of the input from position `i` on: the tokens it emits, or
/// the first lexical error. Positions are zero-based character offsets.
pub open spec fn spec_lex(cs: Seq<char>, i: int) -> Result<Seq<SpecToken>, SpecError>
    decreases cs.len() - i,
{
    if i < 0 || i >= cs.len() {
        Ok(Seq::empty())
    } else {
        let c = cs[i];
        if is_json_ws(c) {
            spec_lex(cs, i + 1)
        } else if c == '{' {
            lex_cons(SpecToken::LBrace, spec_lex(cs, i + 1))
        } else if c == '}' {
            lex_cons(SpecToken::RBrace, spec_lex(cs, i + 1))
        } else if c == ':' {
            lex_cons(SpecToken::Colon, spec_lex(cs, i + 1))
        } else if c == ',' {
            lex_cons(SpecToken::Comma, spec_lex(cs, i + 1))
        } else if c == '"' {
            let j = close_quote(cs, i + 1);
            if j >= cs.len() {
                Err(SpecError::UnterminatedString(i))
            } else {
                let j2 = if j < i + 1 {
                    i + 1
                } else {
                    j
                };
                lex_cons(SpecToken::StringLit(cs.subrange(i + 1, j2)), spec_lex(cs, j2 + 1))
            }
        } else {
            Err(SpecError::UnexpectedChar(c, i))
        }
    }
}

/// The whole tokenization of an input: its scan, with the end-of-input
/// sentinel appended on success.
pub open spec fn spec_tokenize(cs: Seq<char>) -> Result<Seq<SpecToken>, SpecError> {
    match spec_lex(cs, 0) {
        Ok(ts) => Ok(ts.push(SpecToken::EndOfInput)),
        Err(e) => Err(e),
    }
}

/// Scans one input string into tokens. A fresh lexer is made per input
/// and discarded after one `tokenize`.
pub struct Lexer<'a> {
    pub input: &'a str,
}

impl<'a> Lexer<'a> {
    pub fn new(input: &'a str) -> (l: Self)
        ensures
            l.input@ == input@,
    {
        Lexer { input }
    }

    /// Scans the string body that starts right after the opening quote at
    /// `start`, up to the closing quote.
    fn parse_string(&self, start: usize) -> (r: Result<(String, usize), Error>)
        requires
            start < self.input@.len(),
        ensures
            match r {
                Ok((content, j)) => close_quote(self.input@, start + 1) == j && j
                    < self.input@.len() && content@ == self.input@.subrange(start + 1, j as int),
                Err(e) => close_quote(self.input@, start + 1) == self.input@.len() && e@
                    == SpecError::UnterminatedString(start as int),
            },
    {
        let ghost cs = self.input@;
        let len = self.input.unicode_len();
        let mut result = String::new();
        let mut j: usize = start + 1;
        loop
            invariant
                cs == self.input@,
                len == cs.len(),
                start + 1 <= j <= len,
                result@ == cs.subrange(start + 1, j as int),
                forall|t: int| start + 1 <= t < j ==> cs[t] != '"',
            decreases len - j,
        {
            if j >= len {
                proof {
                    lemma_close_quote_at(cs, start + 1, len as int);
                }
                return Err(Error::UnterminatedString(start));
            }
            let c = self.input.get_char(j);
            if c == '"' {
                proof {
                    lemma_close_quote_at(cs, start + 1, j as int);
                }
                return Ok((result, j));
            }
            result.push(c);
            j = j + 1;
            proof {
                assert(result@ =~= cs.subrange(start + 1, j as int));
            }
        }
    }

    /// Scans the whole input once, left to right, and returns its tokens
    /// with the end-of-input sentinel appended, or the first lexical error.
    pub fn tokenize(&mut self) -> (r: Result<Vec<Token>, Error>)
        ensures
            *final(self) == *old(self),
            match r {
                Ok(toks) => spec_tokenize(old(self).input@) == Ok::<_, SpecError>(
                    toks_view(toks@),
                ) && tokens_wf(toks@),
                Err(e) => spec_tokenize(old(self).input@) == Err::<Seq<SpecToken>, _>(e@),
            },
    {
        let ghost cs = self.input@;
        let len = self.input.unicode_len();
        let mut tokens: Vec<Token> = Vec::new();
        let mut i: usize = 0;
        while i < len
            invariant
                cs == self.input@,
                len == cs.len(),
                i <= len,
                forall|k: int| 0 <= k < tokens@.len() ==> !(#[trigger] tokens@[k] is EOF),
                (match spec_lex(cs, i as int) {
                    Ok(rest) => spec_lex(cs, 0) == Ok::<_, SpecError>(toks_view(tokens@) + rest),
                    Err(e) => spec_lex(cs, 0) == Err::<Seq<SpecToken>, _>(e),
                }),
            decreases len - i,
        {
            let c = self.input.get_char(i);
            let ghost pts = tokens@;
            if c == ' ' || c == '\t' || c == '\n' || c == '\r' {
                i = i + 1;
            } else if c == '{' {
                let ghost gt = Token::LBrace;
                tokens.push(Token::LBrace);
                proof {
                    lemma_lex_emit(cs, i as int, pts, gt);
                }
                i = i + 1;
            } else if c == '}' {
                let ghost gt = Token::RBrace;
                tokens.push(Token::RBrace);
                proof {
                    lemma_lex_emit(cs, i as int, pts, gt);
                }
                i = i + 1;
            } else if c == ':' {
                let ghost gt = Token::Colon;
                tokens.push(Token::Colon);
                proof {
                    lemma_lex_emit(cs, i as int, pts, gt);
                }
                i = i + 1;
            } else if c == ',' {
                let ghost gt = Token::Comma;
                tokens.push(Token::Comma);
                proof {
                    lemma_lex_emit(cs, i as int, pts, gt);
                }
                i = i + 1;
            } else if c == '"' {
                match self.parse_string(i) {
                    Ok((content, j)) => {
                        let ghost gt = Token::StringLit(content);
                        tokens.push(Token::StringLit(content));
                        proof {
                            lemma_close_quote(cs, i as int + 1);
                            lemma_lex_emit(cs, i as int, pts, gt);
                        }
                        i = j + 1;
                    },
                    Err(e) => {
                        return Err(e);
                    },
                }
            } else {
                return Err(Error::UnexpectedChar(c, i));
            }
        }
        let ghost pts = tokens@;
        tokens.push(Token::EOF);
        proof {
            lemma_toks_view_push(pts, Token::EOF);
            assert(spec_lex(cs, len as int) == Ok::<Seq<SpecToken>, SpecError>(Seq::empty()));
            assert(toks_view(pts) + Seq::<SpecToken>::empty() =~= toks_view(pts));
        }
        Ok(tokens)
    }
}

/// Pushing a token onto `ts` extends the viewed sequence by its view.
pub proof fn lemma_toks_view_push(ts: Seq<Token>, t: Token)
    ensures
        toks_view(ts.push(t)) == toks_view(ts).push(t@),
{
    assert(toks_view(ts.push(t)) =~= toks_view(ts).push(t@));
}

/// One emitting step of the scan: where the scan at `i` prepends the view
/// of `t` to the scan of the rest, pushing `t` keeps the loop's account.
proof fn lemma_lex_emit(cs: Seq<char>, i: int, pts: Seq<Token>, t: Token)
    requires
        (match spec_lex(cs, i) {
            Ok(rest) => spec_lex(cs, 0) == Ok::<_, SpecError>(toks_view(pts) + rest),
            Err(e) => spec_lex(cs, 0) == Err::<Seq<SpecToken>, _>(e),
        }),
        spec_lex(cs, i) == lex_cons(t@, spec_lex(cs, next_of(cs, i, t))),
    ensures
        (match spec_lex(cs, next_of(cs, i, t)) {
            Ok(rest) => spec_lex(cs, 0) == Ok::<_, SpecError>(toks_view(pts.push(t)) + rest),
            Err(e) => spec_lex(cs, 0) == Err::<Seq<SpecToken>, _>(e),
        }),
{
    lemma_toks_view_push(pts, t);
    match spec_lex(cs, next_of(cs, i, t)) {
        Ok(rest) => {
            assert(toks_view(pts) + (seq![t@] + rest) =~= toks_view(pts).push(t@) + rest);
        },
        Err(_) => {},
    }
}

/// The position right after the characters `t` stands for, when `t` was
/// emitted at position `i`.
pub open spec fn next_of(cs: Seq<char>, i: int, t: Token) -> int {
    match t {
        Token::StringLit(_) => close_quote(cs, i + 1) + 1,
        _ => i + 1,
    }
}

} // verus!
