use vstd::prelude::*;
use vstd::string::StringExecFns;
use crate::ast::{JsonValue, SpecValue, entries_insert, entries_sorted, jv_entries_view, obj_insert};
use crate::error::{Error, SpecError};
use crate::token::{SpecToken, Token, tokens_wf, toks_view};

verus! {

/// The description a structural error gives of a token: the shape the
/// parser saw, with a string literal's text between quote marks.
pub open spec fn spec_desc(t: SpecToken) -> Seq<char> {
    match t {
        SpecToken::LBrace => "LBrace"@,
        SpecToken::RBrace => "RBrace"@,
        SpecToken::Colon => "Colon"@,
        SpecToken::Comma => "Comma"@,
        SpecToken::StringLit(s) => "StringLit(\""@ + s + "\")"@,
        SpecToken::EndOfInput => "EOF"@,
    }
}

/// Renders the description of a token.
pub fn token_desc(t: &Token) -> (r: String)
    ensures
        r@ == spec_desc(t@),
{
    match t {
        Token::LBrace => "LBrace".to_owned(),
        Token::RBrace => "RBrace".to_owned(),
        Token::Colon => "Colon".to_owned(),
        Token::Comma => "Comma".to_owned(),
        Token::StringLit(s) => {
            let mut out = "StringLit(\"".to_owned();
            out.append(s.as_str());
            out.append("\")");
            proof {
                assert(out@ =~= spec_desc(t@));
            }
            out
        },
        Token::EOF => "EOF".to_owned(),
    }
}

/// One step of `expect`: the position after the matching token, or the
/// structural error.
pub open spec fn sp_expect(ts: Seq<SpecToken>, pos: int, t: SpecToken) -> Result<int, SpecError> {
    if !(0 <= pos < ts.len()) {
        Err(SpecError::UnexpectedEOF)
    } else if ts[pos] == t {
        Ok(pos + 1)
    } else if ts[pos] is EndOfInput {
        Err(SpecError::UnexpectedEOF)
    } else {
        Err(SpecError::ExpectedToken(spec_desc(t), pos))
    }
}

/// The value a token sequence denotes from position `pos` on, with the
/// position after it, by recursive descent; or the first structural
/// error. This is the whole meaning of the parser.
pub open spec fn sp_value(ts: Seq<SpecToken>, pos: int) -> Result<(SpecValue, int), SpecError>
    decreases ts.len() - pos, 1int,
{
    if !(0 <= pos < ts.len()) {
        Err(SpecError::UnexpectedEOF)
    } else {
        match ts[pos] {
            SpecToken::LBrace => sp_object(ts, pos),
            SpecToken::StringLit(s) => Ok((SpecValue::Str(s), pos + 1)),
            SpecToken::EndOfInput => Err(SpecError::UnexpectedEOF),
            _ => Err(SpecError::UnexpectedToken(spec_desc(ts[pos]), pos)),
        }
    }
}

/// An object at `pos`: the brace, then either an immediate close or its
/// members.
pub open spec fn sp_object(ts: Seq<SpecToken>, pos: int) -> Result<(SpecValue, int), SpecError>
    decreases ts.len() - pos, 0int,
{
    match sp_expect(ts, pos, SpecToken::LBrace) {
        Err(e) => Err(e),
        Ok(p1) => {
            if !(0 <= p1 < ts.len()) {
                Err(SpecError::UnexpectedEOF)
            } else if ts[p1] is RBrace {
                Ok((SpecValue::Obj(Seq::empty()), p1 + 1))
            } else {
                sp_members(ts, p1, Seq::empty())
            }
        },
    }
}

/// The members of an object from a key position on, entries gathered so
/// far in `acc`: key, colon, value, then a comma to go on or a brace to
/// close. A later entry under the same key overwrites the earlier one.
pub open spec fn sp_members(
    ts: Seq<SpecToken>,
    pos: int,
    acc: Seq<(Seq<char>, SpecValue)>,
) -> Result<(SpecValue, int), SpecError>
    decreases ts.len() - pos, 2int,
{
    if !(0 <= pos < ts.len()) {
        Err(SpecError::UnexpectedEOF)
    } else {
        match ts[pos] {
            SpecToken::StringLit(k) => {
                match sp_expect(ts, pos + 1, SpecToken::Colon) {
                    Err(e) => Err(e),
                    Ok(p2) => {
                        match sp_value(ts, p2) {
                            Err(e) => Err(e),
                            Ok((v, praw)) => {
                                let p3 = if praw < pos + 3 {
                                    pos + 3
                                } else {
                                    praw
                                };
                                let acc2 = entries_insert(acc, k, v);
                                if !(0 <= p3 < ts.len()) {
                                    Err(SpecError::UnexpectedEOF)
                                } else {
                                    match ts[p3] {
                                        SpecToken::Comma => sp_members(ts, p3 + 1, acc2),
                                        SpecToken::RBrace => Ok((SpecValue::Obj(acc2), p3 + 1)),
                                        SpecToken::EndOfInput => Err(SpecError::UnexpectedEOF),
                                        _ => Err(
                                            SpecError::UnexpectedToken(spec_desc(ts[p3]), p3),
                                        ),
                                    }
                                }
                            },
                        }
                    },
                }
            },
            // any other token here, the end-of-input sentinel included,
            // is named in the error
            _ => Err(SpecError::UnexpectedToken(spec_desc(ts[pos]), pos)),
        }
    }
}

/// Whether two tokens are the same token, string text included.
fn token_eq(a: &Token, b: &Token) -> (r: bool)
    ensures
        r == (a@ == b@),
{
    match (a, b) {
        (Token::LBrace, Token::LBrace) => true,
        (Token::RBrace, Token::RBrace) => true,
        (Token::Colon, Token::Colon) => true,
        (Token::Comma, Token::Comma) => true,
        (Token::StringLit(x), Token::StringLit(y)) => x.eq(y),
        (Token::EOF, Token::EOF) => true,
        _ => false,
    }
}

/// Walks a token sequence once, left to right, with one token of
/// lookahead and a cursor that never moves back. A fresh parser is made
/// over one token sequence and discarded after one `parse_value`.
pub struct Parser {
    pub tokens: Vec<Token>,
    pub pos: usize,
}

impl Parser {
    /// The token sequence in ghost form.
    pub open spec fn toks(&self) -> Seq<SpecToken> {
        toks_view(self.tokens@)
    }

    /// The parser's invariant: the sentinel closes the sequence and the
    /// cursor stands on a token.
    pub open spec fn wf(&self) -> bool {
        tokens_wf(self.tokens@) && self.pos < self.tokens@.len()
    }

    pub fn new(tokens: Vec<Token>) -> (p: Self)
        ensures
            p.tokens@ == tokens@,
            p.pos == 0,
    {
        Parser { tokens, pos: 0 }
    }

    /// The token under the cursor, which is not moved.
    fn peek(&self) -> (t: &Token)
        requires
            self.pos < self.tokens@.len(),
        ensures
            *t == self.tokens@[self.pos as int],
    {
        &self.tokens[self.pos]
    }

    /// Moves the cursor past the token under it.
    fn bump(&mut self)
        requires
            old(self).pos < old(self).tokens@.len(),
        ensures
            final(self).tokens@ == old(self).tokens@,
            final(self).pos == old(self).pos + 1,
    {
        proof {
            vstd::std_specs::vec::axiom_spec_len(&self.tokens);
        }
        self.pos = self.pos + 1;
    }

    /// Consumes the expected token, or reports what stood in its way.
    fn expect(&mut self, expected: Token) -> (r: Result<(), Error>)
        requires
            old(self).wf(),
            !(expected is EOF),
        ensures
            final(self).tokens@ == old(self).tokens@,
            match r {
                Ok(_) => sp_expect(old(self).toks(), old(self).pos as int, expected@)
                    == Ok::<int, SpecError>(final(self).pos as int) && final(self).wf() && final(self).pos == old(self).pos + 1,
                Err(e) => sp_expect(old(self).toks(), old(self).pos as int, expected@)
                    == Err::<int, SpecError>(e@) && *final(self) == *old(self),
            },
    {
        proof {
            assert(self.toks()[self.pos as int] == self.tokens@[self.pos as int]@);
        }
        let same = token_eq(self.peek(), &expected);
        if same {
            self.bump();
            Ok(())
        } else {
            match self.peek() {
                Token::EOF => Err(Error::UnexpectedEOF),
                _ => Err(Error::ExpectedToken(token_desc(&expected), self.pos)),
            }
        }
    }

    /// Parses one value at the cursor: an object at a brace, a string at
    /// a string literal; anything else is the error `sp_value` gives.
    pub fn parse_value(&mut self) -> (r: Result<JsonValue, Error>)
        requires
            old(self).wf(),
        ensures
            final(self).tokens@ == old(self).tokens@,
            match r {
                Ok(v) => sp_value(old(self).toks(), old(self).pos as int) == Ok::<
                    (SpecValue, int),
                    SpecError,
                >((v@, final(self).pos as int)) && final(self).wf() && final(self).pos > old(self).pos,
                Err(e) => sp_value(old(self).toks(), old(self).pos as int) == Err::<
                    (SpecValue, int),
                    SpecError,
                >(e@) && final(self).wf(),
            },
        decreases self.tokens@.len() - self.pos, 1int,
    {
        proof {
            assert(self.toks()[self.pos as int] == self.tokens@[self.pos as int]@);
        }
        let is_lbrace = match self.peek() {
            Token::LBrace => true,
            _ => false,
        };
        if is_lbrace {
            return self.parse_object();
        }
        match self.peek() {
            Token::StringLit(s) => {
                let s2 = s.clone();
                self.bump();
                Ok(JsonValue::String(s2))
            },
            Token::EOF => Err(Error::UnexpectedEOF),
            other => Err(Error::UnexpectedToken(token_desc(other), self.pos)),
        }
    }

    /// Parses one object at the cursor.
    fn parse_object(&mut self) -> (r: Result<JsonValue, Error>)
        requires
            old(self).wf(),
        ensures
            final(self).tokens@ == old(self).tokens@,
            match r {
                Ok(v) => sp_object(old(self).toks(), old(self).pos as int) == Ok::<
                    (SpecValue, int),
                    SpecError,
                >((v@, final(self).pos as int)) && final(self).wf() && final(self).pos > old(self).pos,
                Err(e) => sp_object(old(self).toks(), old(self).pos as int) == Err::<
                    (SpecValue, int),
                    SpecError,
                >(e@) && final(self).wf(),
            },
        decreases self.tokens@.len() - self.pos, 0int,
    {
        let ghost ts = self.toks();
        let ghost pos0 = self.pos as int;
        match self.expect(Token::LBrace) {
            Err(e) => {
                return Err(e);
            },
            Ok(_) => {},
        }
        proof {
            assert(self.toks()[self.pos as int] == self.tokens@[self.pos as int]@);
        }
        let is_rbrace = match self.peek() {
            Token::RBrace => true,
            _ => false,
        };
        if is_rbrace {
            self.bump();
            let out = JsonValue::Object(Vec::new());
            proof {
                assert(out@ == SpecValue::Obj(Seq::<(Seq<char>, SpecValue)>::empty()));
            }
            return Ok(out);
        }
        let mut map: Vec<(String, JsonValue)> = Vec::new();
        loop
            invariant
                self.wf(),
                self.toks() == ts,
                self.tokens@ == old(self).tokens@,
                pos0 < self.pos,
                pos0 == old(self).pos,
                entries_sorted(jv_entries_view(map@)),
                sp_members(ts, self.pos as int, jv_entries_view(map@)) == sp_object(ts, pos0),
            decreases self.tokens@.len() - self.pos,
        {
            let ghost pos_a = self.pos as int;
            let ghost acc_a = jv_entries_view(map@);
            proof {
                assert(self.toks()[self.pos as int] == self.tokens@[self.pos as int]@);
            }
            let key = match self.peek() {
                Token::StringLit(s) => s.clone(),
                other => {
                    return Err(Error::UnexpectedToken(token_desc(other), self.pos));
                },
            };
            self.bump();
            match self.expect(Token::Colon) {
                Err(e) => {
                    return Err(e);
                },
                Ok(_) => {},
            }
            let val = match self.parse_value() {
                Err(e) => {
                    return Err(e);
                },
                Ok(v) => v,
            };
            let ghost pos_b = self.pos as int;
            let ghost acc_b = entries_insert(acc_a, key@, val@);
            obj_insert(&mut map, key, val);
            proof {
                assert(self.toks()[self.pos as int] == self.tokens@[self.pos as int]@);
            }
            match self.peek() {
                Token::Comma => {
                    self.bump();
                },
                Token::RBrace => {
                    self.bump();
                    let out = JsonValue::Object(map);
                    proof {
                        assert(out@ == SpecValue::Obj(acc_b));
                    }
                    return Ok(out);
                },
                Token::EOF => {
                    return Err(Error::UnexpectedEOF);
                },
                other => {
                    return Err(Error::UnexpectedToken(token_desc(other), self.pos));
                },
            }
        }
    }
}

} // verus!
