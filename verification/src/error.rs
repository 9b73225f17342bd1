use vstd::prelude::*;
use vstd::string::StringExecFns;
use crate::text::{dec_digits, push_dec};

verus! {

/// Ghost form of an error, with the message text as a character sequence.
pub enum SpecError {
    UnexpectedChar(char, int),
    UnterminatedString(int),
    UnexpectedToken(Seq<char>, int),
    ExpectedToken(Seq<char>, int),
    UnexpectedEOF,
}

/// Everything that can go wrong. Lexical errors carry zero-based character
/// offsets into the input; structural errors carry token positions.
#[derive(Debug, Clone, PartialEq)]
pub enum Error {
    UnexpectedChar(char, usize),
    UnterminatedString(usize),
    UnexpectedToken(String, usize),
    ExpectedToken(String, usize),
    UnexpectedEOF,
}

impl View for Error {
    type V = SpecError;

    open spec fn view(&self) -> SpecError {
        match self {
            Error::UnexpectedChar(c, pos) => SpecError::UnexpectedChar(*c, *pos as int),
            Error::UnterminatedString(pos) => SpecError::UnterminatedString(*pos as int),
            Error::UnexpectedToken(t, pos) => SpecError::UnexpectedToken(t@, *pos as int),
            Error::ExpectedToken(t, pos) => SpecError::ExpectedToken(t@, *pos as int),
            Error::UnexpectedEOF => SpecError::UnexpectedEOF,
        }
    }
}

/// The one-line message for an error.
pub open spec fn spec_render(e: SpecError) -> Seq<char> {
    match e {
        SpecError::UnexpectedChar(c, pos) => "Unexpected character '"@ + seq![c]
            + "' at position "@ + dec_digits(pos as nat),
        SpecError::UnterminatedString(pos) => "Unterminated string starting at position "@
            + dec_digits(pos as nat),
        SpecError::UnexpectedToken(t, pos) => "Unexpected token '"@ + t + "' at position "@
            + dec_digits(pos as nat),
        SpecError::ExpectedToken(t, pos) => "Expected token '"@ + t + "' at position "@
            + dec_digits(pos as nat),
        SpecError::UnexpectedEOF => "Unexpected end of input"@,
    }
}

impl Error {
    /// Renders the error as its one-line message.
    pub fn render(&self) -> (r: String)
        ensures
            r@ == spec_render(self@),
    {
        match self {
            Error::UnexpectedChar(c, pos) => {
                let mut s = "Unexpected character '".to_owned();
                s.push(*c);
                s.append("' at position ");
                push_dec(&mut s, *pos as u64);
                proof {
                    assert(s@ =~= spec_render(self@));
                }
                s
            },
            Error::UnterminatedString(pos) => {
                let mut s = "Unterminated string starting at position ".to_owned();
                push_dec(&mut s, *pos as u64);
                proof {
                    assert(s@ =~= spec_render(self@));
                }
                s
            },
            Error::UnexpectedToken(t, pos) => {
                let mut s = "Unexpected token '".to_owned();
                s.append(t.as_str());
                s.append("' at position ");
                push_dec(&mut s, *pos as u64);
                proof {
                    assert(s@ =~= spec_render(self@));
                }
                s
            },
            Error::ExpectedToken(t, pos) => {
                let mut s = "Expected token '".to_owned();
                s.append(t.as_str());
                s.append("' at position ");
                push_dec(&mut s, *pos as u64);
                proof {
                    assert(s@ =~= spec_render(self@));
                }
                s
            },
            Error::UnexpectedEOF => "Unexpected end of input".to_owned(),
        }
    }
}

} // verus!
