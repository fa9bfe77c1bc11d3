//! Join codes: the short tokens that let a user join a group by themselves.
use vstd::prelude::*;
use vstd::utf8::encode_utf8;

verus! {

/// The length in UTF-8 bytes of a text.
pub open spec fn byte_len(s: Seq<char>) -> nat {
    encode_utf8(s).len()
}

/// Why a text is not a join code.
#[derive(Clone, Copy, Debug, PartialEq, Eq, Structural)]
pub enum JoinCodeError {
    TooShort,
    TooLong,
}

/// A join code as a user typed it.
#[derive(Debug)]
pub struct JoinCode(String);

impl View for JoinCode {
    type V = Seq<char>;

    closed spec fn view(&self) -> Seq<char> {
        self.0@
    }
}

impl JoinCode {
    /// Reads a join code typed by a user: from 4 to 16 bytes.
    pub fn parse(s: &str) -> (r: Result<JoinCode, JoinCodeError>)
        ensures
            byte_len(s@) < 4 ==> r == Err::<JoinCode, JoinCodeError>(JoinCodeError::TooShort),
            byte_len(s@) > 16 ==> r == Err::<JoinCode, JoinCodeError>(JoinCodeError::TooLong),
            4 <= byte_len(s@) <= 16 ==> (r matches Ok(c) && c@ == s@),
    {
        let n = s.as_bytes().len();
        if n < 4 {
            Err(JoinCodeError::TooShort)
        } else if n > 16 {
            Err(JoinCodeError::TooLong)
        } else {
            Ok(JoinCode(s.to_owned()))
        }
    }

    /// Takes a join code in the form the core generates: exactly 8 bytes.
    pub fn try_from(value: String) -> (r: Result<JoinCode, JoinCodeError>)
        ensures
            byte_len(value@) < 8 ==> r == Err::<JoinCode, JoinCodeError>(JoinCodeError::TooShort),
            byte_len(value@) > 8 ==> r == Err::<JoinCode, JoinCodeError>(JoinCodeError::TooLong),
            byte_len(value@) == 8 ==> (r matches Ok(c) && c@ == value@),
    {
        let n = value.as_str().as_bytes().len();
        if n < 8 {
            Err(JoinCodeError::TooShort)
        } else if n > 8 {
            Err(JoinCodeError::TooLong)
        } else {
            Ok(JoinCode(value))
        }
    }

    /// The code as an owned text.
    pub fn text(&self) -> (r: &String)
        ensures
            r@ == self@,
    {
        &self.0
    }

    /// The code as text.
    pub fn as_str(&self) -> (r: &str)
        ensures
            r@ == self@,
    {
        self.0.as_str()
    }
}

impl std::str::FromStr for JoinCode {
    type Err = JoinCodeError;

    fn from_str(s: &str) -> Result<JoinCode, JoinCodeError> {
        JoinCode::parse(s)
    }
}

impl AsRef<str> for JoinCode {
    fn as_ref(&self) -> &str {
        self.as_str()
    }
}

} // verus!
