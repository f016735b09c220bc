use vstd::prelude::*;

verus! {

/// The ways a pattern can be rejected by validation, or a match can fail
/// at run time.
#[derive(Debug, Clone, Copy, PartialEq, Eq)]
pub enum Error {
    /// A back-reference `%n` names a capture that does not exist or is
    /// still open (`Some(n)`), or `)` appears with no capture to close
    /// (`None`).
    InvalidCapture(Option<i8>),
    /// More captures than the pattern handle has slots for.
    TooManyCaptures,
    /// A `(` is never closed.
    UnfinishedCapture,
    /// A `)` with no open `(`.
    NoOpenCapture,
    /// The matcher's recursion bound was exceeded.
    TooComplex,
    /// The pattern ends with a bare `%`.
    EndsWithPercent,
    /// A class set `[...` is never closed.
    MissingEndBracket,
    /// `%b` is not followed by its two delimiter bytes.
    MissingBalanceArgs,
    /// `%f` is not followed by `[`.
    MissingLBracketF,
    /// A capture's bytes were requested while it was unfinished or
    /// positional.
    CapLen,
}

impl Error {
    /// The diagnostic text for this error, word for word as Lua reports it.
    pub fn message(&self) -> (r: String)
        ensures
            r@ == self.spec_message(),
    {
        proof {
            reveal_strlit("invalid capture index %0");
            reveal_strlit("invalid capture index %1");
            reveal_strlit("invalid capture index %2");
            reveal_strlit("invalid capture index %3");
            reveal_strlit("invalid capture index %4");
            reveal_strlit("invalid capture index %5");
            reveal_strlit("invalid capture index %6");
            reveal_strlit("invalid capture index %7");
            reveal_strlit("invalid capture index %8");
            reveal_strlit("invalid capture index %9");
            reveal_strlit("invalid pattern capture");
            reveal_strlit("too many captures");
            reveal_strlit("unfinished capture");
            reveal_strlit("no open capture");
            reveal_strlit("pattern too complex");
            reveal_strlit("malformed pattern (ends with '%')");
            reveal_strlit("malformed pattern (missing ']')");
            reveal_strlit("malformed pattern (missing arguments to '%b')");
            reveal_strlit("missing '[' after '%f' in pattern");
            reveal_strlit("capture was unfinished or positional");
        }
        let s: &str = match self {
            Error::InvalidCapture(Some(n)) => {
                if *n == 0 {
                    "invalid capture index %0"
                } else if *n == 1 {
                    "invalid capture index %1"
                } else if *n == 2 {
                    "invalid capture index %2"
                } else if *n == 3 {
                    "invalid capture index %3"
                } else if *n == 4 {
                    "invalid capture index %4"
                } else if *n == 5 {
                    "invalid capture index %5"
                } else if *n == 6 {
                    "invalid capture index %6"
                } else if *n == 7 {
                    "invalid capture index %7"
                } else if *n == 8 {
                    "invalid capture index %8"
                } else if *n == 9 {
                    "invalid capture index %9"
                } else {
                    "invalid pattern capture"
                }
            },
            Error::InvalidCapture(None) => "invalid pattern capture",
            Error::TooManyCaptures => "too many captures",
            Error::UnfinishedCapture => "unfinished capture",
            Error::NoOpenCapture => "no open capture",
            Error::TooComplex => "pattern too complex",
            Error::EndsWithPercent => "malformed pattern (ends with '%')",
            Error::MissingEndBracket => "malformed pattern (missing ']')",
            Error::MissingBalanceArgs => "malformed pattern (missing arguments to '%b')",
            Error::MissingLBracketF => "missing '[' after '%f' in pattern",
            Error::CapLen => "capture was unfinished or positional",
        };
        String::from_str(s)
    }

    /// What `message` returns, as a sequence of characters.
    pub open spec fn spec_message(&self) -> Seq<char> {
        match *self {
            Error::InvalidCapture(Some(n)) => {
                if n == 0 {
                    "invalid capture index %0"@
                } else if n == 1 {
                    "invalid capture index %1"@
                } else if n == 2 {
                    "invalid capture index %2"@
                } else if n == 3 {
                    "invalid capture index %3"@
                } else if n == 4 {
                    "invalid capture index %4"@
                } else if n == 5 {
                    "invalid capture index %5"@
                } else if n == 6 {
                    "invalid capture index %6"@
                } else if n == 7 {
                    "invalid capture index %7"@
                } else if n == 8 {
                    "invalid capture index %8"@
                } else if n == 9 {
                    "invalid capture index %9"@
                } else {
                    "invalid pattern capture"@
                }
            },
            Error::InvalidCapture(None) => "invalid pattern capture"@,
            Error::TooManyCaptures => "too many captures"@,
            Error::UnfinishedCapture => "unfinished capture"@,
            Error::NoOpenCapture => "no open capture"@,
            Error::TooComplex => "pattern too complex"@,
            Error::EndsWithPercent => "malformed pattern (ends with '%')"@,
            Error::MissingEndBracket => "malformed pattern (missing ']')"@,
            Error::MissingBalanceArgs => "malformed pattern (missing arguments to '%b')"@,
            Error::MissingLBracketF => "missing '[' after '%f' in pattern"@,
            Error::CapLen => "capture was unfinished or positional"@,
        }
    }
}

} // verus!
