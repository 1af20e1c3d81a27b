use vstd::prelude::*;
use crate::lexer::{LexicalError, Span, Token};
use crate::parser::{SyntaxError, SyntaxErrorView};
use crate::text::{append_str, push_char};

verus! {

/// Which way a host's call missed a function's argument count.
#[derive(Debug, Clone, Copy, PartialEq, Eq, Structural)]
pub enum InterOpErrorType {
    TooManyArgs,
    TooFewArgs,
}

/// Every failure that lexing, parsing, compiling or running reports.
#[derive(Debug)]
pub enum GearsError {
    /// An input or output failure, with the underlying message.
    RustIOError(String),
    FunctionNotFound(String),
    InternalCompilerError(String),
    TypeError(String),
    SymbolNotFound(String),
    InterOpError { error: InterOpErrorType, message: String },
    ParseError { location: Span, message: String },
    /// A character of the source that starts no token.
    LexError { location: Span, message: String },
}

/// An error as contracts see it: its texts as sequences of characters.
pub enum ErrorView {
    RustIOError(Seq<char>),
    FunctionNotFound(Seq<char>),
    InternalCompilerError(Seq<char>),
    TypeError(Seq<char>),
    SymbolNotFound(Seq<char>),
    InterOpError { error: InterOpErrorType, message: Seq<char> },
    ParseError { location: Span, message: Seq<char> },
    LexError { location: Span, message: Seq<char> },
}

impl View for GearsError {
    type V = ErrorView;

    open spec fn view(&self) -> ErrorView {
        match self {
            GearsError::RustIOError(m) => ErrorView::RustIOError(m@),
            GearsError::FunctionNotFound(m) => ErrorView::FunctionNotFound(m@),
            GearsError::InternalCompilerError(m) => ErrorView::InternalCompilerError(m@),
            GearsError::TypeError(m) => ErrorView::TypeError(m@),
            GearsError::SymbolNotFound(m) => ErrorView::SymbolNotFound(m@),
            GearsError::InterOpError { error, message } => ErrorView::InterOpError {
                error: *error,
                message: message@,
            },
            GearsError::ParseError { location, message } => ErrorView::ParseError {
                location: *location,
                message: message@,
            },
            GearsError::LexError { location, message } => ErrorView::LexError {
                location: *location,
                message: message@,
            },
        }
    }
}

impl ErrorView {
    /// Two errors compare equal only when both are `FunctionNotFound`, both
    /// `InternalCompilerError` or both `TypeError`, with the same text.
    pub open spec fn same(self, other: ErrorView) -> bool {
        match (self, other) {
            (ErrorView::FunctionNotFound(l), ErrorView::FunctionNotFound(r)) => l == r,
            (ErrorView::InternalCompilerError(l), ErrorView::InternalCompilerError(r)) => l == r,
            (ErrorView::TypeError(l), ErrorView::TypeError(r)) => l == r,
            _ => false,
        }
    }
}

impl GearsError {
    /// The exit code of a command-line host that stops at this error: 3 for an
    /// error of input or output, else 1 when the error came while a function
    /// ran and 2 when it came while a source was compiled.
    pub fn exit_code(&self, while_running: bool) -> (code: u8)
        ensures
            code == (if self@ is RustIOError {
                3u8
            } else if while_running {
                1u8
            } else {
                2u8
            }),
    {
        match self {
            GearsError::RustIOError(_) => 3,
            _ => if while_running {
                1
            } else {
                2
            },
        }
    }
}

impl PartialEq for GearsError {
    fn eq(&self, other: &GearsError) -> (r: bool) {
        match self {
            GearsError::FunctionNotFound(l) => match other {
                GearsError::FunctionNotFound(r) => *l == *r,
                _ => false,
            },
            GearsError::InternalCompilerError(l) => match other {
                GearsError::InternalCompilerError(r) => *l == *r,
                _ => false,
            },
            GearsError::TypeError(l) => match other {
                GearsError::TypeError(r) => *l == *r,
                _ => false,
            },
            _ => false,
        }
    }
}

impl vstd::std_specs::cmp::PartialEqSpecImpl for GearsError {
    open spec fn obeys_eq_spec() -> bool {
        true
    }

    open spec fn eq_spec(&self, other: &GearsError) -> bool {
        self@.same(other@)
    }
}

/// The names of what a parser expected, each in quotes, separated by commas,
/// in square brackets.
pub open spec fn expected_text(expected: Seq<Seq<char>>) -> Seq<char> {
    "["@ + quoted(expected) + "]"@
}

/// The `items`, each in double quotes, with `, ` between them.
pub open spec fn quoted(items: Seq<Seq<char>>) -> Seq<char>
    decreases items.len(),
{
    if items.len() == 0 {
        Seq::empty()
    } else if items.len() == 1 {
        "\""@ + items[0] + "\""@
    } else {
        quoted(items.drop_last()) + ", \""@ + items.last() + "\""@
    }
}

/// The error that a host gets for a failure of the lexer.
pub open spec fn lex_failure(error: LexicalError) -> ErrorView {
    match error {
        LexicalError::UnknownToken(c, location) => ErrorView::LexError {
            location: location,
            message: "Unknown character: "@.push(c),
        },
    }
}

/// The error that a host gets for a failure of the parser. An unexpected end
/// of the stream has the location line 0, column 0.
pub open spec fn parse_failure(error: SyntaxErrorView) -> ErrorView {
    match error {
        SyntaxErrorView::InvalidToken { location } => ErrorView::ParseError {
            location: location,
            message: "Invalid token found at "@ + location.text(),
        },
        SyntaxErrorView::UnrecognizedToken { token, expected } => match token {
            Some(found) => ErrorView::ParseError {
                location: found.0,
                message: "Unexpected token ("@ + found.1.text() + ") at "@ + found.0.text()
                    + ". Expected one of: "@ + expected_text(expected),
            },
            None => ErrorView::ParseError {
                location: Span::at(0, 0),
                message: "Unexpected EOF token"@ + ". Expected one of: "@ + expected_text(
                    expected,
                ),
            },
        },
        SyntaxErrorView::ExtraToken { token } => ErrorView::ParseError {
            location: token.0,
            message: "Extra token ("@ + token.1.text() + ") at "@ + token.0.text(),
        },
        SyntaxErrorView::User { error } => lex_failure(error),
    }
}

fn append_expected(m: &mut String, expected: &Vec<String>)
    ensures
        final(m)@ == old(m)@ + expected_text(expected.deep_view()),
{
    let ghost start = m@;
    append_str(m, "[");
    let mut i: usize = 0;
    while i < expected.len()
        invariant
            i <= expected.len(),
            m@ == start + "["@ + quoted(expected.deep_view().take(i as int)),
        decreases expected.len() - i,
    {
        let ghost before = expected.deep_view().take(i as int);
        let ghost after = expected.deep_view().take(i + 1);
        assert(after.drop_last() =~= before);
        assert(after.last() == expected@[i as int]@);
        if i > 0 {
            append_str(m, ", \"");
        } else {
            append_str(m, "\"");
        }
        append_str(m, expected[i].as_str());
        append_str(m, "\"");
        assert(m@ =~= start + "["@ + quoted(after));
        i += 1;
    }
    assert(expected.deep_view().take(i as int) =~= expected.deep_view());
    append_str(m, "]");
    assert(m@ =~= start + expected_text(expected.deep_view()));
}

impl vstd::std_specs::convert::FromSpecImpl<LexicalError> for GearsError {
    open spec fn obeys_from_spec() -> bool {
        false
    }

    open spec fn from_spec(error: LexicalError) -> GearsError {
        arbitrary()
    }
}

impl From<LexicalError> for GearsError {
    fn from(error: LexicalError) -> (e: GearsError)
        ensures
            e@ == lex_failure(error),
    {
        match error {
            LexicalError::UnknownToken(c, location) => {
                let mut m = String::new();
                append_str(&mut m, "Unknown character: ");
                push_char(&mut m, c);
                GearsError::LexError { location: location, message: m }
            },
        }
    }
}

impl vstd::std_specs::convert::FromSpecImpl<SyntaxError> for GearsError {
    open spec fn obeys_from_spec() -> bool {
        false
    }

    open spec fn from_spec(error: SyntaxError) -> GearsError {
        arbitrary()
    }
}

impl From<SyntaxError> for GearsError {
    fn from(error: SyntaxError) -> (e: GearsError)
        ensures
            e@ == parse_failure(error@),
    {
        match error {
            SyntaxError::InvalidToken { location } => {
                let mut m = String::new();
                append_str(&mut m, "Invalid token found at ");
                let at = location.to_string();
                append_str(&mut m, at.as_str());
                GearsError::ParseError { location: location, message: m }
            },
            SyntaxError::UnrecognizedToken { token, expected } => {
                let mut m = String::new();
                let location = match token {
                    Some(found) => {
                        append_str(&mut m, "Unexpected token (");
                        let what = found.1.describe();
                        append_str(&mut m, what.as_str());
                        append_str(&mut m, ") at ");
                        let at = found.0.to_string();
                        append_str(&mut m, at.as_str());
                        found.0
                    },
                    None => {
                        append_str(&mut m, "Unexpected EOF token");
                        Span::new(0, 0)
                    },
                };
                append_str(&mut m, ". Expected one of: ");
                append_expected(&mut m, &expected);
                assert(m@ =~= parse_failure(error@)->ParseError_message);
                GearsError::ParseError { location: location, message: m }
            },
            SyntaxError::ExtraToken { token } => {
                let mut m = String::new();
                append_str(&mut m, "Extra token (");
                let what = token.1.describe();
                append_str(&mut m, what.as_str());
                append_str(&mut m, ") at ");
                let at = token.0.to_string();
                append_str(&mut m, at.as_str());
                assert(m@ =~= parse_failure(error@)->ParseError_message);
                GearsError::ParseError { location: token.0, message: m }
            },
            SyntaxError::User { error } => GearsError::from(error),
        }
    }
}

/// The error type of `lalrpop_util`: `lalrpop_util::ParseError`. Its values are
/// carried through; only `own_parse_error` reads one.
#[verifier::external_type_specification]
#[verifier::external_body]
#[verifier::reject_recursive_types(L)]
#[verifier::reject_recursive_types(T)]
#[verifier::reject_recursive_types(E)]
pub struct ExParseError<L, T, E>(lalrpop_util::ParseError<L, T, E>);

/// What a parse error of `lalrpop_util` holds: the variant of
/// `lalrpop_util::ParseError` that `error` is, with its fields.
pub uninterp spec fn own_error(
    error: lalrpop_util::ParseError<Span, Token, LexicalError>,
) -> SyntaxErrorView;

/// The parse error of a generated parser as this library's own. Tells the
/// variants of `lalrpop_util::ParseError` apart and moves their fields over,
/// so that the result holds what `error` held.
#[verifier::external_body]
fn own_parse_error(error: lalrpop_util::ParseError<Span, Token, LexicalError>) -> (r: SyntaxError)
    ensures
        r@ == own_error(error),
{
    match error {
        lalrpop_util::ParseError::InvalidToken { location } => SyntaxError::InvalidToken { location },
        lalrpop_util::ParseError::UnrecognizedToken { token, expected } => {
            SyntaxError::UnrecognizedToken { token, expected }
        },
        lalrpop_util::ParseError::ExtraToken { token } => SyntaxError::ExtraToken { token },
        lalrpop_util::ParseError::User { error } => SyntaxError::User { error },
    }
}

impl vstd::std_specs::convert::FromSpecImpl<lalrpop_util::ParseError<Span, Token, LexicalError>> for GearsError {
    open spec fn obeys_from_spec() -> bool {
        false
    }

    open spec fn from_spec(
        error: lalrpop_util::ParseError<Span, Token, LexicalError>,
    ) -> GearsError {
        arbitrary()
    }
}

impl From<lalrpop_util::ParseError<Span, Token, LexicalError>> for GearsError {
    /// The error that a host gets for the failure of a generated parser: what
    /// it gets for the same failure of this library's parser.
    fn from(error: lalrpop_util::ParseError<Span, Token, LexicalError>) -> (e: GearsError)
        ensures
            e@ == parse_failure(own_error(error)),
    {
        GearsError::from(own_parse_error(error))
    }
}

} // verus!
