use vstd::prelude::*;
use crate::text::{
    alphabetic, append_decimal, append_signed_decimal, append_str, collect, decimal, digit_of,
    digit_value, is_alphabetic, signed_decimal, str_eq, to_chars, widen,
};

verus! {

/// A position in the source text: a line and a column, both counted from 1.
#[derive(Debug, Eq, PartialEq, Structural, Clone, Copy)]
pub struct Span {
    column: usize,
    line: usize,
}

impl Span {
    /// The span at `line` and `column`.
    pub closed spec fn at(line: usize, column: usize) -> Span {
        Span { column: column, line: line }
    }

    /// A span is the line and the column that it was made of.
    pub broadcast proof fn lemma_at(line: usize, column: usize)
        ensures
            (#[trigger] Span::at(line, column)).spec_line() == line,
            Span::at(line, column).spec_column() == column,
    {
    }

    /// The place at `line` and `column`, both counted from one.
    #[verifier::when_used_as_spec(at)]
    pub fn new(line: usize, column: usize) -> (s: Span)
        ensures
            s == Span::at(line, column),
            s.spec_line() == line,
            s.spec_column() == column,
    {
        Span { column: column, line: line }
    }

    /// The line of the place.
    pub closed spec fn spec_line(&self) -> usize {
        self.line
    }

    /// The column of the place.
    pub closed spec fn spec_column(&self) -> usize {
        self.column
    }

    /// The line of the place.
    #[verifier::when_used_as_spec(spec_line)]
    pub fn line(&self) -> (l: usize)
        ensures
            l == self.spec_line(),
    {
        self.line
    }

    /// The column of the place.
    #[verifier::when_used_as_spec(spec_column)]
    pub fn column(&self) -> (c: usize)
        ensures
            c == self.spec_column(),
    {
        self.column
    }

    /// The text a span is shown as in messages.
    pub open spec fn text(&self) -> Seq<char> {
        "Line: "@ + decimal(self.line() as nat) + ", Char: "@ + decimal(self.column() as nat)
    }

    /// Renders the span as `Line: <line>, Char: <column>`.
    pub fn to_string(&self) -> (s: String)
        ensures
            s@ == self.text(),
    {
        let mut s = String::new();
        append_str(&mut s, "Line: ");
        append_decimal(&mut s, widen(self.line));
        append_str(&mut s, ", Char: ");
        append_decimal(&mut s, widen(self.column));
        s
    }
}

impl Default for Span {
    fn default() -> (s: Span)
        ensures
            s.line() == 0,
            s.column() == 0,
    {
        Span { column: 0, line: 0 }
    }
}

/// What the lexer reports in place of a token: the character at which no
/// token could be read, and where it stands.
#[derive(Debug, Clone, Copy, PartialEq, Eq, Structural)]
pub enum LexicalError {
    UnknownToken(char, Span),
}

/// The kinds of token. `LBracket` and `RBracket` are the braces that enclose a
/// block; `LSquare` and `RSquare` enclose a list.
#[derive(Debug, Eq, PartialEq, Clone)]
pub enum Token {
    Comma,
    LParen,
    RParen,
    LBracket,
    RBracket,
    LSquare,
    RSquare,
    SemiColon,
    Colon,
    Eq,
    EqEq,
    NotEq,
    LessThan,
    LessThanEq,
    GreaterThan,
    GreaterThanEq,
    Plus,
    Minus,
    Star,
    Slash,
    Arrow,
    Pipe,
    Name(String),
    Integer(i64),
    Str(String),
    Def,
    Let,
    If,
    Else,
    True,
    False,
    While,
    For,
    In,
    To,
}

/// A token as contracts see it: its text fields as sequences of characters.
pub enum TokenView {
    Comma,
    LParen,
    RParen,
    LBracket,
    RBracket,
    LSquare,
    RSquare,
    SemiColon,
    Colon,
    Eq,
    EqEq,
    NotEq,
    LessThan,
    LessThanEq,
    GreaterThan,
    GreaterThanEq,
    Plus,
    Minus,
    Star,
    Slash,
    Arrow,
    Pipe,
    Name(Seq<char>),
    Integer(i64),
    Str(Seq<char>),
    Def,
    Let,
    If,
    Else,
    True,
    False,
    While,
    For,
    In,
    To,
}

impl View for Token {
    type V = TokenView;

    open spec fn view(&self) -> TokenView {
        match self {
            Token::Comma => TokenView::Comma,
            Token::LParen => TokenView::LParen,
            Token::RParen => TokenView::RParen,
            Token::LBracket => TokenView::LBracket,
            Token::RBracket => TokenView::RBracket,
            Token::LSquare => TokenView::LSquare,
            Token::RSquare => TokenView::RSquare,
            Token::SemiColon => TokenView::SemiColon,
            Token::Colon => TokenView::Colon,
            Token::Eq => TokenView::Eq,
            Token::EqEq => TokenView::EqEq,
            Token::NotEq => TokenView::NotEq,
            Token::LessThan => TokenView::LessThan,
            Token::LessThanEq => TokenView::LessThanEq,
            Token::GreaterThan => TokenView::GreaterThan,
            Token::GreaterThanEq => TokenView::GreaterThanEq,
            Token::Plus => TokenView::Plus,
            Token::Minus => TokenView::Minus,
            Token::Star => TokenView::Star,
            Token::Slash => TokenView::Slash,
            Token::Arrow => TokenView::Arrow,
            Token::Pipe => TokenView::Pipe,
            Token::Name(s) => TokenView::Name(s@),
            Token::Integer(i) => TokenView::Integer(*i),
            Token::Str(s) => TokenView::Str(s@),
            Token::Def => TokenView::Def,
            Token::Let => TokenView::Let,
            Token::If => TokenView::If,
            Token::Else => TokenView::Else,
            Token::True => TokenView::True,
            Token::False => TokenView::False,
            Token::While => TokenView::While,
            Token::For => TokenView::For,
            Token::In => TokenView::In,
            Token::To => TokenView::To,
        }
    }
}

impl TokenView {
    /// The text a token is shown as in messages: the variant's name, with the
    /// payload in parentheses where there is one.
    pub open spec fn text(self) -> Seq<char> {
        match self {
            TokenView::Comma => "Comma"@,
            TokenView::LParen => "LParen"@,
            TokenView::RParen => "RParen"@,
            TokenView::LBracket => "LBracket"@,
            TokenView::RBracket => "RBracket"@,
            TokenView::LSquare => "LSquare"@,
            TokenView::RSquare => "RSquare"@,
            TokenView::SemiColon => "SemiColon"@,
            TokenView::Colon => "Colon"@,
            TokenView::Eq => "Eq"@,
            TokenView::EqEq => "EqEq"@,
            TokenView::NotEq => "NotEq"@,
            TokenView::LessThan => "LessThan"@,
            TokenView::LessThanEq => "LessThanEq"@,
            TokenView::GreaterThan => "GreaterThan"@,
            TokenView::GreaterThanEq => "GreaterThanEq"@,
            TokenView::Plus => "Plus"@,
            TokenView::Minus => "Minus"@,
            TokenView::Star => "Star"@,
            TokenView::Slash => "Slash"@,
            TokenView::Arrow => "Arrow"@,
            TokenView::Pipe => "Pipe"@,
            TokenView::Name(s) => "Name(\""@ + s + "\")"@,
            TokenView::Integer(i) => "Integer("@ + signed_decimal(i as int) + ")"@,
            TokenView::Str(s) => "Str(\""@ + s + "\")"@,
            TokenView::Def => "Def"@,
            TokenView::Let => "Let"@,
            TokenView::If => "If"@,
            TokenView::Else => "Else"@,
            TokenView::True => "True"@,
            TokenView::False => "False"@,
            TokenView::While => "While"@,
            TokenView::For => "For"@,
            TokenView::In => "In"@,
            TokenView::To => "To"@,
        }
    }
}

impl Token {
    /// Renders the token for a message.
    pub fn describe(&self) -> (s: String)
        ensures
            s@ == self@.text(),
    {
        let mut s = String::new();
        match self {
            Token::Comma => append_str(&mut s, "Comma"),
            Token::LParen => append_str(&mut s, "LParen"),
            Token::RParen => append_str(&mut s, "RParen"),
            Token::LBracket => append_str(&mut s, "LBracket"),
            Token::RBracket => append_str(&mut s, "RBracket"),
            Token::LSquare => append_str(&mut s, "LSquare"),
            Token::RSquare => append_str(&mut s, "RSquare"),
            Token::SemiColon => append_str(&mut s, "SemiColon"),
            Token::Colon => append_str(&mut s, "Colon"),
            Token::Eq => append_str(&mut s, "Eq"),
            Token::EqEq => append_str(&mut s, "EqEq"),
            Token::NotEq => append_str(&mut s, "NotEq"),
            Token::LessThan => append_str(&mut s, "LessThan"),
            Token::LessThanEq => append_str(&mut s, "LessThanEq"),
            Token::GreaterThan => append_str(&mut s, "GreaterThan"),
            Token::GreaterThanEq => append_str(&mut s, "GreaterThanEq"),
            Token::Plus => append_str(&mut s, "Plus"),
            Token::Minus => append_str(&mut s, "Minus"),
            Token::Star => append_str(&mut s, "Star"),
            Token::Slash => append_str(&mut s, "Slash"),
            Token::Arrow => append_str(&mut s, "Arrow"),
            Token::Pipe => append_str(&mut s, "Pipe"),
            Token::Name(n) => {
                append_str(&mut s, "Name(\"");
                append_str(&mut s, n.as_str());
                append_str(&mut s, "\")");
            },
            Token::Integer(i) => {
                append_str(&mut s, "Integer(");
                append_signed_decimal(&mut s, *i);
                append_str(&mut s, ")");
            },
            Token::Str(n) => {
                append_str(&mut s, "Str(\"");
                append_str(&mut s, n.as_str());
                append_str(&mut s, "\")");
            },
            Token::Def => append_str(&mut s, "Def"),
            Token::Let => append_str(&mut s, "Let"),
            Token::If => append_str(&mut s, "If"),
            Token::Else => append_str(&mut s, "Else"),
            Token::True => append_str(&mut s, "True"),
            Token::False => append_str(&mut s, "False"),
            Token::While => append_str(&mut s, "While"),
            Token::For => append_str(&mut s, "For"),
            Token::In => append_str(&mut s, "In"),
            Token::To => append_str(&mut s, "To"),
        }
        assert(s@ =~= self@.text());
        s
    }
}

/// A token with the spans of its start and its end, or a lexical error.
pub type Spanned<Token, Loc, Error> = Result<(Loc, Token, Loc), Error>;

/// An entry of the token stream as contracts see it.
pub type Lexeme = Result<(Span, TokenView, Span), LexicalError>;

/// What one item of the lexer's result stands for.
pub open spec fn lexeme_view(l: Spanned<Token, Span, LexicalError>) -> Lexeme {
    match l {
        Ok((start, token, end)) => Ok((start, token@, end)),
        Err(e) => Err(e),
    }
}

/// A token stream as contracts see it.
pub open spec fn lexemes_view(tokens: Seq<Spanned<Token, Span, LexicalError>>) -> Seq<Lexeme> {
    Seq::new(tokens.len(), |i: int| lexeme_view(tokens[i]))
}

/// The classes of character that the lexer reads in runs: the characters of a
/// name after its first, digits, the characters of a comment, and those of a
/// text literal.
#[derive(Clone, Copy, PartialEq, Eq, Structural)]
pub enum CharClass {
    Word,
    Digit,
    Comment,
    Text,
}

/// Whether `c` belongs to `class`.
pub open spec fn in_class(class: CharClass, c: char) -> bool {
    match class {
        CharClass::Word => c == '_' || digit_of(c) is Some || alphabetic(c),
        CharClass::Digit => digit_of(c) is Some,
        CharClass::Comment => c != '\n',
        CharClass::Text => c != '"' && c != '\n',
    }
}

/// Where the run of characters of `class` that starts at `from` ends.
pub open spec fn run_end(chars: Seq<char>, from: int, class: CharClass) -> int
    decreases chars.len() - from,
{
    if from < 0 || from >= chars.len() || !in_class(class, chars[from]) {
        from
    } else {
        run_end(chars, from + 1, class)
    }
}

/// A run ends at or after its start, and within the text.
pub proof fn lemma_run_end(chars: Seq<char>, from: int, class: CharClass)
    requires
        0 <= from <= chars.len(),
    ensures
        from <= run_end(chars, from, class) <= chars.len(),
    decreases chars.len() - from,
{
    if from < chars.len() && in_class(class, chars[from]) {
        lemma_run_end(chars, from + 1, class);
    }
}

/// The number that a run of digits writes.
pub open spec fn digits_value(digits: Seq<char>) -> nat
    decreases digits.len(),
{
    if digits.len() == 0 {
        0
    } else {
        digits_value(digits.drop_last()) * 10 + match digit_of(digits.last()) {
            Some(d) => d,
            None => 0,
        }
    }
}

/// The keyword that `word` is, or the name.
pub open spec fn keyword(word: Seq<char>) -> TokenView {
    if word == "def"@ {
        TokenView::Def
    } else if word == "let"@ {
        TokenView::Let
    } else if word == "if"@ {
        TokenView::If
    } else if word == "else"@ {
        TokenView::Else
    } else if word == "true"@ {
        TokenView::True
    } else if word == "false"@ {
        TokenView::False
    } else if word == "while"@ {
        TokenView::While
    } else if word == "for"@ {
        TokenView::For
    } else if word == "in"@ {
        TokenView::In
    } else if word == "to"@ {
        TokenView::To
    } else {
        TokenView::Name(word)
    }
}

/// `x` advanced by `n`, stopping at the greatest `usize`.
pub open spec fn bump(x: usize, n: int) -> usize {
    if x + n > usize::MAX {
        usize::MAX
    } else {
        (x + n) as usize
    }
}

/// Where the lexer stands: a place in the text, and its line and column.
pub struct Cursor {
    pub pos: int,
    pub line: usize,
    pub column: usize,
}

/// What the lexer reads at a place: an entry of the token stream, or nothing
/// for blank space and comments, and where it stands afterwards.
pub struct Scan {
    pub item: Option<Lexeme>,
    pub next: Cursor,
}

impl Cursor {
    /// The cursor `size` characters on, in the same line.
    pub open spec fn forward(self, size: int) -> Cursor {
        Cursor { pos: self.pos + size, line: self.line, column: bump(self.column, size) }
    }

    /// A token of `size` characters.
    pub open spec fn token(self, token: TokenView, size: int) -> Scan {
        Scan {
            item: Some(
                Ok(
                    (
                        Span::at(self.line, self.column),
                        token,
                        Span::at(self.line, bump(self.column, size)),
                    ),
                ),
            ),
            next: self.forward(size),
        }
    }

    /// An error at the character `c`, which passes over `size` characters.
    pub open spec fn error(self, c: char, size: int) -> Scan {
        Scan {
            item: Some(Err(LexicalError::UnknownToken(c, Span::at(self.line, self.column)))),
            next: self.forward(size),
        }
    }

    /// The scan after `size` characters that give no token.
    pub open spec fn skip(self, size: int) -> Scan {
        Scan { item: None, next: self.forward(size) }
    }

    /// The scan after a line break.
    pub open spec fn newline(self) -> Scan {
        Scan { item: None, next: Cursor { pos: self.pos + 1, line: bump(self.line, 1), column: 1 } }
    }
}

/// A token that an operator character starts: `two` when the character `second`
/// follows, else `one`, which is an error when there is no such token.
pub open spec fn operator(
    chars: Seq<char>,
    c: Cursor,
    second: char,
    two: TokenView,
    one: Option<TokenView>,
) -> Scan {
    if c.pos + 1 < chars.len() && chars[c.pos + 1] == second {
        c.token(two, 2)
    } else {
        match one {
            Some(t) => c.token(t, 1),
            None => c.error(chars[c.pos], 1),
        }
    }
}

/// What the lexer reads at `c`, a place inside the text. Punctuation,
/// operators, texts, digits, blank space and comments are told by the
/// character itself; only a character that starts none of these is asked
/// whether it is alphabetic.
pub open spec fn scan(chars: Seq<char>, c: Cursor) -> Scan {
    let ch = chars[c.pos];
    if ch == ',' {
        c.token(TokenView::Comma, 1)
    } else if ch == '(' {
        c.token(TokenView::LParen, 1)
    } else if ch == ')' {
        c.token(TokenView::RParen, 1)
    } else if ch == '{' {
        c.token(TokenView::LBracket, 1)
    } else if ch == '}' {
        c.token(TokenView::RBracket, 1)
    } else if ch == '[' {
        c.token(TokenView::LSquare, 1)
    } else if ch == ']' {
        c.token(TokenView::RSquare, 1)
    } else if ch == ';' {
        c.token(TokenView::SemiColon, 1)
    } else if ch == ':' {
        c.token(TokenView::Colon, 1)
    } else if ch == '|' {
        c.token(TokenView::Pipe, 1)
    } else if ch == '+' {
        c.token(TokenView::Plus, 1)
    } else if ch == '*' {
        c.token(TokenView::Star, 1)
    } else if ch == '/' {
        c.token(TokenView::Slash, 1)
    } else if ch == '=' {
        operator(chars, c, '=', TokenView::EqEq, Some(TokenView::Eq))
    } else if ch == '!' {
        operator(chars, c, '=', TokenView::NotEq, None)
    } else if ch == '<' {
        operator(chars, c, '=', TokenView::LessThanEq, Some(TokenView::LessThan))
    } else if ch == '>' {
        operator(chars, c, '=', TokenView::GreaterThanEq, Some(TokenView::GreaterThan))
    } else if ch == '-' {
        operator(chars, c, '>', TokenView::Arrow, Some(TokenView::Minus))
    } else if ch == '"' {
        let end = run_end(chars, c.pos + 1, CharClass::Text);
        if end < chars.len() && chars[end] == '"' {
            c.token(TokenView::Str(chars.subrange(c.pos + 1, end)), end + 1 - c.pos)
        } else {
            c.error(ch, end - c.pos)
        }
    } else if digit_of(ch) is Some {
        let end = run_end(chars, c.pos + 1, CharClass::Digit);
        if digits_value(chars.subrange(c.pos, end)) > i64::MAX {
            c.error(ch, end - c.pos)
        } else {
            c.token(
                TokenView::Integer(digits_value(chars.subrange(c.pos, end)) as i64),
                end - c.pos,
            )
        }
    } else if ch == ' ' || ch == '\t' || ch == '\r' {
        c.skip(1)
    } else if ch == '\n' {
        c.newline()
    } else if ch == '#' {
        c.skip(run_end(chars, c.pos + 1, CharClass::Comment) - c.pos)
    } else if ch == '_' || alphabetic(ch) {
        let end = run_end(chars, c.pos + 1, CharClass::Word);
        c.token(keyword(chars.subrange(c.pos, end)), end - c.pos)
    } else {
        c.error(ch, 1)
    }
}

/// The token stream of the text from `c` on.
pub open spec fn lex_from(chars: Seq<char>, c: Cursor) -> Seq<Lexeme>
    decreases chars.len() - c.pos,
{
    if c.pos < 0 || c.pos >= chars.len() {
        Seq::empty()
    } else {
        let s = scan(chars, c);
        if s.next.pos <= c.pos || s.next.pos > chars.len() {
            Seq::empty()
        } else {
            match s.item {
                Some(l) => seq![l] + lex_from(chars, s.next),
                None => lex_from(chars, s.next),
            }
        }
    }
}

/// The token stream of a text: its tokens in order, each with the spans of
/// its start and end, and an error wherever no token could be read. Lines and
/// columns count from 1.
pub open spec fn lex_model(chars: Seq<char>) -> Seq<Lexeme> {
    lex_from(chars, Cursor { pos: 0, line: 1, column: 1 })
}

/// Every read inside the text moves forward and stays within the text.
pub proof fn lemma_scan_moves(chars: Seq<char>, c: Cursor)
    requires
        0 <= c.pos < chars.len(),
    ensures
        c.pos < scan(chars, c).next.pos <= chars.len(),
{
    lemma_run_end(chars, c.pos + 1, CharClass::Text);
    lemma_run_end(chars, c.pos + 1, CharClass::Word);
    lemma_run_end(chars, c.pos + 1, CharClass::Digit);
    lemma_run_end(chars, c.pos + 1, CharClass::Comment);
}

fn class_holds(class: CharClass, c: char) -> (r: bool)
    ensures
        r == in_class(class, c),
{
    match class {
        CharClass::Word => c == '_' || digit_value(c).is_some() || is_alphabetic(c),
        CharClass::Digit => digit_value(c).is_some(),
        CharClass::Comment => c != '\n',
        CharClass::Text => c != '"' && c != '\n',
    }
}

/// Reads a run of characters of `class` and gives the place where it ends.
fn take_while(chars: &Vec<char>, from: usize, class: CharClass) -> (end: usize)
    requires
        from <= chars.len(),
    ensures
        end == run_end(chars@, from as int, class),
        from <= end <= chars.len(),
{
    let mut end: usize = from;
    while end < chars.len() && class_holds(class, chars[end])
        invariant
            from <= end <= chars.len(),
            run_end(chars@, from as int, class) == run_end(chars@, end as int, class),
        decreases chars.len() - end,
    {
        end += 1;
    }
    end
}

fn keyword_token(word: String) -> (t: Token)
    ensures
        t@ == keyword(word@),
{
    if str_eq(word.as_str(), "def") {
        Token::Def
    } else if str_eq(word.as_str(), "let") {
        Token::Let
    } else if str_eq(word.as_str(), "if") {
        Token::If
    } else if str_eq(word.as_str(), "else") {
        Token::Else
    } else if str_eq(word.as_str(), "true") {
        Token::True
    } else if str_eq(word.as_str(), "false") {
        Token::False
    } else if str_eq(word.as_str(), "while") {
        Token::While
    } else if str_eq(word.as_str(), "for") {
        Token::For
    } else if str_eq(word.as_str(), "in") {
        Token::In
    } else if str_eq(word.as_str(), "to") {
        Token::To
    } else {
        Token::Name(word)
    }
}

/// The number that the digits from `from` up to `to` write, where it fits.
fn parse_digits(chars: &Vec<char>, from: usize, to: usize) -> (r: Option<i64>)
    requires
        from <= to <= chars.len(),
    ensures
        match r {
            Some(v) => digits_value(chars@.subrange(from as int, to as int)) == v,
            None => digits_value(chars@.subrange(from as int, to as int)) > i64::MAX,
        },
{
    let mut value: i64 = 0;
    let mut fits = true;
    let mut i: usize = from;
    while i < to
        invariant
            from <= i <= to <= chars.len(),
            0 <= value,
            fits ==> digits_value(chars@.subrange(from as int, i as int)) == value,
            !fits ==> digits_value(chars@.subrange(from as int, i as int)) > i64::MAX,
        decreases to - i,
    {
        let ghost before = chars@.subrange(from as int, i as int);
        let ghost after = chars@.subrange(from as int, i + 1);
        assert(after.drop_last() =~= before);
        assert(after.last() == chars@[i as int]);
        let d: i64 = match digit_value(chars[i]) {
            Some(d) => d as i64,
            None => 0,
        };
        if fits {
            if value > (i64::MAX - d) / 10 {
                fits = false;
            } else {
                value = value * 10 + d;
            }
        }
        i += 1;
    }
    if fits {
        Some(value)
    } else {
        None
    }
}

struct Lexer {
    pos: usize,
    line: usize,
    column: usize,
}

impl View for Lexer {
    type V = Cursor;

    closed spec fn view(&self) -> Cursor {
        Cursor { pos: self.pos as int, line: self.line, column: self.column }
    }
}

impl Lexer {
    fn forward(&mut self, size: usize)
        requires
            old(self).pos + size <= usize::MAX,
        ensures
            final(self)@ == old(self)@.forward(size as int),
    {
        self.pos = self.pos + size;
        self.column = self.column.saturating_add(size);
    }

    fn token(&mut self, token: Token, size: usize) -> (
        r: Option<Spanned<Token, Span, LexicalError>>
    )
        requires
            old(self).pos + size <= usize::MAX,
        ensures
            final(self)@ == old(self)@.forward(size as int),
            r matches Some(l) && Some(lexeme_view(l)) == old(self)@.token(token@, size as int).item,
    {
        let start = Span::new(self.line, self.column);
        self.forward(size);
        Some(Ok((start, token, Span::new(self.line, self.column))))
    }

    fn error(&mut self, c: char, size: usize) -> (r: Option<Spanned<Token, Span, LexicalError>>)
        requires
            old(self).pos + size <= usize::MAX,
        ensures
            final(self)@ == old(self)@.forward(size as int),
            r matches Some(l) && Some(lexeme_view(l)) == old(self)@.error(c, size as int).item,
    {
        let start = Span::new(self.line, self.column);
        self.forward(size);
        Some(Err(LexicalError::UnknownToken(c, start)))
    }

    fn operator(
        &mut self,
        chars: &Vec<char>,
        second: char,
        two: Token,
        one: Option<Token>,
    ) -> (r: Option<Spanned<Token, Span, LexicalError>>)
        requires
            old(self).pos < chars.len(),
        ensures
            scanned(
                r,
                final(self)@,
                operator(
                    chars@,
                    old(self)@,
                    second,
                    two@,
                    match one {
                        Some(t) => Some(t@),
                        None => None,
                    },
                ),
            ),
    {
        if chars.len() - self.pos > 1 && chars[self.pos + 1] == second {
            self.token(two, 2)
        } else {
            match one {
                Some(t) => self.token(t, 1),
                None => self.error(chars[self.pos], 1),
            }
        }
    }

    /// Reads what stands at the lexer's place, and moves past it.
    fn scan(&mut self, chars: &Vec<char>) -> (r: Option<Spanned<Token, Span, LexicalError>>)
        requires
            old(self).pos < chars.len(),
        ensures
            scanned(r, final(self)@, scan(chars@, old(self)@)),
            old(self).pos < final(self).pos <= chars.len(),
    {
        proof {
            lemma_scan_moves(chars@, self@);
        }
        let ch = chars[self.pos];
        if ch == ',' {
            self.token(Token::Comma, 1)
        } else if ch == '(' {
            self.token(Token::LParen, 1)
        } else if ch == ')' {
            self.token(Token::RParen, 1)
        } else if ch == '{' {
            self.token(Token::LBracket, 1)
        } else if ch == '}' {
            self.token(Token::RBracket, 1)
        } else if ch == '[' {
            self.token(Token::LSquare, 1)
        } else if ch == ']' {
            self.token(Token::RSquare, 1)
        } else if ch == ';' {
            self.token(Token::SemiColon, 1)
        } else if ch == ':' {
            self.token(Token::Colon, 1)
        } else if ch == '|' {
            self.token(Token::Pipe, 1)
        } else if ch == '+' {
            self.token(Token::Plus, 1)
        } else if ch == '*' {
            self.token(Token::Star, 1)
        } else if ch == '/' {
            self.token(Token::Slash, 1)
        } else if ch == '=' {
            self.operator(chars, '=', Token::EqEq, Some(Token::Eq))
        } else if ch == '!' {
            self.operator(chars, '=', Token::NotEq, None)
        } else if ch == '<' {
            self.operator(chars, '=', Token::LessThanEq, Some(Token::LessThan))
        } else if ch == '>' {
            self.operator(chars, '=', Token::GreaterThanEq, Some(Token::GreaterThan))
        } else if ch == '-' {
            self.operator(chars, '>', Token::Arrow, Some(Token::Minus))
        } else if ch == '"' {
            let end = take_while(chars, self.pos + 1, CharClass::Text);
            if end < chars.len() && chars[end] == '"' {
                let text = collect(chars, self.pos + 1, end);
                self.token(Token::Str(text), end + 1 - self.pos)
            } else {
                self.error(ch, end - self.pos)
            }
        } else if digit_value(ch).is_some() {
            let end = take_while(chars, self.pos + 1, CharClass::Digit);
            match parse_digits(chars, self.pos, end) {
                Some(value) => self.token(Token::Integer(value), end - self.pos),
                None => self.error(ch, end - self.pos),
            }
        } else if ch == ' ' || ch == '\t' || ch == '\r' {
            self.forward(1);
            None
        } else if ch == '\n' {
            self.pos = self.pos + 1;
            self.line = self.line.saturating_add(1);
            self.column = 1;
            None
        } else if ch == '#' {
            let end = take_while(chars, self.pos + 1, CharClass::Comment);
            self.forward(end - self.pos);
            None
        } else if ch == '_' || is_alphabetic(ch) {
            let end = take_while(chars, self.pos + 1, CharClass::Word);
            let word = collect(chars, self.pos, end);
            self.token(keyword_token(word), end - self.pos)
        } else {
            self.error(ch, 1)
        }
    }
}

/// Whether a read came out as its model says.
spec fn scanned(r: Option<Spanned<Token, Span, LexicalError>>, after: Cursor, model: Scan) -> bool {
    &&& after == model.next
    &&& match model.item {
        Some(l) => r matches Some(x) && lexeme_view(x) == l,
        None => r is None,
    }
}

/// Splits a text into tokens.
pub fn lex(input: &str) -> (tokens: Vec<Spanned<Token, Span, LexicalError>>)
    ensures
        lexemes_view(tokens@) == lex_model(input@),
{
    let chars = to_chars(input);
    let mut tokens: Vec<Spanned<Token, Span, LexicalError>> = Vec::new();
    let mut lexer = Lexer { pos: 0, line: 1, column: 1 };
    assert(lexemes_view(tokens@) =~= Seq::<Lexeme>::empty());
    while lexer.pos < chars.len()
        invariant
            lexer.pos <= chars.len(),
            chars@ == input@,
            lex_model(input@) == lexemes_view(tokens@) + lex_from(chars@, lexer@),
        decreases chars.len() - lexer.pos,
    {
        let ghost before = lexemes_view(tokens@);
        match lexer.scan(&chars) {
            Some(l) => {
                tokens.push(l);
                assert(lexemes_view(tokens@) =~= before + seq![lexeme_view(l)]);
            },
            None => {},
        }
        assert(lex_model(input@) =~= lexemes_view(tokens@) + lex_from(chars@, lexer@));
    }
    assert(lex_model(input@) =~= lexemes_view(tokens@));
    tokens
}

} // verus!
