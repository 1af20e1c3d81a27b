use vstd::prelude::*;
use crate::ast::{
    args_view, block_view, exprs_view, program_view, stmts_view, ArgAst, BinOpAst, BlockView,
    DefinitionView, ExprAst, ExprView, ModStmtAst, RangeAst, Stmts, StmtAst, StmtView,
};
use crate::lexer::{
    lexeme_view, lexemes_view, Lexeme, LexicalError, Span, Spanned, Token, TokenView,
};
use crate::text::str_eq;
use vstd::pervasive::unreached;

verus! {

/// Why a token stream is no program.
#[allow(inconsistent_fields)]
#[derive(Debug, PartialEq)]
pub enum SyntaxError {
    /// There is no token at the location.
    InvalidToken { location: Span },
    /// The token, or the end of the stream where there is none, cannot stand
    /// where it does; `expected` names what can.
    UnrecognizedToken { token: Option<(Span, Token, Span)>, expected: Vec<String> },
    /// A token follows the end of the program.
    ExtraToken { token: (Span, Token, Span) },
    /// The lexer reported an error.
    User { error: LexicalError },
}

/// A parse error as contracts see it.
#[allow(inconsistent_fields)]
pub enum SyntaxErrorView {
    InvalidToken { location: Span },
    UnrecognizedToken { token: Option<(Span, TokenView, Span)>, expected: Seq<Seq<char>> },
    ExtraToken { token: (Span, TokenView, Span) },
    User { error: LexicalError },
}

/// What a token between its two places stands for.
pub open spec fn spanned_view(t: (Span, Token, Span)) -> (Span, TokenView, Span) {
    (t.0, t.1@, t.2)
}

impl View for SyntaxError {
    type V = SyntaxErrorView;

    open spec fn view(&self) -> SyntaxErrorView {
        match self {
            SyntaxError::InvalidToken { location } => SyntaxErrorView::InvalidToken {
                location: *location,
            },
            SyntaxError::UnrecognizedToken { token, expected } => SyntaxErrorView::UnrecognizedToken {
                token: match token {
                    Some(t) => Some(spanned_view(*t)),
                    None => None,
                },
                expected: expected.deep_view(),
            },
            SyntaxError::ExtraToken { token } => SyntaxErrorView::ExtraToken {
                token: spanned_view(*token),
            },
            SyntaxError::User { error } => SyntaxErrorView::User { error: *error },
        }
    }
}

/// Where a parse stopped: the place of the token that cannot stand there, and
/// the names of what can.
pub struct FailureView {
    pub pos: int,
    pub expected: Seq<Seq<char>>,
}

/// What parsing a piece of the grammar at a place gives: the piece and the
/// place after it, or the failure.
pub type Parse<T> = Result<(T, int), FailureView>;

/// The kind of the token at `pos`, if there is one.
pub open spec fn kind_at(toks: Seq<TokenView>, pos: int) -> Option<TokenView> {
    if 0 <= pos < toks.len() {
        Some(toks[pos])
    } else {
        None
    }
}

/// The failure at `pos`, where one of `expected` could have stood.
pub open spec fn fail<T>(pos: int, expected: Seq<Seq<char>>) -> Parse<T> {
    Err(FailureView { pos: pos, expected: expected })
}

/// The result `r` of a parse that began at `pos`, provided that it ended
/// after `pos` and within the `len` tokens.
pub open spec fn moved<T>(r: Parse<T>, pos: int, len: nat) -> Parse<T> {
    match r {
        Ok((t, p)) => if pos < p <= len {
            Ok((t, p))
        } else {
            fail(pos, Seq::empty())
        },
        Err(e) => Err(e),
    }
}

/// The place after the token at `pos`, which must be of kind `t`.
pub open spec fn expect(toks: Seq<TokenView>, pos: int, t: TokenView) -> Result<int, FailureView> {
    if kind_at(toks, pos) == Some(t) {
        Ok(pos + 1)
    } else {
        Err(FailureView { pos: pos, expected: seq![t.text()] })
    }
}

/// The name at `pos`.
pub open spec fn name_model(toks: Seq<TokenView>, pos: int) -> Parse<Seq<char>> {
    match kind_at(toks, pos) {
        Some(TokenView::Name(n)) => Ok((n, pos + 1)),
        _ => fail(pos, seq!["Name"@]),
    }
}

/// The integer at `pos`.
pub open spec fn integer_model(toks: Seq<TokenView>, pos: int) -> Parse<i64> {
    match kind_at(toks, pos) {
        Some(TokenView::Integer(n)) => Ok((n, pos + 1)),
        _ => fail(pos, seq!["Integer"@]),
    }
}

/// A type: a name, or a type set in square brackets, which is the type `list`.
pub open spec fn type_model(toks: Seq<TokenView>, pos: int) -> Parse<Seq<char>>
    decreases toks.len() - pos, 0nat,
{
    match kind_at(toks, pos) {
        Some(TokenView::Name(n)) => Ok((n, pos + 1)),
        Some(TokenView::LSquare) => match moved(
            typeset_model(toks, pos + 1),
            pos + 1,
            toks.len(),
        ) {
            Err(e) => Err(e),
            Ok((_, p)) => match expect(toks, p, TokenView::RSquare) {
                Err(e) => Err(e),
                Ok(q) => Ok(("list"@, q)),
            },
        },
        _ => fail(pos, seq!["type"@]),
    }
}

/// A type set: types separated by `|`.
pub open spec fn typeset_model(toks: Seq<TokenView>, pos: int) -> Parse<Seq<Seq<char>>>
    decreases toks.len() - pos, 1nat,
{
    match moved(type_model(toks, pos), pos, toks.len()) {
        Err(e) => Err(e),
        Ok((t, p)) => typeset_rest(toks, p, seq![t]),
    }
}

/// The rest of a type set, after the types `acc`.
pub open spec fn typeset_rest(toks: Seq<TokenView>, pos: int, acc: Seq<Seq<char>>) -> Parse<
    Seq<Seq<char>>,
>
    decreases toks.len() - pos, 2nat,
{
    if kind_at(toks, pos) == Some(TokenView::Pipe) {
        match moved(type_model(toks, pos + 1), pos + 1, toks.len()) {
            Err(e) => Err(e),
            Ok((t, p)) => typeset_rest(toks, p, acc.push(t)),
        }
    } else {
        Ok((acc, pos))
    }
}

/// The operator of a product that a token stands for.
pub open spec fn product_op(t: Option<TokenView>) -> Option<BinOpAst> {
    match t {
        Some(TokenView::Star) => Some(BinOpAst::Mul),
        Some(TokenView::Slash) => Some(BinOpAst::Div),
        _ => None,
    }
}

/// The operator of a sum that a token stands for.
pub open spec fn sum_op(t: Option<TokenView>) -> Option<BinOpAst> {
    match t {
        Some(TokenView::Plus) => Some(BinOpAst::Add),
        Some(TokenView::Minus) => Some(BinOpAst::Sub),
        _ => None,
    }
}

/// The comparison that a token stands for.
pub open spec fn comparison_op(t: Option<TokenView>) -> Option<BinOpAst> {
    match t {
        Some(TokenView::EqEq) => Some(BinOpAst::EqEq),
        Some(TokenView::NotEq) => Some(BinOpAst::NotEq),
        Some(TokenView::LessThan) => Some(BinOpAst::LessThan),
        Some(TokenView::LessThanEq) => Some(BinOpAst::LessThanEq),
        Some(TokenView::GreaterThan) => Some(BinOpAst::GreaterThan),
        Some(TokenView::GreaterThanEq) => Some(BinOpAst::GreaterThanEq),
        _ => None,
    }
}

/// The operation `left operator right`.
pub open spec fn op(left: ExprView, operator: BinOpAst, right: ExprView) -> ExprView {
    ExprView::Op(Box::new(left), operator, Box::new(right))
}

/// An operand: a literal, a variable, a call, a list, an expression in
/// parentheses, or an `if`, `while` or `for` expression.
pub open spec fn atom_model(toks: Seq<TokenView>, pos: int) -> Parse<ExprView>
    decreases toks.len() - pos, 1nat,
{
    match kind_at(toks, pos) {
        Some(TokenView::Integer(n)) => Ok((ExprView::Integer(n), pos + 1)),
        Some(TokenView::True) => Ok((ExprView::Bool(true), pos + 1)),
        Some(TokenView::False) => Ok((ExprView::Bool(false), pos + 1)),
        Some(TokenView::Str(text)) => Ok((ExprView::Str(text), pos + 1)),
        Some(TokenView::Name(name)) => if kind_at(toks, pos + 1) == Some(TokenView::LParen) {
            match list_model(toks, pos + 2, TokenView::RParen) {
                Err(e) => Err(e),
                Ok((args, p)) => Ok((ExprView::FunctionCall { name: name, args: args }, p)),
            }
        } else {
            Ok((ExprView::Variable(name), pos + 1))
        },
        Some(TokenView::LSquare) => match list_model(toks, pos + 1, TokenView::RSquare) {
            Err(e) => Err(e),
            Ok((items, p)) => Ok((ExprView::List(items), p)),
        },
        Some(TokenView::LParen) => match moved(expr_model(toks, pos + 1), pos + 1, toks.len()) {
            Err(e) => Err(e),
            Ok((e, p)) => match expect(toks, p, TokenView::RParen) {
                Err(e) => Err(e),
                Ok(q) => Ok((e, q)),
            },
        },
        Some(TokenView::If) => match moved(expr_model(toks, pos + 1), pos + 1, toks.len()) {
            Err(e) => Err(e),
            Ok((c, p)) => match moved(block_model(toks, p), p, toks.len()) {
                Err(e) => Err(e),
                Ok((then_block, q)) => if kind_at(toks, q) == Some(TokenView::Else) {
                    match block_model(toks, q + 1) {
                        Err(e) => Err(e),
                        Ok((else_block, r)) => Ok(
                            (
                                ExprView::If {
                                    cond_expr: Box::new(c),
                                    exprs: then_block,
                                    else_exprs: Some(else_block),
                                },
                                r,
                            ),
                        ),
                    }
                } else {
                    Ok(
                        (
                            ExprView::If {
                                cond_expr: Box::new(c),
                                exprs: then_block,
                                else_exprs: None,
                            },
                            q,
                        ),
                    )
                },
            },
        },
        Some(TokenView::While) => match moved(expr_model(toks, pos + 1), pos + 1, toks.len()) {
            Err(e) => Err(e),
            Ok((c, p)) => match block_model(toks, p) {
                Err(e) => Err(e),
                Ok((body, q)) => Ok((ExprView::While { cond_expr: Box::new(c), exprs: body }, q)),
            },
        },
        Some(TokenView::For) => match for_head(toks, pos + 1) {
            Err(e) => Err(e),
            Ok(((name, start, end), p)) => match block_model(toks, p) {
                Err(e) => Err(e),
                Ok((body, q)) => Ok(
                    (ExprView::For { name: name, start: start, end: end, exprs: body }, q),
                ),
            },
        },
        _ => fail(pos, seq!["expression"@]),
    }
}

/// The head of a `for` loop after its keyword: the variable and the bounds.
pub open spec fn for_head(toks: Seq<TokenView>, pos: int) -> Parse<(Seq<char>, i64, i64)> {
    match name_model(toks, pos) {
        Err(e) => Err(e),
        Ok((name, pos1)) => match expect(toks, pos1, TokenView::In) {
            Err(e) => Err(e),
            Ok(pos2) => match integer_model(toks, pos2) {
                Err(e) => Err(e),
                Ok((start, pos3)) => match expect(toks, pos3, TokenView::To) {
                    Err(e) => Err(e),
                    Ok(pos4) => match integer_model(toks, pos4) {
                        Err(e) => Err(e),
                        Ok((end, pos5)) => Ok(((name, start, end), pos5)),
                    },
                },
            },
        },
    }
}

/// A product: operands joined by `*` and `/`, grouped from the left.
pub open spec fn product_model(toks: Seq<TokenView>, pos: int) -> Parse<ExprView>
    decreases toks.len() - pos, 2nat,
{
    match moved(atom_model(toks, pos), pos, toks.len()) {
        Err(e) => Err(e),
        Ok((left, p)) => product_rest(toks, p, left),
    }
}

/// The rest of a product after its first factor `left`: each `*` or `/` with
/// its factor, joined to the left.
pub open spec fn product_rest(toks: Seq<TokenView>, pos: int, left: ExprView) -> Parse<ExprView>
    decreases toks.len() - pos, 0nat,
{
    match product_op(kind_at(toks, pos)) {
        Some(operator) => match moved(atom_model(toks, pos + 1), pos + 1, toks.len()) {
            Err(e) => Err(e),
            Ok((right, p)) => product_rest(toks, p, op(left, operator, right)),
        },
        None => Ok((left, pos)),
    }
}

/// A sum: products joined by `+` and `-`, grouped from the left.
pub open spec fn sum_model(toks: Seq<TokenView>, pos: int) -> Parse<ExprView>
    decreases toks.len() - pos, 3nat,
{
    match moved(product_model(toks, pos), pos, toks.len()) {
        Err(e) => Err(e),
        Ok((left, p)) => sum_rest(toks, p, left),
    }
}

/// The rest of a sum after its first term `left`: each `+` or `-` with its
/// term, joined to the left.
pub open spec fn sum_rest(toks: Seq<TokenView>, pos: int, left: ExprView) -> Parse<ExprView>
    decreases toks.len() - pos, 0nat,
{
    match sum_op(kind_at(toks, pos)) {
        Some(operator) => match moved(product_model(toks, pos + 1), pos + 1, toks.len()) {
            Err(e) => Err(e),
            Ok((right, p)) => sum_rest(toks, p, op(left, operator, right)),
        },
        None => Ok((left, pos)),
    }
}

/// An expression: sums joined by comparisons, grouped from the left.
pub open spec fn expr_model(toks: Seq<TokenView>, pos: int) -> Parse<ExprView>
    decreases toks.len() - pos, 4nat,
{
    match moved(sum_model(toks, pos), pos, toks.len()) {
        Err(e) => Err(e),
        Ok((left, p)) => expr_rest(toks, p, left),
    }
}

/// The rest of a comparison after its first side `left`: each comparison
/// operator with its sum, joined to the left.
pub open spec fn expr_rest(toks: Seq<TokenView>, pos: int, left: ExprView) -> Parse<ExprView>
    decreases toks.len() - pos, 0nat,
{
    match comparison_op(kind_at(toks, pos)) {
        Some(operator) => match moved(sum_model(toks, pos + 1), pos + 1, toks.len()) {
            Err(e) => Err(e),
            Ok((right, p)) => expr_rest(toks, p, op(left, operator, right)),
        },
        None => Ok((left, pos)),
    }
}

/// Expressions separated by commas, up to and including the token `close`.
pub open spec fn list_model(toks: Seq<TokenView>, pos: int, close: TokenView) -> Parse<
    Seq<ExprView>,
>
    decreases toks.len() - pos, 6nat,
{
    if kind_at(toks, pos) == Some(close) {
        Ok((Seq::empty(), pos + 1))
    } else {
        list_rest(toks, pos, close, Seq::empty())
    }
}

/// The rest of a list after the expressions `acc` and a comma.
pub open spec fn list_rest(
    toks: Seq<TokenView>,
    pos: int,
    close: TokenView,
    acc: Seq<ExprView>,
) -> Parse<Seq<ExprView>>
    decreases toks.len() - pos, 5nat,
{
    match moved(expr_model(toks, pos), pos, toks.len()) {
        Err(e) => Err(e),
        Ok((e, p)) => if kind_at(toks, p) == Some(TokenView::Comma) {
            list_rest(toks, p + 1, close, acc.push(e))
        } else if kind_at(toks, p) == Some(close) {
            Ok((acc.push(e), p + 1))
        } else {
            fail(p, seq![TokenView::Comma.text(), close.text()])
        },
    }
}

/// A statement: a binding with `let`, an assignment, or an expression.
pub open spec fn stmt_model(toks: Seq<TokenView>, pos: int) -> Parse<StmtView>
    decreases toks.len() - pos, 7nat,
{
    if kind_at(toks, pos) == Some(TokenView::Let) {
        match let_head(toks, pos + 1) {
            Err(e) => Err(e),
            Ok(((name, types), p)) => match expr_model(toks, p) {
                Err(e) => Err(e),
                Ok((e, q)) => Ok(
                    (
                        StmtView::Assignment { new: true, name: name, expr: e, types: Some(types) },
                        q,
                    ),
                ),
            },
        }
    } else if kind_at(toks, pos) matches Some(TokenView::Name(name)) && kind_at(toks, pos + 1)
        == Some(TokenView::Eq) {
        match expr_model(toks, pos + 2) {
            Err(e) => Err(e),
            Ok((e, q)) => Ok(
                (
                    StmtView::Assignment {
                        new: false,
                        name: kind_at(toks, pos)->0->Name_0,
                        expr: e,
                        types: None,
                    },
                    q,
                ),
            ),
        }
    } else {
        match expr_model(toks, pos) {
            Err(e) => Err(e),
            Ok((e, q)) => Ok((StmtView::Expr(e), q)),
        }
    }
}

/// The head of a binding after `let`: the name, the declared types, and `=`.
/// It ends after `pos`.
pub open spec fn let_head(toks: Seq<TokenView>, pos: int) -> Parse<(Seq<char>, Seq<Seq<char>>)> {
    match name_model(toks, pos) {
        Err(e) => Err(e),
        Ok((name, pos1)) => match expect(toks, pos1, TokenView::Colon) {
            Err(e) => Err(e),
            Ok(pos2) => match moved(typeset_model(toks, pos2), pos2, toks.len()) {
                Err(e) => Err(e),
                Ok((types, pos3)) => match expect(toks, pos3, TokenView::Eq) {
                    Err(e) => Err(e),
                    Ok(pos4) => Ok(((name, types), pos4)),
                },
            },
        },
    }
}

/// The statements of a block after those in `acc`, up to and including the
/// closing brace. A statement that a semicolon follows joins the list; one
/// that the brace follows is the final statement.
pub open spec fn body_model(toks: Seq<TokenView>, pos: int, acc: Seq<StmtView>) -> Parse<BlockView>
    decreases toks.len() - pos, 8nat,
{
    if kind_at(toks, pos) == Some(TokenView::RBracket) {
        Ok((BlockView { stmts: acc, tail: None }, pos + 1))
    } else {
        match moved(stmt_model(toks, pos), pos, toks.len()) {
            Err(e) => Err(e),
            Ok((st, p)) => if kind_at(toks, p) == Some(TokenView::SemiColon) {
                body_model(toks, p + 1, acc.push(st))
            } else if kind_at(toks, p) == Some(TokenView::RBracket) {
                Ok((BlockView { stmts: acc, tail: Some(Box::new(st)) }, p + 1))
            } else {
                fail(p, seq![TokenView::SemiColon.text(), TokenView::RBracket.text()])
            },
        }
    }
}

/// A block: statements in braces.
pub open spec fn block_model(toks: Seq<TokenView>, pos: int) -> Parse<BlockView>
    decreases toks.len() - pos, 9nat,
{
    match expect(toks, pos, TokenView::LBracket) {
        Err(e) => Err(e),
        Ok(p) => body_model(toks, p, Seq::empty()),
    }
}

/// The declared arguments of a function after those in `acc`, up to and
/// including the closing parenthesis.
pub open spec fn params_model(
    toks: Seq<TokenView>,
    pos: int,
    acc: Seq<(Seq<char>, Seq<Seq<char>>)>,
) -> Parse<Seq<(Seq<char>, Seq<Seq<char>>)>>
    decreases toks.len() - pos,
{
    match name_model(toks, pos) {
        Err(e) => Err(e),
        Ok((name, pos1)) => match expect(toks, pos1, TokenView::Colon) {
            Err(e) => Err(e),
            Ok(pos2) => match moved(typeset_model(toks, pos2), pos2, toks.len()) {
                Err(e) => Err(e),
                Ok((types, pos3)) => if kind_at(toks, pos3) == Some(TokenView::Comma) {
                    params_model(toks, pos3 + 1, acc.push((name, types)))
                } else if kind_at(toks, pos3) == Some(TokenView::RParen) {
                    Ok((acc.push((name, types)), pos3 + 1))
                } else {
                    fail(pos3, seq![TokenView::Comma.text(), TokenView::RParen.text()])
                },
            },
        },
    }
}

/// The head of a definition: `def`, the name, and the arguments in
/// parentheses.
pub open spec fn signature_model(toks: Seq<TokenView>, pos: int) -> Parse<
    (Seq<char>, Seq<(Seq<char>, Seq<Seq<char>>)>),
> {
    match expect(toks, pos, TokenView::Def) {
        Err(e) => Err(e),
        Ok(pos1) => match name_model(toks, pos1) {
            Err(e) => Err(e),
            Ok((name, pos2)) => match expect(toks, pos2, TokenView::LParen) {
                Err(e) => Err(e),
                Ok(pos3) => if kind_at(toks, pos3) == Some(TokenView::RParen) {
                    Ok(((name, Seq::empty()), pos3 + 1))
                } else {
                    match params_model(toks, pos3, Seq::empty()) {
                        Err(e) => Err(e),
                        Ok((args, pos4)) => Ok(((name, args), pos4)),
                    }
                },
            },
        },
    }
}

/// The declared return types of a definition: those after `->`, or `none`
/// where there is no arrow.
pub open spec fn return_model(toks: Seq<TokenView>, pos: int) -> Parse<Seq<Seq<char>>> {
    if kind_at(toks, pos) == Some(TokenView::Arrow) {
        typeset_model(toks, pos + 1)
    } else {
        Ok((seq!["none"@], pos))
    }
}

/// A function definition.
pub open spec fn definition_model(toks: Seq<TokenView>, pos: int) -> Parse<DefinitionView> {
    match signature_model(toks, pos) {
        Err(e) => Err(e),
        Ok(((name, args), pos1)) => match return_model(toks, pos1) {
            Err(e) => Err(e),
            Ok((return_type, pos2)) => match block_model(toks, pos2) {
                Err(e) => Err(e),
                Ok((body, pos3)) => Ok(
                    (
                        DefinitionView {
                            name: name,
                            args: args,
                            exprs: body,
                            return_type: return_type,
                        },
                        pos3,
                    ),
                ),
            },
        },
    }
}

/// The definitions of a program after those in `acc`, up to the end of the
/// tokens.
pub open spec fn program_model(toks: Seq<TokenView>, pos: int, acc: Seq<DefinitionView>) -> Result<
    Seq<DefinitionView>,
    FailureView,
>
    decreases toks.len() - pos,
{
    if pos >= toks.len() {
        Ok(acc)
    } else {
        match moved(definition_model(toks, pos), pos, toks.len()) {
            Err(e) => Err(e),
            Ok((def, p)) => program_model(toks, p, acc.push(def)),
        }
    }
}

/// The first error in a token stream, if there is one.
pub open spec fn first_error(lexemes: Seq<Lexeme>) -> Option<LexicalError>
    decreases lexemes.len(),
{
    if lexemes.len() == 0 {
        None
    } else {
        match lexemes.first() {
            Err(e) => Some(e),
            Ok(_) => first_error(lexemes.drop_first()),
        }
    }
}

/// The kinds of the tokens of a stream without errors.
pub open spec fn kinds(lexemes: Seq<Lexeme>) -> Seq<TokenView> {
    Seq::new(
        lexemes.len(),
        |i: int|
            match lexemes[i] {
                Ok((_, kind, _)) => kind,
                Err(_) => TokenView::Comma,
            },
    )
}

/// The program that a token stream is, or why it is none. An error of the
/// lexer anywhere in the stream comes first. A token that cannot stand where
/// it does is reported with what can stand there; where the stream ends too
/// early no token is reported.
pub open spec fn parse_model(lexemes: Seq<Lexeme>) -> Result<Seq<DefinitionView>, SyntaxErrorView> {
    match first_error(lexemes) {
        Some(error) => Err(SyntaxErrorView::User { error: error }),
        None => match program_model(kinds(lexemes), 0, Seq::empty()) {
            Ok(defs) => Ok(defs),
            Err(f) => Err(
                SyntaxErrorView::UnrecognizedToken {
                    token: if 0 <= f.pos < lexemes.len() {
                        match lexemes[f.pos] {
                            Ok(t) => Some(t),
                            Err(_) => None,
                        }
                    } else {
                        None
                    },
                    expected: f.expected,
                },
            ),
        },
    }
}

/// Where a parse stopped.
struct Failure {
    pos: usize,
    expected: Vec<String>,
}

impl View for Failure {
    type V = FailureView;

    closed spec fn view(&self) -> FailureView {
        FailureView { pos: self.pos as int, expected: self.expected.deep_view() }
    }
}

/// A token stream without errors.
spec fn clean(toks: Seq<Spanned<Token, Span, LexicalError>>) -> bool {
    forall|i: int| 0 <= i < toks.len() ==> toks[i] is Ok
}

/// The kinds of the tokens of a stream.
spec fn stream(toks: Seq<Spanned<Token, Span, LexicalError>>) -> Seq<TokenView> {
    kinds(lexemes_view(toks))
}

/// Whether a parse came out as its model says.
spec fn parsed<T, V>(
    r: Result<(T, usize), Failure>,
    model: Parse<V>,
    view: spec_fn(T) -> V,
) -> bool {
    match model {
        Ok((v, p)) => r matches Ok((t, q)) && view(t) == v && q == p,
        Err(f) => r matches Err(x) && x@ == f,
    }
}

/// Whether a parse that succeeded ended after `pos` and within the tokens.
spec fn advanced<T>(r: Result<(T, usize), Failure>, pos: usize, len: nat) -> bool {
    r matches Ok((_, q)) ==> pos < q <= len
}

fn failure(pos: usize, label: &str) -> (f: Failure)
    ensures
        f@ == (FailureView { pos: pos as int, expected: seq![label@] }),
{
    let mut expected: Vec<String> = Vec::new();
    expected.push(String::from_str(label));
    assert(expected.deep_view() =~= seq![label@]);
    Failure { pos: pos, expected: expected }
}

fn failure_of_two(pos: usize, first: &Token, second: &Token) -> (f: Failure)
    ensures
        f@ == (FailureView { pos: pos as int, expected: seq![first@.text(), second@.text()] }),
{
    let mut expected: Vec<String> = Vec::new();
    expected.push(first.describe());
    expected.push(second.describe());
    assert(expected.deep_view() =~= seq![first@.text(), second@.text()]);
    Failure { pos: pos, expected: expected }
}

/// Whether two tokens are of the same kind, with the same payload.
pub fn same_token(a: &Token, b: &Token) -> (r: bool)
    ensures
        r == (a@ == b@),
{
    match a {
        Token::Comma => matches!(b, Token::Comma),
        Token::LParen => matches!(b, Token::LParen),
        Token::RParen => matches!(b, Token::RParen),
        Token::LBracket => matches!(b, Token::LBracket),
        Token::RBracket => matches!(b, Token::RBracket),
        Token::LSquare => matches!(b, Token::LSquare),
        Token::RSquare => matches!(b, Token::RSquare),
        Token::SemiColon => matches!(b, Token::SemiColon),
        Token::Colon => matches!(b, Token::Colon),
        Token::Eq => matches!(b, Token::Eq),
        Token::EqEq => matches!(b, Token::EqEq),
        Token::NotEq => matches!(b, Token::NotEq),
        Token::LessThan => matches!(b, Token::LessThan),
        Token::LessThanEq => matches!(b, Token::LessThanEq),
        Token::GreaterThan => matches!(b, Token::GreaterThan),
        Token::GreaterThanEq => matches!(b, Token::GreaterThanEq),
        Token::Plus => matches!(b, Token::Plus),
        Token::Minus => matches!(b, Token::Minus),
        Token::Star => matches!(b, Token::Star),
        Token::Slash => matches!(b, Token::Slash),
        Token::Arrow => matches!(b, Token::Arrow),
        Token::Pipe => matches!(b, Token::Pipe),
        Token::Name(x) => match b {
            Token::Name(y) => str_eq(x.as_str(), y.as_str()),
            _ => false,
        },
        Token::Integer(x) => match b {
            Token::Integer(y) => *x == *y,
            _ => false,
        },
        Token::Str(x) => match b {
            Token::Str(y) => str_eq(x.as_str(), y.as_str()),
            _ => false,
        },
        Token::Def => matches!(b, Token::Def),
        Token::Let => matches!(b, Token::Let),
        Token::If => matches!(b, Token::If),
        Token::Else => matches!(b, Token::Else),
        Token::True => matches!(b, Token::True),
        Token::False => matches!(b, Token::False),
        Token::While => matches!(b, Token::While),
        Token::For => matches!(b, Token::For),
        Token::In => matches!(b, Token::In),
        Token::To => matches!(b, Token::To),
    }
}

/// The token at `pos`.
fn token_at(toks: &Vec<Spanned<Token, Span, LexicalError>>, pos: usize) -> (t: &Token)
    requires
        clean(toks@),
        pos < toks.len(),
    ensures
        kind_at(stream(toks@), pos as int) == Some(t@),
{
    match &toks[pos] {
        Ok(entry) => &entry.1,
        Err(_) => unreached(),
    }
}

/// Whether the token at `pos` is of the kind `t`.
fn at(toks: &Vec<Spanned<Token, Span, LexicalError>>, pos: usize, t: &Token) -> (r: bool)
    requires
        clean(toks@),
    ensures
        r == (kind_at(stream(toks@), pos as int) == Some(t@)),
        r ==> pos < toks.len(),
{
    pos < toks.len() && same_token(token_at(toks, pos), t)
}

fn expect_token(
    toks: &Vec<Spanned<Token, Span, LexicalError>>,
    pos: usize,
    t: &Token,
) -> (r: Result<
    usize,
    Failure,
>)
    requires
        clean(toks@),
    ensures
        match expect(stream(toks@), pos as int, t@) {
            Ok(p) => r matches Ok(q) && q == p && q <= toks.len(),
            Err(f) => r matches Err(x) && x@ == f,
        },
{
    if at(toks, pos, t) {
        Ok(pos + 1)
    } else {
        let label = t.describe();
        Err(failure(pos, label.as_str()))
    }
}

fn parse_name(toks: &Vec<Spanned<Token, Span, LexicalError>>, pos: usize) -> (r: Result<
    (String, usize),
    Failure,
>)
    requires
        clean(toks@),
    ensures
        parsed(r, name_model(stream(toks@), pos as int), |n: String| n@),
        advanced(r, pos, toks@.len()),
{
    if pos < toks.len() {
        match token_at(toks, pos) {
            Token::Name(n) => Ok((n.clone(), pos + 1)),
            _ => Err(failure(pos, "Name")),
        }
    } else {
        Err(failure(pos, "Name"))
    }
}

fn parse_integer(toks: &Vec<Spanned<Token, Span, LexicalError>>, pos: usize) -> (r: Result<
    (i64, usize),
    Failure,
>)
    requires
        clean(toks@),
    ensures
        parsed(r, integer_model(stream(toks@), pos as int), |n: i64| n),
        advanced(r, pos, toks@.len()),
{
    if pos < toks.len() {
        match token_at(toks, pos) {
            Token::Integer(n) => Ok((*n, pos + 1)),
            _ => Err(failure(pos, "Integer")),
        }
    } else {
        Err(failure(pos, "Integer"))
    }
}

fn parse_type(toks: &Vec<Spanned<Token, Span, LexicalError>>, pos: usize) -> (r: Result<
    (String, usize),
    Failure,
>)
    requires
        clean(toks@),
    ensures
        parsed(r, type_model(stream(toks@), pos as int), |n: String| n@),
        advanced(r, pos, toks@.len()),
    decreases toks.len() - pos, 0nat,
{
    if pos >= toks.len() {
        return Err(failure(pos, "type"));
    }
    match token_at(toks, pos) {
        Token::Name(n) => Ok((n.clone(), pos + 1)),
        Token::LSquare => {
            let p = match parse_typeset(toks, pos + 1) {
                Ok((_, p)) => p,
                Err(f) => {
                    return Err(f);
                },
            };
            match expect_token(toks, p, &Token::RSquare) {
                Ok(q) => Ok((String::from_str("list"), q)),
                Err(f) => Err(f),
            }
        },
        _ => Err(failure(pos, "type")),
    }
}

fn parse_typeset(toks: &Vec<Spanned<Token, Span, LexicalError>>, pos: usize) -> (r: Result<
    (Vec<String>, usize),
    Failure,
>)
    requires
        clean(toks@),
    ensures
        parsed(r, typeset_model(stream(toks@), pos as int), |t: Vec<String>| t.deep_view()),
        advanced(r, pos, toks@.len()),
    decreases toks.len() - pos, 1nat,
{
    let (first, mut at_pos) = match parse_type(toks, pos) {
        Ok(found) => found,
        Err(f) => {
            return Err(f);
        },
    };
    let mut types: Vec<String> = Vec::new();
    types.push(first);
    assert(types.deep_view() =~= seq![first@]);
    loop
        invariant
            clean(toks@),
            pos < at_pos <= toks.len(),
            typeset_model(stream(toks@), pos as int) == typeset_rest(
                stream(toks@),
                at_pos as int,
                types.deep_view(),
            ),
        decreases toks.len() - at_pos,
    {
        if !at(toks, at_pos, &Token::Pipe) {
            return Ok((types, at_pos));
        }
        let (next, p) = match parse_type(toks, at_pos + 1) {
            Ok(found) => found,
            Err(f) => {
                return Err(f);
            },
        };
        let ghost before = types.deep_view();
        types.push(next);
        assert(types.deep_view() =~= before.push(next@));
        at_pos = p;
    }
}

fn product_operator(toks: &Vec<Spanned<Token, Span, LexicalError>>, pos: usize) -> (r: Option<
    BinOpAst,
>)
    requires
        clean(toks@),
    ensures
        r == product_op(kind_at(stream(toks@), pos as int)),
        r is Some ==> pos < toks.len(),
{
    if pos < toks.len() {
        match token_at(toks, pos) {
            Token::Star => Some(BinOpAst::Mul),
            Token::Slash => Some(BinOpAst::Div),
            _ => None,
        }
    } else {
        None
    }
}

fn sum_operator(toks: &Vec<Spanned<Token, Span, LexicalError>>, pos: usize) -> (r: Option<BinOpAst>)
    requires
        clean(toks@),
    ensures
        r == sum_op(kind_at(stream(toks@), pos as int)),
        r is Some ==> pos < toks.len(),
{
    if pos < toks.len() {
        match token_at(toks, pos) {
            Token::Plus => Some(BinOpAst::Add),
            Token::Minus => Some(BinOpAst::Sub),
            _ => None,
        }
    } else {
        None
    }
}

fn comparison_operator(toks: &Vec<Spanned<Token, Span, LexicalError>>, pos: usize) -> (r: Option<
    BinOpAst,
>)
    requires
        clean(toks@),
    ensures
        r == comparison_op(kind_at(stream(toks@), pos as int)),
        r is Some ==> pos < toks.len(),
{
    if pos < toks.len() {
        match token_at(toks, pos) {
            Token::EqEq => Some(BinOpAst::EqEq),
            Token::NotEq => Some(BinOpAst::NotEq),
            Token::LessThan => Some(BinOpAst::LessThan),
            Token::LessThanEq => Some(BinOpAst::LessThanEq),
            Token::GreaterThan => Some(BinOpAst::GreaterThan),
            Token::GreaterThanEq => Some(BinOpAst::GreaterThanEq),
            _ => None,
        }
    } else {
        None
    }
}

fn parse_atom(toks: &Vec<Spanned<Token, Span, LexicalError>>, pos: usize) -> (r: Result<
    (ExprAst, usize),
    Failure,
>)
    requires
        clean(toks@),
    ensures
        parsed(r, atom_model(stream(toks@), pos as int), |e: ExprAst| e@),
        advanced(r, pos, toks@.len()),
    decreases toks.len() - pos, 1nat,
{
    if pos >= toks.len() {
        return Err(failure(pos, "expression"));
    }
    match token_at(toks, pos) {
        Token::Integer(n) => Ok((ExprAst::Integer(*n), pos + 1)),
        Token::True => Ok((ExprAst::Bool(true), pos + 1)),
        Token::False => Ok((ExprAst::Bool(false), pos + 1)),
        Token::Str(text) => Ok((ExprAst::Str(text.clone()), pos + 1)),
        Token::Name(name) => {
            if at(toks, pos + 1, &Token::LParen) {
                match parse_list(toks, pos + 2, &Token::RParen) {
                    Ok((args, p)) => Ok(
                        (ExprAst::FunctionCall { name: name.clone(), args: args }, p),
                    ),
                    Err(f) => Err(f),
                }
            } else {
                Ok((ExprAst::Variable(name.clone()), pos + 1))
            }
        },
        Token::LSquare => {
            match parse_list(toks, pos + 1, &Token::RSquare) {
                Ok((items, p)) => {
                    Ok((ExprAst::new_list(items), p))
                },
                Err(f) => Err(f),
            }
        },
        Token::LParen => parse_group(toks, pos),
        Token::If => parse_if(toks, pos),
        Token::While => parse_while(toks, pos),
        Token::For => parse_for(toks, pos),
        _ => Err(failure(pos, "expression")),
    }
}

fn parse_group(toks: &Vec<Spanned<Token, Span, LexicalError>>, pos: usize) -> (r: Result<
    (ExprAst, usize),
    Failure,
>)
    requires
        clean(toks@),
        kind_at(stream(toks@), pos as int) == Some(TokenView::LParen),
    ensures
        parsed(r, atom_model(stream(toks@), pos as int), |e: ExprAst| e@),
        advanced(r, pos, toks@.len()),
    decreases toks.len() - pos, 0nat,
{
    let (e, p) = match parse_expr(toks, pos + 1) {
        Ok(found) => found,
        Err(f) => {
            return Err(f);
        },
    };
    match expect_token(toks, p, &Token::RParen) {
        Ok(q) => Ok((e, q)),
        Err(f) => Err(f),
    }
}

fn parse_if(toks: &Vec<Spanned<Token, Span, LexicalError>>, pos: usize) -> (r: Result<
    (ExprAst, usize),
    Failure,
>)
    requires
        clean(toks@),
        kind_at(stream(toks@), pos as int) == Some(TokenView::If),
    ensures
        parsed(r, atom_model(stream(toks@), pos as int), |e: ExprAst| e@),
        advanced(r, pos, toks@.len()),
    decreases toks.len() - pos, 0nat,
{
    let (c, p) = match parse_expr(toks, pos + 1) {
        Ok(found) => found,
        Err(f) => {
            return Err(f);
        },
    };
    let (then_block, q) = match parse_block(toks, p) {
        Ok(found) => found,
        Err(f) => {
            return Err(f);
        },
    };
    if at(toks, q, &Token::Else) {
        match parse_block(toks, q + 1) {
            Ok((else_block, r)) => Ok((ExprAst::new_if(c, then_block, Some(else_block)), r)),
            Err(f) => Err(f),
        }
    } else {
        Ok((ExprAst::new_if(c, then_block, None), q))
    }
}

fn parse_while(toks: &Vec<Spanned<Token, Span, LexicalError>>, pos: usize) -> (r: Result<
    (ExprAst, usize),
    Failure,
>)
    requires
        clean(toks@),
        kind_at(stream(toks@), pos as int) == Some(TokenView::While),
    ensures
        parsed(r, atom_model(stream(toks@), pos as int), |e: ExprAst| e@),
        advanced(r, pos, toks@.len()),
    decreases toks.len() - pos, 0nat,
{
    let (c, p) = match parse_expr(toks, pos + 1) {
        Ok(found) => found,
        Err(f) => {
            return Err(f);
        },
    };
    match parse_block(toks, p) {
        Ok((body, q)) => Ok((ExprAst::new_while(c, body), q)),
        Err(f) => Err(f),
    }
}

fn parse_for_head(toks: &Vec<Spanned<Token, Span, LexicalError>>, pos: usize) -> (r: Result<
    ((String, i64, i64), usize),
    Failure,
>)
    requires
        clean(toks@),
    ensures
        parsed(
            r,
            for_head(stream(toks@), pos as int),
            |h: (String, i64, i64)| (h.0@, h.1, h.2),
        ),
        advanced(r, pos, toks@.len()),
{
    let (name, pos1) = match parse_name(toks, pos) {
        Ok(found) => found,
        Err(f) => {
            return Err(f);
        },
    };
    let pos2 = match expect_token(toks, pos1, &Token::In) {
        Ok(p) => p,
        Err(f) => {
            return Err(f);
        },
    };
    let (start, pos3) = match parse_integer(toks, pos2) {
        Ok(found) => found,
        Err(f) => {
            return Err(f);
        },
    };
    let pos4 = match expect_token(toks, pos3, &Token::To) {
        Ok(p) => p,
        Err(f) => {
            return Err(f);
        },
    };
    match parse_integer(toks, pos4) {
        Ok((end, pos5)) => Ok(((name, start, end), pos5)),
        Err(f) => Err(f),
    }
}

fn parse_for(toks: &Vec<Spanned<Token, Span, LexicalError>>, pos: usize) -> (r: Result<
    (ExprAst, usize),
    Failure,
>)
    requires
        clean(toks@),
        kind_at(stream(toks@), pos as int) == Some(TokenView::For),
    ensures
        parsed(r, atom_model(stream(toks@), pos as int), |e: ExprAst| e@),
        advanced(r, pos, toks@.len()),
    decreases toks.len() - pos, 0nat,
{
    let ((name, start, end), p) = match parse_for_head(toks, pos + 1) {
        Ok(found) => found,
        Err(f) => {
            return Err(f);
        },
    };
    match parse_block(toks, p) {
        Ok((body, q)) => Ok((ExprAst::new_for(name, RangeAst::new(start, end), body), q)),
        Err(f) => Err(f),
    }
}

fn parse_product(toks: &Vec<Spanned<Token, Span, LexicalError>>, pos: usize) -> (r: Result<
    (ExprAst, usize),
    Failure,
>)
    requires
        clean(toks@),
    ensures
        parsed(r, product_model(stream(toks@), pos as int), |e: ExprAst| e@),
        advanced(r, pos, toks@.len()),
    decreases toks.len() - pos, 2nat,
{
    let (mut left, mut at_pos) = match parse_atom(toks, pos) {
        Ok(found) => found,
        Err(f) => {
            return Err(f);
        },
    };
    loop
        invariant
            clean(toks@),
            pos < at_pos <= toks.len(),
            product_model(stream(toks@), pos as int) == product_rest(
                stream(toks@),
                at_pos as int,
                left@,
            ),
        decreases toks.len() - at_pos,
    {
        let operator = match product_operator(toks, at_pos) {
            Some(o) => o,
            None => {
                return Ok((left, at_pos));
            },
        };
        let (right, p) = match parse_atom(toks, at_pos + 1) {
            Ok(found) => found,
            Err(f) => {
                return Err(f);
            },
        };
        left = ExprAst::new_op(left, operator, right);
        at_pos = p;
    }
}

fn parse_sum(toks: &Vec<Spanned<Token, Span, LexicalError>>, pos: usize) -> (r: Result<
    (ExprAst, usize),
    Failure,
>)
    requires
        clean(toks@),
    ensures
        parsed(r, sum_model(stream(toks@), pos as int), |e: ExprAst| e@),
        advanced(r, pos, toks@.len()),
    decreases toks.len() - pos, 3nat,
{
    let (mut left, mut at_pos) = match parse_product(toks, pos) {
        Ok(found) => found,
        Err(f) => {
            return Err(f);
        },
    };
    loop
        invariant
            clean(toks@),
            pos < at_pos <= toks.len(),
            sum_model(stream(toks@), pos as int) == sum_rest(stream(toks@), at_pos as int, left@),
        decreases toks.len() - at_pos,
    {
        let operator = match sum_operator(toks, at_pos) {
            Some(o) => o,
            None => {
                return Ok((left, at_pos));
            },
        };
        let (right, p) = match parse_product(toks, at_pos + 1) {
            Ok(found) => found,
            Err(f) => {
                return Err(f);
            },
        };
        left = ExprAst::new_op(left, operator, right);
        at_pos = p;
    }
}

fn parse_expr(toks: &Vec<Spanned<Token, Span, LexicalError>>, pos: usize) -> (r: Result<
    (ExprAst, usize),
    Failure,
>)
    requires
        clean(toks@),
    ensures
        parsed(r, expr_model(stream(toks@), pos as int), |e: ExprAst| e@),
        advanced(r, pos, toks@.len()),
    decreases toks.len() - pos, 4nat,
{
    let (mut left, mut at_pos) = match parse_sum(toks, pos) {
        Ok(found) => found,
        Err(f) => {
            return Err(f);
        },
    };
    loop
        invariant
            clean(toks@),
            pos < at_pos <= toks.len(),
            expr_model(stream(toks@), pos as int) == expr_rest(stream(toks@), at_pos as int, left@),
        decreases toks.len() - at_pos,
    {
        let operator = match comparison_operator(toks, at_pos) {
            Some(o) => o,
            None => {
                return Ok((left, at_pos));
            },
        };
        let (right, p) = match parse_sum(toks, at_pos + 1) {
            Ok(found) => found,
            Err(f) => {
                return Err(f);
            },
        };
        left = ExprAst::new_op(left, operator, right);
        at_pos = p;
    }
}

fn parse_list(toks: &Vec<Spanned<Token, Span, LexicalError>>, pos: usize, close: &Token) -> (r:
    Result<(Vec<ExprAst>, usize), Failure>)
    requires
        clean(toks@),
        pos <= toks.len(),
    ensures
        parsed(
            r,
            list_model(stream(toks@), pos as int, close@),
            |items: Vec<ExprAst>| exprs_view(items@),
        ),
        advanced(r, pos, toks@.len()),
    decreases toks.len() - pos, 6nat,
{
    let mut items: Vec<ExprAst> = Vec::new();
    assert(exprs_view(items@) =~= Seq::<ExprView>::empty());
    if at(toks, pos, close) {
        return Ok((items, pos + 1));
    }
    let mut at_pos = pos;
    loop
        invariant
            clean(toks@),
            pos <= at_pos <= toks.len(),
            list_model(stream(toks@), pos as int, close@) == list_rest(
                stream(toks@),
                at_pos as int,
                close@,
                exprs_view(items@),
            ),
        decreases toks.len() - at_pos,
    {
        let (e, p) = match parse_expr(toks, at_pos) {
            Ok(found) => found,
            Err(f) => {
                return Err(f);
            },
        };
        let ghost before = exprs_view(items@);
        items.push(e);
        assert(exprs_view(items@) =~= before.push(e@));
        if at(toks, p, &Token::Comma) {
            at_pos = p + 1;
        } else if at(toks, p, close) {
            return Ok((items, p + 1));
        } else {
            return Err(failure_of_two(p, &Token::Comma, close));
        }
    }
}

fn parse_let_head(toks: &Vec<Spanned<Token, Span, LexicalError>>, pos: usize) -> (r: Result<
    ((String, Vec<String>), usize),
    Failure,
>)
    requires
        clean(toks@),
    ensures
        parsed(
            r,
            let_head(stream(toks@), pos as int),
            |h: (String, Vec<String>)| (h.0@, h.1.deep_view()),
        ),
        advanced(r, pos, toks@.len()),
{
    let (name, pos1) = match parse_name(toks, pos) {
        Ok(found) => found,
        Err(f) => {
            return Err(f);
        },
    };
    let pos2 = match expect_token(toks, pos1, &Token::Colon) {
        Ok(p) => p,
        Err(f) => {
            return Err(f);
        },
    };
    let (types, pos3) = match parse_typeset(toks, pos2) {
        Ok(found) => found,
        Err(f) => {
            return Err(f);
        },
    };
    match expect_token(toks, pos3, &Token::Eq) {
        Ok(pos4) => Ok(((name, types), pos4)),
        Err(f) => Err(f),
    }
}

fn parse_stmt(toks: &Vec<Spanned<Token, Span, LexicalError>>, pos: usize) -> (r: Result<
    (StmtAst, usize),
    Failure,
>)
    requires
        clean(toks@),
    ensures
        parsed(r, stmt_model(stream(toks@), pos as int), |s: StmtAst| s@),
        advanced(r, pos, toks@.len()),
    decreases toks.len() - pos, 7nat,
{
    if at(toks, pos, &Token::Let) {
        let ((name, types), p) = match parse_let_head(toks, pos + 1) {
            Ok(found) => found,
            Err(f) => {
                return Err(f);
            },
        };
        return match parse_expr(toks, p) {
            Ok((e, q)) => Ok((StmtAst::new_assignment(name, types, e), q)),
            Err(f) => Err(f),
        };
    }
    if pos < toks.len() {
        match token_at(toks, pos) {
            Token::Name(name) => {
                if at(toks, pos + 1, &Token::Eq) {
                    return match parse_expr(toks, pos + 2) {
                        Ok((e, q)) => Ok((StmtAst::new_reassignment(name.clone(), e), q)),
                        Err(f) => Err(f),
                    };
                }
            },
            _ => {},
        }
    }
    match parse_expr(toks, pos) {
        Ok((e, q)) => Ok((StmtAst::Expr(e), q)),
        Err(f) => Err(f),
    }
}

fn parse_body(toks: &Vec<Spanned<Token, Span, LexicalError>>, pos: usize) -> (r: Result<
    (Stmts, usize),
    Failure,
>)
    requires
        clean(toks@),
        pos <= toks.len(),
    ensures
        parsed(
            r,
            body_model(stream(toks@), pos as int, Seq::empty()),
            |b: Stmts| block_view(b),
        ),
        advanced(r, pos, toks@.len()),
    decreases toks.len() - pos, 8nat,
{
    let mut list: Vec<Box<StmtAst>> = Vec::new();
    assert(stmts_view(list@) =~= Seq::<StmtView>::empty());
    let mut at_pos = pos;
    loop
        invariant
            clean(toks@),
            pos <= at_pos <= toks.len(),
            body_model(stream(toks@), pos as int, Seq::empty()) == body_model(
                stream(toks@),
                at_pos as int,
                stmts_view(list@),
            ),
        decreases toks.len() - at_pos,
    {
        if at(toks, at_pos, &Token::RBracket) {
            return Ok(((list, None), at_pos + 1));
        }
        let (st, p) = match parse_stmt(toks, at_pos) {
            Ok(found) => found,
            Err(f) => {
                return Err(f);
            },
        };
        if at(toks, p, &Token::SemiColon) {
            let ghost before = stmts_view(list@);
            list.push(Box::new(st));
            assert(stmts_view(list@) =~= before.push(st@));
            at_pos = p + 1;
        } else if at(toks, p, &Token::RBracket) {
            return Ok(((list, Some(Box::new(st))), p + 1));
        } else {
            return Err(failure_of_two(p, &Token::SemiColon, &Token::RBracket));
        }
    }
}

fn parse_block(toks: &Vec<Spanned<Token, Span, LexicalError>>, pos: usize) -> (r: Result<
    (Stmts, usize),
    Failure,
>)
    requires
        clean(toks@),
    ensures
        parsed(r, block_model(stream(toks@), pos as int), |b: Stmts| block_view(b)),
        advanced(r, pos, toks@.len()),
    decreases toks.len() - pos, 9nat,
{
    match expect_token(toks, pos, &Token::LBracket) {
        Ok(p) => parse_body(toks, p),
        Err(f) => Err(f),
    }
}

fn parse_params(toks: &Vec<Spanned<Token, Span, LexicalError>>, pos: usize) -> (r: Result<
    (Vec<ArgAst>, usize),
    Failure,
>)
    requires
        clean(toks@),
    ensures
        parsed(
            r,
            params_model(stream(toks@), pos as int, Seq::empty()),
            |a: Vec<ArgAst>| args_view(a@),
        ),
        advanced(r, pos, toks@.len()),
{
    let mut args: Vec<ArgAst> = Vec::new();
    assert(args_view(args@) =~= Seq::<(Seq<char>, Seq<Seq<char>>)>::empty());
    let mut at_pos = pos;
    loop
        invariant
            clean(toks@),
            pos <= at_pos,
            params_model(stream(toks@), pos as int, Seq::empty()) == params_model(
                stream(toks@),
                at_pos as int,
                args_view(args@),
            ),
        decreases toks.len() - at_pos,
    {
        let (name, pos1) = match parse_name(toks, at_pos) {
            Ok(found) => found,
            Err(f) => {
                return Err(f);
            },
        };
        let pos2 = match expect_token(toks, pos1, &Token::Colon) {
            Ok(p) => p,
            Err(f) => {
                return Err(f);
            },
        };
        let (types, pos3) = match parse_typeset(toks, pos2) {
            Ok(found) => found,
            Err(f) => {
                return Err(f);
            },
        };
        let ghost before = args_view(args@);
        let arg = ArgAst::new(name, types);
        proof {
            arg.lemma_view();
        }
        args.push(arg);
        assert(args_view(args@) =~= before.push((name@, types.deep_view())));
        if at(toks, pos3, &Token::Comma) {
            at_pos = pos3 + 1;
        } else if at(toks, pos3, &Token::RParen) {
            return Ok((args, pos3 + 1));
        } else {
            return Err(failure_of_two(pos3, &Token::Comma, &Token::RParen));
        }
    }
}

fn parse_signature(toks: &Vec<Spanned<Token, Span, LexicalError>>, pos: usize) -> (r: Result<
    ((String, Vec<ArgAst>), usize),
    Failure,
>)
    requires
        clean(toks@),
    ensures
        parsed(
            r,
            signature_model(stream(toks@), pos as int),
            |h: (String, Vec<ArgAst>)| (h.0@, args_view(h.1@)),
        ),
        advanced(r, pos, toks@.len()),
{
    let pos1 = match expect_token(toks, pos, &Token::Def) {
        Ok(p) => p,
        Err(f) => {
            return Err(f);
        },
    };
    let (name, pos2) = match parse_name(toks, pos1) {
        Ok(found) => found,
        Err(f) => {
            return Err(f);
        },
    };
    let pos3 = match expect_token(toks, pos2, &Token::LParen) {
        Ok(p) => p,
        Err(f) => {
            return Err(f);
        },
    };
    if at(toks, pos3, &Token::RParen) {
        let args: Vec<ArgAst> = Vec::new();
        assert(args_view(args@) =~= Seq::<(Seq<char>, Seq<Seq<char>>)>::empty());
        return Ok(((name, args), pos3 + 1));
    }
    match parse_params(toks, pos3) {
        Ok((args, pos4)) => Ok(((name, args), pos4)),
        Err(f) => Err(f),
    }
}

fn parse_return(toks: &Vec<Spanned<Token, Span, LexicalError>>, pos: usize) -> (r: Result<
    (Option<Vec<String>>, usize),
    Failure,
>)
    requires
        clean(toks@),
        pos <= toks.len(),
    ensures
        parsed(
            r,
            return_model(stream(toks@), pos as int),
            |t: Option<Vec<String>>|
                match t {
                    Some(given) => given.deep_view(),
                    None => seq!["none"@],
                },
        ),
        r matches Ok((_, q)) ==> pos <= q <= toks.len(),
{
    if at(toks, pos, &Token::Arrow) {
        match parse_typeset(toks, pos + 1) {
            Ok((types, p)) => Ok((Some(types), p)),
            Err(f) => Err(f),
        }
    } else {
        Ok((None, pos))
    }
}

fn parse_definition(toks: &Vec<Spanned<Token, Span, LexicalError>>, pos: usize) -> (r: Result<
    (ModStmtAst, usize),
    Failure,
>)
    requires
        clean(toks@),
    ensures
        parsed(r, definition_model(stream(toks@), pos as int), |d: ModStmtAst| d@),
        advanced(r, pos, toks@.len()),
{
    let ((name, args), pos1) = match parse_signature(toks, pos) {
        Ok(found) => found,
        Err(f) => {
            return Err(f);
        },
    };
    let (return_type, pos2) = match parse_return(toks, pos1) {
        Ok(found) => found,
        Err(f) => {
            return Err(f);
        },
    };
    match parse_block(toks, pos2) {
        Ok((body, pos3)) => {
            let def = ModStmtAst::new_fn(name, args, return_type, body);
            assert(def@.return_type =~= match return_type {
                Some(given) => given.deep_view(),
                None => seq!["none"@],
            });
            Ok((def, pos3))
        },
        Err(f) => Err(f),
    }
}

/// The error of the lexer that comes first in the stream, if there is one.
fn find_error(tokens: &Vec<Spanned<Token, Span, LexicalError>>) -> (r: Option<LexicalError>)
    ensures
        r == first_error(lexemes_view(tokens@)),
        r is None ==> clean(tokens@),
{
    let mut i: usize = 0;
    assert(lexemes_view(tokens@).skip(0) =~= lexemes_view(tokens@));
    while i < tokens.len()
        invariant
            i <= tokens.len(),
            first_error(lexemes_view(tokens@)) == first_error(lexemes_view(tokens@).skip(i as int)),
            forall|j: int| 0 <= j < i ==> tokens@[j] is Ok,
        decreases tokens.len() - i,
    {
        let ghost rest = lexemes_view(tokens@).skip(i as int);
        assert(rest.first() == lexeme_view(tokens@[i as int]));
        assert(rest.drop_first() =~= lexemes_view(tokens@).skip(i + 1));
        match &tokens[i] {
            Err(e) => {
                return Some(*e);
            },
            Ok(_) => {},
        }
        i += 1;
    }
    None
}

/// Parses the definitions of a program.
fn parse_program(toks: &Vec<Spanned<Token, Span, LexicalError>>) -> (r: Result<
    Vec<Box<ModStmtAst>>,
    Failure,
>)
    requires
        clean(toks@),
    ensures
        match program_model(stream(toks@), 0, Seq::empty()) {
            Ok(defs) => r matches Ok(ast) && program_view(ast@) == defs,
            Err(f) => r matches Err(x) && x@ == f,
        },
{
    let mut ast: Vec<Box<ModStmtAst>> = Vec::new();
    assert(program_view(ast@) =~= Seq::<DefinitionView>::empty());
    let mut pos: usize = 0;
    while pos < toks.len()
        invariant
            clean(toks@),
            pos <= toks.len(),
            program_model(stream(toks@), 0, Seq::empty()) == program_model(
                stream(toks@),
                pos as int,
                program_view(ast@),
            ),
        decreases toks.len() - pos,
    {
        let (def, p) = match parse_definition(toks, pos) {
            Ok(found) => found,
            Err(f) => {
                return Err(f);
            },
        };
        let ghost before = program_view(ast@);
        ast.push(Box::new(def));
        assert(program_view(ast@) =~= before.push(def@));
        pos = p;
    }
    Ok(ast)
}

/// Parses a token stream into the definitions of a program.
pub fn parse_tokens(tokens: Vec<Spanned<Token, Span, LexicalError>>) -> (r: Result<
    Vec<Box<ModStmtAst>>,
    SyntaxError,
>)
    ensures
        match parse_model(lexemes_view(tokens@)) {
            Ok(defs) => r matches Ok(ast) && program_view(ast@) == defs,
            Err(e) => r matches Err(x) && x@ == e,
        },
{
    match find_error(&tokens) {
        Some(error) => {
            return Err(SyntaxError::User { error: error });
        },
        None => {},
    }
    let mut tokens = tokens;
    match parse_program(&tokens) {
        Ok(ast) => Ok(ast),
        Err(f) => {
            let token = if f.pos < tokens.len() {
                match tokens.swap_remove(f.pos) {
                    Ok(t) => Some(t),
                    Err(_) => None,
                }
            } else {
                None
            };
            Err(SyntaxError::UnrecognizedToken { token: token, expected: f.expected })
        },
    }
}

} // verus!
