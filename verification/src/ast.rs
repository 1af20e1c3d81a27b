use vstd::prelude::*;

verus! {

/// The name of a variable, a function or a type, as it was written.
pub type Name = String;

/// A function's parameters, in the order of their declaration.
pub type Args = Vec<ArgAst>;

/// A call's arguments, from left to right.
pub type FnArgs = Vec<ExprAst>;

/// A list literal's items, from left to right.
pub type ListArgs = Vec<Box<ExprAst>>;

/// The statements of a block: those that end in a semicolon, in order, and the
/// final statement without one, if there is one.
pub type Stmts = (Vec<Box<StmtAst>>, Option<Box<StmtAst>>);

/// A top-level statement of a module.
#[derive(Debug)]
pub enum ModStmtAst {
    FunctionDef { name: String, args: Args, exprs: Stmts, return_type: Vec<Name> },
}

impl ModStmtAst {
    /// A function definition. Without a declared return type the function
    /// returns `none`.
    pub fn new_fn(name: String, args: Args, return_type: Option<Vec<Name>>, exprs: Stmts) -> (r:
        ModStmtAst)
        ensures
            r matches ModStmtAst::FunctionDef { name: n, args: a, exprs: e, return_type: t } && n
                == name && a == args && e == exprs && match return_type {
                Some(given) => t == given,
                None => t.len() == 1 && t[0]@ == "none"@,
            },
    {
        let conv_return_type = match return_type {
            Some(e) => e,
            None => {
                let mut v: Vec<Name> = Vec::new();
                v.push(String::from_str("none"));
                v
            },
        };
        ModStmtAst::FunctionDef { name, args, exprs, return_type: conv_return_type }
    }
}

/// A statement of a block: an expression, or a binding.
#[derive(Debug)]
pub enum StmtAst {
    Expr(ExprAst),
    /// A binding of `name` to the value of `expr`: a new variable with its
    /// declared types when `new`, else a variable that exists.
    Assignment { new: bool, name: String, expr: ExprAst, types: Option<Vec<Name>> },
}

impl StmtAst {
    /// The statement `let name: types = expr`.
    pub fn new_assignment(name: String, types: Vec<Name>, expr: ExprAst) -> (r: StmtAst)
        ensures
            r == (StmtAst::Assignment { new: true, name: name, expr: expr, types: Some(types) }),
    {
        StmtAst::Assignment { new: true, name: name, expr: expr, types: Some(types) }
    }

    /// The statement `name = expr`.
    pub fn new_reassignment(name: String, expr: ExprAst) -> (r: StmtAst)
        ensures
            r == (StmtAst::Assignment { new: false, name: name, expr: expr, types: None }),
    {
        StmtAst::Assignment { new: false, name: name, expr: expr, types: None }
    }
}

/// A declared argument: its name and its type set.
#[derive(Debug, Clone)]
pub struct ArgAst {
    name: Name,
    arg_types: Vec<Name>,
}

impl ArgAst {
    /// A parameter called `name` whose values have one of the types `arg_type`.
    pub fn new(name: Name, arg_type: Vec<Name>) -> (a: ArgAst)
        ensures
            a.spec_name() == name,
            a.spec_arg_types() == arg_type,
    {
        ArgAst { name: name, arg_types: arg_type }
    }

    /// The parameter's name.
    pub closed spec fn spec_name(&self) -> Name {
        self.name
    }

    /// The parameter's declared types.
    pub closed spec fn spec_arg_types(&self) -> Vec<Name> {
        self.arg_types
    }

    /// The parameter's name.
    pub fn name(&self) -> (n: &Name)
        ensures
            *n == self.spec_name(),
    {
        &self.name
    }

    /// The parameter's declared types.
    pub fn arg_types(&self) -> (t: &Vec<Name>)
        ensures
            *t == self.spec_arg_types(),
    {
        &self.arg_types
    }
}

/// A binary operator.
#[derive(Debug, Copy, Clone, PartialEq, Eq, Structural)]
pub enum BinOpAst {
    Mul,
    Div,
    Add,
    Sub,
    EqEq,
    NotEq,
    LessThan,
    LessThanEq,
    GreaterThan,
    GreaterThanEq,
}

impl BinOpAst {
    /// The operator as the source writes it.
    pub open spec fn text(self) -> Seq<char> {
        match self {
            BinOpAst::Mul => "*"@,
            BinOpAst::Div => "/"@,
            BinOpAst::Add => "+"@,
            BinOpAst::Sub => "-"@,
            BinOpAst::EqEq => "=="@,
            BinOpAst::NotEq => "!="@,
            BinOpAst::LessThan => "<"@,
            BinOpAst::LessThanEq => "<="@,
            BinOpAst::GreaterThan => ">"@,
            BinOpAst::GreaterThanEq => ">="@,
        }
    }

    /// The operator as the source writes it.
    pub fn symbol(&self) -> (s: &'static str)
        ensures
            s@ == self.text(),
    {
        match self {
            BinOpAst::Mul => "*",
            BinOpAst::Div => "/",
            BinOpAst::Add => "+",
            BinOpAst::Sub => "-",
            BinOpAst::EqEq => "==",
            BinOpAst::NotEq => "!=",
            BinOpAst::LessThan => "<",
            BinOpAst::LessThanEq => "<=",
            BinOpAst::GreaterThan => ">",
            BinOpAst::GreaterThanEq => ">=",
        }
    }

    /// Whether the operator is one of `+ - * /`.
    pub open spec fn is_arithmetic(self) -> bool {
        self == BinOpAst::Add || self == BinOpAst::Sub || self == BinOpAst::Mul || self
            == BinOpAst::Div
    }
}

/// An expression.
#[allow(inconsistent_fields)]
#[derive(Debug)]
pub enum ExprAst {
    FunctionCall { name: Name, args: FnArgs },
    Integer(i64),
    Op(Box<ExprAst>, BinOpAst, Box<ExprAst>),
    Variable(String),
    Bool(bool),
    Str(String),
    /// The value `none`.
    NoneLiteral,
    List(ListArgs),
    If { cond_expr: Box<ExprAst>, exprs: Stmts, else_exprs: Option<Stmts> },
    While { cond_expr: Box<ExprAst>, exprs: Stmts },
    For { name: String, range: RangeAst, exprs: Stmts },
}

impl ExprAst {
    /// The operation `left op right`.
    pub fn new_op(left: ExprAst, op: BinOpAst, right: ExprAst) -> (r: ExprAst)
        ensures
            r == ExprAst::Op(Box::new(left), op, Box::new(right)),
    {
        ExprAst::Op(Box::new(left), op, Box::new(right))
    }

    /// The expression `if cond_expr { exprs } else { else_exprs }`; without
    /// `else_exprs` it has no `else`.
    pub fn new_if(cond_expr: ExprAst, exprs: Stmts, else_exprs: Option<Stmts>) -> (r: ExprAst)
        ensures
            r == (ExprAst::If {
                cond_expr: Box::new(cond_expr),
                exprs: exprs,
                else_exprs: else_exprs,
            }),
    {
        ExprAst::If { cond_expr: Box::new(cond_expr), exprs: exprs, else_exprs: else_exprs }
    }

    /// The loop `while cond_expr { exprs }`.
    pub fn new_while(cond_expr: ExprAst, exprs: Stmts) -> (r: ExprAst)
        ensures
            r == (ExprAst::While { cond_expr: Box::new(cond_expr), exprs: exprs }),
    {
        ExprAst::While { cond_expr: Box::new(cond_expr), exprs: exprs }
    }

    /// The loop `for name in start to end { exprs }`.
    pub fn new_for(name: String, range: RangeAst, exprs: Stmts) -> (r: ExprAst)
        ensures
            r == (ExprAst::For { name: name, range: range, exprs: exprs }),
    {
        ExprAst::For { name: name, range: range, exprs: exprs }
    }

    /// A list literal of the given elements, in order.
    pub fn new_list(exprs: FnArgs) -> (r: ExprAst)
        ensures
            r matches ExprAst::List(items) && items.len() == exprs.len() && forall|i: int|
                0 <= i < exprs.len() ==> *items[i] == exprs[i],
            r@ == ExprView::List(exprs_view(exprs@)),
    {
        let mut rest = exprs;
        let mut items: Vec<Box<ExprAst>> = Vec::new();
        while rest.len() > 0
            invariant
                items.len() + rest.len() == exprs.len(),
                forall|i: int| 0 <= i < items.len() ==> *items[i] == exprs[i],
                forall|k: int| 0 <= k < rest.len() ==> rest[k] == exprs[items.len() + k],
            decreases rest.len(),
        {
            let e = rest.remove(0);
            items.push(Box::new(e));
        }
        assert(boxed_view(items@) =~= exprs_view(exprs@));
        ExprAst::List(items)
    }
}

/// The bounds of a `for` loop: it runs from `start` up to, not including, `end`.
#[derive(Debug, Clone)]
pub struct RangeAst {
    start: i64,
    end: i64,
}

impl RangeAst {
    /// The range from `start` up to, not including, `end`.
    pub fn new(start: i64, end: i64) -> (r: RangeAst)
        ensures
            r.spec_start() == start,
            r.spec_end() == end,
    {
        RangeAst { start: start, end: end }
    }

    /// The first value of the range.
    pub closed spec fn spec_start(&self) -> i64 {
        self.start
    }

    /// The value at which the range ends, itself left out.
    pub closed spec fn spec_end(&self) -> i64 {
        self.end
    }

    /// The first value of the range.
    #[verifier::when_used_as_spec(spec_start)]
    pub fn start(&self) -> (s: i64)
        ensures
            s == self.spec_start(),
    {
        self.start
    }

    /// The value at which the range ends, itself left out.
    #[verifier::when_used_as_spec(spec_end)]
    pub fn end(&self) -> (e: i64)
        ensures
            e == self.spec_end(),
    {
        self.end
    }
}

/// An expression as contracts see it.
pub enum ExprView {
    FunctionCall { name: Seq<char>, args: Seq<ExprView> },
    Integer(i64),
    Op(Box<ExprView>, BinOpAst, Box<ExprView>),
    Variable(Seq<char>),
    Bool(bool),
    Str(Seq<char>),
    NoneLiteral,
    List(Seq<ExprView>),
    If { cond_expr: Box<ExprView>, exprs: BlockView, else_exprs: Option<BlockView> },
    While { cond_expr: Box<ExprView>, exprs: BlockView },
    For { name: Seq<char>, start: i64, end: i64, exprs: BlockView },
}

/// The statements of a block as contracts see them: those that end in a
/// semicolon, and the final one without, if there is one.
pub struct BlockView {
    pub stmts: Seq<StmtView>,
    pub tail: Option<Box<StmtView>>,
}

/// A statement as contracts see it.
pub enum StmtView {
    Expr(ExprView),
    Assignment { new: bool, name: Seq<char>, expr: ExprView, types: Option<Seq<Seq<char>>> },
}

/// A function definition as contracts see it. Each argument is its name and
/// its type set.
pub struct DefinitionView {
    pub name: Seq<char>,
    pub args: Seq<(Seq<char>, Seq<Seq<char>>)>,
    pub exprs: BlockView,
    pub return_type: Seq<Seq<char>>,
}

impl View for ArgAst {
    type V = (Seq<char>, Seq<Seq<char>>);

    closed spec fn view(&self) -> (Seq<char>, Seq<Seq<char>>) {
        (self.name@, self.arg_types.deep_view())
    }
}

impl ArgAst {
    /// An argument is its name and its types.
    pub broadcast proof fn lemma_view(&self)
        ensures
            #[trigger] self@ == (self.spec_name()@, self.spec_arg_types().deep_view()),
    {
    }
}

/// The views of a sequence of expressions.
pub open spec fn exprs_view(s: Seq<ExprAst>) -> Seq<ExprView>
    decreases s,
{
    Seq::new(
        s.len(),
        |i: int|
            if 0 <= i < s.len() {
                s[i].model()
            } else {
                ExprView::NoneLiteral
            },
    )
}

/// The views of a sequence of boxed expressions.
pub open spec fn boxed_view(s: Seq<Box<ExprAst>>) -> Seq<ExprView>
    decreases s,
{
    Seq::new(
        s.len(),
        |i: int|
            if 0 <= i < s.len() {
                s[i].model()
            } else {
                ExprView::NoneLiteral
            },
    )
}

/// The views of a sequence of statements.
pub open spec fn stmts_view(s: Seq<Box<StmtAst>>) -> Seq<StmtView>
    decreases s,
{
    Seq::new(
        s.len(),
        |i: int|
            if 0 <= i < s.len() {
                s[i].model()
            } else {
                StmtView::Expr(ExprView::NoneLiteral)
            },
    )
}

/// The view of the statements of a block.
pub open spec fn block_view(stmts: Stmts) -> BlockView
    decreases stmts,
{
    BlockView {
        stmts: stmts_view(stmts.0@),
        tail: match stmts.1 {
            Some(last) => Some(Box::new(last.model())),
            None => None,
        },
    }
}

/// The views of the arguments of a definition.
pub open spec fn args_view(args: Seq<ArgAst>) -> Seq<(Seq<char>, Seq<Seq<char>>)> {
    Seq::new(args.len(), |i: int| args[i]@)
}

/// The views of the definitions of a program.
pub open spec fn program_view(defs: Seq<Box<ModStmtAst>>) -> Seq<DefinitionView> {
    Seq::new(defs.len(), |i: int| defs[i]@)
}

impl ExprAst {
    /// The expression that this tree stands for.
    pub open spec fn model(&self) -> ExprView
        decreases self,
    {
        match self {
            ExprAst::FunctionCall { name, args } => ExprView::FunctionCall {
                name: name@,
                args: exprs_view(args@),
            },
            ExprAst::Integer(n) => ExprView::Integer(*n),
            ExprAst::Op(left, op, right) => ExprView::Op(
                Box::new(left.model()),
                *op,
                Box::new(right.model()),
            ),
            ExprAst::Variable(name) => ExprView::Variable(name@),
            ExprAst::Bool(b) => ExprView::Bool(*b),
            ExprAst::Str(text) => ExprView::Str(text@),
            ExprAst::NoneLiteral => ExprView::NoneLiteral,
            ExprAst::List(items) => ExprView::List(boxed_view(items@)),
            ExprAst::If { cond_expr, exprs, else_exprs } => ExprView::If {
                cond_expr: Box::new(cond_expr.model()),
                exprs: block_view(*exprs),
                else_exprs: match else_exprs {
                    Some(other) => Some(block_view(*other)),
                    None => None,
                },
            },
            ExprAst::While { cond_expr, exprs } => ExprView::While {
                cond_expr: Box::new(cond_expr.model()),
                exprs: block_view(*exprs),
            },
            ExprAst::For { name, range, exprs } => ExprView::For {
                name: name@,
                start: range.start(),
                end: range.end(),
                exprs: block_view(*exprs),
            },
        }
    }
}

impl StmtAst {
    /// The statement that this tree stands for.
    pub open spec fn model(&self) -> StmtView
        decreases self,
    {
        match self {
            StmtAst::Expr(e) => StmtView::Expr(e.model()),
            StmtAst::Assignment { new, name, expr, types } => StmtView::Assignment {
                new: *new,
                name: name@,
                expr: expr.model(),
                types: match types {
                    Some(given) => Some(given.deep_view()),
                    None => None,
                },
            },
        }
    }
}

impl View for ExprAst {
    type V = ExprView;

    open spec fn view(&self) -> ExprView {
        self.model()
    }
}

impl View for StmtAst {
    type V = StmtView;

    open spec fn view(&self) -> StmtView {
        self.model()
    }
}

impl View for ModStmtAst {
    type V = DefinitionView;

    open spec fn view(&self) -> DefinitionView {
        match self {
            ModStmtAst::FunctionDef { name, args, exprs, return_type } => DefinitionView {
                name: name@,
                args: args_view(args@),
                exprs: block_view(*exprs),
                return_type: return_type.deep_view(),
            },
        }
    }
}

/// A definition of a program has no more arguments than a `usize` counts.
pub proof fn lemma_program_args_counted(defs: Seq<Box<ModStmtAst>>)
    ensures
        forall|k: int|
            0 <= k < program_view(defs).len() ==> (#[trigger] program_view(defs)[k]).args.len()
                <= usize::MAX,
{
    assert forall|k: int| 0 <= k < program_view(defs).len() implies (#[trigger] program_view(
        defs,
    )[k]).args.len() <= usize::MAX by {
        match *defs[k] {
            ModStmtAst::FunctionDef { name, args, exprs, return_type } => {
                assert(args_view(args@).len() == args.len());
            },
        }
    }
}

} // verus!
