//! The statement and expression trees that the pass analyses, together with
//! their mathematical views.
//!
//! The executable types mirror the shape the upstream front end produces:
//! every node carries a [`Meta`] with a stable `elem_id`, a source range, an
//! optional file id, and the type-reduction tag computed by an earlier pass.
//! The ghost mirrors (`StmtV`, `ExprV`, ...) replace `Vec` by `Seq`, `String`
//! by `Seq<char>` and erase the boxes, so contracts can speak about trees as
//! plain mathematical values.

use vstd::prelude::*;

verus! {

/// What an identifier occurrence reduces to, as computed by the upstream
/// type-reduction pass.
#[derive(Clone, Copy, PartialEq, Eq, Structural, Debug)]
pub enum TypeReduction {
    Variable,
    Signal,
    Component,
    Tag,
}

/// The declared kind of a symbol.
#[derive(Clone, Copy, PartialEq, Eq, Structural, Debug)]
pub enum VariableType {
    Var,
    Signal,
    Component,
    AnonymousComponent,
}

/// Node metadata: a stable element id (unique within one body when the
/// upstream invariants hold), the source range, the file the node comes
/// from, and the type-reduction tag of the node.
#[derive(Clone, Copy, PartialEq, Eq, Structural, Debug)]
pub struct Meta {
    pub elem_id: usize,
    pub start: usize,
    pub end: usize,
    pub file_id: Option<usize>,
    pub reduces_to: TypeReduction,
}

/// One step of an access path on the left or right of a substitution.
pub enum Access {
    ArrayAccess(Expression),
    ComponentAccess(String),
}

/// The expression shapes the analysis distinguishes.
pub enum Expression {
    Number(Meta),
    Variable { meta: Meta, name: String, access: Vec<Access> },
    InfixOp { meta: Meta, lhe: Box<Expression>, rhe: Box<Expression> },
    PrefixOp { meta: Meta, rhe: Box<Expression> },
    InlineSwitchOp {
        meta: Meta,
        cond: Box<Expression>,
        if_true: Box<Expression>,
        if_false: Box<Expression>,
    },
    ParallelOp { meta: Meta, rhe: Box<Expression> },
    Call { meta: Meta, id: String, args: Vec<Expression> },
    AnonymousComp {
        meta: Meta,
        id: String,
        params: Vec<Expression>,
        signals: Vec<Expression>,
    },
    ArrayInLine { meta: Meta, values: Vec<Expression> },
    Tuple { meta: Meta, values: Vec<Expression> },
    UniformArray { meta: Meta, value: Box<Expression>, dimension: Box<Expression> },
}

/// An argument of a log statement: either a string literal or an expression.
pub enum LogArgument {
    LogStr(String),
    LogExp(Expression),
}

/// The statement shapes the analysis distinguishes.
pub enum Statement {
    Block { meta: Meta, stmts: Vec<Statement> },
    IfThenElse {
        meta: Meta,
        cond: Expression,
        if_case: Box<Statement>,
        else_case: Option<Box<Statement>>,
    },
    While { meta: Meta, cond: Expression, stmt: Box<Statement> },
    Return { meta: Meta, value: Expression },
    InitializationBlock { meta: Meta, initializations: Vec<Statement> },
    Declaration { meta: Meta, xtype: VariableType, name: String, is_constant: bool },
    Substitution {
        meta: Meta,
        var: String,
        access: Vec<Access>,
        rhe: Expression,
        is_artificial: bool,
    },
    UnderscoreSubstitution { meta: Meta, rhe: Expression },
    ConstraintEquality { meta: Meta, lhe: Expression, rhe: Expression },
    LogCall { meta: Meta, args: Vec<LogArgument> },
    Assert { meta: Meta, arg: Expression },
}

/// Mathematical view of an access step.
pub enum AccessV {
    ArrayAccess(ExprV),
    ComponentAccess(Seq<char>),
}

/// Mathematical view of an expression.
pub enum ExprV {
    Number(Meta),
    Variable { meta: Meta, name: Seq<char>, access: Seq<AccessV> },
    InfixOp { meta: Meta, lhe: Box<ExprV>, rhe: Box<ExprV> },
    PrefixOp { meta: Meta, rhe: Box<ExprV> },
    InlineSwitchOp { meta: Meta, cond: Box<ExprV>, if_true: Box<ExprV>, if_false: Box<ExprV> },
    ParallelOp { meta: Meta, rhe: Box<ExprV> },
    Call { meta: Meta, id: Seq<char>, args: Seq<ExprV> },
    AnonymousComp { meta: Meta, id: Seq<char>, params: Seq<ExprV>, signals: Seq<ExprV> },
    ArrayInLine { meta: Meta, values: Seq<ExprV> },
    Tuple { meta: Meta, values: Seq<ExprV> },
    UniformArray { meta: Meta, value: Box<ExprV>, dimension: Box<ExprV> },
}

/// Mathematical view of a log argument.
pub enum LogArgV {
    LogStr(Seq<char>),
    LogExp(ExprV),
}

/// Mathematical view of a statement.
pub enum StmtV {
    Block { meta: Meta, stmts: Seq<StmtV> },
    IfThenElse { meta: Meta, cond: ExprV, if_case: Box<StmtV>, else_case: Option<Box<StmtV>> },
    While { meta: Meta, cond: ExprV, stmt: Box<StmtV> },
    Return { meta: Meta, value: ExprV },
    InitializationBlock { meta: Meta, initializations: Seq<StmtV> },
    Declaration { meta: Meta, xtype: VariableType, name: Seq<char>, is_constant: bool },
    Substitution {
        meta: Meta,
        var: Seq<char>,
        access: Seq<AccessV>,
        rhe: ExprV,
        is_artificial: bool,
    },
    UnderscoreSubstitution { meta: Meta, rhe: ExprV },
    ConstraintEquality { meta: Meta, lhe: ExprV, rhe: ExprV },
    LogCall { meta: Meta, args: Seq<LogArgV> },
    Assert { meta: Meta, arg: ExprV },
}

pub open spec fn view_access(a: Access) -> AccessV
    decreases a,
{
    match a {
        Access::ArrayAccess(e) => AccessV::ArrayAccess(view_expr(e)),
        Access::ComponentAccess(s) => AccessV::ComponentAccess(s@),
    }
}

pub open spec fn view_access_seq(s: Seq<Access>) -> Seq<AccessV>
    decreases s,
{
    if s.len() == 0 {
        Seq::empty()
    } else {
        view_access_seq(s.drop_last()).push(view_access(s.last()))
    }
}

pub open spec fn view_expr_seq(s: Seq<Expression>) -> Seq<ExprV>
    decreases s,
{
    if s.len() == 0 {
        Seq::empty()
    } else {
        view_expr_seq(s.drop_last()).push(view_expr(s.last()))
    }
}

pub open spec fn view_expr(e: Expression) -> ExprV
    decreases e,
{
    match e {
        Expression::Number(meta) => ExprV::Number(meta),
        Expression::Variable { meta, name, access } => ExprV::Variable {
            meta,
            name: name@,
            access: view_access_seq(access@),
        },
        Expression::InfixOp { meta, lhe, rhe } => ExprV::InfixOp {
            meta,
            lhe: Box::new(view_expr(*lhe)),
            rhe: Box::new(view_expr(*rhe)),
        },
        Expression::PrefixOp { meta, rhe } => ExprV::PrefixOp {
            meta,
            rhe: Box::new(view_expr(*rhe)),
        },
        Expression::InlineSwitchOp { meta, cond, if_true, if_false } => ExprV::InlineSwitchOp {
            meta,
            cond: Box::new(view_expr(*cond)),
            if_true: Box::new(view_expr(*if_true)),
            if_false: Box::new(view_expr(*if_false)),
        },
        Expression::ParallelOp { meta, rhe } => ExprV::ParallelOp {
            meta,
            rhe: Box::new(view_expr(*rhe)),
        },
        Expression::Call { meta, id, args } => ExprV::Call {
            meta,
            id: id@,
            args: view_expr_seq(args@),
        },
        Expression::AnonymousComp { meta, id, params, signals } => ExprV::AnonymousComp {
            meta,
            id: id@,
            params: view_expr_seq(params@),
            signals: view_expr_seq(signals@),
        },
        Expression::ArrayInLine { meta, values } => ExprV::ArrayInLine {
            meta,
            values: view_expr_seq(values@),
        },
        Expression::Tuple { meta, values } => ExprV::Tuple {
            meta,
            values: view_expr_seq(values@),
        },
        Expression::UniformArray { meta, value, dimension } => ExprV::UniformArray {
            meta,
            value: Box::new(view_expr(*value)),
            dimension: Box::new(view_expr(*dimension)),
        },
    }
}

pub open spec fn view_logarg(a: LogArgument) -> LogArgV
    decreases a,
{
    match a {
        LogArgument::LogStr(s) => LogArgV::LogStr(s@),
        LogArgument::LogExp(e) => LogArgV::LogExp(view_expr(e)),
    }
}

pub open spec fn view_logarg_seq(s: Seq<LogArgument>) -> Seq<LogArgV>
    decreases s,
{
    if s.len() == 0 {
        Seq::empty()
    } else {
        view_logarg_seq(s.drop_last()).push(view_logarg(s.last()))
    }
}

pub open spec fn view_stmt_seq(s: Seq<Statement>) -> Seq<StmtV>
    decreases s,
{
    if s.len() == 0 {
        Seq::empty()
    } else {
        view_stmt_seq(s.drop_last()).push(view_stmt(s.last()))
    }
}

pub open spec fn view_stmt(s: Statement) -> StmtV
    decreases s,
{
    match s {
        Statement::Block { meta, stmts } => StmtV::Block { meta, stmts: view_stmt_seq(stmts@) },
        Statement::IfThenElse { meta, cond, if_case, else_case } => StmtV::IfThenElse {
            meta,
            cond: view_expr(cond),
            if_case: Box::new(view_stmt(*if_case)),
            else_case: match else_case {
                Some(e) => Some(Box::new(view_stmt(*e))),
                None => None,
            },
        },
        Statement::While { meta, cond, stmt } => StmtV::While {
            meta,
            cond: view_expr(cond),
            stmt: Box::new(view_stmt(*stmt)),
        },
        Statement::Return { meta, value } => StmtV::Return { meta, value: view_expr(value) },
        Statement::InitializationBlock { meta, initializations } => StmtV::InitializationBlock {
            meta,
            initializations: view_stmt_seq(initializations@),
        },
        Statement::Declaration { meta, xtype, name, is_constant } => StmtV::Declaration {
            meta,
            xtype,
            name: name@,
            is_constant,
        },
        Statement::Substitution { meta, var, access, rhe, is_artificial } => StmtV::Substitution {
            meta,
            var: var@,
            access: view_access_seq(access@),
            rhe: view_expr(rhe),
            is_artificial,
        },
        Statement::UnderscoreSubstitution { meta, rhe } => StmtV::UnderscoreSubstitution {
            meta,
            rhe: view_expr(rhe),
        },
        Statement::ConstraintEquality { meta, lhe, rhe } => StmtV::ConstraintEquality {
            meta,
            lhe: view_expr(lhe),
            rhe: view_expr(rhe),
        },
        Statement::LogCall { meta, args } => StmtV::LogCall {
            meta,
            args: view_logarg_seq(args@),
        },
        Statement::Assert { meta, arg } => StmtV::Assert { meta, arg: view_expr(arg) },
    }
}

impl View for Access {
    type V = AccessV;

    open spec fn view(&self) -> AccessV {
        view_access(*self)
    }
}

impl View for Expression {
    type V = ExprV;

    open spec fn view(&self) -> ExprV {
        view_expr(*self)
    }
}

impl View for LogArgument {
    type V = LogArgV;

    open spec fn view(&self) -> LogArgV {
        view_logarg(*self)
    }
}

impl View for Statement {
    type V = StmtV;

    open spec fn view(&self) -> StmtV {
        view_stmt(*self)
    }
}

/// The views of a sequence of statements are the views of its elements.
pub broadcast proof fn lemma_view_stmt_seq_index(s: Seq<Statement>, i: int)
    requires
        0 <= i < s.len(),
    ensures
        #[trigger] view_stmt_seq(s)[i] == view_stmt(s[i]),
        view_stmt_seq(s).len() == s.len(),
    decreases s,
{
    if s.len() > 0 {
        if i < s.len() - 1 {
            lemma_view_stmt_seq_index(s.drop_last(), i);
        } else {
            lemma_view_stmt_seq_len(s.drop_last());
        }
    }
}

/// The views of a sequence of expressions are the views of its elements.
pub broadcast proof fn lemma_view_expr_seq_index(s: Seq<Expression>, i: int)
    requires
        0 <= i < s.len(),
    ensures
        #[trigger] view_expr_seq(s)[i] == view_expr(s[i]),
        view_expr_seq(s).len() == s.len(),
    decreases s,
{
    if s.len() > 0 {
        if i < s.len() - 1 {
            lemma_view_expr_seq_index(s.drop_last(), i);
        } else {
            lemma_view_expr_seq_len(s.drop_last());
        }
    }
}

/// An expression sequence and its view have the same length.
pub broadcast proof fn lemma_view_expr_seq_len(s: Seq<Expression>)
    ensures
        #[trigger] view_expr_seq(s).len() == s.len(),
    decreases s,
{
    if s.len() > 0 {
        lemma_view_expr_seq_len(s.drop_last());
    }
}

/// The views of a sequence of access steps are the views of its elements.
pub broadcast proof fn lemma_view_access_seq_index(s: Seq<Access>, i: int)
    requires
        0 <= i < s.len(),
    ensures
        #[trigger] view_access_seq(s)[i] == view_access(s[i]),
        view_access_seq(s).len() == s.len(),
    decreases s,
{
    if s.len() > 0 {
        if i < s.len() - 1 {
            lemma_view_access_seq_index(s.drop_last(), i);
        } else {
            lemma_view_access_seq_len(s.drop_last());
        }
    }
}

/// An access sequence and its view have the same length.
pub broadcast proof fn lemma_view_access_seq_len(s: Seq<Access>)
    ensures
        #[trigger] view_access_seq(s).len() == s.len(),
    decreases s,
{
    if s.len() > 0 {
        lemma_view_access_seq_len(s.drop_last());
    }
}

/// The views of a sequence of log arguments are the views of its elements.
pub broadcast proof fn lemma_view_logarg_seq_index(s: Seq<LogArgument>, i: int)
    requires
        0 <= i < s.len(),
    ensures
        #[trigger] view_logarg_seq(s)[i] == view_logarg(s[i]),
        view_logarg_seq(s).len() == s.len(),
    decreases s,
{
    if s.len() > 0 {
        if i < s.len() - 1 {
            lemma_view_logarg_seq_index(s.drop_last(), i);
        } else {
            lemma_view_logarg_seq_len(s.drop_last());
        }
    }
}

/// A log-argument sequence and its view have the same length.
pub broadcast proof fn lemma_view_logarg_seq_len(s: Seq<LogArgument>)
    ensures
        #[trigger] view_logarg_seq(s).len() == s.len(),
    decreases s,
{
    if s.len() > 0 {
        lemma_view_logarg_seq_len(s.drop_last());
    }
}

/// A statement sequence and its view have the same length.
pub broadcast proof fn lemma_view_stmt_seq_len(s: Seq<Statement>)
    ensures
        #[trigger] view_stmt_seq(s).len() == s.len(),
    decreases s,
{
    if s.len() > 0 {
        lemma_view_stmt_seq_len(s.drop_last());
    }
}

} // verus!
