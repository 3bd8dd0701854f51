//! The syntax tree, and its canonical printed form.
use vstd::prelude::*;
use crate::lexer::{Token, TokenModel, kind_name};
use crate::number::Number;
use crate::text::{chars_of, append_chars, copy_chars};

verus! {

/// A value of the language, as the program holds it.
#[derive(Clone, Debug, PartialEq)]
pub enum LiteralValue {
    Number(Number),
    Text(Vec<char>),
    Bool(bool),
    Nil,
}

/// A value of the language, as plain values.
pub enum Value {
    Number(Number),
    Text(Seq<char>),
    Bool(bool),
    Nil,
}

impl View for LiteralValue {
    type V = Value;

    open spec fn view(&self) -> Value {
        match self {
            LiteralValue::Number(n) => Value::Number(*n),
            LiteralValue::Text(t) => Value::Text(t@),
            LiteralValue::Bool(b) => Value::Bool(*b),
            LiteralValue::Nil => Value::Nil,
        }
    }
}

impl LiteralValue {
    /// A copy of this value.
    pub fn copied(&self) -> (r: LiteralValue)
        ensures
            r@ == self@,
    {
        match self {
            LiteralValue::Number(n) => LiteralValue::Number(*n),
            LiteralValue::Text(t) => LiteralValue::Text(copy_chars(t)),
            LiteralValue::Bool(b) => LiteralValue::Bool(*b),
            LiteralValue::Nil => LiteralValue::Nil,
        }
    }
}

#[derive(Debug)]
pub enum Expr {
    Assign { name: Token, value: Box<Expr> },
    Binary { left: Box<Expr>, operator: Token, right: Box<Expr> },
    Grouping { expression: Box<Expr> },
    Logical { left: Box<Expr>, operator: Token, right: Box<Expr> },
    Unary { operator: Token, right: Box<Expr> },
    Literal { value: LiteralValue },
    Variable { name: Token },
}

#[derive(Debug)]
pub enum Stmt {
    Block { statements: Vec<Stmt> },
    Expression { expression: Expr },
    If { condition: Expr, then_branch: Box<Stmt>, else_branch: Option<Box<Stmt>> },
    Print { expression: Expr },
    Var { name: Token, initializer: Expr },
}

/// An expression, as plain values.
pub enum ExprModel {
    Assign { name: TokenModel, value: Box<ExprModel> },
    Binary { left: Box<ExprModel>, operator: TokenModel, right: Box<ExprModel> },
    Grouping { expression: Box<ExprModel> },
    Logical { left: Box<ExprModel>, operator: TokenModel, right: Box<ExprModel> },
    Unary { operator: TokenModel, right: Box<ExprModel> },
    Literal { value: Value },
    Variable { name: TokenModel },
}

/// A statement, as plain values.
pub enum StmtModel {
    Block { statements: Seq<StmtModel> },
    Expression { expression: ExprModel },
    If { condition: ExprModel, then_branch: Box<StmtModel>, else_branch: Option<Box<StmtModel>> },
    Print { expression: ExprModel },
    Var { name: TokenModel, initializer: ExprModel },
}

pub open spec fn expr_view(e: Expr) -> ExprModel
    decreases e,
{
    match e {
        Expr::Assign { name, value } => ExprModel::Assign { name: name@, value: Box::new(expr_view(*value)) },
        Expr::Binary { left, operator, right } => ExprModel::Binary {
            left: Box::new(expr_view(*left)),
            operator: operator@,
            right: Box::new(expr_view(*right)),
        },
        Expr::Grouping { expression } => ExprModel::Grouping { expression: Box::new(expr_view(*expression)) },
        Expr::Logical { left, operator, right } => ExprModel::Logical {
            left: Box::new(expr_view(*left)),
            operator: operator@,
            right: Box::new(expr_view(*right)),
        },
        Expr::Unary { operator, right } => ExprModel::Unary { operator: operator@, right: Box::new(expr_view(*right)) },
        Expr::Literal { value } => ExprModel::Literal { value: value@ },
        Expr::Variable { name } => ExprModel::Variable { name: name@ },
    }
}

pub open spec fn stmt_view(s: Stmt) -> StmtModel
    decreases s, 0nat,
{
    match s {
        Stmt::Block { statements } => StmtModel::Block { statements: stmts_view(statements@, 0) },
        Stmt::Expression { expression } => StmtModel::Expression { expression: expr_view(expression) },
        Stmt::If { condition, then_branch, else_branch } => StmtModel::If {
            condition: expr_view(condition),
            then_branch: Box::new(stmt_view(*then_branch)),
            else_branch: match else_branch {
                Some(e) => Some(Box::new(stmt_view(*e))),
                None => None,
            },
        },
        Stmt::Print { expression } => StmtModel::Print { expression: expr_view(expression) },
        Stmt::Var { name, initializer } => StmtModel::Var { name: name@, initializer: expr_view(initializer) },
    }
}

/// The models of `ss[i..]`.
pub open spec fn stmts_view(ss: Seq<Stmt>, i: int) -> Seq<StmtModel>
    decreases ss, ss.len() - i,
{
    if 0 <= i < ss.len() {
        seq![stmt_view(ss[i])] + stmts_view(ss, i + 1)
    } else {
        Seq::empty()
    }
}

/// The models of `ss[j..]` are those of its statements, in order.
pub proof fn lemma_stmts_view_index(ss: Seq<Stmt>, j: int)
    requires
        0 <= j <= ss.len(),
    ensures
        stmts_view(ss, j).len() == ss.len() - j,
        forall|k: int| j <= k < ss.len() ==> #[trigger] stmts_view(ss, j)[k - j] == stmt_view(ss[k]),
    decreases ss.len() - j,
{
    if j < ss.len() {
        lemma_stmts_view_index(ss, j + 1);
        assert forall|k: int| j <= k < ss.len() implies #[trigger] stmts_view(ss, j)[k - j] == stmt_view(ss[k]) by {
            if k > j {
                assert(stmts_view(ss, j)[k - j] == stmts_view(ss, j + 1)[k - (j + 1)]);
            }
        }
    }
}

/// Appending a statement appends its model.
pub proof fn lemma_stmts_view_push(ss: Seq<Stmt>, x: Stmt, i: int)
    requires
        0 <= i <= ss.len(),
    ensures
        stmts_view(ss.push(x), i) == stmts_view(ss, i).push(stmt_view(x)),
    decreases ss.len() - i,
{
    if i < ss.len() {
        lemma_stmts_view_push(ss, x, i + 1);
        assert(ss.push(x)[i] == ss[i]);
        assert(seq![stmt_view(ss[i])] + stmts_view(ss, i + 1).push(stmt_view(x))
            =~= (seq![stmt_view(ss[i])] + stmts_view(ss, i + 1)).push(stmt_view(x)));
    } else {
        assert(stmts_view(ss.push(x), i + 1) =~= Seq::<StmtModel>::empty());
        assert(stmts_view(ss, i) =~= Seq::<StmtModel>::empty());
        assert(seq![stmt_view(x)] + Seq::<StmtModel>::empty() =~= Seq::<StmtModel>::empty().push(stmt_view(x)));
    }
}

/// The printed form of a value inside an expression: strings are quoted.
pub open spec fn literal_text(v: Value) -> Seq<char> {
    match v {
        Value::Number(n) => Number::text_spec(n),
        Value::Text(t) => "\""@ + t + "\""@,
        Value::Bool(b) => if b { "true"@ } else { "false"@ },
        Value::Nil => "nil"@,
    }
}

/// `(head a b)`.
pub open spec fn sexp2(head: Seq<char>, a: Seq<char>, b: Seq<char>) -> Seq<char> {
    "("@ + head + " "@ + a + " "@ + b + ")"@
}

/// `(head a)`.
pub open spec fn sexp1(head: Seq<char>, a: Seq<char>) -> Seq<char> {
    "("@ + head + " "@ + a + ")"@
}

/// The canonical printed form of an expression.
pub open spec fn expr_text(e: Expr) -> Seq<char>
    decreases e,
{
    match e {
        Expr::Assign { name, value } => sexp2("assign"@, name.lexeme@, expr_text(*value)),
        Expr::Binary { left, operator, right } => sexp2(
            kind_name(operator.token_type@),
            expr_text(*left),
            expr_text(*right),
        ),
        Expr::Grouping { expression } => sexp1("group"@, expr_text(*expression)),
        Expr::Logical { left, operator, right } => sexp2(
            operator.lexeme@,
            expr_text(*left),
            expr_text(*right),
        ),
        Expr::Unary { operator, right } => sexp1(operator.lexeme@, expr_text(*right)),
        Expr::Literal { value } => literal_text(value@),
        Expr::Variable { name } => name.lexeme@,
    }
}

/// The canonical printed form of a statement.
pub open spec fn stmt_text(s: Stmt) -> Seq<char>
    decreases s, 0nat,
{
    match s {
        Stmt::Block { statements } => "(block"@ + stmts_text(statements@, 0) + ")"@,
        Stmt::Expression { expression } => sexp1("expr_stmt"@, expr_text(expression)),
        Stmt::If { condition, then_branch, else_branch } => match else_branch {
            Some(e) => "(if "@ + expr_text(condition) + " "@ + stmt_text(*then_branch) + " "@
                + stmt_text(*e) + ")"@,
            None => sexp2("if"@, expr_text(condition), stmt_text(*then_branch)),
        },
        Stmt::Print { expression } => sexp1("print_stmt"@, expr_text(expression)),
        Stmt::Var { name, initializer } => sexp2("declare"@, name.lexeme@, expr_text(initializer)),
    }
}

/// The printed forms of `ss[i..]`, each after a space.
pub open spec fn stmts_text(ss: Seq<Stmt>, i: int) -> Seq<char>
    decreases ss, ss.len() - i,
{
    if 0 <= i < ss.len() {
        " "@ + stmt_text(ss[i]) + stmts_text(ss, i + 1)
    } else {
        Seq::empty()
    }
}

/// Prints syntax trees in their canonical form.
pub struct AstPrinter;

impl AstPrinter {
    pub fn print_expr(&self, e: &Expr) -> (r: Vec<char>)
        ensures
            r@ == expr_text(*e),
        decreases e,
    {
        match e {
            Expr::Assign { name, value } => {
                let a = self.print_expr(value);
                sexp2_exec("assign", &name.lexeme, &a)
            },
            Expr::Binary { left, operator, right } => {
                let a = self.print_expr(left);
                let b = self.print_expr(right);
                let head = operator.token_type.name();
                sexp2_exec_owned(head, &a, &b)
            },
            Expr::Grouping { expression } => {
                let a = self.print_expr(expression);
                sexp1_exec(chars_of("group"), &a)
            },
            Expr::Logical { left, operator, right } => {
                let a = self.print_expr(left);
                let b = self.print_expr(right);
                sexp2_exec_owned(copy_chars(&operator.lexeme), &a, &b)
            },
            Expr::Unary { operator, right } => {
                let a = self.print_expr(right);
                sexp1_exec(copy_chars(&operator.lexeme), &a)
            },
            Expr::Literal { value } => literal_text_exec(value),
            Expr::Variable { name } => copy_chars(&name.lexeme),
        }
    }

    pub fn print_stmt(&self, s: &Stmt) -> (r: Vec<char>)
        ensures
            r@ == stmt_text(*s),
        decreases s, 0nat,
    {
        match s {
            Stmt::Block { statements } => {
                let mut out = chars_of("(block");
                let rest = self.print_stmts(statements, 0);
                append_chars(&mut out, &rest);
                let close = chars_of(")");
                append_chars(&mut out, &close);
                out
            },
            Stmt::Expression { expression } => {
                let a = self.print_expr(expression);
                sexp1_exec(chars_of("expr_stmt"), &a)
            },
            Stmt::If { condition, then_branch, else_branch } => {
                let c = self.print_expr(condition);
                let t = self.print_stmt(then_branch);
                match else_branch {
                    Some(e) => {
                        let x = self.print_stmt(e);
                        let mut out = chars_of("(if ");
                        append_chars(&mut out, &c);
                        let sp = chars_of(" ");
                        append_chars(&mut out, &sp);
                        append_chars(&mut out, &t);
                        append_chars(&mut out, &sp);
                        append_chars(&mut out, &x);
                        let close = chars_of(")");
                        append_chars(&mut out, &close);
                        out
                    },
                    None => sexp2_exec_owned(chars_of("if"), &c, &t),
                }
            },
            Stmt::Print { expression } => {
                let a = self.print_expr(expression);
                sexp1_exec(chars_of("print_stmt"), &a)
            },
            Stmt::Var { name, initializer } => {
                let a = self.print_expr(initializer);
                sexp2_exec("declare", &name.lexeme, &a)
            },
        }
    }

    fn print_stmts(&self, ss: &Vec<Stmt>, i: usize) -> (r: Vec<char>)
        requires
            i <= ss@.len(),
        ensures
            r@ == stmts_text(ss@, i as int),
        decreases ss@, ss@.len() - i,
    {
        if i >= ss.len() {
            return Vec::new();
        }
        let mut out = chars_of(" ");
        let a = self.print_stmt(&ss[i]);
        append_chars(&mut out, &a);
        let rest = self.print_stmts(ss, i + 1);
        append_chars(&mut out, &rest);
        out
    }
}

fn sexp1_exec(head: Vec<char>, a: &Vec<char>) -> (r: Vec<char>)
    ensures
        r@ == sexp1(head@, a@),
{
    let mut out = chars_of("(");
    append_chars(&mut out, &head);
    let sp = chars_of(" ");
    append_chars(&mut out, &sp);
    append_chars(&mut out, a);
    let close = chars_of(")");
    append_chars(&mut out, &close);
    out
}

fn sexp2_exec_owned(head: Vec<char>, a: &Vec<char>, b: &Vec<char>) -> (r: Vec<char>)
    ensures
        r@ == sexp2(head@, a@, b@),
{
    let mut out = chars_of("(");
    append_chars(&mut out, &head);
    let sp = chars_of(" ");
    append_chars(&mut out, &sp);
    append_chars(&mut out, a);
    append_chars(&mut out, &sp);
    append_chars(&mut out, b);
    let close = chars_of(")");
    append_chars(&mut out, &close);
    out
}

fn sexp2_exec(head: &str, a: &Vec<char>, b: &Vec<char>) -> (r: Vec<char>)
    ensures
        r@ == sexp2(head@, a@, b@),
{
    sexp2_exec_owned(chars_of(head), a, b)
}

fn literal_text_exec(v: &LiteralValue) -> (r: Vec<char>)
    ensures
        r@ == literal_text(v@),
{
    match v {
        LiteralValue::Number(n) => n.to_text(),
        LiteralValue::Text(t) => {
            let mut out = chars_of("\"");
            append_chars(&mut out, t);
            let q = chars_of("\"");
            append_chars(&mut out, &q);
            out
        },
        LiteralValue::Bool(b) => if *b { chars_of("true") } else { chars_of("false") },
        LiteralValue::Nil => chars_of("nil"),
    }
}

} // verus!
