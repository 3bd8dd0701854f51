//! The evaluator: runs statements against a stack of scope frames.
use vstd::prelude::*;
use crate::ast::{Expr, ExprModel, LiteralValue, Stmt, StmtModel, Value, expr_view, stmt_view, stmts_view, lemma_stmts_view_index};
use crate::environment::{Environment, env_assign, env_define, env_lookup};
use crate::errors::{ErrorModel, InterpreterRuntimeError};
use crate::lexer::{Token, TokenKind, TokenModel, TokenType};
use crate::number::{Number, LIMIT};
use crate::text::{chars_of, append_chars, chars_eq, copy_chars};

verus! {

pub type Frames = Seq<Map<Seq<char>, Value>>;

/// The text that `print` writes for a value.
pub open spec fn display_text(v: Value) -> Seq<char> {
    match v {
        Value::Number(n) => Number::text_spec(n),
        Value::Text(t) => t,
        Value::Bool(b) => if b { "true"@ } else { "false"@ },
        Value::Nil => "nil"@,
    }
}

/// Equality of values: values of different kinds are never equal.
pub open spec fn values_equal(a: Value, b: Value) -> bool {
    match (a, b) {
        (Value::Number(x), Value::Number(y)) => Number::same_value(x, y),
        (Value::Text(x), Value::Text(y)) => x == y,
        (Value::Bool(x), Value::Bool(y)) => x == y,
        (Value::Nil, Value::Nil) => true,
        _ => false,
    }
}

/// Lexicographic order of texts, character by character.
pub open spec fn text_less(a: Seq<char>, b: Seq<char>) -> bool
    decreases a.len(),
{
    if a.len() == 0 {
        b.len() > 0
    } else if b.len() == 0 {
        false
    } else if a[0] != b[0] {
        a[0] < b[0]
    } else {
        text_less(a.drop_first(), b.drop_first())
    }
}

/// `t` written `n` times.
pub open spec fn repeat_text(t: Seq<char>, n: nat) -> Seq<char>
    decreases n,
{
    if n == 0 {
        Seq::empty()
    } else {
        repeat_text(t, (n - 1) as nat) + t
    }
}

/// Whether a value is exactly `true` or `false`.
pub open spec fn is_bool(v: Value, b: bool) -> bool {
    v == Value::Bool(b)
}

pub open spec fn error_at(message: Seq<char>, t: TokenModel) -> ErrorModel {
    ErrorModel { message, line: t.line, col: t.col }
}

pub open spec fn undefined_error(name: TokenModel) -> ErrorModel {
    error_at("The variable "@ + name.lexeme + " is not defined."@, name)
}

pub open spec fn operand_error(op: TokenModel) -> ErrorModel {
    error_at("Illegal use of "@ + op.lexeme + " between operands"@, op)
}

pub open spec fn range_error(op: TokenModel) -> ErrorModel {
    error_at("Number out of range"@, op)
}

pub open spec fn number_result(r: Option<Number>, op: TokenModel) -> Result<Value, ErrorModel> {
    match r {
        Some(n) => Ok(Value::Number(n)),
        None => Err(range_error(op)),
    }
}

/// What a unary operator gives on a value. `!` holds `nil` and `false` as
/// false and every other value as true.
pub open spec fn unary_result(op: TokenModel, v: Value) -> Result<Value, ErrorModel> {
    match (op.kind, v) {
        (TokenKind::Bang, Value::Bool(b)) => Ok(Value::Bool(!b)),
        (TokenKind::Bang, Value::Nil) => Ok(Value::Bool(true)),
        (TokenKind::Bang, _) => Ok(Value::Bool(false)),
        (TokenKind::Minus, Value::Number(n)) => Ok(Value::Number(Number::neg_spec(n))),
        _ => Err(error_at("Illegal use of "@ + op.lexeme + " for operand"@, op)),
    }
}

/// What a binary operator gives on two values.
pub open spec fn binary_result(op: TokenModel, l: Value, r: Value) -> Result<Value, ErrorModel> {
    match (op.kind, l, r) {
        (TokenKind::Minus, Value::Number(a), Value::Number(b)) => number_result(Number::sub_spec(a, b), op),
        (TokenKind::Slash, Value::Number(a), Value::Number(b)) => if b.numer() == 0 {
            Err(error_at("Division by zero"@, op))
        } else {
            number_result(Number::div_spec(a, b), op)
        },
        (TokenKind::Plus, Value::Number(a), Value::Number(b)) => number_result(Number::add_spec(a, b), op),
        (TokenKind::Plus, Value::Text(a), Value::Text(b)) => Ok(Value::Text(a + b)),
        (TokenKind::Star, Value::Number(a), Value::Number(b)) => number_result(Number::mul_spec(a, b), op),
        (TokenKind::Star, Value::Number(a), Value::Text(t)) => if Number::count_spec(a) * t.len() <= LIMIT {
            Ok(Value::Text(repeat_text(t, Number::count_spec(a) as nat)))
        } else {
            Err(error_at("Text too long"@, op))
        },
        (TokenKind::Greater, Value::Number(a), Value::Number(b)) => Ok(Value::Bool(Number::less(b, a))),
        (TokenKind::Greater, Value::Text(a), Value::Text(b)) => Ok(Value::Bool(text_less(b, a))),
        (TokenKind::GreaterEqual, Value::Number(a), Value::Number(b)) => Ok(Value::Bool(!Number::less(a, b))),
        (TokenKind::GreaterEqual, Value::Text(a), Value::Text(b)) => Ok(Value::Bool(!text_less(a, b))),
        (TokenKind::Less, Value::Number(a), Value::Number(b)) => Ok(Value::Bool(Number::less(a, b))),
        (TokenKind::Less, Value::Text(a), Value::Text(b)) => Ok(Value::Bool(text_less(a, b))),
        (TokenKind::LessEqual, Value::Number(a), Value::Number(b)) => Ok(Value::Bool(!Number::less(b, a))),
        (TokenKind::LessEqual, Value::Text(a), Value::Text(b)) => Ok(Value::Bool(!text_less(b, a))),
        (TokenKind::EqualEqual, _, _) => Ok(Value::Bool(values_equal(l, r))),
        (TokenKind::BangEqual, _, _) => Ok(Value::Bool(!values_equal(l, r))),
        _ => Err(operand_error(op)),
    }
}

/// The result of evaluating an expression: the frames after it, and its
/// value or the error that stopped it.
pub struct Eval {
    pub frames: Frames,
    pub result: Result<Value, ErrorModel>,
}

/// Evaluates `e` against `frames`, left operand first.
pub open spec fn eval(e: ExprModel, frames: Frames) -> Eval
    decreases e,
{
    match e {
        ExprModel::Literal { value } => Eval { frames, result: Ok(value) },
        ExprModel::Grouping { expression } => eval(*expression, frames),
        ExprModel::Variable { name } => match env_lookup(frames, name.lexeme) {
            Some(v) => Eval { frames, result: Ok(v) },
            None => Eval { frames, result: Err(undefined_error(name)) },
        },
        ExprModel::Assign { name, value } => {
            let inner = eval(*value, frames);
            match inner.result {
                Ok(v) => match env_assign(inner.frames, name.lexeme, v) {
                    Some(f) => Eval { frames: f, result: Ok(v) },
                    None => Eval { frames: inner.frames, result: Err(undefined_error(name)) },
                },
                Err(_) => inner,
            }
        },
        ExprModel::Unary { operator, right } => {
            let inner = eval(*right, frames);
            match inner.result {
                Ok(v) => Eval { frames: inner.frames, result: unary_result(operator, v) },
                Err(_) => inner,
            }
        },
        ExprModel::Binary { left, operator, right } => {
            let a = eval(*left, frames);
            match a.result {
                Ok(lv) => {
                    let b = eval(*right, a.frames);
                    match b.result {
                        Ok(rv) => Eval { frames: b.frames, result: binary_result(operator, lv, rv) },
                        Err(_) => b,
                    }
                },
                Err(_) => a,
            }
        },
        ExprModel::Logical { left, operator, right } => {
            let a = eval(*left, frames);
            match a.result {
                Ok(lv) => if operator.kind == TokenKind::Keyword("and"@) {
                    if is_bool(lv, false) {
                        a
                    } else {
                        eval(*right, a.frames)
                    }
                } else if operator.kind == TokenKind::Keyword("or"@) {
                    if is_bool(lv, true) {
                        a
                    } else {
                        eval(*right, a.frames)
                    }
                } else {
                    Eval {
                        frames: a.frames,
                        result: Err(error_at("Illegal use of logical "@ + operator.lexeme + " between operands"@, operator)),
                    }
                },
                Err(_) => a,
            }
        },
    }
}


/// `!` gives `true` on `nil` and `false`, and `false` on every number and
/// every text: only `nil` and `false` count as false.
pub proof fn lemma_bang_truthiness(op: TokenModel, v: Value)
    requires
        op.kind is Bang,
    ensures
        unary_result(op, v) == Ok::<Value, ErrorModel>(Value::Bool(
            match v {
                Value::Bool(b) => !b,
                Value::Nil => true,
                _ => false,
            },
        )),
{
}

/// `false and e` is `false` whatever `e` is, and `e` is not evaluated:
/// the frames are those after the left operand. Otherwise the result is
/// `e`'s, evaluated after the left operand.
pub proof fn lemma_and_short_circuit(left: ExprModel, op: TokenModel, right: ExprModel, frames: Frames)
    requires
        op.kind == TokenKind::Keyword("and"@),
        eval(left, frames).result is Ok,
    ensures
        eval(left, frames).result == Ok::<Value, ErrorModel>(Value::Bool(false)) ==>
            eval(ExprModel::Logical { left: Box::new(left), operator: op, right: Box::new(right) }, frames)
                == eval(left, frames),
        eval(left, frames).result != Ok::<Value, ErrorModel>(Value::Bool(false)) ==>
            eval(ExprModel::Logical { left: Box::new(left), operator: op, right: Box::new(right) }, frames)
                == eval(right, eval(left, frames).frames),
{
}

/// `true or e` is `true` whatever `e` is, and `e` is not evaluated.
/// Otherwise the result is `e`'s, evaluated after the left operand.
pub proof fn lemma_or_short_circuit(left: ExprModel, op: TokenModel, right: ExprModel, frames: Frames)
    requires
        op.kind == TokenKind::Keyword("or"@),
        eval(left, frames).result is Ok,
    ensures
        eval(left, frames).result == Ok::<Value, ErrorModel>(Value::Bool(true)) ==>
            eval(ExprModel::Logical { left: Box::new(left), operator: op, right: Box::new(right) }, frames)
                == eval(left, frames),
        eval(left, frames).result != Ok::<Value, ErrorModel>(Value::Bool(true)) ==>
            eval(ExprModel::Logical { left: Box::new(left), operator: op, right: Box::new(right) }, frames)
                == eval(right, eval(left, frames).frames),
{
    reveal_strlit("and");
    reveal_strlit("or");
    assert("and"@[0] != "or"@[0]);
    assert(TokenKind::Keyword("or"@) != TokenKind::Keyword("and"@));
}

proof fn lemma_unbound_not_assignable(frames: Frames, k: Seq<char>, v: Value)
    requires
        env_lookup(frames, k) is None,
    ensures
        env_assign(frames, k, v) is None,
    decreases frames.len(),
{
    if frames.len() > 0 {
        lemma_unbound_not_assignable(frames.drop_last(), k, v);
    }
}

/// Assigning to a name that no frame declares is a runtime error naming
/// it, after the value is evaluated; the frames stay as the value left them.
pub proof fn lemma_assign_undeclared(name: TokenModel, value: ExprModel, frames: Frames)
    requires
        eval(value, frames).result is Ok,
        env_lookup(eval(value, frames).frames, name.lexeme) is None,
    ensures
        eval(ExprModel::Assign { name, value: Box::new(value) }, frames)
            == (Eval { frames: eval(value, frames).frames, result: Err(undefined_error(name)) }),
{
    lemma_unbound_not_assignable(eval(value, frames).frames, name.lexeme, eval(value, frames).result->Ok_0);
}

/// The result of running statements: the frames after them, the lines
/// that `print` wrote, and the error that stopped them, if any.
pub struct Run {
    pub frames: Frames,
    pub output: Seq<Seq<char>>,
    pub result: Result<(), ErrorModel>,
}

/// The error of an `if` whose condition is not a boolean. Expressions keep
/// no position in the tree, so it reports line and column 0.
pub open spec fn condition_error() -> ErrorModel {
    ErrorModel { message: "If condition must evaluate to a boolean value"@, line: 0, col: 0 }
}

/// The condition of an `if` must be exactly `true` or `false`: any other
/// value is a runtime error and no branch runs, although `!` accepts the
/// same value.
pub proof fn lemma_if_condition_strict(
    condition: ExprModel,
    then_branch: StmtModel,
    else_branch: Option<Box<StmtModel>>,
    bang: TokenModel,
    frames: Frames,
    out: Seq<Seq<char>>,
)
    requires
        eval(condition, frames).result is Ok,
        !(eval(condition, frames).result->Ok_0 is Bool),
        bang.kind is Bang,
    ensures
        exec_stmt(StmtModel::If { condition, then_branch: Box::new(then_branch), else_branch }, frames, out)
            == (Run { frames: eval(condition, frames).frames, output: out, result: Err(condition_error()) }),
        unary_result(bang, eval(condition, frames).result->Ok_0) is Ok,
{
}

/// Printing `false and e` writes `false`, and printing `true or e` writes
/// `true`, whatever `e` is: `e` is never evaluated, so it can neither fail
/// nor change a frame.
pub proof fn lemma_print_short_circuit(
    left: ExprModel,
    op: TokenModel,
    right: ExprModel,
    frames: Frames,
    out: Seq<Seq<char>>,
    b: bool,
)
    requires
        op.kind == TokenKind::Keyword(if b { "or"@ } else { "and"@ }),
        eval(left, frames).result == Ok::<Value, ErrorModel>(Value::Bool(b)),
    ensures
        exec_stmt(
            StmtModel::Print { expression: ExprModel::Logical { left: Box::new(left), operator: op, right: Box::new(right) } },
            frames,
            out,
        ) == (Run { frames: eval(left, frames).frames, output: out.push(display_text(Value::Bool(b))), result: Ok(()) }),
{
    if b {
        lemma_or_short_circuit(left, op, right, frames);
    } else {
        lemma_and_short_circuit(left, op, right, frames);
    }
}

/// Runs one statement.
pub open spec fn exec_stmt(s: StmtModel, frames: Frames, out: Seq<Seq<char>>) -> Run
    decreases s, 0nat,
{
    match s {
        StmtModel::Expression { expression } => {
            let a = eval(expression, frames);
            match a.result {
                Ok(_) => Run { frames: a.frames, output: out, result: Ok(()) },
                Err(e) => Run { frames: a.frames, output: out, result: Err(e) },
            }
        },
        StmtModel::Print { expression } => {
            let a = eval(expression, frames);
            match a.result {
                Ok(v) => Run { frames: a.frames, output: out.push(display_text(v)), result: Ok(()) },
                Err(e) => Run { frames: a.frames, output: out, result: Err(e) },
            }
        },
        StmtModel::Var { name, initializer } => {
            let a = eval(initializer, frames);
            match a.result {
                Ok(v) => Run { frames: env_define(a.frames, name.lexeme, v), output: out, result: Ok(()) },
                Err(e) => Run { frames: a.frames, output: out, result: Err(e) },
            }
        },
        StmtModel::Block { statements } => {
            let r = exec_list(statements, 0, frames.push(Map::empty()), out);
            Run { frames: r.frames.drop_last(), output: r.output, result: r.result }
        },
        StmtModel::If { condition, then_branch, else_branch } => {
            let a = eval(condition, frames);
            match a.result {
                Ok(v) => if is_bool(v, true) {
                    exec_stmt(*then_branch, a.frames, out)
                } else if is_bool(v, false) {
                    match else_branch {
                        Some(e) => exec_stmt(*e, a.frames, out),
                        None => Run { frames: a.frames, output: out, result: Ok(()) },
                    }
                } else {
                    Run { frames: a.frames, output: out, result: Err(condition_error()) }
                },
                Err(e) => Run { frames: a.frames, output: out, result: Err(e) },
            }
        },
    }
}

/// Runs `ss[i..]` in order, stopping at the first error.
pub open spec fn exec_list(ss: Seq<StmtModel>, i: int, frames: Frames, out: Seq<Seq<char>>) -> Run
    decreases ss, ss.len() - i,
{
    if 0 <= i < ss.len() {
        let r = exec_stmt(ss[i], frames, out);
        match r.result {
            Ok(_) => exec_list(ss, i + 1, r.frames, r.output),
            Err(_) => r,
        }
    } else {
        Run { frames, output: out, result: Ok(()) }
    }
}

pub open spec fn value_result(r: Result<LiteralValue, InterpreterRuntimeError>) -> Result<Value, ErrorModel> {
    match r {
        Ok(v) => Ok(v@),
        Err(e) => Err(e@),
    }
}

pub open spec fn unit_result(r: Result<(), InterpreterRuntimeError>) -> Result<(), ErrorModel> {
    match r {
        Ok(_) => Ok(()),
        Err(e) => Err(e@),
    }
}

fn error_with(message: Vec<char>, t: &Token) -> (r: InterpreterRuntimeError)
    ensures
        r@ == error_at(message@, t@),
{
    InterpreterRuntimeError { message, line: t.line, col: t.col }
}

/// `a + b + c` for two fixed texts around a varying one.
fn framed(a: &str, b: &Vec<char>, c: &str) -> (r: Vec<char>)
    ensures
        r@ == a@ + b@ + c@,
{
    let mut out = chars_of(a);
    append_chars(&mut out, b);
    let tail = chars_of(c);
    append_chars(&mut out, &tail);
    out
}

fn text_less_exec(a: &Vec<char>, b: &Vec<char>) -> (r: bool)
    ensures
        r == text_less(a@, b@),
{
    let mut i: usize = 0;
    proof {
        assert(a@.skip(0) =~= a@);
        assert(b@.skip(0) =~= b@);
    }
    while i < a.len() && i < b.len() && a[i] == b[i]
        invariant
            i <= a@.len(),
            i <= b@.len(),
            text_less(a@.skip(i as int), b@.skip(i as int)) == text_less(a@, b@),
        decreases a@.len() - i,
    {
        proof {
            assert(a@.skip(i as int).drop_first() =~= a@.skip(i + 1));
            assert(b@.skip(i as int).drop_first() =~= b@.skip(i + 1));
        }
        i = i + 1;
    }
    proof {
        assert(a@.skip(i as int).len() == a@.len() - i);
        assert(b@.skip(i as int).len() == b@.len() - i);
        if i < a@.len() && i < b@.len() {
            assert(a@.skip(i as int)[0] == a@[i as int]);
            assert(b@.skip(i as int)[0] == b@[i as int]);
        }
    }
    if i == a.len() {
        i < b.len()
    } else if i == b.len() {
        false
    } else {
        a[i] < b[i]
    }
}

fn repeat_exec(t: &Vec<char>, n: u64) -> (r: Vec<char>)
    ensures
        r@ == repeat_text(t@, n as nat),
{
    let mut out: Vec<char> = Vec::new();
    let mut k: u64 = 0;
    while k < n
        invariant
            k <= n,
            out@ == repeat_text(t@, k as nat),
        decreases n - k,
    {
        append_chars(&mut out, t);
        k = k + 1;
    }
    out
}

fn number_or_error(r: Option<Number>, op: &Token) -> (res: Result<LiteralValue, InterpreterRuntimeError>)
    ensures
        value_result(res) == number_result(r, op@),
{
    match r {
        Some(n) => Ok(LiteralValue::Number(n)),
        None => Err(error_with(chars_of("Number out of range"), op)),
    }
}

fn values_equal_exec(a: &LiteralValue, b: &LiteralValue) -> (r: bool)
    ensures
        r == values_equal(a@, b@),
{
    match (a, b) {
        (LiteralValue::Number(x), LiteralValue::Number(y)) => x.equals(y),
        (LiteralValue::Text(x), LiteralValue::Text(y)) => chars_eq(x, y),
        (LiteralValue::Bool(x), LiteralValue::Bool(y)) => *x == *y,
        (LiteralValue::Nil, LiteralValue::Nil) => true,
        _ => false,
    }
}

/// Applies a unary operator.
pub fn unary_op(op: &Token, v: LiteralValue) -> (r: Result<LiteralValue, InterpreterRuntimeError>)
    ensures
        value_result(r) == unary_result(op@, v@),
{
    match (&op.token_type, &v) {
        (TokenType::Bang, LiteralValue::Bool(b)) => Ok(LiteralValue::Bool(!*b)),
        (TokenType::Bang, LiteralValue::Nil) => Ok(LiteralValue::Bool(true)),
        (TokenType::Bang, _) => Ok(LiteralValue::Bool(false)),
        (TokenType::Minus, LiteralValue::Number(n)) => Ok(LiteralValue::Number(n.neg())),
        _ => Err(error_with(framed("Illegal use of ", &op.lexeme, " for operand"), op)),
    }
}

/// Applies a binary operator.
pub fn binary_op(op: &Token, l: LiteralValue, r: LiteralValue) -> (res: Result<LiteralValue, InterpreterRuntimeError>)
    ensures
        value_result(res) == binary_result(op@, l@, r@),
{
    match (&op.token_type, &l, &r) {
        (TokenType::Minus, LiteralValue::Number(a), LiteralValue::Number(b)) => number_or_error(a.sub(b), op),
        (TokenType::Slash, LiteralValue::Number(a), LiteralValue::Number(b)) => {
            if b.is_zero() {
                Err(error_with(chars_of("Division by zero"), op))
            } else {
                number_or_error(a.div(b), op)
            }
        },
        (TokenType::Plus, LiteralValue::Number(a), LiteralValue::Number(b)) => number_or_error(a.add(b), op),
        (TokenType::Plus, LiteralValue::Text(a), LiteralValue::Text(b)) => {
            let mut t = copy_chars(a);
            append_chars(&mut t, b);
            Ok(LiteralValue::Text(t))
        },
        (TokenType::Star, LiteralValue::Number(a), LiteralValue::Number(b)) => number_or_error(a.mul(b), op),
        (TokenType::Star, LiteralValue::Number(a), LiteralValue::Text(t)) => {
            let count = a.repeat_count();
            let len = t.len() as u64;
            if len == 0 || count <= (LIMIT as u64) / len {
                proof {
                    if len > 0 {
                        assert(count * len <= LIMIT) by (nonlinear_arith)
                            requires count <= (LIMIT as u64) / len, len > 0;
                    }
                }
                Ok(LiteralValue::Text(repeat_exec(t, count)))
            } else {
                proof {
                    assert(count * len > LIMIT) by (nonlinear_arith)
                        requires count > (LIMIT as u64) / len, len > 0;
                }
                Err(error_with(chars_of("Text too long"), op))
            }
        },
        (TokenType::Greater, LiteralValue::Number(a), LiteralValue::Number(b)) => Ok(LiteralValue::Bool(b.less_than(a))),
        (TokenType::Greater, LiteralValue::Text(a), LiteralValue::Text(b)) => Ok(LiteralValue::Bool(text_less_exec(b, a))),
        (TokenType::GreaterEqual, LiteralValue::Number(a), LiteralValue::Number(b)) => Ok(LiteralValue::Bool(!a.less_than(b))),
        (TokenType::GreaterEqual, LiteralValue::Text(a), LiteralValue::Text(b)) => Ok(LiteralValue::Bool(!text_less_exec(a, b))),
        (TokenType::Less, LiteralValue::Number(a), LiteralValue::Number(b)) => Ok(LiteralValue::Bool(a.less_than(b))),
        (TokenType::Less, LiteralValue::Text(a), LiteralValue::Text(b)) => Ok(LiteralValue::Bool(text_less_exec(a, b))),
        (TokenType::LessEqual, LiteralValue::Number(a), LiteralValue::Number(b)) => Ok(LiteralValue::Bool(!b.less_than(a))),
        (TokenType::LessEqual, LiteralValue::Text(a), LiteralValue::Text(b)) => Ok(LiteralValue::Bool(!text_less_exec(b, a))),
        (TokenType::EqualEqual, _, _) => Ok(LiteralValue::Bool(values_equal_exec(&l, &r))),
        (TokenType::BangEqual, _, _) => Ok(LiteralValue::Bool(!values_equal_exec(&l, &r))),
        _ => Err(error_with(framed("Illegal use of ", &op.lexeme, " between operands"), op)),
    }
}


/// Runs programs. The frames live as long as the interpreter, so a second
/// program sees what the first one declared.
pub struct AstInterpreter {
    environment: Environment,
    output: Vec<Vec<char>>,
}

impl AstInterpreter {
    pub closed spec fn wf(&self) -> bool {
        self.environment.wf()
    }

    /// The scope frames, outermost first.
    pub closed spec fn frames(&self) -> Frames {
        self.environment@
    }

    /// The lines written by `print` and not yet taken.
    pub closed spec fn output(&self) -> Seq<Seq<char>> {
        self.output@.map_values(|l: Vec<char>| l@)
    }

    pub fn new() -> (r: Self)
        ensures
            r.wf(),
            r.frames() == seq![Map::<Seq<char>, Value>::empty()],
            r.output() == Seq::<Seq<char>>::empty(),
    {
        let r = AstInterpreter { environment: Environment::new(), output: Vec::new() };
        proof {
            assert(r.output() =~= Seq::<Seq<char>>::empty());
        }
        r
    }

    pub fn from_environment(env: Environment) -> (r: Self)
        requires
            env.wf(),
        ensures
            r.wf(),
            r.frames() == env@,
            r.output() == Seq::<Seq<char>>::empty(),
    {
        let r = AstInterpreter { environment: env, output: Vec::new() };
        proof {
            assert(r.output() =~= Seq::<Seq<char>>::empty());
        }
        r
    }

    /// Hands over the lines written so far, and forgets them.
    pub fn take_output(&mut self) -> (r: Vec<Vec<char>>)
        requires
            old(self).wf(),
        ensures
            final(self).wf(),
            r@.map_values(|l: Vec<char>| l@) == old(self).output(),
            final(self).output() == Seq::<Seq<char>>::empty(),
            final(self).frames() == old(self).frames(),
    {
        let mut out: Vec<Vec<char>> = Vec::new();
        std::mem::swap(&mut out, &mut self.output);
        proof {
            assert(self.output() =~= Seq::<Seq<char>>::empty());
        }
        out
    }

    fn evaluate(&mut self, expression: &Expr) -> (r: Result<LiteralValue, InterpreterRuntimeError>)
        requires
            old(self).wf(),
        ensures
            final(self).wf(),
            final(self).frames() == eval(expr_view(*expression), old(self).frames()).frames,
            final(self).frames().len() == old(self).frames().len(),
            final(self).output() == old(self).output(),
            value_result(r) == eval(expr_view(*expression), old(self).frames()).result,
        decreases expression,
    {
        match expression {
            Expr::Literal { value } => Ok(value.copied()),
            Expr::Grouping { expression } => self.evaluate(expression),
            Expr::Variable { name } => match self.environment.get(&name.lexeme) {
                Some(v) => Ok(v.copied()),
                None => Err(error_with(framed("The variable ", &name.lexeme, " is not defined."), name)),
            },
            Expr::Assign { name, value } => {
                let v = self.evaluate(value)?;
                match self.environment.assign(&name.lexeme, v) {
                    Ok(v) => Ok(v),
                    Err(_) => Err(error_with(framed("The variable ", &name.lexeme, " is not defined."), name)),
                }
            },
            Expr::Unary { operator, right } => {
                let v = self.evaluate(right)?;
                unary_op(operator, v)
            },
            Expr::Binary { left, operator, right } => {
                let lv = self.evaluate(left)?;
                let rv = self.evaluate(right)?;
                binary_op(operator, lv, rv)
            },
            Expr::Logical { left, operator, right } => {
                let lv = self.evaluate(left)?;
                if operator.token_type.is_keyword_named("and") {
                    match lv {
                        LiteralValue::Bool(false) => Ok(lv),
                        _ => self.evaluate(right),
                    }
                } else if operator.token_type.is_keyword_named("or") {
                    match lv {
                        LiteralValue::Bool(true) => Ok(lv),
                        _ => self.evaluate(right),
                    }
                } else {
                    Err(error_with(framed("Illegal use of logical ", &operator.lexeme, " between operands"), operator))
                }
            },
        }
    }

    fn execute(&mut self, statement: &Stmt) -> (r: Result<(), InterpreterRuntimeError>)
        requires
            old(self).wf(),
        ensures
            final(self).wf(),
            final(self).frames() == exec_stmt(stmt_view(*statement), old(self).frames(), old(self).output()).frames,
            final(self).output() == exec_stmt(stmt_view(*statement), old(self).frames(), old(self).output()).output,
            final(self).frames().len() == old(self).frames().len(),
            unit_result(r) == exec_stmt(stmt_view(*statement), old(self).frames(), old(self).output()).result,
        decreases statement, 0nat,
    {
        match statement {
            Stmt::Expression { expression } => {
                self.evaluate(expression)?;
                Ok(())
            },
            Stmt::Print { expression } => {
                let v = self.evaluate(expression)?;
                let line = match &v {
                    LiteralValue::Number(n) => n.to_text(),
                    LiteralValue::Text(t) => copy_chars(t),
                    LiteralValue::Bool(b) => if *b { chars_of("true") } else { chars_of("false") },
                    LiteralValue::Nil => chars_of("nil"),
                };
                let ghost before = self.output();
                self.output.push(line);
                proof {
                    assert(self.output() =~= before.push(display_text(v@)));
                }
                Ok(())
            },
            Stmt::Var { name, initializer } => {
                let v = self.evaluate(initializer)?;
                self.environment.define(copy_chars(&name.lexeme), v);
                Ok(())
            },
            Stmt::Block { statements } => self.block(statements),
            Stmt::If { condition, then_branch, else_branch } => {
                let c = self.evaluate(condition)?;
                match c {
                    LiteralValue::Bool(true) => self.execute(then_branch),
                    LiteralValue::Bool(false) => match else_branch {
                        Some(e) => self.execute(e),
                        None => Ok(()),
                    },
                    _ => Err(InterpreterRuntimeError {
                        message: chars_of("If condition must evaluate to a boolean value"),
                        line: 0,
                        col: 0,
                    }),
                }
            },
        }
    }

    /// Runs `ss[i..]` in the current frames.
    fn execute_list(&mut self, ss: &Vec<Stmt>, i: usize) -> (r: Result<(), InterpreterRuntimeError>)
        requires
            old(self).wf(),
            i <= ss@.len(),
        ensures
            final(self).wf(),
            final(self).frames() == exec_list(stmts_view(ss@, 0), i as int, old(self).frames(), old(self).output()).frames,
            final(self).output() == exec_list(stmts_view(ss@, 0), i as int, old(self).frames(), old(self).output()).output,
            final(self).frames().len() == old(self).frames().len(),
            unit_result(r) == exec_list(stmts_view(ss@, 0), i as int, old(self).frames(), old(self).output()).result,
        decreases ss@, ss@.len() - i,
    {
        proof {
            lemma_stmts_view_index(ss@, 0);
        }
        if i >= ss.len() {
            return Ok(());
        }
        proof {
            assert(stmts_view(ss@, 0)[i - 0] == stmt_view(ss@[i as int]));
        }
        self.execute(&ss[i])?;
        self.execute_list(ss, i + 1)
    }

    /// Runs statements in a new innermost frame, which is removed again
    /// whether they succeed or fail.
    fn block(&mut self, statements: &Vec<Stmt>) -> (r: Result<(), InterpreterRuntimeError>)
        requires
            old(self).wf(),
        ensures
            final(self).wf(),
            final(self).frames() == exec_list(stmts_view(statements@, 0), 0, old(self).frames().push(Map::empty()), old(self).output()).frames.drop_last(),
            final(self).output() == exec_list(stmts_view(statements@, 0), 0, old(self).frames().push(Map::empty()), old(self).output()).output,
            final(self).frames().len() == old(self).frames().len(),
            unit_result(r) == exec_list(stmts_view(statements@, 0), 0, old(self).frames().push(Map::empty()), old(self).output()).result,
        decreases statements@, statements@.len() + 1,
    {
        proof {
            self.environment.lemma_wf();
        }
        self.environment.create_new_scope();
        let r = self.execute_list(statements, 0);
        self.environment.delete_most_recent_scope();
        r
    }

    /// Runs statements in a new innermost frame, which is removed again
    /// whether they succeed or fail.
    pub fn execute_block(&mut self, statements: &Vec<Stmt>) -> (r: Result<(), InterpreterRuntimeError>)
        requires
            old(self).wf(),
        ensures
            final(self).wf(),
            final(self).frames() == exec_stmt(stmt_view(Stmt::Block { statements: *statements }), old(self).frames(), old(self).output()).frames,
            final(self).output() == exec_stmt(stmt_view(Stmt::Block { statements: *statements }), old(self).frames(), old(self).output()).output,
            unit_result(r) == exec_stmt(stmt_view(Stmt::Block { statements: *statements }), old(self).frames(), old(self).output()).result,
            final(self).frames().len() == old(self).frames().len(),
    {
        self.block(statements)
    }

    /// Runs a program: its statements in order, stopping at the first
    /// runtime error.
    pub fn interpret(&mut self, statements: &Vec<Stmt>) -> (r: Result<(), InterpreterRuntimeError>)
        requires
            old(self).wf(),
        ensures
            final(self).wf(),
            final(self).frames() == exec_list(stmts_view(statements@, 0), 0, old(self).frames(), old(self).output()).frames,
            final(self).output() == exec_list(stmts_view(statements@, 0), 0, old(self).frames(), old(self).output()).output,
            unit_result(r) == exec_list(stmts_view(statements@, 0), 0, old(self).frames(), old(self).output()).result,
    {
        self.execute_list(statements, 0)
    }

    /// Runs one statement.
    pub fn run_statement(&mut self, statement: &Stmt) -> (r: Result<(), InterpreterRuntimeError>)
        requires
            old(self).wf(),
        ensures
            final(self).wf(),
            final(self).frames() == exec_stmt(stmt_view(*statement), old(self).frames(), old(self).output()).frames,
            final(self).output() == exec_stmt(stmt_view(*statement), old(self).frames(), old(self).output()).output,
            unit_result(r) == exec_stmt(stmt_view(*statement), old(self).frames(), old(self).output()).result,
    {
        self.execute(statement)
    }
}

} // verus!
