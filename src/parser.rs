//! The parser: recursive descent over a token sequence, with recovery so
//! that one pass reports every malformed declaration.
use vstd::prelude::*;
use crate::ast::{Expr, ExprModel, LiteralValue, Stmt, StmtModel, Value, expr_view, stmt_view, stmts_view, lemma_stmts_view_push};
use crate::errors::{ErrorModel, ParserError};
use crate::lexer::{Token, TokenKind, TokenModel, TokenType, kind_tag};
use crate::text::{chars_of, copy_chars};

verus! {

pub type Toks = Seq<TokenModel>;

/// Whether position `i` holds the end-of-input token (or lies outside).
pub open spec fn at_end(t: Toks, i: int) -> bool {
    !(0 <= i < t.len()) || t[i].kind is Eof
}

/// Whether the token at `i` is of the kind of `k`, whatever it carries.
pub open spec fn check(t: Toks, i: int, k: TokenKind) -> bool {
    !at_end(t, i) && kind_tag(t[i].kind) == kind_tag(k)
}

/// Whether the token at `i` is the keyword `w`.
pub open spec fn check_keyword(t: Toks, i: int, w: Seq<char>) -> bool {
    !at_end(t, i) && t[i].kind == TokenKind::Keyword(w)
}

pub open spec fn error_at(t: Toks, i: int, message: Seq<char>) -> ErrorModel {
    ErrorModel { message, line: t[i].line, col: t[i].col }
}

/// What parsing from a position gives: a tree or an error, and where the
/// parser then stands.
pub struct Parsed<T> {
    pub result: Result<T, ErrorModel>,
    pub pos: int,
}

/// Operators of each binary precedence level, from `or` (7) down to the
/// factors (2).
pub open spec fn level_op(level: nat, k: TokenKind) -> bool {
    if level == 7 {
        k == TokenKind::Keyword("or"@)
    } else if level == 6 {
        k == TokenKind::Keyword("and"@)
    } else if level == 5 {
        k is BangEqual || k is EqualEqual
    } else if level == 4 {
        k is Greater || k is GreaterEqual || k is Less || k is LessEqual
    } else if level == 3 {
        k is Minus || k is Plus
    } else if level == 2 {
        k is Slash || k is Star
    } else {
        false
    }
}

/// Joins two operands at a level: `and` and `or` make logical nodes.
pub open spec fn combine(level: nat, l: ExprModel, op: TokenModel, r: ExprModel) -> ExprModel {
    if level >= 6 {
        ExprModel::Logical { left: Box::new(l), operator: op, right: Box::new(r) }
    } else {
        ExprModel::Binary { left: Box::new(l), operator: op, right: Box::new(r) }
    }
}

/// `assignment -> IDENT "=" assignment | logic_or`.
pub open spec fn p_assignment(t: Toks, i: int) -> Parsed<ExprModel>
    decreases t.len() - i, 8nat, 1nat,
{
    let l = p_level(t, 7, i);
    match l.result {
        Ok(e) => if i <= l.pos < t.len() && check(t, l.pos, TokenKind::Equal) {
            let v = p_assignment(t, l.pos + 1);
            match v.result {
                Ok(value) => match e {
                    ExprModel::Variable { name } => Parsed {
                        result: Ok(ExprModel::Assign { name, value: Box::new(value) }),
                        pos: v.pos,
                    },
                    _ => Parsed { result: Err(error_at(t, l.pos, "Invalid l-value for assignment"@)), pos: v.pos },
                },
                Err(_) => v,
            }
        } else {
            l
        },
        Err(_) => l,
    }
}

/// A binary precedence level: its operands, joined to the left.
pub open spec fn p_level(t: Toks, level: nat, i: int) -> Parsed<ExprModel>
    decreases t.len() - i, level, 3nat,
{
    if level <= 1 {
        p_unary(t, i)
    } else {
        let l = p_level(t, (level - 1) as nat, i);
        match l.result {
            Ok(e) => if i <= l.pos <= t.len() {
                p_rest(t, level, l.pos, e)
            } else {
                l
            },
            Err(_) => l,
        }
    }
}

/// The operators and operands of a level that follow `left`, from `j`.
pub open spec fn p_rest(t: Toks, level: nat, j: int, left: ExprModel) -> Parsed<ExprModel>
    decreases t.len() - j, level, 0nat,
{
    if !at_end(t, j) && level >= 2 && level_op(level, t[j].kind) {
        let r = p_level(t, (level - 1) as nat, j + 1);
        match r.result {
            Ok(right) => {
                let e = combine(level, left, t[j], right);
                if j < r.pos <= t.len() {
                    p_rest(t, level, r.pos, e)
                } else {
                    Parsed { result: Ok(e), pos: r.pos }
                }
            },
            Err(_) => r,
        }
    } else {
        Parsed { result: Ok(left), pos: j }
    }
}

/// `unary -> ("!" | "-") unary | primary`.
pub open spec fn p_unary(t: Toks, i: int) -> Parsed<ExprModel>
    decreases t.len() - i, 0nat, 2nat,
{
    if check(t, i, TokenKind::Bang) || check(t, i, TokenKind::Minus) {
        let r = p_unary(t, i + 1);
        match r.result {
            Ok(right) => Parsed { result: Ok(ExprModel::Unary { operator: t[i], right: Box::new(right) }), pos: r.pos },
            Err(_) => r,
        }
    } else {
        p_primary(t, i)
    }
}

/// `primary -> IDENT | "true" | "false" | "nil" | NUMBER | STRING | "(" expression ")"`.
pub open spec fn p_primary(t: Toks, i: int) -> Parsed<ExprModel>
    decreases t.len() - i, 0nat, 1nat,
{
    if at_end(t, i) {
        Parsed { result: Err(error_at(t, i, "Expected expression"@)), pos: i }
    } else {
        match t[i].kind {
            TokenKind::Identifier(_) => Parsed { result: Ok(ExprModel::Variable { name: t[i] }), pos: i + 1 },
            TokenKind::Number(n) => Parsed { result: Ok(ExprModel::Literal { value: Value::Number(n) }), pos: i + 1 },
            TokenKind::Str(s) => Parsed { result: Ok(ExprModel::Literal { value: Value::Text(s) }), pos: i + 1 },
            TokenKind::Keyword(w) => if w == "true"@ {
                Parsed { result: Ok(ExprModel::Literal { value: Value::Bool(true) }), pos: i + 1 }
            } else if w == "false"@ {
                Parsed { result: Ok(ExprModel::Literal { value: Value::Bool(false) }), pos: i + 1 }
            } else if w == "nil"@ {
                Parsed { result: Ok(ExprModel::Literal { value: Value::Nil }), pos: i + 1 }
            } else {
                Parsed { result: Err(error_at(t, i, "Expected expression"@)), pos: i }
            },
            TokenKind::LeftParen => {
                let r = p_assignment(t, i + 1);
                match r.result {
                    Ok(e) => if check(t, r.pos, TokenKind::RightParen) {
                        Parsed { result: Ok(ExprModel::Grouping { expression: Box::new(e) }), pos: r.pos + 1 }
                    } else {
                        Parsed { result: Err(error_at(t, r.pos, "Expected ')' after expression."@)), pos: r.pos }
                    },
                    Err(_) => r,
                }
            },
            _ => Parsed { result: Err(error_at(t, i, "Expected expression"@)), pos: i },
        }
    }
}

/// An expression followed by a required `;`.
pub open spec fn p_terminated(t: Toks, i: int, message: Seq<char>) -> Parsed<ExprModel>
    decreases t.len() - i, 9nat, 0nat,
{
    let r = p_assignment(t, i);
    match r.result {
        Ok(e) => if check(t, r.pos, TokenKind::Semicolon) {
            Parsed { result: Ok(e), pos: r.pos + 1 }
        } else {
            Parsed { result: Err(error_at(t, r.pos, message)), pos: r.pos }
        },
        Err(_) => r,
    }
}

/// `declaration -> "var" IDENT "=" expression ";" | statement`.
pub open spec fn p_declaration(t: Toks, i: int) -> Parsed<StmtModel>
    decreases t.len() - i, 12nat, 0nat,
{
    if check_keyword(t, i, "var"@) {
        p_var(t, i + 1)
    } else {
        p_statement(t, i)
    }
}

/// The rest of a variable declaration, after `var`.
pub open spec fn p_var(t: Toks, j: int) -> Parsed<StmtModel>
    decreases t.len() - j, 12nat, 0nat,
{
    if !check(t, j, TokenKind::Identifier(Seq::empty())) {
        Parsed { result: Err(error_at(t, j, "Expected variable name"@)), pos: j }
    } else if !check(t, j + 1, TokenKind::Equal) {
        Parsed { result: Err(error_at(t, j, "Variable can't be declared but not initialized"@)), pos: j + 1 }
    } else {
        let r = p_terminated(t, j + 2, "Expected semicolon after declaration"@);
        match r.result {
            Ok(e) => Parsed { result: Ok(StmtModel::Var { name: t[j], initializer: e }), pos: r.pos },
            Err(err) => Parsed { result: Err(err), pos: r.pos },
        }
    }
}

/// `statement -> if | print | block | expression ";"`.
pub open spec fn p_statement(t: Toks, i: int) -> Parsed<StmtModel>
    decreases t.len() - i, 11nat, 0nat,
{
    if check_keyword(t, i, "if"@) {
        p_if(t, i + 1)
    } else if check_keyword(t, i, "print"@) {
        let r = p_terminated(t, i + 1, "Expected ; after statement."@);
        match r.result {
            Ok(e) => Parsed { result: Ok(StmtModel::Print { expression: e }), pos: r.pos },
            Err(err) => Parsed { result: Err(err), pos: r.pos },
        }
    } else if check(t, i, TokenKind::LeftBrace) {
        let r = p_block(t, i + 1, Seq::empty());
        match r.result {
            Ok(ss) => Parsed { result: Ok(StmtModel::Block { statements: ss }), pos: r.pos },
            Err(err) => Parsed { result: Err(err), pos: r.pos },
        }
    } else {
        let r = p_terminated(t, i, "Expected ; after expression."@);
        match r.result {
            Ok(e) => Parsed { result: Ok(StmtModel::Expression { expression: e }), pos: r.pos },
            Err(err) => Parsed { result: Err(err), pos: r.pos },
        }
    }
}

/// The rest of an `if` statement, after `if`: a condition, a branch, and
/// an optional `else` branch.
pub open spec fn p_if(t: Toks, j: int) -> Parsed<StmtModel>
    decreases t.len() - j, 11nat, 0nat,
{
    let c = p_assignment(t, j);
    match c.result {
        Ok(cond) => if j < c.pos <= t.len() {
            let th = p_statement(t, c.pos);
            match th.result {
                Ok(then_branch) => if th.pos > j && check_keyword(t, th.pos, "else"@) {
                    let el = p_statement(t, th.pos + 1);
                    match el.result {
                        Ok(e) => Parsed {
                            result: Ok(StmtModel::If {
                                condition: cond,
                                then_branch: Box::new(then_branch),
                                else_branch: Some(Box::new(e)),
                            }),
                            pos: el.pos,
                        },
                        Err(err) => Parsed { result: Err(err), pos: el.pos },
                    }
                } else {
                    Parsed {
                        result: Ok(StmtModel::If { condition: cond, then_branch: Box::new(then_branch), else_branch: None }),
                        pos: th.pos,
                    }
                },
                Err(err) => Parsed { result: Err(err), pos: th.pos },
            }
        } else {
            Parsed { result: Err(error_at(t, j, "Expected expression"@)), pos: c.pos }
        },
        Err(err) => Parsed { result: Err(err), pos: c.pos },
    }
}

/// The declarations of a block from `j`, after those in `acc`, up to and
/// including its `}`.
pub open spec fn p_block(t: Toks, j: int, acc: Seq<StmtModel>) -> Parsed<Seq<StmtModel>>
    decreases t.len() - j, 13nat, 0nat,
{
    if !check(t, j, TokenKind::RightBrace) && !at_end(t, j) {
        let d = p_declaration(t, j);
        match d.result {
            Ok(s) => if j < d.pos <= t.len() {
                p_block(t, d.pos, acc.push(s))
            } else {
                Parsed { result: Err(error_at(t, j, "Expected expression"@)), pos: d.pos }
            },
            Err(err) => Parsed { result: Err(err), pos: d.pos },
        }
    } else if check(t, j, TokenKind::RightBrace) {
        Parsed { result: Ok(acc), pos: j + 1 }
    } else {
        Parsed { result: Err(error_at(t, j, "Expected '}' after a block"@)), pos: j }
    }
}

/// The keywords that may start a statement, where recovery stops.
pub open spec fn sync_keywords() -> Seq<Seq<char>> {
    seq![
        "class"@, "else"@, "fun"@, "for"@, "if"@, "lambda"@, "print"@, "return"@, "super"@,
        "this"@, "var"@, "while"@,
    ]
}

pub open spec fn starts_statement(k: TokenKind) -> bool {
    match k {
        TokenKind::Keyword(w) => sync_keywords().contains(w),
        _ => false,
    }
}

/// Skips from `j` to just after a `;` or to a token that starts a
/// statement.
pub open spec fn sync_from(t: Toks, j: int) -> int
    decreases t.len() - j,
{
    if at_end(t, j) || j < 1 {
        j
    } else if t[j - 1].kind is Semicolon {
        j
    } else if starts_statement(t[j].kind) {
        j
    } else {
        sync_from(t, j + 1)
    }
}

/// Where the parser resumes after an error at `i`.
pub open spec fn synchronize_spec(t: Toks, i: int) -> int {
    sync_from(t, if at_end(t, i) { i } else { i + 1 })
}

/// Parses declarations from `i` to the end: one result per declaration,
/// resuming after each error.
pub open spec fn parse_from(t: Toks, i: int) -> Seq<Result<StmtModel, ErrorModel>>
    decreases t.len() - i,
{
    if at_end(t, i) || i < 0 {
        Seq::empty()
    } else {
        let d = p_declaration(t, i);
        match d.result {
            Ok(s) => if i < d.pos <= t.len() {
                seq![Ok(s)] + parse_from(t, d.pos)
            } else {
                seq![Ok(s)]
            },
            Err(e) => {
                let k = synchronize_spec(t, d.pos);
                if i < k <= t.len() {
                    seq![Err(e)] + parse_from(t, k)
                } else {
                    seq![Err(e)]
                }
            },
        }
    }
}


pub open spec fn expr_result(r: Result<Expr, ParserError>) -> Result<ExprModel, ErrorModel> {
    match r {
        Ok(e) => Ok(expr_view(e)),
        Err(e) => Err(e@),
    }
}

pub open spec fn stmt_result(r: Result<Stmt, ParserError>) -> Result<StmtModel, ErrorModel> {
    match r {
        Ok(s) => Ok(stmt_view(s)),
        Err(e) => Err(e@),
    }
}

pub open spec fn block_result(r: Result<Vec<Stmt>, ParserError>) -> Result<Seq<StmtModel>, ErrorModel> {
    match r {
        Ok(v) => Ok(stmts_view(v@, 0)),
        Err(e) => Err(e@),
    }
}

/// A token sequence that the parser can walk: it ends with the
/// end-of-input token.
pub open spec fn ends_with_eof(t: Toks) -> bool {
    t.len() > 0 && t.last().kind is Eof
}

pub struct Parser<'a> {
    current: usize,
    tokens: &'a Vec<Token>,
    had_error: bool,
    panic_mode: bool,
}

impl<'a> Parser<'a> {
    pub closed spec fn toks(&self) -> Toks {
        self.tokens@.map_values(|t: Token| t@)
    }

    /// Index of the current token.
    pub closed spec fn pos(&self) -> int {
        self.current as int
    }

    /// Whether an error was reported so far.
    pub closed spec fn error_seen(&self) -> bool {
        self.had_error
    }

    pub closed spec fn wf(&self) -> bool {
        &&& ends_with_eof(self.toks())
        &&& self.current < self.tokens@.len()
    }

    pub fn new(token_vector: &'a Vec<Token>) -> (r: Self)
        requires
            ends_with_eof(token_vector@.map_values(|t: Token| t@)),
        ensures
            r.wf(),
            r.toks() == token_vector@.map_values(|t: Token| t@),
            r.pos() == 0,
            !r.error_seen(),
    {
        Parser { current: 0, tokens: token_vector, had_error: false, panic_mode: false }
    }

    fn is_at_end(&self) -> (r: bool)
        requires
            self.wf(),
        ensures
            r == at_end(self.toks(), self.pos()),
    {
        match self.tokens[self.current].token_type {
            TokenType::EOF => true,
            _ => false,
        }
    }

    fn check(&self, token_type: &TokenType) -> (r: bool)
        requires
            self.wf(),
        ensures
            r == check(self.toks(), self.pos(), token_type@),
    {
        if self.is_at_end() {
            return false;
        }
        self.tokens[self.current].token_type.tag() == token_type.tag()
    }

    fn check_keyword(&self, word: &str) -> (r: bool)
        requires
            self.wf(),
        ensures
            r == check_keyword(self.toks(), self.pos(), word@),
    {
        if self.is_at_end() {
            return false;
        }
        self.tokens[self.current].token_type.is_keyword_named(word)
    }

    /// Moves past the current token unless it ends the input, and gives the
    /// token just passed.
    pub fn advance(&mut self) -> (r: Token)
        requires
            old(self).wf(),
            !at_end(old(self).toks(), old(self).pos()) || old(self).pos() > 0,
        ensures
            final(self).wf(),
            final(self).toks() == old(self).toks(),
            final(self).error_seen() == old(self).error_seen(),
            final(self).pos() == if at_end(old(self).toks(), old(self).pos()) {
                old(self).pos()
            } else {
                old(self).pos() + 1
            },
            r@ == final(self).toks()[final(self).pos() - 1],
    {
        if !self.is_at_end() {
            let _n = self.tokens.len();
            proof {
                assert(self.toks()[self.tokens@.len() - 1].kind is Eof);
            }
            self.current = self.current + 1;
        }
        self.tokens[self.current - 1].copied()
    }

    /// Records that an error was found; while recovering, later errors are
    /// not recorded again.
    pub fn error_at(&mut self, _token: &Token, _message: &str)
        ensures
            final(self).toks() == old(self).toks(),
            final(self).pos() == old(self).pos(),
            final(self).wf() == old(self).wf(),
            final(self).error_seen(),
    {
        if self.panic_mode {
            self.had_error = true;
            return;
        }
        self.panic_mode = true;
        self.had_error = true;
    }

    /// Moves past a token of the given kind, or reports `message` at the
    /// current token.
    pub fn consume(&mut self, token_type: TokenType, message: &str) -> (r: Result<Token, ParserError>)
        requires
            old(self).wf(),
        ensures
            final(self).wf(),
            final(self).toks() == old(self).toks(),
            check(old(self).toks(), old(self).pos(), token_type@) ==> r is Ok
                && r->Ok_0@ == old(self).toks()[old(self).pos()]
                && final(self).pos() == old(self).pos() + 1
                && final(self).error_seen() == old(self).error_seen(),
            !check(old(self).toks(), old(self).pos(), token_type@) ==> r is Err
                && r->Err_0@ == error_at(old(self).toks(), old(self).pos(), message@)
                && final(self).pos() == old(self).pos()
                && final(self).error_seen(),
    {
        if self.check(&token_type) {
            return Ok(self.advance());
        }
        let token = self.tokens[self.current].copied();
        self.error_at(&token, message);
        Err(ParserError { message: chars_of(message), line: token.line, col: token.col })
    }

    pub fn expression(&mut self) -> (r: Result<Expr, ParserError>)
        requires
            old(self).wf(),
        ensures
            final(self).wf(),
            final(self).toks() == old(self).toks(),
            final(self).pos() == p_assignment(old(self).toks(), old(self).pos()).pos,
            expr_result(r) == p_assignment(old(self).toks(), old(self).pos()).result,
            old(self).pos() <= final(self).pos(),
            r is Ok ==> old(self).pos() < final(self).pos(),
    {
        self.assignment()
    }

    fn assignment(&mut self) -> (r: Result<Expr, ParserError>)
        requires
            old(self).wf(),
        ensures
            final(self).wf(),
            final(self).toks() == old(self).toks(),
            final(self).pos() == p_assignment(old(self).toks(), old(self).pos()).pos,
            expr_result(r) == p_assignment(old(self).toks(), old(self).pos()).result,
            old(self).pos() <= final(self).pos(),
            r is Ok ==> old(self).pos() < final(self).pos(),
        decreases self.tokens@.len() - self.current, 8nat, 1nat,
    {
        let expr = self.level(7)?;
        if self.check(&TokenType::Equal) {
            let equals = self.advance();
            let value = self.assignment()?;
            match expr {
                Expr::Variable { name } => Ok(Expr::Assign { name, value: Box::new(value) }),
                _ => Err(ParserError {
                    message: chars_of("Invalid l-value for assignment"),
                    line: equals.line,
                    col: equals.col,
                }),
            }
        } else {
            Ok(expr)
        }
    }

    /// A binary precedence level (see `level_op`), or a unary expression
    /// at level 1.
    fn level(&mut self, lvl: u8) -> (r: Result<Expr, ParserError>)
        requires
            old(self).wf(),
            1 <= lvl <= 7,
        ensures
            final(self).wf(),
            final(self).toks() == old(self).toks(),
            final(self).pos() == p_level(old(self).toks(), lvl as nat, old(self).pos()).pos,
            expr_result(r) == p_level(old(self).toks(), lvl as nat, old(self).pos()).result,
            old(self).pos() <= final(self).pos(),
            r is Ok ==> old(self).pos() < final(self).pos(),
        decreases self.tokens@.len() - self.current, lvl, 3nat,
    {
        if lvl <= 1 {
            return self.unary();
        }
        let ghost t = self.toks();
        let ghost i0 = self.pos();
        let mut expr = self.level(lvl - 1)?;
        loop
            invariant
                self.wf(),
                self.toks() == t,
                2 <= lvl <= 7,
                i0 < self.pos(),
                i0 == old(self).pos(),
                t == old(self).toks(),
                p_rest(t, lvl as nat, self.pos(), expr_view(expr)) == p_level(t, lvl as nat, i0),
            decreases self.tokens@.len() - self.current,
        {
            if self.is_at_end() || !level_op_exec(lvl, &self.tokens[self.current].token_type) {
                return Ok(expr);
            }
            let operator = self.advance();
            let right = self.level(lvl - 1)?;
            expr = if lvl >= 6 {
                Expr::Logical { left: Box::new(expr), operator, right: Box::new(right) }
            } else {
                Expr::Binary { left: Box::new(expr), operator, right: Box::new(right) }
            };
        }
    }

    fn unary(&mut self) -> (r: Result<Expr, ParserError>)
        requires
            old(self).wf(),
        ensures
            final(self).wf(),
            final(self).toks() == old(self).toks(),
            final(self).pos() == p_unary(old(self).toks(), old(self).pos()).pos,
            expr_result(r) == p_unary(old(self).toks(), old(self).pos()).result,
            old(self).pos() <= final(self).pos(),
            r is Ok ==> old(self).pos() < final(self).pos(),
        decreases self.tokens@.len() - self.current, 0nat, 2nat,
    {
        if self.check(&TokenType::Bang) || self.check(&TokenType::Minus) {
            let operator = self.advance();
            let right = self.unary()?;
            return Ok(Expr::Unary { operator, right: Box::new(right) });
        }
        self.primary()
    }

    fn expected_expression(&self) -> (r: ParserError)
        requires
            self.wf(),
        ensures
            r@ == error_at(self.toks(), self.pos(), "Expected expression"@),
    {
        let token = &self.tokens[self.current];
        ParserError { message: chars_of("Expected expression"), line: token.line, col: token.col }
    }

    fn primary(&mut self) -> (r: Result<Expr, ParserError>)
        requires
            old(self).wf(),
        ensures
            final(self).wf(),
            final(self).toks() == old(self).toks(),
            final(self).pos() == p_primary(old(self).toks(), old(self).pos()).pos,
            expr_result(r) == p_primary(old(self).toks(), old(self).pos()).result,
            old(self).pos() <= final(self).pos(),
            r is Ok ==> old(self).pos() < final(self).pos(),
        decreases self.tokens@.len() - self.current, 0nat, 1nat,
    {
        if self.is_at_end() {
            return Err(self.expected_expression());
        }
        let tokens = self.tokens;
        match &tokens[self.current].token_type {
            TokenType::Identifier(_) => {
                let name = self.advance();
                Ok(Expr::Variable { name })
            },
            TokenType::Number(n) => {
                self.advance();
                Ok(Expr::Literal { value: LiteralValue::Number(*n) })
            },
            TokenType::String(text) => {
                self.advance();
                Ok(Expr::Literal { value: LiteralValue::Text(copy_chars(text)) })
            },
            TokenType::Keyword(_) => {
                let kind = &tokens[self.current].token_type;
                if kind.is_keyword_named("true") {
                    self.advance();
                    Ok(Expr::Literal { value: LiteralValue::Bool(true) })
                } else if kind.is_keyword_named("false") {
                    self.advance();
                    Ok(Expr::Literal { value: LiteralValue::Bool(false) })
                } else if kind.is_keyword_named("nil") {
                    self.advance();
                    Ok(Expr::Literal { value: LiteralValue::Nil })
                } else {
                    Err(self.expected_expression())
                }
            },
            TokenType::LeftParen => {
                self.advance();
                let expr = self.assignment()?;
                if self.check(&TokenType::RightParen) {
                    self.advance();
                    Ok(Expr::Grouping { expression: Box::new(expr) })
                } else {
                    let token = &self.tokens[self.current];
                    Err(ParserError {
                        message: chars_of("Expected ')' after expression."),
                        line: token.line,
                        col: token.col,
                    })
                }
            },
            _ => Err(self.expected_expression()),
        }
    }

    /// An expression followed by a required `;`.
    fn terminated(&mut self, message: &str) -> (r: Result<Expr, ParserError>)
        requires
            old(self).wf(),
        ensures
            final(self).wf(),
            final(self).toks() == old(self).toks(),
            old(self).pos() <= final(self).pos(),
            r is Ok ==> old(self).pos() < final(self).pos(),
            final(self).pos() == p_terminated(old(self).toks(), old(self).pos(), message@).pos,
            expr_result(r) == p_terminated(old(self).toks(), old(self).pos(), message@).result,
        decreases self.tokens@.len() - self.current, 9nat, 0nat,
    {
        let expr = self.assignment()?;
        self.consume(TokenType::Semicolon, message)?;
        Ok(expr)
    }

    fn declaration(&mut self) -> (r: Result<Stmt, ParserError>)
        requires
            old(self).wf(),
        ensures
            final(self).wf(),
            final(self).toks() == old(self).toks(),
            old(self).pos() <= final(self).pos(),
            r is Ok ==> old(self).pos() < final(self).pos(),
            final(self).pos() == p_declaration(old(self).toks(), old(self).pos()).pos,
            stmt_result(r) == p_declaration(old(self).toks(), old(self).pos()).result,
        decreases self.tokens@.len() - self.current, 12nat, 1nat,
    {
        if self.check_keyword("var") {
            self.advance();
            return self.var_declaration();
        }
        self.statement()
    }

    fn var_declaration(&mut self) -> (r: Result<Stmt, ParserError>)
        requires
            old(self).wf(),
        ensures
            final(self).wf(),
            final(self).toks() == old(self).toks(),
            old(self).pos() <= final(self).pos(),
            r is Ok ==> old(self).pos() < final(self).pos(),
            final(self).pos() == p_var(old(self).toks(), old(self).pos()).pos,
            stmt_result(r) == p_var(old(self).toks(), old(self).pos()).result,
        decreases self.tokens@.len() - self.current, 12nat, 0nat,
    {
        let name = self.consume(TokenType::Identifier(Vec::new()), "Expected variable name")?;
        if !self.check(&TokenType::Equal) {
            return Err(ParserError {
                message: chars_of("Variable can't be declared but not initialized"),
                line: name.line,
                col: name.col,
            });
        }
        self.advance();
        let initializer = self.terminated("Expected semicolon after declaration")?;
        Ok(Stmt::Var { name, initializer })
    }

    fn statement(&mut self) -> (r: Result<Stmt, ParserError>)
        requires
            old(self).wf(),
        ensures
            final(self).wf(),
            final(self).toks() == old(self).toks(),
            old(self).pos() <= final(self).pos(),
            r is Ok ==> old(self).pos() < final(self).pos(),
            final(self).pos() == p_statement(old(self).toks(), old(self).pos()).pos,
            stmt_result(r) == p_statement(old(self).toks(), old(self).pos()).result,
        decreases self.tokens@.len() - self.current, 11nat, 1nat,
    {
        if self.check_keyword("if") {
            self.advance();
            return self.if_statement();
        }
        if self.check_keyword("print") {
            self.advance();
            let expression = self.terminated("Expected ; after statement.")?;
            return Ok(Stmt::Print { expression });
        }
        if self.check(&TokenType::LeftBrace) {
            self.advance();
            let statements = self.block_statement()?;
            return Ok(Stmt::Block { statements });
        }
        let expression = self.terminated("Expected ; after expression.")?;
        Ok(Stmt::Expression { expression })
    }

    fn if_statement(&mut self) -> (r: Result<Stmt, ParserError>)
        requires
            old(self).wf(),
        ensures
            final(self).wf(),
            final(self).toks() == old(self).toks(),
            old(self).pos() <= final(self).pos(),
            r is Ok ==> old(self).pos() < final(self).pos(),
            final(self).pos() == p_if(old(self).toks(), old(self).pos()).pos,
            stmt_result(r) == p_if(old(self).toks(), old(self).pos()).result,
        decreases self.tokens@.len() - self.current, 11nat, 0nat,
    {
        let condition = self.assignment()?;
        let then_branch = self.statement()?;
        if self.check_keyword("else") {
            self.advance();
            let else_branch = self.statement()?;
            return Ok(Stmt::If {
                condition,
                then_branch: Box::new(then_branch),
                else_branch: Some(Box::new(else_branch)),
            });
        }
        Ok(Stmt::If { condition, then_branch: Box::new(then_branch), else_branch: None })
    }

    /// The declarations of a block, after its `{`, up to and including
    /// its `}`.
    fn block_statement(&mut self) -> (r: Result<Vec<Stmt>, ParserError>)
        requires
            old(self).wf(),
        ensures
            final(self).wf(),
            final(self).toks() == old(self).toks(),
            old(self).pos() <= final(self).pos(),
            r is Ok ==> old(self).pos() < final(self).pos(),
            final(self).pos() == p_block(old(self).toks(), old(self).pos(), Seq::empty()).pos,
            block_result(r) == p_block(old(self).toks(), old(self).pos(), Seq::empty()).result,
        decreases self.tokens@.len() - self.current, 13nat, 0nat,
    {
        let ghost t = self.toks();
        let ghost j0 = self.pos();
        let mut statements: Vec<Stmt> = Vec::new();
        proof {
            assert(stmts_view(statements@, 0) =~= Seq::<StmtModel>::empty());
        }
        while !self.check(&TokenType::RightBrace) && !self.is_at_end()
            invariant
                self.wf(),
                self.toks() == t,
                t == old(self).toks(),
                j0 == old(self).pos(),
                j0 <= self.pos(),
                p_block(t, self.pos(), stmts_view(statements@, 0)) == p_block(t, j0, Seq::empty()),
            decreases self.tokens@.len() - self.current,
        {
            let ghost before = statements@;
            let declaration = self.declaration()?;
            statements.push(declaration);
            proof {
                lemma_stmts_view_push(before, declaration, 0);
            }
        }
        self.consume(TokenType::RightBrace, "Expected '}' after a block")?;
        Ok(statements)
    }

    /// Skips to a likely start of the next statement: just after a `;`,
    /// or to a keyword that starts a statement.
    fn synchronize(&mut self)
        requires
            old(self).wf(),
        ensures
            final(self).wf(),
            final(self).toks() == old(self).toks(),
            final(self).pos() == synchronize_spec(old(self).toks(), old(self).pos()),
            at_end(old(self).toks(), old(self).pos()) || old(self).pos() < final(self).pos(),
    {
        self.panic_mode = false;
        if !self.is_at_end() {
            self.advance();
        }
        let ghost t = self.toks();
        let ghost j0 = self.pos();
        while !self.is_at_end()
            invariant
                self.wf(),
                self.toks() == t,
                t == old(self).toks(),
                j0 <= self.pos(),
                sync_from(t, self.pos()) == sync_from(t, j0),
                at_end(t, old(self).pos()) || old(self).pos() < j0,
                j0 == if at_end(t, old(self).pos()) { old(self).pos() } else { old(self).pos() + 1 },
            ensures
                self.pos() == sync_from(t, j0),
            decreases self.tokens@.len() - self.current,
        {
            if self.current >= 1 && self.tokens[self.current - 1].token_type.tag() == 8 {
                return;
            }
            if starts_statement_exec(&self.tokens[self.current].token_type) {
                return;
            }
            self.advance();
        }
    }

    /// Parses the whole token sequence: one result per top-level
    /// declaration. After an error the parser skips ahead (see
    /// `synchronize`) and goes on, so every independent error is reported.
    pub fn parse(&mut self) -> (r: Vec<Result<Stmt, ParserError>>)
        requires
            old(self).wf(),
        ensures
            final(self).wf(),
            r@.map_values(|x: Result<Stmt, ParserError>| stmt_result(x)) == parse_from(old(self).toks(), old(self).pos()),
    {
        let ghost t = self.toks();
        let ghost i0 = self.pos();
        let mut statements: Vec<Result<Stmt, ParserError>> = Vec::new();
        while !self.is_at_end()
            invariant
                self.wf(),
                self.toks() == t,
                t == old(self).toks(),
                i0 == old(self).pos(),
                statements@.map_values(|x: Result<Stmt, ParserError>| stmt_result(x)) + parse_from(t, self.pos())
                    == parse_from(t, i0),
            decreases self.tokens@.len() - self.current,
        {
            let ghost i = self.pos();
            let ghost before = statements@.map_values(|x: Result<Stmt, ParserError>| stmt_result(x));
            let d = self.declaration();
            let ok = d.is_ok();
            let ghost dv = stmt_result(d);
            statements.push(d);
            proof {
                assert(statements@.map_values(|x: Result<Stmt, ParserError>| stmt_result(x)) =~= before.push(dv));
            }
            if !ok {
                self.synchronize();
            }
            proof {
                assert(before + parse_from(t, i) =~= before.push(dv) + parse_from(t, self.pos()));
            }
        }
        proof {
            assert(statements@.map_values(|x: Result<Stmt, ParserError>| stmt_result(x)) + parse_from(t, self.pos())
                =~= statements@.map_values(|x: Result<Stmt, ParserError>| stmt_result(x)));
        }
        statements
    }

}

fn is_sync_keyword(w: &Vec<char>) -> (r: bool)
    ensures
        r == sync_keywords().contains(w@),
{
    let table = vec![
        chars_of("class"), chars_of("else"), chars_of("fun"), chars_of("for"), chars_of("if"),
        chars_of("lambda"), chars_of("print"), chars_of("return"), chars_of("super"),
        chars_of("this"), chars_of("var"), chars_of("while"),
    ];
    let mut i: usize = 0;
    while i < table.len()
        invariant
            i <= table@.len() == sync_keywords().len(),
            forall|j: int| 0 <= j < table@.len() ==> (#[trigger] table@[j])@ == sync_keywords()[j],
            forall|j: int| 0 <= j < i ==> sync_keywords()[j] != w@,
        decreases table@.len() - i,
    {
        if crate::text::chars_eq(&table[i], w) {
            assert(sync_keywords()[i as int] == w@);
            return true;
        }
        i = i + 1;
    }
    false
}

fn starts_statement_exec(k: &TokenType) -> (r: bool)
    ensures
        r == starts_statement(k@),
{
    match k {
        TokenType::Keyword(w) => is_sync_keyword(w),
        _ => false,
    }
}

fn level_op_exec(lvl: u8, k: &TokenType) -> (r: bool)
    ensures
        r == level_op(lvl as nat, k@),
{
    if lvl == 7 {
        k.is_keyword_named("or")
    } else if lvl == 6 {
        k.is_keyword_named("and")
    } else {
        let tag = k.tag();
        if lvl == 5 {
            tag == 12 || tag == 14
        } else if lvl == 4 {
            tag == 15 || tag == 16 || tag == 17 || tag == 18
        } else if lvl == 3 {
            tag == 6 || tag == 7
        } else if lvl == 2 {
            tag == 9 || tag == 10
        } else {
            false
        }
    }
}

} // verus!
