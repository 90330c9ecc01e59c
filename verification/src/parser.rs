use vstd::prelude::*;
use vstd::string::StringExecFns;

use crate::ast::error::{Error, ParserError, RuntimeError};
use crate::ast::stmt::{FunctionStmt, IfStmt, ReturnStmt, Stmt, WhileStmt};
use crate::ast::token::{Literal, Token, TokenModel, TokenType};
use crate::expr::{AssignExpr, BinaryExpr, CallExpr, Expr, GroupingExpr, LiteralExpr, LogicalExpr, UnaryExpr, Var, expr_model, exprs_model};
use crate::ast::stmt::{StmtModel, lemma_stmts_model_push, lemma_stmts_model_two, stmt_model, stmts_model, tokens_model};
use crate::expr::ExprModel;
use crate::grammar::{
    ErrModel, Parse, err_model, expr_result, kind_at, lemma_args_step, lemma_exprs_model_push, level_node, max_args, p_args,
    p_assignment, p_call, p_call_rest, p_close_call, p_expression, p_finish_call, p_level, p_level_rest, p_operand,
    p_primary, p_unary, s_block, s_declaration, s_expr_stmt, s_for, s_for_cond, s_for_inc, s_for_init, desugar_for, opt_expr_model, opt_stmt_model, s_function, s_if, s_opt_expr,
    s_params, s_print, s_program, s_return, s_statement, s_var_decl, s_while, stmt_result, stmts_result, tokens_ok,
};

verus! {

/// A message that names a kind of function: the three parts one after the
/// other.
fn kind_message(prefix: &str, kind: &str, suffix: &str) -> (s: String)
    ensures
        s@ == prefix@ + kind@ + suffix@,
{
    let mut s = String::from_str(prefix);
    s.append(kind);
    s.append(suffix);
    s
}

/// Whether a token of this type begins a statement that skipping after an
/// error stops before.
pub open spec fn starts_statement(t: TokenType) -> bool {
    t == TokenType::Class || t == TokenType::Fun || t == TokenType::Var || t == TokenType::For || t == TokenType::If
        || t == TokenType::While || t == TokenType::Print || t == TokenType::Return
}

/// Where skipping after an error, from position `pos`, stops: at the end of
/// the input, just after a `;`, or just before a token that begins a
/// statement.
pub open spec fn sync_stop(ts: Seq<Token>, pos: int) -> int
    decreases ts.len() - pos,
{
    if !(1 <= pos < ts.len()) || ts[pos].token_type == TokenType::EOF || ts[pos - 1].token_type == TokenType::Semicolon
        || starts_statement(ts[pos].token_type) {
        pos
    } else {
        sync_stop(ts, pos + 1)
    }
}

/// A recursive-descent parser from tokens to statements.
pub struct Parser {
    tokens: Vec<Token>,
    current: usize,
}

impl Parser {
    pub closed spec fn tokens(&self) -> Seq<Token> {
        self.tokens@
    }

    pub closed spec fn position(&self) -> int {
        self.current as int
    }

    /// The parser's invariant.
    pub closed spec fn wf(&self) -> bool {
        &&& tokens_ok(self.tokens@)
        &&& self.current < self.tokens@.len()
    }

    /// The invariant inside a declaration: some token has been or can be
    /// consumed.
    pub closed spec fn inside(&self) -> bool {
        &&& self.wf()
        &&& (self.current == 0 ==> self.tokens@[0].token_type != TokenType::EOF)
    }

    pub closed spec fn measure(&self) -> int {
        self.tokens@.len() - self.current
    }

    pub closed spec fn peek_type(&self) -> TokenType {
        self.tokens@[self.current as int].token_type
    }

    /// What every step keeps.
    pub closed spec fn steps_to(self, next: Self) -> bool {
        &&& next.inside()
        &&& next.tokens@ == self.tokens@
        &&& self.current <= next.current
    }

    pub fn new(tokens: Vec<Token>) -> (p: Self)
        ensures
            p.tokens() == tokens@,
            p.position() == 0,
            tokens_ok(tokens@) ==> p.wf(),
    {
        Self { tokens, current: 0 }
    }

    fn peek(&self) -> (t: &Token)
        requires
            self.wf(),
        ensures
            *t == self.tokens@[self.current as int],
    {
        &self.tokens[self.current]
    }

    fn previous(&self) -> (t: &Token)
        requires
            self.wf(),
            self.current >= 1,
        ensures
            *t == self.tokens@[self.current - 1],
    {
        &self.tokens[self.current - 1]
    }

    fn at_end(&self) -> (r: bool)
        requires
            self.wf(),
        ensures
            r == (self.peek_type() == TokenType::EOF),
    {
        self.peek().token_type == TokenType::EOF
    }

    /// Moves past the current token, unless it is the end of input; returns
    /// the token just passed.
    fn advance(&mut self) -> (t: Token)
        requires
            old(self).inside(),
        ensures
            old(self).steps_to(*final(self)),
            final(self).current == if old(self).peek_type() == TokenType::EOF { old(self).current as int } else { old(self).current + 1 },
            final(self).current >= 1,
            t == final(self).tokens@[final(self).current - 1],
    {
        let _n = self.tokens.len();
        if !self.at_end() {
            self.current = self.current + 1;
        }
        self.previous().duplicate()
    }

    /// Consumes the current token, which must have type `token_type`.
    fn consume(&mut self, token_type: TokenType, message: &str) -> (r: Result<Token, Error>)
        requires
            old(self).inside(),
            token_type != TokenType::EOF,
        ensures
            old(self).steps_to(*final(self)),
            old(self).peek_type() == token_type ==> final(self).current == old(self).current + 1
                && r == Ok::<Token, Error>(old(self).tokens@[old(self).current as int]),
            old(self).peek_type() != token_type ==> final(self).current == old(self).current
                && (r matches Err(Error::Parser(e)) && e.token == old(self).tokens@[old(self).current as int] && e.message@ == message@),
    {
        if token_type == self.peek().token_type {
            return Ok(self.advance());
        }
        Err(Error::Parser(ParserError::new(self.peek().duplicate(), message.to_string())))
    }

    /// After an error, skips to a likely statement boundary: it passes the
    /// current token, then stops at the end of the input, just after a `;`,
    /// or just before a token that begins a statement.
    fn synchronize(&mut self)
        requires
            old(self).inside(),
        ensures
            old(self).steps_to(*final(self)),
            final(self).position() == sync_stop(
                old(self).tokens(),
                if old(self).peek_type() == TokenType::EOF { old(self).position() } else { old(self).position() + 1 },
            ),
    {
        self.advance();
        let ghost start = self.current as int;
        while !self.at_end()
            invariant
                old(self).steps_to(*self),
                self.current >= 1,
                sync_stop(self.tokens@, self.current as int) == sync_stop(self.tokens@, start),
                start == if old(self).peek_type() == TokenType::EOF { old(self).current as int } else { old(self).current + 1 },
            decreases self.measure(),
        {
            if self.previous().token_type == TokenType::Semicolon {
                return;
            }
            match self.peek().token_type {
                TokenType::Class | TokenType::Fun | TokenType::Var | TokenType::For | TokenType::If
                | TokenType::While | TokenType::Print | TokenType::Return => {
                    return;
                },
                _ => {},
            }
            self.advance();
        }
    }

    /// Parses a whole program. On the first error the parser moves on to
    /// the next statement boundary and hands that error back.
    pub fn parse(&mut self) -> (r: Result<Vec<Stmt>, Error>)
        requires
            old(self).wf(),
        ensures
            final(self).wf(),
            final(self).tokens() == old(self).tokens(),
            match s_program(old(self).tokens(), old(self).position(), Seq::empty()) {
                Parse::Parsed(m, q) => r matches Ok(ss) && stmts_model(ss@) == m && final(self).position() == q,
                Parse::Failed(err, q) => r matches Err(e) && err_model(e) == err
                    && final(self).position() == sync_stop(
                        old(self).tokens(),
                        if old(self).tokens()[q].token_type == TokenType::EOF { q } else { q + 1 },
                    ),
            },
    {
        let ghost ts = self.tokens@;
        let ghost start = self.current as int;
        let mut statements: Vec<Stmt> = Vec::new();
        proof { lemma_stmts_model_push(statements@, Stmt::Print(Expr::Literal(LiteralExpr { value: Literal::Nil }))); }
        assert(stmts_model(statements@) =~= Seq::<StmtModel>::empty());
        while !self.at_end()
            invariant
                self.wf(),
                self.tokens@ == ts,
                ts == old(self).tokens@,
                start == old(self).current,
                self.current >= start,
                stmts_model(statements@).len() == statements@.len(),
                s_program(ts, start, Seq::empty()) == s_program(ts, self.current as int, stmts_model(statements@)),
            decreases self.measure(),
        {
            match self.declaration() {
                Ok(s) => {
                    proof { lemma_stmts_model_push(statements@, s); }
                    statements.push(s);
                },
                Err(e) => {
                    self.synchronize();
                    return Err(e);
                },
            }
        }
        Ok(statements)
    }

    fn declaration(&mut self) -> (r: Result<Stmt, Error>)
        requires
            old(self).inside(),
        ensures
            old(self).steps_to(*final(self)),
            stmt_result(r, s_declaration(old(self).tokens(), old(self).position()), final(self).position()),
            r is Ok ==> final(self).current > old(self).current,
        decreases old(self).measure(), 33int,
    {
        match self.peek().token_type {
            TokenType::Var => {
                self.advance();
                self.var_declaration()
            },
            TokenType::Fun => {
                self.advance();
                self.function("function")
            },
            _ => self.statement(),
        }
    }

    fn function(&mut self, kind: &str) -> (r: Result<Stmt, Error>)
        requires
            old(self).inside(),
        ensures
            old(self).steps_to(*final(self)),
            stmt_result(r, s_function(old(self).tokens(), old(self).position(), kind@), final(self).position()),
            r is Ok ==> final(self).current > old(self).current,
        decreases old(self).measure(), 35int,
    {
        let ghost ts = self.tokens@;
        let ghost start = self.current as int;
        let name_message = kind_message("Expect ", kind, " name.");
        let name = self.consume(TokenType::Identifier, name_message.as_str())?;
        proof { assert(ts[ts.len() - 1].token_type == TokenType::EOF); }
        let paren_message = kind_message("Expect '(' after ", kind, " name.");
        self.consume(TokenType::LeftParen, paren_message.as_str())?;
        proof { assert(ts[ts.len() - 1].token_type == TokenType::EOF); }
        let mut parameters: Vec<Token> = Vec::new();
        assert(tokens_model(parameters@) =~= Seq::<TokenModel>::empty());
        if self.peek().token_type != TokenType::RightParen {
            loop
                invariant_except_break
                    s_params(ts, start + 2, Seq::empty()) == s_params(ts, self.current as int, tokens_model(parameters@)),
                invariant
                    s_params(ts, start + 2, Seq::empty()) matches Parse::Failed(e, q)
                        ==> s_function(ts, start, kind@) == Parse::<StmtModel>::Failed(e, q),
                    old(self).steps_to(*self),
                    self.tokens@ == ts,
                    start == old(self).current,
                    self.current >= start + 2,
                ensures
                    old(self).steps_to(*self),
                    self.tokens@ == ts,
                    self.current >= start + 2,
                    s_params(ts, start + 2, Seq::empty()) == Parse::Parsed(tokens_model(parameters@), self.current as int),
                decreases self.measure(),
            {
                if parameters.len() >= 65535 {
                    return Err(Error::Runtime(RuntimeError::new(self.peek().duplicate(), "Too many arguments.".to_string())));
                }
                let param = self.consume(TokenType::Identifier, "Expect parameter name.")?;
                assert(tokens_model(parameters@.push(param)) =~= tokens_model(parameters@).push(param@));
                parameters.push(param);
                proof { assert(ts[ts.len() - 1].token_type == TokenType::EOF); }
                if self.peek().token_type == TokenType::Comma {
                    self.advance();
                } else {
                    break;
                }
            }
        }
        self.consume(TokenType::RightParen, "Expect ')' after parameters.")?;
        proof { assert(ts[ts.len() - 1].token_type == TokenType::EOF); }
        self.consume(TokenType::LeftBrace, "Expect '{' before function body.")?;
        let body = self.block()?;
        Ok(Stmt::Function(FunctionStmt::new(name, parameters, body)))
    }

    fn var_declaration(&mut self) -> (r: Result<Stmt, Error>)
        requires
            old(self).inside(),
        ensures
            old(self).steps_to(*final(self)),
            stmt_result(r, s_var_decl(old(self).tokens(), old(self).position()), final(self).position()),
            r is Ok ==> final(self).current > old(self).current,
        decreases old(self).measure(), 35int,
    {
        let ghost ts = self.tokens@;
        let name = self.consume(TokenType::Identifier, "Expect variable name.")?;
        proof { assert(ts[ts.len() - 1].token_type == TokenType::EOF); }
        let mut init: Option<Expr> = None;
        if self.peek().token_type == TokenType::Equal {
            self.advance();
            init = Some(self.expression()?);
        }
        self.consume(TokenType::Semicolon, "Expect ';' after variable declaration.")?;
        Ok(Stmt::Var(Var::new(name, init)))
    }

    fn statement(&mut self) -> (r: Result<Stmt, Error>)
        requires
            old(self).inside(),
        ensures
            old(self).steps_to(*final(self)),
            stmt_result(r, s_statement(old(self).tokens(), old(self).position()), final(self).position()),
            r is Ok ==> final(self).current > old(self).current,
        decreases old(self).measure(), 32int,
    {
        match self.peek().token_type {
            TokenType::Print => {
                self.advance();
                self.print_statement()
            },
            TokenType::LeftBrace => {
                self.advance();
                Ok(Stmt::Block(self.block()?))
            },
            TokenType::If => {
                self.advance();
                self.if_statement()
            },
            TokenType::While => {
                self.advance();
                self.while_statement()
            },
            TokenType::For => {
                self.advance();
                self.for_statement()
            },
            TokenType::Return => {
                self.advance();
                self.return_statement()
            },
            _ => self.expression_statement(),
        }
    }

    fn return_statement(&mut self) -> (r: Result<Stmt, Error>)
        requires
            old(self).inside(),
            old(self).current >= 1,
        ensures
            old(self).steps_to(*final(self)),
            stmt_result(r, s_return(old(self).tokens(), old(self).position()), final(self).position()),
            r is Ok ==> final(self).current > old(self).current,
        decreases old(self).measure(), 31int,
    {
        let keyword = self.previous().duplicate();
        let mut value = Expr::Literal(LiteralExpr::new(Literal::Nil));
        if self.peek().token_type != TokenType::Semicolon {
            value = self.expression()?;
        }
        self.consume(TokenType::Semicolon, "Expect ';' after return value.")?;
        Ok(Stmt::Return(ReturnStmt::new(keyword, value)))
    }

    #[verifier::rlimit(60)]
    fn for_statement(&mut self) -> (r: Result<Stmt, Error>)
        requires
            old(self).inside(),
        ensures
            old(self).steps_to(*final(self)),
            stmt_result(r, s_for(old(self).tokens(), old(self).position()), final(self).position()),
            r is Ok ==> final(self).current > old(self).current,
        decreases old(self).measure(), 38int,
    {
        let ghost ts = self.tokens@;
        self.consume(TokenType::LeftParen, "Expect '(' after 'for'.")?;
        proof { assert(ts[ts.len() - 1].token_type == TokenType::EOF); }
        let ghost p1 = self.current as int;
        let init = match self.peek().token_type {
            TokenType::Semicolon => {
                self.advance();
                None
            },
            TokenType::Var => {
                self.advance();
                Some(self.var_declaration()?)
            },
            _ => Some(self.expression_statement()?),
        };
        let ghost init_model = opt_stmt_model(init);
        assert(s_for_init(ts, p1) == Parse::Parsed(init_model, self.current as int));
        let ghost p2 = self.current as int;
        let condition = if self.peek().token_type != TokenType::Semicolon {
            Some(self.expression()?)
        } else {
            None
        };
        let ghost cond_model = opt_expr_model(condition);
        assert(s_opt_expr(ts, p2, TokenType::Semicolon) == Parse::Parsed(cond_model, self.current as int));
        self.consume(TokenType::Semicolon, "Expect ';' after for loop condition.")?;
        proof { assert(ts[ts.len() - 1].token_type == TokenType::EOF); }
        let ghost p3 = self.current as int;
        let increment = if self.peek().token_type != TokenType::RightParen {
            Some(self.expression()?)
        } else {
            None
        };
        let ghost inc_model = opt_expr_model(increment);
        assert(s_opt_expr(ts, p3, TokenType::RightParen) == Parse::Parsed(inc_model, self.current as int));
        self.consume(TokenType::RightParen, "Expect ')' after for loop increment.")?;
        let body = self.statement()?;
        let body = Self::desugar_for(init, condition, increment, body);
        Ok(body)
    }

    /// The loop a `for` statement stands for: its body followed by the
    /// increment, run while the condition (`true` when absent) holds, after
    /// the initializer.
    fn desugar_for(init: Option<Stmt>, condition: Option<Expr>, increment: Option<Expr>, body: Stmt) -> (r: Stmt)
        ensures
            stmt_model(r) == desugar_for(opt_stmt_model(init), opt_expr_model(condition), opt_expr_model(increment), stmt_model(body)),
    {
        let ghost inc = opt_expr_model(increment);
        let ghost cond = opt_expr_model(condition);
        let ghost first = opt_stmt_model(init);
        let ghost looped = match inc {
            Some(i) => StmtModel::Block(seq![stmt_model(body), StmtModel::Expr(i)]),
            None => stmt_model(body),
        };
        let mut body = body;
        if let Some(increment) = increment {
            let mut pair: Vec<Stmt> = Vec::new();
            pair.push(body);
            pair.push(Stmt::Expr(increment));
            proof {
                lemma_stmts_model_two(pair@[0], pair@[1]);
                assert(pair@ =~= seq![pair@[0], pair@[1]]);
            }
            body = Stmt::Block(pair);
        }
        assert(stmt_model(body) == looped);
        let condition = match condition {
            Some(c) => c,
            None => Expr::Literal(LiteralExpr::new(Literal::Bool(true))),
        };
        body = Stmt::While(WhileStmt::new(condition, body));
        let ghost w = stmt_model(body);
        if let Some(init) = init {
            let mut pair: Vec<Stmt> = Vec::new();
            pair.push(init);
            pair.push(body);
            proof {
                lemma_stmts_model_two(pair@[0], pair@[1]);
                assert(pair@ =~= seq![pair@[0], pair@[1]]);
            }
            body = Stmt::Block(pair);
            assert(stmt_model(body) == StmtModel::Block(seq![first->0, w]));
        }
        body
    }

    fn while_statement(&mut self) -> (r: Result<Stmt, Error>)
        requires
            old(self).inside(),
        ensures
            old(self).steps_to(*final(self)),
            stmt_result(r, s_while(old(self).tokens(), old(self).position()), final(self).position()),
            r is Ok ==> final(self).current > old(self).current,
        decreases old(self).measure(), 35int,
    {
        let ghost ts = self.tokens@;
        self.consume(TokenType::LeftParen, "Expect '(' after 'while'.")?;
        let condition = self.expression()?;
        self.consume(TokenType::RightParen, "Expect ')' after condition.")?;
        let body = self.statement()?;
        Ok(Stmt::While(WhileStmt::new(condition, body)))
    }

    fn if_statement(&mut self) -> (r: Result<Stmt, Error>)
        requires
            old(self).inside(),
        ensures
            old(self).steps_to(*final(self)),
            stmt_result(r, s_if(old(self).tokens(), old(self).position()), final(self).position()),
            r is Ok ==> final(self).current > old(self).current,
        decreases old(self).measure(), 35int,
    {
        let ghost ts = self.tokens@;
        self.consume(TokenType::LeftParen, "Expect '(' after 'if'.")?;
        let condition = self.expression()?;
        self.consume(TokenType::RightParen, "Expect ')' after 'if condition.")?;
        let then_branch = self.statement()?;
        let mut else_branch = None;
        proof { assert(ts[ts.len() - 1].token_type == TokenType::EOF); }
        if self.peek().token_type == TokenType::Else {
            self.advance();
            else_branch = Some(self.statement()?);
        }
        Ok(Stmt::If(IfStmt::new(condition, then_branch, else_branch)))
    }

    fn block(&mut self) -> (r: Result<Vec<Stmt>, Error>)
        requires
            old(self).inside(),
        ensures
            old(self).steps_to(*final(self)),
            stmts_result(r, s_block(old(self).tokens(), old(self).position(), Seq::empty()), final(self).position()),
            r is Ok ==> final(self).current > old(self).current,
        decreases old(self).measure(), 34int,
    {
        let ghost ts = self.tokens@;
        let ghost start = self.current as int;
        let mut statements: Vec<Stmt> = Vec::new();
        proof { lemma_stmts_model_push(statements@, Stmt::Print(Expr::Literal(LiteralExpr { value: Literal::Nil }))); }
        assert(stmts_model(statements@) =~= Seq::<StmtModel>::empty());
        while !self.at_end() && self.peek().token_type != TokenType::RightBrace
            invariant
                old(self).steps_to(*self),
                self.tokens@ == ts,
                start == old(self).current,
                self.current >= start,
                stmts_model(statements@).len() == statements@.len(),
                s_block(ts, start, Seq::empty()) == s_block(ts, self.current as int, stmts_model(statements@)),
            decreases self.measure(),
        {
            let s = self.declaration()?;
            proof { lemma_stmts_model_push(statements@, s); }
            statements.push(s);
        }
        self.consume(TokenType::RightBrace, "Expect '}' after block.")?;
        Ok(statements)
    }

    fn print_statement(&mut self) -> (r: Result<Stmt, Error>)
        requires
            old(self).inside(),
        ensures
            old(self).steps_to(*final(self)),
            stmt_result(r, s_print(old(self).tokens(), old(self).position()), final(self).position()),
            r is Ok ==> final(self).current > old(self).current,
        decreases old(self).measure(), 31int,
    {
        let value = self.expression()?;
        self.consume(TokenType::Semicolon, "Expect ';' after value.")?;
        Ok(Stmt::Print(value))
    }

    fn expression_statement(&mut self) -> (r: Result<Stmt, Error>)
        requires
            old(self).inside(),
        ensures
            old(self).steps_to(*final(self)),
            stmt_result(r, s_expr_stmt(old(self).tokens(), old(self).position()), final(self).position()),
            r is Ok ==> final(self).current > old(self).current,
        decreases old(self).measure(), 31int,
    {
        let expr = self.expression()?;
        self.consume(TokenType::Semicolon, "Expect ';' after expression.")?;
        Ok(Stmt::Expr(expr))
    }

    fn expression(&mut self) -> (r: Result<Expr, Error>)
        requires
            old(self).inside(),
        ensures
            old(self).steps_to(*final(self)),
            expr_result(r, p_expression(old(self).tokens(), old(self).position()), final(self).position()),
            r is Ok ==> final(self).current > old(self).current,
        decreases old(self).measure(), 30int,
    {
        self.assignment()
    }

    fn assignment(&mut self) -> (r: Result<Expr, Error>)
        requires
            old(self).inside(),
        ensures
            old(self).steps_to(*final(self)),
            expr_result(r, p_assignment(old(self).tokens(), old(self).position()), final(self).position()),
            r is Ok ==> final(self).current > old(self).current,
        decreases old(self).measure(), 29int,
    {
        let expr = self.or()?;
        if self.peek().token_type == TokenType::Equal {
            self.advance();
            let value = self.assignment()?;
            if let Expr::Variable(v) = expr {
                return Ok(Expr::Assign(AssignExpr::new(v, value)));
            }
        }
        Ok(expr)
    }

    fn or(&mut self) -> (r: Result<Expr, Error>)
        requires
            old(self).inside(),
        ensures
            old(self).steps_to(*final(self)),
            expr_result(r, p_level(old(self).tokens(), old(self).position(), 0), final(self).position()),
            r is Ok ==> final(self).current > old(self).current,
        decreases old(self).measure(), 27int,
    {
        let ghost ts = self.tokens@;
        let ghost start = self.current as int;
        proof { assert(p_operand(ts, start, 0) == p_level(ts, start, 1)); }
        let mut expr = self.and()?;
        while self.peek().token_type == TokenType::Or
            invariant
                old(self).steps_to(*self),
                self.current > old(self).current,
                self.tokens@ == ts,
                start == old(self).current,
                p_level(ts, start, 0) == p_level_rest(ts, self.current as int, expr_model(expr), 0),
            decreases self.measure(),
        {
            let ghost cur = self.current as int;
            proof {
                assert(ts[ts.len() - 1].token_type == TokenType::EOF);
                assert(p_operand(ts, cur + 1, 0) == p_level(ts, cur + 1, 1));
            }
            let operator = self.advance();
            let right = self.and()?;
            expr = Expr::Logical(LogicalExpr::new(expr, operator, right));
        }
        Ok(expr)
    }

    fn and(&mut self) -> (r: Result<Expr, Error>)
        requires
            old(self).inside(),
        ensures
            old(self).steps_to(*final(self)),
            expr_result(r, p_level(old(self).tokens(), old(self).position(), 1), final(self).position()),
            r is Ok ==> final(self).current > old(self).current,
        decreases old(self).measure(), 25int,
    {
        let ghost ts = self.tokens@;
        let ghost start = self.current as int;
        proof { assert(p_operand(ts, start, 1) == p_level(ts, start, 2)); }
        let mut expr = self.equality()?;
        while self.peek().token_type == TokenType::And
            invariant
                old(self).steps_to(*self),
                self.current > old(self).current,
                self.tokens@ == ts,
                start == old(self).current,
                p_level(ts, start, 1) == p_level_rest(ts, self.current as int, expr_model(expr), 1),
            decreases self.measure(),
        {
            let ghost cur = self.current as int;
            proof {
                assert(ts[ts.len() - 1].token_type == TokenType::EOF);
                assert(p_operand(ts, cur + 1, 1) == p_level(ts, cur + 1, 2));
            }
            let operator = self.advance();
            let right = self.equality()?;
            expr = Expr::Logical(LogicalExpr::new(expr, operator, right));
        }
        Ok(expr)
    }

    fn equality(&mut self) -> (r: Result<Expr, Error>)
        requires
            old(self).inside(),
        ensures
            old(self).steps_to(*final(self)),
            expr_result(r, p_level(old(self).tokens(), old(self).position(), 2), final(self).position()),
            r is Ok ==> final(self).current > old(self).current,
        decreases old(self).measure(), 23int,
    {
        let ghost ts = self.tokens@;
        let ghost start = self.current as int;
        proof { assert(p_operand(ts, start, 2) == p_level(ts, start, 3)); }
        let mut expr = self.comparison()?;
        while self.peek().token_type == TokenType::BangEqual || self.peek().token_type == TokenType::EqualEqual
            invariant
                old(self).steps_to(*self),
                self.current > old(self).current,
                self.tokens@ == ts,
                start == old(self).current,
                p_level(ts, start, 2) == p_level_rest(ts, self.current as int, expr_model(expr), 2),
            decreases self.measure(),
        {
            let ghost cur = self.current as int;
            proof {
                assert(ts[ts.len() - 1].token_type == TokenType::EOF);
                assert(p_operand(ts, cur + 1, 2) == p_level(ts, cur + 1, 3));
            }
            let operator = self.advance();
            let right = self.comparison()?;
            expr = Expr::Binary(BinaryExpr::new(expr, operator, right));
        }
        Ok(expr)
    }

    fn comparison(&mut self) -> (r: Result<Expr, Error>)
        requires
            old(self).inside(),
        ensures
            old(self).steps_to(*final(self)),
            expr_result(r, p_level(old(self).tokens(), old(self).position(), 3), final(self).position()),
            r is Ok ==> final(self).current > old(self).current,
        decreases old(self).measure(), 21int,
    {
        let ghost ts = self.tokens@;
        let ghost start = self.current as int;
        proof { assert(p_operand(ts, start, 3) == p_level(ts, start, 4)); }
        let mut expr = self.term()?;
        while self.peek().token_type == TokenType::Greater || self.peek().token_type == TokenType::GreaterEqual
            || self.peek().token_type == TokenType::Less || self.peek().token_type == TokenType::LessEqual
            invariant
                old(self).steps_to(*self),
                self.current > old(self).current,
                self.tokens@ == ts,
                start == old(self).current,
                p_level(ts, start, 3) == p_level_rest(ts, self.current as int, expr_model(expr), 3),
            decreases self.measure(),
        {
            let ghost cur = self.current as int;
            proof {
                assert(ts[ts.len() - 1].token_type == TokenType::EOF);
                assert(p_operand(ts, cur + 1, 3) == p_level(ts, cur + 1, 4));
            }
            let operator = self.advance();
            let right = self.term()?;
            expr = Expr::Binary(BinaryExpr::new(expr, operator, right));
        }
        Ok(expr)
    }

    fn term(&mut self) -> (r: Result<Expr, Error>)
        requires
            old(self).inside(),
        ensures
            old(self).steps_to(*final(self)),
            expr_result(r, p_level(old(self).tokens(), old(self).position(), 4), final(self).position()),
            r is Ok ==> final(self).current > old(self).current,
        decreases old(self).measure(), 19int,
    {
        let ghost ts = self.tokens@;
        let ghost start = self.current as int;
        proof { assert(p_operand(ts, start, 4) == p_level(ts, start, 5)); }
        let mut expr = self.factor()?;
        while self.peek().token_type == TokenType::Minus || self.peek().token_type == TokenType::Plus
            invariant
                old(self).steps_to(*self),
                self.current > old(self).current,
                self.tokens@ == ts,
                start == old(self).current,
                p_level(ts, start, 4) == p_level_rest(ts, self.current as int, expr_model(expr), 4),
            decreases self.measure(),
        {
            let ghost cur = self.current as int;
            proof {
                assert(ts[ts.len() - 1].token_type == TokenType::EOF);
                assert(p_operand(ts, cur + 1, 4) == p_level(ts, cur + 1, 5));
            }
            let operator = self.advance();
            let right = self.factor()?;
            expr = Expr::Binary(BinaryExpr::new(expr, operator, right));
        }
        Ok(expr)
    }

    fn factor(&mut self) -> (r: Result<Expr, Error>)
        requires
            old(self).inside(),
        ensures
            old(self).steps_to(*final(self)),
            expr_result(r, p_level(old(self).tokens(), old(self).position(), 5), final(self).position()),
            r is Ok ==> final(self).current > old(self).current,
        decreases old(self).measure(), 17int,
    {
        let ghost ts = self.tokens@;
        let ghost start = self.current as int;
        proof { assert(p_operand(ts, start, 5) == p_unary(ts, start)); }
        let mut expr = self.unary()?;
        while self.peek().token_type == TokenType::Slash || self.peek().token_type == TokenType::Star
            invariant
                old(self).steps_to(*self),
                self.current > old(self).current,
                self.tokens@ == ts,
                start == old(self).current,
                p_level(ts, start, 5) == p_level_rest(ts, self.current as int, expr_model(expr), 5),
            decreases self.measure(),
        {
            let ghost cur = self.current as int;
            proof {
                assert(ts[ts.len() - 1].token_type == TokenType::EOF);
                assert(p_operand(ts, cur + 1, 5) == p_unary(ts, cur + 1));
            }
            let operator = self.advance();
            let right = self.unary()?;
            expr = Expr::Binary(BinaryExpr::new(expr, operator, right));
        }
        Ok(expr)
    }

    fn unary(&mut self) -> (r: Result<Expr, Error>)
        requires
            old(self).inside(),
        ensures
            old(self).steps_to(*final(self)),
            expr_result(r, p_unary(old(self).tokens(), old(self).position()), final(self).position()),
            r is Ok ==> final(self).current > old(self).current,
        decreases old(self).measure(), 15int,
    {
        match self.peek().token_type {
            TokenType::Bang | TokenType::Minus => {
                let operator = self.advance();
                let right = self.unary()?;
                Ok(Expr::Unary(UnaryExpr::new(operator, right)))
            },
            _ => self.call(),
        }
    }

    fn call(&mut self) -> (r: Result<Expr, Error>)
        requires
            old(self).inside(),
        ensures
            old(self).steps_to(*final(self)),
            expr_result(r, p_call(old(self).tokens(), old(self).position()), final(self).position()),
            r is Ok ==> final(self).current > old(self).current,
        decreases old(self).measure(), 14int,
    {
        let ghost ts = self.tokens@;
        let ghost start = self.current as int;
        let mut expr = self.primary()?;
        while self.peek().token_type == TokenType::LeftParen
            invariant
                old(self).steps_to(*self),
                self.current > old(self).current,
                self.tokens@ == ts,
                start == old(self).current,
                p_call(ts, start) == p_call_rest(ts, self.current as int, expr_model(expr)),
            decreases self.measure(),
        {
            proof { assert(ts[ts.len() - 1].token_type == TokenType::EOF); }
            self.advance();
            expr = self.finish_call(expr)?;
        }
        Ok(expr)
    }

    /// Parses the arguments and `)` of a call to `callee`.
    #[verifier::rlimit(40)]
    fn finish_call(&mut self, callee: Expr) -> (r: Result<Expr, Error>)
        requires
            old(self).inside(),
        ensures
            old(self).steps_to(*final(self)),
            expr_result(r, p_finish_call(old(self).tokens(), old(self).position(), expr_model(callee)), final(self).position()),
            r is Ok ==> final(self).current > old(self).current,
        decreases old(self).measure(), 41int,
    {
        let ghost ts = self.tokens@;
        let ghost start = self.current as int;
        let ghost cm = expr_model(callee);
        let mut args: Vec<Expr> = Vec::new();
        proof { assert(exprs_model(args@) =~= Seq::<ExprModel>::empty()); }
        assert(exprs_model(args@).len() == 0);
        if self.peek().token_type != TokenType::RightParen {
            loop
                invariant_except_break
                    p_finish_call(ts, start, cm) == p_args(ts, self.current as int, cm, exprs_model(args@)),
                invariant
                    old(self).steps_to(*self),
                    self.tokens@ == ts,
                    self.current >= start,
                    start == old(self).current,
                    exprs_model(args@).len() == args@.len(),
                    cm == expr_model(callee),
                ensures
                    old(self).steps_to(*self),
                    self.tokens@ == ts,
                    self.current >= start,
                    p_finish_call(ts, start, cm) == p_close_call(ts, self.current as int, cm, exprs_model(args@)),
                decreases self.measure(),
            {
                if args.len() >= 65535 {
                    return Err(Error::Parser(ParserError::new(self.peek().duplicate(), "Too many arguments.".to_string())));
                }
                let ghost pos = self.current as int;
                let ghost am = exprs_model(args@);
                let a = self.expression()?;
                proof {
                    lemma_args_step(ts, pos, cm, am, p_expression(ts, pos));
                    lemma_exprs_model_push(args@, a);
                }
                args.push(a);
                if self.peek().token_type == TokenType::Comma {
                    proof { assert(ts[ts.len() - 1].token_type == TokenType::EOF); }
                    self.advance();
                } else {
                    break;
                }
            }
        }
        let paren = self.consume(TokenType::RightParen, "Expected ')' after arguments.")?;
        Ok(Expr::Call(CallExpr::new(callee, paren, args)))
    }

    fn primary(&mut self) -> (r: Result<Expr, Error>)
        requires
            old(self).inside(),
        ensures
            old(self).steps_to(*final(self)),
            expr_result(r, p_primary(old(self).tokens(), old(self).position()), final(self).position()),
            r is Ok ==> final(self).current > old(self).current,
        decreases old(self).measure(), 12int,
    {
        match self.peek().token_type {
            TokenType::False => {
                self.advance();
                Ok(Expr::Literal(LiteralExpr::new(Literal::Bool(false))))
            },
            TokenType::True => {
                self.advance();
                Ok(Expr::Literal(LiteralExpr::new(Literal::Bool(true))))
            },
            TokenType::Nil => {
                self.advance();
                Ok(Expr::Literal(LiteralExpr::new(Literal::Nil)))
            },
            TokenType::Number | TokenType::String => {
                let value = self.advance();
                let literal = match value.literal {
                    Some(l) => l,
                    None => {
                        proof { assert(false); }
                        Literal::Nil
                    },
                };
                Ok(Expr::Literal(LiteralExpr::new(literal)))
            },
            TokenType::LeftParen => {
                self.advance();
                let expr = self.expression()?;
                self.consume(TokenType::RightParen, "Expected ')' after expression.")?;
                Ok(Expr::Grouping(GroupingExpr::new(expr)))
            },
            TokenType::Identifier => {
                self.advance();
                Ok(Expr::Variable(self.previous().duplicate()))
            },
            _ => Err(Error::Parser(ParserError::new(self.peek().duplicate(), "Expected expression.".to_string()))),
        }
    }
}

} // verus!
