use vstd::prelude::*;

use crate::ast::error::Error;
use crate::ast::stmt::{Stmt, StmtModel, stmts_model};
use crate::ast::token::{LiteralModel, Token, TokenModel, TokenType};
use crate::expr::{Expr, ExprModel, expr_model, exprs_model};

verus! {

/// What the parser needs of its tokens: they end with the end of input,
/// and every number and string token carries its literal.
pub open spec fn tokens_ok(ts: Seq<Token>) -> bool {
    &&& ts.len() > 0
    &&& ts.last().token_type == TokenType::EOF
    &&& forall|i: int| 0 <= i < ts.len() && (#[trigger] ts[i].token_type == TokenType::Number || ts[i].token_type == TokenType::String)
        ==> ts[i].literal is Some
}

/// A parse error: its kind, the token it was found at, and its message.
pub enum ErrModel {
    Scan(int, Seq<char>),
    Parser(TokenModel, Seq<char>),
    Runtime(TokenModel, Seq<char>),
}

pub open spec fn err_model(e: Error) -> ErrModel {
    match e {
        Error::Scan(s) => ErrModel::Scan(s.line as int, s.message@),
        Error::Parser(p) => ErrModel::Parser(p.token@, p.message@),
        Error::Runtime(r) => ErrModel::Runtime(r.token@, r.message@),
    }
}

/// What a parse from a position gives: a tree and the position after it,
/// or an error and the position the parser stands at when it gives up
/// (that of the token the error names).
pub enum Parse<T> {
    Parsed(T, int),
    Failed(ErrModel, int),
}

/// Type of the token at `pos`.
pub open spec fn kind_at(ts: Seq<Token>, pos: int) -> TokenType {
    ts[pos].token_type
}

/// The operators of the binary levels, loosest first: `or`, `and`,
/// equality, comparison, term, factor.
pub open spec fn level_op(lvl: int, t: TokenType) -> bool {
    if lvl == 0 { t == TokenType::Or }
    else if lvl == 1 { t == TokenType::And }
    else if lvl == 2 { t == TokenType::BangEqual || t == TokenType::EqualEqual }
    else if lvl == 3 { t == TokenType::Greater || t == TokenType::GreaterEqual || t == TokenType::Less || t == TokenType::LessEqual }
    else if lvl == 4 { t == TokenType::Minus || t == TokenType::Plus }
    else { t == TokenType::Slash || t == TokenType::Star }
}

/// The node a binary level builds: logical for `or` and `and`.
pub open spec fn level_node(lvl: int, left: ExprModel, op: TokenModel, right: ExprModel) -> ExprModel {
    if lvl <= 1 {
        ExprModel::Logical(Box::new(left), op, Box::new(right))
    } else {
        ExprModel::Binary(Box::new(left), op, Box::new(right))
    }
}

/// `expression := assignment`
pub open spec fn p_expression(ts: Seq<Token>, pos: int) -> Parse<ExprModel>
    decreases ts.len() - pos, 30int,
{
    if !(0 <= pos < ts.len()) { Parse::Failed(ErrModel::Scan(0, Seq::empty()), 0) } else { p_assignment(ts, pos) }
}

/// `assignment := or ( "=" assignment )?`, the assignment kept only when
/// its target is a variable.
pub open spec fn p_assignment(ts: Seq<Token>, pos: int) -> Parse<ExprModel>
    decreases ts.len() - pos, 29int,
{
    if !(0 <= pos < ts.len()) {
        Parse::Failed(ErrModel::Scan(0, Seq::empty()), 0)
    } else {
        match p_level(ts, pos, 0) {
            Parse::Parsed(expr, p1) => if !(pos <= p1 < ts.len()) {
                Parse::Failed(ErrModel::Scan(0, Seq::empty()), 0)
            } else if kind_at(ts, p1) == TokenType::Equal {
                match p_assignment(ts, p1 + 1) {
                    Parse::Parsed(value, p2) => match expr {
                        ExprModel::Variable(t) => Parse::Parsed(ExprModel::Assign(t, Box::new(value)), p2),
                        _ => Parse::Parsed(expr, p2),
                    },
                    Parse::Failed(e, q) => Parse::Failed(e, q),
                }
            } else {
                Parse::Parsed(expr, p1)
            },
            Parse::Failed(e, q) => Parse::Failed(e, q),
        }
    }
}

/// A binary level: the next level, then any number of this level's
/// operators each followed by the next level, grouped to the left.
pub open spec fn p_level(ts: Seq<Token>, pos: int, lvl: int) -> Parse<ExprModel>
    decreases ts.len() - pos, 27 - 2 * lvl,
{
    if !(0 <= pos < ts.len()) || lvl < 0 || lvl > 5 {
        Parse::Failed(ErrModel::Scan(0, Seq::empty()), 0)
    } else {
        match p_operand(ts, pos, lvl) {
            Parse::Parsed(left, p1) => if !(pos <= p1 <= ts.len()) { Parse::Failed(ErrModel::Scan(0, Seq::empty()), 0) } else { p_level_rest(ts, p1, left, lvl) },
            Parse::Failed(e, q) => Parse::Failed(e, q),
        }
    }
}

/// The operand of a binary level: the next level, or a unary expression
/// below the factor level.
pub open spec fn p_operand(ts: Seq<Token>, pos: int, lvl: int) -> Parse<ExprModel>
    decreases ts.len() - pos, 26 - 2 * lvl,
{
    if !(0 <= pos < ts.len()) || lvl < 0 || lvl > 5 {
        Parse::Failed(ErrModel::Scan(0, Seq::empty()), 0)
    } else if lvl == 5 {
        p_unary(ts, pos)
    } else {
        p_level(ts, pos, lvl + 1)
    }
}

pub open spec fn p_level_rest(ts: Seq<Token>, pos: int, left: ExprModel, lvl: int) -> Parse<ExprModel>
    decreases ts.len() - pos, 26 - 2 * lvl,
{
    if !(0 <= pos < ts.len()) || lvl < 0 || lvl > 5 {
        Parse::Failed(ErrModel::Scan(0, Seq::empty()), 0)
    } else if level_op(lvl, kind_at(ts, pos)) {
        match p_operand(ts, pos + 1, lvl) {
            Parse::Parsed(right, p2) => if !(pos < p2 <= ts.len()) {
                Parse::Failed(ErrModel::Scan(0, Seq::empty()), 0)
            } else {
                p_level_rest(ts, p2, level_node(lvl, left, ts[pos]@, right), lvl)
            },
            Parse::Failed(e, q) => Parse::Failed(e, q),
        }
    } else {
        Parse::Parsed(left, pos)
    }
}

/// `unary := ( "!" | "-" ) unary | call`
pub open spec fn p_unary(ts: Seq<Token>, pos: int) -> Parse<ExprModel>
    decreases ts.len() - pos, 15int,
{
    if !(0 <= pos < ts.len()) {
        Parse::Failed(ErrModel::Scan(0, Seq::empty()), 0)
    } else if kind_at(ts, pos) == TokenType::Bang || kind_at(ts, pos) == TokenType::Minus {
        match p_unary(ts, pos + 1) {
            Parse::Parsed(right, p1) => Parse::Parsed(ExprModel::Unary(ts[pos]@, Box::new(right)), p1),
            Parse::Failed(e, q) => Parse::Failed(e, q),
        }
    } else {
        p_call(ts, pos)
    }
}

/// `call := primary ( "(" arguments? ")" )*`
pub open spec fn p_call(ts: Seq<Token>, pos: int) -> Parse<ExprModel>
    decreases ts.len() - pos, 14int,
{
    if !(0 <= pos < ts.len()) {
        Parse::Failed(ErrModel::Scan(0, Seq::empty()), 0)
    } else {
        match p_primary(ts, pos) {
            Parse::Parsed(e, p1) => if !(pos <= p1 <= ts.len()) { Parse::Failed(ErrModel::Scan(0, Seq::empty()), 0) } else { p_call_rest(ts, p1, e) },
            Parse::Failed(err, q) => Parse::Failed(err, q),
        }
    }
}

pub open spec fn p_call_rest(ts: Seq<Token>, pos: int, callee: ExprModel) -> Parse<ExprModel>
    decreases ts.len() - pos, 13int,
{
    if !(0 <= pos < ts.len()) {
        Parse::Failed(ErrModel::Scan(0, Seq::empty()), 0)
    } else if kind_at(ts, pos) == TokenType::LeftParen {
        match p_finish_call(ts, pos + 1, callee) {
            Parse::Parsed(e, p1) => if !(pos < p1 <= ts.len()) { Parse::Failed(ErrModel::Scan(0, Seq::empty()), 0) } else { p_call_rest(ts, p1, e) },
            Parse::Failed(err, q) => Parse::Failed(err, q),
        }
    } else {
        Parse::Parsed(callee, pos)
    }
}

/// The arguments and `)` of a call, after its `(`.
pub open spec fn p_finish_call(ts: Seq<Token>, pos: int, callee: ExprModel) -> Parse<ExprModel>
    decreases ts.len() - pos, 41int,
{
    if !(0 <= pos < ts.len()) {
        Parse::Failed(ErrModel::Scan(0, Seq::empty()), 0)
    } else if kind_at(ts, pos) != TokenType::RightParen {
        p_args(ts, pos, callee, Seq::empty())
    } else {
        p_close_call(ts, pos, callee, Seq::empty())
    }
}

/// Most arguments a call may have.
pub open spec fn max_args() -> int {
    65535
}

pub open spec fn p_args(ts: Seq<Token>, pos: int, callee: ExprModel, args: Seq<ExprModel>) -> Parse<ExprModel>
    decreases ts.len() - pos, 40int,
{
    if !(0 <= pos < ts.len()) {
        Parse::Failed(ErrModel::Scan(0, Seq::empty()), 0)
    } else if args.len() >= max_args() {
        Parse::Failed(ErrModel::Parser(ts[pos]@, "Too many arguments."@), pos)
    } else {
        match p_expression(ts, pos) {
            Parse::Parsed(a, p1) => if !(pos <= p1 < ts.len()) {
                Parse::Failed(ErrModel::Scan(0, Seq::empty()), 0)
            } else if kind_at(ts, p1) == TokenType::Comma {
                p_args(ts, p1 + 1, callee, args.push(a))
            } else {
                p_close_call(ts, p1, callee, args.push(a))
            },
            Parse::Failed(e, q) => Parse::Failed(e, q),
        }
    }
}

pub open spec fn p_close_call(ts: Seq<Token>, pos: int, callee: ExprModel, args: Seq<ExprModel>) -> Parse<ExprModel> {
    if !(0 <= pos < ts.len()) {
        Parse::Failed(ErrModel::Scan(0, Seq::empty()), 0)
    } else if kind_at(ts, pos) == TokenType::RightParen {
        Parse::Parsed(ExprModel::Call(Box::new(callee), ts[pos]@, args), pos + 1)
    } else {
        Parse::Failed(ErrModel::Parser(ts[pos]@, "Expected ')' after arguments."@), pos)
    }
}

/// `primary := "false" | "true" | "nil" | NUMBER | STRING | "(" expression ")" | IDENTIFIER`
pub open spec fn p_primary(ts: Seq<Token>, pos: int) -> Parse<ExprModel>
    decreases ts.len() - pos, 12int,
{
    if !(0 <= pos < ts.len()) {
        Parse::Failed(ErrModel::Scan(0, Seq::empty()), 0)
    } else {
        match kind_at(ts, pos) {
            TokenType::False => Parse::Parsed(ExprModel::Literal(LiteralModel::Bool(false)), pos + 1),
            TokenType::True => Parse::Parsed(ExprModel::Literal(LiteralModel::Bool(true)), pos + 1),
            TokenType::Nil => Parse::Parsed(ExprModel::Literal(LiteralModel::Nil), pos + 1),
            TokenType::Number | TokenType::String => Parse::Parsed(ExprModel::Literal(ts[pos]@.literal->0), pos + 1),
            TokenType::LeftParen => match p_expression(ts, pos + 1) {
                Parse::Parsed(e, p1) => if !(0 <= p1 < ts.len()) {
                    Parse::Failed(ErrModel::Scan(0, Seq::empty()), 0)
                } else if kind_at(ts, p1) == TokenType::RightParen {
                    Parse::Parsed(ExprModel::Grouping(Box::new(e)), p1 + 1)
                } else {
                    Parse::Failed(ErrModel::Parser(ts[p1]@, "Expected ')' after expression."@), p1)
                },
                Parse::Failed(err, q) => Parse::Failed(err, q),
            },
            TokenType::Identifier => Parse::Parsed(ExprModel::Variable(ts[pos]@), pos + 1),
            _ => Parse::Failed(ErrModel::Parser(ts[pos]@, "Expected expression."@), pos),
        }
    }
}

/// Whether an expression result is the one a spec parse gives, ending at
/// `at`.
pub open spec fn expr_result(r: Result<Expr, Error>, p: Parse<ExprModel>, at: int) -> bool {
    match p {
        Parse::Parsed(m, q) => r matches Ok(e) && expr_model(e) == m && at == q,
        Parse::Failed(err, q) => r matches Err(e) && err_model(e) == err && at == q,
    }
}

/// A parse that failed on tokens the parser never hands over: a position
/// out of range. The parser's own invariants rule it out.
pub open spec fn out_of_range<T>() -> Parse<T> {
    Parse::Failed(ErrModel::Scan(0, Seq::empty()), 0)
}

/// The error for a missing token at `pos`.
pub open spec fn expected(ts: Seq<Token>, pos: int, message: Seq<char>) -> ErrModel {
    ErrModel::Parser(ts[pos]@, message)
}

/// The token `kind` closes the statement `s` at `pos`.
pub open spec fn s_close(ts: Seq<Token>, pos: int, kind: TokenType, message: Seq<char>, s: StmtModel) -> Parse<StmtModel> {
    if !(0 <= pos < ts.len()) {
        out_of_range()
    } else if kind_at(ts, pos) == kind {
        Parse::Parsed(s, pos + 1)
    } else {
        Parse::Failed(expected(ts, pos, message), pos)
    }
}

/// `program := declaration* EOF`
pub open spec fn s_program(ts: Seq<Token>, pos: int, acc: Seq<StmtModel>) -> Parse<Seq<StmtModel>>
    decreases ts.len() - pos, 36int,
{
    if !(0 <= pos < ts.len()) {
        out_of_range()
    } else if kind_at(ts, pos) == TokenType::EOF {
        Parse::Parsed(acc, pos)
    } else {
        match s_declaration(ts, pos) {
            Parse::Parsed(s, p1) => if !(pos < p1 <= ts.len()) { out_of_range() } else { s_program(ts, p1, acc.push(s)) },
            Parse::Failed(e, q) => Parse::Failed(e, q),
        }
    }
}

/// `declaration := "var" varDecl | "fun" function | statement`
pub open spec fn s_declaration(ts: Seq<Token>, pos: int) -> Parse<StmtModel>
    decreases ts.len() - pos, 33int,
{
    if !(0 <= pos < ts.len()) {
        out_of_range()
    } else if kind_at(ts, pos) == TokenType::Var {
        s_var_decl(ts, pos + 1)
    } else if kind_at(ts, pos) == TokenType::Fun {
        s_function(ts, pos + 1, "function"@)
    } else {
        s_statement(ts, pos)
    }
}

/// `varDecl := IDENTIFIER ( "=" expression )? ";"`
pub open spec fn s_var_decl(ts: Seq<Token>, pos: int) -> Parse<StmtModel>
    decreases ts.len() - pos, 35int,
{
    if !(0 <= pos < ts.len()) {
        out_of_range()
    } else if kind_at(ts, pos) != TokenType::Identifier {
        Parse::Failed(expected(ts, pos, "Expect variable name."@), pos)
    } else if !(pos + 1 < ts.len()) {
        out_of_range()
    } else if kind_at(ts, pos + 1) == TokenType::Equal {
        match p_expression(ts, pos + 2) {
            Parse::Parsed(init, p2) => s_close(ts, p2, TokenType::Semicolon, "Expect ';' after variable declaration."@,
                StmtModel::Var(ts[pos]@, Some(init))),
            Parse::Failed(e, q) => Parse::Failed(e, q),
        }
    } else {
        s_close(ts, pos + 1, TokenType::Semicolon, "Expect ';' after variable declaration."@, StmtModel::Var(ts[pos]@, None))
    }
}

/// `function := IDENTIFIER "(" parameters? ")" "{" block`, its messages
/// naming the kind of function.
pub open spec fn s_function(ts: Seq<Token>, pos: int, kind: Seq<char>) -> Parse<StmtModel>
    decreases ts.len() - pos, 35int,
{
    if !(0 <= pos < ts.len()) {
        out_of_range()
    } else if kind_at(ts, pos) != TokenType::Identifier {
        Parse::Failed(expected(ts, pos, "Expect "@ + kind + " name."@), pos)
    } else if !(pos + 1 < ts.len()) {
        out_of_range()
    } else if kind_at(ts, pos + 1) != TokenType::LeftParen {
        Parse::Failed(expected(ts, pos + 1, "Expect '(' after "@ + kind + " name."@), pos + 1)
    } else if !(pos + 2 < ts.len()) {
        out_of_range()
    } else {
        let params = if kind_at(ts, pos + 2) != TokenType::RightParen {
            s_params(ts, pos + 2, Seq::empty())
        } else {
            Parse::Parsed(Seq::empty(), pos + 2)
        };
        match params {
            Parse::Parsed(ps, p3) => if !(pos + 2 <= p3 < ts.len()) {
                out_of_range()
            } else if kind_at(ts, p3) != TokenType::RightParen {
                Parse::Failed(expected(ts, p3, "Expect ')' after parameters."@), p3)
            } else if !(p3 + 1 < ts.len()) {
                out_of_range()
            } else if kind_at(ts, p3 + 1) != TokenType::LeftBrace {
                Parse::Failed(expected(ts, p3 + 1, "Expect '{' before function body."@), p3 + 1)
            } else {
                match s_block(ts, p3 + 2, Seq::empty()) {
                    Parse::Parsed(body, p4) => Parse::Parsed(StmtModel::Function(ts[pos]@, ps, body), p4),
                    Parse::Failed(e, q) => Parse::Failed(e, q),
                }
            },
            Parse::Failed(e, q) => Parse::Failed(e, q),
        }
    }
}

/// `parameters := IDENTIFIER ( "," IDENTIFIER )*`, at most `max_args()`
/// of them.
pub open spec fn s_params(ts: Seq<Token>, pos: int, acc: Seq<TokenModel>) -> Parse<Seq<TokenModel>>
    decreases ts.len() - pos,
{
    if !(0 <= pos < ts.len()) {
        out_of_range()
    } else if acc.len() >= max_args() {
        Parse::Failed(ErrModel::Runtime(ts[pos]@, "Too many arguments."@), pos)
    } else if kind_at(ts, pos) != TokenType::Identifier {
        Parse::Failed(expected(ts, pos, "Expect parameter name."@), pos)
    } else if !(pos + 1 < ts.len()) {
        out_of_range()
    } else if kind_at(ts, pos + 1) == TokenType::Comma {
        s_params(ts, pos + 2, acc.push(ts[pos]@))
    } else {
        Parse::Parsed(acc.push(ts[pos]@), pos + 1)
    }
}

/// `statement := printStmt | block | ifStmt | whileStmt | forStmt | returnStmt | exprStmt`
pub open spec fn s_statement(ts: Seq<Token>, pos: int) -> Parse<StmtModel>
    decreases ts.len() - pos, 32int,
{
    if !(0 <= pos < ts.len()) {
        out_of_range()
    } else {
        match kind_at(ts, pos) {
            TokenType::Print => s_print(ts, pos + 1),
            TokenType::LeftBrace => match s_block(ts, pos + 1, Seq::empty()) {
                Parse::Parsed(ss, p1) => Parse::Parsed(StmtModel::Block(ss), p1),
                Parse::Failed(e, q) => Parse::Failed(e, q),
            },
            TokenType::If => s_if(ts, pos + 1),
            TokenType::While => s_while(ts, pos + 1),
            TokenType::For => s_for(ts, pos + 1),
            TokenType::Return => s_return(ts, pos + 1),
            _ => s_expr_stmt(ts, pos),
        }
    }
}

/// `printStmt := "print" expression ";"`, after its keyword.
pub open spec fn s_print(ts: Seq<Token>, pos: int) -> Parse<StmtModel>
    decreases ts.len() - pos, 31int,
{
    if !(0 <= pos < ts.len()) {
        out_of_range()
    } else {
        match p_expression(ts, pos) {
            Parse::Parsed(e, p1) => s_close(ts, p1, TokenType::Semicolon, "Expect ';' after value."@, StmtModel::Print(e)),
            Parse::Failed(e, q) => Parse::Failed(e, q),
        }
    }
}

/// `exprStmt := expression ";"`
pub open spec fn s_expr_stmt(ts: Seq<Token>, pos: int) -> Parse<StmtModel>
    decreases ts.len() - pos, 31int,
{
    if !(0 <= pos < ts.len()) {
        out_of_range()
    } else {
        match p_expression(ts, pos) {
            Parse::Parsed(e, p1) => s_close(ts, p1, TokenType::Semicolon, "Expect ';' after expression."@, StmtModel::Expr(e)),
            Parse::Failed(e, q) => Parse::Failed(e, q),
        }
    }
}

/// `returnStmt := "return" expression? ";"`, after its keyword; a missing
/// value is `nil`.
pub open spec fn s_return(ts: Seq<Token>, pos: int) -> Parse<StmtModel>
    decreases ts.len() - pos, 31int,
{
    if !(1 <= pos < ts.len()) {
        out_of_range()
    } else if kind_at(ts, pos) != TokenType::Semicolon {
        match p_expression(ts, pos) {
            Parse::Parsed(v, p1) => s_close(ts, p1, TokenType::Semicolon, "Expect ';' after return value."@,
                StmtModel::Return(ts[pos - 1]@, v)),
            Parse::Failed(e, q) => Parse::Failed(e, q),
        }
    } else {
        s_close(ts, pos, TokenType::Semicolon, "Expect ';' after return value."@,
            StmtModel::Return(ts[pos - 1]@, ExprModel::Literal(LiteralModel::Nil)))
    }
}

/// `ifStmt := "if" "(" expression ")" statement ( "else" statement )?`,
/// after its keyword.
pub open spec fn s_if(ts: Seq<Token>, pos: int) -> Parse<StmtModel>
    decreases ts.len() - pos, 35int,
{
    if !(0 <= pos < ts.len()) {
        out_of_range()
    } else if kind_at(ts, pos) != TokenType::LeftParen {
        Parse::Failed(expected(ts, pos, "Expect '(' after 'if'."@), pos)
    } else {
        match p_expression(ts, pos + 1) {
            Parse::Parsed(c, p1) => if !(pos < p1 < ts.len()) {
                out_of_range()
            } else if kind_at(ts, p1) != TokenType::RightParen {
                Parse::Failed(expected(ts, p1, "Expect ')' after 'if condition."@), p1)
            } else {
                match s_statement(ts, p1 + 1) {
                    Parse::Parsed(then_branch, p2) => if !(p1 < p2 < ts.len()) {
                        out_of_range()
                    } else if kind_at(ts, p2) == TokenType::Else {
                        match s_statement(ts, p2 + 1) {
                            Parse::Parsed(else_branch, p3) => Parse::Parsed(
                                StmtModel::If(c, Box::new(then_branch), Some(Box::new(else_branch))), p3),
                            Parse::Failed(e, q) => Parse::Failed(e, q),
                        }
                    } else {
                        Parse::Parsed(StmtModel::If(c, Box::new(then_branch), None), p2)
                    },
                    Parse::Failed(e, q) => Parse::Failed(e, q),
                }
            },
            Parse::Failed(e, q) => Parse::Failed(e, q),
        }
    }
}

/// `whileStmt := "while" "(" expression ")" statement`, after its keyword.
pub open spec fn s_while(ts: Seq<Token>, pos: int) -> Parse<StmtModel>
    decreases ts.len() - pos, 35int,
{
    if !(0 <= pos < ts.len()) {
        out_of_range()
    } else if kind_at(ts, pos) != TokenType::LeftParen {
        Parse::Failed(expected(ts, pos, "Expect '(' after 'while'."@), pos)
    } else {
        match p_expression(ts, pos + 1) {
            Parse::Parsed(c, p1) => if !(pos < p1 < ts.len()) {
                out_of_range()
            } else if kind_at(ts, p1) != TokenType::RightParen {
                Parse::Failed(expected(ts, p1, "Expect ')' after condition."@), p1)
            } else {
                match s_statement(ts, p1 + 1) {
                    Parse::Parsed(body, p2) => Parse::Parsed(StmtModel::While(c, Box::new(body)), p2),
                    Parse::Failed(e, q) => Parse::Failed(e, q),
                }
            },
            Parse::Failed(e, q) => Parse::Failed(e, q),
        }
    }
}

/// The initializer clause of a `for`: empty, a variable declaration or an
/// expression statement.
pub open spec fn s_for_init(ts: Seq<Token>, pos: int) -> Parse<Option<StmtModel>>
    decreases ts.len() - pos, 34int,
{
    if !(0 <= pos < ts.len()) {
        out_of_range()
    } else if kind_at(ts, pos) == TokenType::Semicolon {
        Parse::Parsed(None, pos + 1)
    } else {
        match if kind_at(ts, pos) == TokenType::Var { s_var_decl(ts, pos + 1) } else { s_expr_stmt(ts, pos) } {
            Parse::Parsed(s, p1) => Parse::Parsed(Some(s), p1),
            Parse::Failed(e, q) => Parse::Failed(e, q),
        }
    }
}

/// An optional expression, absent when the next token is `stop`.
pub open spec fn s_opt_expr(ts: Seq<Token>, pos: int, stop: TokenType) -> Parse<Option<ExprModel>>
    decreases ts.len() - pos, 31int,
{
    if !(0 <= pos < ts.len()) {
        out_of_range()
    } else if kind_at(ts, pos) == stop {
        Parse::Parsed(None, pos)
    } else {
        match p_expression(ts, pos) {
            Parse::Parsed(e, p1) => Parse::Parsed(Some(e), p1),
            Parse::Failed(e, q) => Parse::Failed(e, q),
        }
    }
}

pub open spec fn opt_expr_model(e: Option<Expr>) -> Option<ExprModel> {
    match e {
        Some(x) => Some(expr_model(x)),
        None => None,
    }
}

pub open spec fn opt_stmt_model(s: Option<Stmt>) -> Option<StmtModel> {
    match s {
        Some(x) => Some(crate::ast::stmt::stmt_model(x)),
        None => None,
    }
}

/// What a `for` loop stands for: its body followed by the increment, run
/// while the condition (`true` when absent) holds, after the initializer.
pub open spec fn desugar_for(init: Option<StmtModel>, cond: Option<ExprModel>, inc: Option<ExprModel>, body: StmtModel) -> StmtModel {
    let body = match inc {
        Some(i) => StmtModel::Block(seq![body, StmtModel::Expr(i)]),
        None => body,
    };
    let cond = match cond {
        Some(c) => c,
        None => ExprModel::Literal(LiteralModel::Bool(true)),
    };
    let looped = StmtModel::While(cond, Box::new(body));
    match init {
        Some(s) => StmtModel::Block(seq![s, looped]),
        None => looped,
    }
}

/// `forStmt := "for" "(" ( varDecl | exprStmt | ";" ) expression? ";"
/// expression? ")" statement`, after its keyword.
pub open spec fn s_for(ts: Seq<Token>, pos: int) -> Parse<StmtModel>
    decreases ts.len() - pos, 38int,
{
    if !(0 <= pos < ts.len()) {
        out_of_range()
    } else if kind_at(ts, pos) != TokenType::LeftParen {
        Parse::Failed(expected(ts, pos, "Expect '(' after 'for'."@), pos)
    } else {
        match s_for_init(ts, pos + 1) {
            Parse::Parsed(init, p1) => if !(pos < p1) { out_of_range() } else { s_for_cond(ts, p1, init) },
            Parse::Failed(e, q) => Parse::Failed(e, q),
        }
    }
}

/// The rest of a `for` after its initializer: the condition and its `;`.
pub open spec fn s_for_cond(ts: Seq<Token>, pos: int, init: Option<StmtModel>) -> Parse<StmtModel>
    decreases ts.len() - pos, 37int,
{
    if !(0 <= pos < ts.len()) {
        out_of_range()
    } else {
        match s_opt_expr(ts, pos, TokenType::Semicolon) {
            Parse::Parsed(cond, p2) => if !(pos <= p2 < ts.len()) {
                out_of_range()
            } else if kind_at(ts, p2) != TokenType::Semicolon {
                Parse::Failed(expected(ts, p2, "Expect ';' after for loop condition."@), p2)
            } else {
                s_for_inc(ts, p2 + 1, init, cond)
            },
            Parse::Failed(e, q) => Parse::Failed(e, q),
        }
    }
}

/// The rest of a `for` after its condition: the increment and its `)`.
pub open spec fn s_for_inc(ts: Seq<Token>, pos: int, init: Option<StmtModel>, cond: Option<ExprModel>) -> Parse<StmtModel>
    decreases ts.len() - pos, 36int,
{
    if !(0 <= pos < ts.len()) {
        out_of_range()
    } else {
        match s_opt_expr(ts, pos, TokenType::RightParen) {
            Parse::Parsed(inc, p3) => if !(pos <= p3 < ts.len()) {
                out_of_range()
            } else if kind_at(ts, p3) != TokenType::RightParen {
                Parse::Failed(expected(ts, p3, "Expect ')' after for loop increment."@), p3)
            } else {
                match s_statement(ts, p3 + 1) {
                    Parse::Parsed(body, p4) => Parse::Parsed(desugar_for(init, cond, inc, body), p4),
                    Parse::Failed(e, q) => Parse::Failed(e, q),
                }
            },
            Parse::Failed(e, q) => Parse::Failed(e, q),
        }
    }
}

/// `block := declaration* "}"`, after its `{`; `acc` holds the
/// declarations read so far.
pub open spec fn s_block(ts: Seq<Token>, pos: int, acc: Seq<StmtModel>) -> Parse<Seq<StmtModel>>
    decreases ts.len() - pos, 34int,
{
    if !(0 <= pos < ts.len()) {
        out_of_range()
    } else if kind_at(ts, pos) == TokenType::EOF || kind_at(ts, pos) == TokenType::RightBrace {
        if kind_at(ts, pos) == TokenType::RightBrace {
            Parse::Parsed(acc, pos + 1)
        } else {
            Parse::Failed(expected(ts, pos, "Expect '}' after block."@), pos)
        }
    } else {
        match s_declaration(ts, pos) {
            Parse::Parsed(s, p1) => if !(pos < p1 <= ts.len()) { out_of_range() } else { s_block(ts, p1, acc.push(s)) },
            Parse::Failed(e, q) => Parse::Failed(e, q),
        }
    }
}

/// Whether a statement result is the one a spec parse gives, ending at
/// `at`.
pub open spec fn stmt_result(r: Result<Stmt, Error>, p: Parse<StmtModel>, at: int) -> bool {
    match p {
        Parse::Parsed(m, q) => r matches Ok(s) && crate::ast::stmt::stmt_model(s) == m && at == q,
        Parse::Failed(err, q) => r matches Err(e) && err_model(e) == err && at == q,
    }
}

/// Whether a statement-list result is the one a spec parse gives, ending
/// at `at`.
pub open spec fn stmts_result(r: Result<Vec<Stmt>, Error>, p: Parse<Seq<StmtModel>>, at: int) -> bool {
    match p {
        Parse::Parsed(m, q) => r matches Ok(ss) && stmts_model(ss@) == m && at == q,
        Parse::Failed(err, q) => r matches Err(e) && err_model(e) == err && at == q,
    }
}

/// The models of a list of expressions grow one at a time.
pub proof fn lemma_exprs_model_push(s: Seq<Expr>, x: Expr)
    ensures
        exprs_model(s.push(x)) == exprs_model(s).push(expr_model(x)),
{
    assert(s.push(x).subrange(0, s.len() as int) =~= s);
}

/// One argument of a call, as the grammar reads it.
pub proof fn lemma_args_step(ts: Seq<Token>, pos: int, callee: ExprModel, args: Seq<ExprModel>, r: Parse<ExprModel>)
    requires
        0 <= pos < ts.len(),
        args.len() < max_args(),
        r == p_expression(ts, pos),
    ensures
        match r {
            Parse::Failed(_, _) => p_args(ts, pos, callee, args) == r,
            Parse::Parsed(a, p1) => pos <= p1 < ts.len() ==> p_args(ts, pos, callee, args) == if kind_at(ts, p1) == TokenType::Comma {
                p_args(ts, p1 + 1, callee, args.push(a))
            } else {
                p_close_call(ts, p1, callee, args.push(a))
            },
        },
{
}

/// How tightly a binary operator binds: `or` loosest, then `and`,
/// equality, comparison, the additive and the multiplicative operators.
pub open spec fn binding(t: TokenType) -> int {
    if t == TokenType::Or { 0 }
    else if t == TokenType::And { 1 }
    else if t == TokenType::BangEqual || t == TokenType::EqualEqual { 2 }
    else if t == TokenType::Greater || t == TokenType::GreaterEqual || t == TokenType::Less || t == TokenType::LessEqual { 3 }
    else if t == TokenType::Minus || t == TokenType::Plus { 4 }
    else if t == TokenType::Slash || t == TokenType::Star { 5 }
    else { 6 }
}

/// The operators of an expression, down to its first node that is not a
/// binary or logical one, are grouped by how tightly they bind: each binds
/// at least as tightly as `min`, its left operand at least as tightly as
/// it, and its right operand more tightly (operators of one level group to
/// the left).
pub open spec fn grouped(e: ExprModel, min: int) -> bool
    decreases e,
{
    match e {
        ExprModel::Binary(l, op, r) => binding(op.kind) >= min && grouped(*l, binding(op.kind)) && grouped(*r, binding(op.kind) + 1),
        ExprModel::Logical(l, op, r) => binding(op.kind) >= min && grouped(*l, binding(op.kind)) && grouped(*r, binding(op.kind) + 1),
        _ => true,
    }
}

/// Not a binary or logical node.
pub open spec fn not_operator(e: ExprModel) -> bool {
    !(e is Binary) && !(e is Logical)
}

proof fn lemma_args_call(ts: Seq<Token>, pos: int, callee: ExprModel, args: Seq<ExprModel>)
    ensures
        p_args(ts, pos, callee, args) matches Parse::Parsed(e, _) ==> e is Call,
    decreases ts.len() - pos,
{
    if 0 <= pos < ts.len() && args.len() < max_args() {
        match p_expression(ts, pos) {
            Parse::Parsed(a, p1) => {
                if pos <= p1 < ts.len() && kind_at(ts, p1) == TokenType::Comma {
                    lemma_args_call(ts, p1 + 1, callee, args.push(a));
                }
            },
            _ => {},
        }
    }
}

proof fn lemma_call_rest_operand(ts: Seq<Token>, pos: int, callee: ExprModel)
    requires
        not_operator(callee),
    ensures
        p_call_rest(ts, pos, callee) matches Parse::Parsed(e, _) ==> not_operator(e),
    decreases ts.len() - pos,
{
    if 0 <= pos < ts.len() && kind_at(ts, pos) == TokenType::LeftParen {
        if 0 <= pos + 1 < ts.len() && kind_at(ts, pos + 1) != TokenType::RightParen {
            lemma_args_call(ts, pos + 1, callee, Seq::empty());
        }
        match p_finish_call(ts, pos + 1, callee) {
            Parse::Parsed(e, p1) => {
                if pos < p1 <= ts.len() {
                    lemma_call_rest_operand(ts, p1, e);
                }
            },
            _ => {},
        }
    }
}

/// A unary expression is never a binary or logical node.
proof fn lemma_unary_operand(ts: Seq<Token>, pos: int)
    ensures
        p_unary(ts, pos) matches Parse::Parsed(e, _) ==> not_operator(e),
{
    if 0 <= pos < ts.len() && !(kind_at(ts, pos) == TokenType::Bang || kind_at(ts, pos) == TokenType::Minus) {
        assert(p_unary(ts, pos) == p_call(ts, pos));
        match p_primary(ts, pos) {
            Parse::Parsed(e, p1) => {
                assert(not_operator(e));
                if pos <= p1 <= ts.len() {
                    lemma_call_rest_operand(ts, p1, e);
                    assert(p_call(ts, pos) == p_call_rest(ts, p1, e));
                }
            },
            _ => {},
        }
    }
}

proof fn lemma_level_grouped(ts: Seq<Token>, pos: int, lvl: int)
    requires
        0 <= lvl <= 5,
    ensures
        p_level(ts, pos, lvl) matches Parse::Parsed(e, _) ==> grouped(e, lvl),
    decreases ts.len() - pos, 27 - 2 * lvl,
{
    if 0 <= pos < ts.len() {
        lemma_operand_grouped(ts, pos, lvl);
        match p_operand(ts, pos, lvl) {
            Parse::Parsed(left, p1) => {
                if pos <= p1 <= ts.len() {
                    lemma_grouped_weaker(left, lvl + 1, lvl);
                    lemma_rest_grouped(ts, p1, left, lvl);
                }
            },
            _ => {},
        }
    }
}

proof fn lemma_operand_grouped(ts: Seq<Token>, pos: int, lvl: int)
    requires
        0 <= lvl <= 5,
    ensures
        p_operand(ts, pos, lvl) matches Parse::Parsed(e, _) ==> grouped(e, lvl + 1),
    decreases ts.len() - pos, 26 - 2 * lvl,
{
    if 0 <= pos < ts.len() {
        if lvl == 5 {
            lemma_unary_operand(ts, pos);
        } else {
            lemma_level_grouped(ts, pos, lvl + 1);
        }
    }
}

proof fn lemma_rest_grouped(ts: Seq<Token>, pos: int, left: ExprModel, lvl: int)
    requires
        0 <= lvl <= 5,
        grouped(left, lvl),
    ensures
        p_level_rest(ts, pos, left, lvl) matches Parse::Parsed(e, _) ==> grouped(e, lvl),
    decreases ts.len() - pos, 26 - 2 * lvl,
{
    if 0 <= pos < ts.len() && level_op(lvl, kind_at(ts, pos)) {
        lemma_operand_grouped(ts, pos + 1, lvl);
        match p_operand(ts, pos + 1, lvl) {
            Parse::Parsed(right, p2) => {
                if pos < p2 <= ts.len() {
                    let node = level_node(lvl, left, ts[pos]@, right);
                    assert(binding(ts[pos]@.kind) == lvl);
                    assert(grouped(node, lvl));
                    lemma_rest_grouped(ts, p2, node, lvl);
                }
            },
            _ => {},
        }
    }
}

/// Grouping that holds from a tighter bound holds from a looser one.
proof fn lemma_grouped_weaker(e: ExprModel, min: int, looser: int)
    requires
        grouped(e, min),
        looser <= min,
    ensures
        grouped(e, looser),
{
}

/// Operators are grouped by precedence: in the expression an operator
/// level parses, every operator's left operand binds at least as tightly as
/// it and its right operand more tightly. So comparison binds tighter than
/// equality: `a < b == c` is `(a < b) == c`, and `a == b < c` is
/// `a == (b < c)`; likewise for the other levels.
pub proof fn law_precedence(ts: Seq<Token>, pos: int, lvl: int)
    requires
        0 <= lvl <= 5,
    ensures
        p_level(ts, pos, lvl) matches Parse::Parsed(e, _) ==> grouped(e, lvl),
{
    lemma_level_grouped(ts, pos, lvl);
}

/// A whole expression, unless it is an assignment, has its operators
/// grouped by precedence.
pub proof fn law_expression_precedence(ts: Seq<Token>, pos: int)
    ensures
        p_expression(ts, pos) matches Parse::Parsed(e, _) ==> (e is Assign || grouped(e, 0)),
{
    if 0 <= pos < ts.len() {
        lemma_level_grouped(ts, pos, 0);
    }
}

} // verus!
