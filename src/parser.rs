//! The parser: tokens to a program, by recursive descent. Its grammar is
//! stated as spec functions over the token sequence; each executable parsing
//! function is proved to return what its spec function does.
use crate::ast::{BinOp, Expr, ExprView, LogicalOp, Program, Stmt, StmtView, UnaryOp};
use crate::error::ParseError;
use crate::tokens::{Token, TokenWithSpan};
use std::rc::Rc;
use vstd::prelude::*;

verus! {

pub const T_NUMBER: u8 = 0;
pub const T_PLUS: u8 = 1;
pub const T_MINUS: u8 = 2;
pub const T_STRING_LITERAL: u8 = 3;
pub const T_STAR: u8 = 4;
pub const T_SLASH: u8 = 5;
pub const T_LEFT_PAREN: u8 = 6;
pub const T_RIGHT_PAREN: u8 = 7;
pub const T_LEFT_BRACKET: u8 = 8;
pub const T_RIGHT_BRACKET: u8 = 9;
pub const T_EOF: u8 = 10;
pub const T_IDENTIFIER: u8 = 11;
pub const T_EQUALS: u8 = 12;
pub const T_SEMICOLON: u8 = 13;
pub const T_COLON: u8 = 14;
pub const T_COMMA: u8 = 15;
pub const T_DOT: u8 = 16;
pub const T_LEFT_BRACE: u8 = 17;
pub const T_RIGHT_BRACE: u8 = 18;
pub const T_GREATER: u8 = 19;
pub const T_GREATER_EQUAL: u8 = 20;
pub const T_LESS: u8 = 21;
pub const T_LESS_EQUAL: u8 = 22;
pub const T_EQUAL_EQUAL: u8 = 23;
pub const T_BANG_EQUAL: u8 = 24;
pub const T_BANG: u8 = 25;
pub const T_LET: u8 = 26;
pub const T_PRINT: u8 = 27;
pub const T_IF: u8 = 28;
pub const T_ELSE: u8 = 29;
pub const T_WHILE: u8 = 30;
pub const T_TRUE: u8 = 31;
pub const T_FALSE: u8 = 32;
pub const T_AND: u8 = 33;
pub const T_OR: u8 = 34;
pub const T_FN: u8 = 35;
pub const T_RETURN: u8 = 36;
pub const T_FOR: u8 = 37;
pub const T_IN: u8 = 38;

/// The kind of a token, as a number; kinds differ exactly when variants do.
pub open spec fn tag(t: Token) -> u8 {
    match t {
        Token::Number(_) => T_NUMBER,
        Token::Plus => T_PLUS,
        Token::Minus => T_MINUS,
        Token::StringLiteral(_) => T_STRING_LITERAL,
        Token::Star => T_STAR,
        Token::Slash => T_SLASH,
        Token::LeftParen => T_LEFT_PAREN,
        Token::RightParen => T_RIGHT_PAREN,
        Token::LeftBracket => T_LEFT_BRACKET,
        Token::RightBracket => T_RIGHT_BRACKET,
        Token::EOF => T_EOF,
        Token::Identifier(_) => T_IDENTIFIER,
        Token::Equals => T_EQUALS,
        Token::Semicolon => T_SEMICOLON,
        Token::Colon => T_COLON,
        Token::Comma => T_COMMA,
        Token::Dot => T_DOT,
        Token::LeftBrace => T_LEFT_BRACE,
        Token::RightBrace => T_RIGHT_BRACE,
        Token::Greater => T_GREATER,
        Token::GreaterEqual => T_GREATER_EQUAL,
        Token::Less => T_LESS,
        Token::LessEqual => T_LESS_EQUAL,
        Token::EqualEqual => T_EQUAL_EQUAL,
        Token::BangEqual => T_BANG_EQUAL,
        Token::Bang => T_BANG,
        Token::Let => T_LET,
        Token::Print => T_PRINT,
        Token::If => T_IF,
        Token::Else => T_ELSE,
        Token::While => T_WHILE,
        Token::True => T_TRUE,
        Token::False => T_FALSE,
        Token::And => T_AND,
        Token::Or => T_OR,
        Token::Fn => T_FN,
        Token::Return => T_RETURN,
        Token::For => T_FOR,
        Token::In => T_IN,
    }
}

/// The kind of a token.
pub fn token_tag(t: &Token) -> (r: u8)
    ensures
        r == tag(*t),
{
    match t {
        Token::Number(_) => T_NUMBER,
        Token::Plus => T_PLUS,
        Token::Minus => T_MINUS,
        Token::StringLiteral(_) => T_STRING_LITERAL,
        Token::Star => T_STAR,
        Token::Slash => T_SLASH,
        Token::LeftParen => T_LEFT_PAREN,
        Token::RightParen => T_RIGHT_PAREN,
        Token::LeftBracket => T_LEFT_BRACKET,
        Token::RightBracket => T_RIGHT_BRACKET,
        Token::EOF => T_EOF,
        Token::Identifier(_) => T_IDENTIFIER,
        Token::Equals => T_EQUALS,
        Token::Semicolon => T_SEMICOLON,
        Token::Colon => T_COLON,
        Token::Comma => T_COMMA,
        Token::Dot => T_DOT,
        Token::LeftBrace => T_LEFT_BRACE,
        Token::RightBrace => T_RIGHT_BRACE,
        Token::Greater => T_GREATER,
        Token::GreaterEqual => T_GREATER_EQUAL,
        Token::Less => T_LESS,
        Token::LessEqual => T_LESS_EQUAL,
        Token::EqualEqual => T_EQUAL_EQUAL,
        Token::BangEqual => T_BANG_EQUAL,
        Token::Bang => T_BANG,
        Token::Let => T_LET,
        Token::Print => T_PRINT,
        Token::If => T_IF,
        Token::Else => T_ELSE,
        Token::While => T_WHILE,
        Token::True => T_TRUE,
        Token::False => T_FALSE,
        Token::And => T_AND,
        Token::Or => T_OR,
        Token::Fn => T_FN,
        Token::Return => T_RETURN,
        Token::For => T_FOR,
        Token::In => T_IN,
    }
}

/// The token at `p`; past the end, the end-of-input token.
pub open spec fn tok(ts: Seq<Token>, p: int) -> Token {
    if 0 <= p < ts.len() {
        ts[p]
    } else {
        Token::EOF
    }
}

/// Whether the token at `p` has kind `k`.
pub open spec fn check(ts: Seq<Token>, p: int, k: u8) -> bool {
    tag(tok(ts, p)) == k
}

/// Whether `p` is at the end of input.
pub open spec fn at_end(ts: Seq<Token>, p: int) -> bool {
    check(ts, p, T_EOF)
}

/// A parsed item and the position after it.
pub type Parsed<T> = Result<(T, int), ParseError>;

/// The error for an unexpected token at `p`.
pub open spec fn unexpected<T>(p: int) -> Parsed<T> {
    Err(ParseError::UnexpectedToken { position: p as usize })
}

/// `next` moved forward from `p` and stayed within the tokens.
pub open spec fn forward(ts: Seq<Token>, p: int, next: int) -> bool {
    p <= next <= ts.len()
}

/// Requires a token of kind `k` at `p`; the position after it.
pub open spec fn expect(ts: Seq<Token>, p: int, k: u8) -> Result<int, ParseError> {
    if check(ts, p, k) && p < ts.len() {
        Ok(p + 1)
    } else {
        Err(ParseError::UnexpectedToken { position: p as usize })
    }
}

/// assignment := logical_or ( "=" assignment )?, where logical_or is level 29, the left side a variable,
/// index or field expression.
pub open spec fn assignment(ts: Seq<Token>, p: int) -> Parsed<ExprView>
    decreases ts.len() - p, 30int,
{
    if p < 0 || p > ts.len() {
        unexpected(p)
    } else {
        match level(ts, p, 29) {
            Ok((lhs, p1)) => if !forward(ts, p, p1) {
                unexpected(p)
            } else if check(ts, p1, T_EQUALS) && p1 < ts.len() {
                match assignment(ts, p1 + 1) {
                    Ok((rhs, p2)) => match lhs {
                        ExprView::Variable(n) => Ok((ExprView::Assign(n, Box::new(rhs)), p2)),
                        ExprView::Index(o, i) => Ok((ExprView::IndexAssign(o, i, Box::new(rhs)), p2)),
                        ExprView::Dot(o, f) => Ok((ExprView::DotAssign(o, f, Box::new(rhs)), p2)),
                        _ => Err(ParseError::InvalidAssignmentTarget { position: p1 as usize }),
                    },
                    Err(e) => Err(e),
                }
            } else {
                Ok((lhs, p1))
            },
            Err(e) => Err(e),
        }
    }
}

/// The arithmetic, comparison or equality operator that a token of kind `k`
/// stands for at level `level` (see `level`), if any.
pub open spec fn binary_op(level: int, k: u8) -> Option<BinOp> {
    if level == 25 {
        if k == T_EQUAL_EQUAL { Some(BinOp::EqualEqual) } else if k == T_BANG_EQUAL { Some(BinOp::BangEqual) } else { None }
    } else if level == 23 {
        if k == T_GREATER { Some(BinOp::Greater) } else if k == T_GREATER_EQUAL { Some(BinOp::GreaterEqual) } else if k == T_LESS { Some(BinOp::Less) } else if k == T_LESS_EQUAL { Some(BinOp::LessEqual) } else { None }
    } else if level == 21 {
        if k == T_PLUS { Some(BinOp::Add) } else if k == T_MINUS { Some(BinOp::Subtract) } else { None }
    } else if level == 19 {
        if k == T_STAR { Some(BinOp::Multiply) } else if k == T_SLASH { Some(BinOp::Divide) } else { None }
    } else {
        None
    }
}

/// The logical operator of a level, if the level is logical.
pub open spec fn logical_op(level: int, k: u8) -> Option<LogicalOp> {
    if level == 29 && k == T_OR {
        Some(LogicalOp::Or)
    } else if level == 27 && k == T_AND {
        Some(LogicalOp::And)
    } else {
        None
    }
}

/// Parses one of the left-associative levels: 29 `or`, 27 `and`, 25
/// equality, 23 comparison, 21 additive, 19 multiplicative; below 19 is
/// unary.
pub open spec fn level(ts: Seq<Token>, p: int, lv: int) -> Parsed<ExprView>
    decreases ts.len() - p, lv,
{
    if p < 0 || p > ts.len() || lv < 19 || lv > 29 {
        unexpected(p)
    } else {
        let first = if lv == 19 {
            unary(ts, p)
        } else {
            level(ts, p, lv - 2)
        };
        match first {
            Ok((l, p1)) => if !forward(ts, p, p1) {
                unexpected(p)
            } else {
                level_rest(ts, p1, lv, l)
            },
            Err(e) => Err(e),
        }
    }
}

/// The operator-operand pairs after the first operand of a level.
pub open spec fn level_rest(ts: Seq<Token>, p: int, lv: int, acc: ExprView) -> Parsed<ExprView>
    decreases ts.len() - p, lv - 1,
{
    if p < 0 || p >= ts.len() || lv < 19 || lv > 29 {
        Ok((acc, p))
    } else {
        let k = tag(tok(ts, p));
        let operand = if lv == 19 {
            unary(ts, p + 1)
        } else {
            level(ts, p + 1, lv - 2)
        };
        match (binary_op(lv, k), logical_op(lv, k)) {
            (Some(op), _) => match operand {
                Ok((r, p1)) => if !forward(ts, p + 1, p1) {
                    unexpected(p)
                } else {
                    level_rest(ts, p1, lv, ExprView::Binary(Box::new(acc), op, Box::new(r)))
                },
                Err(e) => Err(e),
            },
            (None, Some(op)) => match operand {
                Ok((r, p1)) => if !forward(ts, p + 1, p1) {
                    unexpected(p)
                } else {
                    level_rest(ts, p1, lv, ExprView::Logical(Box::new(acc), op, Box::new(r)))
                },
                Err(e) => Err(e),
            },
            (None, None) => Ok((acc, p)),
        }
    }
}

/// unary := ("!" | "-") unary | postfix
pub open spec fn unary(ts: Seq<Token>, p: int) -> Parsed<ExprView>
    decreases ts.len() - p, 17int,
{
    if p < 0 || p > ts.len() {
        unexpected(p)
    } else if (check(ts, p, T_BANG) || check(ts, p, T_MINUS)) && p < ts.len() {
        let op = if check(ts, p, T_BANG) {
            UnaryOp::Not
        } else {
            UnaryOp::Negate
        };
        match unary(ts, p + 1) {
            Ok((r, p1)) => Ok((ExprView::Unary(op, Box::new(r)), p1)),
            Err(e) => Err(e),
        }
    } else {
        match primary(ts, p) {
            Ok((e, p1)) => if !forward(ts, p, p1) {
                unexpected(p)
            } else {
                postfix(ts, p1, e)
            },
            Err(e) => Err(e),
        }
    }
}

/// The chain of `[index]` and `.field` after a primary expression; either
/// one directly followed by `=` becomes the matching write.
pub open spec fn postfix(ts: Seq<Token>, p: int, acc: ExprView) -> Parsed<ExprView>
    decreases ts.len() - p, 16int,
{
    if p < 0 || p >= ts.len() {
        Ok((acc, p))
    } else if check(ts, p, T_LEFT_BRACKET) {
        match assignment(ts, p + 1) {
            Ok((idx, p1)) => if !forward(ts, p + 1, p1) {
                unexpected(p)
            } else {
                match expect(ts, p1, T_RIGHT_BRACKET) {
                    Ok(p2) => if check(ts, p2, T_EQUALS) && p2 < ts.len() {
                        match assignment(ts, p2 + 1) {
                            Ok((v, p3)) => if !forward(ts, p2 + 1, p3) {
                                unexpected(p)
                            } else {
                                postfix(
                                    ts,
                                    p3,
                                    ExprView::IndexAssign(Box::new(acc), Box::new(idx), Box::new(v)),
                                )
                            },
                            Err(e) => Err(e),
                        }
                    } else {
                        postfix(ts, p2, ExprView::Index(Box::new(acc), Box::new(idx)))
                    },
                    Err(e) => Err(e),
                }
            },
            Err(e) => Err(e),
        }
    } else if check(ts, p, T_DOT) {
        match tok(ts, p + 1) {
            Token::Identifier(name) => {
                let p2 = p + 2;
                if check(ts, p2, T_EQUALS) && p2 < ts.len() {
                    match assignment(ts, p2 + 1) {
                        Ok((v, p3)) => if !forward(ts, p2 + 1, p3) {
                            unexpected(p)
                        } else {
                            postfix(ts, p3, ExprView::DotAssign(Box::new(acc), name@, Box::new(v)))
                        },
                        Err(e) => Err(e),
                    }
                } else {
                    postfix(ts, p2, ExprView::Dot(Box::new(acc), name@))
                }
            },
            _ => unexpected(p + 1),
        }
    } else {
        Ok((acc, p))
    }
}

/// primary := literal | identifier | call | "(" expression ")" | array | map
pub open spec fn primary(ts: Seq<Token>, p: int) -> Parsed<ExprView>
    decreases ts.len() - p, 14int,
{
    if p < 0 || p >= ts.len() {
        Err(ParseError::ExpectedExpression { position: p as usize })
    } else {
        match tok(ts, p) {
            Token::True => Ok((ExprView::Boolean(true), p + 1)),
            Token::False => Ok((ExprView::Boolean(false), p + 1)),
            Token::Number(n) => Ok((ExprView::Number(n), p + 1)),
            Token::StringLiteral(s) => Ok((ExprView::Str(s@), p + 1)),
            Token::LeftBrace => if check(ts, p + 1, T_RIGHT_BRACE) {
                Ok((ExprView::Dict(Seq::empty()), p + 2))
            } else {
                match pairs(ts, p + 1, Seq::empty()) {
                    Ok((ps, p1)) => match expect(ts, p1, T_RIGHT_BRACE) {
                        Ok(p2) => Ok((ExprView::Dict(ps), p2)),
                        Err(e) => Err(e),
                    },
                    Err(e) => Err(e),
                }
            },
            Token::LeftBracket => if check(ts, p + 1, T_RIGHT_BRACKET) {
                Ok((ExprView::Array(Seq::empty()), p + 2))
            } else {
                match exprs(ts, p + 1, Seq::empty()) {
                    Ok((es, p1)) => match expect(ts, p1, T_RIGHT_BRACKET) {
                        Ok(p2) => Ok((ExprView::Array(es), p2)),
                        Err(e) => Err(e),
                    },
                    Err(e) => Err(e),
                }
            },
            Token::Identifier(name) => if check(ts, p + 1, T_LEFT_PAREN) {
                let args = if check(ts, p + 2, T_RIGHT_PAREN) {
                    Ok((Seq::empty(), p + 2))
                } else {
                    exprs(ts, p + 2, Seq::empty())
                };
                match args {
                    Ok((es, p1)) => match expect(ts, p1, T_RIGHT_PAREN) {
                        Ok(p2) => Ok(
                            (ExprView::Call(Box::new(ExprView::Variable(name@)), es), p2),
                        ),
                        Err(e) => Err(e),
                    },
                    Err(e) => Err(e),
                }
            } else {
                Ok((ExprView::Variable(name@), p + 1))
            },
            Token::LeftParen => match assignment(ts, p + 1) {
                Ok((e, p1)) => match expect(ts, p1, T_RIGHT_PAREN) {
                    Ok(p2) => Ok((e, p2)),
                    Err(err) => Err(err),
                },
                Err(err) => Err(err),
            },
            _ => Err(ParseError::ExpectedExpression { position: p as usize }),
        }
    }
}

/// A comma-separated list of expressions, appended to `acc`.
pub open spec fn exprs(ts: Seq<Token>, p: int, acc: Seq<ExprView>) -> Parsed<Seq<ExprView>>
    decreases ts.len() - p, 40int,
{
    if p < 0 || p > ts.len() {
        unexpected(p)
    } else {
        match assignment(ts, p) {
            Ok((e, p1)) => if !forward(ts, p, p1) {
                unexpected(p)
            } else if check(ts, p1, T_COMMA) && p1 < ts.len() {
                exprs(ts, p1 + 1, acc.push(e))
            } else {
                Ok((acc.push(e), p1))
            },
            Err(err) => Err(err),
        }
    }
}

/// The key of a map-literal entry: a string literal or a bare identifier.
pub open spec fn map_key(t: Token) -> Option<Seq<char>> {
    match t {
        Token::StringLiteral(s) => Some(s@),
        Token::Identifier(n) => Some(n@),
        _ => None,
    }
}

/// A comma-separated list of `key: value` entries, appended to `acc`.
pub open spec fn pairs(ts: Seq<Token>, p: int, acc: Seq<(Seq<char>, ExprView)>) -> Parsed<
    Seq<(Seq<char>, ExprView)>,
>
    decreases ts.len() - p, 40int,
{
    if p < 0 || p >= ts.len() {
        unexpected(p)
    } else {
        match map_key(tok(ts, p)) {
            Some(key) => match expect(ts, p + 1, T_COLON) {
                Ok(p1) => match assignment(ts, p1) {
                    Ok((v, p2)) => if !forward(ts, p1, p2) {
                        unexpected(p)
                    } else if check(ts, p2, T_COMMA) && p2 < ts.len() {
                        pairs(ts, p2 + 1, acc.push((key, v)))
                    } else {
                        Ok((acc.push((key, v)), p2))
                    },
                    Err(err) => Err(err),
                },
                Err(err) => Err(err),
            },
            None => unexpected(p),
        }
    }
}

/// declaration := "fn" function | "let" let | statement
pub open spec fn declaration(ts: Seq<Token>, p: int) -> Parsed<StmtView>
    decreases ts.len() - p, 60int,
{
    if p < 0 || p > ts.len() {
        unexpected(p)
    } else if check(ts, p, T_FN) && p < ts.len() {
        function_decl(ts, p + 1)
    } else if check(ts, p, T_LET) && p < ts.len() {
        let_decl(ts, p + 1)
    } else {
        statement(ts, p)
    }
}

/// function := IDENT "(" params? ")" "{" block_body
pub open spec fn function_decl(ts: Seq<Token>, p: int) -> Parsed<StmtView>
    decreases ts.len() - p, 70int,
{
    if p < 0 || p >= ts.len() {
        unexpected(p)
    } else {
        match tok(ts, p) {
            Token::Identifier(name) => match expect(ts, p + 1, T_LEFT_PAREN) {
                Ok(p1) => {
                    let ps = if check(ts, p1, T_RIGHT_PAREN) {
                        Ok((Seq::empty(), p1))
                    } else {
                        params(ts, p1, Seq::empty())
                    };
                    match ps {
                        Ok((names, p2)) => if !forward(ts, p1, p2) {
                            unexpected(p)
                        } else {
                            match expect(ts, p2, T_RIGHT_PAREN) {
                            Ok(p3) => match expect(ts, p3, T_LEFT_BRACE) {
                                Ok(p4) => match block_body(ts, p4, Seq::empty()) {
                                    Ok((body, p5)) => Ok((StmtView::Function(name@, names, body), p5)),
                                    Err(e) => Err(e),
                                },
                                Err(e) => Err(e),
                            },
                            Err(e) => Err(e),
                        }},
                        Err(e) => Err(e),
                    }
                },
                Err(e) => Err(e),
            },
            _ => unexpected(p),
        }
    }
}

/// params := IDENT ("," IDENT)*, appended to `acc`.
pub open spec fn params(ts: Seq<Token>, p: int, acc: Seq<Seq<char>>) -> Parsed<Seq<Seq<char>>>
    decreases ts.len() - p,
{
    if p < 0 || p >= ts.len() {
        unexpected(p)
    } else {
        match tok(ts, p) {
            Token::Identifier(n) => if check(ts, p + 1, T_COMMA) && p + 1 < ts.len() {
                params(ts, p + 2, acc.push(n@))
            } else {
                Ok((acc.push(n@), p + 1))
            },
            _ => unexpected(p),
        }
    }
}

/// let := IDENT ("=" expression)? ";"
pub open spec fn let_decl(ts: Seq<Token>, p: int) -> Parsed<StmtView>
    decreases ts.len() - p, 70int,
{
    if p < 0 || p >= ts.len() {
        unexpected(p)
    } else {
        match tok(ts, p) {
            Token::Identifier(n) => if check(ts, p + 1, T_EQUALS) && p + 1 < ts.len() {
                match assignment(ts, p + 2) {
                    Ok((e, p1)) => match expect(ts, p1, T_SEMICOLON) {
                        Ok(p2) => Ok((StmtView::Let(n@, Some(e)), p2)),
                        Err(err) => Err(err),
                    },
                    Err(err) => Err(err),
                }
            } else {
                match expect(ts, p + 1, T_SEMICOLON) {
                    Ok(p2) => Ok((StmtView::Let(n@, None), p2)),
                    Err(err) => Err(err),
                }
            },
            _ => unexpected(p),
        }
    }
}

/// statement := return | if | while | for | block | print | expression ";"
pub open spec fn statement(ts: Seq<Token>, p: int) -> Parsed<StmtView>
    decreases ts.len() - p, 59int,
{
    if p < 0 || p > ts.len() {
        unexpected(p)
    } else if p < ts.len() && check(ts, p, T_RETURN) {
        if check(ts, p + 1, T_SEMICOLON) {
            match expect(ts, p + 1, T_SEMICOLON) {
                Ok(p1) => Ok((StmtView::Return(None), p1)),
                Err(err) => Err(err),
            }
        } else {
            match assignment(ts, p + 1) {
                Ok((e, p1)) => match expect(ts, p1, T_SEMICOLON) {
                    Ok(p2) => Ok((StmtView::Return(Some(e)), p2)),
                    Err(err) => Err(err),
                },
                Err(err) => Err(err),
            }
        }
    } else if p < ts.len() && (check(ts, p, T_IF) || check(ts, p, T_WHILE)) {
        match expect(ts, p + 1, T_LEFT_PAREN) {
            Ok(p1) => match assignment(ts, p1) {
                Ok((c, p2)) => if !forward(ts, p1, p2) {
                    unexpected(p)
                } else {
                    match expect(ts, p2, T_RIGHT_PAREN) {
                    Ok(p3) => match statement(ts, p3) {
                        Ok((body, p4)) => if !forward(ts, p3, p4) {
                            unexpected(p)
                        } else if check(ts, p, T_WHILE) {
                            Ok((StmtView::While(c, Box::new(body)), p4))
                        } else if check(ts, p4, T_ELSE) && p4 < ts.len() {
                            match statement(ts, p4 + 1) {
                                Ok((alt, p5)) => Ok(
                                    (StmtView::If(c, Box::new(body), Some(Box::new(alt))), p5),
                                ),
                                Err(err) => Err(err),
                            }
                        } else {
                            Ok((StmtView::If(c, Box::new(body), None), p4))
                        },
                        Err(err) => Err(err),
                    },
                    Err(err) => Err(err),
                }},
                Err(err) => Err(err),
            },
            Err(err) => Err(err),
        }
    } else if p < ts.len() && check(ts, p, T_FOR) {
        match expect(ts, p + 1, T_LEFT_PAREN) {
            Ok(p1) => match tok(ts, p1) {
                Token::Identifier(v) => match expect(ts, p1 + 1, T_IN) {
                    Ok(p2) => match assignment(ts, p2) {
                        Ok((it, p3)) => if !forward(ts, p2, p3) {
                            unexpected(p)
                        } else {
                            match expect(ts, p3, T_RIGHT_PAREN) {
                            Ok(p4) => match statement(ts, p4) {
                                Ok((body, p5)) => Ok((StmtView::For(v@, it, Box::new(body)), p5)),
                                Err(err) => Err(err),
                            },
                            Err(err) => Err(err),
                        }},
                        Err(err) => Err(err),
                    },
                    Err(err) => Err(err),
                },
                _ => unexpected(p1),
            },
            Err(err) => Err(err),
        }
    } else if p < ts.len() && check(ts, p, T_LEFT_BRACE) {
        match block_body(ts, p + 1, Seq::empty()) {
            Ok((ss, p1)) => Ok((StmtView::Block(ss), p1)),
            Err(err) => Err(err),
        }
    } else if p < ts.len() && check(ts, p, T_PRINT) {
        match assignment(ts, p + 1) {
            Ok((e, p1)) => match expect(ts, p1, T_SEMICOLON) {
                Ok(p2) => Ok((StmtView::Print(e), p2)),
                Err(err) => Err(err),
            },
            Err(err) => Err(err),
        }
    } else {
        match assignment(ts, p) {
            Ok((e, p1)) => match expect(ts, p1, T_SEMICOLON) {
                Ok(p2) => Ok((StmtView::Expr(e), p2)),
                Err(err) => Err(err),
            },
            Err(err) => Err(err),
        }
    }
}

/// The declarations of a block up to its closing brace, appended to `acc`.
pub open spec fn block_body(ts: Seq<Token>, p: int, acc: Seq<StmtView>) -> Parsed<Seq<StmtView>>
    decreases ts.len() - p, 80int,
{
    if p < 0 || p > ts.len() {
        unexpected(p)
    } else if check(ts, p, T_RIGHT_BRACE) || at_end(ts, p) {
        match expect(ts, p, T_RIGHT_BRACE) {
            Ok(p1) => Ok((acc, p1)),
            Err(err) => Err(err),
        }
    } else {
        match declaration(ts, p) {
            Ok((d, p1)) => if !(p < p1 <= ts.len()) {
                unexpected(p)
            } else {
                block_body(ts, p1, acc.push(d))
            },
            Err(err) => Err(err),
        }
    }
}

/// The position an error was found at.
pub open spec fn error_position(e: ParseError) -> int {
    match e {
        ParseError::UnexpectedToken { position } => position as int,
        ParseError::ExpectedExpression { position } => position as int,
        ParseError::InvalidAssignmentTarget { position } => position as int,
    }
}

/// Whether a token starts a declaration that recovery may resume at.
pub open spec fn starts_declaration(k: u8) -> bool {
    k == T_LET || k == T_PRINT || k == T_IF || k == T_WHILE || k == T_FN
}

/// After a syntax error at `p`: skips one token, then up to just after a `;`
/// or to a token that starts a declaration.
pub open spec fn synchronize(ts: Seq<Token>, p: int) -> int {
    if at_end(ts, p) || p < 0 || p >= ts.len() {
        p
    } else {
        sync_from(ts, p + 1)
    }
}

pub open spec fn sync_from(ts: Seq<Token>, q: int) -> int
    decreases ts.len() - q,
{
    if q <= 0 || q >= ts.len() || at_end(ts, q) || check(ts, q - 1, T_SEMICOLON)
        || starts_declaration(tag(tok(ts, q))) {
        q
    } else {
        sync_from(ts, q + 1)
    }
}

/// The program from `p`: every top-level declaration, or every syntax error
/// found, resuming after each at the next statement boundary.
pub open spec fn program(
    ts: Seq<Token>,
    p: int,
    stmts: Seq<StmtView>,
    errs: Seq<ParseError>,
) -> Result<Seq<StmtView>, Seq<ParseError>>
    decreases ts.len() - p,
{
    if p < 0 || p >= ts.len() || at_end(ts, p) {
        if errs.len() == 0 {
            Ok(stmts)
        } else {
            Err(errs)
        }
    } else {
        match declaration(ts, p) {
            Ok((s, p1)) => if p < p1 <= ts.len() {
                program(ts, p1, stmts.push(s), errs)
            } else {
                Err(errs)
            },
            Err(e) => {
                let q = synchronize(ts, error_position(e));
                if p < q <= ts.len() {
                    program(ts, q, stmts, errs.push(e))
                } else {
                    Err(errs.push(e))
                }
            },
        }
    }
}

/// The tokens without their spans.
pub open spec fn token_seq(ts: Seq<TokenWithSpan>) -> Seq<Token> {
    Seq::new(ts.len(), |i: int| ts[i].token)
}

/// The models of a list of expressions.
pub open spec fn exprs_view(es: Seq<Expr>) -> Seq<ExprView> {
    Seq::new(es.len(), |i: int| es[i]@)
}

/// The models of map-literal entries.
pub open spec fn pairs_view(ps: Seq<(String, Expr)>) -> Seq<(Seq<char>, ExprView)> {
    Seq::new(ps.len(), |i: int| (ps[i].0@, ps[i].1@))
}

/// The models of a list of statements.
pub open spec fn stmts_view(ss: Seq<Stmt>) -> Seq<StmtView> {
    Seq::new(ss.len(), |i: int| ss[i]@)
}

/// The models of a list of names.
pub open spec fn strings_view(ns: Seq<String>) -> Seq<Seq<char>> {
    Seq::new(ns.len(), |i: int| ns[i]@)
}

/// The model of an expression parse.
pub open spec fn expr_result(r: Result<(Expr, usize), ParseError>) -> Parsed<ExprView> {
    match r {
        Ok((e, q)) => Ok((e@, q as int)),
        Err(err) => Err(err),
    }
}

/// The model of a statement parse.
pub open spec fn stmt_result(r: Result<(Stmt, usize), ParseError>) -> Parsed<StmtView> {
    match r {
        Ok((st, q)) => Ok((st@, q as int)),
        Err(err) => Err(err),
    }
}

/// The model of a position or an error.
pub open spec fn pos_result(r: Result<usize, ParseError>) -> Result<int, ParseError> {
    match r {
        Ok(q) => Ok(q as int),
        Err(err) => Err(err),
    }
}

/// A parse that succeeded ended after `p` and within the tokens.
pub open spec fn advanced<T>(r: Result<(T, usize), ParseError>, p: int, len: int) -> bool {
    r matches Ok((_, q)) ==> p < q <= len
}

/// The models of list-valued expressions are the models of their parts.
pub proof fn lemma_expr_lists(e: Expr)
    ensures
        e matches Expr::Array(es) ==> e@ == ExprView::Array(exprs_view(es@)),
        e matches Expr::Dict(ps) ==> e@ == ExprView::Dict(pairs_view(ps@)),
        e matches Expr::Call { callee, arguments } ==> e@ == ExprView::Call(
            Box::new((*callee)@),
            exprs_view(arguments@),
        ),
{
    match e {
        Expr::Array(es) => {
            assert(e@->Array_0 =~= exprs_view(es@));
        },
        Expr::Dict(ps) => {
            assert(e@->Dict_0 =~= pairs_view(ps@));
        },
        Expr::Call { callee, arguments } => {
            assert(e@->Call_1 =~= exprs_view(arguments@));
        },
        _ => {},
    }
}

/// The models of list-valued statements are the models of their parts.
pub proof fn lemma_stmt_lists(s: Stmt)
    ensures
        s matches Stmt::Block(ss) ==> s@ == StmtView::Block(stmts_view(ss@)),
        s matches Stmt::Function { name, params, body } ==> s@ == StmtView::Function(
            name@,
            strings_view(params@),
            stmts_view(body@),
        ),
{
    match s {
        Stmt::Block(ss) => {
            assert(s@->Block_0 =~= stmts_view(ss@));
        },
        Stmt::Function { name, params, body } => {
            assert(s@->Function_1 =~= strings_view(params@));
            assert(s@->Function_2 =~= stmts_view(body@));
        },
        _ => {},
    }
}

/// The binary operator of a level, if any.
fn binary_op_of(lv: u8, k: u8) -> (r: Option<BinOp>)
    ensures
        r == binary_op(lv as int, k),
{
    if lv == 25 {
        if k == T_EQUAL_EQUAL { Some(BinOp::EqualEqual) } else if k == T_BANG_EQUAL { Some(BinOp::BangEqual) } else { None }
    } else if lv == 23 {
        if k == T_GREATER { Some(BinOp::Greater) } else if k == T_GREATER_EQUAL { Some(BinOp::GreaterEqual) } else if k == T_LESS { Some(BinOp::Less) } else if k == T_LESS_EQUAL { Some(BinOp::LessEqual) } else { None }
    } else if lv == 21 {
        if k == T_PLUS { Some(BinOp::Add) } else if k == T_MINUS { Some(BinOp::Subtract) } else { None }
    } else if lv == 19 {
        if k == T_STAR { Some(BinOp::Multiply) } else if k == T_SLASH { Some(BinOp::Divide) } else { None }
    } else {
        None
    }
}

/// The logical operator of a level, if any.
fn logical_op_of(lv: u8, k: u8) -> (r: Option<LogicalOp>)
    ensures
        r == logical_op(lv as int, k),
{
    if lv == 29 && k == T_OR {
        Some(LogicalOp::Or)
    } else if lv == 27 && k == T_AND {
        Some(LogicalOp::And)
    } else {
        None
    }
}

/// A recursive-descent parser over a token list.
pub struct Parser {
    tokens: Vec<TokenWithSpan>,
    current: usize,
}

impl Parser {
    /// The tokens being parsed.
    pub closed spec fn tokens(&self) -> Seq<Token> {
        token_seq(self.tokens@)
    }

    /// The index of the next token to parse.
    pub closed spec fn position(&self) -> int {
        self.current as int
    }

    pub closed spec fn wf(&self) -> bool {
        self.current <= self.tokens@.len() && self.tokens@.len() + 3 < usize::MAX
    }

    /// A parser at the start of `tokens`.
    pub fn new(tokens: Vec<TokenWithSpan>) -> (r: Parser)
        requires
            tokens@.len() + 3 < usize::MAX,
        ensures
            r.wf(),
            r.tokens() == token_seq(tokens@),
            r.position() == 0,
    {
        Parser { tokens, current: 0 }
    }

    /// The kind of the token at `p`.
    fn kind(&self, p: usize) -> (r: u8)
        requires
            self.wf(),
        ensures
            r == tag(tok(self.tokens(), p as int)),
    {
        if p < self.tokens.len() {
            token_tag(&self.tokens[p].token)
        } else {
            T_EOF
        }
    }

    /// The name of the identifier token at `p`, if it is one.
    fn ident(&self, p: usize) -> (r: Option<String>)
        requires
            self.wf(),
        ensures
            match r {
                Some(n) => tok(self.tokens(), p as int) matches Token::Identifier(m) && n@ == m@,
                None => !(tok(self.tokens(), p as int) is Identifier),
            },
    {
        if p < self.tokens.len() {
            match &self.tokens[p].token {
                Token::Identifier(n) => Some(n.clone()),
                _ => None,
            }
        } else {
            None
        }
    }

    /// Requires a token of kind `k` at `p`.
    fn expect(&self, p: usize, k: u8) -> (r: Result<usize, ParseError>)
        requires
            self.wf(),
            k != T_EOF,
        ensures
            pos_result(r) == expect(self.tokens(), p as int, k),
    {
        if p < self.tokens.len() && self.kind(p) == k {
            Ok(p + 1)
        } else {
            Err(ParseError::UnexpectedToken { position: p })
        }
    }

    /// assignment := logical_or ( "=" assignment )?
    fn assignment(&self, p: usize) -> (r: Result<(Expr, usize), ParseError>)
        requires
            self.wf(),
            p <= self.tokens@.len(),
        ensures
            expr_result(r) == assignment(self.tokens(), p as int),
            advanced(r, p as int, self.tokens@.len() as int),
        decreases self.tokens@.len() - p, 30int,
    {
        let (lhs, p1) = self.level(p, 29)?;
        if self.kind(p1) == T_EQUALS && p1 < self.tokens.len() {
            let (rhs, p2) = self.assignment(p1 + 1)?;
            match lhs {
                Expr::Variable(n) => Ok((Expr::Assign(n, Box::new(rhs)), p2)),
                Expr::Index { object, index } => Ok(
                    (Expr::IndexAssign { object, index, value: Box::new(rhs) }, p2),
                ),
                Expr::Dot { object, field } => Ok(
                    (Expr::DotAssign { object, field, value: Box::new(rhs) }, p2),
                ),
                _ => Err(ParseError::InvalidAssignmentTarget { position: p1 }),
            }
        } else {
            Ok((lhs, p1))
        }
    }

    /// One left-associative binary level (see `level`).
    fn level(&self, p: usize, lv: u8) -> (r: Result<(Expr, usize), ParseError>)
        requires
            self.wf(),
            p <= self.tokens@.len(),
            19 <= lv <= 29,
            lv % 2 == 1,
        ensures
            expr_result(r) == level(self.tokens(), p as int, lv as int),
            advanced(r, p as int, self.tokens@.len() as int),
        decreases self.tokens@.len() - p, lv as int,
    {
        let (first, q0) = if lv == 19 {
            self.unary(p)?
        } else {
            self.level(p, lv - 2)?
        };
        let ghost ts = self.tokens();
        let mut acc = first;
        let mut q = q0;
        loop
            invariant
                self.wf(),
                ts == self.tokens(),
                19 <= lv <= 29,
                lv % 2 == 1,
                p < q <= self.tokens@.len(),
                level(ts, p as int, lv as int) == level_rest(ts, q as int, lv as int, acc@),
            decreases self.tokens@.len() - q,
        {
            if q >= self.tokens.len() {
                return Ok((acc, q));
            }
            let k = self.kind(q);
            let bop = binary_op_of(lv, k);
            let lop = logical_op_of(lv, k);
            if bop.is_none() && lop.is_none() {
                return Ok((acc, q));
            }
            let (operand, q1) = if lv == 19 {
                self.unary(q + 1)?
            } else {
                self.level(q + 1, lv - 2)?
            };
            match bop {
                Some(op) => {
                    acc = Expr::Binary { left: Box::new(acc), operator: op, right: Box::new(operand) };
                },
                None => {
                    let op = match lop {
                        Some(o) => o,
                        None => LogicalOp::And,
                    };
                    acc = Expr::Logical { left: Box::new(acc), operator: op, right: Box::new(operand) };
                },
            }
            q = q1;
        }
    }

    /// unary := ("!" | "-") unary | primary postfix*
    fn unary(&self, p: usize) -> (r: Result<(Expr, usize), ParseError>)
        requires
            self.wf(),
            p <= self.tokens@.len(),
        ensures
            expr_result(r) == unary(self.tokens(), p as int),
            advanced(r, p as int, self.tokens@.len() as int),
        decreases self.tokens@.len() - p, 17int,
    {
        let k = self.kind(p);
        if (k == T_BANG || k == T_MINUS) && p < self.tokens.len() {
            let op = if k == T_BANG {
                UnaryOp::Not
            } else {
                UnaryOp::Negate
            };
            let (r, q) = self.unary(p + 1)?;
            return Ok((Expr::Unary { operator: op, right: Box::new(r) }, q));
        }
        let (e, q0) = self.primary(p)?;
        let ghost ts = self.tokens();
        let mut acc = e;
        let mut q = q0;
        loop
            invariant
                self.wf(),
                ts == self.tokens(),
                p < q <= self.tokens@.len(),
                unary(ts, p as int) == postfix(ts, q as int, acc@),
            decreases self.tokens@.len() - q,
        {
            if q >= self.tokens.len() {
                return Ok((acc, q));
            }
            let k = self.kind(q);
            if k == T_LEFT_BRACKET {
                let (idx, q1) = self.assignment(q + 1)?;
                let q2 = self.expect(q1, T_RIGHT_BRACKET)?;
                if self.kind(q2) == T_EQUALS && q2 < self.tokens.len() {
                    let (v, q3) = self.assignment(q2 + 1)?;
                    acc = Expr::IndexAssign {
                        object: Box::new(acc),
                        index: Box::new(idx),
                        value: Box::new(v),
                    };
                    q = q3;
                } else {
                    acc = Expr::Index { object: Box::new(acc), index: Box::new(idx) };
                    q = q2;
                }
            } else if k == T_DOT {
                match self.ident(q + 1) {
                    Some(name) => {
                        let q2 = q + 2;
                        if self.kind(q2) == T_EQUALS && q2 < self.tokens.len() {
                            let (v, q3) = self.assignment(q2 + 1)?;
                            acc = Expr::DotAssign {
                                object: Box::new(acc),
                                field: name,
                                value: Box::new(v),
                            };
                            q = q3;
                        } else {
                            acc = Expr::Dot { object: Box::new(acc), field: name };
                            q = q2;
                        }
                    },
                    None => {
                        return Err(ParseError::UnexpectedToken { position: q + 1 });
                    },
                }
            } else {
                return Ok((acc, q));
            }
        }
    }

    /// primary := literal | identifier | call | "(" expression ")" | array | map
    fn primary(&self, p: usize) -> (r: Result<(Expr, usize), ParseError>)
        requires
            self.wf(),
            p <= self.tokens@.len(),
        ensures
            expr_result(r) == primary(self.tokens(), p as int),
            advanced(r, p as int, self.tokens@.len() as int),
        decreases self.tokens@.len() - p, 14int,
    {
        if p >= self.tokens.len() {
            return Err(ParseError::ExpectedExpression { position: p });
        }
        match &self.tokens[p].token {
            Token::True => Ok((Expr::Boolean(true), p + 1)),
            Token::False => Ok((Expr::Boolean(false), p + 1)),
            Token::Number(n) => Ok((Expr::Number(*n), p + 1)),
            Token::StringLiteral(s) => Ok((Expr::String(s.clone()), p + 1)),
            Token::LeftBrace => {
                if self.kind(p + 1) == T_RIGHT_BRACE {
                    let e = Expr::Dict(Vec::new());
                    proof {
                        lemma_expr_lists(e);
                        assert(pairs_view(Seq::<(String, Expr)>::empty()) =~= Seq::empty());
                    }
                    Ok((e, p + 2))
                } else {
                    let (ps, p1) = self.pairs(p + 1)?;
                    let p2 = self.expect(p1, T_RIGHT_BRACE)?;
                    let e = Expr::Dict(ps);
                    proof {
                        lemma_expr_lists(e);
                    }
                    Ok((e, p2))
                }
            },
            Token::LeftBracket => {
                if self.kind(p + 1) == T_RIGHT_BRACKET {
                    let e = Expr::Array(Vec::new());
                    proof {
                        lemma_expr_lists(e);
                        assert(exprs_view(Seq::<Expr>::empty()) =~= Seq::empty());
                    }
                    Ok((e, p + 2))
                } else {
                    let (es, p1) = self.exprs(p + 1)?;
                    let p2 = self.expect(p1, T_RIGHT_BRACKET)?;
                    let e = Expr::Array(es);
                    proof {
                        lemma_expr_lists(e);
                    }
                    Ok((e, p2))
                }
            },
            Token::Identifier(name) => {
                if self.kind(p + 1) == T_LEFT_PAREN {
                    let (args, p1) = if self.kind(p + 2) == T_RIGHT_PAREN {
                        proof {
                            assert(exprs_view(Seq::<Expr>::empty()) =~= Seq::empty());
                        }
                        (Vec::new(), p + 2)
                    } else {
                        self.exprs(p + 2)?
                    };
                    let p2 = self.expect(p1, T_RIGHT_PAREN)?;
                    let e = Expr::Call {
                        callee: Box::new(Expr::Variable(name.clone())),
                        arguments: args,
                    };
                    proof {
                        lemma_expr_lists(e);
                    }
                    Ok((e, p2))
                } else {
                    Ok((Expr::Variable(name.clone()), p + 1))
                }
            },
            Token::LeftParen => {
                let (e, p1) = self.assignment(p + 1)?;
                let p2 = self.expect(p1, T_RIGHT_PAREN)?;
                Ok((e, p2))
            },
            _ => Err(ParseError::ExpectedExpression { position: p }),
        }
    }

    /// A comma-separated list of expressions.
    fn exprs(&self, p: usize) -> (r: Result<(Vec<Expr>, usize), ParseError>)
        requires
            self.wf(),
            p <= self.tokens@.len(),
        ensures
            exprs(self.tokens(), p as int, Seq::empty()) == match r {
                Ok((es, q)) => Ok((exprs_view(es@), q as int)),
                Err(err) => Err(err),
            },
            advanced(r, p as int, self.tokens@.len() as int),
        decreases self.tokens@.len() - p, 40int,
    {
        let ghost ts = self.tokens();
        let mut acc: Vec<Expr> = Vec::new();
        let mut q = p;
        assert(exprs_view(acc@) =~= Seq::empty());
        loop
            invariant
                self.wf(),
                ts == self.tokens(),
                p <= q <= self.tokens@.len(),
                exprs(ts, p as int, Seq::empty()) == exprs(ts, q as int, exprs_view(acc@)),
            decreases self.tokens@.len() - q,
        {
            let (e, q1) = self.assignment(q)?;
            let ghost a0 = acc@;
            acc.push(e);
            assert(exprs_view(acc@) =~= exprs_view(a0).push(e@));
            if self.kind(q1) == T_COMMA && q1 < self.tokens.len() {
                q = q1 + 1;
            } else {
                return Ok((acc, q1));
            }
        }
    }

    /// A comma-separated list of `key: value` entries.
    fn pairs(&self, p: usize) -> (r: Result<(Vec<(String, Expr)>, usize), ParseError>)
        requires
            self.wf(),
            p <= self.tokens@.len(),
        ensures
            pairs(self.tokens(), p as int, Seq::empty()) == match r {
                Ok((ps, q)) => Ok((pairs_view(ps@), q as int)),
                Err(err) => Err(err),
            },
            advanced(r, p as int, self.tokens@.len() as int),
        decreases self.tokens@.len() - p, 40int,
    {
        let ghost ts = self.tokens();
        let mut acc: Vec<(String, Expr)> = Vec::new();
        let mut q = p;
        assert(pairs_view(acc@) =~= Seq::empty());
        loop
            invariant
                self.wf(),
                ts == self.tokens(),
                p <= q <= self.tokens@.len(),
                pairs(ts, p as int, Seq::empty()) == pairs(ts, q as int, pairs_view(acc@)),
            decreases self.tokens@.len() - q,
        {
            if q >= self.tokens.len() {
                return Err(ParseError::UnexpectedToken { position: q });
            }
            let key = match &self.tokens[q].token {
                Token::StringLiteral(s) => s.clone(),
                Token::Identifier(n) => n.clone(),
                _ => {
                    return Err(ParseError::UnexpectedToken { position: q });
                },
            };
            let q1 = self.expect(q + 1, T_COLON)?;
            let (v, q2) = self.assignment(q1)?;
            let ghost a0 = acc@;
            let ghost kv = (key@, v@);
            acc.push((key, v));
            assert(pairs_view(acc@) =~= pairs_view(a0).push(kv));
            if self.kind(q2) == T_COMMA && q2 < self.tokens.len() {
                q = q2 + 1;
            } else {
                return Ok((acc, q2));
            }
        }
    }

    /// declaration := "fn" function | "let" let | statement
    fn declaration(&self, p: usize) -> (r: Result<(Stmt, usize), ParseError>)
        requires
            self.wf(),
            p <= self.tokens@.len(),
        ensures
            stmt_result(r) == declaration(self.tokens(), p as int),
            advanced(r, p as int, self.tokens@.len() as int),
        decreases self.tokens@.len() - p, 60int,
    {
        let k = self.kind(p);
        if k == T_FN && p < self.tokens.len() {
            self.function_declaration(p + 1)
        } else if k == T_LET && p < self.tokens.len() {
            self.let_declaration(p + 1)
        } else {
            self.statement(p)
        }
    }

    /// function := IDENT "(" params? ")" "{" block_body
    fn function_declaration(&self, p: usize) -> (r: Result<(Stmt, usize), ParseError>)
        requires
            self.wf(),
            0 < p <= self.tokens@.len(),
        ensures
            stmt_result(r) == function_decl(self.tokens(), p as int),
            advanced(r, p as int, self.tokens@.len() as int),
        decreases self.tokens@.len() - p, 70int,
    {
        if p >= self.tokens.len() {
            return Err(ParseError::UnexpectedToken { position: p });
        }
        let name = match self.ident(p) {
            Some(n) => n,
            None => {
                return Err(ParseError::UnexpectedToken { position: p });
            },
        };
        let p1 = self.expect(p + 1, T_LEFT_PAREN)?;
        let (names, p2) = if self.kind(p1) == T_RIGHT_PAREN {
            proof {
                assert(strings_view(Seq::<String>::empty()) =~= Seq::empty());
            }
            (Vec::new(), p1)
        } else {
            self.params(p1)?
        };
        let p3 = self.expect(p2, T_RIGHT_PAREN)?;
        let p4 = self.expect(p3, T_LEFT_BRACE)?;
        let (body, p5) = self.block_body(p4)?;
        let st = Stmt::Function { name, params: Rc::new(names), body: Rc::new(body) };
        proof {
            lemma_stmt_lists(st);
        }
        Ok((st, p5))
    }

    /// params := IDENT ("," IDENT)*
    fn params(&self, p: usize) -> (r: Result<(Vec<String>, usize), ParseError>)
        requires
            self.wf(),
            p <= self.tokens@.len(),
        ensures
            params(self.tokens(), p as int, Seq::empty()) == match r {
                Ok((ns, q)) => Ok((strings_view(ns@), q as int)),
                Err(err) => Err(err),
            },
            advanced(r, p as int, self.tokens@.len() as int),
    {
        let ghost ts = self.tokens();
        let mut acc: Vec<String> = Vec::new();
        let mut q = p;
        assert(strings_view(acc@) =~= Seq::empty());
        loop
            invariant
                self.wf(),
                ts == self.tokens(),
                p <= q <= self.tokens@.len(),
                params(ts, p as int, Seq::empty()) == params(ts, q as int, strings_view(acc@)),
            decreases self.tokens@.len() - q,
        {
            if q >= self.tokens.len() {
                return Err(ParseError::UnexpectedToken { position: q });
            }
            let n = match self.ident(q) {
                Some(n) => n,
                None => {
                    return Err(ParseError::UnexpectedToken { position: q });
                },
            };
            let ghost a0 = acc@;
            let ghost nv = n@;
            acc.push(n);
            assert(strings_view(acc@) =~= strings_view(a0).push(nv));
            if self.kind(q + 1) == T_COMMA && q + 1 < self.tokens.len() {
                q = q + 2;
            } else {
                return Ok((acc, q + 1));
            }
        }
    }

    /// let := IDENT ("=" expression)? ";"
    fn let_declaration(&self, p: usize) -> (r: Result<(Stmt, usize), ParseError>)
        requires
            self.wf(),
            0 < p <= self.tokens@.len(),
        ensures
            stmt_result(r) == let_decl(self.tokens(), p as int),
            advanced(r, p as int, self.tokens@.len() as int),
        decreases self.tokens@.len() - p, 70int,
    {
        if p >= self.tokens.len() {
            return Err(ParseError::UnexpectedToken { position: p });
        }
        let name = match self.ident(p) {
            Some(n) => n,
            None => {
                return Err(ParseError::UnexpectedToken { position: p });
            },
        };
        if self.kind(p + 1) == T_EQUALS && p + 1 < self.tokens.len() {
            let (e, p1) = self.assignment(p + 2)?;
            let p2 = self.expect(p1, T_SEMICOLON)?;
            Ok((Stmt::Let { name, initializer: Some(e) }, p2))
        } else {
            let p2 = self.expect(p + 1, T_SEMICOLON)?;
            Ok((Stmt::Let { name, initializer: None }, p2))
        }
    }

    /// statement := return | if | while | for | block | print | expression ";"
    fn statement(&self, p: usize) -> (r: Result<(Stmt, usize), ParseError>)
        requires
            self.wf(),
            p <= self.tokens@.len(),
        ensures
            stmt_result(r) == statement(self.tokens(), p as int),
            advanced(r, p as int, self.tokens@.len() as int),
        decreases self.tokens@.len() - p, 59int,
    {
        let k = self.kind(p);
        let n = self.tokens.len();
        if p < n && k == T_RETURN {
            if self.kind(p + 1) == T_SEMICOLON {
                let p1 = self.expect(p + 1, T_SEMICOLON)?;
                Ok((Stmt::Return { value: None }, p1))
            } else {
                let (e, p1) = self.assignment(p + 1)?;
                let p2 = self.expect(p1, T_SEMICOLON)?;
                Ok((Stmt::Return { value: Some(e) }, p2))
            }
        } else if p < n && (k == T_IF || k == T_WHILE) {
            let p1 = self.expect(p + 1, T_LEFT_PAREN)?;
            let (c, p2) = self.assignment(p1)?;
            let p3 = self.expect(p2, T_RIGHT_PAREN)?;
            let (body, p4) = self.statement(p3)?;
            if k == T_WHILE {
                Ok((Stmt::While { condition: c, body: Box::new(body) }, p4))
            } else if self.kind(p4) == T_ELSE && p4 < n {
                let (alt, p5) = self.statement(p4 + 1)?;
                Ok(
                    (
                        Stmt::If {
                            condition: c,
                            then_branch: Box::new(body),
                            else_branch: Some(Box::new(alt)),
                        },
                        p5,
                    ),
                )
            } else {
                Ok((Stmt::If { condition: c, then_branch: Box::new(body), else_branch: None }, p4))
            }
        } else if p < n && k == T_FOR {
            let p1 = self.expect(p + 1, T_LEFT_PAREN)?;
            let v = match self.ident(p1) {
                Some(v) => v,
                None => {
                    return Err(ParseError::UnexpectedToken { position: p1 });
                },
            };
            let p2 = self.expect(p1 + 1, T_IN)?;
            let (it, p3) = self.assignment(p2)?;
            let p4 = self.expect(p3, T_RIGHT_PAREN)?;
            let (body, p5) = self.statement(p4)?;
            Ok((Stmt::For { variable: v, iterable: Box::new(it), body: Box::new(body) }, p5))
        } else if p < n && k == T_LEFT_BRACE {
            let (ss, p1) = self.block_body(p + 1)?;
            let st = Stmt::Block(ss);
            proof {
                lemma_stmt_lists(st);
            }
            Ok((st, p1))
        } else if p < n && k == T_PRINT {
            let (e, p1) = self.assignment(p + 1)?;
            let p2 = self.expect(p1, T_SEMICOLON)?;
            Ok((Stmt::Print(e), p2))
        } else {
            let (e, p1) = self.assignment(p)?;
            let p2 = self.expect(p1, T_SEMICOLON)?;
            Ok((Stmt::Expr(e), p2))
        }
    }

    /// The declarations of a block up to and including its closing brace.
    fn block_body(&self, p: usize) -> (r: Result<(Vec<Stmt>, usize), ParseError>)
        requires
            self.wf(),
            0 < p <= self.tokens@.len(),
        ensures
            block_body(self.tokens(), p as int, Seq::empty()) == match r {
                Ok((ss, q)) => Ok((stmts_view(ss@), q as int)),
                Err(err) => Err(err),
            },
            advanced(r, p as int, self.tokens@.len() as int),
        decreases self.tokens@.len() - p, 80int,
    {
        let ghost ts = self.tokens();
        let mut acc: Vec<Stmt> = Vec::new();
        let mut q = p;
        assert(stmts_view(acc@) =~= Seq::empty());
        loop
            invariant
                self.wf(),
                ts == self.tokens(),
                p <= q <= self.tokens@.len(),
                block_body(ts, p as int, Seq::empty()) == block_body(ts, q as int, stmts_view(acc@)),
            decreases self.tokens@.len() - q,
        {
            let k = self.kind(q);
            if k == T_RIGHT_BRACE || k == T_EOF {
                let q1 = self.expect(q, T_RIGHT_BRACE)?;
                return Ok((acc, q1));
            }
            let (d, q1) = self.declaration(q)?;
            let ghost a0 = acc@;
            let ghost dv = d@;
            acc.push(d);
            assert(stmts_view(acc@) =~= stmts_view(a0).push(dv));
            q = q1;
        }
    }

    /// Where recovery from an error at `p` resumes.
    fn synchronize(&self, p: usize) -> (q: usize)
        requires
            self.wf(),
        ensures
            q as int == synchronize(self.tokens(), p as int),
    {
        if p >= self.tokens.len() || self.kind(p) == T_EOF {
            return p;
        }
        let mut q = p + 1;
        loop
            invariant
                self.wf(),
                p < q <= self.tokens@.len(),
                synchronize(self.tokens(), p as int) == sync_from(self.tokens(), q as int),
            decreases self.tokens@.len() - q,
        {
            if q >= self.tokens.len() {
                return q;
            }
            let k = self.kind(q);
            if k == T_EOF || self.kind(q - 1) == T_SEMICOLON || k == T_LET || k == T_PRINT || k
                == T_IF || k == T_WHILE || k == T_FN {
                return q;
            }
            q = q + 1;
        }
    }

    /// Parses the declarations from the current position to the end of input.
    /// On a syntax error the parser resumes at the next statement boundary, so
    /// that every error is reported; any error makes the whole result an error.
    pub fn parse(&mut self) -> (r: Result<Program, Vec<ParseError>>)
        requires
            old(self).wf(),
        ensures
            final(self).wf(),
            final(self).tokens() == old(self).tokens(),
            program(old(self).tokens(), old(self).position(), Seq::empty(), Seq::empty()) == match r {
                Ok(prog) => Ok(stmts_view(prog.statements@)),
                Err(es) => Err(es@),
            },
    {
        let ghost ts = self.tokens();
        let ghost p0 = self.current as int;
        let mut stmts: Vec<Stmt> = Vec::new();
        let mut errs: Vec<ParseError> = Vec::new();
        let mut p = self.current;
        assert(stmts_view(stmts@) =~= Seq::empty());
        assert(errs@ =~= Seq::empty());
        loop
            invariant
                self.wf(),
                ts == self.tokens(),
                ts == old(self).tokens(),
                p0 == old(self).position(),
                p <= self.tokens@.len(),
                program(ts, p0, Seq::empty(), Seq::empty()) == program(
                    ts,
                    p as int,
                    stmts_view(stmts@),
                    errs@,
                ),
            decreases self.tokens@.len() - p,
        {
            if p >= self.tokens.len() || self.kind(p) == T_EOF {
                self.current = p;
                if errs.len() == 0 {
                    return Ok(Program { statements: stmts });
                } else {
                    return Err(errs);
                }
            }
            match self.declaration(p) {
                Ok((s, p1)) => {
                    let ghost a0 = stmts@;
                    let ghost sv = s@;
                    stmts.push(s);
                    assert(stmts_view(stmts@) =~= stmts_view(a0).push(sv));
                    p = p1;
                },
                Err(e) => {
                    let at = match e {
                        ParseError::UnexpectedToken { position } => position,
                        ParseError::ExpectedExpression { position } => position,
                        ParseError::InvalidAssignmentTarget { position } => position,
                    };
                    let q = self.synchronize(at);
                    errs.push(e);
                    if p < q && q <= self.tokens.len() {
                        p = q;
                    } else {
                        self.current = p;
                        return Err(errs);
                    }
                },
            }
        }
    }
}

} // verus!
