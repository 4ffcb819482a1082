//! The recursive-descent parser: tokens in, AST out. Each parse function
//! either consumes at least one token and returns a node, or reports an
//! error at the offending position without consuming anything further.

use vstd::prelude::*;

use crate::lexer::TokenStream;
use crate::types::{contains_str, BinOp, CompileError, Expr, Stmt, Type, TypeKind};
use crate::types::TokenKind;

verus! {

/// The parser: its token cursor, the function names defined so far, and the
/// named locals of the function being parsed.
pub struct Parser {
    pub tokens: TokenStream,
    pub defined_fn: Vec<String>,
    pub lvars: Vec<String>,
}

impl Parser {
    pub open spec fn wf(&self) -> bool {
        self.tokens.wf()
    }

    pub fn new(tokens: TokenStream) -> (r: Parser)
        ensures
            r.tokens == tokens,
            r.lvars@.len() == 0,
    {
        Parser { tokens, defined_fn: Vec::new(), lvars: Vec::new() }
    }

    /// `params = "(" ident ("," ident)* ")" | "(" ")"`
    fn params(&mut self) -> (r: Result<Vec<Expr>, CompileError>)
        requires
            old(self).wf(),
        ensures
            final(self).wf(),
            final(self).tokens.tok_vec == old(self).tokens.tok_vec,
            final(self).tokens.input == old(self).tokens.input,
            old(self).tokens.idx <= final(self).tokens.idx,
            r is Ok ==> old(self).tokens.idx < final(self).tokens.idx,
        decreases self.tokens.remaining(), 9int,
    {
        let ghost idx0 = self.tokens.idx;
        match self.tokens.expect("(") {
            Ok(()) => {},
            Err(e) => {
                return Err(e);
            },
        }
        let mut params: Vec<Expr> = Vec::new();
        if self.tokens.consume(")") {
            return Ok(params);
        }
        loop
            invariant
                self.wf(),
                self.tokens.tok_vec == old(self).tokens.tok_vec,
                self.tokens.input == old(self).tokens.input,
                idx0 < self.tokens.idx,
                idx0 == old(self).tokens.idx,
            decreases self.tokens.remaining(),
        {
            match self.tokens.consume_ident() {
                Some(t) => {
                    params.push(Expr::Var(t.str));
                },
                None => {
                    let pos = self.tokens.get_current_token().pos;
                    return Err(CompileError::new(pos, "parameters must be identifiers"));
                },
            }
            if !self.tokens.consume(",") {
                match self.tokens.expect(")") {
                    Ok(()) => {
                        return Ok(params);
                    },
                    Err(e) => {
                        return Err(e);
                    },
                }
            }
        }
    }

    /// `args = expr ("," expr)* ")" | ")"`
    fn args(&mut self) -> (r: Result<Vec<Expr>, CompileError>)
        requires
            old(self).wf(),
        ensures
            final(self).wf(),
            final(self).tokens.tok_vec == old(self).tokens.tok_vec,
            final(self).tokens.input == old(self).tokens.input,
            old(self).tokens.idx <= final(self).tokens.idx,
            r is Ok ==> old(self).tokens.idx < final(self).tokens.idx,
        decreases self.tokens.remaining(), 9int,
    {
        let mut args: Vec<Expr> = Vec::new();
        if self.tokens.consume(")") {
            return Ok(args);
        }
        loop
            invariant
                self.wf(),
                self.tokens.tok_vec == old(self).tokens.tok_vec,
                self.tokens.input == old(self).tokens.input,
                old(self).tokens.idx <= self.tokens.idx,
            decreases self.tokens.remaining(),
        {
            let arg = match self.expr() {
                Ok(a) => a,
                Err(e) => {
                    return Err(e);
                },
            };
            args.push(arg);
            if !self.tokens.consume(",") {
                match self.tokens.expect(")") {
                    Ok(()) => {
                        return Ok(args);
                    },
                    Err(e) => {
                        return Err(e);
                    },
                }
            }
        }
    }

    /// `defun = ("int")? ident "(" params ")" "{" stmt* "}"`
    pub fn defun(&mut self) -> (r: Result<Stmt, CompileError>)
        requires
            old(self).wf(),
        ensures
            final(self).wf(),
            final(self).tokens.tok_vec == old(self).tokens.tok_vec,
            final(self).tokens.input == old(self).tokens.input,
            old(self).tokens.idx <= final(self).tokens.idx,
            r is Ok ==> old(self).tokens.idx < final(self).tokens.idx,
            r is Ok ==> r->Ok_0 is Fn,
        decreases self.tokens.remaining(), 11int,
    {
        self.lvars.clear();
        // An optional return type.
        let _ = self.tokens.consume_type(TypeKind::Int);
        let fn_name: String = match self.tokens.consume_ident() {
            Some(ident) => ident.str,
            None => {
                let pos = self.tokens.get_current_token().pos;
                return Err(CompileError::new(pos, "function name not found"));
            },
        };
        if contains_str(&self.defined_fn, fn_name.as_str()) {
            let pos = self.tokens.get_current_token().pos;
            return Err(CompileError::new(pos, "function is defined twice"));
        }
        self.defined_fn.push(fn_name.clone());
        let params = match self.params() {
            Ok(p) => p,
            Err(e) => {
                return Err(e);
            },
        };
        match self.tokens.expect("{") {
            Ok(()) => {},
            Err(e) => {
                return Err(e);
            },
        }
        let mut body: Vec<Stmt> = Vec::new();
        loop
            invariant
                self.wf(),
                self.tokens.tok_vec == old(self).tokens.tok_vec,
                self.tokens.input == old(self).tokens.input,
                old(self).tokens.idx < self.tokens.idx,
            decreases self.tokens.remaining(),
        {
            if self.tokens.consume("}") {
                return Ok(Stmt::Fn { fn_name, params, body });
            }
            let s = match self.stmt() {
                Ok(s) => s,
                Err(e) => {
                    return Err(e);
                },
            };
            body.push(s);
        }
    }

    /// ```text
    /// stmt = expr ";" |
    ///        "int" "*"* ident ";" |
    ///        "while" "(" expr ")" stmt |
    ///        "if" "(" expr ")" stmt ("else" stmt)? |
    ///        "for" "(" expr? ";" expr? ";" expr? ")" stmt |
    ///        "{" stmt* "}" |
    ///        "return" expr ";"
    /// ```
    fn stmt(&mut self) -> (r: Result<Stmt, CompileError>)
        requires
            old(self).wf(),
        ensures
            final(self).wf(),
            final(self).tokens.tok_vec == old(self).tokens.tok_vec,
            final(self).tokens.input == old(self).tokens.input,
            old(self).tokens.idx <= final(self).tokens.idx,
            r is Ok ==> old(self).tokens.idx < final(self).tokens.idx,
        decreases self.tokens.remaining(), 10int,
    {
        if self.tokens.consume_type(TypeKind::Int) {
            let mut ty = Type::Int;
            loop
                invariant
                    self.wf(),
                    self.tokens.tok_vec == old(self).tokens.tok_vec,
                    self.tokens.input == old(self).tokens.input,
                    old(self).tokens.idx < self.tokens.idx,
                decreases self.tokens.remaining(),
            {
                if !self.tokens.consume("*") {
                    break;
                }
                ty = Type::Ptr(Box::new(ty));
            }
            let name = match self.tokens.consume_ident() {
                Some(ident) => ident.str,
                None => {
                    let pos = self.tokens.get_current_token().pos;
                    return Err(CompileError::new(pos, "expected identifier"));
                },
            };
            match self.tokens.expect(";") {
                Ok(()) => {},
                Err(e) => {
                    return Err(e);
                },
            }
            self.lvars.push(name.clone());
            Ok(Stmt::VarDecl { name, ty })
        } else if self.tokens.consume_keyword(TokenKind::TK_WHILE) {
            match self.tokens.expect("(") {
                Ok(()) => {},
                Err(e) => {
                    return Err(e);
                },
            }
            let cond = match self.expr() {
                Ok(c) => c,
                Err(e) => {
                    return Err(e);
                },
            };
            match self.tokens.expect(")") {
                Ok(()) => {},
                Err(e) => {
                    return Err(e);
                },
            }
            let body = match self.stmt() {
                Ok(b) => b,
                Err(e) => {
                    return Err(e);
                },
            };
            Ok(Stmt::While { cond, body: Box::new(body) })
        } else if self.tokens.consume_keyword(TokenKind::TK_FOR) {
            match self.tokens.expect("(") {
                Ok(()) => {},
                Err(e) => {
                    return Err(e);
                },
            }
            let init = if self.tokens.consume(";") {
                None
            } else {
                let e0 = match self.expr() {
                    Ok(x) => x,
                    Err(e) => {
                        return Err(e);
                    },
                };
                match self.tokens.expect(";") {
                    Ok(()) => {},
                    Err(e) => {
                        return Err(e);
                    },
                }
                Some(Box::new(e0))
            };
            let cond = if self.tokens.consume(";") {
                None
            } else {
                let e0 = match self.expr() {
                    Ok(x) => x,
                    Err(e) => {
                        return Err(e);
                    },
                };
                match self.tokens.expect(";") {
                    Ok(()) => {},
                    Err(e) => {
                        return Err(e);
                    },
                }
                Some(Box::new(e0))
            };
            let update = if self.tokens.consume(")") {
                None
            } else {
                let e0 = match self.expr() {
                    Ok(x) => x,
                    Err(e) => {
                        return Err(e);
                    },
                };
                match self.tokens.expect(")") {
                    Ok(()) => {},
                    Err(e) => {
                        return Err(e);
                    },
                }
                Some(Box::new(e0))
            };
            let body = match self.stmt() {
                Ok(b) => b,
                Err(e) => {
                    return Err(e);
                },
            };
            Ok(Stmt::For { init, cond, update, body: Box::new(body) })
        } else if self.tokens.consume_keyword(TokenKind::TK_IF) {
            match self.tokens.expect("(") {
                Ok(()) => {},
                Err(e) => {
                    return Err(e);
                },
            }
            let cond = match self.expr() {
                Ok(c) => c,
                Err(e) => {
                    return Err(e);
                },
            };
            match self.tokens.expect(")") {
                Ok(()) => {},
                Err(e) => {
                    return Err(e);
                },
            }
            let then = match self.stmt() {
                Ok(t) => t,
                Err(e) => {
                    return Err(e);
                },
            };
            let els = if self.tokens.consume_keyword(TokenKind::TK_ELSE) {
                let e0 = match self.stmt() {
                    Ok(s) => s,
                    Err(e) => {
                        return Err(e);
                    },
                };
                Some(Box::new(e0))
            } else {
                None
            };
            Ok(Stmt::If { cond, then: Box::new(then), els })
        } else if self.tokens.consume("{") {
            let mut block_stmt: Vec<Stmt> = Vec::new();
            loop
                invariant
                    self.wf(),
                    self.tokens.tok_vec == old(self).tokens.tok_vec,
                    self.tokens.input == old(self).tokens.input,
                    old(self).tokens.idx < self.tokens.idx,
                decreases self.tokens.remaining(),
            {
                if self.tokens.consume("}") {
                    return Ok(Stmt::Block(block_stmt));
                }
                let s = match self.stmt() {
                    Ok(s) => s,
                    Err(e) => {
                        return Err(e);
                    },
                };
                block_stmt.push(s);
            }
        } else {
            let node: Stmt = if self.tokens.consume_keyword(TokenKind::TK_RETURN) {
                let e0 = match self.expr() {
                    Ok(x) => x,
                    Err(e) => {
                        return Err(e);
                    },
                };
                Stmt::Return(e0)
            } else {
                let e0 = match self.expr() {
                    Ok(x) => x,
                    Err(e) => {
                        return Err(e);
                    },
                };
                Stmt::ExprStmt(e0)
            };
            match self.tokens.expect(";") {
                Ok(()) => {},
                Err(e) => {
                    return Err(e);
                },
            }
            Ok(node)
        }
    }

    /// `expr = assign`
    fn expr(&mut self) -> (r: Result<Expr, CompileError>)
        requires
            old(self).wf(),
        ensures
            final(self).wf(),
            final(self).tokens.tok_vec == old(self).tokens.tok_vec,
            final(self).tokens.input == old(self).tokens.input,
            old(self).tokens.idx <= final(self).tokens.idx,
            r is Ok ==> old(self).tokens.idx < final(self).tokens.idx,
        decreases self.tokens.remaining(), 8int,
    {
        self.assign()
    }

    /// `assign = equiality ("=" equiality)?`
    fn assign(&mut self) -> (r: Result<Expr, CompileError>)
        requires
            old(self).wf(),
        ensures
            final(self).wf(),
            final(self).tokens.tok_vec == old(self).tokens.tok_vec,
            final(self).tokens.input == old(self).tokens.input,
            old(self).tokens.idx <= final(self).tokens.idx,
            r is Ok ==> old(self).tokens.idx < final(self).tokens.idx,
        decreases self.tokens.remaining(), 7int,
    {
        let pos = self.tokens.get_current_token().pos;
        let node = match self.equiality() {
            Ok(n) => n,
            Err(e) => {
                return Err(e);
            },
        };
        if self.tokens.consume("=") {
            let rhs = match self.equiality() {
                Ok(n) => n,
                Err(e) => {
                    return Err(e);
                },
            };
            match node {
                Expr::Var(_) | Expr::Deref(_) => {},
                _ => {
                    return Err(CompileError::new(pos, "left value is not assignable"));
                },
            }
            Ok(Expr::Assign { lhs: Box::new(node), rhs: Box::new(rhs) })
        } else {
            Ok(node)
        }
    }

    /// `equiality = relational ( "==" relational | "!=" relational )*`
    fn equiality(&mut self) -> (r: Result<Expr, CompileError>)
        requires
            old(self).wf(),
        ensures
            final(self).wf(),
            final(self).tokens.tok_vec == old(self).tokens.tok_vec,
            final(self).tokens.input == old(self).tokens.input,
            old(self).tokens.idx <= final(self).tokens.idx,
            r is Ok ==> old(self).tokens.idx < final(self).tokens.idx,
        decreases self.tokens.remaining(), 6int,
    {
        let mut node = match self.relational() {
            Ok(n) => n,
            Err(e) => {
                return Err(e);
            },
        };
        loop
            invariant
                self.wf(),
                self.tokens.tok_vec == old(self).tokens.tok_vec,
                self.tokens.input == old(self).tokens.input,
                old(self).tokens.idx < self.tokens.idx,
            decreases self.tokens.remaining(),
        {
            if self.tokens.consume("==") {
                let rhs = match self.relational() {
                    Ok(n) => n,
                    Err(e) => {
                        return Err(e);
                    },
                };
                node = Expr::Binary { op: BinOp::Eq, lhs: Box::new(node), rhs: Box::new(rhs) };
            } else if self.tokens.consume("!=") {
                let rhs = match self.relational() {
                    Ok(n) => n,
                    Err(e) => {
                        return Err(e);
                    },
                };
                node = Expr::Binary { op: BinOp::Ne, lhs: Box::new(node), rhs: Box::new(rhs) };
            } else {
                return Ok(node);
            }
        }
    }

    /// `relational = add ( "<" add | "<=" add | ">" add | ">=" add )*`
    fn relational(&mut self) -> (r: Result<Expr, CompileError>)
        requires
            old(self).wf(),
        ensures
            final(self).wf(),
            final(self).tokens.tok_vec == old(self).tokens.tok_vec,
            final(self).tokens.input == old(self).tokens.input,
            old(self).tokens.idx <= final(self).tokens.idx,
            r is Ok ==> old(self).tokens.idx < final(self).tokens.idx,
        decreases self.tokens.remaining(), 5int,
    {
        let mut node = match self.add() {
            Ok(n) => n,
            Err(e) => {
                return Err(e);
            },
        };
        loop
            invariant
                self.wf(),
                self.tokens.tok_vec == old(self).tokens.tok_vec,
                self.tokens.input == old(self).tokens.input,
                old(self).tokens.idx < self.tokens.idx,
            decreases self.tokens.remaining(),
        {
            if self.tokens.consume("<=") {
                let rhs = match self.add() {
                    Ok(n) => n,
                    Err(e) => {
                        return Err(e);
                    },
                };
                node = Expr::Binary { op: BinOp::Le, lhs: Box::new(node), rhs: Box::new(rhs) };
            } else if self.tokens.consume("<") {
                let rhs = match self.add() {
                    Ok(n) => n,
                    Err(e) => {
                        return Err(e);
                    },
                };
                node = Expr::Binary { op: BinOp::Lt, lhs: Box::new(node), rhs: Box::new(rhs) };
            } else if self.tokens.consume(">=") {
                // `a >= b` is `b <= a`.
                let lhs = match self.add() {
                    Ok(n) => n,
                    Err(e) => {
                        return Err(e);
                    },
                };
                node = Expr::Binary { op: BinOp::Le, lhs: Box::new(lhs), rhs: Box::new(node) };
            } else if self.tokens.consume(">") {
                // `a > b` is `b < a`.
                let lhs = match self.add() {
                    Ok(n) => n,
                    Err(e) => {
                        return Err(e);
                    },
                };
                node = Expr::Binary { op: BinOp::Lt, lhs: Box::new(lhs), rhs: Box::new(node) };
            } else {
                return Ok(node);
            }
        }
    }

    /// `add = mul ( "+" mul | "-" mul )*`
    fn add(&mut self) -> (r: Result<Expr, CompileError>)
        requires
            old(self).wf(),
        ensures
            final(self).wf(),
            final(self).tokens.tok_vec == old(self).tokens.tok_vec,
            final(self).tokens.input == old(self).tokens.input,
            old(self).tokens.idx <= final(self).tokens.idx,
            r is Ok ==> old(self).tokens.idx < final(self).tokens.idx,
        decreases self.tokens.remaining(), 4int,
    {
        let mut node = match self.mul() {
            Ok(n) => n,
            Err(e) => {
                return Err(e);
            },
        };
        loop
            invariant
                self.wf(),
                self.tokens.tok_vec == old(self).tokens.tok_vec,
                self.tokens.input == old(self).tokens.input,
                old(self).tokens.idx < self.tokens.idx,
            decreases self.tokens.remaining(),
        {
            if self.tokens.consume("+") {
                let rhs = match self.mul() {
                    Ok(n) => n,
                    Err(e) => {
                        return Err(e);
                    },
                };
                node = Expr::Binary { op: BinOp::Add, lhs: Box::new(node), rhs: Box::new(rhs) };
            } else if self.tokens.consume("-") {
                let rhs = match self.mul() {
                    Ok(n) => n,
                    Err(e) => {
                        return Err(e);
                    },
                };
                node = Expr::Binary { op: BinOp::Sub, lhs: Box::new(node), rhs: Box::new(rhs) };
            } else {
                return Ok(node);
            }
        }
    }

    /// `mul = unary ( "*" unary | "/" unary )*`
    fn mul(&mut self) -> (r: Result<Expr, CompileError>)
        requires
            old(self).wf(),
        ensures
            final(self).wf(),
            final(self).tokens.tok_vec == old(self).tokens.tok_vec,
            final(self).tokens.input == old(self).tokens.input,
            old(self).tokens.idx <= final(self).tokens.idx,
            r is Ok ==> old(self).tokens.idx < final(self).tokens.idx,
        decreases self.tokens.remaining(), 3int,
    {
        let mut node = match self.unary() {
            Ok(n) => n,
            Err(e) => {
                return Err(e);
            },
        };
        loop
            invariant
                self.wf(),
                self.tokens.tok_vec == old(self).tokens.tok_vec,
                self.tokens.input == old(self).tokens.input,
                old(self).tokens.idx < self.tokens.idx,
            decreases self.tokens.remaining(),
        {
            if self.tokens.consume("*") {
                let rhs = match self.unary() {
                    Ok(n) => n,
                    Err(e) => {
                        return Err(e);
                    },
                };
                node = Expr::Binary { op: BinOp::Mul, lhs: Box::new(node), rhs: Box::new(rhs) };
            } else if self.tokens.consume("/") {
                let rhs = match self.unary() {
                    Ok(n) => n,
                    Err(e) => {
                        return Err(e);
                    },
                };
                node = Expr::Binary { op: BinOp::Div, lhs: Box::new(node), rhs: Box::new(rhs) };
            } else {
                return Ok(node);
            }
        }
    }

    /// ```text
    /// unary = "+" primary |
    ///         "-" primary |
    ///         "&" unary |
    ///         "*" unary |
    ///         primary
    /// ```
    fn unary(&mut self) -> (r: Result<Expr, CompileError>)
        requires
            old(self).wf(),
        ensures
            final(self).wf(),
            final(self).tokens.tok_vec == old(self).tokens.tok_vec,
            final(self).tokens.input == old(self).tokens.input,
            old(self).tokens.idx <= final(self).tokens.idx,
            r is Ok ==> old(self).tokens.idx < final(self).tokens.idx,
        decreases self.tokens.remaining(), 2int,
    {
        if self.tokens.consume("+") {
            self.primary()
        } else if self.tokens.consume("-") {
            // A negative value is written `0 - primary` for the time being.
            let rhs = match self.primary() {
                Ok(n) => n,
                Err(e) => {
                    return Err(e);
                },
            };
            Ok(
                Expr::Binary {
                    op: BinOp::Sub,
                    lhs: Box::new(Expr::Num(0)),
                    rhs: Box::new(rhs),
                },
            )
        } else if self.tokens.consume("&") {
            let pos = self.tokens.get_current_token().pos;
            let var = match self.unary() {
                Ok(n) => n,
                Err(e) => {
                    return Err(e);
                },
            };
            match var {
                Expr::Var(_) => Ok(Expr::Addr(Box::new(var))),
                _ => Err(CompileError::new(pos, "this cannot be referenced")),
            }
        } else if self.tokens.consume("*") {
            let pos = self.tokens.get_current_token().pos;
            let addr = match self.unary() {
                Ok(n) => n,
                Err(e) => {
                    return Err(e);
                },
            };
            match addr {
                Expr::Deref(_) | Expr::Var(_) => Ok(Expr::Deref(Box::new(addr))),
                _ => Err(CompileError::new(pos, "the value cannot be dereferenced")),
            }
        } else {
            self.primary()
        }
    }

    /// ```text
    /// primary = num |
    ///           ident ( "(" args ")" )? |
    ///           "(" expr ")"
    /// ```
    fn primary(&mut self) -> (r: Result<Expr, CompileError>)
        requires
            old(self).wf(),
        ensures
            final(self).wf(),
            final(self).tokens.tok_vec == old(self).tokens.tok_vec,
            final(self).tokens.input == old(self).tokens.input,
            old(self).tokens.idx <= final(self).tokens.idx,
            r is Ok ==> old(self).tokens.idx < final(self).tokens.idx,
        decreases self.tokens.remaining(), 1int,
    {
        if self.tokens.consume("(") {
            let expr = match self.expr() {
                Ok(x) => x,
                Err(e) => {
                    return Err(e);
                },
            };
            match self.tokens.expect(")") {
                Ok(()) => {},
                Err(e) => {
                    return Err(e);
                },
            }
            return Ok(expr);
        }
        match self.tokens.consume_ident() {
            Some(ident) => {
                if self.tokens.consume("(") {
                    // Calls are resolved against the functions defined so far.
                    if !contains_str(&self.defined_fn, ident.str.as_str()) {
                        let pos = self.tokens.get_current_token().pos;
                        return Err(CompileError::new(pos, "call of an undefined function"));
                    }
                    let args = match self.args() {
                        Ok(a) => a,
                        Err(e) => {
                            return Err(e);
                        },
                    };
                    Ok(Expr::Call { fn_name: ident.str, args })
                } else {
                    Ok(Expr::Var(ident.str))
                }
            },
            None => {
                match self.tokens.expect_number() {
                    Ok(val) => Ok(Expr::Num(val)),
                    Err(e) => {
                        let cur = self.tokens.get_current_token();
                        if crate::types::str_eq(cur.str.as_str(), "}") {
                            Err(CompileError::new(cur.pos, "unmatched '}'"))
                        } else {
                            Err(e)
                        }
                    },
                }
            },
        }
    }
}

} // verus!
