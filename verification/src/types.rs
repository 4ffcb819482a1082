//! The token and AST shapes shared by the front-end, and the compiler's
//! error value.

use vstd::prelude::*;

verus! {

/// A diagnostic: the source position at fault and a message. The driver
/// surfaces it to the process exit; nothing is recovered locally.
#[derive(Debug, PartialEq, Clone)]
pub struct CompileError {
    pub pos: usize,
    pub msg: String,
}

impl CompileError {
    pub fn new(pos: usize, msg: &str) -> (r: CompileError)
        ensures
            r.pos == pos,
            r.msg@ == msg@,
    {
        CompileError { pos, msg: msg.to_owned() }
    }
}

/// Character-by-character string comparison.
pub fn str_eq(a: &str, b: &str) -> (r: bool)
    ensures
        r == (a@ == b@),
{
    let la = a.unicode_len();
    let lb = b.unicode_len();
    if la != lb {
        proof {
            assert(a@ != b@);
        }
        return false;
    }
    let mut i: usize = 0;
    while i < la
        invariant
            i <= la,
            la == a@.len(),
            la == b@.len(),
            forall|k: int| 0 <= k < i ==> a@[k] == b@[k],
        decreases la - i,
    {
        if a.get_char(i) != b.get_char(i) {
            proof {
                assert(a@[i as int] != b@[i as int]);
            }
            return false;
        }
        i += 1;
    }
    proof {
        assert(a@ =~= b@);
    }
    true
}

/// Whether some entry of `v` equals `s`.
pub fn contains_str(v: &Vec<String>, s: &str) -> (r: bool)
    ensures
        r == exists|i: int| 0 <= i < v@.len() && (#[trigger] v@[i])@ == s@,
{
    let mut i: usize = 0;
    while i < v.len()
        invariant
            i <= v.len(),
            forall|k: int| 0 <= k < i ==> (#[trigger] v@[k])@ != s@,
        decreases v.len() - i,
    {
        if str_eq(v[i].as_str(), s) {
            proof {
                assert(v@[i as int]@ == s@);
            }
            return true;
        }
        i += 1;
    }
    false
}

#[derive(Debug, Clone, Copy, PartialEq, Eq, Structural)]
pub enum TypeKind {
    Int,
}

/// The classification of a token.
#[allow(non_camel_case_types)]
#[derive(Debug, Clone, Copy, PartialEq, Eq, Structural)]
pub enum TokenKind {
    /// `return`
    TK_RETURN,
    /// `while`
    TK_WHILE,
    /// `for`
    TK_FOR,
    /// `if`
    TK_IF,
    /// `else`
    TK_ELSE,
    /// An operator or delimiter
    TK_RESERVED,
    /// An identifier
    TK_IDENT,
    /// An integer literal
    TK_NUM,
    /// A type name
    TK_TYPE(TypeKind),
    /// End of the input
    TK_EOF,
}

/// One token: its kind, its text, the text's character length, and its
/// character position in the source. `val` holds the parsed value of an
/// integer literal.
#[derive(Debug, PartialEq, Clone)]
pub struct Token {
    pub kind: TokenKind,
    pub val: Option<i32>,
    pub str: String,
    pub len: usize,
    pub pos: usize,
}

impl Token {
    pub fn new(kind: TokenKind, str: String, len: usize, pos: usize) -> (r: Token)
        ensures
            r == (Token { kind, val: None, str, len, pos }),
    {
        Token { kind, str, val: None, len, pos }
    }

    /// A field-for-field copy.
    pub fn duplicate(&self) -> (r: Token)
        ensures
            r == *self,
    {
        Token {
            kind: self.kind,
            val: self.val,
            str: self.str.clone(),
            len: self.len,
            pos: self.pos,
        }
    }
}

/// The binary operators of the source language.
#[derive(Debug, Clone, Copy, PartialEq, Eq, Structural)]
pub enum BinOp {
    Add,
    Sub,
    Mul,
    Div,
    Le,
    Lt,
    Eq,
    Ne,
}

/// A source-level type: a 64-bit integer or a pointer to one.
#[derive(Debug, PartialEq)]
pub enum Type {
    Int,
    Ptr(Box<Type>),
}

/// An expression of the source language.
#[derive(Debug, PartialEq)]
pub enum Expr {
    Num(i32),
    Var(String),
    Binary { op: BinOp, lhs: Box<Expr>, rhs: Box<Expr> },
    Assign { lhs: Box<Expr>, rhs: Box<Expr> },
    Call { fn_name: String, args: Vec<Expr> },
    Addr(Box<Expr>),
    Deref(Box<Expr>),
}

/// A statement of the source language.
#[derive(Debug, PartialEq)]
pub enum Stmt {
    ExprStmt(Expr),
    Return(Expr),
    If { cond: Expr, then: Box<Stmt>, els: Option<Box<Stmt>> },
    While { cond: Expr, body: Box<Stmt> },
    For {
        init: Option<Box<Expr>>,
        cond: Option<Box<Expr>>,
        update: Option<Box<Expr>>,
        body: Box<Stmt>,
    },
    Block(Vec<Stmt>),
    Fn { fn_name: String, params: Vec<Expr>, body: Vec<Stmt> },
    VarDecl { name: String, ty: Type },
}

} // verus!
