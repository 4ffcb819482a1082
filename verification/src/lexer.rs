//! The tokenizer and the token stream the parser consumes.
//!
//! Positions and lengths count characters. Every produced token's text is
//! exactly the slice of the input at its recorded span, keywords are cut at
//! identifier boundaries, and the stream always ends with a single
//! end-of-input token.

use vstd::prelude::*;

use crate::types::{str_eq, CompileError, Token, TokenKind, TypeKind};

verus! {

pub open spec fn is_digit_char(c: char) -> bool {
    48 <= c as u32 <= 57
}

pub open spec fn digit_of(c: char) -> int {
    c as u32 - 48
}

/// The numeric value of a run of decimal digits.
pub open spec fn digits_val(s: Seq<char>) -> int
    decreases s.len(),
{
    if s.len() == 0 {
        0
    } else {
        digits_val(s.drop_last()) * 10 + digit_of(s.last())
    }
}

pub open spec fn is_alpha_char(c: char) -> bool {
    (97 <= c as u32 <= 122) || (65 <= c as u32 <= 90)
}

pub open spec fn is_alnum_char(c: char) -> bool {
    is_digit_char(c) || is_alpha_char(c) || c as u32 == 95
}

pub open spec fn is_space_char(c: char) -> bool {
    c == ' ' || c == '\t' || c == '\n' || c == '\r'
}

/// Every character of `inp` in `[from, to)` is whitespace.
#[verifier::opaque]
pub open spec fn gap_white(inp: Seq<char>, from: int, to: int) -> bool {
    forall|k: int| from <= k < to ==> is_space_char(#[trigger] inp[k])
}

/// The tokens tile the input: they sit in order, and between the start and
/// the first token, and between any two consecutive tokens, nothing but
/// whitespace stands. With each token's text equal to the input at its
/// span, no input character outside whitespace is dropped.
#[verifier::opaque]
pub open spec fn tokens_tile(inp: Seq<char>, toks: Seq<Token>) -> bool {
    &&& (toks.len() > 0 ==> gap_white(inp, 0, toks[0].pos as int))
    &&& (forall|i: int|
        0 <= i < toks.len() - 1 ==> (#[trigger] toks[i]).pos + toks[i].len <= toks[i + 1].pos
            && gap_white(inp, toks[i].pos + toks[i].len, toks[i + 1].pos as int))
}

/// Where the scan stands after the given tokens: the end of the last one.
pub open spec fn scan_from(toks: Seq<Token>) -> int {
    if toks.len() == 0 {
        0
    } else {
        toks.last().pos + toks.last().len
    }
}

/// A token's text is the input at its span; the end-of-input token sits one
/// past the last character.
pub open spec fn token_wf(input: Seq<char>, t: Token) -> bool {
    match t.kind {
        TokenKind::TK_EOF => t.pos == input.len() && t.str@ == "<EOF>"@ && t.len == 1,
        _ => {
            &&& 1 <= t.len
            &&& t.pos + t.len <= input.len()
            &&& t.str@ == input.subrange(t.pos as int, t.pos as int + t.len as int)
            &&& t.str@.len() == t.len
        },
    }
}

/// An integer-literal token holds the value of its digits.
pub open spec fn num_ok(t: Token) -> bool {
    match t.val {
        Some(v) => v as int == digits_val(t.str@) && (forall|k: int|
            0 <= k < t.str@.len() ==> is_digit_char(#[trigger] t.str@[k])),
        None => false,
    }
}

/// Whether `s` continues with `w` at character position `pos`.
fn starts_with_at(s: &str, pos: usize, w: &str) -> (b: bool)
    requires
        pos <= s@.len(),
    ensures
        b == (pos + w@.len() <= s@.len() && s@.subrange(pos as int, pos as int + w@.len() as int)
            == w@),
{
    let n = s.unicode_len();
    let m = w.unicode_len();
    if m > n - pos {
        return false;
    }
    let mut i: usize = 0;
    while i < m
        invariant
            i <= m,
            pos + m <= n,
            n == s@.len(),
            m == w@.len(),
            forall|k: int| 0 <= k < i ==> s@[pos + k] == w@[k],
        decreases m - i,
    {
        if s.get_char(pos + i) != w.get_char(i) {
            proof {
                assert(s@.subrange(pos as int, pos as int + m as int)[i as int] == s@[pos + i]);
            }
            return false;
        }
        i += 1;
    }
    proof {
        assert(s@.subrange(pos as int, pos as int + m as int) =~= w@);
    }
    true
}

/// Whether character `idx` of `s` exists and may continue an identifier.
fn is_alnum_at(s: &str, idx: usize) -> (b: bool)
    ensures
        b == (idx < s@.len() && is_alnum_char(s@[idx as int])),
{
    let n = s.unicode_len();
    if idx >= n {
        return false;
    }
    let u = s.get_char(idx) as u32;
    (48 <= u && u <= 57) || (97 <= u && u <= 122) || (65 <= u && u <= 90) || u == 95
}

fn is_digit_at(s: &str, idx: usize) -> (b: bool)
    ensures
        b == (idx < s@.len() && is_digit_char(s@[idx as int])),
{
    let n = s.unicode_len();
    if idx >= n {
        return false;
    }
    let u = s.get_char(idx) as u32;
    48 <= u && u <= 57
}

fn is_alpha_at(s: &str, idx: usize) -> (b: bool)
    ensures
        b == (idx < s@.len() && is_alpha_char(s@[idx as int])),
{
    let n = s.unicode_len();
    if idx >= n {
        return false;
    }
    let u = s.get_char(idx) as u32;
    (97 <= u && u <= 122) || (65 <= u && u <= 90)
}

/// Appends one scanned token, carrying the scan's bookkeeping: tokens stay
/// well formed and in order, and the gap crossed since the last token holds
/// nothing but whitespace.
#[verifier::rlimit(100)]
#[verifier::spinoff_prover]
fn push_scanned(tok_vec: &mut Vec<Token>, t: Token, Ghost(inp): Ghost<Seq<char>>, end: usize)
    requires
        token_wf(inp, t),
        t.kind != TokenKind::TK_EOF,
        t.kind == TokenKind::TK_NUM ==> num_ok(t),
        end == t.pos + t.len,
        scan_from(old(tok_vec)@) <= t.pos,
        gap_white(inp, scan_from(old(tok_vec)@), t.pos as int),
        tokens_tile(inp, old(tok_vec)@),
        forall|i: int|
            0 <= i < old(tok_vec)@.len() ==> token_wf(inp, #[trigger] old(tok_vec)@[i])
                && old(tok_vec)@[i].kind != TokenKind::TK_EOF && (old(tok_vec)@[i].kind
                == TokenKind::TK_NUM ==> num_ok(old(tok_vec)@[i])),
    ensures
        final(tok_vec)@ == old(tok_vec)@.push(t),
        tokens_tile(inp, final(tok_vec)@),
        scan_from(final(tok_vec)@) == end,
        gap_white(inp, end as int, end as int),
        forall|i: int|
            0 <= i < final(tok_vec)@.len() ==> token_wf(inp, #[trigger] final(tok_vec)@[i])
                && final(tok_vec)@[i].kind != TokenKind::TK_EOF && (final(tok_vec)@[i].kind
                == TokenKind::TK_NUM ==> num_ok(final(tok_vec)@[i])),
{
    let ghost pre = tok_vec@;
    tok_vec.push(t);
    proof {
        reveal(tokens_tile);
        reveal(gap_white);
        assert forall|i: int| 0 <= i < tok_vec@.len() - 1 implies (#[trigger] tok_vec@[i]).pos
            + tok_vec@[i].len <= tok_vec@[i + 1].pos && gap_white(
            inp,
            tok_vec@[i].pos + tok_vec@[i].len,
            tok_vec@[i + 1].pos as int,
        ) by {
            if i < pre.len() - 1 {
                assert(tok_vec@[i] == pre[i]);
                assert(tok_vec@[i + 1] == pre[i + 1]);
            } else {
                assert(tok_vec@[i] == pre.last());
                assert(tok_vec@[i + 1] == t);
            }
        }
    }
}

/// The tokenizer: the source text and the current scan position.
pub struct Tokenizer {
    pub input: String,
    pub pos: usize,
}

impl Tokenizer {
    pub fn new(input: &str) -> (r: Tokenizer)
        ensures
            r.input@ == input@,
            r.pos == 0,
    {
        Tokenizer { input: input.to_owned(), pos: 0 }
    }

    /// Cuts the source into tokens: whitespace is skipped; `return`, `if`,
    /// `else`, `while`, `for` and `int` are keywords when not followed by an
    /// identifier character; two-character operators win over one-character
    /// ones; digit runs become integer literals carrying their value;
    /// identifier runs become identifiers; anything else is an error at its
    /// position. A single end-of-input token closes the stream.
    #[verifier::rlimit(100)]
    #[verifier::spinoff_prover]
    pub fn tokenize(&mut self) -> (r: Result<Vec<Token>, CompileError>)
        requires
            old(self).pos == 0,
        ensures
            final(self).input == old(self).input,
            match r {
                Ok(toks) => {
                    &&& toks@.len() >= 1
                    &&& toks@.last().kind == TokenKind::TK_EOF
                    &&& (forall|i: int|
                        0 <= i < toks@.len() - 1 ==> (#[trigger] toks@[i]).kind
                            != TokenKind::TK_EOF)
                    &&& (forall|i: int|
                        0 <= i < toks@.len() ==> token_wf(old(self).input@, #[trigger] toks@[i]))
                    &&& (forall|i: int|
                        0 <= i < toks@.len() && (#[trigger] toks@[i]).kind == TokenKind::TK_NUM
                            ==> num_ok(toks@[i]))
                    &&& tokens_tile(old(self).input@, toks@)
                },
                Err(e) => e.pos <= old(self).input@.len(),
            },
    {
        let ghost inp = self.input@;
        let mut tok_vec: Vec<Token> = Vec::new();
        let n = self.input.as_str().unicode_len();
        proof {
            reveal(tokens_tile);
            reveal(gap_white);
            assert(tokens_tile(inp, tok_vec@));
            assert(gap_white(inp, scan_from(tok_vec@), 0));
        }
        while self.pos < n
            invariant
                self.input == old(self).input,
                self.input@ == inp,
                n == inp.len(),
                self.pos <= n,
                forall|i: int|
                    0 <= i < tok_vec@.len() ==> token_wf(inp, #[trigger] tok_vec@[i])
                        && tok_vec@[i].kind != TokenKind::TK_EOF && (tok_vec@[i].kind
                        == TokenKind::TK_NUM ==> num_ok(tok_vec@[i])),
                tokens_tile(inp, tok_vec@),
                0 <= scan_from(tok_vec@) <= self.pos,
                gap_white(inp, scan_from(tok_vec@), self.pos as int),
            decreases n - self.pos,
        {
            let pos = self.pos;
            proof {
                reveal_strlit("return");
                reveal_strlit("if");
                reveal_strlit("else");
                reveal_strlit("while");
                reveal_strlit("for");
                reveal_strlit("int");
            }
            let c = self.input.as_str().get_char(pos);
            let space = match c {
                ' ' | '\t' | '\n' | '\r' => true,
                _ => false,
            };
            let l_return = "return".unicode_len();
            let l_if = "if".unicode_len();
            let l_else = "else".unicode_len();
            let l_while = "while".unicode_len();
            let l_for = "for".unicode_len();
            let l_int = "int".unicode_len();
            if space {
                self.pos = pos + 1;
                proof {
                    reveal(gap_white);
                    assert(gap_white(inp, scan_from(tok_vec@), self.pos as int));
                }
            } else if starts_with_at(self.input.as_str(), pos, "return") && !is_alnum_at(
                self.input.as_str(),
                pos + l_return,
            ) {
                let text = self.input.as_str().substring_char(pos, pos + l_return).to_owned();
                let t = Token::new(TokenKind::TK_RETURN, text, l_return, pos);
                push_scanned(&mut tok_vec, t, Ghost(inp), pos + l_return);
                self.pos = pos + l_return;
            } else if starts_with_at(self.input.as_str(), pos, "if") && !is_alnum_at(
                self.input.as_str(),
                pos + l_if,
            ) {
                let text = self.input.as_str().substring_char(pos, pos + l_if).to_owned();
                let t = Token::new(TokenKind::TK_IF, text, l_if, pos);
                push_scanned(&mut tok_vec, t, Ghost(inp), pos + l_if);
                self.pos = pos + l_if;
            } else if starts_with_at(self.input.as_str(), pos, "else") && !is_alnum_at(
                self.input.as_str(),
                pos + l_else,
            ) {
                let text = self.input.as_str().substring_char(pos, pos + l_else).to_owned();
                let t = Token::new(TokenKind::TK_ELSE, text, l_else, pos);
                push_scanned(&mut tok_vec, t, Ghost(inp), pos + l_else);
                self.pos = pos + l_else;
            } else if starts_with_at(self.input.as_str(), pos, "while") && !is_alnum_at(
                self.input.as_str(),
                pos + l_while,
            ) {
                let text = self.input.as_str().substring_char(pos, pos + l_while).to_owned();
                let t = Token::new(TokenKind::TK_WHILE, text, l_while, pos);
                push_scanned(&mut tok_vec, t, Ghost(inp), pos + l_while);
                self.pos = pos + l_while;
            } else if starts_with_at(self.input.as_str(), pos, "for") && !is_alnum_at(
                self.input.as_str(),
                pos + l_for,
            ) {
                let text = self.input.as_str().substring_char(pos, pos + l_for).to_owned();
                let t = Token::new(TokenKind::TK_FOR, text, l_for, pos);
                push_scanned(&mut tok_vec, t, Ghost(inp), pos + l_for);
                self.pos = pos + l_for;
            } else if starts_with_at(self.input.as_str(), pos, "int") && !is_alnum_at(
                self.input.as_str(),
                pos + l_int,
            ) {
                let text = self.input.as_str().substring_char(pos, pos + l_int).to_owned();
                let t = Token::new(TokenKind::TK_TYPE(TypeKind::Int), text, l_int, pos);
                push_scanned(&mut tok_vec, t, Ghost(inp), pos + l_int);
                self.pos = pos + l_int;
            } else if self.two_char_op(pos) {
                let text = self.input.as_str().substring_char(pos, pos + 2).to_owned();
                let t = Token::new(TokenKind::TK_RESERVED, text, 2, pos);
                push_scanned(&mut tok_vec, t, Ghost(inp), pos + 2);
                self.pos = pos + 2;
            } else if self.one_char_op(pos) {
                let text = self.input.as_str().substring_char(pos, pos + 1).to_owned();
                let t = Token::new(TokenKind::TK_RESERVED, text, 1, pos);
                push_scanned(&mut tok_vec, t, Ghost(inp), pos + 1);
                self.pos = pos + 1;
            } else if is_digit_at(self.input.as_str(), pos) {
                let mut end = pos + 1;
                while end < n && is_digit_at(self.input.as_str(), end)
                    invariant
                        self.input == old(self).input,
                        self.input@ == inp,
                        n == inp.len(),
                        pos < end <= n,
                        forall|k: int| pos <= k < end ==> is_digit_char(#[trigger] inp[k]),
                    decreases n - end,
                {
                    end = end + 1;
                }
                let mut acc: i64 = 0;
                let mut k = pos;
                while k < end
                    invariant
                        self.input == old(self).input,
                        self.input@ == inp,
                        n == inp.len(),
                        pos <= k <= end <= n,
                        forall|j: int| pos <= j < end ==> is_digit_char(#[trigger] inp[j]),
                        0 <= acc <= i32::MAX,
                        acc as int == digits_val(inp.subrange(pos as int, k as int)),
                    decreases end - k,
                {
                    let u = self.input.as_str().get_char(k) as u32;
                    let d = (u - 48) as i64;
                    acc = acc * 10 + d;
                    proof {
                        assert(inp.subrange(pos as int, k as int + 1).drop_last() =~= inp.subrange(
                            pos as int,
                            k as int,
                        ));
                        assert(inp.subrange(pos as int, k as int + 1).last() == inp[k as int]);
                    }
                    if acc > (i32::MAX as i64) {
                        return Err(CompileError::new(pos, "integer literal too large"));
                    }
                    k = k + 1;
                }
                let text = self.input.as_str().substring_char(pos, end).to_owned();
                let mut t = Token::new(TokenKind::TK_NUM, text, end - pos, pos);
                t.val = Some(acc as i32);
                proof {
                    assert(t.str@ =~= inp.subrange(pos as int, end as int));
                }
                push_scanned(&mut tok_vec, t, Ghost(inp), end);
                self.pos = end;
            } else if is_alpha_at(self.input.as_str(), pos) {
                let mut end = pos + 1;
                while end < n && is_alnum_at(self.input.as_str(), end)
                    invariant
                        self.input == old(self).input,
                        self.input@ == inp,
                        n == inp.len(),
                        pos < end <= n,
                    decreases n - end,
                {
                    end = end + 1;
                }
                let text = self.input.as_str().substring_char(pos, end).to_owned();
                let t = Token::new(TokenKind::TK_IDENT, text, end - pos, pos);
                push_scanned(&mut tok_vec, t, Ghost(inp), end);
                self.pos = end;
            } else {
                return Err(CompileError::new(pos, "cannot tokenize"));
            }
        }
        let eof = Token::new(TokenKind::TK_EOF, String::from_str("<EOF>"), 1, self.pos);
        let ghost pre = tok_vec@;
        tok_vec.push(eof);
        proof {
            assert(tokens_tile(inp, tok_vec@)) by {
                reveal(tokens_tile);
                reveal(gap_white);
                assert forall|i: int| 0 <= i < tok_vec@.len() - 1 implies (
                #[trigger] tok_vec@[i]).pos + tok_vec@[i].len <= tok_vec@[i + 1].pos && gap_white(
                    inp,
                    tok_vec@[i].pos + tok_vec@[i].len,
                    tok_vec@[i + 1].pos as int,
                ) by {
                    if i < pre.len() - 1 {
                        assert(tok_vec@[i] == pre[i]);
                        assert(tok_vec@[i + 1] == pre[i + 1]);
                    } else if i == pre.len() - 1 {
                        assert(tok_vec@[i] == pre.last());
                        assert(tok_vec@[i + 1] == eof);
                    }
                }
            }
        }
        Ok(tok_vec)
    }

    /// Whether a two-character operator starts at `pos`.
    fn two_char_op(&self, pos: usize) -> (b: bool)
        requires
            pos <= self.input@.len(),
        ensures
            b ==> pos + 2 <= self.input@.len(),
    {
        proof {
            reveal_strlit("<=");
            reveal_strlit(">=");
            reveal_strlit("==");
            reveal_strlit("!=");
        }
        starts_with_at(self.input.as_str(), pos, "<=") || starts_with_at(
            self.input.as_str(),
            pos,
            ">=",
        ) || starts_with_at(self.input.as_str(), pos, "==") || starts_with_at(
            self.input.as_str(),
            pos,
            "!=",
        )
    }

    /// Whether a one-character operator or delimiter sits at `pos`.
    fn one_char_op(&self, pos: usize) -> (b: bool)
        requires
            pos <= self.input@.len(),
        ensures
            b ==> pos + 1 <= self.input@.len(),
    {
        if pos >= self.input.as_str().unicode_len() {
            return false;
        }
        let c = self.input.as_str().get_char(pos);
        match c {
            '+' | '-' | '*' | '/' | '(' | ')' | ';' | '<' | '>' | '=' | '{' | '}' | ','
                | '&' => true,
            _ => false,
        }
    }
}

/// The parser's view of the token list: the tokens, a cursor, and the source
/// text for diagnostics.
#[derive(Debug)]
pub struct TokenStream {
    pub tok_vec: Vec<Token>,
    pub idx: usize,
    pub input: String,
}

impl TokenStream {
    /// A well-formed stream: the cursor is in bounds, exactly the last token
    /// is the end-of-input token.
    pub open spec fn wf(&self) -> bool {
        &&& self.tok_vec@.len() >= 1
        &&& self.idx < self.tok_vec@.len()
        &&& self.tok_vec@.last().kind == TokenKind::TK_EOF
        &&& forall|i: int|
            0 <= i < self.tok_vec@.len() - 1 ==> (#[trigger] self.tok_vec@[i]).kind
                != TokenKind::TK_EOF
    }

    /// The tokens remaining before the cursor reaches the end.
    pub open spec fn remaining(&self) -> int {
        self.tok_vec@.len() - self.idx
    }

    pub fn new(tok_vec: Vec<Token>, input: &str) -> (r: TokenStream)
        ensures
            r.tok_vec == tok_vec,
            r.idx == 0,
            r.input@ == input@,
    {
        TokenStream { tok_vec, idx: 0, input: input.to_owned() }
    }

    /// Consumes the reserved token `op` if it is next; reports whether it
    /// did. It consumes exactly when the current token is the reserved
    /// token `op`.
    pub fn consume(&mut self, op: &str) -> (r: bool)
        requires
            old(self).wf(),
        ensures
            final(self).wf(),
            final(self).tok_vec == old(self).tok_vec,
            final(self).input == old(self).input,
            r == (old(self).tok_vec@[old(self).idx as int].kind == TokenKind::TK_RESERVED && old(
                self,
            ).tok_vec@[old(self).idx as int].str@ == op@),
            r ==> final(self).idx == old(self).idx + 1,
            !r ==> *final(self) == *old(self),
    {
        let tok = &self.tok_vec[self.idx];
        if tok.kind == TokenKind::TK_RESERVED && str_eq(tok.str.as_str(), op) {
            let total = self.tok_vec.len();
            proof {
                assert(self.tok_vec@[self.idx as int].kind != TokenKind::TK_EOF);
                assert(self.idx != self.tok_vec@.len() - 1);
            }
            self.idx = self.idx + 1;
            true
        } else {
            false
        }
    }

    /// Consumes the next token exactly when its kind is `kind`.
    pub fn consume_keyword(&mut self, kind: TokenKind) -> (r: bool)
        requires
            old(self).wf(),
            kind != TokenKind::TK_EOF,
        ensures
            final(self).wf(),
            final(self).tok_vec == old(self).tok_vec,
            final(self).input == old(self).input,
            r == (old(self).tok_vec@[old(self).idx as int].kind == kind),
            r ==> final(self).idx == old(self).idx + 1,
            !r ==> *final(self) == *old(self),
    {
        let tok = &self.tok_vec[self.idx];
        if tok.kind == kind {
            let total = self.tok_vec.len();
            proof {
                assert(self.idx != self.tok_vec@.len() - 1);
            }
            self.idx = self.idx + 1;
            true
        } else {
            false
        }
    }

    /// Consumes the next token exactly when it names the type `kind`.
    pub fn consume_type(&mut self, kind: TypeKind) -> (r: bool)
        requires
            old(self).wf(),
        ensures
            final(self).wf(),
            final(self).tok_vec == old(self).tok_vec,
            final(self).input == old(self).input,
            r == (old(self).tok_vec@[old(self).idx as int].kind == TokenKind::TK_TYPE(kind)),
            r ==> final(self).idx == old(self).idx + 1,
            !r ==> *final(self) == *old(self),
    {
        self.consume_keyword(TokenKind::TK_TYPE(kind))
    }

    /// Consumes and returns the next token exactly when it is an
    /// identifier.
    pub fn consume_ident(&mut self) -> (r: Option<Token>)
        requires
            old(self).wf(),
        ensures
            final(self).wf(),
            final(self).tok_vec == old(self).tok_vec,
            final(self).input == old(self).input,
            r is Some == (old(self).tok_vec@[old(self).idx as int].kind == TokenKind::TK_IDENT),
            match r {
                Some(t) => final(self).idx == old(self).idx + 1 && t == old(self).tok_vec@[old(
                    self,
                ).idx as int] && t.kind == TokenKind::TK_IDENT,
                None => *final(self) == *old(self),
            },
    {
        let tok = self.get_current_token();
        if tok.kind == TokenKind::TK_IDENT {
            let total = self.tok_vec.len();
            proof {
                assert(self.idx != self.tok_vec@.len() - 1);
            }
            self.idx = self.idx + 1;
            Some(tok)
        } else {
            None
        }
    }

    /// Demands the reserved token `op` next; an error names what was found.
    /// It succeeds, consuming exactly that token, exactly when the current
    /// token is the reserved token `op`.
    pub fn expect(&mut self, op: &str) -> (r: Result<(), CompileError>)
        requires
            old(self).wf(),
        ensures
            final(self).wf(),
            final(self).tok_vec == old(self).tok_vec,
            final(self).input == old(self).input,
            r is Ok == (old(self).tok_vec@[old(self).idx as int].kind == TokenKind::TK_RESERVED
                && old(self).tok_vec@[old(self).idx as int].str@ == op@),
            match r {
                Ok(()) => final(self).idx == old(self).idx + 1,
                Err(e) => *final(self) == *old(self) && e.pos == old(self).tok_vec@[old(
                    self,
                ).idx as int].pos,
            },
    {
        let tok = &self.tok_vec[self.idx];
        if tok.kind == TokenKind::TK_RESERVED && str_eq(tok.str.as_str(), op) {
            let total = self.tok_vec.len();
            proof {
                assert(self.tok_vec@[self.idx as int].kind != TokenKind::TK_EOF);
                assert(self.idx != self.tok_vec@.len() - 1);
            }
            self.idx = self.idx + 1;
            Ok(())
        } else {
            let pos = tok.pos;
            if str_eq(op, ";") {
                Err(CompileError::new(pos, "';' is required"))
            } else {
                let mut msg = String::from_str("expected '");
                msg.append(op);
                msg.append("' but got '");
                msg.append(self.tok_vec[self.idx].str.as_str());
                msg.append("'");
                Err(CompileError { pos, msg })
            }
        }
    }

    /// Demands an integer literal next and returns its value. It succeeds,
    /// consuming exactly that token, exactly when the current token is an
    /// integer literal carrying a value.
    pub fn expect_number(&mut self) -> (r: Result<i32, CompileError>)
        requires
            old(self).wf(),
        ensures
            final(self).wf(),
            final(self).tok_vec == old(self).tok_vec,
            final(self).input == old(self).input,
            r is Ok == (old(self).tok_vec@[old(self).idx as int].kind == TokenKind::TK_NUM && old(
                self,
            ).tok_vec@[old(self).idx as int].val is Some),
            match r {
                Ok(v) => final(self).idx == old(self).idx + 1 && old(self).tok_vec@[old(
                    self,
                ).idx as int].kind == TokenKind::TK_NUM && old(self).tok_vec@[old(
                    self,
                ).idx as int].val == Some(v),
                Err(_) => *final(self) == *old(self),
            },
    {
        let tok = &self.tok_vec[self.idx];
        if tok.kind == TokenKind::TK_NUM {
            match tok.val {
                Some(val) => {
                    let total = self.tok_vec.len();
                    proof {
                        assert(self.tok_vec@[self.idx as int].kind != TokenKind::TK_EOF);
                        assert(self.idx != self.tok_vec@.len() - 1);
                    }
                    self.idx = self.idx + 1;
                    Ok(val)
                },
                None => Err(CompileError::new(tok.pos, "numeric token holds no value")),
            }
        } else {
            Err(CompileError::new(tok.pos, "a number is required here"))
        }
    }

    /// The token at the cursor.
    pub fn get_current_token(&self) -> (r: Token)
        requires
            self.wf(),
        ensures
            r == self.tok_vec@[self.idx as int],
    {
        self.tok_vec[self.idx].duplicate()
    }

    /// Whether the cursor has reached the end-of-input token.
    pub fn is_eof(&self) -> (r: bool)
        requires
            self.wf(),
        ensures
            r == (self.tok_vec@[self.idx as int].kind == TokenKind::TK_EOF),
    {
        self.tok_vec[self.idx].kind == TokenKind::TK_EOF
    }
}

} // verus!
