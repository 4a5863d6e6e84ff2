use vstd::prelude::*;

use crate::chars::{
    digit_byte, is_alphabetic, is_digit, is_name_byte, is_name_start, is_space, name_byte,
    name_start_byte, push_char, space_byte,
};
use crate::grammar::{
    advance, byte_at, comment_at, decimal_value, digits_end, error_at, fraction_at, keyword,
    line_len, name_at, name_end, name_text, number_at, scan, string_at, string_end, token_at,
};
use crate::token::{ErrorKind, Feature, FloatLit, LexError, Token, TokenView};

verus! {

/// What a lexer is, mathematically: the input, the offset of the next unread
/// byte, and the token that a peek has scanned and nothing has consumed yet.
pub struct LexState {
    pub source: Seq<u8>,
    pub cursor: int,
    pub pending: Option<TokenView>,
}

impl LexState {
    pub open spec fn valid(self) -> bool {
        &&& 0 <= self.cursor <= self.source.len()
        &&& self.source.len() <= usize::MAX
    }
}

/// The outcome of a call, with tokens replaced by their views.
pub open spec fn outcome(r: Result<Token, LexError>) -> Result<TokenView, LexError> {
    match r {
        Ok(t) => Ok(t@),
        Err(e) => Err(e),
    }
}

/// What consuming a token does: hand out the pending token if there is one,
/// else scan the next token. A failed scan leaves the cursor at the start of
/// the offending token.
pub open spec fn next_step(st: LexState) -> (LexState, Result<TokenView, LexError>) {
    match st.pending {
        Some(t) => (LexState { pending: None, ..st }, Ok(t)),
        None => match scan(st.source, st.cursor) {
            Ok((t, q)) => (LexState { cursor: q, ..st }, Ok(t)),
            Err(e) => (LexState { cursor: e.pos as int, ..st }, Err(e)),
        },
    }
}

/// What peeking does: show the pending token, scanning and keeping it first
/// if there is none.
pub open spec fn peek_step(st: LexState) -> (LexState, Result<TokenView, LexError>) {
    match st.pending {
        Some(t) => (st, Ok(t)),
        None => match scan(st.source, st.cursor) {
            Ok((t, q)) => (LexState { cursor: q, pending: Some(t), ..st }, Ok(t)),
            Err(e) => (LexState { cursor: e.pos as int, ..st }, Err(e)),
        },
    }
}

/// Whether a scanning routine's result and final offset agree with the
/// grammar's `expect`. On an error the offset is not pinned down here.
pub open spec fn yields(r: Result<Token, LexError>, pos: int, expect: Result<(TokenView, int), LexError>) -> bool {
    match expect {
        Ok((v, q)) => r is Ok && r->Ok_0@ == v && pos == q,
        Err(e) => r == Err::<Token, LexError>(e),
    }
}

/// Whether the bytes of `w` and `k` are the same.
fn same_bytes(w: &Vec<u8>, k: &[u8]) -> (r: bool)
    ensures
        r == (w@ == k@),
{
    if w.len() != k.len() {
        return false;
    }
    let mut i: usize = 0;
    while i < w.len()
        invariant
            w@.len() == k@.len(),
            i <= w.len(),
            forall|j: int| 0 <= j < i ==> w@[j] == k@[j],
        decreases w.len() - i,
    {
        if w[i] != k[i] {
            return false;
        }
        i += 1;
    }
    proof {
        assert(w@ =~= k@);
    }
    true
}

/// The keyword spelled by `w`, if it is one.
fn keyword_token(w: &Vec<u8>) -> (r: Option<Token>)
    ensures
        r == keyword(w@),
{
    if same_bytes(w, &['a' as u8, 'n' as u8, 'd' as u8]) {
        Some(Token::And)
    } else if same_bytes(w, &['b' as u8, 'r' as u8, 'e' as u8, 'a' as u8, 'k' as u8]) {
        Some(Token::Break)
    } else if same_bytes(w, &['d' as u8, 'o' as u8]) {
        Some(Token::Do)
    } else if same_bytes(w, &['e' as u8, 'l' as u8, 's' as u8, 'e' as u8]) {
        Some(Token::Else)
    } else if same_bytes(w, &['e' as u8, 'l' as u8, 's' as u8, 'e' as u8, 'i' as u8, 'f' as u8]) {
        Some(Token::Elseif)
    } else if same_bytes(w, &['e' as u8, 'n' as u8, 'd' as u8]) {
        Some(Token::End)
    } else if same_bytes(w, &['f' as u8, 'a' as u8, 'l' as u8, 's' as u8, 'e' as u8]) {
        Some(Token::False)
    } else if same_bytes(w, &['f' as u8, 'o' as u8, 'r' as u8]) {
        Some(Token::For)
    } else if same_bytes(w, &['f' as u8, 'u' as u8, 'n' as u8, 'c' as u8, 't' as u8, 'i' as u8, 'o' as u8, 'n' as u8]) {
        Some(Token::Function)
    } else if same_bytes(w, &['g' as u8, 'o' as u8, 't' as u8, 'o' as u8]) {
        Some(Token::Goto)
    } else if same_bytes(w, &['i' as u8, 'f' as u8]) {
        Some(Token::If)
    } else if same_bytes(w, &['i' as u8, 'n' as u8]) {
        Some(Token::In)
    } else if same_bytes(w, &['l' as u8, 'o' as u8, 'c' as u8, 'a' as u8, 'l' as u8]) {
        Some(Token::Local)
    } else if same_bytes(w, &['n' as u8, 'i' as u8, 'l' as u8]) {
        Some(Token::Nil)
    } else if same_bytes(w, &['n' as u8, 'o' as u8, 't' as u8]) {
        Some(Token::Not)
    } else if same_bytes(w, &['o' as u8, 'r' as u8]) {
        Some(Token::Or)
    } else if same_bytes(w, &['r' as u8, 'e' as u8, 'p' as u8, 'e' as u8, 'a' as u8, 't' as u8]) {
        Some(Token::Repeat)
    } else if same_bytes(w, &['r' as u8, 'e' as u8, 't' as u8, 'u' as u8, 'r' as u8, 'n' as u8]) {
        Some(Token::Return)
    } else if same_bytes(w, &['t' as u8, 'h' as u8, 'e' as u8, 'n' as u8]) {
        Some(Token::Then)
    } else if same_bytes(w, &['t' as u8, 'r' as u8, 'u' as u8, 'e' as u8]) {
        Some(Token::True)
    } else if same_bytes(w, &['u' as u8, 'n' as u8, 't' as u8, 'i' as u8, 'l' as u8]) {
        Some(Token::Until)
    } else if same_bytes(w, &['w' as u8, 'h' as u8, 'i' as u8, 'l' as u8, 'e' as u8]) {
        Some(Token::While)
    } else {
        None
    }
}

/// The text of a name: each byte read as the character of the same number.
fn name_string(w: &Vec<u8>) -> (r: String)
    ensures
        r@ == name_text(w@),
{
    let mut s = String::new();
    let mut i: usize = 0;
    while i < w.len()
        invariant
            i <= w.len(),
            s@ == name_text(w@.subrange(0, i as int)),
        decreases w.len() - i,
    {
        let c = w[i] as char;
        push_char(&mut s, c);
        proof {
            assert(w@.subrange(0, i + 1) =~= w@.subrange(0, i as int).push(w@[i as int]));
            assert(name_text(w@.subrange(0, i + 1)) =~= name_text(w@.subrange(0, i as int)).push(c));
        }
        i += 1;
    }
    proof {
        assert(w@.subrange(0, w@.len() as int) =~= w@);
    }
    s
}

/// A lexer over a byte input, with room for one token of lookahead.
pub struct Lex {
    input: Vec<u8>,
    pos: usize,
    ahead: Option<Token>,
}

impl View for Lex {
    type V = LexState;

    closed spec fn view(&self) -> LexState {
        LexState {
            source: self.input@,
            cursor: self.pos as int,
            pending: match self.ahead {
                Some(t) => Some(t@),
                None => None,
            },
        }
    }
}

impl Lex {
    pub open spec fn wf(&self) -> bool {
        self@.valid()
    }

    /// A lexer at the start of `input`, with no token pending.
    pub fn new(input: Vec<u8>) -> (l: Lex)
        ensures
            l.wf(),
            l@ == (LexState { source: input@, cursor: 0, pending: None }),
    {
        proof {
            assert(input@.len() == input.len());
        }
        Lex { input, pos: 0, ahead: None }
    }

    /// The offset of the next byte that has not been read.
    pub fn position(&self) -> (r: usize)
        ensures
            r == self@.cursor,
    {
        self.pos
    }

    /// Consumes the next token: the one a peek left pending, or else a fresh one.
    pub fn next(&mut self) -> (r: Result<Token, LexError>)
        requires
            old(self).wf(),
        ensures
            final(self).wf(),
            (final(self)@, outcome(r)) == next_step(old(self)@),
    {
        match self.ahead.take() {
            Some(t) => Ok(t),
            None => self.do_next(),
        }
    }

    /// Shows the next token without consuming it. Once a peek succeeds, the
    /// token stays pending until `next` takes it.
    pub fn peek(&mut self) -> (r: Result<&Token, LexError>)
        requires
            old(self).wf(),
        ensures
            final(self).wf(),
            final(self)@ == peek_step(old(self)@).0,
            match peek_step(old(self)@).1 {
                Ok(v) => r is Ok && (*r->Ok_0)@ == v,
                Err(e) => r == Err::<&Token, LexError>(e),
            },
    {
        if self.ahead.is_none() {
            match self.do_next() {
                Ok(t) => {
                    self.ahead = Some(t);
                },
                Err(e) => {
                    return Err(e);
                },
            }
        }
        Ok(self.ahead.as_ref().unwrap())
    }

    /// Skips blanks and line comments, then scans one token.
    fn do_next(&mut self) -> (r: Result<Token, LexError>)
        requires
            old(self).wf(),
        ensures
            final(self).input@ == old(self).input@,
            final(self).ahead == old(self).ahead,
            final(self).pos <= final(self).input.len(),
            match scan(old(self).input@, old(self).pos as int) {
                Ok((v, q)) => r is Ok && r->Ok_0@ == v && final(self).pos == q,
                Err(e) => r == Err::<Token, LexError>(e) && final(self).pos == e.pos,
            },
    {
        loop
            invariant
                self.pos <= self.input.len(),
                self.input@ == old(self).input@,
                self.ahead == old(self).ahead,
                scan(self.input@, self.pos as int) == scan(old(self).input@, old(self).pos as int),
            decreases self.input.len() - self.pos,
        {
            let start = self.pos;
            let byt = self.next_byte();
            if space_byte(byt) {
                // a blank: nothing to produce
            } else if byt == '-' as u8 && self.peek_byte() == '-' as u8 {
                self.next_byte();
                if self.peek_byte() == '[' as u8 {
                    self.pos = start;
                    return Err(LexError { kind: ErrorKind::Unsupported(Feature::LongComment), pos: start });
                }
                self.read_comment();
            } else {
                let r = self.read_token(byt, start);
                if r.is_err() {
                    self.pos = start;
                }
                return r;
            }
        }
    }

    /// Scans the token that starts with `byt`, which was read at `start`.
    fn read_token(&mut self, byt: u8, start: usize) -> (r: Result<Token, LexError>)
        requires
            start <= old(self).pos <= old(self).input.len(),
            old(self).pos == advance(old(self).input@, start as int),
            byt == byte_at(old(self).input@, start as int),
            !is_space(byt),
            !comment_at(old(self).input@, start as int),
        ensures
            final(self).input@ == old(self).input@,
            final(self).ahead == old(self).ahead,
            final(self).pos <= final(self).input.len(),
            yields(r, final(self).pos as int, token_at(old(self).input@, start as int)),
            r is Err ==> r->Err_0.pos == start,
    {
        if byt == 0 {
            Ok(Token::Eos)
        } else if byt == '+' as u8 {
            Ok(Token::Add)
        } else if byt == '*' as u8 {
            Ok(Token::Mul)
        } else if byt == '%' as u8 {
            Ok(Token::Mod)
        } else if byt == '^' as u8 {
            Ok(Token::Pow)
        } else if byt == '#' as u8 {
            Ok(Token::Len)
        } else if byt == '&' as u8 {
            Ok(Token::BitAnd)
        } else if byt == '|' as u8 {
            Ok(Token::BitOr)
        } else if byt == '(' as u8 {
            Ok(Token::ParL)
        } else if byt == ')' as u8 {
            Ok(Token::ParR)
        } else if byt == '{' as u8 {
            Ok(Token::CurlyL)
        } else if byt == '}' as u8 {
            Ok(Token::CurlyR)
        } else if byt == '[' as u8 {
            Ok(Token::SqurL)
        } else if byt == ']' as u8 {
            Ok(Token::SqurR)
        } else if byt == ';' as u8 {
            Ok(Token::SemiColon)
        } else if byt == ',' as u8 {
            Ok(Token::Comma)
        } else if byt == '/' as u8 {
            Ok(self.check_ahead('/' as u8, Token::Idiv, Token::Div))
        } else if byt == '=' as u8 {
            Ok(self.check_ahead('=' as u8, Token::Equal, Token::Assign))
        } else if byt == '~' as u8 {
            Ok(self.check_ahead('=' as u8, Token::NotEq, Token::BitXor))
        } else if byt == ':' as u8 {
            Ok(self.check_ahead(':' as u8, Token::DoubColon, Token::Colon))
        } else if byt == '<' as u8 {
            Ok(self.check_ahead2('=' as u8, Token::LesEq, '<' as u8, Token::ShiftL, Token::Less))
        } else if byt == '>' as u8 {
            Ok(self.check_ahead2('=' as u8, Token::GreEq, '>' as u8, Token::ShiftR, Token::Greater))
        } else if byt == '-' as u8 {
            Ok(Token::Sub)
        } else if byt == '.' as u8 {
            let c = self.peek_byte();
            if c == '.' as u8 {
                self.next_byte();
                if self.peek_byte() == '.' as u8 {
                    self.next_byte();
                    Ok(Token::Dots)
                } else {
                    Ok(Token::Concat)
                }
            } else if digit_byte(c) {
                self.read_number_fraction(0, start)
            } else {
                Ok(Token::Dot)
            }
        } else if byt == '\'' as u8 || byt == '"' as u8 {
            self.read_string(byt, start)
        } else if digit_byte(byt) {
            self.read_number(byt, start)
        } else if name_start_byte(byt) {
            self.read_name(byt, start)
        } else {
            Err(LexError { kind: ErrorKind::InvalidChar(byt), pos: start })
        }
    }

    /// The next byte, without reading it; 0 at the end of the input.
    fn peek_byte(&self) -> (r: u8)
        requires
            self.pos <= self.input.len(),
        ensures
            r == byte_at(self.input@, self.pos as int),
    {
        if self.pos < self.input.len() {
            self.input[self.pos]
        } else {
            0
        }
    }

    /// Reads the next byte; 0 at the end of the input, where it stays.
    fn next_byte(&mut self) -> (r: u8)
        requires
            old(self).pos <= old(self).input.len(),
        ensures
            r == byte_at(old(self).input@, old(self).pos as int),
            final(self).pos == advance(old(self).input@, old(self).pos as int),
            final(self).pos <= final(self).input.len(),
            final(self).input@ == old(self).input@,
            final(self).ahead == old(self).ahead,
    {
        if self.pos < self.input.len() {
            let b = self.input[self.pos];
            self.pos = self.pos + 1;
            b
        } else {
            0
        }
    }

    /// The long token if the next byte is `ahead`, which is then read; else
    /// the short one.
    fn check_ahead(&mut self, ahead: u8, long: Token, short: Token) -> (r: Token)
        requires
            old(self).pos <= old(self).input.len(),
            ahead != 0,
        ensures
            final(self).input@ == old(self).input@,
            final(self).ahead == old(self).ahead,
            final(self).pos <= final(self).input.len(),
            if byte_at(old(self).input@, old(self).pos as int) == ahead {
                r == long && final(self).pos == old(self).pos + 1
            } else {
                r == short && final(self).pos == old(self).pos
            },
    {
        if self.peek_byte() == ahead {
            self.next_byte();
            long
        } else {
            short
        }
    }

    /// As `check_ahead`, with two candidates for the next byte, tried in order.
    fn check_ahead2(&mut self, ahead1: u8, long1: Token, ahead2: u8, long2: Token, short: Token) -> (r: Token)
        requires
            old(self).pos <= old(self).input.len(),
            ahead1 != 0,
            ahead2 != 0,
        ensures
            final(self).input@ == old(self).input@,
            final(self).ahead == old(self).ahead,
            final(self).pos <= final(self).input.len(),
            if byte_at(old(self).input@, old(self).pos as int) == ahead1 {
                r == long1 && final(self).pos == old(self).pos + 1
            } else if byte_at(old(self).input@, old(self).pos as int) == ahead2 {
                r == long2 && final(self).pos == old(self).pos + 1
            } else {
                r == short && final(self).pos == old(self).pos
            },
    {
        let byt = self.peek_byte();
        if byt == ahead1 {
            self.next_byte();
            long1
        } else if byt == ahead2 {
            self.next_byte();
            long2
        } else {
            short
        }
    }

    /// A number whose first digit, `first`, was read at `start`.
    fn read_number(&mut self, first: u8, start: usize) -> (r: Result<Token, LexError>)
        requires
            start < old(self).input.len(),
            old(self).pos == start + 1,
            old(self).input@[start as int] == first,
            is_digit(first),
        ensures
            final(self).input@ == old(self).input@,
            final(self).ahead == old(self).ahead,
            final(self).pos <= final(self).input.len(),
            yields(r, final(self).pos as int, number_at(old(self).input@, start as int)),
            r is Err ==> r->Err_0.pos == start,
    {
        let ghost s = self.input@;
        // hexadecimal
        if first == '0' as u8 {
            let second = self.peek_byte();
            if second == 'x' as u8 || second == 'X' as u8 {
                return self.read_heximal(start);
            }
        }
        // decimal
        let mut n: i64 = (first - '0' as u8) as i64;
        proof {
            let d = s.subrange(start as int, start + 1);
            assert(d.drop_last() =~= Seq::<u8>::empty());
            assert(d.last() == first);
            assert(decimal_value(d.drop_last()) == 0);
            assert(vstd::wrapping::i64_specs::wrapping_mul(0, 10) == 0);
            assert(vstd::wrapping::i64_specs::wrapping_add(0, n) == n);
            assert(decimal_value(d) == n);
        }
        loop
            invariant
                start < self.pos <= self.input.len(),
                s == old(self).input@,
                self.input@ == s,
                self.ahead == old(self).ahead,
                digits_end(s, start as int) == digits_end(s, self.pos as int),
                n == decimal_value(s.subrange(start as int, self.pos as int)),
                !(byte_at(s, start as int) == '0' as u8 && (byte_at(s, start + 1) == 'x' as u8 || byte_at(s, start + 1) == 'X' as u8)),
            ensures
                !is_digit(byte_at(s, self.pos as int)),
                byte_at(s, self.pos as int) != '.' as u8,
                byte_at(s, self.pos as int) != 'e' as u8,
                byte_at(s, self.pos as int) != 'E' as u8,
            decreases self.input.len() - self.pos,
        {
            let byt = self.peek_byte();
            if digit_byte(byt) {
                let p = self.pos;
                self.next_byte();
                n = n.wrapping_mul(10).wrapping_add((byt - '0' as u8) as i64);
                proof {
                    assert(s.subrange(start as int, p + 1).drop_last() =~= s.subrange(start as int, p as int));
                }
            } else if byt == '.' as u8 {
                self.next_byte();
                return self.read_number_fraction(n, start);
            } else if byt == 'e' as u8 || byt == 'E' as u8 {
                return self.read_number_exp(start);
            } else {
                break;
            }
        }
        assert(digits_end(s, self.pos as int) == self.pos);
        // check following
        if self.pos < self.input.len() && is_alphabetic(self.peek_byte() as char) {
            return Err(LexError { kind: ErrorKind::MalformedNumber, pos: start });
        }
        Ok(Token::Integer(n))
    }

    /// The digits after the point of a number that began at `start` and
    /// whose integer part is `whole`; the point has been read.
    fn read_number_fraction(&mut self, whole: i64, start: usize) -> (r: Result<Token, LexError>)
        requires
            start < old(self).pos <= old(self).input.len(),
        ensures
            final(self).input@ == old(self).input@,
            final(self).ahead == old(self).ahead,
            final(self).pos <= final(self).input.len(),
            yields(r, final(self).pos as int, fraction_at(old(self).input@, old(self).pos as int, whole, start as int)),
            r is Err ==> r->Err_0.pos == start,
    {
        let ghost s = self.input@;
        let k = self.pos;
        let mut n: i64 = 0;
        let mut digits: usize = 0;
        proof {
            assert(s.subrange(k as int, k as int) =~= Seq::<u8>::empty());
        }
        loop
            invariant
                k <= self.pos <= self.input.len(),
                s == old(self).input@,
                self.input@ == s,
                self.ahead == old(self).ahead,
                digits == self.pos - k,
                digits_end(s, k as int) == digits_end(s, self.pos as int),
                n == decimal_value(s.subrange(k as int, self.pos as int)),
            ensures
                !is_digit(byte_at(s, self.pos as int)),
            decreases self.input.len() - self.pos,
        {
            let byt = self.peek_byte();
            if digit_byte(byt) {
                let p = self.pos;
                self.next_byte();
                n = n.wrapping_mul(10).wrapping_add((byt - '0' as u8) as i64);
                digits = digits + 1;
                proof {
                    assert(s.subrange(k as int, p + 1).drop_last() =~= s.subrange(k as int, p as int));
                }
            } else {
                break;
            }
        }
        assert(digits_end(s, self.pos as int) == self.pos);
        let byt = self.peek_byte();
        if byt == 'e' as u8 || byt == 'E' as u8 {
            return self.read_number_exp(start);
        }
        Ok(Token::Float(FloatLit { whole, frac: n, frac_digits: digits }))
    }

    /// An exponent, `e` or `E`, is the next byte: not handled.
    fn read_number_exp(&mut self, start: usize) -> (r: Result<Token, LexError>)
        requires
            old(self).pos <= old(self).input.len(),
        ensures
            final(self).input@ == old(self).input@,
            final(self).ahead == old(self).ahead,
            final(self).pos <= final(self).input.len(),
            r == Err::<Token, LexError>(error_at(ErrorKind::Unsupported(Feature::Exponent), start as int)),
    {
        self.next_byte();  // skip 'e'
        Err(LexError { kind: ErrorKind::Unsupported(Feature::Exponent), pos: start })
    }

    /// A hexadecimal marker, `x` or `X`, is the next byte: not handled.
    fn read_heximal(&mut self, start: usize) -> (r: Result<Token, LexError>)
        requires
            old(self).pos <= old(self).input.len(),
        ensures
            final(self).input@ == old(self).input@,
            final(self).ahead == old(self).ahead,
            final(self).pos <= final(self).input.len(),
            r == Err::<Token, LexError>(error_at(ErrorKind::Unsupported(Feature::HexNumber), start as int)),
    {
        self.next_byte();  // skip 'x'
        Err(LexError { kind: ErrorKind::Unsupported(Feature::HexNumber), pos: start })
    }

    /// A string literal opened at `start` by `quote`.
    fn read_string(&mut self, quote: u8, start: usize) -> (r: Result<Token, LexError>)
        requires
            start < old(self).input.len(),
            old(self).pos == start + 1,
            quote == '\'' as u8 || quote == '"' as u8,
        ensures
            final(self).input@ == old(self).input@,
            final(self).ahead == old(self).ahead,
            final(self).pos <= final(self).input.len(),
            yields(r, final(self).pos as int, string_at(old(self).input@, start + 1, quote, start as int)),
            r is Err ==> r->Err_0.pos == start,
    {
        let ghost s = self.input@;
        let mut body: Vec<u8> = Vec::new();
        proof {
            assert(s.subrange(start + 1, start + 1) =~= Seq::<u8>::empty());
        }
        loop
            invariant_except_break
                string_end(s, start + 1, quote) == string_end(s, self.pos as int, quote),
                body@ == s.subrange(start + 1, self.pos as int),
            invariant
                start + 1 <= self.pos <= self.input.len(),
                s == old(self).input@,
                self.input@ == s,
                self.ahead == old(self).ahead,
                quote == '\'' as u8 || quote == '"' as u8,
            ensures
                self.pos <= self.input.len(),
                self.input@ == s,
                self.ahead == old(self).ahead,
                string_end(s, start + 1, quote) == self.pos - 1,
                self.pos - 1 < s.len(),
                s[self.pos - 1] == quote,
                body@ == s.subrange(start + 1, self.pos - 1),
            decreases self.input.len() - self.pos,
        {
            let p = self.pos;
            let byt = self.next_byte();
            if byt == quote {
                proof {
                    assert(string_end(s, p as int, quote) == p);
                }
                break;
            } else if byt == '\n' as u8 || byt == 0 {
                proof {
                    assert(string_end(s, p as int, quote) == p);
                    assert(string_at(s, start + 1, quote, start as int) == Err::<(TokenView, int), LexError>(
                        error_at(ErrorKind::UnfinishedString, start as int)));
                }
                return Err(LexError { kind: ErrorKind::UnfinishedString, pos: start });
            } else if byt == '\\' as u8 {
                return Err(LexError { kind: ErrorKind::Unsupported(Feature::Escape), pos: start });
            } else {
                body.push(byt);
                proof {
                    assert(s.subrange(start + 1, p + 1) =~= s.subrange(start + 1, p as int).push(byt));
                }
            }
        }
        Ok(Token::String(body))
    }

    /// A name or keyword whose first byte, `first`, was read at `start`.
    fn read_name(&mut self, first: u8, start: usize) -> (r: Result<Token, LexError>)
        requires
            start < old(self).input.len(),
            old(self).pos == start + 1,
            old(self).input@[start as int] == first,
            is_name_start(first),
        ensures
            final(self).input@ == old(self).input@,
            final(self).ahead == old(self).ahead,
            final(self).pos <= final(self).input.len(),
            yields(r, final(self).pos as int, name_at(old(self).input@, start as int)),
    {
        let ghost s = self.input@;
        let mut w: Vec<u8> = Vec::new();
        w.push(first);
        proof {
            assert(w@ =~= s.subrange(start as int, start + 1));
        }
        loop
            invariant
                start + 1 <= self.pos <= self.input.len(),
                s == old(self).input@,
                self.input@ == s,
                self.ahead == old(self).ahead,
                name_end(s, start + 1) == name_end(s, self.pos as int),
                w@ == s.subrange(start as int, self.pos as int),
            ensures
                !(self.pos < s.len() && is_name_byte(s[self.pos as int])),
            decreases self.input.len() - self.pos,
        {
            if self.pos < self.input.len() && name_byte(self.peek_byte()) {
                let p = self.pos;
                let byt = self.next_byte();
                w.push(byt);
                proof {
                    assert(s.subrange(start as int, p + 1) =~= s.subrange(start as int, p as int).push(byt));
                }
            } else {
                break;
            }
        }
        assert(name_end(s, self.pos as int) == self.pos);
        match keyword_token(&w) {
            Some(t) => Ok(t),
            None => Ok(Token::Name(name_string(&w))),
        }
    }

    /// The rest of a line comment, its newline included; `--` has been read.
    fn read_comment(&mut self)
        requires
            old(self).pos <= old(self).input.len(),
        ensures
            final(self).input@ == old(self).input@,
            final(self).ahead == old(self).ahead,
            final(self).pos == old(self).pos + line_len(old(self).input@, old(self).pos as int),
            final(self).pos <= final(self).input.len(),
    {
        let ghost s = self.input@;
        loop
            invariant_except_break
                self.pos + line_len(s, self.pos as int) == old(self).pos + line_len(s, old(self).pos as int),
            invariant
                old(self).pos <= self.pos <= self.input.len(),
                s == old(self).input@,
                self.input@ == s,
                self.ahead == old(self).ahead,
            ensures
                s == old(self).input@,
                self.input@ == s,
                self.ahead == old(self).ahead,
                self.pos <= self.input.len(),
                self.pos == old(self).pos + line_len(s, old(self).pos as int),
            decreases self.input.len() - self.pos,
        {
            let byt = self.next_byte();
            if byt == '\n' as u8 || byt == 0 {
                break;
            }
        }
    }
}

} // verus!
