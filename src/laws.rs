use vstd::prelude::*;

use crate::chars::is_digit;
use crate::grammar::{byte_at, decimal_value, keyword, line_len, name_at, name_end, name_text, scan, token_at};
use crate::lex::{next_step, peek_step, LexState};
use crate::token::{Token, TokenView};

verus! {

/// The one-character operator that byte `b` stands for when it does not
/// begin a two-character one.
pub open spec fn short_form(b: u8) -> Option<Token> {
    if b == '/' as u8 {
        Some(Token::Div)
    } else if b == '=' as u8 {
        Some(Token::Assign)
    } else if b == '~' as u8 {
        Some(Token::BitXor)
    } else if b == ':' as u8 {
        Some(Token::Colon)
    } else if b == '<' as u8 {
        Some(Token::Less)
    } else if b == '>' as u8 {
        Some(Token::Greater)
    } else {
        None
    }
}

/// Whether `c` after `b` makes a two-character operator.
pub open spec fn extends(b: u8, c: u8) -> bool {
    ||| b == '/' as u8 && c == '/' as u8
    ||| b == '=' as u8 && c == '=' as u8
    ||| b == '~' as u8 && c == '=' as u8
    ||| b == ':' as u8 && c == ':' as u8
    ||| b == '<' as u8 && (c == '=' as u8 || c == '<' as u8)
    ||| b == '>' as u8 && (c == '=' as u8 || c == '>' as u8)
}

/// A byte that may begin a two-character operator, followed by a byte that
/// does not complete one, scans as the one-character operator, and the byte
/// after it is left for the next scan.
pub proof fn lemma_short_operator(s: Seq<u8>, i: int)
    requires
        0 <= i < s.len(),
        short_form(s[i]) is Some,
        !extends(s[i], byte_at(s, i + 1)),
    ensures
        scan(s, i) == Ok::<(TokenView, int), crate::token::LexError>(
            (TokenView::Fixed(short_form(s[i])->0), i + 1),
        ),
{
}

/// A failed scan fails again, with the same error, when it is started over
/// at the offset that the error reports.
pub proof fn lemma_error_is_stable(s: Seq<u8>, i: int)
    requires
        0 <= i <= s.len(),
        s.len() <= usize::MAX,
        scan(s, i) is Err,
    ensures
        scan(s, scan(s, i)->Err_0.pos as int) == scan(s, i),
    decreases s.len() - i,
{
    if i < s.len() && crate::chars::is_space(s[i]) {
        lemma_error_is_stable(s, i + 1);
    } else if crate::grammar::comment_at(s, i) {
        if byte_at(s, i + 2) != '[' as u8 {
            crate::grammar::lemma_line_len_bound(s, i + 2);
            lemma_error_is_stable(s, i + 2 + line_len(s, i + 2));
        }
    } else {
        assert(token_at(s, i) is Err);
    }
}

/// Peeking twice in a row gives the same result as peeking once: the second
/// peek shows the same token and reads nothing more.
pub proof fn lemma_peek_idempotent(st: LexState)
    requires
        st.valid(),
    ensures
        peek_step(peek_step(st).0) == peek_step(st),
{
    if st.pending is None && scan(st.source, st.cursor) is Err {
        lemma_error_is_stable(st.source, st.cursor);
    }
}

/// Consuming after a successful peek hands out the peeked token, reads
/// nothing more, and leaves no token pending.
pub proof fn lemma_next_after_peek(st: LexState)
    requires
        st.valid(),
        peek_step(st).1 is Ok,
    ensures
        next_step(peek_step(st).0) == (LexState { pending: None, ..peek_step(st).0 }, peek_step(st).1),
{
}

/// Once the whole input is read, every further consume yields the end
/// token and leaves the lexer as it was.
pub proof fn lemma_end_is_stable(st: LexState)
    requires
        st.valid(),
        st.pending is None,
        st.cursor == st.source.len(),
    ensures
        next_step(st) == (st, Ok::<TokenView, crate::token::LexError>(TokenView::Fixed(Token::Eos))),
{
}


/// A name never spells a keyword: whatever bytes give a name token's text,
/// they are not a keyword.
pub proof fn lemma_name_is_not_keyword(s: Seq<u8>, i: int)
    requires
        0 <= i <= s.len(),
        scan(s, i) is Ok,
        scan(s, i)->Ok_0.0 is Name,
    ensures
        forall|w: Seq<u8>| #[trigger] name_text(w) == scan(s, i)->Ok_0.0->Name_0 ==> keyword(w) is None,
    decreases s.len() - i,
{
    if i < s.len() && crate::chars::is_space(s[i]) {
        lemma_name_is_not_keyword(s, i + 1);
    } else if crate::grammar::comment_at(s, i) {
        crate::grammar::lemma_line_len_bound(s, i + 2);
        lemma_name_is_not_keyword(s, i + 2 + line_len(s, i + 2));
    } else {
        let e = name_end(s, i + 1);
        let w0 = s.subrange(i, e);
        assert(token_at(s, i) == name_at(s, i));
        assert forall|w: Seq<u8>| #[trigger] name_text(w) == name_text(w0) implies w == w0 by {
            assert(w.len() == name_text(w).len());
            assert forall|j: int| 0 <= j < w.len() implies w[j] == w0[j] by {
                assert(name_text(w)[j] == name_text(w0)[j]);
            }
            assert(w =~= w0);
        }
    }
}


/// The value of the decimal digits `d` in unbounded arithmetic.
pub open spec fn digits_value(d: Seq<u8>) -> int
    decreases d.len(),
{
    if d.len() == 0 {
        0
    } else {
        digits_value(d.drop_last()) * 10 + (d.last() - '0' as u8)
    }
}

/// Digits whose value fits in 64 signed bits are read exactly: only longer
/// literals wrap around.
pub proof fn lemma_decimal_exact(d: Seq<u8>)
    requires
        forall|j: int| 0 <= j < d.len() ==> is_digit(#[trigger] d[j]),
        digits_value(d) <= i64::MAX,
    ensures
        decimal_value(d) == digits_value(d),
        digits_value(d) >= 0,
    decreases d.len(),
{
    if d.len() > 0 {
        let p = d.drop_last();
        assert(is_digit(d[d.len() - 1]));
        assert forall|j: int| 0 <= j < p.len() implies is_digit(#[trigger] p[j]) by {
            assert(p[j] == d[j]);
        }
        if digits_value(p) >= 0 {
            assert(digits_value(p) <= digits_value(p) * 10);
        }
        lemma_decimal_exact(p);
        let x = digits_value(p) * 10;
        vstd::arithmetic::div_mod::lemma_small_mod(x as nat, 0x1_0000_0000_0000_0000nat);
        assert(vstd::wrapping::i64_specs::wrapping_mul(decimal_value(p), 10) == x);
    }
}

} // verus!
