use vstd::prelude::*;
use vstd::wrapping::i64_specs;

use crate::chars::{is_digit, is_name_byte, is_name_start, is_space, alphabetic};
use crate::token::{ErrorKind, Feature, FloatLit, LexError, Token, TokenView};

verus! {

/// The byte at offset `i`, or 0 past the end of the input.
pub open spec fn byte_at(s: Seq<u8>, i: int) -> u8 {
    if 0 <= i < s.len() {
        s[i]
    } else {
        0
    }
}

/// The offset after reading one byte at `i`: reading at the end stays there.
pub open spec fn advance(s: Seq<u8>, i: int) -> int {
    if i < s.len() {
        i + 1
    } else {
        i
    }
}

pub open spec fn error_at(kind: ErrorKind, i: int) -> LexError {
    LexError { kind, pos: i as usize }
}

/// The keyword spelled by `w`, if it is one.
pub open spec fn keyword(w: Seq<u8>) -> Option<Token> {
    if w == seq!['a' as u8, 'n' as u8, 'd' as u8] {
        Some(Token::And)
    } else if w == seq!['b' as u8, 'r' as u8, 'e' as u8, 'a' as u8, 'k' as u8] {
        Some(Token::Break)
    } else if w == seq!['d' as u8, 'o' as u8] {
        Some(Token::Do)
    } else if w == seq!['e' as u8, 'l' as u8, 's' as u8, 'e' as u8] {
        Some(Token::Else)
    } else if w == seq!['e' as u8, 'l' as u8, 's' as u8, 'e' as u8, 'i' as u8, 'f' as u8] {
        Some(Token::Elseif)
    } else if w == seq!['e' as u8, 'n' as u8, 'd' as u8] {
        Some(Token::End)
    } else if w == seq!['f' as u8, 'a' as u8, 'l' as u8, 's' as u8, 'e' as u8] {
        Some(Token::False)
    } else if w == seq!['f' as u8, 'o' as u8, 'r' as u8] {
        Some(Token::For)
    } else if w == seq!['f' as u8, 'u' as u8, 'n' as u8, 'c' as u8, 't' as u8, 'i' as u8, 'o' as u8, 'n' as u8] {
        Some(Token::Function)
    } else if w == seq!['g' as u8, 'o' as u8, 't' as u8, 'o' as u8] {
        Some(Token::Goto)
    } else if w == seq!['i' as u8, 'f' as u8] {
        Some(Token::If)
    } else if w == seq!['i' as u8, 'n' as u8] {
        Some(Token::In)
    } else if w == seq!['l' as u8, 'o' as u8, 'c' as u8, 'a' as u8, 'l' as u8] {
        Some(Token::Local)
    } else if w == seq!['n' as u8, 'i' as u8, 'l' as u8] {
        Some(Token::Nil)
    } else if w == seq!['n' as u8, 'o' as u8, 't' as u8] {
        Some(Token::Not)
    } else if w == seq!['o' as u8, 'r' as u8] {
        Some(Token::Or)
    } else if w == seq!['r' as u8, 'e' as u8, 'p' as u8, 'e' as u8, 'a' as u8, 't' as u8] {
        Some(Token::Repeat)
    } else if w == seq!['r' as u8, 'e' as u8, 't' as u8, 'u' as u8, 'r' as u8, 'n' as u8] {
        Some(Token::Return)
    } else if w == seq!['t' as u8, 'h' as u8, 'e' as u8, 'n' as u8] {
        Some(Token::Then)
    } else if w == seq!['t' as u8, 'r' as u8, 'u' as u8, 'e' as u8] {
        Some(Token::True)
    } else if w == seq!['u' as u8, 'n' as u8, 't' as u8, 'i' as u8, 'l' as u8] {
        Some(Token::Until)
    } else if w == seq!['w' as u8, 'h' as u8, 'i' as u8, 'l' as u8, 'e' as u8] {
        Some(Token::While)
    } else {
        None
    }
}

/// The operator or punctuation token that byte `b` starts when byte `c`
/// follows it, with the number of bytes it takes. `.` and `-` are left to
/// the scanner, which needs more than one byte of context for them.
pub open spec fn operator(b: u8, c: u8) -> Option<(Token, int)> {
    if b == '+' as u8 {
        Some((Token::Add, 1))
    } else if b == '*' as u8 {
        Some((Token::Mul, 1))
    } else if b == '%' as u8 {
        Some((Token::Mod, 1))
    } else if b == '^' as u8 {
        Some((Token::Pow, 1))
    } else if b == '#' as u8 {
        Some((Token::Len, 1))
    } else if b == '&' as u8 {
        Some((Token::BitAnd, 1))
    } else if b == '|' as u8 {
        Some((Token::BitOr, 1))
    } else if b == '(' as u8 {
        Some((Token::ParL, 1))
    } else if b == ')' as u8 {
        Some((Token::ParR, 1))
    } else if b == '{' as u8 {
        Some((Token::CurlyL, 1))
    } else if b == '}' as u8 {
        Some((Token::CurlyR, 1))
    } else if b == '[' as u8 {
        Some((Token::SqurL, 1))
    } else if b == ']' as u8 {
        Some((Token::SqurR, 1))
    } else if b == ';' as u8 {
        Some((Token::SemiColon, 1))
    } else if b == ',' as u8 {
        Some((Token::Comma, 1))
    } else if b == '/' as u8 {
        Some(if c == '/' as u8 { (Token::Idiv, 2) } else { (Token::Div, 1) })
    } else if b == '=' as u8 {
        Some(if c == '=' as u8 { (Token::Equal, 2) } else { (Token::Assign, 1) })
    } else if b == '~' as u8 {
        Some(if c == '=' as u8 { (Token::NotEq, 2) } else { (Token::BitXor, 1) })
    } else if b == ':' as u8 {
        Some(if c == ':' as u8 { (Token::DoubColon, 2) } else { (Token::Colon, 1) })
    } else if b == '<' as u8 {
        Some(
            if c == '=' as u8 {
                (Token::LesEq, 2)
            } else if c == '<' as u8 {
                (Token::ShiftL, 2)
            } else {
                (Token::Less, 1)
            },
        )
    } else if b == '>' as u8 {
        Some(
            if c == '=' as u8 {
                (Token::GreEq, 2)
            } else if c == '>' as u8 {
                (Token::ShiftR, 2)
            } else {
                (Token::Greater, 1)
            },
        )
    } else {
        None
    }
}

/// The first offset from `i` on that does not hold a decimal digit.
pub open spec fn digits_end(s: Seq<u8>, i: int) -> int
    decreases s.len() - i,
{
    if 0 <= i < s.len() && is_digit(s[i]) {
        digits_end(s, i + 1)
    } else {
        i
    }
}

/// The decimal digits `d` accumulated in wrapping 64-bit arithmetic.
pub open spec fn decimal_value(d: Seq<u8>) -> i64
    decreases d.len(),
{
    if d.len() == 0 {
        0
    } else {
        i64_specs::wrapping_add(
            i64_specs::wrapping_mul(decimal_value(d.drop_last()), 10),
            (d.last() - '0' as u8) as i64,
        )
    }
}

pub open spec fn is_exponent_mark(b: u8) -> bool {
    b == 'e' as u8 || b == 'E' as u8
}

/// The fractional part of a number whose digits after the point start at `k`;
/// `whole` is its integer part and `start` the offset where the number began.
pub open spec fn fraction_at(s: Seq<u8>, k: int, whole: i64, start: int) -> Result<(TokenView, int), LexError> {
    let f = digits_end(s, k);
    if is_exponent_mark(byte_at(s, f)) {
        Err(error_at(ErrorKind::Unsupported(Feature::Exponent), start))
    } else {
        let lit = FloatLit { whole, frac: decimal_value(s.subrange(k, f)), frac_digits: (f - k) as usize };
        Ok((TokenView::Float(lit), f))
    }
}

/// A number that starts with the digit at `i`.
pub open spec fn number_at(s: Seq<u8>, i: int) -> Result<(TokenView, int), LexError> {
    let e = digits_end(s, i);
    let n = decimal_value(s.subrange(i, e));
    let c = byte_at(s, e);
    if byte_at(s, i) == '0' as u8 && (byte_at(s, i + 1) == 'x' as u8 || byte_at(s, i + 1) == 'X' as u8) {
        Err(error_at(ErrorKind::Unsupported(Feature::HexNumber), i))
    } else if c == '.' as u8 {
        fraction_at(s, e + 1, n, i)
    } else if is_exponent_mark(c) {
        Err(error_at(ErrorKind::Unsupported(Feature::Exponent), i))
    } else if e < s.len() && alphabetic(c as char) {
        Err(error_at(ErrorKind::MalformedNumber, i))
    } else {
        Ok((TokenView::Integer(n), e))
    }
}

/// The first offset from `k` on that ends the body of a string literal
/// quoted by `q`: the quote, a newline, a zero byte, a backslash or the end.
pub open spec fn string_end(s: Seq<u8>, k: int, q: u8) -> int
    decreases s.len() - k,
{
    if 0 <= k < s.len() && s[k] != q && s[k] != '\n' as u8 && s[k] != 0 && s[k] != '\\' as u8 {
        string_end(s, k + 1, q)
    } else {
        k
    }
}

/// A string literal whose body starts at `k`, opened at `start` by quote `q`.
pub open spec fn string_at(s: Seq<u8>, k: int, q: u8, start: int) -> Result<(TokenView, int), LexError> {
    let e = string_end(s, k, q);
    if e < s.len() && s[e] == q {
        Ok((TokenView::Str(s.subrange(k, e)), e + 1))
    } else if byte_at(s, e) == '\\' as u8 {
        Err(error_at(ErrorKind::Unsupported(Feature::Escape), start))
    } else {
        Err(error_at(ErrorKind::UnfinishedString, start))
    }
}

/// The first offset from `k` on that does not hold a byte of a name.
pub open spec fn name_end(s: Seq<u8>, k: int) -> int
    decreases s.len() - k,
{
    if 0 <= k < s.len() && is_name_byte(s[k]) {
        name_end(s, k + 1)
    } else {
        k
    }
}

/// The bytes of a name read as characters, one for each byte.
pub open spec fn name_text(w: Seq<u8>) -> Seq<char> {
    w.map_values(|b: u8| b as char)
}

/// A name or keyword that starts at `i`.
pub open spec fn name_at(s: Seq<u8>, i: int) -> Result<(TokenView, int), LexError> {
    let e = name_end(s, i + 1);
    let w = s.subrange(i, e);
    match keyword(w) {
        Some(t) => Ok((TokenView::Fixed(t), e)),
        None => Ok((TokenView::Name(name_text(w)), e)),
    }
}

/// The token that starts at `i`, once blanks and comments are behind.
pub open spec fn token_at(s: Seq<u8>, i: int) -> Result<(TokenView, int), LexError> {
    let b = byte_at(s, i);
    let c = byte_at(s, i + 1);
    if i >= s.len() {
        Ok((TokenView::Fixed(Token::Eos), i))
    } else if b == 0 {
        Ok((TokenView::Fixed(Token::Eos), i + 1))
    } else if operator(b, c) is Some {
        let (t, n) = operator(b, c)->0;
        Ok((TokenView::Fixed(t), i + n))
    } else if b == '-' as u8 {
        Ok((TokenView::Fixed(Token::Sub), i + 1))
    } else if b == '.' as u8 {
        if c == '.' as u8 {
            if byte_at(s, i + 2) == '.' as u8 {
                Ok((TokenView::Fixed(Token::Dots), i + 3))
            } else {
                Ok((TokenView::Fixed(Token::Concat), i + 2))
            }
        } else if is_digit(c) {
            fraction_at(s, i + 1, 0, i)
        } else {
            Ok((TokenView::Fixed(Token::Dot), i + 1))
        }
    } else if b == '\'' as u8 || b == '"' as u8 {
        string_at(s, i + 1, b, i)
    } else if is_digit(b) {
        number_at(s, i)
    } else if is_name_start(b) {
        name_at(s, i)
    } else {
        Err(error_at(ErrorKind::InvalidChar(b), i))
    }
}

/// The number of bytes that the rest of a line comment takes from `k` on,
/// its closing newline (or zero byte) included.
pub open spec fn line_len(s: Seq<u8>, k: int) -> nat
    decreases s.len() - k,
{
    if 0 <= k < s.len() {
        if s[k] == '\n' as u8 || s[k] == 0 {
            1
        } else {
            1 + line_len(s, k + 1)
        }
    } else {
        0
    }
}

/// Whether a comment, `--`, starts at `i`.
pub open spec fn comment_at(s: Seq<u8>, i: int) -> bool {
    byte_at(s, i) == '-' as u8 && byte_at(s, i + 1) == '-' as u8
}

/// The next token from offset `i` on, with the offset after it; blanks and
/// line comments before it are skipped. Every error carries the offset where
/// the offending token or comment starts.
pub open spec fn scan(s: Seq<u8>, i: int) -> Result<(TokenView, int), LexError>
    decreases s.len() - i,
    via scan_decreases
{
    if 0 <= i < s.len() && is_space(s[i]) {
        scan(s, i + 1)
    } else if 0 <= i && comment_at(s, i) {
        if byte_at(s, i + 2) == '[' as u8 {
            Err(error_at(ErrorKind::Unsupported(Feature::LongComment), i))
        } else {
            scan(s, i + 2 + line_len(s, i + 2))
        }
    } else {
        token_at(s, i)
    }
}

/// A line comment never runs past the end of the input.
pub proof fn lemma_line_len_bound(s: Seq<u8>, k: int)
    requires
        0 <= k <= s.len(),
    ensures
        k + line_len(s, k) <= s.len(),
    decreases s.len() - k,
{
    if k < s.len() && s[k] != '\n' as u8 && s[k] != 0 {
        lemma_line_len_bound(s, k + 1);
    }
}

#[via_fn]
proof fn scan_decreases(s: Seq<u8>, i: int) {
    if 0 <= i < s.len() && is_space(s[i]) {
    } else if 0 <= i && comment_at(s, i) && byte_at(s, i + 2) != '[' as u8 {
        lemma_line_len_bound(s, i + 2);
    }
}

} // verus!
