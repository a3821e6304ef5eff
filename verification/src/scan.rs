//! The mathematical model of the scan: given the source text as a `Seq<char>`
//! and a cursor, `next_spec` says exactly which token (if any) the next
//! "produce next token" call yields and where the cursor lands.
//!
//! The model is written over character indices: every position counts one
//! Unicode code point, so multi-byte encodings never skew the bookkeeping.

use vstd::prelude::*;

use crate::tokens::{Keyword, LexError, LiteralView, Operator, Separator, TokenView};

verus! {

/// Whitespace that is skipped between tokens: space, tab, newline, carriage return.
pub open spec fn is_ws(c: char) -> bool {
    c == ' ' || c == '\t' || c == '\n' || c == '\r'
}

/// An ASCII decimal digit.
pub open spec fn is_digit(c: char) -> bool {
    '0' as int <= c as int && c as int <= '9' as int
}

/// The numeric value of a digit character.
pub open spec fn digit_val(c: char) -> int {
    c as int - '0' as int
}

/// A character that keeps a numeric-literal scan going: digits, sign marks and
/// the decimal point. A leading such character dispatches to the numeric scanner.
pub open spec fn is_numeric_char(c: char) -> bool {
    is_digit(c) || c == '-' || c == '.' || c == '+'
}

/// A suffix marker ends a numeric literal and selects its kind:
/// `u` unsigned, `i` signed, `f` float.
pub open spec fn is_suffix_marker(c: char) -> bool {
    c == 'u' || c == 'i' || c == 'f'
}

/// Index of the first non-whitespace character at or after `pos`
/// (the source length if only whitespace remains).
pub open spec fn ws_end(src: Seq<char>, pos: int) -> int
    decreases src.len() - pos,
{
    if pos >= src.len() {
        src.len() as int
    } else if is_ws(src[pos]) {
        ws_end(src, pos + 1)
    } else {
        pos
    }
}

/// Index of the first `"` at or after `pos`, if any.
pub open spec fn find_quote(src: Seq<char>, pos: int) -> Option<int>
    decreases src.len() - pos,
{
    if pos >= src.len() {
        None
    } else if src[pos] == '"' {
        Some(pos)
    } else {
        find_quote(src, pos + 1)
    }
}

/// Index of the first suffix marker (`u`, `i` or `f`) at or after `pos`, if any.
pub open spec fn find_suffix_marker(src: Seq<char>, pos: int) -> Option<int>
    decreases src.len() - pos,
{
    if pos >= src.len() {
        None
    } else if is_suffix_marker(src[pos]) {
        Some(pos)
    } else {
        find_suffix_marker(src, pos + 1)
    }
}

/// The fixed-token table: a token fully determined by one or two literal
/// characters. `second` is the character immediately after `first`, reported
/// as absent when it is whitespace or the input ends. The result carries how
/// many characters the token spans (1 or 2). A pair that is not listed (such
/// as `=` before an unrelated character) deliberately resolves to nothing and
/// falls through to literal or identifier scanning.
pub open spec fn fixed_token(first: char, second: Option<char>) -> Option<(TokenView, int)> {
    if first == '{' {
        Some((TokenView::SEPARATOR(Separator::LCURLY), 1))
    } else if first == '}' {
        Some((TokenView::SEPARATOR(Separator::RCURLY), 1))
    } else if first == '(' {
        Some((TokenView::SEPARATOR(Separator::LPARAN), 1))
    } else if first == ')' {
        Some((TokenView::SEPARATOR(Separator::RPARAN), 1))
    } else if first == ';' {
        Some((TokenView::SEPARATOR(Separator::SEMICOLON), 1))
    } else if first == ',' {
        Some((TokenView::SEPARATOR(Separator::COMMA), 1))
    } else if first == '.' {
        Some((TokenView::OPERATOR(Operator::DOT), 1))
    } else if first == '=' {
        if second == Some('=') {
            Some((TokenView::OPERATOR(Operator::EQUAL), 2))
        } else if second is None {
            Some((TokenView::OPERATOR(Operator::ASSIGNMENT), 1))
        } else {
            None
        }
    } else if first == '!' {
        if second == Some('=') {
            Some((TokenView::OPERATOR(Operator::NOTEQUAL), 2))
        } else {
            Some((TokenView::OPERATOR(Operator::NOT), 1))
        }
    } else if first == '+' {
        if second == Some('+') {
            Some((TokenView::OPERATOR(Operator::INCREMENT), 2))
        } else if second == Some('=') {
            Some((TokenView::OPERATOR(Operator::INCASSIGN), 2))
        } else if second is None {
            Some((TokenView::OPERATOR(Operator::ADD), 1))
        } else {
            None
        }
    } else if first == '-' {
        if second == Some('-') {
            Some((TokenView::OPERATOR(Operator::DECREMENT), 2))
        } else if second == Some('=') {
            Some((TokenView::OPERATOR(Operator::DECASSIGN), 2))
        } else if second is None {
            Some((TokenView::OPERATOR(Operator::SUBTRACT), 1))
        } else {
            None
        }
    } else if first == '*' {
        if second == Some('=') {
            Some((TokenView::OPERATOR(Operator::MULTASSIGN), 2))
        } else if second is None {
            Some((TokenView::OPERATOR(Operator::MULTIPLY), 1))
        } else {
            None
        }
    } else if first == '/' {
        if second == Some('=') {
            Some((TokenView::OPERATOR(Operator::DIVASSIGN), 2))
        } else if second is None {
            Some((TokenView::OPERATOR(Operator::DIVIDE), 1))
        } else {
            None
        }
    } else if first == '&' {
        if second == Some('&') {
            Some((TokenView::OPERATOR(Operator::AND), 2))
        } else if second is None {
            Some((TokenView::OPERATOR(Operator::BITAND), 1))
        } else {
            None
        }
    } else if first == '|' {
        if second == Some('|') {
            Some((TokenView::OPERATOR(Operator::OR), 2))
        } else if second is None {
            Some((TokenView::OPERATOR(Operator::BITOR), 1))
        } else {
            None
        }
    } else {
        None
    }
}

/// The "significant pair" view of the character after position `k - 1`: the
/// character at `k`, reported as absent when it is whitespace or past the end.
pub open spec fn norm_second(src: Seq<char>, k: int) -> Option<char> {
    if k < src.len() && !is_ws(src[k]) {
        Some(src[k])
    } else {
        None
    }
}

/// A position that ends an identifier scan: the input's end, whitespace, or a
/// character that (with its own successor) resolves to a fixed token.
pub open spec fn is_boundary_at(src: Seq<char>, k: int) -> bool {
    k >= src.len() || is_ws(src[k]) || fixed_token(src[k], norm_second(src, k + 1)) is Some
}

/// First boundary position at or after `j`: where an identifier whose scan has
/// reached `j` stops.
pub open spec fn ident_end(src: Seq<char>, j: int) -> int
    decreases src.len() - j,
{
    if j >= src.len() {
        src.len() as int
    } else if is_boundary_at(src, j) {
        j
    } else {
        ident_end(src, j + 1)
    }
}

/// The closed keyword table. Exactly these ten words are keywords; any other
/// word (a strict prefix or extension included) is an identifier.
pub open spec fn keyword_of(w: Seq<char>) -> Option<Keyword> {
    if w == "let"@ {
        Some(Keyword::LET)
    } else if w == "const"@ {
        Some(Keyword::CONST)
    } else if w == "static"@ {
        Some(Keyword::STATIC)
    } else if w == "fn"@ {
        Some(Keyword::FN)
    } else if w == "if"@ {
        Some(Keyword::IF)
    } else if w == "else"@ {
        Some(Keyword::ELSE)
    } else if w == "for"@ {
        Some(Keyword::FOR)
    } else if w == "loop"@ {
        Some(Keyword::LOOP)
    } else if w == "break"@ {
        Some(Keyword::BREAK)
    } else if w == "continue"@ {
        Some(Keyword::CONTINUE)
    } else {
        None
    }
}

/// What a scanned word becomes: the keyword the table maps it to, or an
/// identifier carrying the word itself.
pub open spec fn word_token(w: Seq<char>) -> TokenView {
    match keyword_of(w) {
        Some(k) => TokenView::KEYWORD(k),
        None => TokenView::IDENTIFIER(w),
    }
}

/// Every character of `s` is a decimal digit.
pub open spec fn all_digits(s: Seq<char>) -> bool {
    forall|k: int| 0 <= k < s.len() ==> is_digit(#[trigger] s[k])
}

/// The base-10 value of a digit string.
pub open spec fn digits_val(s: Seq<char>) -> int
    decreases s.len(),
{
    if s.len() == 0 {
        0
    } else {
        digits_val(s.drop_last()) * 10 + digit_val(s.last())
    }
}

/// The digit part of an unsigned literal's text: an optional leading `+` is
/// allowed and stripped.
pub open spec fn unsigned_digits(s: Seq<char>) -> Seq<char> {
    if s.len() > 0 && s[0] == '+' {
        s.skip(1)
    } else {
        s
    }
}

/// An unsigned literal's text is valid when, after an optional `+`, it is one
/// or more digits and nothing else.
pub open spec fn valid_unsigned_text(s: Seq<char>) -> bool {
    unsigned_digits(s).len() > 0 && all_digits(unsigned_digits(s))
}

/// The value of a valid unsigned literal's text.
pub open spec fn unsigned_text_val(s: Seq<char>) -> int {
    digits_val(unsigned_digits(s))
}

/// The digit part of a signed literal's text: an optional leading `+` or `-`
/// is allowed and stripped.
pub open spec fn signed_digits(s: Seq<char>) -> Seq<char> {
    if s.len() > 0 && (s[0] == '+' || s[0] == '-') {
        s.skip(1)
    } else {
        s
    }
}

/// A signed literal's text is valid when, after an optional sign, it is one or
/// more digits and nothing else.
pub open spec fn valid_signed_text(s: Seq<char>) -> bool {
    signed_digits(s).len() > 0 && all_digits(signed_digits(s))
}

/// The value of a valid signed literal's text.
pub open spec fn signed_text_val(s: Seq<char>) -> int {
    if s.len() > 0 && s[0] == '-' {
        -digits_val(signed_digits(s))
    } else {
        digits_val(signed_digits(s))
    }
}

/// A float literal's text is valid when, after an optional sign, it consists
/// of digits with at most one decimal point among them, and holds at least one
/// digit.
pub open spec fn valid_float_text(s: Seq<char>) -> bool {
    let t = signed_digits(s);
    &&& forall|k: int| 0 <= k < t.len() ==> is_digit(#[trigger] t[k]) || t[k] == '.'
    &&& forall|k1: int, k2: int|
        0 <= k1 < t.len() && 0 <= k2 < t.len() && #[trigger] t[k1] == '.' && #[trigger] t[k2] == '.'
            ==> k1 == k2
    &&& exists|k: int| 0 <= k < t.len() && is_digit(#[trigger] t[k])
}

/// A digit string's value is never negative.
pub proof fn lemma_digits_val_nonneg(s: Seq<char>)
    requires
        all_digits(s),
    ensures
        digits_val(s) >= 0,
    decreases s.len(),
{
    if s.len() > 0 {
        assert forall|k: int| 0 <= k < s.drop_last().len() implies is_digit(
            #[trigger] s.drop_last()[k],
        ) by {
            assert(s.drop_last()[k] == s[k]);
        }
        lemma_digits_val_nonneg(s.drop_last());
        assert(is_digit(s.last()));
    }
}

/// Dropping trailing digits never increases a digit string's value, so a
/// prefix that already exceeds a bound shows the whole string exceeds it.
pub proof fn lemma_digits_val_prefix(s: Seq<char>, m: int)
    requires
        all_digits(s),
        0 <= m <= s.len(),
    ensures
        digits_val(s.take(m)) <= digits_val(s),
    decreases s.len(),
{
    if m == s.len() {
        assert(s.take(m) =~= s);
    } else {
        let d = s.drop_last();
        assert forall|k: int| 0 <= k < d.len() implies is_digit(#[trigger] d[k]) by {
            assert(d[k] == s[k]);
        }
        assert(s.take(m) =~= d.take(m));
        lemma_digits_val_prefix(d, m);
        lemma_digits_val_nonneg(d);
        assert(is_digit(s.last()));
    }
}

/// A `true` literal sits at `i`: the four characters match and the position
/// after them is a boundary, so that `truex` is left to the identifier scanner.
pub open spec fn bool_true_at(src: Seq<char>, i: int) -> bool {
    &&& i + 4 <= src.len()
    &&& src[i] == 't' && src[i + 1] == 'r' && src[i + 2] == 'u' && src[i + 3] == 'e'
    &&& is_boundary_at(src, i + 4)
}

/// A `false` literal sits at `i`, with the boundary condition as for `true`.
pub open spec fn bool_false_at(src: Seq<char>, i: int) -> bool {
    &&& i + 5 <= src.len()
    &&& src[i] == 'f' && src[i + 1] == 'a' && src[i + 2] == 'l' && src[i + 3] == 's' && src[i + 4]
        == 'e'
    &&& is_boundary_at(src, i + 5)
}

/// The outcome of one "produce next token" call: a token and the cursor
/// position after it; the end of the stream (also reached by a literal
/// truncated by the input's end) with the final cursor position; or a
/// malformed numeric literal with the cursor moved past its suffix marker.
pub enum ScanStep {
    Token(TokenView, int),
    End(int),
    Fail(LexError, int),
}

/// What a numeric literal's span `raw` produces under suffix marker `suffix`,
/// with the cursor landing at `end`: the suffix selects the literal kind, and
/// a span that does not parse into that kind (or does not fit it) is a
/// per-call failure.
pub open spec fn numeric_step(raw: Seq<char>, suffix: char, end: int) -> ScanStep {
    if suffix == 'u' {
        if valid_unsigned_text(raw) && unsigned_text_val(raw) <= usize::MAX as int {
            ScanStep::Token(TokenView::LITERAL(LiteralView::USIGNEDINT(unsigned_text_val(raw))), end)
        } else {
            ScanStep::Fail(LexError::MALFORMEDUNSIGNED, end)
        }
    } else if suffix == 'i' {
        if valid_signed_text(raw) && isize::MIN as int <= signed_text_val(raw) && signed_text_val(
            raw,
        ) <= isize::MAX as int {
            ScanStep::Token(TokenView::LITERAL(LiteralView::SIGNEDINT(signed_text_val(raw))), end)
        } else {
            ScanStep::Fail(LexError::MALFORMEDSIGNED, end)
        }
    } else {
        if valid_float_text(raw) {
            ScanStep::Token(TokenView::LITERAL(LiteralView::FLOAT(raw)), end)
        } else {
            ScanStep::Fail(LexError::MALFORMEDFLOAT, end)
        }
    }
}

/// One step of the scan. From the cursor, whitespace is skipped; the first
/// significant character and its immediate successor resolve a fixed token if
/// the table lists them; otherwise a leading `"` starts a string literal, a
/// leading digit, sign or point starts a numeric literal, an exact `true` or
/// `false` up to a boundary is a boolean literal, and everything else is
/// scanned as an identifier and looked up in the keyword table.
pub open spec fn next_spec(src: Seq<char>, pos: int) -> ScanStep {
    let i = ws_end(src, pos);
    if i >= src.len() {
        ScanStep::End(src.len() as int)
    } else {
        let c = src[i];
        let second = norm_second(src, i + 1);
        match fixed_token(c, second) {
            Some(tw) => ScanStep::Token(tw.0, i + tw.1),
            None => {
                if c == '"' {
                    match find_quote(src, i + 1) {
                        Some(e) => ScanStep::Token(
                            TokenView::LITERAL(LiteralView::STRING(src.subrange(i + 1, e))),
                            e + 1,
                        ),
                        None => ScanStep::End(src.len() as int),
                    }
                } else if is_numeric_char(c) {
                    match find_suffix_marker(src, i + 1) {
                        Some(j) => numeric_step(src.subrange(i, j), src[j], j + 1),
                        None => ScanStep::End(src.len() as int),
                    }
                } else if bool_true_at(src, i) {
                    ScanStep::Token(TokenView::LITERAL(LiteralView::BOOL(true)), i + 4)
                } else if bool_false_at(src, i) {
                    ScanStep::Token(TokenView::LITERAL(LiteralView::BOOL(false)), i + 5)
                } else {
                    let e = ident_end(src, i + 1);
                    ScanStep::Token(word_token(src.subrange(i, e)), e)
                }
            },
        }
    }
}

} // verus!
