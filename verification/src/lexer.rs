//! The scanning engine: a forward-only cursor over a source string.
//!
//! Each `next_token` call produces at most one token and advances the cursor
//! past it; its contract ties the call exactly to the model in [`crate::scan`].

use vstd::prelude::*;

use crate::scan::{
    all_digits, bool_false_at, bool_true_at, digits_val, find_quote, find_suffix_marker, fixed_token,
    ident_end, is_boundary_at, is_digit, is_numeric_char, is_suffix_marker, is_ws,
    lemma_digits_val_nonneg, lemma_digits_val_prefix, next_spec, norm_second, numeric_step,
    signed_digits, signed_text_val, unsigned_digits, unsigned_text_val, valid_float_text,
    valid_signed_text, valid_unsigned_text, word_token, ws_end, ScanStep,
};
use crate::tokens::{Keyword, LexError, Literal, LiteralView, Operator, Separator, Token, TokenView};

verus! {

/// A forward-only scanner over one source buffer. The cursor (a character
/// offset) is the only mutable state; the source is borrowed for the scan's
/// whole lifetime and never changes.
pub struct Lexer<'a> {
    source: &'a str,
    pos: usize,
}

impl<'a> Lexer<'a> {
    /// The source text, as a character sequence.
    pub closed spec fn src(self) -> Seq<char> {
        self.source@
    }

    /// The cursor: the character offset scanning continues from.
    pub closed spec fn cursor(self) -> int {
        self.pos as int
    }

    /// Builds a scanner over a complete, already-loaded source string, with
    /// the cursor at the start.
    pub fn new(source: &'a str) -> (l: Self)
        ensures
            l.src() == source@,
            l.cursor() == 0,
    {
        Lexer { source, pos: 0 }
    }

    /// The whitespace characters skipped between tokens.
    fn is_whitespace(c: char) -> (r: bool)
        ensures
            r == is_ws(c),
    {
        c == ' ' || c == '\t' || c == '\n' || c == '\r'
    }

    /// Decides whether `c` is a decimal digit.
    fn is_digit_char(c: char) -> (r: bool)
        ensures
            r == is_digit(c),
    {
        let x = c as u32;
        '0' as u32 <= x && x <= '9' as u32
    }

    /// Decides whether `c` dispatches to the numeric-literal scanner.
    fn is_numeric(c: char) -> (r: bool)
        ensures
            r == is_numeric_char(c),
    {
        Self::is_digit_char(c) || c == '-' || c == '.' || c == '+'
    }

    /// Decides whether `c` is a numeric suffix marker.
    fn is_suffix(c: char) -> (r: bool)
        ensures
            r == is_suffix_marker(c),
    {
        c == 'u' || c == 'i' || c == 'f'
    }

    /// Resolves the fixed-token table on a significant pair, with the width
    /// (1 or 2 characters) the token spans.
    fn fixed_lookahead(first: char, second: Option<char>) -> (r: Option<(Token, usize)>)
        ensures
            match fixed_token(first, second) {
                Some(tw) => r matches Some(p) && p.0@ == tw.0 && p.1 as int == tw.1,
                None => r is None,
            },
    {
        let (has2, c2) = match second {
            Some(c) => (true, c),
            None => (false, ' '),
        };
        if first == '{' {
            Some((Token::SEPARATOR(Separator::LCURLY), 1))
        } else if first == '}' {
            Some((Token::SEPARATOR(Separator::RCURLY), 1))
        } else if first == '(' {
            Some((Token::SEPARATOR(Separator::LPARAN), 1))
        } else if first == ')' {
            Some((Token::SEPARATOR(Separator::RPARAN), 1))
        } else if first == ';' {
            Some((Token::SEPARATOR(Separator::SEMICOLON), 1))
        } else if first == ',' {
            Some((Token::SEPARATOR(Separator::COMMA), 1))
        } else if first == '.' {
            Some((Token::OPERATOR(Operator::DOT), 1))
        } else if first == '=' {
            if has2 && c2 == '=' {
                Some((Token::OPERATOR(Operator::EQUAL), 2))
            } else if !has2 {
                Some((Token::OPERATOR(Operator::ASSIGNMENT), 1))
            } else {
                None
            }
        } else if first == '!' {
            if has2 && c2 == '=' {
                Some((Token::OPERATOR(Operator::NOTEQUAL), 2))
            } else {
                Some((Token::OPERATOR(Operator::NOT), 1))
            }
        } else if first == '+' {
            if has2 && c2 == '+' {
                Some((Token::OPERATOR(Operator::INCREMENT), 2))
            } else if has2 && c2 == '=' {
                Some((Token::OPERATOR(Operator::INCASSIGN), 2))
            } else if !has2 {
                Some((Token::OPERATOR(Operator::ADD), 1))
            } else {
                None
            }
        } else if first == '-' {
            if has2 && c2 == '-' {
                Some((Token::OPERATOR(Operator::DECREMENT), 2))
            } else if has2 && c2 == '=' {
                Some((Token::OPERATOR(Operator::DECASSIGN), 2))
            } else if !has2 {
                Some((Token::OPERATOR(Operator::SUBTRACT), 1))
            } else {
                None
            }
        } else if first == '*' {
            if has2 && c2 == '=' {
                Some((Token::OPERATOR(Operator::MULTASSIGN), 2))
            } else if !has2 {
                Some((Token::OPERATOR(Operator::MULTIPLY), 1))
            } else {
                None
            }
        } else if first == '/' {
            if has2 && c2 == '=' {
                Some((Token::OPERATOR(Operator::DIVASSIGN), 2))
            } else if !has2 {
                Some((Token::OPERATOR(Operator::DIVIDE), 1))
            } else {
                None
            }
        } else if first == '&' {
            if has2 && c2 == '&' {
                Some((Token::OPERATOR(Operator::AND), 2))
            } else if !has2 {
                Some((Token::OPERATOR(Operator::BITAND), 1))
            } else {
                None
            }
        } else if first == '|' {
            if has2 && c2 == '|' {
                Some((Token::OPERATOR(Operator::OR), 2))
            } else if !has2 {
                Some((Token::OPERATOR(Operator::BITOR), 1))
            } else {
                None
            }
        } else {
            None
        }
    }

    /// Resolves a fixed token from the significant pair and, when the second
    /// character completes a two-character operator, consumes that second
    /// character too, so the next scan starts after both.
    fn lookahead_token(&mut self, first: Option<char>, second: Option<char>) -> (r: Option<Token>)
        requires
            second is Some ==> old(self).cursor() < usize::MAX,
        ensures
            final(self).src() == old(self).src(),
            match first {
                None => r is None && final(self).cursor() == old(self).cursor(),
                Some(c) => match fixed_token(c, second) {
                    Some(tw) => r matches Some(t) && t@ == tw.0 && final(self).cursor() == old(
                        self,
                    ).cursor() + tw.1 - 1,
                    None => r is None && final(self).cursor() == old(self).cursor(),
                },
            },
    {
        match first {
            None => None,
            Some(c) => match Self::fixed_lookahead(c, second) {
                Some((t, w)) => {
                    if w == 2 {
                        self.pos = self.pos + 1;
                    }
                    Some(t)
                },
                None => None,
            },
        }
    }

    /// Skips whitespace and returns the significant pair: the first
    /// non-whitespace character (absent when the input is exhausted), and the
    /// character right after it, reported as absent when that is whitespace or
    /// the input's end. The cursor is left just past the first character.
    fn get_filtered_chars(&mut self) -> (r: (Option<char>, Option<char>))
        ensures
            final(self).src() == old(self).src(),
            old(self).src().len() <= usize::MAX as int,
            ({
                let src = old(self).src();
                let i = ws_end(src, old(self).cursor());
                if i < src.len() {
                    &&& r.0 == Some(src[i])
                    &&& r.1 == norm_second(src, i + 1)
                    &&& final(self).cursor() == i + 1
                    &&& 1 <= final(self).cursor()
                } else {
                    &&& r.0 is None
                    &&& r.1 is None
                    &&& final(self).cursor() == src.len()
                }
            }),
    {
        let ghost src = self.src();
        let ghost pos0 = self.cursor();
        let n = self.source.unicode_len();
        if self.pos >= n {
            self.pos = n;
            return (None, None);
        }
        loop
            invariant
                self.src() == src,
                n == src.len(),
                self.pos <= n,
                ws_end(src, pos0) == ws_end(src, self.pos as int),
            ensures
                self.src() == src,
                self.pos <= n,
                self.pos as int == ws_end(src, pos0),
            decreases n - self.pos,
        {
            if self.pos == n {
                proof {
                    assert(ws_end(src, self.pos as int) == n);
                }
                break;
            }
            let c = self.source.get_char(self.pos);
            if !Self::is_whitespace(c) {
                proof {
                    assert(ws_end(src, self.pos as int) == self.pos as int);
                }
                break;
            }
            proof {
                assert(ws_end(src, self.pos as int) == ws_end(src, self.pos as int + 1));
            }
            self.pos = self.pos + 1;
        }
        if self.pos == n {
            return (None, None);
        }
        let first = self.source.get_char(self.pos);
        self.pos = self.pos + 1;
        let second = if self.pos < n {
            let c2 = self.source.get_char(self.pos);
            if Self::is_whitespace(c2) {
                None
            } else {
                Some(c2)
            }
        } else {
            None
        };
        (Some(first), second)
    }

    /// Scans a string literal. The cursor stands just after the opening `"`;
    /// the token's text is the exact span up to the next `"` (delimiters
    /// excluded, no escape processing). Without a closing `"` the scan
    /// exhausts the buffer and produces no token.
    fn process_string_literal(&mut self) -> (r: Option<Token>)
        requires
            1 <= old(self).cursor() <= old(self).src().len(),
        ensures
            final(self).src() == old(self).src(),
            ({
                let src = old(self).src();
                let i = old(self).cursor() - 1;
                match find_quote(src, i + 1) {
                    Some(e) => r matches Some(t) && t@ == TokenView::LITERAL(
                        LiteralView::STRING(src.subrange(i + 1, e)),
                    ) && final(self).cursor() == e + 1,
                    None => r is None && final(self).cursor() == src.len(),
                }
            }),
    {
        let ghost src = self.src();
        let n = self.source.unicode_len();
        let start = self.pos;
        let mut j = start;
        loop
            invariant
                self.src() == src,
                n == src.len(),
                start <= j <= n,
                find_quote(src, start as int) == find_quote(src, j as int),
            ensures
                self.src() == src,
                n == src.len(),
                start <= j <= n,
                match find_quote(src, start as int) {
                    Some(e) => j as int == e && j < n,
                    None => j == n,
                },
            decreases n - j,
        {
            if j == n {
                proof {
                    assert(find_quote(src, j as int) is None);
                }
                break;
            }
            let c = self.source.get_char(j);
            if c == '"' {
                proof {
                    assert(find_quote(src, j as int) == Some(j as int));
                }
                break;
            }
            proof {
                assert(find_quote(src, j as int) == find_quote(src, j as int + 1));
            }
            j = j + 1;
        }
        if j == n {
            self.pos = n;
            return None;
        }
        let text = self.source.substring_char(start, j);
        let payload = String::from_str(text);
        self.pos = j + 1;
        Some(Token::LITERAL(Literal::STRING(payload)))
    }

    /// Decides whether position `k` ends an identifier scan: the input's end,
    /// whitespace, or a character that (with its successor) resolves to a
    /// fixed token.
    fn boundary_at(&self, k: usize) -> (r: bool)
        requires
            k as int <= self.src().len(),
        ensures
            r == is_boundary_at(self.src(), k as int),
    {
        let n = self.source.unicode_len();
        if k == n {
            return true;
        }
        let c = self.source.get_char(k);
        if Self::is_whitespace(c) {
            return true;
        }
        let second = if k + 1 < n {
            let c2 = self.source.get_char(k + 1);
            if Self::is_whitespace(c2) {
                None
            } else {
                Some(c2)
            }
        } else {
            None
        };
        Self::fixed_lookahead(c, second).is_some()
    }

    /// Attempts a fixed-width boolean-literal match at the character before
    /// the cursor: an exact `true` or `false` whose end is a boundary, so that
    /// a longer word such as `truex` is left to the identifier scanner. When
    /// the remaining buffer is shorter than the candidate, the match is
    /// skipped.
    fn process_boolean_literal(&mut self) -> (r: Option<Token>)
        requires
            1 <= old(self).cursor() <= old(self).src().len(),
        ensures
            final(self).src() == old(self).src(),
            ({
                let src = old(self).src();
                let i = old(self).cursor() - 1;
                if bool_true_at(src, i) {
                    r matches Some(t) && t@ == TokenView::LITERAL(LiteralView::BOOL(true))
                        && final(self).cursor() == i + 4
                } else if bool_false_at(src, i) {
                    r matches Some(t) && t@ == TokenView::LITERAL(LiteralView::BOOL(false))
                        && final(self).cursor() == i + 5
                } else {
                    r is None && final(self).cursor() == old(self).cursor()
                }
            }),
    {
        let n = self.source.unicode_len();
        let start = self.pos - 1;
        if n - start >= 4 {
            let c0 = self.source.get_char(start);
            let c1 = self.source.get_char(start + 1);
            let c2 = self.source.get_char(start + 2);
            let c3 = self.source.get_char(start + 3);
            if c0 == 't' && c1 == 'r' && c2 == 'u' && c3 == 'e' && self.boundary_at(start + 4) {
                self.pos = start + 4;
                return Some(Token::LITERAL(Literal::BOOL(true)));
            }
        }
        if n - start >= 5 {
            let c0 = self.source.get_char(start);
            let c1 = self.source.get_char(start + 1);
            let c2 = self.source.get_char(start + 2);
            let c3 = self.source.get_char(start + 3);
            let c4 = self.source.get_char(start + 4);
            if c0 == 'f' && c1 == 'a' && c2 == 'l' && c3 == 's' && c4 == 'e' && self.boundary_at(
                start + 5,
            ) {
                self.pos = start + 5;
                return Some(Token::LITERAL(Literal::BOOL(false)));
            }
        }
        None
    }

    /// Looks a scanned word up in the keyword table: an exact match yields the
    /// keyword, anything else is an identifier carrying the word.
    fn keyword_token(w: &str) -> (t: Token)
        ensures
            t@ == word_token(w@),
    {
        let ws = String::from_str(w);
        if ws.eq(&String::from_str("let")) {
            Token::KEYWORD(Keyword::LET)
        } else if ws.eq(&String::from_str("const")) {
            Token::KEYWORD(Keyword::CONST)
        } else if ws.eq(&String::from_str("static")) {
            Token::KEYWORD(Keyword::STATIC)
        } else if ws.eq(&String::from_str("fn")) {
            Token::KEYWORD(Keyword::FN)
        } else if ws.eq(&String::from_str("if")) {
            Token::KEYWORD(Keyword::IF)
        } else if ws.eq(&String::from_str("else")) {
            Token::KEYWORD(Keyword::ELSE)
        } else if ws.eq(&String::from_str("for")) {
            Token::KEYWORD(Keyword::FOR)
        } else if ws.eq(&String::from_str("loop")) {
            Token::KEYWORD(Keyword::LOOP)
        } else if ws.eq(&String::from_str("break")) {
            Token::KEYWORD(Keyword::BREAK)
        } else if ws.eq(&String::from_str("continue")) {
            Token::KEYWORD(Keyword::CONTINUE)
        } else {
            Token::IDENTIFIER(ws)
        }
    }

    /// Scans an identifier (or keyword) whose first character stands just
    /// before the cursor: characters are consumed until whitespace or a
    /// character that itself starts a fixed token, which is excluded; the
    /// input's end also ends the word. The span is then looked up in the
    /// keyword table.
    fn process_identifier(&mut self) -> (r: Option<Token>)
        requires
            1 <= old(self).cursor() <= old(self).src().len(),
        ensures
            final(self).src() == old(self).src(),
            ({
                let src = old(self).src();
                let i = old(self).cursor() - 1;
                let e = ident_end(src, i + 1);
                r matches Some(t) && t@ == word_token(src.subrange(i, e)) && final(self).cursor()
                    == e
            }),
    {
        let ghost src = self.src();
        let n = self.source.unicode_len();
        let start = self.pos - 1;
        let mut j = self.pos;
        loop
            invariant
                self.src() == src,
                n == src.len(),
                start < j <= n,
                ident_end(src, start as int + 1) == ident_end(src, j as int),
            ensures
                self.src() == src,
                n == src.len(),
                start < j <= n,
                j as int == ident_end(src, start as int + 1),
            decreases n - j,
        {
            if j == n {
                proof {
                    assert(ident_end(src, j as int) == j as int);
                }
                break;
            }
            let c = self.source.get_char(j);
            if Self::is_whitespace(c) {
                proof {
                    assert(is_boundary_at(src, j as int));
                    assert(ident_end(src, j as int) == j as int);
                }
                break;
            }
            let second = if j + 1 < n {
                let c2 = self.source.get_char(j + 1);
                if Self::is_whitespace(c2) {
                    None
                } else {
                    Some(c2)
                }
            } else {
                None
            };
            proof {
                assert(second == norm_second(src, j as int + 1));
            }
            if Self::fixed_lookahead(c, second).is_some() {
                proof {
                    assert(is_boundary_at(src, j as int));
                    assert(ident_end(src, j as int) == j as int);
                }
                break;
            }
            proof {
                assert(!is_boundary_at(src, j as int));
                assert(ident_end(src, j as int) == ident_end(src, j as int + 1));
            }
            j = j + 1;
        }
        self.pos = j;
        let word = self.source.substring_char(start, j);
        Some(Self::keyword_token(word))
    }

    /// Computes the base-10 value of the span `[from, to)`, reporting failure
    /// when a character is not a digit or the value does not fit in `usize`.
    fn parse_digits(s: &str, from: usize, to: usize) -> (r: Option<usize>)
        requires
            from <= to,
            to as int <= s@.len(),
        ensures
            ({
                let d = s@.subrange(from as int, to as int);
                match r {
                    Some(v) => all_digits(d) && v as int == digits_val(d) && digits_val(d)
                        <= usize::MAX as int,
                    None => !(all_digits(d) && digits_val(d) <= usize::MAX as int),
                }
            }),
    {
        let ghost d = s@.subrange(from as int, to as int);
        let mut acc: usize = 0;
        let mut m = from;
        loop
            invariant
                from <= m <= to,
                to as int <= s@.len(),
                d == s@.subrange(from as int, to as int),
                forall|q: int| from <= q < m ==> is_digit(#[trigger] s@[q]),
                acc as int == digits_val(s@.subrange(from as int, m as int)),
            ensures
                m == to,
                forall|q: int| from <= q < m ==> is_digit(#[trigger] s@[q]),
                acc as int == digits_val(d),
            decreases to - m,
        {
            if m == to {
                break;
            }
            let c = s.get_char(m);
            if !Self::is_digit_char(c) {
                proof {
                    assert(d[m - from] == s@[m as int]);
                    assert(!all_digits(d));
                }
                return None;
            }
            let dv = (c as u32 - '0' as u32) as usize;
            let ghost pref = s@.subrange(from as int, m as int);
            let ghost pref1 = s@.subrange(from as int, m as int + 1);
            proof {
                assert(dv as int == c as int - '0' as int);
                assert(pref1.drop_last() =~= pref);
                assert(pref1.last() == s@[m as int]);
                assert(digits_val(pref1) == digits_val(pref) * 10 + (c as int - '0' as int));
            }
            if acc > (usize::MAX - dv) / 10 {
                proof {
                    let mx = usize::MAX as int;
                    assert(acc as int * 10 + dv as int > mx) by {
                        assert(mx - dv == 10 * ((mx - dv) / 10) + (mx - dv) % 10);
                        assert(0 <= (mx - dv) % 10 < 10);
                    }
                    assert(digits_val(pref1) > mx);
                    if all_digits(d) {
                        assert(pref1 =~= d.take(m + 1 - from));
                        lemma_digits_val_prefix(d, m + 1 - from);
                    }
                }
                return None;
            }
            proof {
                let mx = usize::MAX as int;
                assert(acc as int * 10 + dv as int <= mx) by {
                    assert(mx - dv == 10 * ((mx - dv) / 10) + (mx - dv) % 10);
                    assert(0 <= (mx - dv) % 10 < 10);
                }
            }
            acc = acc * 10 + dv;
            m = m + 1;
        }
        proof {
            assert forall|x: int| 0 <= x < d.len() implies is_digit(#[trigger] d[x]) by {
                assert(d[x] == s@[from + x]);
            }
        }
        Some(acc)
    }

    /// Parses the span `[from, to)` as an unsigned literal's value text:
    /// after an optional `+`, one or more digits whose value fits in `usize`.
    fn parse_unsigned(s: &str, from: usize, to: usize) -> (r: Option<usize>)
        requires
            from <= to,
            to as int <= s@.len(),
        ensures
            ({
                let t = s@.subrange(from as int, to as int);
                match r {
                    Some(v) => valid_unsigned_text(t) && v as int == unsigned_text_val(t)
                        && unsigned_text_val(t) <= usize::MAX as int,
                    None => !(valid_unsigned_text(t) && unsigned_text_val(t) <= usize::MAX as int),
                }
            }),
    {
        let ghost t = s@.subrange(from as int, to as int);
        let mut k = from;
        if from < to {
            let c0 = s.get_char(from);
            if c0 == '+' {
                k = from + 1;
            }
        }
        let ghost ud = unsigned_digits(t);
        proof {
            assert(ud =~= s@.subrange(k as int, to as int));
        }
        if k == to {
            return None;
        }
        Self::parse_digits(s, k, to)
    }

    /// Parses the span `[from, to)` as a signed literal's value text: after an
    /// optional `+` or `-`, one or more digits whose signed value fits in
    /// `isize`.
    fn parse_signed(s: &str, from: usize, to: usize) -> (r: Option<isize>)
        requires
            from <= to,
            to as int <= s@.len(),
        ensures
            ({
                let t = s@.subrange(from as int, to as int);
                match r {
                    Some(v) => valid_signed_text(t) && v as int == signed_text_val(t)
                        && isize::MIN as int <= signed_text_val(t) && signed_text_val(t)
                        <= isize::MAX as int,
                    None => !(valid_signed_text(t) && isize::MIN as int <= signed_text_val(t)
                        && signed_text_val(t) <= isize::MAX as int),
                }
            }),
    {
        let ghost t = s@.subrange(from as int, to as int);
        let mut k = from;
        let mut neg = false;
        if from < to {
            let c0 = s.get_char(from);
            if c0 == '+' {
                k = from + 1;
            } else if c0 == '-' {
                k = from + 1;
                neg = true;
            }
        }
        let ghost sd = signed_digits(t);
        proof {
            assert(sd =~= s@.subrange(k as int, to as int));
        }
        if k == to {
            return None;
        }
        let mag = match Self::parse_digits(s, k, to) {
            Some(v) => v,
            None => {
                proof {
                    if all_digits(sd) {
                        lemma_digits_val_nonneg(sd);
                    }
                }
                return None;
            },
        };
        let lim = isize::MAX as usize;
        if neg {
            if mag <= lim {
                Some(-(mag as isize))
            } else if mag - 1 == lim {
                Some(isize::MIN)
            } else {
                None
            }
        } else {
            if mag <= lim {
                Some(mag as isize)
            } else {
                None
            }
        }
    }

    /// Checks the span `[from, to)` as a float literal's value text: after an
    /// optional sign, digits with at most one decimal point among them and at
    /// least one digit.
    fn check_float(s: &str, from: usize, to: usize) -> (r: bool)
        requires
            from <= to,
            to as int <= s@.len(),
        ensures
            r == valid_float_text(s@.subrange(from as int, to as int)),
    {
        let ghost t = s@.subrange(from as int, to as int);
        let mut k = from;
        if from < to {
            let c0 = s.get_char(from);
            if c0 == '+' || c0 == '-' {
                k = from + 1;
            }
        }
        let ghost fd = signed_digits(t);
        proof {
            assert(fd =~= s@.subrange(k as int, to as int));
        }
        let mut m = k;
        let mut seen_dot = false;
        let mut seen_digit = false;
        loop
            invariant
                from <= k <= m <= to,
                to as int <= s@.len(),
                t == s@.subrange(from as int, to as int),
                fd == s@.subrange(k as int, to as int),
                fd == signed_digits(t),
                forall|q: int| k <= q < m ==> is_digit(#[trigger] s@[q]) || s@[q] == '.',
                seen_digit == exists|q: int| k <= q < m && is_digit(#[trigger] s@[q]),
                seen_dot == exists|q: int| k <= q < m && #[trigger] s@[q] == '.',
                forall|q1: int, q2: int|
                    k <= q1 < m && k <= q2 < m && #[trigger] s@[q1] == '.' && #[trigger] s@[q2]
                        == '.' ==> q1 == q2,
            ensures
                m == to,
                forall|q: int| k <= q < m ==> is_digit(#[trigger] s@[q]) || s@[q] == '.',
                seen_digit == exists|q: int| k <= q < m && is_digit(#[trigger] s@[q]),
                forall|q1: int, q2: int|
                    k <= q1 < m && k <= q2 < m && #[trigger] s@[q1] == '.' && #[trigger] s@[q2]
                        == '.' ==> q1 == q2,
            decreases to - m,
        {
            if m == to {
                break;
            }
            let c = s.get_char(m);
            if Self::is_digit_char(c) {
                seen_digit = true;
            } else if c == '.' {
                if seen_dot {
                    proof {
                        let q = choose|q: int| k <= q < m && #[trigger] s@[q] == '.';
                        assert(fd[q - k] == s@[q]);
                        assert(fd[m - k] == s@[m as int]);
                        assert(!valid_float_text(t));
                    }
                    return false;
                }
                seen_dot = true;
            } else {
                proof {
                    assert(fd[m - k] == s@[m as int]);
                    assert(!valid_float_text(t));
                }
                return false;
            }
            m = m + 1;
        }
        proof {
            if seen_digit {
                let q = choose|q: int| k <= q < to && is_digit(#[trigger] s@[q]);
                assert(fd[q - k] == s@[q]);
                assert forall|x: int| 0 <= x < fd.len() implies is_digit(#[trigger] fd[x]) || fd[x]
                    == '.' by {
                    assert(fd[x] == s@[k + x]);
                }
                assert forall|x1: int, x2: int|
                    0 <= x1 < fd.len() && 0 <= x2 < fd.len() && #[trigger] fd[x1] == '.'
                        && #[trigger] fd[x2] == '.' implies x1 == x2 by {
                    assert(fd[x1] == s@[k + x1]);
                    assert(fd[x2] == s@[k + x2]);
                }
                assert(valid_float_text(t));
            } else {
                if valid_float_text(t) {
                    let x = choose|x: int| 0 <= x < fd.len() && is_digit(#[trigger] fd[x]);
                    assert(fd[x] == s@[k + x]);
                }
            }
        }
        seen_digit
    }

    /// Scans a numeric literal whose first character stands just before the
    /// cursor: the span runs to the first suffix marker, which selects the
    /// literal kind and is consumed without joining the value text. A span
    /// that does not parse into the selected kind is a per-call failure that
    /// still moves the cursor past the suffix; a span never closed by a suffix
    /// marker exhausts the buffer and produces no token.
    fn process_numeric_literal(&mut self) -> (r: Result<Option<Token>, LexError>)
        requires
            1 <= old(self).cursor() <= old(self).src().len(),
        ensures
            final(self).src() == old(self).src(),
            ({
                let src = old(self).src();
                let i = old(self).cursor() - 1;
                match find_suffix_marker(src, i + 1) {
                    Some(j) => match numeric_step(src.subrange(i, j), src[j], j + 1) {
                        ScanStep::Token(tv, end) => r matches Ok(Some(t)) && t@ == tv
                            && final(self).cursor() == end,
                        ScanStep::Fail(err, end) => r matches Err(e) && e == err
                            && final(self).cursor() == end,
                        ScanStep::End(_) => false,
                    },
                    None => r matches Ok(None) && final(self).cursor() == src.len(),
                }
            }),
    {
        let ghost src = self.src();
        let n = self.source.unicode_len();
        let start = self.pos - 1;
        let mut j = self.pos;
        loop
            invariant
                self.src() == src,
                n == src.len(),
                start < j <= n,
                find_suffix_marker(src, start as int + 1) == find_suffix_marker(src, j as int),
            ensures
                self.src() == src,
                n == src.len(),
                start < j <= n,
                match find_suffix_marker(src, start as int + 1) {
                    Some(jj) => j as int == jj && j < n && is_suffix_marker(src[j as int]),
                    None => j == n,
                },
            decreases n - j,
        {
            if j == n {
                proof {
                    assert(find_suffix_marker(src, j as int) is None);
                }
                break;
            }
            let c = self.source.get_char(j);
            if Self::is_suffix(c) {
                proof {
                    assert(find_suffix_marker(src, j as int) == Some(j as int));
                }
                break;
            }
            proof {
                assert(find_suffix_marker(src, j as int) == find_suffix_marker(src, j as int + 1));
            }
            j = j + 1;
        }
        if j == n {
            self.pos = n;
            return Ok(None);
        }
        let suffix = self.source.get_char(j);
        if suffix == 'u' {
            match Self::parse_unsigned(self.source, start, j) {
                Some(v) => {
                    self.pos = j + 1;
                    Ok(Some(Token::LITERAL(Literal::USIGNEDINT(v))))
                },
                None => {
                    self.pos = j + 1;
                    Err(LexError::MALFORMEDUNSIGNED)
                },
            }
        } else if suffix == 'i' {
            match Self::parse_signed(self.source, start, j) {
                Some(v) => {
                    self.pos = j + 1;
                    Ok(Some(Token::LITERAL(Literal::SIGNEDINT(v))))
                },
                None => {
                    self.pos = j + 1;
                    Err(LexError::MALFORMEDSIGNED)
                },
            }
        } else {
            if Self::check_float(self.source, start, j) {
                let text = String::from_str(self.source.substring_char(start, j));
                self.pos = j + 1;
                Ok(Some(Token::LITERAL(Literal::FLOAT(text))))
            } else {
                self.pos = j + 1;
                Err(LexError::MALFORMEDFLOAT)
            }
        }
    }

    /// Produces the next token, exactly as [`next_spec`] says: `Ok(Some(_))`
    /// is a token with the cursor advanced past its span, `Ok(None)` means the
    /// input is exhausted (possibly inside a truncated literal), and `Err(_)`
    /// reports a malformed numeric literal with the cursor moved past its
    /// suffix marker, so later calls continue cleanly after it.
    pub fn next_token(&mut self) -> (r: Result<Option<Token>, LexError>)
        ensures
            final(self).src() == old(self).src(),
            match next_spec(old(self).src(), old(self).cursor()) {
                ScanStep::Token(tv, end) => r matches Ok(Some(t)) && t@ == tv
                    && final(self).cursor() == end,
                ScanStep::End(end) => r matches Ok(None) && final(self).cursor() == end,
                ScanStep::Fail(err, end) => r matches Err(e) && e == err && final(self).cursor()
                    == end,
            },
    {
        let ghost src = self.src();
        let ghost pos0 = self.cursor();
        let (first, second) = self.get_filtered_chars();
        let token = self.lookahead_token(first, second);
        if token.is_some() {
            return Ok(token);
        }
        match first {
            None => Ok(None),
            Some(c) => {
                if c == '"' {
                    Ok(self.process_string_literal())
                } else if Self::is_numeric(c) {
                    self.process_numeric_literal()
                } else {
                    let maybe_bool = self.process_boolean_literal();
                    if maybe_bool.is_some() {
                        return Ok(maybe_bool);
                    }
                    Ok(self.process_identifier())
                }
            },
        }
    }
}

} // verus!
