//! General laws of the scanner, proved once over the model in [`crate::scan`].
//!
//! Each law is a public proof function; through `Lexer::next_token`'s
//! contract, which ties every call to `next_spec`, the laws carry over to the
//! executable scanner.

use vstd::prelude::*;

use crate::scan::{
    bool_false_at, bool_true_at, find_quote, find_suffix_marker, fixed_token, ident_end,
    is_boundary_at, is_numeric_char, is_suffix_marker, is_ws, keyword_of, next_spec, norm_second,
    numeric_step, signed_text_val, unsigned_text_val, valid_float_text, valid_signed_text,
    valid_unsigned_text, word_token, ws_end, ScanStep,
};
use crate::tokens::{LexError, LiteralView, TokenView};

verus! {

/// Whitespace skipping never leaves `[pos, len]`, skips whitespace only, and
/// stops at the first significant character.
pub proof fn lemma_ws_end(src: Seq<char>, pos: int)
    requires
        0 <= pos,
    ensures
        ws_end(src, pos) <= src.len(),
        pos <= src.len() ==> pos <= ws_end(src, pos),
        forall|q: int| pos <= q < ws_end(src, pos) ==> is_ws(#[trigger] src[q]),
        ws_end(src, pos) < src.len() ==> !is_ws(src[ws_end(src, pos)]),
    decreases src.len() - pos,
{
    if pos < src.len() && is_ws(src[pos]) {
        lemma_ws_end(src, pos + 1);
    }
}

/// The quote search returns the first closing quote, or reports that none is
/// left.
pub proof fn lemma_find_quote(src: Seq<char>, pos: int)
    requires
        0 <= pos,
    ensures
        match find_quote(src, pos) {
            Some(e) => pos <= e < src.len() && src[e] == '"' && forall|q: int|
                pos <= q < e ==> #[trigger] src[q] != '"',
            None => forall|q: int| pos <= q < src.len() ==> #[trigger] src[q] != '"',
        },
    decreases src.len() - pos,
{
    if pos < src.len() && src[pos] != '"' {
        lemma_find_quote(src, pos + 1);
    }
}

/// The suffix search returns the first suffix marker, or reports that none is
/// left.
pub proof fn lemma_find_suffix_marker(src: Seq<char>, pos: int)
    requires
        0 <= pos,
    ensures
        match find_suffix_marker(src, pos) {
            Some(e) => pos <= e < src.len() && is_suffix_marker(src[e]) && forall|q: int|
                pos <= q < e ==> !is_suffix_marker(#[trigger] src[q]),
            None => forall|q: int| pos <= q < src.len() ==> !is_suffix_marker(#[trigger] src[q]),
        },
    decreases src.len() - pos,
{
    if pos < src.len() && !is_suffix_marker(src[pos]) {
        lemma_find_suffix_marker(src, pos + 1);
    }
}

/// An identifier scan that has reached `j` ends at the first boundary at or
/// after `j`, and crosses no boundary on the way.
pub proof fn lemma_ident_end(src: Seq<char>, j: int)
    requires
        0 <= j,
    ensures
        ident_end(src, j) <= src.len(),
        j <= src.len() ==> j <= ident_end(src, j),
        forall|q: int| j <= q < ident_end(src, j) ==> !is_boundary_at(src, q),
        ident_end(src, j) < src.len() ==> is_boundary_at(src, ident_end(src, j)),
    decreases src.len() - j,
{
    if j < src.len() && !is_boundary_at(src, j) {
        lemma_ident_end(src, j + 1);
    }
}

/// For all whitespace-only input, the first "produce next token" call yields
/// no token: it reports the end of the stream.
pub proof fn lemma_whitespace_only_yields_no_token(src: Seq<char>)
    requires
        forall|q: int| 0 <= q < src.len() ==> is_ws(#[trigger] src[q]),
    ensures
        next_spec(src, 0) == ScanStep::End(src.len() as int),
{
    lemma_ws_end(src, 0);
}

/// How a produced token corresponds to its source span `[start, end)`: the
/// span's characters determine the token exactly, and every payload is the
/// span itself up to the delimiters or suffix marker that enclose it. The
/// `COMMENT` case is `false`: the scanner never produces a comment.
pub open spec fn token_covers(src: Seq<char>, start: int, end: int, t: TokenView) -> bool {
    match t {
        TokenView::SEPARATOR(sp) => fixed_token(src[start], norm_second(src, start + 1)) == Some(
            (TokenView::SEPARATOR(sp), end - start),
        ),
        TokenView::OPERATOR(op) => fixed_token(src[start], norm_second(src, start + 1)) == Some(
            (TokenView::OPERATOR(op), end - start),
        ),
        TokenView::KEYWORD(k) => keyword_of(src.subrange(start, end)) == Some(k),
        TokenView::IDENTIFIER(w) => w == src.subrange(start, end) && keyword_of(w) is None,
        TokenView::LITERAL(l) => match l {
            LiteralView::STRING(w) => start + 2 <= end && src[start] == '"' && src[end - 1] == '"'
                && w == src.subrange(start + 1, end - 1),
            LiteralView::BOOL(b) => if b {
                end == start + 4 && bool_true_at(src, start)
            } else {
                end == start + 5 && bool_false_at(src, start)
            },
            LiteralView::USIGNEDINT(v) => start < end - 1 && src[end - 1] == 'u'
                && valid_unsigned_text(src.subrange(start, end - 1)) && v == unsigned_text_val(
                src.subrange(start, end - 1),
            ),
            LiteralView::SIGNEDINT(v) => start < end - 1 && src[end - 1] == 'i'
                && valid_signed_text(src.subrange(start, end - 1)) && v == signed_text_val(
                src.subrange(start, end - 1),
            ),
            LiteralView::FLOAT(w) => start < end - 1 && src[end - 1] == 'f' && w == src.subrange(
                start,
                end - 1,
            ) && valid_float_text(w),
        },
        TokenView::COMMENT(_) => false,
    }
}

/// Produced tokens tile the source. Each call consumes exactly the region from
/// the old cursor to the new one: skipped whitespace followed by the token's
/// own non-empty span, in left-to-right order. Concatenating those regions
/// over successive calls therefore reconstructs the source exactly — no
/// characters are invented or dropped outside of literal delimiters.
pub proof fn lemma_token_spans_tile(src: Seq<char>, pos: int)
    requires
        0 <= pos <= src.len(),
    ensures
        match next_spec(src, pos) {
            ScanStep::Token(t, end) => {
                let start = ws_end(src, pos);
                &&& pos <= start < end <= src.len()
                &&& forall|q: int| pos <= q < start ==> is_ws(#[trigger] src[q])
                &&& token_covers(src, start, end, t)
            },
            ScanStep::End(end) => end == src.len(),
            ScanStep::Fail(err, end) => {
                let start = ws_end(src, pos);
                &&& pos <= start < end <= src.len()
                &&& forall|q: int| pos <= q < start ==> is_ws(#[trigger] src[q])
            },
        },
{
    lemma_ws_end(src, pos);
    let i = ws_end(src, pos);
    if i < src.len() {
        let c = src[i];
        let second = norm_second(src, i + 1);
        match fixed_token(c, second) {
            Some(tw) => {
                assert(tw.1 == 2 ==> second is Some);
                assert(tw.1 == 1 || tw.1 == 2);
            },
            None => {
                if c == '"' {
                    lemma_find_quote(src, i + 1);
                } else if is_numeric_char(c) {
                    lemma_find_suffix_marker(src, i + 1);
                    match find_suffix_marker(src, i + 1) {
                        Some(j) => {
                            assert(src.subrange(i, j + 1 - 1) == src.subrange(i, j));
                        },
                        None => {},
                    }
                } else if bool_true_at(src, i) {
                } else if bool_false_at(src, i) {
                } else {
                    lemma_ident_end(src, i + 1);
                }
            },
        }
    }
}

/// The cursor position where a full scan from `pos` stops producing tokens:
/// the cursor just after the last produced token, before the end-of-stream or
/// malformed-literal report.
pub open spec fn scan_stop(src: Seq<char>, pos: int) -> int
    decreases src.len() - pos
        when 0 <= pos <= src.len()
        via scan_stop_decreases
{
    match next_spec(src, pos) {
        ScanStep::Token(t, end) => scan_stop(src, end),
        ScanStep::End(_) => pos,
        ScanStep::Fail(_, _) => pos,
    }
}

#[via_fn]
proof fn scan_stop_decreases(src: Seq<char>, pos: int) {
    lemma_token_spans_tile(src, pos);
}

/// The tokens a full scan from `pos` produces, in order.
pub open spec fn scan_tokens(src: Seq<char>, pos: int) -> Seq<TokenView>
    decreases src.len() - pos
        when 0 <= pos <= src.len()
        via scan_tokens_decreases
{
    match next_spec(src, pos) {
        ScanStep::Token(t, end) => seq![t] + scan_tokens(src, end),
        ScanStep::End(_) => Seq::empty(),
        ScanStep::Fail(_, _) => Seq::empty(),
    }
}

#[via_fn]
proof fn scan_tokens_decreases(src: Seq<char>, pos: int) {
    lemma_token_spans_tile(src, pos);
}

/// The source region each call consumes, one region per produced token, in
/// order: the token's own span together with the whitespace skipped before it.
pub open spec fn scan_regions(src: Seq<char>, pos: int) -> Seq<Seq<char>>
    decreases src.len() - pos
        when 0 <= pos <= src.len()
        via scan_regions_decreases
{
    match next_spec(src, pos) {
        ScanStep::Token(t, end) => seq![src.subrange(pos, end)] + scan_regions(src, end),
        ScanStep::End(_) => Seq::empty(),
        ScanStep::Fail(_, _) => Seq::empty(),
    }
}

#[via_fn]
proof fn scan_regions_decreases(src: Seq<char>, pos: int) {
    lemma_token_spans_tile(src, pos);
}

/// For all inputs, concatenating the source regions of the successive produced
/// tokens — each token's span together with the whitespace skipped before it —
/// reconstructs the source exactly, from the scan's start to the cursor after
/// the last token: nothing is invented, dropped or reordered. Beyond that
/// cursor lies only a region that produces no token (trailing whitespace, a
/// truncated literal, or a malformed one).
pub proof fn lemma_concatenated_spans_reconstruct_source(src: Seq<char>, pos: int)
    requires
        0 <= pos <= src.len(),
    ensures
        pos <= scan_stop(src, pos) <= src.len(),
        scan_regions(src, pos).flatten() == src.subrange(pos, scan_stop(src, pos)),
        scan_regions(src, pos).len() == scan_tokens(src, pos).len(),
    decreases src.len() - pos,
{
    match next_spec(src, pos) {
        ScanStep::Token(t, end) => {
            lemma_token_spans_tile(src, pos);
            lemma_concatenated_spans_reconstruct_source(src, end);
            let head = src.subrange(pos, end);
            let rest = scan_regions(src, end);
            assert((seq![head] + rest).drop_first() =~= rest);
            assert((seq![head] + rest).first() == head);
            assert(scan_regions(src, pos).flatten() == head + rest.flatten());
            assert(head + src.subrange(end, scan_stop(src, end)) =~= src.subrange(
                pos,
                scan_stop(src, end),
            ));
        },
        _ => {
            assert(scan_regions(src, pos) =~= Seq::<Seq<char>>::empty());
            assert(scan_regions(src, pos).flatten() =~= Seq::<char>::empty());
            assert(src.subrange(pos, pos) =~= Seq::<char>::empty());
        },
    }
}

/// Two-character operators are never split: when the significant pair at the
/// scan position resolves to a width-two fixed token, the call produces
/// exactly that one token and consumes both characters.
pub proof fn lemma_two_char_operator_not_split(src: Seq<char>, pos: int, t: TokenView)
    requires
        0 <= pos <= src.len(),
        ({
            let i = ws_end(src, pos);
            i < src.len() && fixed_token(src[i], norm_second(src, i + 1)) == Some((t, 2int))
        }),
    ensures
        next_spec(src, pos) == ScanStep::Token(t, ws_end(src, pos) + 2),
{
}

/// The suffix marker alone selects a numeric literal's kind: `u` yields an
/// unsigned integer, `i` a signed integer, `f` a float — or the matching
/// malformed-literal error — and the scan always continues just past the
/// marker.
pub proof fn lemma_suffix_selects_kind(src: Seq<char>, pos: int, j: int)
    requires
        0 <= pos <= src.len(),
        ({
            let i = ws_end(src, pos);
            &&& i < src.len()
            &&& fixed_token(src[i], norm_second(src, i + 1)) is None
            &&& src[i] != '"'
            &&& is_numeric_char(src[i])
            &&& find_suffix_marker(src, i + 1) == Some(j)
        }),
    ensures
        match next_spec(src, pos) {
            ScanStep::Token(t, end) => {
                &&& end == j + 1
                &&& (src[j] == 'u' ==> t matches TokenView::LITERAL(LiteralView::USIGNEDINT(_)))
                &&& (src[j] == 'i' ==> t matches TokenView::LITERAL(LiteralView::SIGNEDINT(_)))
                &&& (src[j] == 'f' ==> t matches TokenView::LITERAL(LiteralView::FLOAT(_)))
            },
            ScanStep::Fail(err, end) => {
                &&& end == j + 1
                &&& (src[j] == 'u' ==> err == LexError::MALFORMEDUNSIGNED)
                &&& (src[j] == 'i' ==> err == LexError::MALFORMEDSIGNED)
                &&& (src[j] == 'f' ==> err == LexError::MALFORMEDFLOAT)
            },
            ScanStep::End(_) => false,
        },
{
}

/// The keyword table is closed and exact: a scanned word is a keyword when it
/// equals one of the ten reserved words exactly; any other word — a strict
/// prefix such as `le` or an extension such as `lets` included — stays an
/// identifier.
pub proof fn lemma_keyword_table_closed(w: Seq<char>)
    ensures
        (keyword_of(w) is Some) <==> (w == "let"@ || w == "const"@ || w == "static"@ || w == "fn"@
            || w == "if"@ || w == "else"@ || w == "for"@ || w == "loop"@ || w == "break"@ || w
            == "continue"@),
        keyword_of(w) is None ==> word_token(w) == TokenView::IDENTIFIER(w),
{
}

/// Boolean literals are greedy and exact: whenever a call yields a `BOOL`
/// token, the span is exactly `true` or `false` and the position after it is a
/// boundary — the input's end, whitespace, or the start of a fixed token — so
/// a longer word such as `truex` is never split into a boolean and a rest.
pub proof fn lemma_bool_literal_checks_boundary(src: Seq<char>, pos: int, b: bool, end: int)
    requires
        0 <= pos <= src.len(),
        next_spec(src, pos) == ScanStep::Token(TokenView::LITERAL(LiteralView::BOOL(b)), end),
    ensures
        is_boundary_at(src, end),
        b ==> bool_true_at(src, ws_end(src, pos)) && end == ws_end(src, pos) + 4,
        !b ==> bool_false_at(src, ws_end(src, pos)) && end == ws_end(src, pos) + 5,
{
    lemma_ws_end(src, pos);
    let i = ws_end(src, pos);
    assert(i < src.len());
    let c = src[i];
    let second = norm_second(src, i + 1);
    match fixed_token(c, second) {
        Some(tw) => {
            assert(false);
        },
        None => {
            if c == '"' {
            } else if is_numeric_char(c) {
                match find_suffix_marker(src, i + 1) {
                    Some(j) => {
                        assert(numeric_step(src.subrange(i, j), src[j], j + 1) matches
                            ScanStep::Token(t, _) ==> !(t matches TokenView::LITERAL(
                            LiteralView::BOOL(_),
                        )));
                    },
                    None => {},
                }
            }
        },
    }
}

/// An unterminated string produces no token: with an opening quote at the scan
/// position and no closing quote anywhere after it, the call reports the end
/// of the input rather than a partial literal.
pub proof fn lemma_unterminated_string_yields_no_token(src: Seq<char>, pos: int)
    requires
        0 <= pos <= src.len(),
        ({
            let i = ws_end(src, pos);
            &&& i < src.len()
            &&& src[i] == '"'
            &&& forall|q: int| i + 1 <= q < src.len() ==> #[trigger] src[q] != '"'
        }),
    ensures
        next_spec(src, pos) == ScanStep::End(src.len() as int),
{
    lemma_ws_end(src, pos);
    let i = ws_end(src, pos);
    lemma_find_quote(src, i + 1);
    match find_quote(src, i + 1) {
        Some(e) => {
            assert(false);
        },
        None => {},
    }
}

} // verus!
