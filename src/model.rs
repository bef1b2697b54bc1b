//! The scanner as mathematics: what one classification step does at a
//! position, and the tokens and error a whole run produces.
use vstd::prelude::*;
use crate::text::{alpha, alphanum, digit, matches_at, space};
use crate::token::{ScanError, TokenRec, TokenView};

verus! {

/// A language configuration: ordered keyword and symbol lists and the
/// optional comment markers.
pub struct CfgView {
    pub keywords: Seq<Seq<char>>,
    pub symbols: Seq<Seq<char>>,
    pub single: Option<Seq<char>>,
    pub multi_start: Option<Seq<char>>,
    pub multi_end: Option<Seq<char>>,
}

/// What one classification step at a position does.
pub enum Step {
    /// End of input: the run stops.
    Eof,
    /// White space or a newline is skipped up to `end`.
    Skip { end: int },
    /// A token spanning up to `end` is emitted.
    Emit { kind: TokenView, end: int },
    /// The run fails with `err` after recording `rec`.
    Fail { rec: TokenRec, err: ScanError },
}

/// The index of the first non-empty pattern, from `i` on, that matches at
/// `pos`. Empty entries are passed over: they would match without consuming
/// anything.
pub open spec fn first_symbol(src: Seq<char>, pos: int, pats: Seq<Seq<char>>, i: int) -> Option<
    int,
>
    decreases pats.len() - i,
{
    if i >= pats.len() || i < 0 {
        None
    } else if pats[i].len() > 0 && matches_at(src, pos, pats[i]) {
        Some(i)
    } else {
        first_symbol(src, pos, pats, i + 1)
    }
}

/// Keyword `k` occurs at `pos` and is not followed by an identifier character.
pub open spec fn keyword_at(src: Seq<char>, pos: int, k: Seq<char>) -> bool {
    matches_at(src, pos, k) && (pos + k.len() >= src.len() || !alphanum(src[pos + k.len()]))
}

/// The index of the first non-empty keyword, from `i` on, that stands at
/// `pos`.
pub open spec fn first_keyword(src: Seq<char>, pos: int, kws: Seq<Seq<char>>, i: int) -> Option<
    int,
>
    decreases kws.len() - i,
{
    if i >= kws.len() || i < 0 {
        None
    } else if kws[i].len() > 0 && keyword_at(src, pos, kws[i]) {
        Some(i)
    } else {
        first_keyword(src, pos, kws, i + 1)
    }
}

pub proof fn lemma_first_symbol(src: Seq<char>, pos: int, pats: Seq<Seq<char>>, i: int)
    ensures
        first_symbol(src, pos, pats, i) is Some ==> {
            let j = first_symbol(src, pos, pats, i)->0;
            0 <= j < pats.len() && pats[j].len() > 0 && matches_at(src, pos, pats[j])
        },
    decreases pats.len() - i,
{
    if 0 <= i < pats.len() && !(pats[i].len() > 0 && matches_at(src, pos, pats[i])) {
        lemma_first_symbol(src, pos, pats, i + 1);
    }
}

pub proof fn lemma_first_keyword(src: Seq<char>, pos: int, kws: Seq<Seq<char>>, i: int)
    ensures
        first_keyword(src, pos, kws, i) is Some ==> {
            let j = first_keyword(src, pos, kws, i)->0;
            0 <= j < kws.len() && kws[j].len() > 0 && keyword_at(src, pos, kws[j])
        },
    decreases kws.len() - i,
{
    if 0 <= i < kws.len() && !(kws[i].len() > 0 && keyword_at(src, pos, kws[i])) {
        lemma_first_keyword(src, pos, kws, i + 1);
    }
}

/// The end of the run of characters satisfying `f` that starts at `p`.
pub open spec fn span_while(src: Seq<char>, p: int, f: spec_fn(char) -> bool) -> int
    decreases src.len() - p,
{
    if 0 <= p < src.len() && f(src[p]) {
        span_while(src, p + 1, f)
    } else {
        p
    }
}

pub open spec fn ident_end(src: Seq<char>, p: int) -> int {
    span_while(src, p, |c: char| alphanum(c))
}

pub open spec fn space_end(src: Seq<char>, p: int) -> int {
    span_while(src, p, |c: char| space(c))
}

pub open spec fn digits_end(src: Seq<char>, p: int) -> int {
    span_while(src, p, |c: char| digit(c))
}

pub open spec fn hex_digit(c: char) -> bool {
    digit(c) || ('a' <= c && c <= 'f') || ('A' <= c && c <= 'F')
}

pub open spec fn hex_end(src: Seq<char>, p: int) -> int {
    span_while(src, p, |c: char| hex_digit(c))
}

pub open spec fn bin_digit(c: char) -> bool {
    c == '0' || c == '1'
}

pub open spec fn bin_end(src: Seq<char>, p: int) -> int {
    span_while(src, p, |c: char| bin_digit(c))
}

/// The position of the first newline from `p` on, or the end of input.
pub open spec fn line_end(src: Seq<char>, p: int) -> int {
    span_while(src, p, |c: char| c != '\n')
}

/// The value of a hexadecimal (hence also decimal or binary) digit.
pub open spec fn digit_value(c: char) -> u8 {
    if digit(c) {
        (c as u32 - '0' as u32) as u8
    } else if 'a' <= c && c <= 'f' {
        (c as u32 - 'a' as u32 + 10) as u8
    } else {
        (c as u32 - 'A' as u32 + 10) as u8
    }
}

pub open spec fn digit_values(s: Seq<char>) -> Seq<u8> {
    s.map_values(|c: char| digit_value(c))
}

/// A number literal starting with a digit at `pos`: the token and its end.
pub open spec fn number_token(src: Seq<char>, pos: int) -> (TokenView, int) {
    if src[pos] == '0' && pos + 2 < src.len() && (src[pos + 1] == 'x' || src[pos + 1] == 'X') {
        let end = hex_end(src, pos + 2);
        let ds = src.subrange(pos + 2, end);
        (TokenView::NumberLiteral(seq!['0', 'x'] + ds, 16, digit_values(ds), 0), end)
    } else if src[pos] == '0' && pos + 2 < src.len() && (src[pos + 1] == 'b' || src[pos + 1]
        == 'B') {
        let end = bin_end(src, pos + 2);
        let ds = src.subrange(pos + 2, end);
        (TokenView::NumberLiteral(seq!['0', 'b'] + ds, 2, digit_values(ds), 0), end)
    } else {
        let int_end = digits_end(src, pos);
        if int_end + 1 < src.len() && src[int_end] == '.' && digit(src[int_end + 1]) {
            let end = digits_end(src, int_end + 1);
            let ds = src.subrange(pos, int_end) + src.subrange(int_end + 1, end);
            (
                TokenView::NumberLiteral(
                    src.subrange(pos, end),
                    10,
                    digit_values(ds),
                    end - int_end - 1,
                ),
                end,
            )
        } else {
            (
                TokenView::NumberLiteral(
                    src.subrange(pos, int_end),
                    10,
                    digit_values(src.subrange(pos, int_end)),
                    0,
                ),
                int_end,
            )
        }
    }
}

/// The body of a string literal from `p` on: whether a closing quote was
/// found, the position after it (or the end of input), and the unescaped
/// content.
pub open spec fn string_body(src: Seq<char>, p: int, escape: bool, content: Seq<char>) -> (
    bool,
    int,
    Seq<char>,
)
    decreases src.len() - p,
{
    if p < 0 || p >= src.len() {
        (false, p, content)
    } else {
        let c = src[p];
        if c == '\\' && !escape {
            string_body(src, p + 1, true, content)
        } else if c == '"' && !escape {
            (true, p + 1, content)
        } else if c == 'n' && escape {
            string_body(src, p + 1, false, content.push('\n'))
        } else if c == 't' && escape {
            string_body(src, p + 1, false, content.push('\t'))
        } else {
            string_body(src, p + 1, false, content.push(c))
        }
    }
}

/// The body of a multi-line comment from `p` on, at nesting `level`:
/// whether the matching end marker was found, and the position after it (or
/// the end of input). Markers inside a double-quoted string are not counted;
/// a backslash escapes the next quote. An empty marker is never counted.
pub open spec fn comment_body(
    src: Seq<char>,
    p: int,
    ms: Seq<char>,
    me: Seq<char>,
    level: int,
    in_string: bool,
    escape: bool,
) -> (bool, int)
    decreases src.len() - p,
{
    if p < 0 || p >= src.len() {
        (false, p)
    } else {
        let c = src[p];
        if c == '\n' {
            comment_body(src, p + 1, ms, me, level, in_string, escape)
        } else if c == '\\' && !escape {
            comment_body(src, p + 1, ms, me, level, in_string, true)
        } else if c == '"' && !escape {
            comment_body(src, p + 1, ms, me, level, !in_string, false)
        } else if !in_string && me.len() > 0 && matches_at(src, p, me) {
            if level - 1 == 0 {
                (true, p + me.len())
            } else {
                comment_body(src, p + me.len(), ms, me, level - 1, in_string, false)
            }
        } else if !in_string && ms.len() > 0 && matches_at(src, p, ms) {
            comment_body(src, p + ms.len(), ms, me, level + 1, in_string, false)
        } else {
            comment_body(src, p + 1, ms, me, level, in_string, false)
        }
    }
}

/// The multi-line comment markers apply at `pos`: both are given and
/// non-empty, and the start marker occurs there.
pub open spec fn multi_comment_at(src: Seq<char>, cfg: CfgView, pos: int) -> bool {
    &&& cfg.multi_start is Some && cfg.multi_end is Some
    &&& (cfg.multi_start->0).len() > 0 && (cfg.multi_end->0).len() > 0
    &&& matches_at(src, pos, cfg.multi_start->0)
}

/// The single-line comment marker is given, non-empty, and occurs at `pos`.
pub open spec fn single_comment_at(src: Seq<char>, cfg: CfgView, pos: int) -> bool {
    cfg.single is Some && (cfg.single->0).len() > 0 && matches_at(src, pos, cfg.single->0)
}

/// The step taken when a comment starts at `pos`.
pub open spec fn comment_step(src: Seq<char>, cfg: CfgView, pos: int, line: int) -> Step {
    if multi_comment_at(src, cfg, pos) {
        let (closed, end) = comment_body(
            src,
            pos,
            cfg.multi_start->0,
            cfg.multi_end->0,
            0,
            false,
            false,
        );
        if closed {
            Step::Emit { kind: TokenView::Comment(src.subrange(pos, end)), end }
        } else {
            Step::Fail {
                rec: TokenRec {
                    kind: TokenView::Comment(src.subrange(pos, src.len() as int)),
                    start: pos,
                    len: src.len() - pos,
                    line,
                },
                err: ScanError::UnexpectedEof(line as usize, pos as usize),
            }
        }
    } else {
        let end = line_end(src, pos + (cfg.single->0).len());
        Step::Emit { kind: TokenView::Comment(src.subrange(pos, end)), end }
    }
}

/// The step taken when a string literal starts at `pos`. An unterminated
/// literal is recorded with its content so far and a span that counts the
/// missing closing quote.
pub open spec fn string_step(src: Seq<char>, pos: int, line: int) -> Step {
    let (closed, end, content) = string_body(src, pos + 1, false, seq![]);
    if closed {
        Step::Emit { kind: TokenView::StringLiteral(content), end }
    } else {
        Step::Fail {
            rec: TokenRec {
                kind: TokenView::StringLiteral(content),
                start: pos,
                len: src.len() - pos + 1,
                line,
            },
            err: ScanError::UnexpectedEof(line as usize, pos as usize),
        }
    }
}

/// One classification at `pos`, tried in a fixed order: end of input,
/// comment, newline, white space, symbol, keyword, string literal,
/// identifier, number literal; otherwise an unknown token.
pub open spec fn step(src: Seq<char>, cfg: CfgView, pos: int, line: int) -> Step {
    if pos < 0 || pos >= src.len() {
        Step::Eof
    } else if multi_comment_at(src, cfg, pos) || single_comment_at(src, cfg, pos) {
        comment_step(src, cfg, pos, line)
    } else if src[pos] == '\n' {
        Step::Skip { end: pos + 1 }
    } else if space(src[pos]) {
        Step::Skip { end: space_end(src, pos) }
    } else if first_symbol(src, pos, cfg.symbols, 0) is Some {
        let s = cfg.symbols[first_symbol(src, pos, cfg.symbols, 0)->0];
        Step::Emit { kind: TokenView::Symbol(s), end: pos + s.len() }
    } else if first_keyword(src, pos, cfg.keywords, 0) is Some {
        let k = cfg.keywords[first_keyword(src, pos, cfg.keywords, 0)->0];
        Step::Emit { kind: TokenView::Keyword(k), end: pos + k.len() }
    } else if src[pos] == '"' {
        string_step(src, pos, line)
    } else if alpha(src[pos]) {
        let end = ident_end(src, pos);
        Step::Emit { kind: TokenView::Identifier(src.subrange(pos, end)), end }
    } else if digit(src[pos]) {
        let (kind, end) = number_token(src, pos);
        Step::Emit { kind, end }
    } else {
        Step::Fail {
            rec: TokenRec { kind: TokenView::Unknown, start: pos, len: 1, line },
            err: ScanError::UnknownToken(line as usize, pos as usize),
        }
    }
}

/// The number of newline characters in `s`.
pub open spec fn newlines(s: Seq<char>) -> int
    decreases s.len(),
{
    if s.len() == 0 {
        0
    } else {
        newlines(s.drop_last()) + if s.last() == '\n' {
            1int
        } else {
            0int
        }
    }
}

/// The tokens recorded, and the error if any, when scanning from `pos` on
/// line `line` to the end of input. After each step the line advances by
/// the newlines in the characters that step consumed.
pub open spec fn lex(src: Seq<char>, cfg: CfgView, pos: int, line: int) -> (
    Seq<TokenRec>,
    Option<ScanError>,
)
    decreases src.len() - pos,
{
    if pos < 0 || pos >= src.len() {
        (seq![], None)
    } else {
        match step(src, cfg, pos, line) {
            Step::Skip { end } => if end <= pos || end > src.len() {
                (seq![], None)
            } else {
                lex(src, cfg, end, line + newlines(src.subrange(pos, end)))
            },
            Step::Emit { kind, end } => if end <= pos || end > src.len() {
                (seq![], None)
            } else {
                let rest = lex(src, cfg, end, line + newlines(src.subrange(pos, end)));
                (seq![TokenRec { kind, start: pos, len: end - pos, line }] + rest.0, rest.1)
            },
            Step::Fail { rec, err } => (seq![rec], Some(err)),
            Step::Eof => (seq![], None),
        }
    }
}

/// The outcome of a whole run over `src`.
pub open spec fn run_outcome(src: Seq<char>, cfg: CfgView) -> (Seq<TokenRec>, Option<ScanError>) {
    lex(src, cfg, 0, 1)
}

} // verus!
