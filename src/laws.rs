//! Properties of whole runs, proved over the model of `crate::model`.
use vstd::prelude::*;
use crate::model::{
    comment_body, first_keyword, first_symbol, ident_end, keyword_at, lemma_first_keyword,
    lemma_first_symbol, lex, multi_comment_at, newlines, run_outcome, single_comment_at, span_while,
    step, string_body, CfgView, Step,
};
use crate::text::{alpha, alphanum, blank, digit, matches_at, space};
use crate::token::{ScanError, TokenRec, TokenView};

verus! {

/// The records cover the source from `from` on: each token span is
/// non-empty and lies within the source, spans follow one another in order,
/// and every character between or after them is blank. Reading the spans in
/// order thus gives the source with exactly those blank runs removed.
pub open spec fn tiles(src: Seq<char>, recs: Seq<TokenRec>, from: int) -> bool
    decreases recs.len(),
{
    if recs.len() == 0 {
        forall|p: int| from <= p < src.len() ==> blank(#[trigger] src[p])
    } else {
        &&& from <= recs[0].start
        &&& forall|p: int| from <= p < recs[0].start ==> blank(#[trigger] src[p])
        &&& 0 < recs[0].len
        &&& recs[0].start + recs[0].len <= src.len()
        &&& tiles(src, recs.drop_first(), recs[0].start + recs[0].len)
    }
}

proof fn lemma_span(src: Seq<char>, p: int, f: spec_fn(char) -> bool)
    requires
        0 <= p <= src.len(),
    ensures
        p <= span_while(src, p, f) <= src.len(),
        forall|k: int| p <= k < span_while(src, p, f) ==> f(#[trigger] src[k]),
        span_while(src, p, f) < src.len() ==> !f(src[span_while(src, p, f)]),
        p < src.len() && f(src[p]) ==> p < span_while(src, p, f),
    decreases src.len() - p,
{
    if p < src.len() && f(src[p]) {
        lemma_span(src, p + 1, f);
    }
}

proof fn lemma_string_body(src: Seq<char>, p: int, escape: bool, content: Seq<char>)
    requires
        0 <= p <= src.len(),
    ensures
        p <= string_body(src, p, escape, content).1 <= src.len(),
    decreases src.len() - p,
{
    if p < src.len() {
        let c = src[p];
        if c == '\\' && !escape {
            lemma_string_body(src, p + 1, true, content);
        } else if c == '"' && !escape {
        } else if c == 'n' && escape {
            lemma_string_body(src, p + 1, false, content.push('\n'));
        } else if c == 't' && escape {
            lemma_string_body(src, p + 1, false, content.push('\t'));
        } else {
            lemma_string_body(src, p + 1, false, content.push(c));
        }
    }
}

proof fn lemma_comment_body(
    src: Seq<char>,
    p: int,
    ms: Seq<char>,
    me: Seq<char>,
    level: int,
    in_string: bool,
    escape: bool,
)
    requires
        0 <= p <= src.len(),
    ensures
        ({
            let r = comment_body(src, p, ms, me, level, in_string, escape);
            &&& p <= r.1 <= src.len()
            &&& r.0 ==> p < r.1
        }),
    decreases src.len() - p,
{
    if p < src.len() {
        let c = src[p];
        if c == '\n' {
            lemma_comment_body(src, p + 1, ms, me, level, in_string, escape);
        } else if c == '\\' && !escape {
            lemma_comment_body(src, p + 1, ms, me, level, in_string, true);
        } else if c == '"' && !escape {
            lemma_comment_body(src, p + 1, ms, me, level, !in_string, false);
        } else if !in_string && me.len() > 0 && matches_at(src, p, me) {
            if level - 1 != 0 {
                lemma_comment_body(src, p + me.len(), ms, me, level - 1, in_string, false);
            }
        } else if !in_string && ms.len() > 0 && matches_at(src, p, ms) {
            lemma_comment_body(src, p + ms.len(), ms, me, level + 1, in_string, false);
        } else {
            lemma_comment_body(src, p + 1, ms, me, level, in_string, false);
        }
    }
}

/// Every step that skips or emits moves forward, and stays in the source;
/// what a skip passes over is blank.
proof fn lemma_step_advances(src: Seq<char>, cfg: CfgView, pos: int, line: int)
    requires
        0 <= pos < src.len(),
    ensures
        match step(src, cfg, pos, line) {
            Step::Skip { end } => {
                &&& pos < end <= src.len()
                &&& forall|k: int| pos <= k < end ==> blank(#[trigger] src[k])
            },
            Step::Emit { kind: _, end } => pos < end <= src.len(),
            Step::Fail { rec, err: _ } => rec.start == pos,
            Step::Eof => false,
        },
{
    if multi_comment_at(src, cfg, pos) {
        lemma_comment_body(src, pos, cfg.multi_start->0, cfg.multi_end->0, 0, false, false);
    } else if single_comment_at(src, cfg, pos) {
        lemma_span(src, pos + (cfg.single->0).len(), |c: char| c != '\n');
    } else if src[pos] == '\n' {
    } else if space(src[pos]) {
        lemma_span(src, pos, |c: char| space(c));
    } else if first_symbol(src, pos, cfg.symbols, 0) is Some {
        lemma_first_symbol(src, pos, cfg.symbols, 0);
    } else if first_keyword(src, pos, cfg.keywords, 0) is Some {
        lemma_first_keyword(src, pos, cfg.keywords, 0);
    } else if src[pos] == '"' {
        lemma_string_body(src, pos + 1, false, seq![]);
    } else if alpha(src[pos]) {
        lemma_span(src, pos, |c: char| alphanum(c));
    } else if digit(src[pos]) {
        lemma_span(src, pos, |c: char| digit(c));
        if pos + 2 < src.len() {
            lemma_span(src, pos + 2, |c: char| crate::model::hex_digit(c));
            lemma_span(src, pos + 2, |c: char| crate::model::bin_digit(c));
        }
        let int_end = span_while(src, pos, |c: char| digit(c));
        if int_end + 1 < src.len() {
            lemma_span(src, int_end + 1, |c: char| digit(c));
        }
    }
}

proof fn lemma_tiles_widen(src: Seq<char>, recs: Seq<TokenRec>, from: int, to: int)
    requires
        from <= to,
        forall|k: int| from <= k < to ==> blank(#[trigger] src[k]),
        tiles(src, recs, to),
    ensures
        tiles(src, recs, from),
{
    if recs.len() > 0 {
        assert forall|p: int| from <= p < recs[0].start implies blank(#[trigger] src[p]) by {
            if p >= to {
            }
        }
    }
}

proof fn lemma_lex_tiles(src: Seq<char>, cfg: CfgView, pos: int, line: int)
    requires
        0 <= pos <= src.len(),
        lex(src, cfg, pos, line).1 is None,
    ensures
        tiles(src, lex(src, cfg, pos, line).0, pos),
    decreases src.len() - pos,
{
    if pos < src.len() {
        lemma_step_advances(src, cfg, pos, line);
        match step(src, cfg, pos, line) {
            Step::Skip { end } => {
                let l = line + newlines(src.subrange(pos, end));
                lemma_lex_tiles(src, cfg, end, l);
                lemma_tiles_widen(src, lex(src, cfg, end, l).0, pos, end);
            },
            Step::Emit { kind, end } => {
                let l = line + newlines(src.subrange(pos, end));
                lemma_lex_tiles(src, cfg, end, l);
                let rec = TokenRec { kind, start: pos, len: end - pos, line };
                let rest = lex(src, cfg, end, l).0;
                assert((seq![rec] + rest).drop_first() =~= rest);
            },
            _ => {},
        }
    }
}

proof fn lemma_lex_starts(src: Seq<char>, cfg: CfgView, pos: int, line: int)
    requires
        0 <= pos,
    ensures
        forall|i: int|
            0 <= i < lex(src, cfg, pos, line).0.len() ==> pos <= (#[trigger] lex(
                src,
                cfg,
                pos,
                line,
            ).0[i]).start,
    decreases src.len() - pos,
{
    if pos < src.len() {
        lemma_step_advances(src, cfg, pos, line);
        match step(src, cfg, pos, line) {
            Step::Skip { end } => {
                let l = line + newlines(src.subrange(pos, end));
                lemma_lex_starts(src, cfg, end, l);
            },
            Step::Emit { kind, end } => {
                let l = line + newlines(src.subrange(pos, end));
                lemma_lex_starts(src, cfg, end, l);
                let rec = TokenRec { kind, start: pos, len: end - pos, line };
                let rest = lex(src, cfg, end, l).0;
                assert forall|i: int| 0 <= i < (seq![rec] + rest).len() implies pos <= (
                #[trigger] (seq![rec] + rest)[i]).start by {
                    if i > 0 {
                        assert((seq![rec] + rest)[i] == rest[i - 1]);
                    }
                }
            },
            _ => {},
        }
    }
}

/// Reconstruction: a successful run's token spans, read in order, give the
/// source with only its blank runs (white space and newlines between
/// tokens) removed.
pub proof fn lemma_reconstruction(src: Seq<char>, cfg: CfgView)
    requires
        run_outcome(src, cfg).1 is None,
    ensures
        tiles(src, run_outcome(src, cfg).0, 0),
{
    lemma_lex_tiles(src, cfg, 0, 1);
}

/// Determinism: two runs on the same source and configuration record the
/// same tokens and end with the same result.
pub proof fn lemma_deterministic(
    src: Seq<char>,
    cfg: CfgView,
    recs1: Seq<TokenRec>,
    r1: Result<(), ScanError>,
    recs2: Seq<TokenRec>,
    r2: Result<(), ScanError>,
)
    requires
        recs1 == run_outcome(src, cfg).0,
        recs2 == run_outcome(src, cfg).0,
        match run_outcome(src, cfg).1 {
            None => r1 == Ok::<(), ScanError>(()) && r2 == Ok::<(), ScanError>(()),
            Some(e) => r1 == Err::<(), ScanError>(e) && r2 == Err::<(), ScanError>(e),
        },
    ensures
        recs1 == recs2,
        r1 == r2,
{
}

/// Keyword boundary: a configured keyword followed directly by a letter,
/// digit or underscore is never scanned as that keyword.
pub proof fn lemma_keyword_boundary(cfg: CfgView, i: int, c: char)
    requires
        0 <= i < cfg.keywords.len(),
        alphanum(c),
    ensures
        ({
            let k = cfg.keywords[i];
            let recs = run_outcome(k.push(c), cfg).0;
            forall|j: int|
                0 <= j < recs.len() && (#[trigger] recs[j]).start == 0 ==> recs[j].kind
                    != TokenView::Keyword(k)
        }),
{
    let k = cfg.keywords[i];
    let src = k.push(c);
    lemma_lex_starts(src, cfg, 0, 1);
    lemma_step_advances(src, cfg, 0, 1);
    if first_keyword(src, 0, cfg.keywords, 0) is Some {
        lemma_first_keyword(src, 0, cfg.keywords, 0);
        let kw = cfg.keywords[first_keyword(src, 0, cfg.keywords, 0)->0];
        if kw == k {
            assert(src[k.len() as int] == c);
        }
    }
    match step(src, cfg, 0, 1) {
        Step::Emit { kind, end } => {
            let l = 1 + newlines(src.subrange(0, end));
            lemma_lex_starts(src, cfg, end, l);
            let rec = TokenRec { kind, start: 0, len: end, line: 1 };
            let rest = lex(src, cfg, end, l).0;
            assert forall|j: int|
                0 <= j < (seq![rec] + rest).len() && (#[trigger] (seq![rec] + rest)[j]).start
                    == 0 implies (seq![rec] + rest)[j].kind != TokenView::Keyword(k) by {
                if j > 0 {
                    assert((seq![rec] + rest)[j] == rest[j - 1]);
                }
            }
        },
        Step::Skip { end } => {
            let l = 1 + newlines(src.subrange(0, end));
            lemma_lex_starts(src, cfg, end, l);
        },
        _ => {},
    }
}

proof fn lemma_no_keyword(src: Seq<char>, pos: int, kws: Seq<Seq<char>>, i: int)
    requires
        forall|j: int| 0 <= j < kws.len() ==> !keyword_at(src, pos, #[trigger] kws[j]),
    ensures
        first_keyword(src, pos, kws, i) is None,
    decreases kws.len() - i,
{
    if 0 <= i < kws.len() {
        lemma_no_keyword(src, pos, kws, i + 1);
    }
}

proof fn lemma_no_symbol(src: Seq<char>, pos: int, pats: Seq<Seq<char>>, i: int)
    requires
        forall|j: int|
            0 <= j < pats.len() && (#[trigger] pats[j]).len() > 0 ==> !matches_at(src, pos, pats[j]),
    ensures
        first_symbol(src, pos, pats, i) is None,
    decreases pats.len() - i,
{
    if 0 <= i < pats.len() {
        lemma_no_symbol(src, pos, pats, i + 1);
    }
}

/// Keyword boundary, positively: a word made of a keyword and one more
/// letter, digit or underscore is a single identifier, unless the word is
/// itself a keyword or a symbol or comment marker starts it.
pub proof fn lemma_keyword_boundary_identifier(cfg: CfgView, i: int, c: char)
    requires
        0 <= i < cfg.keywords.len(),
        alphanum(c),
        cfg.keywords[i].len() > 0,
        alpha(cfg.keywords[i][0]),
        forall|j: int|
            0 <= j < cfg.keywords[i].len() ==> alphanum(#[trigger] cfg.keywords[i][j]),
        !cfg.keywords.contains(cfg.keywords[i].push(c)),
        forall|j: int|
            0 <= j < cfg.symbols.len() && (#[trigger] cfg.symbols[j]).len() > 0 ==> !matches_at(
                cfg.keywords[i].push(c),
                0,
                cfg.symbols[j],
            ),
        !multi_comment_at(cfg.keywords[i].push(c), cfg, 0),
        !single_comment_at(cfg.keywords[i].push(c), cfg, 0),
    ensures
        ({
            let src = cfg.keywords[i].push(c);
            run_outcome(src, cfg) == (
                seq![TokenRec { kind: TokenView::Identifier(src), start: 0, len: src.len() as int, line: 1 }],
                None::<ScanError>,
            )
        }),
{
    let k = cfg.keywords[i];
    let src = k.push(c);
    let n = src.len() as int;
    assert forall|j: int| 0 <= j < n implies alphanum(#[trigger] src[j]) by {
        if j < k.len() {
            assert(src[j] == k[j]);
        }
    }
    assert forall|j: int| 0 <= j < cfg.keywords.len() implies !keyword_at(
        src,
        0,
        #[trigger] cfg.keywords[j],
    ) by {
        let kw = cfg.keywords[j];
        if keyword_at(src, 0, kw) {
            if kw.len() < n {
                assert(alphanum(src[kw.len() as int]));
            } else {
                assert(src.subrange(0, n) =~= src);
                assert(cfg.keywords.contains(src));
            }
        }
    }
    lemma_no_keyword(src, 0, cfg.keywords, 0);
    lemma_no_symbol(src, 0, cfg.symbols, 0);
    lemma_span(src, 0, |c: char| alphanum(c));
    assert(ident_end(src, 0) == n);
    assert(src.subrange(0, n) =~= src);
    assert(src[0] == k[0]);
    let rec = TokenRec { kind: TokenView::Identifier(src), start: 0, len: n, line: 1 };
    assert(lex(src, cfg, n, 1 + newlines(src.subrange(0, n))) == (
        Seq::<TokenRec>::empty(),
        None::<ScanError>,
    ));
    assert(seq![rec] + Seq::<TokenRec>::empty() =~= seq![rec]);
}

/// Greedy symbol match: when `..` is listed before every `.`, the input
/// `..` is the single symbol `..`, provided no comment marker starts it.
/// Empty entries never match and so do not count.
pub proof fn lemma_greedy_symbol(cfg: CfgView, i: int, j: int)
    requires
        0 <= i < j < cfg.symbols.len(),
        cfg.symbols[i] == seq!['.', '.'],
        cfg.symbols[j] == seq!['.'],
        forall|m: int| 0 <= m < i ==> #[trigger] cfg.symbols[m] != seq!['.'],
        !multi_comment_at(seq!['.', '.'], cfg, 0),
        !single_comment_at(seq!['.', '.'], cfg, 0),
    ensures
        run_outcome(seq!['.', '.'], cfg) == (
            seq![TokenRec { kind: TokenView::Symbol(seq!['.', '.']), start: 0, len: 2, line: 1 }],
            None::<ScanError>,
        ),
{
    let src = seq!['.', '.'];
    assert(src.subrange(0, 2) =~= src);
    lemma_greedy_first(src, cfg.symbols, i, 0);
    let m = first_symbol(src, 0, cfg.symbols, 0)->0;
    lemma_first_symbol(src, 0, cfg.symbols, 0);
    let s = cfg.symbols[m];
    assert(s.len() == 1 || s.len() == 2);
    if s.len() == 1 {
        assert(s =~= src.subrange(0, 1));
        assert(s =~= seq!['.']);
        assert(false);
    }
    assert(s =~= src.subrange(0, 2));
    assert(src.subrange(0, 2) =~= src);
    let rec = TokenRec { kind: TokenView::Symbol(src), start: 0, len: 2, line: 1 };
    assert(lex(src, cfg, 2, 1 + newlines(src.subrange(0, 2))) == (
        Seq::<TokenRec>::empty(),
        None::<ScanError>,
    ));
    assert(seq![rec] + Seq::<TokenRec>::empty() =~= seq![rec]);
}

proof fn lemma_greedy_first(src: Seq<char>, pats: Seq<Seq<char>>, i: int, from: int)
    requires
        0 <= from <= i < pats.len(),
        pats[i].len() > 0,
        matches_at(src, 0, pats[i]),
    ensures
        first_symbol(src, 0, pats, from) is Some,
        first_symbol(src, 0, pats, from)->0 <= i,
    decreases i - from,
{
    if !(pats[from].len() > 0 && matches_at(src, 0, pats[from])) {
        lemma_greedy_first(src, pats, i, from + 1);
    }
}

proof fn lemma_newlines_concat(a: Seq<char>, b: Seq<char>)
    ensures
        newlines(a + b) == newlines(a) + newlines(b),
    decreases b.len(),
{
    if b.len() > 0 {
        assert((a + b).drop_last() =~= a + b.drop_last());
        lemma_newlines_concat(a, b.drop_last());
    } else {
        assert(a + b =~= a);
    }
}

proof fn lemma_lex_lines(src: Seq<char>, cfg: CfgView, pos: int, line: int)
    requires
        0 <= pos <= src.len(),
        line == 1 + newlines(src.subrange(0, pos)),
    ensures
        forall|i: int|
            0 <= i < lex(src, cfg, pos, line).0.len() ==> (#[trigger] lex(src, cfg, pos, line).0[i]).line
                == 1 + newlines(src.subrange(0, lex(src, cfg, pos, line).0[i].start)),
    decreases src.len() - pos,
{
    if pos < src.len() {
        lemma_step_advances(src, cfg, pos, line);
        match step(src, cfg, pos, line) {
            Step::Skip { end } => {
                let l = line + newlines(src.subrange(pos, end));
                lemma_newlines_concat(src.subrange(0, pos), src.subrange(pos, end));
                assert(src.subrange(0, pos) + src.subrange(pos, end) =~= src.subrange(0, end));
                lemma_lex_lines(src, cfg, end, l);
            },
            Step::Emit { kind, end } => {
                let l = line + newlines(src.subrange(pos, end));
                lemma_newlines_concat(src.subrange(0, pos), src.subrange(pos, end));
                assert(src.subrange(0, pos) + src.subrange(pos, end) =~= src.subrange(0, end));
                lemma_lex_lines(src, cfg, end, l);
                let rec = TokenRec { kind, start: pos, len: end - pos, line };
                let rest = lex(src, cfg, end, l).0;
                assert forall|i: int| 0 <= i < (seq![rec] + rest).len() implies (#[trigger] (
                seq![rec] + rest)[i]).line == 1 + newlines(
                    src.subrange(0, (seq![rec] + rest)[i].start),
                ) by {
                    if i > 0 {
                        assert((seq![rec] + rest)[i] == rest[i - 1]);
                    }
                }
            },
            _ => {},
        }
    }
}

/// Line numbers: every recorded token, on success or failure, carries the
/// line of its first character, one more than the newlines before it.
pub proof fn lemma_line_numbers(src: Seq<char>, cfg: CfgView)
    ensures
        forall|i: int|
            0 <= i < run_outcome(src, cfg).0.len() ==> (#[trigger] run_outcome(src, cfg).0[i]).line
                == 1 + newlines(src.subrange(0, run_outcome(src, cfg).0[i].start)),
{
    assert(src.subrange(0, 0) =~= Seq::<char>::empty());
    lemma_lex_lines(src, cfg, 0, 1);
}

} // verus!
