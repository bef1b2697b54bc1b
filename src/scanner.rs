use vstd::prelude::*;
use vstd::slice::slice_subrange;
use crate::model::{
    bin_digit, bin_end, comment_body, digit_value, digit_values, digits_end, first_keyword,
    first_symbol, hex_digit, hex_end, ident_end, lemma_first_keyword, lemma_first_symbol, lex,
    line_end, newlines, number_token, run_outcome, space_end, step, string_body, CfgView, Step,
};
use crate::text::{
    chars_of, digit, is_alpha, is_alphanum, is_digit, is_space, pattern_at, string_of,
};
use crate::token::{Number, ScanError, ScannerData, TokenRec, TokenType};

verus! {

/// The cursor of one run: where the pending token starts, the next
/// unconsumed character, and the current line.
pub struct Scanner {
    start: usize,
    current: usize,
    line: usize,
}

/// A language description, read-only during a run. Among candidates that
/// match at one position the first listed wins, so longer entries sharing a
/// prefix with shorter ones are to be listed first.
pub struct ScannerConfig {
    /// keywords; where several match, the first listed wins
    pub keywords: &'static [&'static str],
    /// symbols; where several match, the first listed wins
    pub symbols: &'static [&'static str],
    /// token starting a single line comment
    pub single_line_cmt: Option<&'static str>,
    /// token starting a multi line comment
    pub multi_line_cmt_start: Option<&'static str>,
    /// token ending a multi line comment
    pub multi_line_cmt_end: Option<&'static str>,
}

/// The characters of each string.
pub open spec fn views(s: Seq<&str>) -> Seq<Seq<char>> {
    s.map_values(|x: &str| x@)
}

pub open spec fn opt_view(o: Option<&str>) -> Option<Seq<char>> {
    match o {
        Some(s) => Some(s@),
        None => None,
    }
}

impl View for ScannerConfig {
    type V = CfgView;

    open spec fn view(&self) -> CfgView {
        CfgView {
            keywords: views(self.keywords@),
            symbols: views(self.symbols@),
            single: opt_view(self.single_line_cmt),
            multi_start: opt_view(self.multi_line_cmt_start),
            multi_end: opt_view(self.multi_line_cmt_end),
        }
    }
}

impl Default for Scanner {
    fn default() -> Scanner {
        Scanner { start: 0, current: 0, line: 1 }
    }
}

fn skip_space(src: &Vec<char>, p: usize) -> (r: usize)
    requires
        p <= src@.len(),
    ensures
        r == space_end(src@, p as int),
        p <= r <= src@.len(),
{
    let mut q: usize = p;
    while q < src.len() && is_space(src[q])
        invariant
            p <= q <= src@.len(),
            space_end(src@, p as int) == space_end(src@, q as int),
        decreases src@.len() - q,
    {
        q += 1;
    }
    q
}

fn skip_ident(src: &Vec<char>, p: usize) -> (r: usize)
    requires
        p <= src@.len(),
    ensures
        r == ident_end(src@, p as int),
        p <= r <= src@.len(),
{
    let mut q: usize = p;
    while q < src.len() && is_alphanum(src[q])
        invariant
            p <= q <= src@.len(),
            ident_end(src@, p as int) == ident_end(src@, q as int),
        decreases src@.len() - q,
    {
        q += 1;
    }
    q
}

fn skip_digits(src: &Vec<char>, p: usize) -> (r: usize)
    requires
        p <= src@.len(),
    ensures
        r == digits_end(src@, p as int),
        p <= r <= src@.len(),
        forall|k: int| p <= k < r ==> digit(#[trigger] src@[k]),
{
    let mut q: usize = p;
    while q < src.len() && is_digit(src[q])
        invariant
            p <= q <= src@.len(),
            digits_end(src@, p as int) == digits_end(src@, q as int),
            forall|k: int| p <= k < q ==> digit(#[trigger] src@[k]),
        decreases src@.len() - q,
    {
        q += 1;
    }
    q
}

fn is_hex_digit(c: char) -> (r: bool)
    ensures
        r == hex_digit(c),
{
    is_digit(c) || (c >= 'a' && c <= 'f') || (c >= 'A' && c <= 'F')
}

fn skip_hex(src: &Vec<char>, p: usize) -> (r: usize)
    requires
        p <= src@.len(),
    ensures
        r == hex_end(src@, p as int),
        p <= r <= src@.len(),
        forall|k: int| p <= k < r ==> hex_digit(#[trigger] src@[k]),
{
    let mut q: usize = p;
    while q < src.len() && is_hex_digit(src[q])
        invariant
            p <= q <= src@.len(),
            hex_end(src@, p as int) == hex_end(src@, q as int),
            forall|k: int| p <= k < q ==> hex_digit(#[trigger] src@[k]),
        decreases src@.len() - q,
    {
        q += 1;
    }
    q
}

fn skip_bin(src: &Vec<char>, p: usize) -> (r: usize)
    requires
        p <= src@.len(),
    ensures
        r == bin_end(src@, p as int),
        p <= r <= src@.len(),
        forall|k: int| p <= k < r ==> bin_digit(#[trigger] src@[k]),
{
    let mut q: usize = p;
    while q < src.len() && (src[q] == '0' || src[q] == '1')
        invariant
            p <= q <= src@.len(),
            bin_end(src@, p as int) == bin_end(src@, q as int),
            forall|k: int| p <= k < q ==> bin_digit(#[trigger] src@[k]),
        decreases src@.len() - q,
    {
        q += 1;
    }
    q
}

fn skip_to_newline(src: &Vec<char>, p: usize) -> (r: usize)
    requires
        p <= src@.len(),
    ensures
        r == line_end(src@, p as int),
        p <= r <= src@.len(),
{
    let mut q: usize = p;
    while q < src.len() && src[q] != '\n'
        invariant
            p <= q <= src@.len(),
            line_end(src@, p as int) == line_end(src@, q as int),
        decreases src@.len() - q,
    {
        q += 1;
    }
    q
}

/// The characters `src[a..b]` as a string.
fn text_between(src: &Vec<char>, a: usize, b: usize) -> (r: String)
    requires
        a <= b <= src@.len(),
    ensures
        r@ == src@.subrange(a as int, b as int),
{
    string_of(slice_subrange(src.as_slice(), a, b))
}

fn digit_value_of(c: char) -> (r: u8)
    requires
        hex_digit(c),
    ensures
        r == digit_value(c),
{
    if is_digit(c) {
        (c as u32 - '0' as u32) as u8
    } else if c >= 'a' && c <= 'f' {
        (c as u32 - 'a' as u32 + 10) as u8
    } else {
        (c as u32 - 'A' as u32 + 10) as u8
    }
}

/// Appends the values of the digits `src[a..b]` to `out`.
fn push_digit_values(src: &Vec<char>, a: usize, b: usize, out: &mut Vec<u8>)
    requires
        a <= b <= src@.len(),
        forall|i: int| a <= i < b ==> hex_digit(#[trigger] src@[i]),
    ensures
        final(out)@ == old(out)@ + digit_values(src@.subrange(a as int, b as int)),
{
    let mut i: usize = a;
    while i < b
        invariant
            a <= i <= b <= src@.len(),
            forall|k: int| a <= k < b ==> hex_digit(#[trigger] src@[k]),
            out@ == old(out)@ + digit_values(src@.subrange(a as int, i as int)),
        decreases b - i,
    {
        let v: u8 = digit_value_of(src[i]);
        out.push(v);
        i += 1;
        assert(src@.subrange(a as int, i as int) =~= src@.subrange(a as int, i - 1).push(
            src@[i - 1],
        ));
        assert(digit_values(src@.subrange(a as int, i as int)) =~= digit_values(
            src@.subrange(a as int, i - 1),
        ).push(digit_value(src@[i - 1])));
    }
}

/// A number literal at `pos`: its token and where it ends.
fn scan_number(src: &Vec<char>, pos: usize) -> (r: (TokenType, usize))
    requires
        pos < src@.len(),
        digit(src@[pos as int]),
    ensures
        r.0@ == number_token(src@, pos as int).0,
        r.1 == number_token(src@, pos as int).1,
        pos < r.1 <= src@.len(),
{
    let len = src.len();
    if src[pos] == '0' && len - pos > 2 && (src[pos + 1] == 'x' || src[pos + 1] == 'X') {
        let end = skip_hex(src, pos + 2);
        let mut digits: Vec<u8> = Vec::new();
        push_digit_values(src, pos + 2, end, &mut digits);
        let prefix = String::from_str("0x");
        proof {
            reveal_strlit("0x");
        }
        let text = prefix.concat(text_between(src, pos + 2, end).as_str());
        assert(text@ =~= seq!['0', 'x'] + src@.subrange(pos + 2, end as int));
        assert(digits@ =~= digit_values(src@.subrange(pos + 2, end as int)));
        return (TokenType::NumberLiteral(text, Number { radix: 16, digits, frac_len: 0 }), end);
    }
    if src[pos] == '0' && len - pos > 2 && (src[pos + 1] == 'b' || src[pos + 1] == 'B') {
        let end = skip_bin(src, pos + 2);
        let mut digits: Vec<u8> = Vec::new();
        push_digit_values(src, pos + 2, end, &mut digits);
        let prefix = String::from_str("0b");
        proof {
            reveal_strlit("0b");
        }
        let text = prefix.concat(text_between(src, pos + 2, end).as_str());
        assert(text@ =~= seq!['0', 'b'] + src@.subrange(pos + 2, end as int));
        assert(digits@ =~= digit_values(src@.subrange(pos + 2, end as int)));
        return (TokenType::NumberLiteral(text, Number { radix: 2, digits, frac_len: 0 }), end);
    }
    assert(digits_end(src@, pos as int) == digits_end(src@, pos + 1));
    let int_end = skip_digits(src, pos + 1);
    assert(forall|k: int| pos <= k < int_end ==> digit(#[trigger] src@[k]));
    let mut digits: Vec<u8> = Vec::new();
    push_digit_values(src, pos, int_end, &mut digits);
    if int_end < len - 1 && src[int_end] == '.' && is_digit(src[int_end + 1]) {
        let end = skip_digits(src, int_end + 1);
        push_digit_values(src, int_end + 1, end, &mut digits);
        proof {
            let a = src@.subrange(pos as int, int_end as int);
            let b = src@.subrange(int_end + 1, end as int);
            assert(digit_values(a + b) =~= digit_values(a) + digit_values(b));
            assert(digits@ =~= digit_values(a + b));
        }
        let text = text_between(src, pos, end);
        (TokenType::NumberLiteral(text, Number { radix: 10, digits, frac_len: end - int_end - 1 }), end)
    } else {
        let text = text_between(src, pos, int_end);
        assert(digits@ =~= digit_values(src@.subrange(pos as int, int_end as int)));
        (TokenType::NumberLiteral(text, Number { radix: 10, digits, frac_len: 0 }), int_end)
    }
}

/// A string literal whose opening quote is at `pos`: whether it is closed,
/// where it ends, and its unescaped content.
fn scan_string(src: &Vec<char>, pos: usize) -> (r: (bool, usize, String))
    requires
        pos < src@.len(),
    ensures
        ({
            let (closed, end, content) = string_body(src@, pos + 1, false, seq![]);
            r.0 == closed && r.1 == end && r.2@ == content
        }),
        pos < r.1 <= src@.len(),
{
    let len = src.len();
    let mut q: usize = pos + 1;
    let mut escape = false;
    let mut content: Vec<char> = Vec::new();
    while q < len
        invariant
            len == src@.len(),
            pos < q <= len,
            string_body(src@, q as int, escape, content@) == string_body(
                src@,
                pos + 1,
                false,
                seq![],
            ),
        decreases len - q,
    {
        let c = src[q];
        if c == '\\' && !escape {
            escape = true;
        } else {
            if c == '"' && !escape {
                let text = string_of(content.as_slice());
                return (true, q + 1, text);
            } else if c == 'n' && escape {
                content.push('\n');
            } else if c == 't' && escape {
                content.push('\t');
            } else {
                content.push(c);
            }
            escape = false;
        }
        q += 1;
    }
    let text = string_of(content.as_slice());
    (false, q, text)
}

/// The body of a multi-line comment starting at `pos`: whether its end
/// marker was found, and where it ends.
fn scan_multi_line_comment(src: &Vec<char>, pos: usize, ms: &str, me: &str) -> (r: (bool, usize))
    requires
        pos < src@.len() <= isize::MAX,
    ensures
        (r.0, r.1 as int) == comment_body(src@, pos as int, ms@, me@, 0, false, false),
        pos < r.1 <= src@.len(),
{
    let len = src.len();
    let ms_len = ms.unicode_len();
    let me_len = me.unicode_len();
    let mut q: usize = pos;
    let mut level: isize = 0;
    let mut in_string = false;
    let mut escape = false;
    while q < len
        invariant
            len == src@.len() <= isize::MAX,
            ms_len == ms@.len(),
            me_len == me@.len(),
            pos <= q <= len,
            -(q - pos) <= level <= q - pos,
            comment_body(src@, q as int, ms@, me@, level as int, in_string, escape)
                == comment_body(src@, pos as int, ms@, me@, 0, false, false),
        decreases len - q,
    {
        let c = src[q];
        if c == '\n' {
            q += 1;
        } else if c == '\\' && !escape {
            escape = true;
            q += 1;
        } else if c == '"' && !escape {
            in_string = !in_string;
            escape = false;
            q += 1;
        } else if !in_string && me_len > 0 && pattern_at(src, q, me) {
            if level - 1 == 0 {
                return (true, q + me_len);
            }
            level -= 1;
            escape = false;
            q += me_len;
        } else if !in_string && ms_len > 0 && pattern_at(src, q, ms) {
            level += 1;
            escape = false;
            q += ms_len;
        } else {
            escape = false;
            q += 1;
        }
    }
    (false, q)
}

/// The index of the first non-empty entry of `pats` that matches at `pos`.
fn find_symbol(src: &Vec<char>, pos: usize, pats: &[&str]) -> (r: Option<usize>)
    requires
        pos <= src@.len(),
    ensures
        match r {
            Some(i) => first_symbol(src@, pos as int, views(pats@), 0) == Some(i as int),
            None => first_symbol(src@, pos as int, views(pats@), 0) is None,
        },
{
    let mut i: usize = 0;
    while i < pats.len()
        invariant
            pos <= src@.len(),
            i <= pats@.len(),
            first_symbol(src@, pos as int, views(pats@), 0) == first_symbol(
                src@,
                pos as int,
                views(pats@),
                i as int,
            ),
        decreases pats@.len() - i,
    {
        let pat = pats[i];
        if pat.unicode_len() > 0 && pattern_at(src, pos, pat) {
            return Some(i);
        }
        i += 1;
    }
    None
}

/// The index of the first non-empty entry of `kws` that stands at `pos` as
/// a whole word.
fn find_keyword(src: &Vec<char>, pos: usize, kws: &[&str]) -> (r: Option<usize>)
    requires
        pos <= src@.len(),
    ensures
        match r {
            Some(i) => first_keyword(src@, pos as int, views(kws@), 0) == Some(i as int),
            None => first_keyword(src@, pos as int, views(kws@), 0) is None,
        },
{
    let len = src.len();
    let mut i: usize = 0;
    while i < kws.len()
        invariant
            len == src@.len(),
            pos <= len,
            i <= kws@.len(),
            first_keyword(src@, pos as int, views(kws@), 0) == first_keyword(
                src@,
                pos as int,
                views(kws@),
                i as int,
            ),
        decreases kws@.len() - i,
    {
        let k = kws[i];
        let k_len = k.unicode_len();
        if k_len > 0 && pattern_at(src, pos, k) {
            if pos + k_len >= len || !is_alphanum(src[pos + k_len]) {
                return Some(i);
            }
        }
        i += 1;
    }
    None
}

impl Scanner {
    /// Scans `source` with `config` into `data`, replacing what `data` held.
    /// The record holds exactly the tokens of `run_outcome`, also when the
    /// run fails, and the result is the error of `run_outcome` if any.
    pub fn run(&mut self, source: &str, config: &ScannerConfig, data: &mut ScannerData) -> (r:
        Result<(), ScanError>)
        requires
            source@.len() <= isize::MAX,
        ensures
            final(data).wf(),
            final(data).source@ == source@,
            final(data).records() == run_outcome(source@, config@).0,
            match run_outcome(source@, config@).1 {
                None => r == Ok::<(), ScanError>(()),
                Some(e) => r == Err::<(), ScanError>(e),
            },
    {
        data.source = chars_of(source);
        data.token_types.clear();
        data.token_lines.clear();
        data.token_start.clear();
        data.token_len.clear();
        self.current = 0;
        self.line = 1;
        self.start = self.current;
        assert(data.records() =~= Seq::<TokenRec>::empty());
        assert(data.records() + run_outcome(source@, config@).0 =~= run_outcome(
            source@,
            config@,
        ).0);
        loop
            invariant
                data.wf(),
                data.source@ == source@,
                source@.len() <= isize::MAX,
                self.start == self.current <= source@.len(),
                self.line <= self.current + 1,
                data.records() + lex(source@, config@, self.current as int, self.line as int).0
                    == run_outcome(source@, config@).0,
                lex(source@, config@, self.current as int, self.line as int).1 == run_outcome(
                    source@,
                    config@,
                ).1,
            decreases source@.len() - self.current,
        {
            let line = self.line;
            let pos = self.current;
            let ghost before = data.records();
            let token = self.scan_token(data, config);
            match token {
                Err(e) => {
                    return Err(e);
                },
                Ok(TokenType::Eof) => {
                    assert(before + seq![] =~= before);
                    return Ok(());
                },
                Ok(TokenType::Ignore) => {
                    self.line = line + count_newlines(&data.source, pos, self.current);
                    self.start = self.current;
                },
                Ok(TokenType::NewLine) => {
                    self.line = line + count_newlines(&data.source, pos, self.current);
                    self.start = self.current;
                },
                Ok(t) => {
                    self.add_token(t, data, line);
                    self.line = line + count_newlines(&data.source, pos, self.current);
                    proof {
                        let rest = lex(source@, config@, self.current as int, self.line as int).0;
                        let rec = TokenRec {
                            kind: step(source@, config@, pos as int, line as int)->Emit_kind,
                            start: pos as int,
                            len: self.current - pos,
                            line: line as int,
                        };
                        assert(before.push(rec) + rest =~= before + (seq![rec] + rest));
                    }
                },
            }
        }
    }

    /// Records `token` over the span from the pending start to the current
    /// position, on line `line`, and moves the pending start past it.
    fn add_token(&mut self, token: TokenType, data: &mut ScannerData, line: usize)
        requires
            old(data).wf(),
            old(self).start <= old(self).current,
        ensures
            final(data).wf(),
            final(data).source == old(data).source,
            final(data).records() == old(data).records().push(
                (TokenRec {
                    kind: token@,
                    start: old(self).start as int,
                    len: old(self).current - old(self).start,
                    line: line as int,
                }),
            ),
            final(self).start == old(self).current,
            final(self).current == old(self).current,
            final(self).line == old(self).line,
    {
        let len = self.current - self.start;
        data.push(token, self.start, len, line);
        self.start = self.current;
    }

    /// One classification step at the current position, as `step` gives it;
    /// the line is left to the caller. Empty comment markers, keywords and
    /// symbols are never taken to match. On failure the offending (or
    /// partial) token is recorded in `data`.
    fn scan_token(&mut self, data: &mut ScannerData, config: &ScannerConfig) -> (r: Result<
        TokenType,
        ScanError,
    >)
        requires
            old(data).wf(),
            old(data).source@.len() <= isize::MAX,
            old(self).current <= old(data).source@.len(),
        ensures
            final(data).wf(),
            final(data).source == old(data).source,
            final(self).start == old(self).start,
            final(self).line == old(self).line,
            final(self).current <= old(data).source@.len(),
            match step(old(data).source@, config@, old(self).current as int, old(self).line as int) {
                Step::Eof => {
                    &&& r is Ok && r->Ok_0 is Eof
                    &&& final(self).current == old(self).current
                    &&& final(data).records() == old(data).records()
                },
                Step::Skip { end } => {
                    &&& r is Ok && (r->Ok_0 is Ignore || r->Ok_0 is NewLine)
                    &&& final(self).current == end
                    &&& old(self).current < end
                    &&& final(data).records() == old(data).records()
                },
                Step::Emit { kind, end } => {
                    &&& r is Ok && r->Ok_0@ == kind && kind.is_emitted()
                    &&& !(r->Ok_0 is Eof || r->Ok_0 is Ignore || r->Ok_0 is NewLine)
                    &&& final(self).current == end
                    &&& old(self).current < end
                    &&& final(data).records() == old(data).records()
                },
                Step::Fail { rec, err } => {
                    &&& r is Err && r->Err_0 == err
                    &&& final(data).records() == old(data).records().push(rec)
                },
            },
    {
        let len = data.source.len();
        let pos = self.current;
        let line = self.line;
        if pos >= len {
            return Ok(TokenType::Eof);
        }
        let src = &data.source;
        if let Some(ms) = config.multi_line_cmt_start {
            if let Some(me) = config.multi_line_cmt_end {
                if ms.unicode_len() > 0 && me.unicode_len() > 0 && pattern_at(src, pos, ms) {
                    let (closed, end) = scan_multi_line_comment(src, pos, ms, me);
                    if closed {
                        let text = text_between(src, pos, end);
                        self.current = end;
                        return Ok(TokenType::Comment(text));
                    }
                    let text = text_between(src, pos, len);
                    data.push(TokenType::Comment(text), pos, len - pos, line);
                    return Err(ScanError::UnexpectedEof(line, pos));
                }
            }
        }
        if let Some(marker) = config.single_line_cmt {
            if marker.unicode_len() > 0 && pattern_at(src, pos, marker) {
                let end = skip_to_newline(src, pos + marker.unicode_len());
                let text = text_between(src, pos, end);
                self.current = end;
                return Ok(TokenType::Comment(text));
            }
        }
        if src[pos] == '\n' {
            self.current = pos + 1;
            return Ok(TokenType::NewLine);
        }
        if is_space(src[pos]) {
            assert(space_end(src@, pos as int) == space_end(src@, pos + 1));
            self.current = skip_space(src, pos + 1);
            return Ok(TokenType::Ignore);
        }
        if let Some(i) = find_symbol(src, pos, config.symbols) {
            proof {
                lemma_first_symbol(src@, pos as int, views(config.symbols@), 0);
            }
            let sym = config.symbols[i];
            self.current = pos + sym.unicode_len();
            return Ok(TokenType::Symbol(sym.to_owned()));
        }
        if let Some(i) = find_keyword(src, pos, config.keywords) {
            proof {
                lemma_first_keyword(src@, pos as int, views(config.keywords@), 0);
            }
            let kw = config.keywords[i];
            self.current = pos + kw.unicode_len();
            return Ok(TokenType::Keyword(kw.to_owned()));
        }
        if src[pos] == '"' {
            let (closed, end, content) = scan_string(src, pos);
            if closed {
                self.current = end;
                return Ok(TokenType::StringLiteral(content));
            }
            data.push(TokenType::StringLiteral(content), pos, len - pos + 1, line);
            return Err(ScanError::UnexpectedEof(line, pos));
        }
        if is_alpha(src[pos]) {
            assert(ident_end(src@, pos as int) == ident_end(src@, pos + 1));
            let end = skip_ident(src, pos + 1);
            let text = text_between(src, pos, end);
            self.current = end;
            return Ok(TokenType::Identifier(text));
        }
        if is_digit(src[pos]) {
            let (token, end) = scan_number(src, pos);
            self.current = end;
            return Ok(token);
        }
        data.push(TokenType::Unknown, pos, 1, line);
        Err(ScanError::UnknownToken(line, pos))
    }
}

/// The number of newlines among `src[a..b]`.
fn count_newlines(src: &Vec<char>, a: usize, b: usize) -> (r: usize)
    requires
        a <= b <= src@.len(),
    ensures
        r == newlines(src@.subrange(a as int, b as int)),
        r <= b - a,
{
    let mut n: usize = 0;
    let mut i: usize = a;
    while i < b
        invariant
            a <= i <= b <= src@.len(),
            n == newlines(src@.subrange(a as int, i as int)),
            n <= i - a,
        decreases b - i,
    {
        assert(src@.subrange(a as int, i + 1).drop_last() =~= src@.subrange(a as int, i as int));
        if src[i] == '\n' {
            n += 1;
        }
        i += 1;
    }
    n
}

} // verus!
