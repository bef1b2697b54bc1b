use vstd::prelude::*;

verus! {

/// A scan failure; the fields are the line (1-based) and the character
/// offset into the source at which the offending token starts.
#[derive(Debug, Clone, Copy, PartialEq, Eq, Structural)]
pub enum ScanError {
    /// No classifier matched at this position.
    UnknownToken(usize, usize),
    /// The input ended inside a token (an unterminated string literal or
    /// multi-line comment).
    UnexpectedEof(usize, usize),
}

/// The exact value of a number literal: `digits` read in base `radix`,
/// divided by `radix` to the power `frac_len`.
#[derive(Debug, Clone, PartialEq)]
pub struct Number {
    pub radix: u32,
    /// Digit values, most significant first; each is below `radix`.
    pub digits: Vec<u8>,
    /// How many of the trailing digits are after the decimal point.
    pub frac_len: usize,
}

#[derive(Debug, PartialEq)]
pub enum TokenType {
    Symbol(String),
    Identifier(String),
    /// The unescaped content, without the quotes.
    StringLiteral(String),
    /// The literal text (with a normalized `0x` / `0b` prefix) and its value.
    NumberLiteral(String, Number),
    Keyword(String),
    Comment(String),
    /// A run of white space; never emitted.
    Ignore,
    /// A newline; never emitted.
    NewLine,
    /// End of input; never emitted.
    Eof,
    /// The one-character span at which an unknown-token failure occurred.
    Unknown,
}

/// The mathematical content of a token.
pub enum TokenView {
    Symbol(Seq<char>),
    Identifier(Seq<char>),
    StringLiteral(Seq<char>),
    /// Text, radix, digit values, number of fractional digits.
    NumberLiteral(Seq<char>, u32, Seq<u8>, int),
    Keyword(Seq<char>),
    Comment(Seq<char>),
    Ignore,
    NewLine,
    Eof,
    Unknown,
}

impl TokenView {
    /// The characters a token's `len` counts: its payload, plus the two
    /// quotes of a string literal.
    pub open spec fn text_len(self) -> int {
        match self {
            TokenView::Symbol(s) => s.len() as int,
            TokenView::Identifier(s) => s.len() as int,
            TokenView::StringLiteral(s) => s.len() as int + 2,
            TokenView::NumberLiteral(s, _, _, _) => s.len() as int,
            TokenView::Keyword(s) => s.len() as int,
            TokenView::Comment(s) => s.len() as int,
            _ => 0,
        }
    }

    /// Whether a token of this kind is ever placed in the output record.
    pub open spec fn is_emitted(self) -> bool {
        !(self is Ignore || self is NewLine || self is Eof)
    }
}

impl View for TokenType {
    type V = TokenView;

    open spec fn view(&self) -> TokenView {
        match self {
            TokenType::Symbol(s) => TokenView::Symbol(s@),
            TokenType::Identifier(s) => TokenView::Identifier(s@),
            TokenType::StringLiteral(s) => TokenView::StringLiteral(s@),
            TokenType::NumberLiteral(s, n) => TokenView::NumberLiteral(
                s@,
                n.radix,
                n.digits@,
                n.frac_len as int,
            ),
            TokenType::Keyword(s) => TokenView::Keyword(s@),
            TokenType::Comment(s) => TokenView::Comment(s@),
            TokenType::Ignore => TokenView::Ignore,
            TokenType::NewLine => TokenView::NewLine,
            TokenType::Eof => TokenView::Eof,
            TokenType::Unknown => TokenView::Unknown,
        }
    }
}

impl TokenType {
    /// Length in characters of the token's payload; a string literal counts
    /// its two quotes as well. Pseudo-kinds have length zero.
    pub fn len(&self) -> (r: usize)
        requires
            self@.text_len() <= usize::MAX,
        ensures
            r == self@.text_len(),
    {
        match self {
            TokenType::Symbol(s) => s.as_str().unicode_len(),
            TokenType::Identifier(s) => s.as_str().unicode_len(),
            TokenType::StringLiteral(s) => s.as_str().unicode_len() + 2,
            TokenType::Keyword(s) => s.as_str().unicode_len(),
            TokenType::NumberLiteral(s, _) => s.as_str().unicode_len(),
            TokenType::Comment(s) => s.as_str().unicode_len(),
            _ => 0,
        }
    }
}

/// One emitted token: its kind, and the span `[start, start + len)` of
/// source characters it covers, on source line `line`.
pub struct TokenRec {
    pub kind: TokenView,
    pub start: int,
    pub len: int,
    pub line: int,
}

/// The output record of a scan: the decoded source and, per emitted token,
/// its kind, start line, start offset and length (in characters).
pub struct ScannerData {
    /// complete source code
    pub source: Vec<char>,
    /// resulting list of tokens
    pub token_types: Vec<TokenType>,
    /// token start line in the source code
    pub token_lines: Vec<usize>,
    /// token start offset, in characters from the start of the source
    pub token_start: Vec<usize>,
    /// token length in characters; for a string literal this counts the
    /// quotes and the escape characters, not only the content
    pub token_len: Vec<usize>,
}

impl ScannerData {
    /// The four token sequences have one entry per token.
    pub open spec fn wf(&self) -> bool {
        &&& self.token_lines@.len() == self.token_types@.len()
        &&& self.token_start@.len() == self.token_types@.len()
        &&& self.token_len@.len() == self.token_types@.len()
    }

    pub open spec fn records(&self) -> Seq<TokenRec> {
        Seq::new(
            self.token_types@.len(),
            |i: int|
                TokenRec {
                    kind: self.token_types@[i]@,
                    start: self.token_start@[i] as int,
                    len: self.token_len@[i] as int,
                    line: self.token_lines@[i] as int,
                },
        )
    }

    /// Appends one token to all four sequences.
    pub(crate) fn push(&mut self, kind: TokenType, start: usize, len: usize, line: usize)
        requires
            old(self).wf(),
        ensures
            final(self).wf(),
            final(self).source == old(self).source,
            final(self).records() == old(self).records().push(
                (TokenRec { kind: kind@, start: start as int, len: len as int, line: line as int }),
            ),
    {
        self.token_start.push(start);
        self.token_len.push(len);
        self.token_types.push(kind);
        self.token_lines.push(line);
        assert(final(self).records() =~= old(self).records().push(
            (TokenRec { kind: kind@, start: start as int, len: len as int, line: line as int }),
        ));
    }
}

impl Default for ScannerData {
    fn default() -> (r: ScannerData)
        ensures
            r.wf(),
            r.source@.len() == 0,
            r.records().len() == 0,
    {
        ScannerData {
            source: Vec::new(),
            token_types: Vec::new(),
            token_lines: Vec::new(),
            token_start: Vec::new(),
            token_len: Vec::new(),
        }
    }
}

} // verus!
