//! A configurable lexical scanner: source text in, classified and
//! position-tagged tokens out, driven by a caller-supplied description of
//! keywords, symbols and comment markers.
mod laws;
mod model;
mod scanner;
mod text;
mod token;

pub use laws::{
    lemma_deterministic, lemma_greedy_symbol, lemma_keyword_boundary,
    lemma_keyword_boundary_identifier, lemma_line_numbers, lemma_reconstruction, tiles,
};
pub use model::{lex, newlines, run_outcome, CfgView, Step};
pub use scanner::{Scanner, ScannerConfig};
pub use text::{is_alpha, is_alphanum, is_digit, is_space};
pub use token::{Number, ScanError, ScannerData, TokenRec, TokenType, TokenView};
