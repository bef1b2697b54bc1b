use lexscan::{
    is_alpha, is_alphanum, is_digit, is_space, Number, ScanError, Scanner, ScannerConfig,
    ScannerData, TokenType,
};

const LUA_CONFIG: ScannerConfig = ScannerConfig {
    keywords: &[
        "and", "break", "do", "else", "elseif", "end", "false", "for", "function", "if", "in",
        "local", "nil", "not", "or", "repeat", "return", "then", "true", "until", "while",
    ],
    symbols: &[
        "...", "..", "==", "~=", "<=", ">=", "+", "-", "*", "/", "%", "^", "#", "<", ">", "=", "(",
        ")", "{", "}", "[", "]", ";", ":", ",", ".",
    ],
    single_line_cmt: Some("--"),
    multi_line_cmt_start: Some("--[["),
    multi_line_cmt_end: Some("]]"),
};

fn scan(source: &str) -> (ScannerData, Result<(), ScanError>) {
    let mut data = ScannerData::default();
    let r = Scanner::default().run(source, &LUA_CONFIG, &mut data);
    (data, r)
}

fn lengths_agree(d: &ScannerData) -> bool {
    let n = d.token_types.len();
    d.token_lines.len() == n && d.token_start.len() == n && d.token_len.len() == n
}

#[test]
fn sequences_stay_in_lockstep() {
    for src in ["local x = 1", "local s=\"ab", "x = $", "--[[ open", "", "a\nb\n"] {
        let (d, _) = scan(src);
        assert!(lengths_agree(&d));
    }
}

#[test]
fn reconstruction_drops_only_blanks() {
    let src = "if a then\n  b = \"x y\" -- note\nend";
    let (d, r) = scan(src);
    assert_eq!(r, Ok(()));
    let chars: Vec<char> = src.chars().collect();
    let mut st = String::new();
    for i in 0..d.token_types.len() {
        let s = d.token_start[i];
        st.extend(&chars[s..s + d.token_len[i]]);
    }
    assert_eq!(st, "ifathenb=\"x y\"-- noteend");
}

#[test]
fn scanning_twice_gives_the_same_result() {
    let src = "local t = {1, 2} -- x";
    let (a, ra) = scan(src);
    let (b, rb) = scan(src);
    assert_eq!(a.token_types, b.token_types);
    assert_eq!(a.token_start, b.token_start);
    assert_eq!(a.token_len, b.token_len);
    assert_eq!(a.token_lines, b.token_lines);
    assert_eq!(ra, rb);
}

#[test]
fn keyword_followed_by_alphanumeric_is_identifier() {
    for src in ["localx", "end1", "if_", "doZ"] {
        let (d, r) = scan(src);
        assert_eq!(r, Ok(()));
        assert_eq!(d.token_types, vec![TokenType::Identifier(src.to_string())]);
    }
}

#[test]
fn longer_symbol_listed_first_wins() {
    let (d, r) = scan("..");
    assert_eq!(r, Ok(()));
    assert_eq!(d.token_types, vec![TokenType::Symbol("..".to_string())]);
    assert_eq!(d.token_len, vec![2]);
}

#[test]
fn unknown_character_fails_with_its_position() {
    let (d, r) = scan("a = $");
    assert_eq!(r, Err(ScanError::UnknownToken(1, 4)));
    assert_eq!(d.token_types.last(), Some(&TokenType::Unknown));
    assert_eq!(d.token_len.last(), Some(&1));
}

#[test]
fn non_ascii_letter_outside_string_is_unknown() {
    let (_, r) = scan("é");
    assert_eq!(r, Err(ScanError::UnknownToken(1, 0)));
}

#[test]
fn unterminated_multi_line_comment_is_unexpected_eof() {
    let (d, r) = scan("x --[[ open\nstill");
    assert_eq!(r, Err(ScanError::UnexpectedEof(1, 2)));
    assert_eq!(d.token_types.len(), 2);
    assert_eq!(d.token_types[1], TokenType::Comment("--[[ open\nstill".to_string()));
    assert_eq!(d.token_len[1], 15);
}

#[test]
fn nested_and_quoted_markers_in_multi_line_comment() {
    let (d, r) = scan("--[[ a --[[ b ]] \"]]\" c ]] x");
    assert_eq!(r, Ok(()));
    assert_eq!(d.token_types[0], TokenType::Comment("--[[ a --[[ b ]] \"]]\" c ]]".to_string()));
    assert_eq!(d.token_types[1], TokenType::Identifier("x".to_string()));
}

#[test]
fn lines_are_counted_from_one() {
    let (d, r) = scan("a\n\nb -- c\nd");
    assert_eq!(r, Ok(()));
    assert_eq!(d.token_lines, vec![1, 3, 3, 4]);
    assert_eq!(d.token_start, vec![0, 3, 5, 10]);
}

#[test]
fn string_escapes_are_translated() {
    let (d, r) = scan(r#""a\n\t\"\q""#);
    assert_eq!(r, Ok(()));
    assert_eq!(d.token_types, vec![TokenType::StringLiteral("a\n\t\"q".to_string())]);
    assert_eq!(d.token_len, vec![11]);
}

#[test]
fn decimal_number_with_fraction() {
    let (d, r) = scan("12.50 7.");
    assert_eq!(r, Ok(()));
    assert_eq!(
        d.token_types[0],
        TokenType::NumberLiteral(
            "12.50".to_string(),
            Number { radix: 10, digits: vec![1, 2, 5, 0], frac_len: 2 }
        )
    );
    assert_eq!(
        d.token_types[1],
        TokenType::NumberLiteral("7".to_string(), Number { radix: 10, digits: vec![7], frac_len: 0 })
    );
    assert_eq!(d.token_types[2], TokenType::Symbol(".".to_string()));
}

#[test]
fn hex_and_binary_numbers() {
    let (d, r) = scan("0XfF 0b101");
    assert_eq!(r, Ok(()));
    assert_eq!(
        d.token_types,
        vec![
            TokenType::NumberLiteral(
                "0xfF".to_string(),
                Number { radix: 16, digits: vec![15, 15], frac_len: 0 }
            ),
            TokenType::NumberLiteral(
                "0b101".to_string(),
                Number { radix: 2, digits: vec![1, 0, 1], frac_len: 0 }
            ),
        ]
    );
    assert_eq!(d.token_len, vec![4, 5]);
}

#[test]
fn base_prefix_needs_a_leading_zero() {
    let (d, r) = scan("5x1");
    assert_eq!(r, Ok(()));
    assert_eq!(
        d.token_types,
        vec![
            TokenType::NumberLiteral("5".to_string(), Number { radix: 10, digits: vec![5], frac_len: 0 }),
            TokenType::Identifier("x1".to_string()),
        ]
    );
}

#[test]
fn token_len_counts_characters() {
    assert_eq!(TokenType::StringLiteral("à".to_string()).len(), 3);
    assert_eq!(TokenType::Identifier("abc".to_string()).len(), 3);
    assert_eq!(TokenType::Comment("-- é".to_string()).len(), 4);
    assert_eq!(TokenType::Ignore.len(), 0);
}

#[test]
fn character_classes() {
    assert!(is_digit('7') && !is_digit('a'));
    assert!(is_alpha('_') && is_alpha('Q') && !is_alpha('1') && !is_alpha('é'));
    assert!(is_alphanum('9') && !is_alphanum('-'));
    assert!(is_space('\t') && is_space('\r') && !is_space('\n'));
}

#[test]
fn empty_input_gives_no_tokens() {
    let (d, r) = scan("");
    assert_eq!(r, Ok(()));
    assert!(d.token_types.is_empty());
}

#[test]
fn empty_entries_and_markers_never_match() {
    let config = ScannerConfig {
        keywords: &["", "if"],
        symbols: &["", "+"],
        single_line_cmt: Some(""),
        multi_line_cmt_start: Some(""),
        multi_line_cmt_end: Some(""),
    };
    let mut d = ScannerData::default();
    let r = Scanner::default().run("if a+b", &config, &mut d);
    assert_eq!(r, Ok(()));
    assert_eq!(
        d.token_types,
        vec![
            TokenType::Keyword("if".to_string()),
            TokenType::Identifier("a".to_string()),
            TokenType::Symbol("+".to_string()),
            TokenType::Identifier("b".to_string()),
        ]
    );
}

#[test]
fn newlines_inside_tokens_are_counted() {
    let (d, r) = scan("--[[ a\nb ]] x\n\"p\nq\" y");
    assert_eq!(r, Ok(()));
    assert_eq!(d.token_lines, vec![1, 2, 3, 4]);
    let config = ScannerConfig {
        keywords: &[],
        symbols: &[";\n"],
        single_line_cmt: None,
        multi_line_cmt_start: None,
        multi_line_cmt_end: None,
    };
    let mut d = ScannerData::default();
    let r = Scanner::default().run("a;\nb", &config, &mut d);
    assert_eq!(r, Ok(()));
    assert_eq!(d.token_lines, vec![1, 1, 2]);
}
