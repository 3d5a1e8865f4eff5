use lmc_compiler::lexer::{tokenise, warnings, Kind, Token};

fn chars(s: &str) -> Vec<char> {
    s.chars().collect()
}

fn kinds(s: &str) -> Vec<Kind> {
    tokenise(&chars(s)).into_iter().map(|t: Token| t.kind).collect()
}

#[test]
fn keywords_operators_and_identifiers() {
    assert_eq!(
        kinds("if a >= -3 endif print"),
        vec![
            Kind::If,
            Kind::Identifier { start: 3, end: 4 },
            Kind::Ge,
            Kind::Number(-3),
            Kind::EndIf,
            Kind::Output,
            Kind::NewLine,
        ]
    );
}

#[test]
fn every_line_ends_with_newline_token() {
    let toks = tokenise(&chars("a\n\nb"));
    let lines: Vec<(usize, Kind)> = toks.iter().map(|t| (t.line, t.kind)).collect();
    assert_eq!(
        lines,
        vec![
            (0, Kind::Identifier { start: 0, end: 1 }),
            (0, Kind::NewLine),
            (1, Kind::NewLine),
            (2, Kind::Identifier { start: 3, end: 4 }),
            (2, Kind::NewLine),
        ]
    );
    assert_eq!(kinds("a\n"), vec![Kind::Identifier { start: 0, end: 1 }, Kind::NewLine]);
    assert_eq!(kinds(""), vec![]);
}

#[test]
fn comment_text_is_dropped() {
    assert_eq!(kinds("x // if while 3"), vec![Kind::Identifier { start: 0, end: 1 }, Kind::NewLine]);
    assert_eq!(kinds("x//y"), vec![Kind::Identifier { start: 0, end: 1 }, Kind::NewLine]);
    assert_eq!(kinds("// only"), vec![Kind::NewLine]);
}

#[test]
fn whitespace_run_length_does_not_matter() {
    let a: Vec<Kind> = kinds("x = 1").into_iter().map(strip).collect();
    let b: Vec<Kind> = kinds("x \t  =    1").into_iter().map(strip).collect();
    assert_eq!(a, b);
}

fn strip(k: Kind) -> Kind {
    match k {
        Kind::Identifier { .. } => Kind::Identifier { start: 0, end: 0 },
        other => other,
    }
}

#[test]
fn numbers_follow_i32_syntax() {
    assert_eq!(kinds("+7 -0 2147483647 -2147483648"), vec![
        Kind::Number(7),
        Kind::Number(0),
        Kind::Number(2147483647),
        Kind::Number(-2147483648),
        Kind::NewLine,
    ]);
    assert_eq!(
        kinds("2147483648 - +"),
        vec![Kind::Identifier { start: 0, end: 10 }, Kind::Sub, Kind::Add, Kind::NewLine]
    );
}

#[test]
fn warnings_for_out_of_range_literals() {
    assert_eq!(
        warnings("x = 999\ny = 1000\noutput -5000 // 4000"),
        vec![
            "Warning: number 1000 on line 1 is outside the bounds of LMC numbers".to_string(),
            "Warning: number -5000 on line 2 is outside the bounds of LMC numbers".to_string(),
        ]
    );
    assert!(warnings("x = -999").is_empty());
}
