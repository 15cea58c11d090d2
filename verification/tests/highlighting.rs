use highlighter::registry::{builtin_registry, highlight_with_keys, HighlightError, Registry};
use highlighter::style::{Category, Rgba, StyledLine, Theme};
use highlighter::syntax::{HighlightState, SyntaxDefinition};

fn color(red: u8, green: u8, blue: u8) -> Rgba {
    Rgba { red, green, blue, alpha: 255 }
}

/// A minimal syntax: `let` is a keyword and `//` starts a comment; nothing
/// else is recognized.
fn minimal_syntax() -> SyntaxDefinition {
    SyntaxDefinition {
        key: b"mini".to_vec(),
        keywords: vec![b"let".to_vec()],
        line_comment: b"//".to_vec(),
        block_start: Vec::new(),
        block_end: Vec::new(),
        operators: Vec::new(),
        string_delims: Vec::new(),
    }
}

fn test_theme() -> Theme {
    Theme {
        name: b"test".to_vec(),
        keyword: color(1, 0, 0),
        comment: color(0, 2, 0),
        string_lit: color(0, 0, 3),
        operator: color(4, 4, 0),
        plain: color(9, 9, 9),
    }
}

/// A Rust-like syntax equal to the built-in one.
fn rust_syntax() -> SyntaxDefinition {
    let reg = builtin_registry();
    let mut syntaxes = reg.syntaxes;
    syntaxes.pop().unwrap()
}

fn flatten(lines: &[StyledLine]) -> Vec<u8> {
    let mut out = Vec::new();
    for line in lines {
        for span in &line.spans {
            out.extend_from_slice(&span.text);
        }
    }
    out
}

fn lines_equal(a: &[StyledLine], b: &[StyledLine]) -> bool {
    if a.len() != b.len() {
        return false;
    }
    for (la, lb) in a.iter().zip(b.iter()) {
        if la.spans.len() != lb.spans.len() {
            return false;
        }
        for (sa, sb) in la.spans.iter().zip(lb.spans.iter()) {
            if sa.color != sb.color || sa.text != sb.text {
                return false;
            }
        }
    }
    true
}

#[test]
fn example_two_lines() {
    let syn = minimal_syntax();
    let th = test_theme();
    let out = highlighter::highlight::highlight(&syn, &th, b"let x = 1;\n// comment\n");
    assert_eq!(out.len(), 2);

    let first = &out[0].spans;
    assert_eq!(first.len(), 2);
    assert_eq!(first[0].text, b"let".to_vec());
    assert_eq!(first[0].color, th.keyword);
    assert_eq!(first[1].text, b" x = 1;\n".to_vec());
    assert_eq!(first[1].color, th.plain);

    let second = &out[1].spans;
    assert_eq!(second.len(), 1);
    assert_eq!(second[0].text, b"// comment\n".to_vec());
    assert_eq!(second[0].color, th.comment);
}

#[test]
fn round_trip_various_texts() {
    let syn = rust_syntax();
    let th = test_theme();
    let texts: Vec<&[u8]> = vec![
        b"",
        b"\n",
        b"no terminator",
        b"let x = 1;\n// comment\n",
        b"/* spans\nseveral\nlines */ fn f() {}\n",
        b"\"unterminated string\nnext line\n",
        b"\t \x00\x7f\xff odd bytes \n\n\n",
    ];
    for text in texts {
        let out = highlighter::highlight::highlight(&syn, &th, text);
        assert_eq!(flatten(&out), text.to_vec());
        for line in &out {
            for span in &line.spans {
                assert!(!span.text.is_empty());
            }
            for pair in line.spans.windows(2) {
                assert!(pair[0].color != pair[1].color);
            }
        }
    }
}

#[test]
fn line_counts() {
    let syn = rust_syntax();
    let th = test_theme();
    let cases: Vec<(&[u8], usize)> = vec![
        (b"", 0),
        (b"\n", 1),
        (b"a", 1),
        (b"a\n", 1),
        (b"a\nb", 2),
        (b"a\nb\n", 2),
        (b"\n\n\n", 3),
    ];
    for (text, expected) in cases {
        let out = highlighter::highlight::highlight(&syn, &th, text);
        assert_eq!(out.len(), expected);
    }
}

#[test]
fn deterministic() {
    let syn = rust_syntax();
    let th = test_theme();
    let text: &[u8] = b"let x = \"s\"; /* c\nstill c */ y\n";
    let first = highlighter::highlight::highlight(&syn, &th, text);
    let second = highlighter::highlight::highlight(&syn, &th, text);
    assert!(lines_equal(&first, &second));
}

#[test]
fn carried_state_colors_line_as_comment() {
    let syn = rust_syntax();
    let th = test_theme();
    let out = highlighter::highlight::highlight(&syn, &th, b"/* open\nx = 1\n*/ after\n");
    assert_eq!(out.len(), 3);
    // The middle line shows no comment delimiter, yet the carried state
    // colors all of it as one comment span.
    let middle = &out[1].spans;
    assert_eq!(middle.len(), 1);
    assert_eq!(middle[0].text, b"x = 1\n".to_vec());
    assert_eq!(middle[0].color, th.comment);
}

#[test]
fn same_line_without_carried_state_colors_differently() {
    let syn = rust_syntax();
    let th = test_theme();
    let line: &[u8] = b"x = 1\n";

    let (inside, after_inside) =
        highlighter::highlight::highlight_line(&syn, &th, HighlightState::InBlockComment, line);
    assert_eq!(inside.spans.len(), 1);
    assert_eq!(inside.spans[0].color, th.comment);
    assert_eq!(after_inside, HighlightState::InBlockComment);

    let (top, after_top) =
        highlighter::highlight::highlight_line(&syn, &th, HighlightState::Top, line);
    assert_eq!(after_top, HighlightState::Top);
    assert!(top.spans.iter().all(|s| s.color != th.comment));
    assert!(top.spans.iter().any(|s| s.color == th.operator));
}

#[test]
fn unknown_syntax_key() {
    let reg = builtin_registry();
    let err = reg.find_syntax(b"doesnotexist").err().unwrap();
    match err {
        HighlightError::UnknownSyntax(k) => assert_eq!(k, b"doesnotexist".to_vec()),
        HighlightError::UnknownTheme(_) => panic!("wrong error kind"),
    }
}

#[test]
fn unknown_theme_name() {
    let reg = builtin_registry();
    let err = reg.find_theme(b"doesnotexist").err().unwrap();
    match err {
        HighlightError::UnknownTheme(n) => assert_eq!(n, b"doesnotexist".to_vec()),
        HighlightError::UnknownSyntax(_) => panic!("wrong error kind"),
    }
}

#[test]
fn unknown_identifiers_fail_atomically() {
    let reg = builtin_registry();
    let text: &[u8] = b"let x = 1;\n";

    let r = highlight_with_keys(&reg, text, b"doesnotexist", b"base16-ocean.dark");
    assert!(matches!(r, Err(HighlightError::UnknownSyntax(_))));

    let r = highlight_with_keys(&reg, text, b"rs", b"doesnotexist");
    assert!(matches!(r, Err(HighlightError::UnknownTheme(_))));

    let r = highlight_with_keys(&reg, text, b"rs", b"base16-ocean.dark");
    assert!(r.is_ok());
}

#[test]
fn builtin_lookup_succeeds() {
    let reg = builtin_registry();
    let syn = reg.find_syntax(b"rs").ok().unwrap();
    assert_eq!(syn.key, b"rs".to_vec());
    assert!(syn.keywords.contains(&b"let".to_vec()));
    let th = reg.find_theme(b"base16-ocean.dark").ok().unwrap();
    assert_eq!(th.name, b"base16-ocean.dark".to_vec());
    assert_eq!(th.keyword, color(180, 142, 173));
}

#[test]
fn whitespace_line_is_single_plain_span() {
    let syn = rust_syntax();
    let th = test_theme();
    let out = highlighter::highlight::highlight(&syn, &th, b"   \t  \n");
    assert_eq!(out.len(), 1);
    assert_eq!(out[0].spans.len(), 1);
    assert_eq!(out[0].spans[0].color, th.plain);
    assert_eq!(out[0].spans[0].text, b"   \t  \n".to_vec());
}

#[test]
fn syntax_with_no_rules_yields_whole_plain_lines() {
    let syn = SyntaxDefinition {
        key: b"none".to_vec(),
        keywords: Vec::new(),
        line_comment: Vec::new(),
        block_start: Vec::new(),
        block_end: Vec::new(),
        operators: Vec::new(),
        string_delims: Vec::new(),
    };
    let th = test_theme();
    let out = highlighter::highlight::highlight(&syn, &th, b"let x = \"s\"; // c\n");
    assert_eq!(out.len(), 1);
    assert_eq!(out[0].spans.len(), 1);
    assert_eq!(out[0].spans[0].color, th.plain);
}

#[test]
fn string_literal_span() {
    let syn = rust_syntax();
    let th = test_theme();
    let out = highlighter::highlight::highlight(&syn, &th, b"a \"hi\" b\n");
    let spans = &out[0].spans;
    assert_eq!(spans.len(), 3);
    assert_eq!(spans[0].text, b"a ".to_vec());
    assert_eq!(spans[0].color, th.plain);
    assert_eq!(spans[1].text, b"\"hi\"".to_vec());
    assert_eq!(spans[1].color, th.string_lit);
    assert_eq!(spans[2].text, b" b\n".to_vec());
    assert_eq!(spans[2].color, th.plain);
}

#[test]
fn unterminated_string_runs_to_line_end() {
    let syn = rust_syntax();
    let th = test_theme();
    let out = highlighter::highlight::highlight(&syn, &th, b"\"open\nnext\n");
    assert_eq!(out.len(), 2);
    assert_eq!(out[0].spans.len(), 1);
    assert_eq!(out[0].spans[0].color, th.string_lit);
    // A string does not span lines: the next line is back at top level.
    assert_eq!(out[1].spans.len(), 1);
    assert_eq!(out[1].spans[0].color, th.plain);
}

#[test]
fn block_comment_closed_on_same_line() {
    let syn = rust_syntax();
    let th = test_theme();
    let out = highlighter::highlight::highlight(&syn, &th, b"/* c */ x\n");
    let spans = &out[0].spans;
    assert_eq!(spans.len(), 2);
    assert_eq!(spans[0].text, b"/* c */".to_vec());
    assert_eq!(spans[0].color, th.comment);
    assert_eq!(spans[1].text, b" x\n".to_vec());
    assert_eq!(spans[1].color, th.plain);
}

#[test]
fn keyword_needs_word_boundary() {
    let syn = rust_syntax();
    let th = test_theme();
    let out = highlighter::highlight::highlight(&syn, &th, b"letter let\n");
    let spans = &out[0].spans;
    // `letter` is a plain word; the standalone `let` is the keyword.
    assert_eq!(spans[0].text, b"letter ".to_vec());
    assert_eq!(spans[0].color, th.plain);
    assert_eq!(spans[1].text, b"let".to_vec());
    assert_eq!(spans[1].color, th.keyword);
    assert_eq!(spans[2].text, b"\n".to_vec());
    assert_eq!(spans[2].color, th.plain);
}

#[test]
fn operators_are_colored() {
    let syn = rust_syntax();
    let th = test_theme();
    let out = highlighter::highlight::highlight(&syn, &th, b"a = b + c\n");
    let spans = &out[0].spans;
    assert_eq!(spans.len(), 5);
    assert_eq!(spans[1].text, b"=".to_vec());
    assert_eq!(spans[1].color, th.operator);
    assert_eq!(spans[3].text, b"+".to_vec());
    assert_eq!(spans[3].color, th.operator);
}

#[test]
fn adjacent_same_color_tokens_are_merged() {
    let syn = rust_syntax();
    let th = test_theme();
    // `. ( ) ;` are all unrecognized bytes between words: every token in this
    // line is plain, so the whole line merges into one span.
    let out = highlighter::highlight::highlight(&syn, &th, b"a.b(c);\n");
    assert_eq!(out[0].spans.len(), 1);
    assert_eq!(out[0].spans[0].text, b"a.b(c);\n".to_vec());
}

#[test]
fn registry_picks_first_matching_entry() {
    let mut reg = Registry { syntaxes: Vec::new(), themes: Vec::new() };
    let mut second = minimal_syntax();
    second.keywords = Vec::new();
    reg.syntaxes.push(minimal_syntax());
    reg.syntaxes.push(second);
    let found = reg.find_syntax(b"mini").ok().unwrap();
    assert_eq!(found.keywords.len(), 1);
}
