use confignode::document::{Document, Statement};
use confignode::grammar::SyntaxErrorKind;
use confignode::pairs::Pair;
use confignode::parser::{ConfigNodeParser, SyntaxError};
use confignode::tree::{parse_assignment, parse_node, parse_statements, parse_string};

fn assignment(key: &str, value: &str) -> Statement {
    Statement::Assignment(key.to_string(), value.to_string())
}

fn node(kind: &str, children: Vec<Statement>) -> Statement {
    Statement::Node(kind.to_string(), children)
}

fn failure(text: &str) -> SyntaxError {
    match parse_string(text) {
        Ok(document) => panic!("parsed as {:?}", document),
        Err(error) => error,
    }
}

#[test]
fn empty_text_is_an_empty_document() {
    assert_eq!(parse_string(""), Ok(Document { statements: vec![] }));
    assert_eq!(parse_string(" \t\r\n\n"), Ok(Document { statements: vec![] }));
}

#[test]
fn parses_an_assignment() {
    assert_eq!(
        parse_string("name = LiquidFuel\n"),
        Ok(Document { statements: vec![assignment("name", "LiquidFuel")] })
    );
}

#[test]
fn parses_an_assignment_without_blanks_or_line_break() {
    assert_eq!(parse_string("a=1"), Ok(Document { statements: vec![assignment("a", "1")] }));
}

#[test]
fn trims_the_value_and_keeps_the_blanks_inside() {
    assert_eq!(
        parse_string("title \t=  \t Mk1 Command\tPod \t \n"),
        Ok(Document { statements: vec![assignment("title", "Mk1 Command\tPod")] })
    );
}

#[test]
fn accepts_an_empty_value() {
    assert_eq!(
        parse_string("description =\nnext =   \n"),
        Ok(Document { statements: vec![assignment("description", ""), assignment("next", "")] })
    );
}

#[test]
fn the_sign_may_stand_on_a_later_line() {
    assert_eq!(parse_string("a\n\n  = 1\n"), Ok(Document { statements: vec![assignment("a", "1")] }));
}

#[test]
fn parses_nested_blocks() {
    let text = "PART\n{\n    part = fuelTank_3\n    RESOURCE\n    {\n        name = LiquidFuel\n        amount = 50\n    }\n}\n";
    let expected = Document {
        statements: vec![node(
            "PART",
            vec![
                assignment("part", "fuelTank_3"),
                node(
                    "RESOURCE",
                    vec![assignment("name", "LiquidFuel"), assignment("amount", "50")],
                ),
            ],
        )],
    };
    assert_eq!(parse_string(text), Ok(expected));
}

#[test]
fn parses_blocks_on_one_line() {
    assert_eq!(
        parse_string("A { x = 1 } B{}"),
        Ok(Document { statements: vec![node("A", vec![assignment("x", "1")]), node("B", vec![])] })
    );
}

#[test]
fn parses_windows_text() {
    assert_eq!(
        parse_string("MODULE\r\n{\r\n\tname = Foo\r\n}\r\n"),
        Ok(Document { statements: vec![node("MODULE", vec![assignment("name", "Foo")])] })
    );
}

#[test]
fn keeps_characters_outside_ascii() {
    assert_eq!(
        parse_string("título = añejo ✓\n"),
        Ok(Document { statements: vec![assignment("título", "añejo ✓")] })
    );
}

#[test]
fn keeps_the_order_of_the_source() {
    assert_eq!(
        parse_string("b = 2\nA\n{\n}\na = 1\n"),
        Ok(Document {
            statements: vec![assignment("b", "2"), node("A", vec![]), assignment("a", "1")]
        })
    );
}

#[test]
fn a_second_word_in_place_of_the_sign_is_an_error() {
    assert_eq!(
        failure("a b"),
        SyntaxError { kind: SyntaxErrorKind::MissingEquals, offset: 2, line: 0, column: 2 }
    );
}

#[test]
fn a_key_at_the_end_of_the_text_is_an_error() {
    assert_eq!(
        failure("a"),
        SyntaxError { kind: SyntaxErrorKind::MissingEquals, offset: 1, line: 0, column: 1 }
    );
}

#[test]
fn a_key_in_front_of_a_closing_brace_is_an_error() {
    assert_eq!(
        failure("A\n{\n\tkey\n}\n"),
        SyntaxError { kind: SyntaxErrorKind::MissingEquals, offset: 9, line: 3, column: 0 }
    );
}

#[test]
fn an_error_inside_a_block_has_its_line_and_column() {
    assert_eq!(
        failure("A\n{\n  b c\n}\n"),
        SyntaxError { kind: SyntaxErrorKind::MissingEquals, offset: 8, line: 2, column: 4 }
    );
}

#[test]
fn a_block_that_is_not_closed_is_an_error_at_its_brace() {
    assert_eq!(
        failure("A\n{\n"),
        SyntaxError { kind: SyntaxErrorKind::UnclosedNode, offset: 2, line: 1, column: 0 }
    );
}

#[test]
fn the_outer_block_is_named_when_the_inner_one_is_closed() {
    assert_eq!(
        failure("A {\nB {\n}"),
        SyntaxError { kind: SyntaxErrorKind::UnclosedNode, offset: 2, line: 0, column: 2 }
    );
}

#[test]
fn the_inner_block_is_named_when_neither_is_closed() {
    assert_eq!(
        failure("A {\nB {\n"),
        SyntaxError { kind: SyntaxErrorKind::UnclosedNode, offset: 6, line: 1, column: 2 }
    );
}

#[test]
fn a_closing_brace_at_the_top_is_unexpected() {
    assert_eq!(
        failure("}"),
        SyntaxError { kind: SyntaxErrorKind::UnexpectedInput, offset: 0, line: 0, column: 0 }
    );
    assert_eq!(
        failure("a = 1\n}\n"),
        SyntaxError { kind: SyntaxErrorKind::UnexpectedInput, offset: 6, line: 1, column: 0 }
    );
}

#[test]
fn a_statement_cannot_start_with_a_mark() {
    assert_eq!(
        failure("= x"),
        SyntaxError { kind: SyntaxErrorKind::UnexpectedInput, offset: 0, line: 0, column: 0 }
    );
    assert_eq!(
        failure("{\n}\n"),
        SyntaxError { kind: SyntaxErrorKind::UnexpectedInput, offset: 0, line: 0, column: 0 }
    );
}

#[test]
fn a_second_sign_on_a_line_is_unexpected() {
    assert_eq!(
        failure("a = b = c"),
        SyntaxError { kind: SyntaxErrorKind::UnexpectedInput, offset: 6, line: 0, column: 6 }
    );
}

#[test]
fn a_carriage_return_alone_starts_no_new_line() {
    assert_eq!(
        failure("a = 1\r}"),
        SyntaxError { kind: SyntaxErrorKind::UnexpectedInput, offset: 6, line: 0, column: 6 }
    );
}

#[test]
fn the_parser_gives_the_pairs_of_the_statements_and_the_end() {
    let pairs = ConfigNodeParser::parse("A\n{\n\tx = 1\n}\ny = 2\n").unwrap();
    let expected = vec![
        Pair::Node(vec![
            Pair::Identifier("A".to_string()),
            Pair::Assignment(vec![
                Pair::Identifier("x".to_string()),
                Pair::Value("1".to_string()),
            ]),
        ]),
        Pair::Assignment(vec![Pair::Identifier("y".to_string()), Pair::Value("2".to_string())]),
        Pair::EndOfInput,
    ];
    assert_eq!(pairs, expected);
}

#[test]
fn the_parser_reports_the_failure() {
    assert_eq!(
        ConfigNodeParser::parse("x"),
        Err(SyntaxError { kind: SyntaxErrorKind::MissingEquals, offset: 1, line: 0, column: 1 })
    );
}

#[test]
fn a_pair_gives_its_text() {
    assert_eq!(Pair::Identifier("key".to_string()).as_str(), "key");
    assert_eq!(Pair::Value("some value".to_string()).as_str(), "some value");
}

#[test]
fn builds_an_assignment_from_its_two_pairs() {
    let pairs = vec![Pair::Identifier("amount".to_string()), Pair::Value("50".to_string())];
    assert_eq!(parse_assignment(&pairs), assignment("amount", "50"));
}

#[test]
fn builds_a_block_from_its_name_and_its_statements() {
    let pairs = vec![
        Pair::Identifier("RESOURCE".to_string()),
        Pair::Assignment(vec![
            Pair::Identifier("name".to_string()),
            Pair::Value("Ore".to_string()),
        ]),
        Pair::Node(vec![Pair::Identifier("INNER".to_string())]),
    ];
    assert_eq!(
        parse_node(&pairs),
        node("RESOURCE", vec![assignment("name", "Ore"), node("INNER", vec![])])
    );
}

#[test]
fn the_tree_builder_drops_the_end_of_input() {
    let pairs = vec![
        Pair::Assignment(vec![Pair::Identifier("a".to_string()), Pair::Value("1".to_string())]),
        Pair::EndOfInput,
    ];
    assert_eq!(parse_statements(&pairs), vec![assignment("a", "1")]);
    assert_eq!(parse_statements(&[Pair::EndOfInput]), Vec::<Statement>::new());
    assert_eq!(parse_statements(&[]), Vec::<Statement>::new());
}

#[test]
fn an_error_reads_as_line_column_and_reason() {
    assert_eq!(failure("A\n{\n  b c\n}\n").to_string(), "3:5: expected `=` or `{`");
    assert_eq!(failure("}").to_string(), "1:1: unexpected input");
    assert_eq!(failure("A\n{\n").to_string(), "2:1: block is not closed");
    let far = SyntaxError {
        kind: SyntaxErrorKind::UnexpectedInput,
        offset: 0,
        line: usize::MAX,
        column: 122,
    };
    assert_eq!(far.to_string(), format!("{}:123: unexpected input", usize::MAX as u128 + 1));
}

#[test]
fn statements_may_share_a_line_behind_a_block() {
    assert_eq!(
        parse_string("A{}b=1"),
        Ok(Document { statements: vec![node("A", vec![]), assignment("b", "1")] })
    );
}

#[test]
fn tabs_and_empty_lines_separate_like_blanks() {
    assert_eq!(
        parse_string("\n\n a\t=\t1 \n\n\n\tb = 2"),
        Ok(Document { statements: vec![assignment("a", "1"), assignment("b", "2")] })
    );
}

#[test]
fn a_name_may_hold_punctuation() {
    assert_eq!(
        parse_string("@PART[wheel]:NEEDS[x]\n{\n\t%key,0 = 0.5, -1\n}\n"),
        Ok(Document {
            statements: vec![node("@PART[wheel]:NEEDS[x]", vec![assignment("%key,0", "0.5, -1")])]
        })
    );
}

#[test]
fn a_value_ends_at_a_lone_carriage_return() {
    assert_eq!(
        parse_string("a = 1\rb = 2\r"),
        Ok(Document { statements: vec![assignment("a", "1"), assignment("b", "2")] })
    );
}

#[test]
fn a_value_ends_at_a_closing_brace() {
    assert_eq!(
        parse_string("A { a = 1 2 }"),
        Ok(Document { statements: vec![node("A", vec![assignment("a", "1 2")])] })
    );
}

#[test]
fn an_opening_brace_behind_a_value_is_unexpected() {
    assert_eq!(
        failure("a = 1 {\n}\n"),
        SyntaxError { kind: SyntaxErrorKind::UnexpectedInput, offset: 6, line: 0, column: 6 }
    );
}

#[test]
fn blocks_nest_deeply() {
    let depth = 200;
    let mut text = String::new();
    for level in 0..depth {
        text.push_str(&"\t".repeat(level));
        text.push_str("N\n");
        text.push_str(&"\t".repeat(level));
        text.push_str("{\n");
    }
    text.push_str(&"\t".repeat(depth));
    text.push_str("leaf = 1\n");
    for level in (0..depth).rev() {
        text.push_str(&"\t".repeat(level));
        text.push_str("}\n");
    }
    let mut expected = assignment("leaf", "1");
    for _ in 0..depth {
        expected = node("N", vec![expected]);
    }
    let document = parse_string(&text).unwrap();
    assert_eq!(document, Document { statements: vec![expected] });
    assert_eq!(document.to_string(), text);
}
