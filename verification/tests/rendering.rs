use confignode::document::{clone_statements, Document, Statement};
use confignode::line_endings::has_windows_line_ending;
use confignode::tree::parse_string;

fn assignment(key: &str, value: &str) -> Statement {
    Statement::Assignment(key.to_string(), value.to_string())
}

fn node(kind: &str, children: Vec<Statement>) -> Statement {
    Statement::Node(kind.to_string(), children)
}

fn sample() -> Document {
    Document {
        statements: vec![
            assignment("top", "1"),
            node(
                "PART",
                vec![
                    assignment("part", "fuelTank_3"),
                    node(
                        "RESOURCE",
                        vec![assignment("name", "Liquid Fuel"), assignment("amount", "")],
                    ),
                    node("EMPTY", vec![]),
                ],
            ),
        ],
    }
}

#[test]
fn writes_unix_text() {
    assert_eq!(
        sample().to_string(),
        "top = 1\nPART\n{\n\tpart = fuelTank_3\n\tRESOURCE\n\t{\n\t\tname = Liquid Fuel\n\t\tamount = \n\t}\n\tEMPTY\n\t{\n\t}\n}\n"
    );
}

#[test]
fn writes_windows_text() {
    assert_eq!(
        sample().to_windows(),
        "top = 1\r\nPART\r\n{\r\n\tpart = fuelTank_3\r\n\tRESOURCE\r\n\t{\r\n\t\tname = Liquid Fuel\r\n\t\tamount = \r\n\t}\r\n\tEMPTY\r\n\t{\r\n\t}\r\n}\r\n"
    );
}

#[test]
fn an_empty_document_is_an_empty_text() {
    assert_eq!(Document { statements: vec![] }.to_string(), "");
    assert_eq!(Document { statements: vec![] }.to_windows(), "");
}

#[test]
fn writes_a_single_statement() {
    assert_eq!(assignment("a", "b c").to_string(), "a = b c\n");
    assert_eq!(
        node("A", vec![assignment("x", "1"), node("B", vec![])]).to_string(),
        "A\n{\n\tx = 1\n\tB\n\t{\n\t}\n}\n"
    );
}

#[test]
fn writes_characters_outside_ascii() {
    assert_eq!(assignment("título", "añejo ✓").to_string(), "título = añejo ✓\n");
}

#[test]
fn what_is_written_is_read_as_the_same_document() {
    let document = sample();
    assert_eq!(parse_string(&document.to_string()), Ok(sample()));
    assert_eq!(parse_string(&document.to_windows()), Ok(sample()));
}

#[test]
fn writing_is_a_fixed_point_after_the_first_round() {
    let text = "  PART {\r\n name   =   hello world  \r\n\r\n MODULE\r\n{ }  }";
    let first = parse_string(text).unwrap().to_windows();
    assert_eq!(first, "PART\r\n{\r\n\tname = hello world\r\n\tMODULE\r\n\t{\r\n\t}\r\n}\r\n");
    let second = parse_string(&first).unwrap().to_windows();
    assert_eq!(second, first);
    let unix = parse_string(text).unwrap().to_string();
    assert_eq!(parse_string(&unix).unwrap().to_string(), unix);
}

#[test]
fn a_clean_file_is_reproduced_to_the_letter() {
    let text = "PART\n{\n\tpart = a_1\n\tMODULE\n\t{\n\t\tname = Foo\n\t}\n}\nlast = 1\n";
    assert_eq!(parse_string(text).unwrap().to_string(), text);
}

#[test]
fn windows_output_pairs_every_line_break() {
    let written = sample().to_windows();
    let bytes = written.as_bytes();
    for i in 0..bytes.len() {
        if bytes[i] == b'\n' {
            assert!(i > 0 && bytes[i - 1] == b'\r');
        }
        if bytes[i] == b'\r' {
            assert!(i + 1 < bytes.len() && bytes[i + 1] == b'\n');
        }
    }
    assert!(has_windows_line_ending(&written));
}

#[test]
fn unix_output_holds_no_carriage_return() {
    let written = sample().to_string();
    assert!(!written.contains('\r'));
    assert!(!has_windows_line_ending(&written));
}

#[test]
fn detects_the_line_ending_by_the_first_line_break() {
    assert!(has_windows_line_ending("a = 1\r\nb = 2\r\n"));
    assert!(!has_windows_line_ending("a = 1\nb = 2\n"));
    assert!(has_windows_line_ending("a = 1\r\nb = 2\n"));
    assert!(!has_windows_line_ending("a = 1\nb = 2\r\n"));
    assert!(has_windows_line_ending("\r"));
    assert!(!has_windows_line_ending("\n\r"));
}

#[test]
fn a_text_without_line_break_counts_as_unix() {
    assert!(!has_windows_line_ending(""));
    assert!(!has_windows_line_ending("a = 1"));
}

#[test]
fn a_copy_is_equal_to_its_original() {
    let document = sample();
    assert_eq!(document.clone(), document);
    assert_eq!(document.statements[1].clone(), document.statements[1]);
    assert_eq!(clone_statements(&document.statements), document.statements);
}
