use confignode::action::Action;
use confignode::backup::{backup_extension, next_backup_step, BackupStep, BACKUP_LIMIT, FIRST_BACKUP};
use confignode::cli::{parse_action, Cli, Commands, Node};
use confignode::document::{Document, Statement};
use confignode::edit::{apply_action, rewrite, Rewrite};
use confignode::grammar::{CharClass, SyntaxErrorKind};
use confignode::parser::SyntaxError;
use confignode::report::{change_report, report_lines, LineChange};
use confignode::text::{chars_of, push_decimal, str_eq, string_of};
use std::path::PathBuf;

fn remove(kind: &str, name: &str) -> Action {
    Action::Remove(kind.to_string(), name.to_string())
}

#[test]
fn a_clean_file_is_not_changed() {
    let text = "PART\n{\n\tpart = a\n}\n";
    assert_eq!(
        rewrite(text, &Action::Clean),
        Ok(Rewrite { text: text.to_string(), changed: false })
    );
}

#[test]
fn cleaning_sets_indentation_and_blanks() {
    assert_eq!(
        rewrite("PART {\n    part=a   \n}", &Action::Clean),
        Ok(Rewrite { text: "PART\n{\n\tpart = a\n}\n".to_string(), changed: true })
    );
}

#[test]
fn removal_rewrites_the_file() {
    let text = "PART\n{\n    part = fuelTank_3\n    RESOURCE\n    {\n        name = LiquidFuel\n        amount = 50\n    }\n}\n";
    assert_eq!(
        rewrite(text, &remove("RESOURCE", "LiquidFuel")),
        Ok(Rewrite { text: "PART\n{\n\tpart = fuelTank_3\n}\n".to_string(), changed: true })
    );
}

#[test]
fn removal_without_match_leaves_a_clean_file_unchanged() {
    let text = "PART\r\n{\r\n\tpart = fuelTank_3\r\n}\r\n";
    assert_eq!(
        rewrite(text, &remove("RESOURCE", "Nonexistent")),
        Ok(Rewrite { text: text.to_string(), changed: false })
    );
}

#[test]
fn windows_input_gives_windows_output() {
    let text = "A\r\n{\r\n\tMODULE\r\n\t{\r\n\t\tname = Foo\r\n\t}\r\n\tx = 1\r\n}\r\n";
    let rewritten = rewrite(text, &remove("MODULE", "Foo")).unwrap();
    assert_eq!(rewritten.text, "A\r\n{\r\n\tx = 1\r\n}\r\n");
    assert!(rewritten.changed);
    assert_eq!(rewritten.text.matches("\r\n").count(), rewritten.text.matches('\n').count());
    assert_eq!(rewritten.text.matches("\r\n").count(), rewritten.text.matches('\r').count());
}

#[test]
fn unix_input_gives_unix_output() {
    let text = "A\n{\n\tMODULE\n\t{\n\t\tname = Foo\n\t}\n\tx = 1\n}\n";
    let rewritten = rewrite(text, &remove("MODULE", "Foo")).unwrap();
    assert_eq!(rewritten.text, "A\n{\n\tx = 1\n}\n");
    assert!(!rewritten.text.contains('\r'));
}

#[test]
fn the_first_line_break_decides_for_mixed_input() {
    assert_eq!(rewrite("a = 1\r\nb = 2\n", &Action::Clean).unwrap().text, "a = 1\r\nb = 2\r\n");
    assert_eq!(rewrite("a = 1\nb = 2\r\n", &Action::Clean).unwrap().text, "a = 1\nb = 2\n");
}

#[test]
fn a_text_that_is_no_document_is_not_rewritten() {
    assert_eq!(
        rewrite("PART\n{\n", &Action::Clean),
        Err(SyntaxError { kind: SyntaxErrorKind::UnclosedNode, offset: 5, line: 1, column: 0 })
    );
    assert_eq!(
        rewrite("a b\n", &remove("PART", "x")),
        Err(SyntaxError { kind: SyntaxErrorKind::MissingEquals, offset: 2, line: 0, column: 2 })
    );
}

#[test]
fn applies_an_action_to_a_document() {
    let document = Document {
        statements: vec![
            Statement::Node(
                "MODULE".to_string(),
                vec![Statement::Assignment("name".to_string(), "Foo".to_string())],
            ),
            Statement::Assignment("a".to_string(), "1".to_string()),
        ],
    };
    assert_eq!(apply_action(&document, &Action::Clean), document);
    assert_eq!(
        apply_action(&document, &remove("MODULE", "Foo")),
        Document { statements: vec![Statement::Assignment("a".to_string(), "1".to_string())] }
    );
}

#[test]
fn an_action_can_be_copied() {
    assert_eq!(remove("PART", "wheel").clone(), remove("PART", "wheel"));
    assert_eq!(Action::Clean.clone(), Action::Clean);
}

#[test]
fn reports_taken_and_added_lines() {
    assert_eq!(change_report("a\nb\n", "a\nc\n"), vec!["  - b".to_string(), "  + c".to_string()]);
}

#[test]
fn reports_nothing_for_equal_texts() {
    assert_eq!(change_report("a\nb\n", "a\nb\n"), Vec::<String>::new());
    assert_eq!(change_report("", ""), Vec::<String>::new());
}

#[test]
fn reports_a_removed_block() {
    let before = "A\n{\n\tMODULE\n\t{\n\t\tname = Foo\n\t}\n\tx = 1\n}\n";
    let after = "A\n{\n\tx = 1\n}\n";
    assert_eq!(
        change_report(before, after),
        vec![
            "  - \tMODULE".to_string(),
            "  - \t{".to_string(),
            "  - \t\tname = Foo".to_string(),
            "  - \t}".to_string(),
        ]
    );
}

#[test]
fn the_report_has_a_line_for_each_change_in_order() {
    let changes = vec![
        LineChange::Both("same".to_string(), "same".to_string()),
        LineChange::Right("new".to_string()),
        LineChange::Left("old".to_string()),
        LineChange::Left("".to_string()),
    ];
    assert_eq!(
        report_lines(&changes),
        vec!["  + new".to_string(), "  - old".to_string(), "  - ".to_string()]
    );
    assert_eq!(report_lines(&vec![]), Vec::<String>::new());
}

#[test]
fn remove_part_asks_for_parts() {
    let files = vec![PathBuf::from("a.cfg"), PathBuf::from("dir/b.cfg")];
    let args = Cli {
        command: Commands::Remove {
            node: Node::Part { name: "wheel".to_string(), files: files.clone() },
        },
    };
    assert_eq!(parse_action(args), (remove("PART", "wheel"), files));
}

#[test]
fn remove_module_asks_for_modules() {
    let files = vec![PathBuf::from("a.cfg")];
    let args = Cli {
        command: Commands::Remove {
            node: Node::Module { name: "ModuleEngines".to_string(), files: files.clone() },
        },
    };
    assert_eq!(parse_action(args), (remove("MODULE", "ModuleEngines"), files));
}

#[test]
fn remove_resource_asks_for_resources() {
    let args = Cli {
        command: Commands::Remove {
            node: Node::Resource { name: "Ore".to_string(), files: vec![] },
        },
    };
    assert_eq!(parse_action(args), (remove("RESOURCE", "Ore"), vec![]));
}

#[test]
fn clean_asks_for_no_removal() {
    let files = vec![PathBuf::from("x.cfg")];
    let args = Cli { command: Commands::Clean { files: files.clone() } };
    assert_eq!(parse_action(args), (Action::Clean, files));
}

#[test]
fn names_the_copies() {
    assert_eq!(backup_extension(1), ".orig1");
    assert_eq!(backup_extension(9), ".orig9");
    assert_eq!(backup_extension(10), ".orig10");
    assert_eq!(backup_extension(42), ".orig42");
    assert_eq!(backup_extension(99), ".orig99");
    assert_eq!(backup_extension(0), ".orig0");
    assert_eq!(backup_extension(4294967295), ".orig4294967295");
}

#[test]
fn a_free_name_is_taken() {
    assert_eq!(next_backup_step(FIRST_BACKUP, false), BackupStep::Use);
    assert_eq!(next_backup_step(99, false), BackupStep::Use);
}

#[test]
fn a_taken_name_leads_to_the_next() {
    assert_eq!(next_backup_step(1, true), BackupStep::Try(2));
    assert_eq!(next_backup_step(98, true), BackupStep::Try(99));
}

#[test]
fn the_search_gives_up_behind_the_last_number() {
    assert_eq!(BACKUP_LIMIT, 100);
    assert_eq!(next_backup_step(99, true), BackupStep::GiveUp);
    assert_eq!(next_backup_step(4294967295, true), BackupStep::GiveUp);
}

#[test]
fn the_search_tries_ninety_nine_names() {
    let mut n = FIRST_BACKUP;
    let mut tried = 1;
    loop {
        match next_backup_step(n, true) {
            BackupStep::Try(next) => {
                assert_eq!(next, n + 1);
                n = next;
                tried += 1;
            }
            step => {
                assert_eq!(step, BackupStep::GiveUp);
                break;
            }
        }
    }
    assert_eq!(tried, 99);
}

#[test]
fn tells_the_classes_of_characters_apart() {
    assert!(CharClass::Space.contains(' ') && CharClass::Space.contains('\t'));
    assert!(CharClass::Space.contains('\n') && CharClass::Space.contains('\r'));
    assert!(!CharClass::Space.contains('a') && !CharClass::Space.contains('='));
    assert!(CharClass::Blank.contains(' ') && CharClass::Blank.contains('\t'));
    assert!(!CharClass::Blank.contains('\n') && !CharClass::Blank.contains('\r'));
    assert!(CharClass::Word.contains('a') && CharClass::Word.contains('_'));
    assert!(!CharClass::Word.contains(' ') && !CharClass::Word.contains('\n'));
    assert!(!CharClass::Word.contains('=') && !CharClass::Word.contains('{'));
    assert!(!CharClass::Word.contains('}'));
    assert!(CharClass::Value.contains('a') && CharClass::Value.contains(' '));
    assert!(CharClass::Value.contains('\t'));
    assert!(!CharClass::Value.contains('\n') && !CharClass::Value.contains('\r'));
    assert!(!CharClass::Value.contains('=') && !CharClass::Value.contains('{'));
    assert!(!CharClass::Value.contains('}'));
}

#[test]
fn turns_text_into_characters_and_back() {
    let chars = chars_of("añ✓b");
    assert_eq!(chars, vec!['a', 'ñ', '✓', 'b']);
    assert_eq!(string_of(&chars, 1, 3), "ñ✓");
    assert_eq!(string_of(&chars, 0, 4), "añ✓b");
    assert_eq!(string_of(&chars, 2, 2), "");
    assert_eq!(chars_of(""), Vec::<char>::new());
}

#[test]
fn compares_texts() {
    assert!(str_eq("PART", "PART"));
    assert!(str_eq("", ""));
    assert!(!str_eq("PART", "PARTS"));
    assert!(!str_eq("PART", "PORT"));
    assert!(!str_eq("part", "PART"));
}

#[test]
fn writes_numbers_in_decimal() {
    let mut text = String::from("n=");
    push_decimal(&mut text, 0);
    push_decimal(&mut text, 7);
    push_decimal(&mut text, 10);
    push_decimal(&mut text, 1905);
    assert_eq!(text, "n=07101905");
    let mut large = String::new();
    push_decimal(&mut large, u128::MAX);
    assert_eq!(large, "340282366920938463463374607431768211455");
}
