use confignode::document::{Document, Statement};
use confignode::strip::{
    get_name_from_statements, strip_document, strip_numerical_suffix, strip_statements,
};
use confignode::tree::parse_string;

fn assignment(key: &str, value: &str) -> Statement {
    Statement::Assignment(key.to_string(), value.to_string())
}

fn node(kind: &str, children: Vec<Statement>) -> Statement {
    Statement::Node(kind.to_string(), children)
}

#[test]
fn strips_a_numerical_suffix() {
    assert_eq!(strip_numerical_suffix("wheel_3"), "wheel");
    assert_eq!(strip_numerical_suffix("fuelTank_0042"), "fuelTank");
    assert_eq!(strip_numerical_suffix("a_b_12"), "a_b");
}

#[test]
fn leaves_a_name_without_suffix() {
    assert_eq!(strip_numerical_suffix("wheel"), "wheel");
    assert_eq!(strip_numerical_suffix("wheel_3b"), "wheel_3b");
    assert_eq!(strip_numerical_suffix("wheel_x"), "wheel_x");
    assert_eq!(strip_numerical_suffix("wheel3"), "wheel3");
    assert_eq!(strip_numerical_suffix("1234"), "1234");
    assert_eq!(strip_numerical_suffix(""), "");
    assert_eq!(strip_numerical_suffix("wheel_٣"), "wheel_٣");
}

#[test]
fn an_underscore_without_digits_is_no_suffix() {
    assert_eq!(strip_numerical_suffix("wheel_"), "wheel_");
    assert_eq!(strip_numerical_suffix("_"), "_");
    assert_eq!(strip_numerical_suffix("wheel__"), "wheel__");
    assert_eq!(strip_numerical_suffix("wheel_1_"), "wheel_1_");
}

#[test]
fn a_suffix_may_be_all_there_is() {
    assert_eq!(strip_numerical_suffix("_12"), "");
    assert_eq!(strip_numerical_suffix("_0"), "");
}

#[test]
fn only_the_last_suffix_is_stripped() {
    assert_eq!(strip_numerical_suffix("wheel_1_2"), "wheel_1");
    assert_eq!(strip_numerical_suffix("wheel__7"), "wheel_");
}

#[test]
fn a_part_that_ends_with_an_underscore_keeps_its_name() {
    let document =
        Document { statements: vec![node("PART", vec![assignment("part", "wheel_")])] };
    assert_eq!(
        get_name_from_statements("PART", &vec![assignment("part", "wheel_")]),
        Some("wheel_".to_string())
    );
    assert_eq!(strip_document(&document, "PART", "wheel"), document);
    assert_eq!(strip_document(&document, "PART", "wheel_"), Document { statements: vec![] });
}

#[test]
fn a_part_is_named_by_its_part_without_suffix() {
    let children = vec![assignment("name", "other"), assignment("part", "engine_2")];
    assert_eq!(get_name_from_statements("PART", &children), Some("engine".to_string()));
}

#[test]
fn a_resource_and_a_module_are_named_by_their_name() {
    let children = vec![assignment("part", "engine_2"), assignment("name", "Liquid_1")];
    assert_eq!(get_name_from_statements("RESOURCE", &children), Some("Liquid_1".to_string()));
    assert_eq!(get_name_from_statements("MODULE", &children), Some("Liquid_1".to_string()));
}

#[test]
fn another_kind_has_no_name() {
    let children = vec![assignment("part", "engine_2"), assignment("name", "Foo")];
    assert_eq!(get_name_from_statements("PROP", &children), None);
    assert_eq!(get_name_from_statements("part", &children), None);
    assert_eq!(get_name_from_statements("", &children), None);
}

#[test]
fn the_first_naming_assignment_wins() {
    let children = vec![
        assignment("amount", "1"),
        assignment("name", "first"),
        assignment("name", "second"),
    ];
    assert_eq!(get_name_from_statements("MODULE", &children), Some("first".to_string()));
}

#[test]
fn a_block_without_naming_assignment_has_no_name() {
    assert_eq!(get_name_from_statements("MODULE", &vec![]), None);
    assert_eq!(get_name_from_statements("MODULE", &vec![assignment("part", "x")]), None);
    assert_eq!(get_name_from_statements("PART", &vec![assignment("name", "x")]), None);
}

#[test]
fn the_name_is_not_looked_for_in_nested_blocks() {
    let children = vec![node("MODULE", vec![assignment("name", "inner")])];
    assert_eq!(get_name_from_statements("MODULE", &children), None);
}

#[test]
fn a_part_with_suffix_is_removed_by_its_bare_name() {
    let document = Document {
        statements: vec![
            node("PART", vec![assignment("part", "engine_2")]),
            assignment("after", "1"),
        ],
    };
    assert_eq!(
        strip_document(&document, "PART", "engine"),
        Document { statements: vec![assignment("after", "1")] }
    );
}

#[test]
fn a_part_with_suffix_is_not_removed_by_its_full_value() {
    let document = Document {
        statements: vec![
            node("PART", vec![assignment("part", "engine_2")]),
            assignment("after", "1"),
        ],
    };
    assert_eq!(strip_document(&document, "PART", "engine_2"), document);
}

#[test]
fn the_request_is_taken_as_it_is() {
    let document =
        Document { statements: vec![node("PART", vec![assignment("part", "engine")])] };
    assert_eq!(strip_document(&document, "PART", "engine_2"), document);
    assert_eq!(strip_document(&document, "PART", "engine"), Document { statements: vec![] });
}

#[test]
fn all_instanced_copies_are_removed() {
    let document = Document {
        statements: vec![
            node("PART", vec![assignment("part", "wheel_1")]),
            node("PART", vec![assignment("part", "wing_1")]),
            node("PART", vec![assignment("part", "wheel_22")]),
            node("PART", vec![assignment("part", "wheel")]),
        ],
    };
    assert_eq!(
        strip_document(&document, "PART", "wheel"),
        Document { statements: vec![node("PART", vec![assignment("part", "wing_1")])] }
    );
}

#[test]
fn a_module_is_removed_three_levels_deep() {
    let target = node("MODULE", vec![assignment("name", "Foo"), assignment("x", "1")]);
    let sibling = node("MODULE", vec![assignment("name", "Bar")]);
    let other = node("THING", vec![assignment("name", "Foo")]);
    let document = Document {
        statements: vec![node(
            "A",
            vec![
                assignment("a", "1"),
                node(
                    "B",
                    vec![node(
                        "C",
                        vec![sibling.clone(), target, other.clone(), assignment("c", "3")],
                    )],
                ),
                node("D", vec![]),
            ],
        )],
    };
    let expected = Document {
        statements: vec![node(
            "A",
            vec![
                assignment("a", "1"),
                node("B", vec![node("C", vec![sibling, other, assignment("c", "3")])]),
                node("D", vec![]),
            ],
        )],
    };
    assert_eq!(strip_document(&document, "MODULE", "Foo"), expected);
}

#[test]
fn nothing_inside_a_removed_block_is_kept() {
    let document = Document {
        statements: vec![node(
            "MODULE",
            vec![
                assignment("name", "Foo"),
                node("MODULE", vec![assignment("name", "Bar")]),
            ],
        )],
    };
    assert_eq!(strip_document(&document, "MODULE", "Foo"), Document { statements: vec![] });
}

#[test]
fn a_match_inside_a_block_of_the_same_kind_is_removed() {
    let document = Document {
        statements: vec![node(
            "MODULE",
            vec![
                assignment("name", "Bar"),
                node("MODULE", vec![assignment("name", "Foo")]),
            ],
        )],
    };
    assert_eq!(
        strip_document(&document, "MODULE", "Foo"),
        Document { statements: vec![node("MODULE", vec![assignment("name", "Bar")])] }
    );
}

#[test]
fn without_a_match_nothing_changes() {
    let text = "PART\n{\n\tpart = fuelTank_3\n\tRESOURCE\n\t{\n\t\tname = LiquidFuel\n\t\tamount = 50\n\t}\n}\n";
    let document = parse_string(text).unwrap();
    let edited = strip_document(&document, "RESOURCE", "Nonexistent");
    assert_eq!(edited, document);
    assert_eq!(edited.to_string(), text);
}

#[test]
fn a_kind_without_naming_rule_is_never_removed() {
    let document =
        Document { statements: vec![node("PROP", vec![assignment("name", "Foo")])] };
    assert_eq!(strip_document(&document, "PROP", "Foo"), document);
}

#[test]
fn the_kind_must_be_the_same_to_the_letter() {
    let document =
        Document { statements: vec![node("module", vec![assignment("name", "Foo")])] };
    assert_eq!(strip_document(&document, "MODULE", "Foo"), document);
    assert_eq!(strip_document(&document, "module", "Foo"), document);
}

#[test]
fn a_resource_is_removed_from_a_part() {
    let text = "PART\n{\n    part = fuelTank_3\n    RESOURCE\n    {\n        name = LiquidFuel\n        amount = 50\n    }\n}\n";
    let document = parse_string(text).unwrap();
    let edited = strip_document(&document, "RESOURCE", "LiquidFuel");
    assert_eq!(edited.to_string(), "PART\n{\n\tpart = fuelTank_3\n}\n");
}

#[test]
fn stripping_twice_is_stripping_once() {
    let text = "A\n{\n\tMODULE\n\t{\n\t\tname = Foo\n\t}\n\tMODULE\n\t{\n\t\tname = Bar\n\t}\n}\n";
    let document = parse_string(text).unwrap();
    let once = strip_document(&document, "MODULE", "Foo");
    let twice = strip_document(&once, "MODULE", "Foo");
    assert_eq!(once, twice);
    assert_ne!(once, document);
}

#[test]
fn strips_a_list_of_statements() {
    let statements = vec![
        assignment("a", "1"),
        node("RESOURCE", vec![assignment("name", "Ore")]),
        assignment("b", "2"),
    ];
    assert_eq!(
        strip_statements(&statements, "RESOURCE", "Ore"),
        vec![assignment("a", "1"), assignment("b", "2")]
    );
}
