use simpledb::row::Row;
use simpledb::statement::prepare_statement;
use simpledb::statement::Statement;
use simpledb::statement::StatementKind;

fn insert_of(id: u32, username: &str, email: &str) -> Option<Statement> {
    Some(Statement {
        kind: StatementKind::Insert,
        row_to_insert: Some(Box::new(Row::new(id, username, email))),
    })
}

fn select() -> Option<Statement> {
    Some(Statement { kind: StatementKind::Select, row_to_insert: None })
}

#[test]
fn insert_is_parsed() {
    assert_eq!(
        prepare_statement("insert 1 jdoe jdoe@example.com"),
        insert_of(1, "jdoe", "jdoe@example.com")
    );
    assert_eq!(prepare_statement("insert 7 bob bob@y"), insert_of(7, "bob", "bob@y"));
}

#[test]
fn words_may_be_separated_by_any_run_of_separators() {
    assert_eq!(prepare_statement("insert   1\tjdoe \n j@x"), insert_of(1, "jdoe", "j@x"));
    assert_eq!(prepare_statement("insert 1 jdoe j@x \r\n"), insert_of(1, "jdoe", "j@x"));
    assert_eq!(prepare_statement("insert 1\x0cjdoe j@x"), insert_of(1, "jdoe", "j@x"));
    assert_eq!(prepare_statement("insert 1\x0bjdoe j@x"), None);
}

#[test]
fn insert_needs_a_space_after_the_keyword() {
    assert_eq!(prepare_statement("insert\t1 jdoe j@x"), None);
    assert_eq!(prepare_statement("insert"), None);
    assert_eq!(prepare_statement(" insert 1 jdoe j@x"), None);
    assert_eq!(prepare_statement("INSERT 1 jdoe j@x"), None);
}

#[test]
fn insert_needs_exactly_three_arguments() {
    assert_eq!(prepare_statement("insert "), None);
    assert_eq!(prepare_statement("insert 1"), None);
    assert_eq!(prepare_statement("insert 1 jdoe"), None);
    assert_eq!(prepare_statement("insert 1 jdoe j@x more"), None);
}

#[test]
fn identifier_is_a_decimal_number_of_32_bits() {
    assert_eq!(prepare_statement("insert 0 u e"), insert_of(0, "u", "e"));
    assert_eq!(prepare_statement("insert 4294967295 u e"), insert_of(4294967295, "u", "e"));
    assert_eq!(prepare_statement("insert 4294967296 u e"), None);
    assert_eq!(prepare_statement("insert 99999999999999999999 u e"), None);
    assert_eq!(prepare_statement("insert 0000000000000042 u e"), insert_of(42, "u", "e"));
    assert_eq!(prepare_statement("insert +5 u e"), insert_of(5, "u", "e"));
    assert_eq!(prepare_statement("insert + u e"), None);
    assert_eq!(prepare_statement("insert ++5 u e"), None);
    assert_eq!(prepare_statement("insert -1 u e"), None);
    assert_eq!(prepare_statement("insert -0 u e"), None);
    assert_eq!(prepare_statement("insert 1x u e"), None);
    assert_eq!(prepare_statement("insert x1 u e"), None);
    assert_eq!(prepare_statement("insert 1_000 u e"), None);
    assert_eq!(prepare_statement("insert 0x10 u e"), None);
    assert_eq!(prepare_statement("insert 1.5 u e"), None);
    assert_eq!(prepare_statement("insert abc u e"), None);
}

#[test]
fn identifier_agrees_with_the_standard_parser() {
    for text in ["0", "1", "+1", "-1", "4294967295", "4294967296", "", "+", "12a", "007", "٣"] {
        let line = format!("insert {} u e", text);
        let expected = text.parse::<u32>().ok();
        let got = prepare_statement(&line).map(|s| s.row_to_insert.unwrap().id);
        if text.is_empty() {
            assert_eq!(got, None);
        } else {
            assert_eq!(got, expected);
        }
    }
}

#[test]
fn texts_are_limited_by_their_slots() {
    let username = "u".repeat(32);
    let email = "e".repeat(255);
    let line = format!("insert 1 {} {}", username, email);
    assert_eq!(prepare_statement(&line), insert_of(1, &username, &email));
    let line = format!("insert 1 {} e", "u".repeat(33));
    assert_eq!(prepare_statement(&line), None);
    let line = format!("insert 1 u {}", "e".repeat(256));
    assert_eq!(prepare_statement(&line), None);
}

#[test]
fn text_length_counts_bytes() {
    let sixteen = "é".repeat(16);
    let line = format!("insert 1 {} e", sixteen);
    assert_eq!(prepare_statement(&line), insert_of(1, &sixteen, "e"));
    let seventeen = "é".repeat(17);
    let line = format!("insert 1 {} e", seventeen);
    assert_eq!(prepare_statement(&line), None);
}

#[test]
fn select_is_parsed() {
    assert_eq!(prepare_statement("select"), select());
    assert_eq!(prepare_statement("select "), select());
    assert_eq!(prepare_statement("select * from users"), select());
}

#[test]
fn other_lines_are_no_statement() {
    assert_eq!(prepare_statement(""), None);
    assert_eq!(prepare_statement("selectx"), None);
    assert_eq!(prepare_statement("select\t"), None);
    assert_eq!(prepare_statement(" select"), None);
    assert_eq!(prepare_statement("Select"), None);
    assert_eq!(prepare_statement("update 1 u e"), None);
    assert_eq!(prepare_statement(".exit"), None);
}

#[test]
fn parsed_statements_are_well_formed() {
    assert!(prepare_statement("insert 1 jdoe j@x").unwrap().is_well_formed());
    assert!(prepare_statement("select").unwrap().is_well_formed());
    let no_row = Statement { kind: StatementKind::Insert, row_to_insert: None };
    assert!(!no_row.is_well_formed());
    let long = Statement {
        kind: StatementKind::Insert,
        row_to_insert: Some(Box::new(Row::new(1, &"u".repeat(33), "e"))),
    };
    assert!(!long.is_well_formed());
    let spare = Statement {
        kind: StatementKind::Select,
        row_to_insert: Some(Box::new(Row::new(1, &"u".repeat(33), "e"))),
    };
    assert!(spare.is_well_formed());
}
