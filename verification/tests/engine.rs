use simpledb::executor::execute_statement;
use simpledb::layout::TABLE_MAX_ROWS;
use simpledb::row::Row;
use simpledb::statement::prepare_statement;
use simpledb::statement::Statement;
use simpledb::statement::StatementKind;
use simpledb::table::db_open;
use simpledb::table::db_open_new;

fn insert_of(id: u32, username: &str, email: &str) -> Statement {
    Statement {
        kind: StatementKind::Insert,
        row_to_insert: Some(Box::new(Row::new(id, username, email))),
    }
}

fn select() -> Statement {
    Statement { kind: StatementKind::Select, row_to_insert: None }
}

#[test]
fn insert_and_retrieve() {
    let mut table = db_open_new("testdb.mysql");

    let insert = Statement {
        kind: StatementKind::Insert,
        row_to_insert: Some(Box::new(Row::new(1, "jdoe", "jdoe@example.com"))),
    };

    let mut result = execute_statement(&insert, &mut table);
    assert!(result.is_ok());

    let select = Statement { kind: StatementKind::Select, row_to_insert: None };

    result = execute_statement(&select, &mut table);
    assert!(result.is_ok());
}

#[test]
fn max_rows() {
    let mut table = db_open_new("testdb.mysql");

    for _ in 0..TABLE_MAX_ROWS {
        let insert = Statement {
            kind: StatementKind::Insert,
            row_to_insert: Some(Box::new(Row::new(1, "jdoe", "jdoe@example.com"))),
        };

        let result = execute_statement(&insert, &mut table);
        assert!(result.is_ok());
    }

    let insert = Statement {
        kind: StatementKind::Insert,
        row_to_insert: Some(Box::new(Row::new(9999, "jdoe", "jdoe@example.com"))),
    };

    let result = execute_statement(&insert, &mut table);
    assert!(result.is_err());
}

#[test]
fn username_too_long() {
    let result = prepare_statement(
        "insert 1 a-string-that-has-more-than-32-characters-in-it user@example.com",
    );
    assert!(result.is_none());
}

#[test]
fn select_after_one_insert_reads_that_row() {
    let mut table = db_open_new("testdb.mysql");
    let insert = prepare_statement("insert 1 jdoe jdoe@example.com").unwrap();
    assert_eq!(execute_statement(&insert, &mut table), Ok(vec![]));
    let select = prepare_statement("select").unwrap();
    let rows = execute_statement(&select, &mut table).unwrap();
    assert_eq!(rows, vec![Row::new(1, "jdoe", "jdoe@example.com")]);
    assert_eq!(rows[0].id, 1);
    assert_eq!(rows[0].username, b"jdoe".to_vec());
    assert_eq!(rows[0].email, b"jdoe@example.com".to_vec());
}

#[test]
fn rejected_insert_leaves_the_table_empty() {
    let mut table = db_open_new("testdb.mysql");
    let rejected = prepare_statement(
        "insert 1 a-string-that-has-more-than-32-characters-in-it user@example.com",
    );
    assert!(rejected.is_none());
    let rows = execute_statement(&select(), &mut table).unwrap();
    assert!(rows.is_empty());
    assert_eq!(table.len(), 0);
}

#[test]
fn full_table_refuses_the_next_insert() {
    let mut table = db_open_new("testdb.mysql");
    for _ in 0..1400 {
        let result = execute_statement(&insert_of(1, "jdoe", "jdoe@example.com"), &mut table);
        assert_eq!(result, Ok(vec![]));
    }
    assert_eq!(table.len(), 1400);
    let result = execute_statement(&insert_of(1, "jdoe", "jdoe@example.com"), &mut table);
    assert_eq!(result, Err("table is full"));
    assert_eq!(table.len(), 1400);
    let rows = execute_statement(&select(), &mut table).unwrap();
    assert_eq!(rows.len(), 1400);
    assert_eq!(rows[1399], Row::new(1, "jdoe", "jdoe@example.com"));
}

#[test]
fn select_reads_rows_in_insertion_order() {
    let mut table = db_open_new("testdb.mysql");
    assert!(execute_statement(&insert_of(7, "bob", "bob@y"), &mut table).is_ok());
    assert!(execute_statement(&insert_of(8, "cat", "cat@z"), &mut table).is_ok());
    let rows = execute_statement(&select(), &mut table).unwrap();
    assert_eq!(rows, vec![Row::new(7, "bob", "bob@y"), Row::new(8, "cat", "cat@z")]);
}

#[test]
fn select_reads_rows_across_pages_in_order() {
    let mut table = db_open_new("testdb.mysql");
    for i in 0..40u32 {
        let name = format!("user{}", i);
        let mail = format!("user{}@example.com", i);
        assert!(execute_statement(&insert_of(i, &name, &mail), &mut table).is_ok());
    }
    let rows = execute_statement(&select(), &mut table).unwrap();
    assert_eq!(rows.len(), 40);
    for i in 0..40u32 {
        let name = format!("user{}", i);
        let mail = format!("user{}@example.com", i);
        assert_eq!(rows[i as usize], Row::new(i, &name, &mail));
    }
}

#[test]
fn largest_identifier_round_trips() {
    let mut table = db_open_new("testdb.mysql");
    let insert = prepare_statement("insert 4294967295 u e").unwrap();
    assert!(execute_statement(&insert, &mut table).is_ok());
    let rows = execute_statement(&select(), &mut table).unwrap();
    assert_eq!(rows, vec![Row::new(4294967295, "u", "e")]);
    assert_eq!(rows[0].id, u32::MAX);
}

#[test]
fn rows_survive_close_and_reopen() {
    let mut table = db_open_new("testdb.mysql");
    let insert = prepare_statement("insert 2 alice alice@x").unwrap();
    assert!(execute_statement(&insert, &mut table).is_ok());
    let file = table.close();
    assert_eq!(file.path, "testdb.mysql");
    assert_eq!(file.len(), 291);
    let mut again = db_open(file);
    assert_eq!(again.len(), 1);
    let rows = execute_statement(&select(), &mut again).unwrap();
    assert_eq!(rows, vec![Row::new(2, "alice", "alice@x")]);
}

#[test]
fn many_rows_survive_close_and_reopen() {
    let mut table = db_open_new("testdb.mysql");
    for i in 0..195u32 {
        let name = format!("n{}", i);
        assert!(execute_statement(&insert_of(i, &name, "m@x"), &mut table).is_ok());
    }
    let file = table.close();
    assert_eq!(file.len(), 13 * 4096 + 13 * 291);
    let mut again = db_open(file);
    assert_eq!(again.len(), 195);
    let rows = execute_statement(&select(), &mut again).unwrap();
    assert_eq!(rows.len(), 195);
    for i in 0..195u32 {
        let name = format!("n{}", i);
        assert_eq!(rows[i as usize], Row::new(i, &name, "m@x"));
    }
}

#[test]
fn rows_added_in_a_second_session_follow_the_first() {
    let mut table = db_open_new("testdb.mysql");
    assert!(execute_statement(&insert_of(1, "a", "a@x"), &mut table).is_ok());
    let mut second = db_open(table.close());
    assert!(execute_statement(&insert_of(2, "b", "b@x"), &mut second).is_ok());
    let mut third = db_open(second.close());
    assert_eq!(third.len(), 2);
    let rows = execute_statement(&select(), &mut third).unwrap();
    assert_eq!(rows, vec![Row::new(1, "a", "a@x"), Row::new(2, "b", "b@x")]);
}

#[test]
fn closed_file_is_as_long_as_its_packed_rows() {
    for n in [0usize, 1, 3, 13, 14, 15, 28, 29, 100] {
        let mut table = db_open_new("testdb.mysql");
        for _ in 0..n {
            assert!(execute_statement(&insert_of(1, "jdoe", "jdoe@example.com"), &mut table)
                .is_ok());
        }
        let file = table.close();
        assert_eq!(file.len(), (n / 14) * 4096 + (n % 14) * 291);
        if n < 14 {
            assert_eq!(file.len(), n * 291);
        }
    }
}

#[test]
fn closed_file_of_fifteen_rows_has_one_page_and_one_row() {
    let mut table = db_open_new("testdb.mysql");
    for _ in 0..15 {
        assert!(execute_statement(&insert_of(1, "jdoe", "jdoe@example.com"), &mut table).is_ok());
    }
    let file = table.close();
    assert_eq!(file.len(), 4387);
    assert!(file.bytes[4074..4096].iter().all(|b| *b == 0));
}

#[test]
fn insert_touches_one_page_and_adds_one_row() {
    let mut table = db_open_new("testdb.mysql");
    for _ in 0..14 {
        assert!(execute_statement(&insert_of(1, "jdoe", "jdoe@example.com"), &mut table).is_ok());
    }
    let before: Vec<Vec<u8>> = table.pager.pages.clone();
    assert!(execute_statement(&insert_of(5, "eve", "eve@x"), &mut table).is_ok());
    assert_eq!(table.len(), 15);
    for p in 0..100 {
        if p != 1 {
            assert_eq!(table.pager.pages[p], before[p]);
        }
    }
    assert_eq!(table.pager.pages[1].len(), 4096);
    assert_eq!(&table.pager.pages[1][0..4], &[0u8, 0, 0, 5]);
    assert_eq!(&table.pager.pages[1][4..7], b"eve");
    assert!(table.pager.pages[1][7..36].iter().all(|b| *b == 0));
    assert_eq!(&table.pager.pages[1][36..41], b"eve@x");
    assert!(table.pager.pages[1][41..].iter().all(|b| *b == 0));
}

#[test]
fn insert_without_room_changes_nothing() {
    let mut table = db_open_new("testdb.mysql");
    for _ in 0..TABLE_MAX_ROWS {
        assert!(execute_statement(&insert_of(1, "jdoe", "jdoe@example.com"), &mut table).is_ok());
    }
    let pages: Vec<Vec<u8>> = table.pager.pages.clone();
    let result = execute_statement(&insert_of(2, "late", "late@x"), &mut table);
    assert_eq!(result, Err("table is full"));
    assert_eq!(table.pager.pages, pages);
    assert_eq!(table.nrows, 1400);
}

#[test]
fn reopened_table_counts_the_padding_of_fourteen_pages_as_a_row() {
    let mut table = db_open_new("testdb.mysql");
    for i in 0..196u32 {
        assert!(execute_statement(&insert_of(i, "u", "e"), &mut table).is_ok());
    }
    let file = table.close();
    assert_eq!(file.len(), 14 * 4096);
    let mut again = db_open(file);
    assert_eq!(again.len(), 197);
    let rows = execute_statement(&select(), &mut again).unwrap();
    for i in 0..196u32 {
        assert_eq!(rows[i as usize], Row::new(i, "u", "e"));
    }
    assert_eq!(rows[196], Row::new(0, "", ""));
}
