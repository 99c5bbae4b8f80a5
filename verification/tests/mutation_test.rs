use sql::error::ErrorType;
use sql::fields::{join_line, split_line};
use sql::query::{effect, execute, parse_query, Effect};
use sql::text::{char_is_space, same_text};
use sql::table::{match_lines, read_headers};
use sql::tokens::{clean_text, strip_text, Trim};
use sql::utils::delete_query::{delete, delete_line, delete_rows, DeleteQuery};
use sql::utils::insert_query::{generate_row_to_insert, insert, write_csv, InsertQuery};
use sql::utils::select_query::{select, SelectQuery};
use sql::utils::update_query::{
    create_updated_line, update, update_line, update_rows, UpdateQuery,
};

fn strings(items: &[&str]) -> Vec<String> {
    items.iter().map(|s| s.to_string()).collect()
}

fn run(table: &mut Vec<String>, statement: &str) -> Result<Vec<String>, ErrorType> {
    let query = parse_query(statement)?;
    execute(table, query)
}

#[test]
fn insert_query_test_generate_row_to_insert() {
    let headers = vec!["id".to_string(), "name".to_string(), "age".to_string()];
    let columns = vec!["name".to_string(), "age".to_string()];
    let values = vec!["Alice".to_string(), "30".to_string()];

    let result = generate_row_to_insert(&headers, &columns, &values);

    assert_eq!(result, vec!["", "Alice", "30"]);
}

#[test]
fn test_generate_row_to_insert() {
    let headers = vec!["id".to_string(), "name".to_string(), "age".to_string()];
    let columns = vec!["name".to_string(), "age".to_string()];
    let values = vec!["Alice".to_string(), "30".to_string()];

    let result = generate_row_to_insert(&headers, &columns, &values);

    assert_eq!(result, vec!["", "Alice", "30"]);
}

#[test]
fn insert_query_test_write_csv() {
    let mut table: Vec<String> = Vec::new();
    let data = vec!["1".to_string(), "Alice".to_string(), "30".to_string()];

    write_csv(&mut table, Some(data));

    let contents = table.join("\n");
    assert!(contents.contains("1,Alice,30"));
}

#[test]
fn insert_query_test_insert() {
    let mut table = strings(&["id,name,age"]);

    let insert_query = InsertQuery {
        table_name: "test_insert".to_string(),
        columns: vec!["name".to_string(), "age".to_string()],
        values: vec!["Alice".to_string(), "30".to_string()],
    };

    let _ = insert(&mut table, &insert_query);

    let contents = table.join("\n");
    assert!(contents.contains(",Alice,30"));
}

#[test]
fn integration_test_test_insert() {
    let mut table = strings(&["id,name,age"]);

    let insert_query = InsertQuery {
        table_name: "test_insert".to_string(),
        columns: vec!["name".to_string(), "age".to_string()],
        values: vec!["Alice".to_string(), "30".to_string()],
    };

    let _ = insert(&mut table, &insert_query);

    assert_eq!(table, vec!["id,name,age", ",Alice,30"]);
}

#[test]
fn test_create_updated_line() {
    let headers = vec!["column1", "column2", "column3"];
    let columns = vec!["column2".to_string()];
    let values_to_update = vec!["new_value2".to_string()];
    let values = vec![
        "value1".to_string(),
        "value2".to_string(),
        "value3".to_string(),
    ];

    let updated_line = create_updated_line(&headers, &columns, &values_to_update, &values);
    assert_eq!(
        updated_line,
        vec![
            "value1".to_string(),
            "new_value2".to_string(),
            "value3".to_string()
        ]
    );
}

#[test]
fn update_query_test_update_line() {
    let mut table = strings(&["id,id_cliente,producto,cantidad", "1,1,manzana,5", "2,8,pera,3"]);

    update_line(
        &mut table,
        2,
        Some(&vec![
            "2".to_string(),
            "8".to_string(),
            "pera".to_string(),
            "10".to_string(),
        ]),
    );

    let contents = table.join("\n");
    assert!(contents.contains("2,8,pera,10"));
}

#[test]
fn integration_test_test_update_line() {
    let mut table = strings(&["id,id_cliente,producto,cantidad", "1,1,manzana,5", "2,8,pera,3"]);

    update_line(
        &mut table,
        2,
        Some(&vec![
            "2".to_string(),
            "8".to_string(),
            "pera".to_string(),
            "10".to_string(),
        ]),
    );

    assert_eq!(
        table,
        vec!["id,id_cliente,producto,cantidad", "1,1,manzana,5", "2,8,pera,10"]
    );
}

#[test]
fn test_delete_function() {
    let mut table = strings(&["id,name", "1,Agus", "2,Tina"]);

    let delete_query = DeleteQuery {
        table_name: "test_delete_function".to_string(),
        condition: vec!["id".to_string(), "=".to_string(), "1".to_string()],
    };

    let _ = delete(&mut table, &delete_query);

    let contents = table.join("\n") + "\n";
    let expected_result = "id,name\n2,Tina\n";
    assert_eq!(contents, expected_result);
}

#[test]
fn insert_then_select_gives_the_row_back() {
    let mut table = strings(&["id,name,age,city", "1,Agus,30,Lima"]);
    let shown = run(&mut table, "INSERT INTO people (age, name) VALUES (41, 'Tina');").unwrap();
    assert!(shown.is_empty());
    let shown = run(&mut table, "SELECT * FROM people").unwrap();
    assert_eq!(shown, vec!["id,name,age,city", "1,Agus,30,Lima", ",tina,41,"]);
    let fields = split_line(shown.last().unwrap(), ',');
    assert_eq!(fields, vec!["", "tina", "41", ""]);
}

#[test]
fn insert_ignores_columns_that_the_header_lacks() {
    let mut table = strings(&["a,b"]);
    let query = InsertQuery {
        table_name: "t".to_string(),
        columns: strings(&["z", "b"]),
        values: strings(&["1", "2"]),
    };
    assert_eq!(insert(&mut table, &query), Ok(()));
    assert_eq!(table, vec!["a,b", ",2"]);
}

#[test]
fn insert_takes_the_first_of_two_columns_of_one_name() {
    let headers = strings(&["a", "b", "a"]);
    let row =
        generate_row_to_insert(&headers, &strings(&["a", "a", "b"]), &strings(&["1", "2", "3"]));
    assert_eq!(row, vec!["1", "3", "1"]);
    let row = generate_row_to_insert(&strings(&["x", "x"]), &strings(&["x"]), &strings(&["1"]));
    assert_eq!(row, vec!["1", "1"]);
}

#[test]
fn insert_with_lists_of_different_length_is_a_syntax_error() {
    let mut table = strings(&["a,b"]);
    let query = InsertQuery {
        table_name: "t".to_string(),
        columns: strings(&["a", "b"]),
        values: strings(&["1"]),
    };
    assert_eq!(insert(&mut table, &query), Err(ErrorType::InvalidSyntax));
    assert_eq!(table, vec!["a,b"]);
    assert_eq!(
        run(&mut table, "insert into t (a, b) values (1)"),
        Err(ErrorType::InvalidSyntax)
    );
    assert_eq!(table, vec!["a,b"]);
}

#[test]
fn insert_into_a_table_without_lines() {
    let mut table: Vec<String> = Vec::new();
    let query = InsertQuery {
        table_name: "t".to_string(),
        columns: strings(&["a"]),
        values: strings(&["1"]),
    };
    assert_eq!(insert(&mut table, &query), Ok(()));
    assert_eq!(table, vec![""]);
}

#[test]
fn write_csv_without_a_row_writes_nothing() {
    let mut table = strings(&["a,b"]);
    write_csv(&mut table, None);
    assert_eq!(table, vec!["a,b"]);
    write_csv(&mut table, Some(Vec::new()));
    assert_eq!(table, vec!["a,b", ""]);
}

#[test]
fn delete_takes_out_exactly_the_lines_that_match() {
    let mut table = strings(&["id,name", "1,Agus", "2,Tina", "1,Bob", "3,Ana", "1,Eve"]);
    let shown = run(&mut table, "DELETE FROM people WHERE id = 1;").unwrap();
    assert!(shown.is_empty());
    assert_eq!(table, vec!["id,name", "2,Tina", "3,Ana"]);
    run(&mut table, "DELETE FROM people WHERE id = 9;").unwrap();
    assert_eq!(table, vec!["id,name", "2,Tina", "3,Ana"]);
}

#[test]
fn delete_without_condition_takes_out_every_data_line() {
    let mut table = strings(&["id,name", "1,Agus", "2,Tina"]);
    let query = DeleteQuery { table_name: "t".to_string(), condition: Vec::new() };
    assert_eq!(delete(&mut table, &query), Ok(()));
    assert_eq!(table, vec!["id,name"]);
    let mut empty: Vec<String> = Vec::new();
    assert_eq!(delete(&mut empty, &query), Ok(()));
    assert!(empty.is_empty());
}

#[test]
fn delete_on_a_fault_leaves_the_table() {
    let before = strings(&["id,name", "1,Agus", "2"]);
    let mut table = before.clone();
    assert_eq!(
        run(&mut table, "delete from t where name = 'agus'"),
        Err(ErrorType::Error)
    );
    assert_eq!(table, before);
    assert_eq!(
        run(&mut table, "delete from t where age = 1"),
        Err(ErrorType::InvalidColumn)
    );
    assert_eq!(table, before);
}

#[test]
fn delete_line_takes_out_one_line() {
    let mut table = strings(&["h", "a", "b"]);
    delete_line(&mut table, 1);
    assert_eq!(table, vec!["h", "b"]);
    delete_line(&mut table, 2);
    assert_eq!(table, vec!["h", "b"]);
    delete_line(&mut table, 0);
    assert_eq!(table, vec!["b"]);
}

#[test]
fn update_rewrites_only_the_targets_of_lines_that_match() {
    let mut table = strings(&[
        "id,id_cliente,producto,cantidad",
        "1,1,manzana,5",
        "2,8,pera,3",
        "3,8,uva,7",
    ]);
    let shown =
        run(&mut table, "UPDATE ordenes SET cantidad = 10, producto = 'kiwi' WHERE id_cliente = 8;")
            .unwrap();
    assert!(shown.is_empty());
    assert_eq!(
        table,
        vec![
            "id,id_cliente,producto,cantidad",
            "1,1,manzana,5",
            "2,8,kiwi,10",
            "3,8,kiwi,10",
        ]
    );
}

#[test]
fn update_without_condition_adds_a_line() {
    let mut table = strings(&["id,name", "1,Agus"]);
    run(&mut table, "update people set name = 'Tina'").unwrap();
    assert_eq!(table, vec!["id,name", "1,Agus", ",tina"]);
}

#[test]
fn update_with_a_short_condition_rewrites_every_line() {
    let mut table = strings(&["id,name", "1,Agus", "2,Bob"]);
    let query = UpdateQuery {
        table_name: "t".to_string(),
        columns: strings(&["name"]),
        values: strings(&["x"]),
        condition: strings(&["anything"]),
    };
    assert_eq!(update(&mut table, &query), Ok(()));
    assert_eq!(table, vec!["id,name", "1,x", "2,x"]);
}

#[test]
fn update_faults_leave_the_table() {
    let before = strings(&["id,name", "1,Agus", "2"]);
    let mut table = before.clone();
    let query = |columns: &[&str], values: &[&str], condition: &[&str]| UpdateQuery {
        table_name: "t".to_string(),
        columns: strings(columns),
        values: strings(values),
        condition: strings(condition),
    };
    assert_eq!(
        update(&mut table, &query(&["name"], &[], &["id", "=", "1"])),
        Err(ErrorType::InvalidSyntax)
    );
    assert_eq!(
        update(&mut table, &query(&["name"], &["x"], &["age", "=", "1"])),
        Err(ErrorType::InvalidColumn)
    );
    assert_eq!(
        update(&mut table, &query(&["name"], &["x"], &["id", "=", "1", "or"])),
        Err(ErrorType::InvalidSyntax)
    );
    assert_eq!(
        update(&mut table, &query(&["name"], &["x"], &["id", "=", "2"])),
        Err(ErrorType::Error)
    );
    assert_eq!(
        update(&mut table, &query(&["name"], &["x"], &["name", "=", "agus"])),
        Err(ErrorType::Error)
    );
    assert_eq!(table, before);
    assert_eq!(
        update(&mut table, &query(&["name"], &["x"], &["id", "=", "1"])),
        Ok(())
    );
    assert_eq!(table, vec!["id,name", "1,x", "2"]);
}

#[test]
fn update_rows_rewrites_in_place() {
    let mut table = strings(&["a,b", "1,2", "3,4"]);
    let headers = read_headers(&table);
    let query = UpdateQuery {
        table_name: "t".to_string(),
        columns: strings(&["b", "zzz"]),
        values: strings(&["9", "8"]),
        condition: strings(&["a", ">", "1"]),
    };
    assert_eq!(update_rows(&mut table, &headers, &query), Ok(()));
    assert_eq!(table, vec!["a,b", "1,2", "3,9"]);
}

#[test]
fn updated_line_with_a_header_that_repeats() {
    let headers = vec!["a", "b", "a"];
    let row = strings(&["1", "2", "3"]);
    assert_eq!(
        create_updated_line(&headers, &strings(&["b"]), &strings(&["x"]), &row),
        vec!["1", "x", "3"]
    );
    assert_eq!(
        create_updated_line(&headers, &strings(&["a"]), &strings(&["x"]), &row),
        vec!["x", "2", "x"]
    );
}

#[test]
fn update_under_a_header_that_repeats_keeps_the_other_fields() {
    let mut table = strings(&["id,x,x", "1,2,3", "4,5,6"]);
    run(&mut table, "update t set id = 9 where id = 1").unwrap();
    assert_eq!(table, vec!["id,x,x", "9,2,3", "4,5,6"]);
}

#[test]
fn updated_line_drops_fields_beyond_the_header() {
    let headers = vec!["a", "b"];
    let row = strings(&["1", "2", "3"]);
    assert_eq!(
        create_updated_line(&headers, &strings(&["b"]), &strings(&["x"]), &row),
        vec!["1", "x"]
    );
}

#[test]
fn update_line_without_a_row_empties_the_line() {
    let mut table = strings(&["h", "a", "b"]);
    update_line(&mut table, 1, None);
    assert_eq!(table, vec!["h", "", "b"]);
    update_line(&mut table, 3, Some(&strings(&["x"])));
    assert_eq!(table, vec!["h", "", "b"]);
}

#[test]
fn lines_and_fields() {
    assert_eq!(split_line("", ','), vec![""]);
    assert_eq!(split_line("a", ','), vec!["a"]);
    assert_eq!(split_line("a,b", ','), vec!["a", "b"]);
    assert_eq!(split_line(",a,,b,", ','), vec!["", "a", "", "b", ""]);
    assert_eq!(split_line("a;b,c", ';'), vec!["a", "b,c"]);
    assert_eq!(join_line(&strings(&["a", "", "b"])), "a,,b");
    assert_eq!(join_line(&strings(&[""])), "");
    assert_eq!(join_line(&Vec::new()), "");
    for line in ["", ",", "a,b,c", "á,é", ",,,"] {
        let expected: Vec<String> = line.split(',').map(|s| s.to_string()).collect();
        assert_eq!(split_line(line, ','), expected);
        assert_eq!(join_line(&split_line(line, ',')), line);
    }
}

#[test]
fn stripping() {
    assert_eq!(strip_text("  a b \t\n", Trim::Whitespace), "a b");
    assert_eq!(strip_text(" \u{a0} ", Trim::Whitespace), "");
    assert_eq!(strip_text("(('a'));", Trim::Punctuation), "a");
    assert_eq!(strip_text("a(b)c", Trim::Punctuation), "a(b)c");
    assert_eq!(strip_text(",;()'", Trim::Punctuation), "");
    assert_eq!(strip_text("", Trim::Punctuation), "");
    assert_eq!(clean_text("( 'a' )"), "'a'");
    assert_eq!(clean_text("'José',"), "José");
    for text in ["", " a ", "\u{2003}x\u{3000}", "\t\r\n", "a  b"] {
        assert_eq!(strip_text(text, Trim::Whitespace), text.trim());
    }
}

#[test]
fn headers_and_matching_lines() {
    let table = strings(&[" a,b\r", "1,x", "2,y", "3,x"]);
    let headers = read_headers(&table);
    assert_eq!(headers, vec!["a", "b"]);
    assert_eq!(read_headers(&Vec::new()), vec![""]);
    assert_eq!(
        match_lines(&table, &strings(&["b", "=", "x"]), &headers),
        Ok(vec![true, false, true])
    );
    assert_eq!(match_lines(&Vec::new(), &strings(&["b", "=", "x"]), &headers), Ok(vec![]));
    assert_eq!(
        match_lines(&table, &strings(&["c", "=", "x"]), &headers),
        Err(ErrorType::InvalidColumn)
    );
}

#[test]
fn select_does_not_change_the_table() {
    let table = strings(&["a", "2", "1"]);
    let query = SelectQuery {
        table_name: "t".to_string(),
        columns: strings(&["a"]),
        condition: Vec::new(),
        order_by: strings(&["a"]),
    };
    assert_eq!(select(&table, &query), Ok(strings(&["a", "1", "2"])));
    assert_eq!(table, vec!["a", "2", "1"]);
}

#[test]
fn stripping_punctuation_agrees_with_the_standard_trim() {
    for text in ["(a)", "''x''", ";;", "a,b,", "(1,", " (x) ", "plain", "", "')(;,é,;)('"] {
        let expected =
            text.trim_matches(|c| c == '(' || c == ')' || c == ',' || c == '\'' || c == ';');
        assert_eq!(strip_text(text, Trim::Punctuation), expected);
        assert_eq!(clean_text(text), expected.trim());
    }
}

#[test]
fn delete_rows_takes_the_header_as_given() {
    let before = strings(&["ignored", "1,x", "2,y", "3,x"]);
    let headers = strings(&["n", "mark"]);
    let mut table = before.clone();
    assert_eq!(delete_rows(&mut table, &headers, &strings(&["mark", "=", "x"])), Ok(()));
    assert_eq!(table, vec!["ignored", "2,y"]);
    let mut table = before.clone();
    assert_eq!(
        delete_rows(&mut table, &strings(&["n"]), &strings(&["mark", "=", "x"])),
        Err(ErrorType::InvalidColumn)
    );
    assert_eq!(table, before);
}

#[test]
fn update_rows_takes_the_header_as_given() {
    let before = strings(&["ignored", "1,x", "2,y", "3,x"]);
    let headers = strings(&["n", "mark"]);
    let query = UpdateQuery {
        table_name: "t".to_string(),
        columns: strings(&["mark"]),
        values: strings(&["z"]),
        condition: strings(&["n", ">", "1"]),
    };
    let mut table = before.clone();
    assert_eq!(update_rows(&mut table, &headers, &query), Ok(()));
    assert_eq!(table, vec!["ignored", "1,x", "2,z", "3,z"]);
    let mut table = before.clone();
    let wide = strings(&["n", "mark", "more"]);
    assert_eq!(update_rows(&mut table, &wide, &query), Err(ErrorType::Error));
    assert_eq!(table, before);
    let uneven = UpdateQuery {
        table_name: "t".to_string(),
        columns: strings(&["mark"]),
        values: Vec::new(),
        condition: strings(&["n", ">", "1"]),
    };
    assert_eq!(update_rows(&mut table, &headers, &uneven), Err(ErrorType::InvalidSyntax));
    assert_eq!(table, before);
}

#[test]
fn whitespace_is_what_the_standard_library_calls_whitespace() {
    for code in 0..=0x10FFFFu32 {
        if let Some(c) = char::from_u32(code) {
            assert_eq!(char_is_space(c), c.is_whitespace(), "U+{:04X}", code);
        }
    }
}

#[test]
fn texts_are_the_same_when_their_characters_are() {
    for (a, b) in [
        ("", ""),
        ("a", "a"),
        ("a", ""),
        ("", "a"),
        ("abc", "abd"),
        ("abc", "abcd"),
        ("abcd", "abc"),
        ("José", "José"),
        ("José", "Jose"),
        ("\u{10000}", "\u{10000}"),
        ("\u{10000}", "\u{ffff}"),
    ] {
        assert_eq!(same_text(a, b), a == b);
    }
}

#[test]
fn effects_of_queries() {
    let effect_of = |statement: &str| effect(&parse_query(statement).unwrap());
    assert_eq!(effect_of("select * from t"), Effect::Show);
    assert_eq!(effect_of("insert into t (a) values (1)"), Effect::Append);
    assert_eq!(effect_of("delete from t"), Effect::Rewrite);
    assert_eq!(effect_of("delete from t where a = 1"), Effect::Rewrite);
    assert_eq!(effect_of("update t set a = 1"), Effect::Append);
    assert_eq!(effect_of("update t set a = 1 where a = 2"), Effect::Rewrite);
}
