use sql::error::{error_message, ErrorType};
use sql::query::{command_type, parse_query, parse_tokens, CommandParser, CommandType, Query};
use sql::tokens::tokenize;
use sql::utils::delete_query::DeleteParser;
use sql::utils::insert_query::InsertParser;
use sql::utils::select_query::SelectParser;
use sql::utils::update_query::UpdateParser;

fn strings(items: &[&str]) -> Vec<String> {
    items.iter().map(|s| s.to_string()).collect()
}

#[test]
fn test_parse_select_query() {
    let query = "select * from table_name";
    let result = parse_query(query);
    assert!(result.is_ok(), "No se pudo parsear la consulta SELECT");
}

#[test]
fn test_parse_insert_query() {
    let query =
        "INSERT INTO ordenes (id, id_cliente, producto, cantidad) VALUES (111, 6, 'Laptop', 3);";
    let result = parse_query(query);
    assert!(result.is_ok(), "No se pudo parsear la consulta INSERT");
}

#[test]
fn test_parse_update_query() {
    let query = "update table_name set column1 = 'value1' where column2 = 'value2'";
    let result = parse_query(query);
    assert!(result.is_ok(), "No se pudo parsear la consulta UPDATE");
}

#[test]
fn test_parse_delete_query() {
    let query = "delete from table_name where column1 = 'value1'";
    let result = parse_query(query);
    assert!(result.is_ok(), "No se pudo parsear la consulta DELETE");
}

#[test]
fn test_parse_invalid_command() {
    let query = "not_a_command table table_name";
    let result = parse_query(query);
    assert!(result.is_err(), "Comando no válido");
    if let Err(error) = result {
        assert_eq!(error, ErrorType::InvalidSyntax);
    }
}

#[test]
fn test_parse_short_query() {
    let query = "insert into";
    let result = parse_query(query);
    assert!(result.is_err(), "Sintaxis inválida");
    if let Err(error) = result {
        assert_eq!(error, ErrorType::InvalidSyntax);
    }
}

#[test]
fn insert_query_test_insert_parser() {
    let parser = InsertParser;
    let input = vec![
        "insert".to_string(),
        "into".to_string(),
        "test_table".to_string(),
        "name".to_string(),
        "age".to_string(),
        "values".to_string(),
        "Alice".to_string(),
        "30".to_string(),
    ];

    let result = parser.parse(input);

    match result {
        Ok(Query::Insert(insert_query)) => {
            assert_eq!(insert_query.table_name, "test_table");
            assert_eq!(insert_query.columns, vec!["name", "age"]);
            assert_eq!(insert_query.values, vec!["Alice", "30"]);
        }
        other => panic!("{:?}", other),
    }
}

#[test]
fn select_query_test_select_parser() {
    let parser = SelectParser;
    let input = vec![
        "select".to_string(),
        "*".to_string(),
        "from".to_string(),
        "test_table".to_string(),
        "where".to_string(),
        "age".to_string(),
        ">".to_string(),
        "25".to_string(),
        "order".to_string(),
        "by".to_string(),
        "name".to_string(),
        "asc".to_string(),
    ];

    let result = parser.parse(input);

    match result {
        Ok(Query::Select(select_query)) => {
            assert_eq!(select_query.table_name, "test_table");
            assert_eq!(select_query.columns, vec!["*"]);
            assert_eq!(select_query.condition, vec!["age", ">", "25"]);
            assert_eq!(select_query.order_by, vec!["name", "asc"]);
        }
        other => panic!("{:?}", other),
    }
}

#[test]
fn test_delete_parser() {
    let parser = DeleteParser;
    let input = vec![
        "delete".to_string(),
        "from".to_string(),
        "test_table".to_string(),
        "where".to_string(),
        "id".to_string(),
        "=".to_string(),
        "1".to_string(),
    ];

    let result = parser.parse(input);
    assert!(result.is_ok());

    if let Ok(Query::Delete(delete_query)) = result {
        assert_eq!(delete_query.table_name, "test_table");
        assert_eq!(
            delete_query.condition,
            vec!["id".to_string(), "=".to_string(), "1".to_string()]
        );
    }
}

#[test]
fn test_delete_parser_invalid_missing_from() {
    let parser = DeleteParser;
    let input = vec![
        "delete".to_string(),
        "table".to_string(),
        "test_table".to_string(),
    ];

    let result = parser.parse(input);
    assert!(result.is_err());
    if let Err(error) = result {
        assert_eq!(error, ErrorType::InvalidSyntax);
    }
}

#[test]
fn test_update_parser() {
    let parser = UpdateParser;
    let input = vec![
        "update".to_string(),
        "my_table".to_string(),
        "column1".to_string(),
        "=".to_string(),
        "value1".to_string(),
        "where".to_string(),
        "column2".to_string(),
        "=".to_string(),
        "value2".to_string(),
    ];

    let result = parser.parse(input);
    match result {
        Ok(Query::Update(update_query)) => {
            assert_eq!(update_query.table_name, "my_table");
            assert_eq!(update_query.columns, vec!["column1".to_string()]);
            assert_eq!(update_query.values, vec!["value1".to_string()]);
            assert_eq!(
                update_query.condition,
                vec!["column2".to_string(), "=".to_string(), "value2".to_string()]
            );
        }
        other => panic!("{:?}", other),
    }
}

#[test]
fn tokens_are_words_in_lower_case() {
    assert_eq!(
        tokenize("  SELECT\tNombre,\n Edad  FROM\u{a0}Clientes; "),
        vec!["select", "nombre,", "edad", "from", "clientes;"]
    );
    assert_eq!(tokenize(""), Vec::<String>::new());
    assert_eq!(tokenize(" \t\r\n"), Vec::<String>::new());
    assert_eq!(tokenize("x"), vec!["x"]);
    assert_eq!(tokenize("ÁRBOL 'López'"), vec!["árbol", "'lópez'"]);
}

#[test]
fn tokens_agree_with_the_standard_splitter() {
    for statement in [
        "a b",
        " lead",
        "trail ",
        "Two  Spaces",
        "tab\there",
        "uni\u{2003}code\u{3000}space",
        "",
    ] {
        let expected: Vec<String> = statement
            .split_whitespace()
            .map(|s| s.to_lowercase())
            .collect();
        assert_eq!(tokenize(statement), expected);
    }
}

#[test]
fn command_is_told_from_the_keyword() {
    assert_eq!(command_type("select"), Some(CommandType::Select));
    assert_eq!(command_type("insert"), Some(CommandType::Insert));
    assert_eq!(command_type("delete"), Some(CommandType::Delete));
    assert_eq!(command_type("update"), Some(CommandType::Update));
    assert_eq!(command_type("SELECT"), None);
    assert_eq!(command_type("drop"), None);
    assert_eq!(command_type(""), None);
}

#[test]
fn select_syntax() {
    let parser = SelectParser;
    assert_eq!(parser.validate_syntax(&strings(&["select", "*", "from", "t"])), Ok(()));
    assert_eq!(
        parser.validate_syntax(&strings(&["select", "*", "from"])),
        Err(ErrorType::InvalidSyntax)
    );
    assert_eq!(
        parser.validate_syntax(&strings(&["select", "from", "t", "x"])),
        Err(ErrorType::InvalidSyntax)
    );
    assert_eq!(
        parser.validate_syntax(&strings(&["select", "a", "b", "c"])),
        Err(ErrorType::InvalidSyntax)
    );
    assert_eq!(
        parser.validate_syntax(&strings(&["choose", "a", "from", "t"])),
        Err(ErrorType::InvalidSyntax)
    );
    assert_eq!(parser.validate_syntax(&strings(&["select", "a", "b", "from"])), Ok(()));
}

#[test]
fn select_without_a_table_is_a_syntax_error() {
    let result = parse_tokens(strings(&["select", "a", "b", "from"]));
    assert!(matches!(result, Err(ErrorType::InvalidSyntax)));
}

#[test]
fn select_parts() {
    let result = parse_query(
        "SELECT id, nombre FROM clientes WHERE apellido = 'López' AND edad > 3 ORDER BY email DESC, id;",
    );
    match result {
        Ok(Query::Select(q)) => {
            assert_eq!(q.table_name, "clientes");
            assert_eq!(q.columns, vec!["id", "nombre"]);
            assert_eq!(
                q.condition,
                vec!["apellido", "=", "lópez", "and", "edad", ">", "3"]
            );
            assert_eq!(q.order_by, vec!["email", "desc", "id"]);
        }
        other => panic!("{:?}", other),
    }
}

#[test]
fn select_keeps_an_order_that_by_does_not_follow() {
    let result = parse_tokens(strings(&[
        "select", "*", "from", "t", "where", "order", "=", "1", "order", "by", "a",
    ]));
    match result {
        Ok(Query::Select(q)) => {
            assert_eq!(q.condition, vec!["order", "=", "1", "order", "by", "a"]);
            assert_eq!(q.order_by, Vec::<String>::new());
        }
        other => panic!("{:?}", other),
    }
}

#[test]
fn select_table_name_keeps_its_punctuation() {
    match parse_query("select * from ordenes;") {
        Ok(Query::Select(q)) => {
            assert_eq!(q.table_name, "ordenes;");
            assert_eq!(q.columns, vec!["*"]);
            assert_eq!(q.condition, Vec::<String>::new());
            assert_eq!(q.order_by, Vec::<String>::new());
        }
        other => panic!("{:?}", other),
    }
}

#[test]
fn insert_syntax() {
    let parser = InsertParser;
    let ok = strings(&["insert", "into", "t", "(a,", "b)", "values", "(1,", "2)"]);
    assert_eq!(parser.validate_syntax(&ok), Ok(()));
    let mismatch = strings(&["insert", "into", "t", "(a,", "b)", "values", "(1)"]);
    assert_eq!(parser.validate_syntax(&mismatch), Err(ErrorType::InvalidSyntax));
    let more_values = strings(&["insert", "into", "t", "(a)", "values", "(1,", "2)"]);
    assert_eq!(parser.validate_syntax(&more_values), Err(ErrorType::InvalidSyntax));
    let no_values = strings(&["insert", "into", "t", "a", "b"]);
    assert_eq!(parser.validate_syntax(&no_values), Err(ErrorType::InvalidSyntax));
    let no_into = strings(&["insert", "t", "a", "values", "1"]);
    assert_eq!(parser.validate_syntax(&no_into), Err(ErrorType::InvalidSyntax));
    let no_table = strings(&["insert", "into", "values", "1"]);
    assert_eq!(parser.validate_syntax(&no_table), Err(ErrorType::InvalidSyntax));
    let nothing_to_insert = strings(&["insert", "into", "t", "values"]);
    assert_eq!(parser.validate_syntax(&nothing_to_insert), Ok(()));
    let short = strings(&["insert", "into", "t"]);
    assert_eq!(parser.validate_syntax(&short), Err(ErrorType::InvalidSyntax));
}

#[test]
fn insert_count_mismatch_is_a_syntax_error() {
    let result = parse_query("INSERT INTO ordenes (id, producto) VALUES (111);");
    assert!(matches!(result, Err(ErrorType::InvalidSyntax)));
}

#[test]
fn insert_parts() {
    let result = parse_query(
        "INSERT INTO ordenes (id, id_cliente, producto, cantidad) VALUES (111, 6, 'Laptop', 3);",
    );
    match result {
        Ok(Query::Insert(q)) => {
            assert_eq!(q.table_name, "ordenes");
            assert_eq!(q.columns, vec!["id", "id_cliente", "producto", "cantidad"]);
            assert_eq!(q.values, vec!["111", "6", "laptop", "3"]);
        }
        other => panic!("{:?}", other),
    }
}

#[test]
fn insert_parser_without_values_is_a_syntax_error() {
    let parser = InsertParser;
    let result = parser.parse(strings(&["insert", "into", "t", "a"]));
    assert!(matches!(result, Err(ErrorType::InvalidSyntax)));
    let result = parser.parse(strings(&["insert", "into", "values", "a"]));
    assert!(matches!(result, Err(ErrorType::InvalidSyntax)));
    let result = parser.parse(Vec::new());
    assert!(matches!(result, Err(ErrorType::InvalidSyntax)));
}

#[test]
fn insert_parser_without_into_takes_the_first_token_as_table() {
    let parser = InsertParser;
    match parser.parse(strings(&["put", "a", "values", "1"])) {
        Ok(Query::Insert(q)) => {
            assert_eq!(q.table_name, "put");
            assert_eq!(q.columns, vec!["a"]);
            assert_eq!(q.values, vec!["1"]);
        }
        other => panic!("{:?}", other),
    }
}

#[test]
fn delete_syntax() {
    let parser = DeleteParser;
    assert_eq!(parser.validate_syntax(&strings(&["delete", "from", "t"])), Ok(()));
    assert_eq!(
        parser.validate_syntax(&strings(&["delete", "from"])),
        Err(ErrorType::InvalidSyntax)
    );
    assert_eq!(
        parser.validate_syntax(&strings(&["delete", "t", "from"])),
        Err(ErrorType::InvalidSyntax)
    );
    assert_eq!(
        parser.validate_syntax(&strings(&["remove", "from", "t"])),
        Err(ErrorType::InvalidSyntax)
    );
}

#[test]
fn delete_parts() {
    match parse_query("DELETE FROM clientes WHERE id = 3 OR nombre = 'Ana';") {
        Ok(Query::Delete(q)) => {
            assert_eq!(q.table_name, "clientes");
            assert_eq!(q.condition, vec!["id", "=", "3", "or", "nombre", "=", "ana"]);
        }
        other => panic!("{:?}", other),
    }
}

#[test]
fn delete_without_condition_is_a_statement() {
    match parse_query("DELETE FROM clientes") {
        Ok(Query::Delete(q)) => {
            assert_eq!(q.table_name, "clientes");
            assert_eq!(q.condition, Vec::<String>::new());
        }
        other => panic!("{:?}", other),
    }
    assert!(matches!(parse_query("delete from"), Err(ErrorType::InvalidSyntax)));
    assert!(matches!(parse_query(""), Err(ErrorType::InvalidSyntax)));
    assert!(matches!(parse_query("select"), Err(ErrorType::InvalidSyntax)));
}

#[test]
fn update_syntax() {
    let parser = UpdateParser;
    let ok = strings(&["update", "t", "set", "a", "=", "1"]);
    assert_eq!(parser.validate_syntax(&ok), Ok(()));
    let no_set = strings(&["update", "t", "a", "=", "1"]);
    assert_eq!(parser.validate_syntax(&no_set), Err(ErrorType::InvalidSyntax));
    let no_assignment = strings(&["update", "t", "set", "a", "1"]);
    assert_eq!(parser.validate_syntax(&no_assignment), Err(ErrorType::InvalidSyntax));
    let glued = strings(&["update", "t", "set", "a=1"]);
    assert_eq!(parser.validate_syntax(&glued), Err(ErrorType::InvalidSyntax));
    let only_behind_where = strings(&["update", "t", "set", "a", "where", "b", "=", "1"]);
    assert_eq!(parser.validate_syntax(&only_behind_where), Err(ErrorType::InvalidSyntax));
    let dangling = strings(&["update", "t", "set", "a", "="]);
    assert_eq!(parser.validate_syntax(&dangling), Err(ErrorType::InvalidSyntax));
    let short = strings(&["update", "set", "="]);
    assert_eq!(parser.validate_syntax(&short), Err(ErrorType::InvalidSyntax));
}

#[test]
fn update_parts() {
    let result =
        parse_query("UPDATE clientes SET nombre = 'Ana', edad = 30 WHERE id = 5 AND edad < 99;");
    match result {
        Ok(Query::Update(q)) => {
            assert_eq!(q.table_name, "clientes");
            assert_eq!(q.columns, vec!["nombre", "edad"]);
            assert_eq!(q.values, vec!["ana", "30"]);
            assert_eq!(q.condition, vec!["id", "=", "5", "and", "edad", "<", "99"]);
        }
        other => panic!("{:?}", other),
    }
}

#[test]
fn update_without_where_has_no_condition() {
    match parse_query("update t set a = 1") {
        Ok(Query::Update(q)) => {
            assert_eq!(q.columns, vec!["a"]);
            assert_eq!(q.values, vec!["1"]);
            assert_eq!(q.condition, Vec::<String>::new());
        }
        other => panic!("{:?}", other),
    }
}

#[test]
fn update_parser_without_a_table_is_a_syntax_error() {
    let parser = UpdateParser;
    let result = parser.parse(strings(&["set", "a", "=", "update"]));
    assert!(matches!(result, Err(ErrorType::InvalidSyntax)));
    let result = parser.parse(strings(&["set", "a", "=", "1"]));
    assert!(matches!(result, Err(ErrorType::InvalidSyntax)));
}

#[test]
fn unknown_command_is_a_syntax_error() {
    let result = parse_query("drop table clientes now");
    assert!(matches!(result, Err(ErrorType::InvalidSyntax)));
}

#[test]
fn error_messages() {
    assert_eq!(
        error_message(ErrorType::InvalidTable, "no table"),
        "[INVALID_TABLE]: [no table]"
    );
    assert_eq!(
        error_message(ErrorType::InvalidColumn, "no column"),
        "[INVALID_COLUMN]: [no column]"
    );
    assert_eq!(
        error_message(ErrorType::InvalidSyntax, "bad"),
        "[INVALID_SYNTAX]: [bad]"
    );
    assert_eq!(error_message(ErrorType::Error, ""), "[ERROR]: []");
}

#[test]
fn test_insert_parser() {
    let parser = InsertParser;
    let input = vec![
        "insert".to_string(),
        "into".to_string(),
        "test_table".to_string(),
        "name".to_string(),
        "age".to_string(),
        "values".to_string(),
        "Alice".to_string(),
        "30".to_string(),
    ];

    let result = parser.parse(input);

    match result {
        Ok(Query::Insert(insert_query)) => {
            assert_eq!(insert_query.table_name, "test_table");
            assert_eq!(insert_query.columns, vec!["name", "age"]);
            assert_eq!(insert_query.values, vec!["Alice", "30"]);
        }
        other => panic!("{:?}", other),
    }
}

#[test]
fn test_select_parser() {
    let parser = SelectParser;
    let input = vec![
        "select".to_string(),
        "*".to_string(),
        "from".to_string(),
        "test_table".to_string(),
        "where".to_string(),
        "age".to_string(),
        ">".to_string(),
        "25".to_string(),
        "order".to_string(),
        "by".to_string(),
        "name".to_string(),
        "asc".to_string(),
    ];

    let result = parser.parse(input);

    match result {
        Ok(Query::Select(select_query)) => {
            assert_eq!(select_query.table_name, "test_table");
            assert_eq!(select_query.columns, vec!["*"]);
            assert_eq!(select_query.condition, vec!["age", ">", "25"]);
            assert_eq!(select_query.order_by, vec!["name", "asc"]);
        }
        other => panic!("{:?}", other),
    }
}
