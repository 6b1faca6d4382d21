use pgmysql_proxy::intercept::{classify, intercept, normalize, Interception};
use pgmysql_proxy::query::{
    backend_type_of, failure_text, is_select_statement, Action, BackendColumn, BackendType,
    BackendValue, Cell, QueryHandler, QueryResult, WireType,
};

fn ack(result: &Option<QueryResult>) -> Option<u64> {
    match result {
        Some(QueryResult::Ack(response)) => Some(response.affected_rows),
        _ => None,
    }
}

#[test]
fn test_handle_mysql_specific_query_version_comment() {
    let handler = QueryHandler::new();
    let result = handler.handle_mysql_specific_query("select @@version_comment limit 1");
    assert!(result.is_some());

    if let Some(QueryResult::Ack(response)) = result {
        assert_eq!(response.affected_rows, 0);
    }
}

#[test]
fn test_handle_mysql_specific_query_dollar_syntax() {
    let handler = QueryHandler::new();
    let result = handler.handle_mysql_specific_query("select $$ something");
    assert!(result.is_some());

    if let Some(QueryResult::Ack(response)) = result {
        assert_eq!(response.affected_rows, 0);
    }
}

#[test]
fn test_handle_mysql_specific_query_case_insensitive() {
    let handler = QueryHandler::new();
    let result = handler.handle_mysql_specific_query("SELECT @@VERSION_COMMENT LIMIT 1");
    assert!(result.is_some());
}

#[test]
fn test_handle_mysql_specific_query_regular_query() {
    let handler = QueryHandler::new();
    let result = handler.handle_mysql_specific_query("SELECT * FROM users");
    assert!(result.is_none());
}

#[test]
fn test_handle_mysql_specific_query_with_whitespace() {
    let handler = QueryHandler::new();
    let result = handler.handle_mysql_specific_query("  select @@version_comment limit 1  ");
    assert!(result.is_some());
}

#[test]
fn test_handle_mysql_specific_query_empty_string() {
    let handler = QueryHandler::new();
    let result = handler.handle_mysql_specific_query("");
    assert!(result.is_none());
}

#[test]
fn test_handle_mysql_specific_query_partial_match() {
    let handler = QueryHandler::new();
    // Any occurrence of the variable is intercepted, whatever follows it.
    let result = handler.handle_mysql_specific_query("select @@version_comment limit 2");
    assert!(result.is_some());

    if let Some(QueryResult::Ack(response)) = result {
        assert_eq!(response.affected_rows, 0);
    }
}

#[test]
fn every_interception_category_acknowledges_zero_rows() {
    let handler = QueryHandler::new();
    let cases = [
        "SELECT @@version_comment",
        "select @@sql_mode",
        "SELECT @@autocommit",
        "SELECT @@SESSION.tx_isolation",
        "select @@global.max_allowed_packet",
        "SELECT CONNECTION_ID()",
        "SELECT DATABASE()",
        "select user()",
        "SELECT VERSION()",
        "SHOW TABLES",
        "DESCRIBE users",
        "desc users",
        "SET NAMES utf8",
        "USE shop",
        "CREATE TABLE t (c ENUM('a','b'))",
        "CREATE TABLE t (c SET('a','b'))",
        "INSERT INTO t VALUES (NOW())",
        "SELECT CURDATE()",
        "SELECT CURTIME()",
        "SELECT CONCAT(a, b) || c FROM t",
        "SELECT $$ x",
    ];
    for sql in cases {
        let result = handler.handle_mysql_specific_query(sql);
        assert_eq!(ack(&result), Some(0), "{}", sql);
        match handler.begin_query(sql) {
            Action::Reply(Ok(QueryResult::Ack(r))) => assert_eq!(r.affected_rows, 0),
            _ => panic!("not answered at once: {}", sql),
        }
    }
}

#[test]
fn interception_categories_are_tried_in_order() {
    assert_eq!(classify("select @@version_comment"), Some(Interception::SystemVariable));
    assert_eq!(classify("select database()"), Some(Interception::SessionFunction));
    assert_eq!(classify("show databases"), Some(Interception::Administrative));
    assert_eq!(classify("set autocommit=1"), Some(Interception::Administrative));
    assert_eq!(classify("show @@sql_mode"), Some(Interception::SystemVariable));
    assert_eq!(classify("create table t (e enum('x'))"), Some(Interception::UnsupportedType));
    assert_eq!(classify("select now()"), Some(Interception::DateTimeFunction));
    assert_eq!(classify("select concat(a) || b"), Some(Interception::ConcatConflict));
    assert_eq!(classify("select concat(a, b)"), None);
    assert_eq!(classify("select $$"), Some(Interception::Placeholder));
    assert_eq!(classify("SHOW TABLES"), None);
    assert_eq!(classify("select 1"), None);
    assert_eq!(classify("settings"), None);
}

#[test]
fn interception_is_case_and_whitespace_tolerant() {
    assert_eq!(
        intercept("  select @@version_comment limit 1  "),
        Some(Interception::SystemVariable)
    );
    assert_eq!(
        intercept("SELECT @@VERSION_COMMENT LIMIT 1"),
        Some(Interception::SystemVariable)
    );
    assert_eq!(intercept("\t\n  SHOW TABLES\n"), Some(Interception::Administrative));
    assert_eq!(normalize("  SELECT @@Version_Comment  "), "select @@version_comment");
}

#[test]
fn unrelated_statements_go_to_the_backend() {
    let handler = QueryHandler::new();
    assert!(intercept("SELECT * FROM users").is_none());
    match handler.begin_query("SELECT * FROM users") {
        Action::Execute(t) => assert_eq!(t, "SELECT * FROM users"),
        _ => panic!("expected execution"),
    }
}

#[test]
fn select_detection_uses_normalized_text() {
    assert!(is_select_statement("  SeLeCt 1"));
    assert!(is_select_statement("select * from t"));
    assert!(!is_select_statement("INSERT INTO t SELECT 1"));
    assert!(!is_select_statement(""));
}

#[test]
fn non_select_success_acknowledges_backend_count() {
    let handler = QueryHandler::new();
    let sql = "UPDATE t SET a = 1";
    match handler.after_execute(sql, sql.to_string(), Ok(3)) {
        Action::Reply(Ok(QueryResult::Ack(r))) => assert_eq!(r.affected_rows, 3),
        _ => panic!("expected an acknowledgement"),
    }
    match handler.after_execute("DELETE FROM t", "DELETE FROM t".to_string(), Ok(0)) {
        Action::Reply(Ok(QueryResult::Ack(r))) => assert_eq!(r.affected_rows, 0),
        _ => panic!("expected an acknowledgement"),
    }
}

#[test]
fn select_with_one_integer_row_round_trips() {
    let handler = QueryHandler::new();
    let sql = "SELECT id FROM t";
    let fetch = match handler.after_execute(sql, sql.to_string(), Ok(1)) {
        Action::Fetch(t) => t,
        _ => panic!("expected a fetch"),
    };
    assert_eq!(fetch, "SELECT id FROM t");
    let columns = vec![BackendColumn { name: "id".to_string(), pg_type: "int4".to_string() }];
    let descs = handler.after_fetch(sql, Ok(columns)).unwrap();
    assert_eq!(descs.len(), 1);
    assert_eq!(descs[0].name, "id");
    assert_eq!(descs[0].wire_type, WireType::Long);
    assert_eq!(descs[0].backend_type, BackendType::Int4);
    match handler.finish_rows(descs, vec![vec![BackendValue::Int4(42)]]) {
        QueryResult::Rows(set) => {
            assert_eq!(set.columns.len(), 1);
            assert_eq!(set.rows.len(), 1);
            assert_eq!(set.rows[0].len(), 1);
            assert!(matches!(set.rows[0][0], Cell::Int(42)));
        }
        _ => panic!("expected rows"),
    }
}

#[test]
fn select_with_no_rows_is_an_empty_described_response() {
    let handler = QueryHandler::new();
    let descs = handler.after_fetch("SELECT * FROM t", Ok(vec![])).unwrap();
    assert!(descs.is_empty());
    match handler.finish_rows(descs, vec![]) {
        QueryResult::Rows(set) => {
            assert!(set.columns.is_empty());
            assert!(set.rows.is_empty());
        }
        _ => panic!("expected rows"),
    }
}

#[test]
fn values_are_mapped_by_backend_type() {
    let handler = QueryHandler::new();
    let columns = vec![
        BackendColumn { name: "a".to_string(), pg_type: "varchar".to_string() },
        BackendColumn { name: "b".to_string(), pg_type: "bool".to_string() },
        BackendColumn { name: "c".to_string(), pg_type: "float4".to_string() },
        BackendColumn { name: "d".to_string(), pg_type: "float8".to_string() },
    ];
    let descs = handler.after_fetch("SELECT a, b, c, d FROM t", Ok(columns)).unwrap();
    let types: Vec<WireType> = descs.iter().map(|d| d.wire_type).collect();
    assert_eq!(
        types,
        vec![WireType::VarString, WireType::VarString, WireType::Float, WireType::Double]
    );
    let row = vec![
        BackendValue::Varchar("hello".to_string()),
        BackendValue::Bool(true),
        BackendValue::Float4(1.5f32.to_bits()),
        BackendValue::Float8(2.25f64.to_bits()),
    ];
    let rows = vec![row, vec![BackendValue::Bool(false)]];
    match handler.finish_rows(descs, rows) {
        QueryResult::Rows(set) => {
            assert!(matches!(&set.rows[0][0], Cell::Text(s) if s == "hello"));
            assert!(matches!(&set.rows[0][1], Cell::Text(s) if s == "true"));
            match set.rows[0][2] {
                Cell::Float(bits) => assert_eq!(f32::from_bits(bits), 1.5),
                _ => panic!("expected a float"),
            }
            match set.rows[0][3] {
                Cell::Double(bits) => assert_eq!(f64::from_bits(bits), 2.25),
                _ => panic!("expected a double"),
            }
            assert!(matches!(&set.rows[1][0], Cell::Text(s) if s == "false"));
        }
        _ => panic!("expected rows"),
    }
}

#[test]
fn unsupported_column_type_fails_the_statement() {
    let handler = QueryHandler::new();
    let columns = vec![
        BackendColumn { name: "id".to_string(), pg_type: "int4".to_string() },
        BackendColumn { name: "t".to_string(), pg_type: "timestamp".to_string() },
        BackendColumn { name: "j".to_string(), pg_type: "jsonb".to_string() },
    ];
    let err = handler.after_fetch("SELECT * FROM t", Ok(columns)).unwrap_err();
    assert_eq!(err.message, "Unsupported type: timestamp");
    assert_eq!(backend_type_of("int4"), Some(BackendType::Int4));
    assert_eq!(backend_type_of("text"), None);
    assert_eq!(backend_type_of("INT4"), None);
}

#[test]
fn backend_failure_is_reported_and_session_stays_usable() {
    let handler = QueryHandler::new();
    let bad = "SELEC * FROM t";
    match handler.after_execute(bad, bad.to_string(), Err("syntax error at or near \"SELEC\"".to_string())) {
        Action::Reply(Err(e)) => assert_eq!(
            e.message,
            "SQL syntax error: Please check your SQL syntax: syntax error at or near \"SELEC\""
        ),
        _ => panic!("expected a failure"),
    }
    let fetch_err = handler
        .after_fetch("SELECT * FROM gone", Err("relation \"gone\" does not exist".to_string()))
        .unwrap_err();
    assert_eq!(fetch_err.message, "Failed to execute query: relation \"gone\" does not exist");
    match handler.begin_query("SELECT 1") {
        Action::Execute(t) => assert_eq!(t, "SELECT 1"),
        _ => panic!("expected execution"),
    }
    match handler.after_execute("SELECT 1", "SELECT 1".to_string(), Ok(1)) {
        Action::Fetch(t) => assert_eq!(t, "SELECT 1"),
        _ => panic!("expected a fetch"),
    }
}

#[test]
fn failure_messages_carry_a_hint() {
    assert_eq!(
        failure_text("CREATE TABLE test(name VARCHAR)", "db error: syntax error at end of input"),
        "SQL syntax error: VARCHAR data type needs parentheses, e.g., VARCHAR(255): db error: syntax error at end of input"
    );
    assert_eq!(
        failure_text("CREATE TABLE t(name VARCHAR(10))", "syntax error"),
        "SQL syntax error: Please check your SQL syntax: syntax error"
    );
    assert_eq!(
        failure_text("CREATE TABLE t(name(VARCHAR(10)))", "syntax error"),
        "SQL syntax error: Column definitions need spaces between name and type: syntax error"
    );
    assert_eq!(
        failure_text("INSERT INTO t VALUES (1)", "duplicate key"),
        "Failed to execute query: duplicate key"
    );
}
