use pgmysql_proxy::query::QueryHandler;
use pgmysql_proxy::repair::{repair_commas, repair_types};
use pgmysql_proxy::text::{chars_of, replace_all, string_of, trim};
use pgmysql_proxy::translate::{rewrite_limit, strip_engine, substitute_dialect};

fn translate(sql: &str) -> String {
    QueryHandler::new().translate_mysql_to_postgres(sql)
}

fn limit(sql: &str) -> String {
    string_of(&rewrite_limit(chars_of(sql)))
}

#[test]
fn auto_increment_becomes_serial_and_stays_so() {
    assert_eq!(translate("INT AUTO_INCREMENT"), "SERIAL");
    assert_eq!(translate("SERIAL"), "SERIAL");
    assert_eq!(translate("bigint auto_increment"), "bigserial");
    assert_eq!(translate("BIGINT AUTO_INCREMENT"), "BIGSERIAL");
    assert_eq!(
        translate("CREATE TABLE users(id INT AUTO_INCREMENT PRIMARY KEY, name VARCHAR(50))"),
        "CREATE TABLE users(id SERIAL PRIMARY KEY, name VARCHAR(50))"
    );
}

#[test]
fn substitution_twice_equals_once_on_translated_text() {
    let cases = [
        "INT AUTO_INCREMENT",
        "SELECT `a` FROM `t`",
        "x TINYINT(1), y TINYINT, z MEDIUMINT UNSIGNED",
        "LONGTEXT MEDIUMTEXT LONGBLOB MEDIUMBLOB BLOB VARBINARY",
        "NOW() CURDATE() CURTIME() YEAR",
        "SELECT * FROM t LIMIT 5, 10",
        "BINARY(16)",
        "CREATE TABLE t (a BINARY(16), b binary(8))",
        "BINARY(BINARY(1))",
    ];
    for sql in cases {
        let once = substitute_dialect(sql);
        assert_eq!(substitute_dialect(&once), once, "{}", sql);
    }
}

#[test]
fn limit_offset_count_is_rewritten() {
    assert!(translate("SELECT * FROM t LIMIT 5, 10").contains("LIMIT 10 OFFSET 5"));
    assert_eq!(translate("SELECT * FROM t LIMIT 5, 10"), "SELECT * FROM t LIMIT 10 OFFSET 5");
    assert_eq!(limit("select * from t limit 0,20;"), "select * from t LIMIT 20 OFFSET 0;");
    assert_eq!(limit("SELECT * FROM t LIMIT 10"), "SELECT * FROM t LIMIT 10");
    assert_eq!(limit("SELECT * FROM t"), "SELECT * FROM t");
    assert_eq!(limit("SELECT * FROM t LIMIT  5 ,  10  "), "SELECT * FROM t LIMIT 10 OFFSET 5  ");
}

#[test]
fn backticks_become_double_quotes() {
    assert_eq!(translate("SELECT `a` FROM `t`"), "SELECT \"a\" FROM \"t\"");
}

#[test]
fn tinyint_maps_to_boolean_or_smallint() {
    assert_eq!(translate("TINYINT(1)"), "BOOLEAN");
    assert_eq!(translate("TINYINT"), "SMALLINT");
    assert_eq!(translate("tinyint(1)"), "boolean");
    assert_eq!(translate("CREATE TABLE t (flag TINYINT)"), "CREATE TABLE t (flag SMALLINT)");
}

#[test]
fn other_type_rules() {
    assert_eq!(translate("a INT UNSIGNED"), "a INT");
    assert_eq!(translate("MEDIUMINT"), "INTEGER");
    assert_eq!(translate("LONGTEXT"), "TEXT");
    assert_eq!(translate("mediumblob"), "bytea");
    assert_eq!(translate("VARBINARY"), "BYTEA");
    assert_eq!(translate("BINARY(16)"), "BYTEA");
    assert_eq!(
        translate("CREATE TABLE t (a BINARY(16), b INT)"),
        "CREATE TABLE t (a BYTEA, b INT)"
    );
    assert_eq!(substitute_dialect("x binary(4)"), "x bytea");
    assert_eq!(substitute_dialect("BINARY(n)"), "BINARY(n)");
    assert_eq!(translate("YEAR"), "SMALLINT");
    assert_eq!(substitute_dialect("DEFAULT NOW()"), "DEFAULT CURRENT_TIMESTAMP");
    assert_eq!(substitute_dialect("curdate()"), "current_date");
}

#[test]
fn create_database_guard_is_dropped() {
    assert_eq!(translate("CREATE DATABASE IF NOT EXISTS shop"), "CREATE DATABASE  shop");
    assert_eq!(
        translate("CREATE TABLE IF NOT EXISTS t (id INT)"),
        "CREATE TABLE IF NOT EXISTS t (id INT)"
    );
}

#[test]
fn engine_clause_is_removed() {
    assert_eq!(
        translate("CREATE TABLE t (id INT) ENGINE=InnoDB;"),
        "CREATE TABLE t (id INT) ;"
    );
    assert_eq!(
        translate("CREATE TABLE t (id INT) ENGINE=InnoDB DEFAULT CHARSET=utf8"),
        "CREATE TABLE t (id INT)  DEFAULT CHARSET=utf8"
    );
    let kept = "CREATE TABLE t (id INT) ENGINE=InnoDB";
    assert_eq!(string_of(&strip_engine(chars_of(kept))), kept);
}

#[test]
fn syntax_repair_runs_before_substitution() {
    let handler = QueryHandler::new();
    assert_eq!(handler.fix_common_sql_errors("name(VARCHAR255)"), "name VARCHAR(255)");
    assert_eq!(
        handler.fix_common_sql_errors("CREATE TABLE test(name(VARCHAR255))"),
        "CREATE TABLE test(name VARCHAR(255))"
    );
    assert_eq!(handler.fix_common_sql_errors("name(VARCHAR(255))"), "name VARCHAR(255)");
    assert_eq!(
        translate("CREATE TABLE test(name VARCHAR255)"),
        "CREATE TABLE test(name VARCHAR(255))"
    );
    assert_eq!(
        translate("CREATE TABLE products(name VARCHAR100, price DECIMAL(10,2))"),
        "CREATE TABLE products(name VARCHAR(100), price DECIMAL(10,2))"
    );
    assert_eq!(repair_types("CHAR10 INT11"), "CHAR(10) INT(11)");
}

#[test]
fn missing_commas_are_repaired_in_create_table() {
    assert_eq!(
        repair_commas("CREATE TABLE t (a INT(11) b VARCHAR(5))".to_string()),
        "CREATE TABLE t (a INT(11), b VARCHAR(5))"
    );
    assert_eq!(
        repair_commas("SELECT (a) b INT".to_string()),
        "SELECT (a) b INT"
    );
}

#[test]
fn text_primitives() {
    assert_eq!(
        string_of(&replace_all(&chars_of("aXbXXc"), &chars_of("X"), &chars_of("yz"))),
        "ayzbyzyzc"
    );
    assert_eq!(
        string_of(&replace_all(&chars_of("aaaa"), &chars_of("aa"), &chars_of("b"))),
        "bb"
    );
    assert_eq!(string_of(&replace_all(&chars_of("abc"), &chars_of(""), &chars_of("z"))), "abc");
    assert_eq!(string_of(&trim(&chars_of("\u{a0} \tx y\n\u{3000}"))), "x y");
    assert_eq!(string_of(&trim(&chars_of("   "))), "");
}
