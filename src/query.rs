//! Per-statement handling: interception, translation, and the mapping of
//! backend outcomes to client responses. The backend itself is driven by the
//! caller: each step says what to do next, and the caller reports back.
use vstd::prelude::*;

use crate::intercept::{intercept, interception_of, normalize, normalized};
use crate::repair::{repair_commas, repair_types, repaired};
use crate::text::{chars_of, contains, contains_seq, matches_at, starts_with};
use crate::translate::{substitute_dialect, substituted};

verus! {

/// An acknowledgement carrying the number of affected rows.
#[derive(PartialEq, Eq, Structural, Debug, Clone, Copy)]
pub struct OkResponse {
    pub affected_rows: u64,
}

/// The backend column types whose values can be sent to a client.
#[derive(PartialEq, Eq, Structural, Debug, Clone, Copy)]
pub enum BackendType {
    Int4,
    Varchar,
    Bool,
    Float4,
    Float8,
}

/// The column types declared to the client.
#[derive(PartialEq, Eq, Structural, Debug, Clone, Copy)]
pub enum WireType {
    Long,
    VarString,
    Float,
    Double,
}

/// A value read from the backend. Floating-point values are carried as their
/// IEEE 754 bit patterns.
#[derive(Debug, Clone)]
pub enum BackendValue {
    Int4(i32),
    Varchar(String),
    Bool(bool),
    Float4(u32),
    Float8(u64),
}

/// A value as it is sent to the client. Floating-point values are carried as
/// their IEEE 754 bit patterns.
#[derive(Debug, Clone)]
pub enum Cell {
    Int(i32),
    Text(String),
    Float(u32),
    Double(u64),
}

/// A column of a backend row: its name and the name of its type.
#[derive(Debug, Clone)]
pub struct BackendColumn {
    pub name: String,
    pub pg_type: String,
}

/// A column as it is described to the client.
#[derive(Debug, Clone)]
pub struct ColumnDesc {
    pub name: String,
    pub wire_type: WireType,
    pub backend_type: BackendType,
}

/// Rows with their column descriptions.
#[derive(Debug, Clone)]
pub struct ResultSet {
    pub columns: Vec<ColumnDesc>,
    pub rows: Vec<Vec<Cell>>,
}

/// The outcome of a statement that succeeded.
#[derive(Debug, Clone)]
pub enum QueryResult {
    Ack(OkResponse),
    Rows(ResultSet),
}

/// A statement that failed; the message is shown to the client.
#[derive(Debug, Clone)]
pub struct QueryError {
    pub message: String,
}

/// What the caller is to do next for a statement.
#[derive(Debug)]
pub enum Action {
    /// Send this response; the statement is done.
    Reply(Result<QueryResult, QueryError>),
    /// Execute this text on the backend and report the affected-row count.
    Execute(String),
    /// Run this text on the backend as a row-returning query and report the
    /// rows.
    Fetch(String),
}

/// The backend type of the given type name, if its values can be sent.
pub open spec fn backend_type_spec(name: Seq<char>) -> Option<BackendType> {
    if name == "int4"@ {
        Some(BackendType::Int4)
    } else if name == "varchar"@ {
        Some(BackendType::Varchar)
    } else if name == "bool"@ {
        Some(BackendType::Bool)
    } else if name == "float4"@ {
        Some(BackendType::Float4)
    } else if name == "float8"@ {
        Some(BackendType::Float8)
    } else {
        None
    }
}

/// The type declared to the client for a backend type. Booleans are sent as
/// text.
pub open spec fn wire_type_spec(t: BackendType) -> WireType {
    match t {
        BackendType::Int4 => WireType::Long,
        BackendType::Varchar => WireType::VarString,
        BackendType::Bool => WireType::VarString,
        BackendType::Float4 => WireType::Float,
        BackendType::Float8 => WireType::Double,
    }
}

/// The text a boolean is rendered as.
pub open spec fn bool_text(b: bool) -> Seq<char> {
    if b {
        "true"@
    } else {
        "false"@
    }
}

/// `c` is the value sent to the client for the backend value `v`.
pub open spec fn transcoded(v: BackendValue, c: Cell) -> bool {
    match v {
        BackendValue::Int4(i) => c == Cell::Int(i),
        BackendValue::Varchar(s) => c matches Cell::Text(t) && t@ == s@,
        BackendValue::Bool(b) => c matches Cell::Text(t) && t@ == bool_text(b),
        BackendValue::Float4(x) => c == Cell::Float(x),
        BackendValue::Float8(x) => c == Cell::Double(x),
    }
}

/// The message for an unsupported column type.
pub open spec fn unsupported_message(pg_type: Seq<char>) -> Seq<char> {
    "Unsupported type: "@ + pg_type
}

/// A column name runs straight into a parenthesised type, as in
/// `name(VARCHAR`, with no space between them.
pub open spec fn column_runs_into_type(sql: Seq<char>) -> bool {
    contains(sql, "(VARCHAR"@) || contains(sql, "(CHAR"@) || contains(sql, "(INT"@) || contains(
        sql,
        "(TEXT"@,
    ) || contains(sql, "(TIMESTAMP"@)
}

/// The message shown for a statement the backend rejected with `err`: a
/// hint chosen from the error and the statement's text, then the error.
pub open spec fn failure_message(sql: Seq<char>, err: Seq<char>) -> Seq<char> {
    let hint = if contains(err, "syntax error"@) {
        if contains(sql, "VARCHAR"@) && !contains(sql, "VARCHAR("@) {
            "SQL syntax error: VARCHAR data type needs parentheses, e.g., VARCHAR(255)"@
        } else if contains(sql, "CREATE TABLE"@) && column_runs_into_type(sql) {
            "SQL syntax error: Column definitions need spaces between name and type"@
        } else {
            "SQL syntax error: Please check your SQL syntax"@
        }
    } else {
        "Failed to execute query"@
    };
    hint + ": "@ + err
}

/// Whether a statement is a `SELECT`, judged on its normalized text.
pub open spec fn is_select(sql: Seq<char>) -> bool {
    starts_with(normalized(sql), "select"@)
}

/// The full translation: syntax repair, then dialect substitution.
pub open spec fn translated(sql: Seq<char>) -> Seq<char> {
    substituted(repaired(sql))
}

/// The backend type named `name`, if its values can be sent to a client.
pub fn backend_type_of(name: &str) -> (r: Option<BackendType>)
    ensures
        r == backend_type_spec(name@),
{
    let n = chars_of(name);
    if same(&n, "int4") {
        Some(BackendType::Int4)
    } else if same(&n, "varchar") {
        Some(BackendType::Varchar)
    } else if same(&n, "bool") {
        Some(BackendType::Bool)
    } else if same(&n, "float4") {
        Some(BackendType::Float4)
    } else if same(&n, "float8") {
        Some(BackendType::Float8)
    } else {
        None
    }
}

fn same(n: &Vec<char>, s: &str) -> (r: bool)
    ensures
        r == (n@ == s@),
{
    let p = chars_of(s);
    if n.len() != p.len() {
        return false;
    }
    let r = matches_at(n, 0, &p);
    assert(n@.subrange(0, n@.len() as int) =~= n@);
    r
}

/// The type declared to the client for values of `t`.
pub fn wire_type_of(t: BackendType) -> (r: WireType)
    ensures
        r == wire_type_spec(t),
{
    match t {
        BackendType::Int4 => WireType::Long,
        BackendType::Varchar => WireType::VarString,
        BackendType::Bool => WireType::VarString,
        BackendType::Float4 => WireType::Float,
        BackendType::Float8 => WireType::Double,
    }
}

/// The value sent to the client for the backend value `v`.
pub fn transcode_value(v: &BackendValue) -> (r: Cell)
    ensures
        transcoded(*v, r),
{
    match v {
        BackendValue::Int4(i) => Cell::Int(*i),
        BackendValue::Varchar(s) => Cell::Text(s.clone()),
        BackendValue::Bool(b) => {
            if *b {
                Cell::Text("true".to_owned())
            } else {
                Cell::Text("false".to_owned())
            }
        },
        BackendValue::Float4(x) => Cell::Float(*x),
        BackendValue::Float8(x) => Cell::Double(*x),
    }
}


/// `r` answers the columns `c` of a fetched row: it is a description of each
/// column, in order, when every column's type can be sent, and otherwise the
/// failure for the first column whose type cannot.
pub open spec fn columns_described(c: Seq<BackendColumn>, r: Result<Vec<ColumnDesc>, QueryError>) -> bool {
    &&& r is Ok <==> forall|i: int| 0 <= i < c.len() ==> backend_type_spec(#[trigger] c[i].pg_type@) is Some
    &&& r matches Ok(d) ==> {
        &&& d.len() == c.len()
        &&& forall|i: int|
            0 <= i < d.len() ==> {
                &&& backend_type_spec(c[i].pg_type@) == Some(#[trigger] d[i].backend_type)
                &&& d[i].wire_type == wire_type_spec(d[i].backend_type)
                &&& d[i].name@ == c[i].name@
            }
    }
    &&& r matches Err(e) ==> exists|i: int|
        0 <= i < c.len() && backend_type_spec(#[trigger] c[i].pg_type@) is None
            && e.message@ == unsupported_message(c[i].pg_type@) && forall|j: int|
            0 <= j < i ==> backend_type_spec(#[trigger] c[j].pg_type@) is Some
}

/// The message shown for a statement the backend rejected with `err`.
pub fn failure_text(sql: &str, err: &str) -> (r: String)
    ensures
        r@ == failure_message(sql@, err@),
{
    let q = chars_of(sql);
    let e = chars_of(err);
    let hint = if contains_seq(&e, &chars_of("syntax error")) {
        if contains_seq(&q, &chars_of("VARCHAR")) && !contains_seq(&q, &chars_of("VARCHAR(")) {
            "SQL syntax error: VARCHAR data type needs parentheses, e.g., VARCHAR(255)"
        } else if contains_seq(&q, &chars_of("CREATE TABLE")) && (contains_seq(
            &q,
            &chars_of("(VARCHAR"),
        ) || contains_seq(&q, &chars_of("(CHAR")) || contains_seq(&q, &chars_of("(INT"))
            || contains_seq(&q, &chars_of("(TEXT")) || contains_seq(&q, &chars_of("(TIMESTAMP"))) {
            "SQL syntax error: Column definitions need spaces between name and type"
        } else {
            "SQL syntax error: Please check your SQL syntax"
        }
    } else {
        "Failed to execute query"
    };
    let mut m = hint.to_owned();
    m.append(": ");
    m.append(err);
    m
}

/// Whether `sql` is a `SELECT` statement.
pub fn is_select_statement(sql: &str) -> (r: bool)
    ensures
        r == is_select(sql@),
{
    let n = normalize(sql);
    matches_at(&chars_of(n.as_str()), 0, &chars_of("select"))
}

/// The descriptions sent to the client for the columns of a backend row, or
/// the failure for the first column whose type cannot be sent.
pub fn describe_columns(columns: &Vec<BackendColumn>) -> (r: Result<Vec<ColumnDesc>, QueryError>)
    ensures
        columns_described(columns@, r),
{
    let mut out: Vec<ColumnDesc> = Vec::new();
    let mut i: usize = 0;
    while i < columns.len()
        invariant
            i <= columns.len(),
            out.len() == i,
            forall|k: int|
                0 <= k < i ==> {
                    &&& backend_type_spec(columns[k].pg_type@) == Some(#[trigger] out[k].backend_type)
                    &&& out[k].wire_type == wire_type_spec(out[k].backend_type)
                    &&& out[k].name@ == columns[k].name@
                },
        decreases columns.len() - i,
    {
        match backend_type_of(columns[i].pg_type.as_str()) {
            Some(t) => {
                out.push(
                    ColumnDesc { name: columns[i].name.clone(), wire_type: wire_type_of(t), backend_type: t },
                );
            },
            None => {
                let mut m = "Unsupported type: ".to_owned();
                m.append(columns[i].pg_type.as_str());
                proof {
                    assert forall|j: int| 0 <= j < i implies backend_type_spec(
                        #[trigger] columns[j].pg_type@,
                    ) is Some by {
                        assert(backend_type_spec(columns[j].pg_type@) == Some(out[j].backend_type));
                    }
                }
                return Err(QueryError { message: m });
            },
        }
        i = i + 1;
    }
    assert forall|k: int| 0 <= k < columns.len() implies backend_type_spec(
        #[trigger] columns[k].pg_type@,
    ) is Some by {
        assert(backend_type_spec(columns[k].pg_type@) == Some(out[k].backend_type));
    }
    Ok(out)
}

/// The rows sent to the client for the backend rows `rows`, under the column
/// descriptions `columns`.
pub fn transcode_rows(columns: Vec<ColumnDesc>, rows: Vec<Vec<BackendValue>>) -> (r: ResultSet)
    ensures
        r.columns@ == columns@,
        r.rows.len() == rows.len(),
        forall|i: int|
            0 <= i < rows.len() ==> (#[trigger] r.rows[i]).len() == rows[i].len() && forall|j: int|
                0 <= j < rows[i].len() ==> transcoded(rows[i][j], #[trigger] r.rows[i][j]),
{
    let mut out: Vec<Vec<Cell>> = Vec::new();
    let mut i: usize = 0;
    while i < rows.len()
        invariant
            i <= rows.len(),
            out.len() == i,
            forall|k: int|
                0 <= k < i ==> (#[trigger] out[k]).len() == rows[k].len() && forall|j: int|
                    0 <= j < rows[k].len() ==> transcoded(rows[k][j], #[trigger] out[k][j]),
        decreases rows.len() - i,
    {
        let mut cells: Vec<Cell> = Vec::new();
        let mut j: usize = 0;
        while j < rows[i].len()
            invariant
                i < rows.len(),
                j <= rows[i as int].len(),
                cells.len() == j,
                forall|k: int| 0 <= k < j ==> transcoded(rows[i as int][k], #[trigger] cells[k]),
            decreases rows[i as int].len() - j,
        {
            let c = transcode_value(&rows[i][j]);
            cells.push(c);
            j = j + 1;
        }
        out.push(cells);
        i = i + 1;
    }
    ResultSet { columns, rows: out }
}


/// Handles the statements of one client session. It holds no state that a
/// statement changes, so a failed statement leaves it as usable as before.
pub struct QueryHandler;

impl QueryHandler {
    pub fn new() -> (r: Self) {
        QueryHandler
    }

    /// The synthetic response for a statement answered without the backend:
    /// an acknowledgement of zero rows, for exactly the statements that an
    /// interception rule matches.
    pub fn handle_mysql_specific_query(&self, sql: &str) -> (r: Option<QueryResult>)
        ensures
            r is Some <==> interception_of(normalized(sql@)) is Some,
            r matches Some(x) ==> x == QueryResult::Ack((OkResponse { affected_rows: 0 })),
    {
        match intercept(sql) {
            Some(_) => Some(QueryResult::Ack(OkResponse { affected_rows: 0 })),
            None => None,
        }
    }

    /// The syntax repair pass.
    pub fn fix_common_sql_errors(&self, sql: &str) -> (r: String)
        ensures
            r@ == repaired(sql@),
    {
        repair_commas(repair_types(sql))
    }

    /// The text sent to the backend for `sql`: the syntax repair pass, then
    /// the dialect substitution pass.
    pub fn translate_mysql_to_postgres(&self, sql: &str) -> (r: String)
        ensures
            r@ == translated(sql@),
    {
        let fixed = self.fix_common_sql_errors(sql);
        substitute_dialect(fixed.as_str())
    }

    /// The first step for a received statement: an intercepted statement is
    /// answered at once with an acknowledgement of zero rows; any other is
    /// translated and handed to the backend for execution.
    pub fn begin_query(&self, sql: &str) -> (r: Action)
        ensures
            interception_of(normalized(sql@)) is Some ==> r == Action::Reply(
                Ok(QueryResult::Ack((OkResponse { affected_rows: 0 }))),
            ),
            interception_of(normalized(sql@)) is None ==> (r matches Action::Execute(t) && t@
                == translated(sql@)),
    {
        match self.handle_mysql_specific_query(sql) {
            Some(response) => Action::Reply(Ok(response)),
            None => Action::Execute(self.translate_mysql_to_postgres(sql)),
        }
    }

    /// The step after the backend executed `translated`, the translation of
    /// `sql`: a failure is answered with its message; a `SELECT` is run again
    /// to fetch its rows; any other statement is acknowledged with the
    /// affected-row count the backend reported.
    pub fn after_execute(&self, sql: &str, translated: String, outcome: Result<u64, String>) -> (r:
        Action)
        ensures
            outcome matches Err(e) ==> (r matches Action::Reply(Err(f)) && f.message@
                == failure_message(sql@, e@)),
            outcome is Ok && is_select(sql@) ==> (r matches Action::Fetch(t) && t@
                == translated@),
            outcome is Ok && !is_select(sql@) ==> r == Action::Reply(
                Ok(QueryResult::Ack((OkResponse { affected_rows: outcome->Ok_0 }))),
            ),
    {
        match outcome {
            Err(e) => Action::Reply(Err(QueryError { message: failure_text(sql, e.as_str()) })),
            Ok(n) => {
                if is_select_statement(sql) {
                    Action::Fetch(translated)
                } else {
                    Action::Reply(Ok(QueryResult::Ack(OkResponse { affected_rows: n })))
                }
            },
        }
    }

    /// The column descriptions after the backend ran a `SELECT` whose first
    /// row has the columns `outcome` holds (none when there are no rows), or
    /// the failure to answer with.
    pub fn after_fetch(&self, sql: &str, outcome: Result<Vec<BackendColumn>, String>) -> (r: Result<
        Vec<ColumnDesc>,
        QueryError,
    >)
        ensures
            outcome matches Err(e) ==> (r matches Err(f) && f.message@ == failure_message(sql@, e@)),
            outcome matches Ok(c) ==> columns_described(c@, r),
    {
        match outcome {
            Err(e) => Err(QueryError { message: failure_text(sql, e.as_str()) }),
            Ok(columns) => describe_columns(&columns),
        }
    }

    /// The response carrying the fetched rows under their descriptions.
    pub fn finish_rows(&self, columns: Vec<ColumnDesc>, rows: Vec<Vec<BackendValue>>) -> (r:
        QueryResult)
        ensures
            r matches QueryResult::Rows(set) && set.columns@ == columns@ && set.rows.len()
                == rows.len() && forall|i: int|
                0 <= i < rows.len() ==> (#[trigger] set.rows[i]).len() == rows[i].len() && forall|
                    j: int,
                |
                    0 <= j < rows[i].len() ==> transcoded(rows[i][j], #[trigger] set.rows[i][j]),
    {
        QueryResult::Rows(transcode_rows(columns, rows))
    }
}

} // verus!
