//! The syntax repair pass: pattern substitutions that correct common
//! malformed type declarations before the dialect substitution pass runs.
use vstd::prelude::*;

use crate::text::{chars_of, contains, contains_seq};

verus! {

#[verifier::external_type_specification]
#[verifier::external_body]
pub struct ExRegex(regex::Regex);

/// Whether `pattern` is a regular expression that the `regex` crate accepts.
pub uninterp spec fn regex_compiles(pattern: Seq<char>) -> bool;

/// The text `text` with every non-overlapping match of `pattern`, leftmost
/// first, replaced by `template` with its `$n` group references expanded.
pub uninterp spec fn regex_replaced(pattern: Seq<char>, text: Seq<char>, template: Seq<char>) -> Seq<
    char,
>;

/// A compiled regular expression together with the source it was compiled
/// from.
pub struct SqlPattern {
    regex: regex::Regex,
    source: String,
}

impl SqlPattern {
    pub closed spec fn source(&self) -> Seq<char> {
        self.source@
    }
}

/// Relies on `regex::Regex::new`: it compiles `pattern`, and whether it
/// succeeds depends on the pattern alone.
#[verifier::external_body]
fn compile(pattern: &str) -> (r: Option<SqlPattern>)
    ensures
        r is Some <==> regex_compiles(pattern@),
        r matches Some(p) ==> p.source() == pattern@,
{
    match regex::Regex::new(pattern) {
        Ok(regex) => Some(SqlPattern { regex, source: pattern.to_string() }),
        Err(_) => None,
    }
}

/// Relies on `regex::Regex::replace_all`: every non-overlapping match of the
/// compiled pattern is replaced by `template`, with `$n` expanded to the
/// `n`-th capture group.
#[verifier::external_body]
fn replace_matches(pattern: &SqlPattern, text: &str, template: &str) -> (r: String)
    ensures
        r@ == regex_replaced(pattern.source(), text@, template@),
{
    pattern.regex.replace_all(text, template).into_owned()
}

/// One substitution of the repair pass; a pattern that does not compile
/// leaves the text as it is.
pub open spec fn repair_step(pattern: Seq<char>, template: Seq<char>, s: Seq<char>) -> Seq<char> {
    if regex_compiles(pattern) {
        regex_replaced(pattern, s, template)
    } else {
        s
    }
}

/// Type names followed directly by a length: `VARCHAR255` becomes
/// `VARCHAR(255)`, and likewise for `CHAR` and `INT`; then a parenthesised
/// type nested in a column's parentheses, `name(VARCHAR(255))` or
/// `name(VARCHAR255)`, becomes `name VARCHAR(255)`.
pub open spec fn types_repaired(s: Seq<char>) -> Seq<char> {
    let s1 = repair_step(r"VARCHAR(\d+)"@, "VARCHAR($1)"@, s);
    let s2 = repair_step(r"CHAR(\d+)"@, "CHAR($1)"@, s1);
    let s3 = repair_step(r"INT(\d+)"@, "INT($1)"@, s2);
    let s4 = repair_step(r"(\w+)\(([A-Z]+\(\d+\))\)"@, "$1 $2"@, s3);
    repair_step(r"(\w+)\(([A-Z]+)(\d+)\)"@, "$1 $2($3)"@, s4)
}

/// In a `CREATE TABLE` statement, a comma is put between a closing
/// parenthesis and a following column definition of a common type.
pub open spec fn commas_repaired(s: Seq<char>) -> Seq<char> {
    if contains(s, "CREATE TABLE"@) {
        repair_step(
            r"\)\s+([a-zA-Z_][a-zA-Z0-9_]*)\s+(VARCHAR|CHAR|INT|TEXT|TIMESTAMP)"@,
            "), $1 $2"@,
            s,
        )
    } else {
        s
    }
}

/// The whole syntax repair pass.
pub open spec fn repaired(s: Seq<char>) -> Seq<char> {
    commas_repaired(types_repaired(s))
}

/// Applies one substitution of the repair pass.
fn apply_step(s: String, pattern: &str, template: &str) -> (r: String)
    ensures
        r@ == repair_step(pattern@, template@, s@),
{
    match compile(pattern) {
        Some(p) => replace_matches(&p, s.as_str(), template),
        None => s,
    }
}

/// Repairs malformed type declarations.
pub fn repair_types(sql: &str) -> (r: String)
    ensures
        r@ == types_repaired(sql@),
{
    let s = sql.to_owned();
    let s = apply_step(s, r"VARCHAR(\d+)", "VARCHAR($1)");
    let s = apply_step(s, r"CHAR(\d+)", "CHAR($1)");
    let s = apply_step(s, r"INT(\d+)", "INT($1)");
    let s = apply_step(s, r"(\w+)\(([A-Z]+\(\d+\))\)", "$1 $2");
    apply_step(s, r"(\w+)\(([A-Z]+)(\d+)\)", "$1 $2($3)")
}

/// Puts missing commas between column definitions of a `CREATE TABLE`
/// statement.
pub fn repair_commas(sql: String) -> (r: String)
    ensures
        r@ == commas_repaired(sql@),
{
    if contains_seq(&chars_of(sql.as_str()), &chars_of("CREATE TABLE")) {
        apply_step(
            sql,
            r"\)\s+([a-zA-Z_][a-zA-Z0-9_]*)\s+(VARCHAR|CHAR|INT|TEXT|TIMESTAMP)",
            "), $1 $2",
        )
    } else {
        sql
    }
}

} // verus!
