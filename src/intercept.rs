//! The system-query interceptor: MySQL-only introspection and session
//! statements that are answered without reaching the backend.
use vstd::prelude::*;

use crate::text::{
    all_white_space, chars_of, contains, contains_seq, lemma_trimmed_ignores_padding, matches_at,
    starts_with, string_of, trim, trimmed,
};

verus! {

/// The Unicode lower-case form of `s`, as `str::to_lowercase` gives it (a
/// final sigma is lowered according to its context).
pub uninterp spec fn lower_of(s: Seq<char>) -> Seq<char>;

/// Relies on `str::to_lowercase`: the Unicode lower-case form of the text,
/// which depends on its characters alone.
#[verifier::external_body]
fn lowercase(s: &str) -> (r: String)
    ensures
        r@ == lower_of(s@),
{
    s.to_lowercase()
}

/// The text on which interception rules are matched: trimmed, then lower-cased.
pub open spec fn normalized(sql: Seq<char>) -> Seq<char> {
    lower_of(trimmed(sql))
}

/// Trims and lower-cases a statement.
pub fn normalize(sql: &str) -> (r: String)
    ensures
        r@ == normalized(sql@),
{
    let t = string_of(&trim(&chars_of(sql)));
    lowercase(t.as_str())
}

/// The categories of statements answered without the backend, in the order
/// in which they are tried.
#[derive(PartialEq, Eq, Structural, Debug, Clone, Copy)]
pub enum Interception {
    /// A reference to a session or system variable.
    SystemVariable,
    /// A connection or session introspection function.
    SessionFunction,
    /// `SHOW`, `DESCRIBE`/`DESC`, `SET` or `USE`.
    Administrative,
    /// An `ENUM(` or `SET(` type the backend cannot express.
    UnsupportedType,
    /// A MySQL date or time function.
    DateTimeFunction,
    /// `CONCAT(` mixed with `||`.
    ConcatConflict,
    /// The `SELECT $$` placeholder syntax.
    Placeholder,
}

pub open spec fn is_system_variable(n: Seq<char>) -> bool {
    contains(n, "@@version_comment"@) || contains(n, "@@sql_mode"@) || contains(n, "@@autocommit"@)
        || contains(n, "@@session."@) || contains(n, "@@global."@)
}

pub open spec fn is_session_function(n: Seq<char>) -> bool {
    contains(n, "connection_id()"@) || contains(n, "database()"@) || contains(n, "user()"@)
        || contains(n, "version()"@)
}

pub open spec fn is_administrative(n: Seq<char>) -> bool {
    starts_with(n, "show"@) || starts_with(n, "describe"@) || starts_with(n, "desc "@)
        || starts_with(n, "set "@) || starts_with(n, "use "@)
}

pub open spec fn is_unsupported_type(n: Seq<char>) -> bool {
    contains(n, "enum("@) || contains(n, "set("@)
}

pub open spec fn is_date_time_function(n: Seq<char>) -> bool {
    contains(n, "now()"@) || contains(n, "curdate()"@) || contains(n, "curtime()"@)
}

pub open spec fn is_concat_conflict(n: Seq<char>) -> bool {
    contains(n, "concat("@) && contains(n, "||"@)
}

pub open spec fn is_placeholder(n: Seq<char>) -> bool {
    starts_with(n, "select $$"@)
}

/// The first category whose rule matches the normalized text `n`, if any.
pub open spec fn interception_of(n: Seq<char>) -> Option<Interception> {
    if is_system_variable(n) {
        Some(Interception::SystemVariable)
    } else if is_session_function(n) {
        Some(Interception::SessionFunction)
    } else if is_administrative(n) {
        Some(Interception::Administrative)
    } else if is_unsupported_type(n) {
        Some(Interception::UnsupportedType)
    } else if is_date_time_function(n) {
        Some(Interception::DateTimeFunction)
    } else if is_concat_conflict(n) {
        Some(Interception::ConcatConflict)
    } else if is_placeholder(n) {
        Some(Interception::Placeholder)
    } else {
        None
    }
}

fn has(n: &Vec<char>, p: &str) -> (r: bool)
    ensures
        r == contains(n@, p@),
{
    contains_seq(n, &chars_of(p))
}

fn begins(n: &Vec<char>, p: &str) -> (r: bool)
    ensures
        r == starts_with(n@, p@),
{
    matches_at(n, 0, &chars_of(p))
}

/// The category of the already normalized statement `normalized`, if it is
/// one that is answered without the backend.
pub fn classify(normalized: &str) -> (r: Option<Interception>)
    ensures
        r == interception_of(normalized@),
{
    let n = chars_of(normalized);
    if has(&n, "@@version_comment") || has(&n, "@@sql_mode") || has(&n, "@@autocommit") || has(
        &n,
        "@@session.",
    ) || has(&n, "@@global.") {
        Some(Interception::SystemVariable)
    } else if has(&n, "connection_id()") || has(&n, "database()") || has(&n, "user()") || has(
        &n,
        "version()",
    ) {
        Some(Interception::SessionFunction)
    } else if begins(&n, "show") || begins(&n, "describe") || begins(&n, "desc ") || begins(
        &n,
        "set ",
    ) || begins(&n, "use ") {
        Some(Interception::Administrative)
    } else if has(&n, "enum(") || has(&n, "set(") {
        Some(Interception::UnsupportedType)
    } else if has(&n, "now()") || has(&n, "curdate()") || has(&n, "curtime()") {
        Some(Interception::DateTimeFunction)
    } else if has(&n, "concat(") && has(&n, "||") {
        Some(Interception::ConcatConflict)
    } else if begins(&n, "select $$") {
        Some(Interception::Placeholder)
    } else {
        None
    }
}

/// Whether the statement `sql`, as received, is one answered without the
/// backend, and in which category.
pub fn intercept(sql: &str) -> (r: Option<Interception>)
    ensures
        r == interception_of(normalized(sql@)),
{
    let n = normalize(sql);
    classify(n.as_str())
}


/// Interception tolerates whitespace: padding a statement with whitespace on
/// either side does not change whether, or how, it is intercepted.
pub proof fn interception_ignores_padding(w1: Seq<char>, sql: Seq<char>, w2: Seq<char>)
    requires
        all_white_space(w1),
        all_white_space(w2),
    ensures
        interception_of(normalized(w1 + sql + w2)) == interception_of(normalized(sql)),
{
    lemma_trimmed_ignores_padding(w1, sql, w2);
}

} // verus!
