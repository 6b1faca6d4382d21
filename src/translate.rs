//! The dialect substitution pass: a fixed, ordered table of textual rules that
//! rewrite MySQL syntax into syntax PostgreSQL accepts.
use vstd::prelude::*;

use crate::text::{
    ascii_lower, chars_of, contains, find, find_ci, find_ci_from, find_from, is_white_space,
    lead_ws, lemma_replaced_absent, lemma_replaced_leaves_none, matches_at, occurs_at,
    occurs_at_ci, overlap_free, prefix_agree, push_all, replace_all, replaced, slice_of, string_of,
    trail_ws, trim_bounds, trimmed,
};

verus! {

/// Applies each rule `(from, to)` of `rules` in turn, replacing every
/// occurrence of `from` by `to`.
pub open spec fn apply_rules(s: Seq<char>, rules: Seq<(&'static str, &'static str)>) -> Seq<char>
    decreases rules.len(),
{
    if rules.len() == 0 {
        s
    } else {
        apply_rules(replaced(s, rules[0].0@, rules[0].1@), rules.drop_first())
    }
}

/// Auto-increment integer columns become serial columns.
pub open spec fn serial_rules() -> Seq<(&'static str, &'static str)> {
    seq![
        ("INT AUTO_INCREMENT", "SERIAL"),
        ("int auto_increment", "serial"),
        ("BIGINT AUTO_INCREMENT", "BIGSERIAL"),
        ("bigint auto_increment", "bigserial"),
    ]
}

/// Identifier quoting, type names and temporal functions.
pub open spec fn type_rules() -> Seq<(&'static str, &'static str)> {
    seq![
        ("`", "\""),
        (" UNSIGNED", ""),
        (" unsigned", ""),
        ("MEDIUMINT", "INTEGER"),
        ("mediumint", "integer"),
        ("TINYINT(1)", "BOOLEAN"),
        ("tinyint(1)", "boolean"),
        ("TINYINT", "SMALLINT"),
        ("tinyint", "smallint"),
        ("LONGTEXT", "TEXT"),
        ("longtext", "text"),
        ("MEDIUMTEXT", "TEXT"),
        ("mediumtext", "text"),
        ("LONGBLOB", "BYTEA"),
        ("longblob", "bytea"),
        ("MEDIUMBLOB", "BYTEA"),
        ("mediumblob", "bytea"),
        ("BLOB", "BYTEA"),
        ("blob", "bytea"),
        ("VARBINARY", "BYTEA"),
        ("varbinary", "bytea"),
        ("NOW()", "CURRENT_TIMESTAMP"),
        ("now()", "current_timestamp"),
        ("CURDATE()", "CURRENT_DATE"),
        ("curdate()", "current_date"),
        ("CURTIME()", "CURRENT_TIME"),
        ("curtime()", "current_time"),
        ("YEAR", "SMALLINT"),
        ("year", "smallint"),
    ]
}

fn serial_table() -> (r: Vec<(&'static str, &'static str)>)
    ensures
        r@ == serial_rules(),
{
    let r = vec![
        ("INT AUTO_INCREMENT", "SERIAL"),
        ("int auto_increment", "serial"),
        ("BIGINT AUTO_INCREMENT", "BIGSERIAL"),
        ("bigint auto_increment", "bigserial"),
    ];
    assert(r@ =~= serial_rules());
    r
}

/// Applies the rules of `table`, in order, to `v`.
pub fn apply_table(v: Vec<char>, table: &Vec<(&'static str, &'static str)>) -> (r: Vec<char>)
    ensures
        r@ == apply_rules(v@, table@),
{
    let mut cur = v;
    let mut i: usize = 0;
    assert(table@.subrange(0, table.len() as int) =~= table@);
    while i < table.len()
        invariant
            i <= table.len(),
            apply_rules(v@, table@) == apply_rules(cur@, table@.subrange(i as int, table.len() as int)),
        decreases table.len() - i,
    {
        let (from, to) = table[i];
        let a = chars_of(from);
        let b = chars_of(to);
        let next = replace_all(&cur, &a, &b);
        assert(table@.subrange(i as int, table.len() as int).drop_first() =~= table@.subrange(
            i + 1,
            table.len() as int,
        ));
        cur = next;
        i = i + 1;
    }
    cur
}


fn type_table() -> (r: Vec<(&'static str, &'static str)>)
    ensures
        r@ == type_rules(),
{
    let r = vec![
        ("`", "\""),
        (" UNSIGNED", ""),
        (" unsigned", ""),
        ("MEDIUMINT", "INTEGER"),
        ("mediumint", "integer"),
        ("TINYINT(1)", "BOOLEAN"),
        ("tinyint(1)", "boolean"),
        ("TINYINT", "SMALLINT"),
        ("tinyint", "smallint"),
        ("LONGTEXT", "TEXT"),
        ("longtext", "text"),
        ("MEDIUMTEXT", "TEXT"),
        ("mediumtext", "text"),
        ("LONGBLOB", "BYTEA"),
        ("longblob", "bytea"),
        ("MEDIUMBLOB", "BYTEA"),
        ("mediumblob", "bytea"),
        ("BLOB", "BYTEA"),
        ("blob", "bytea"),
        ("VARBINARY", "BYTEA"),
        ("varbinary", "bytea"),
        ("NOW()", "CURRENT_TIMESTAMP"),
        ("now()", "current_timestamp"),
        ("CURDATE()", "CURRENT_DATE"),
        ("curdate()", "current_date"),
        ("CURTIME()", "CURRENT_TIME"),
        ("curtime()", "current_time"),
        ("YEAR", "SMALLINT"),
        ("year", "smallint"),
    ];
    assert(r@ =~= type_rules());
    r
}

/// A character that may stand in the count of a `LIMIT` clause.
pub open spec fn is_count_char(c: char) -> bool {
    ('0' <= c && c <= '9') || c == ' '
}

/// The end of the run of count characters that starts at `i` in `s`.
pub open spec fn count_end_from(s: Seq<char>, i: int) -> int
    decreases s.len() - i,
{
    if i < 0 || i >= s.len() {
        s.len() as int
    } else if !is_count_char(s[i]) {
        i
    } else {
        count_end_from(s, i + 1)
    }
}

/// The two-argument `LIMIT offset, count` form rewritten as
/// `LIMIT count OFFSET offset`. The first `limit` keyword, in any case, is
/// located; its argument span (the rest of the text, trimmed) is split at the
/// first comma; the count ends at the first character that is neither a digit
/// nor a space, and what follows it is kept after the offset. Without a comma
/// the text is left as it is.
pub open spec fn limit_rewritten(s: Seq<char>) -> Seq<char> {
    match find_ci_from(s, "limit"@, 0) {
        None => s,
        Some(p) => {
            let from = p + "limit"@.len();
            let a = from + lead_ws(s.subrange(from, s.len() as int));
            let b = s.len() - trail_ws(s.subrange(a, s.len() as int));
            let arg = s.subrange(a, b);
            match find_from(arg, ","@, 0) {
                None => s,
                Some(c) => {
                    let offset = trimmed(arg.subrange(0, c));
                    let count = trimmed(arg.subrange(c + 1, arg.len() as int));
                    let e = count_end_from(count, 0);
                    s.subrange(0, p) + "LIMIT "@ + count.subrange(0, e) + " OFFSET "@ + offset
                        + count.subrange(e, count.len() as int) + s.subrange(b, s.len() as int)
                },
            }
        },
    }
}

/// `IF NOT EXISTS` dropped, in upper or lower case, from a text that holds
/// both `create database` and `if not exists` in any case.
pub open spec fn database_guard_dropped(s: Seq<char>) -> Seq<char> {
    if find_ci_from(s, "create database"@, 0) is Some && find_ci_from(s, "if not exists"@, 0) is Some {
        replaced(replaced(s, "IF NOT EXISTS"@, ""@), "if not exists"@, ""@)
    } else {
        s
    }
}

/// The storage-engine clause starting at the first `engine=` (in any case)
/// removed up to the next space, or failing that up to the next `;`. Without
/// either the text is left as it is.
pub open spec fn engine_stripped(s: Seq<char>) -> Seq<char> {
    match find_ci_from(s, "engine="@, 0) {
        None => s,
        Some(p) => match find_from(s, " "@, p) {
            Some(q) => s.subrange(0, p) + s.subrange(q, s.len() as int),
            None => match find_from(s, ";"@, p) {
                Some(q) => s.subrange(0, p) + s.subrange(q, s.len() as int),
                None => s,
            },
        },
    }
}

/// The whole dialect substitution pass, in its fixed order.
pub open spec fn substituted(s: Seq<char>) -> Seq<char> {
    engine_stripped(
        database_guard_dropped(
            binary_mapped(apply_rules(limit_rewritten(apply_rules(s, serial_rules())), type_rules())),
        ),
    )
}

/// Whether `c` is an ASCII digit.
pub open spec fn is_digit(c: char) -> bool {
    '0' <= c && c <= '9'
}

/// The number of digits at the start of `s`.
pub open spec fn digit_count(s: Seq<char>) -> nat
    decreases s.len(),
{
    if s.len() > 0 && is_digit(s[0]) {
        1 + digit_count(s.drop_first())
    } else {
        0
    }
}

/// Where the closing parenthesis of a sized type `a` at the start of `s`
/// stands: after `a` and the digits of the length.
pub open spec fn sized_close(s: Seq<char>, a: Seq<char>) -> int {
    (a.len() + digit_count(s.subrange(a.len() as int, s.len() as int))) as int
}

/// `s` starts with `a` (a type name and its opening parenthesis), a length in
/// digits and a closing parenthesis.
pub open spec fn sized_at_start(s: Seq<char>, a: Seq<char>) -> bool {
    &&& a.len() <= s.len()
    &&& s.subrange(0, a.len() as int) == a
    &&& sized_close(s, a) < s.len()
    &&& s[sized_close(s, a)] == ')'
}

/// Every sized type `a<digits>)`, from left to right, replaced by `b`: the
/// length is dropped.
pub open spec fn sized_replaced(s: Seq<char>, a: Seq<char>, b: Seq<char>) -> Seq<char>
    decreases s.len(),
{
    if a.len() == 0 || s.len() == 0 {
        s
    } else if sized_at_start(s, a) {
        b + sized_replaced(s.subrange(sized_close(s, a) + 1, s.len() as int), a, b)
    } else {
        seq![s[0]] + sized_replaced(s.drop_first(), a, b)
    }
}

/// Fixed-length binary columns, `BINARY(n)`, become `BYTEA`, which has no
/// length; likewise in lower case.
pub open spec fn binary_mapped(s: Seq<char>) -> Seq<char> {
    sized_replaced(sized_replaced(s, "BINARY("@, "BYTEA"@), "binary("@, "bytea"@)
}

proof fn lemma_find_ci_bounds(s: Seq<char>, p: Seq<char>, i: int)
    ensures
        find_ci_from(s, p, i) matches Some(j) ==> i <= j && j + p.len() <= s.len(),
    decreases s.len() + 1 - i,
{
    if !(i < 0 || i + p.len() > s.len()) && !crate::text::occurs_at_ci(s, i, p) {
        lemma_find_ci_bounds(s, p, i + 1);
    }
}

proof fn lemma_find_bounds(s: Seq<char>, p: Seq<char>, i: int)
    ensures
        find_from(s, p, i) matches Some(j) ==> i <= j && j + p.len() <= s.len() && crate::text::occurs_at(s, j, p),
    decreases s.len() + 1 - i,
{
    if !(i < 0 || i + p.len() > s.len()) && !crate::text::occurs_at(s, i, p) {
        lemma_find_bounds(s, p, i + 1);
    }
}

/// The end of the run of count characters at the start of `v`.
fn count_end(v: &Vec<char>) -> (r: usize)
    ensures
        r == count_end_from(v@, 0),
{
    let mut i: usize = 0;
    while i < v.len() && (('0' <= v[i] && v[i] <= '9') || v[i] == ' ')
        invariant
            i <= v.len(),
            count_end_from(v@, 0) == count_end_from(v@, i as int),
        decreases v.len() - i,
    {
        i = i + 1;
    }
    i
}

/// Rewrites a two-argument `LIMIT` clause.
pub fn rewrite_limit(v: Vec<char>) -> (r: Vec<char>)
    ensures
        r@ == limit_rewritten(v@),
{
    let kw = chars_of("limit");
    let p = match find_ci(&v, &kw, 0) {
        None => return v,
        Some(p) => p,
    };
    proof {
        lemma_find_ci_bounds(v@, kw@, 0);
        assert(p + kw@.len() <= v@.len());
    }
    let n = kw.len();
    assert(p + n <= v.len());
    let (a, b) = trim_bounds(&v, p + n, v.len());
    let arg = slice_of(&v, a, b);
    let comma = chars_of(",");
    let c = match find(&arg, &comma, 0) {
        None => return v,
        Some(c) => c,
    };
    proof {
        lemma_find_bounds(arg@, comma@, 0);
        reveal_strlit(",");
    }
    let (o1, o2) = trim_bounds(&arg, 0, c);
    let offset = slice_of(&arg, o1, o2);
    let (l1, l2) = trim_bounds(&arg, c + 1, arg.len());
    let count = slice_of(&arg, l1, l2);
    let e = count_end(&count);
    proof {
        assert(0 <= e <= count@.len()) by {
            lemma_count_end_bounds(count@, 0);
        }
    }
    let mut out = slice_of(&v, 0, p);
    push_all(&mut out, &chars_of("LIMIT "));
    push_all(&mut out, &slice_of(&count, 0, e));
    push_all(&mut out, &chars_of(" OFFSET "));
    push_all(&mut out, &offset);
    push_all(&mut out, &slice_of(&count, e, count.len()));
    push_all(&mut out, &slice_of(&v, b, v.len()));
    out
}

proof fn lemma_count_end_bounds(s: Seq<char>, i: int)
    requires
        0 <= i,
    ensures
        i <= count_end_from(s, i) <= s.len() || (i > s.len() && count_end_from(s, i) == s.len()),
    decreases s.len() - i,
{
    if i < s.len() && is_count_char(s[i]) {
        lemma_count_end_bounds(s, i + 1);
    }
}


/// Drops `IF NOT EXISTS` from a `CREATE DATABASE` statement.
pub fn drop_database_guard(v: Vec<char>) -> (r: Vec<char>)
    ensures
        r@ == database_guard_dropped(v@),
{
    let create = chars_of("create database");
    let guard = chars_of("if not exists");
    if find_ci(&v, &create, 0).is_some() && find_ci(&v, &guard, 0).is_some() {
        let empty: Vec<char> = Vec::new();
        assert(empty@ == ""@) by {
            reveal_strlit("");
        }
        let once = replace_all(&v, &chars_of("IF NOT EXISTS"), &empty);
        replace_all(&once, &guard, &empty)
    } else {
        v
    }
}

/// Removes a storage-engine clause.
pub fn strip_engine(v: Vec<char>) -> (r: Vec<char>)
    ensures
        r@ == engine_stripped(v@),
{
    let p = match find_ci(&v, &chars_of("engine="), 0) {
        None => return v,
        Some(p) => p,
    };
    let end = match find(&v, &chars_of(" "), p) {
        Some(q) => q,
        None => match find(&v, &chars_of(";"), p) {
            Some(q) => q,
            None => return v,
        },
    };
    proof {
        lemma_find_bounds(v@, " "@, p as int);
        lemma_find_bounds(v@, ";"@, p as int);
        lemma_find_ci_bounds(v@, "engine="@, 0);
    }
    let mut out = slice_of(&v, 0, p);
    push_all(&mut out, &slice_of(&v, end, v.len()));
    out
}

/// The number of digits in `v` from `from` on.
fn count_digits(v: &Vec<char>, from: usize) -> (r: usize)
    requires
        from <= v.len(),
    ensures
        from + r <= v.len(),
        r == digit_count(v@.subrange(from as int, v.len() as int)),
{
    let mut k: usize = from;
    while k < v.len() && '0' <= v[k] && v[k] <= '9'
        invariant
            from <= k <= v.len(),
            digit_count(v@.subrange(from as int, v.len() as int)) == (k - from) + digit_count(
                v@.subrange(k as int, v.len() as int),
            ),
        decreases v.len() - k,
    {
        assert(v@.subrange(k as int, v.len() as int).drop_first() =~= v@.subrange(
            k + 1,
            v.len() as int,
        ));
        k = k + 1;
    }
    k - from
}

/// `v` with every sized type `a<digits>)` replaced by `b`.
pub fn replace_sized(v: &Vec<char>, a: &Vec<char>, b: &Vec<char>) -> (r: Vec<char>)
    ensures
        r@ == sized_replaced(v@, a@, b@),
{
    let mut out: Vec<char> = Vec::new();
    if a.len() == 0 {
        return slice_of(v, 0, v.len());
    }
    let mut i: usize = 0;
    assert(v@.subrange(0, v.len() as int) =~= v@);
    assert(out@ + sized_replaced(v@, a@, b@) =~= sized_replaced(v@, a@, b@));
    while i < v.len()
        invariant
            a@.len() > 0,
            i <= v.len(),
            out@ + sized_replaced(v@.subrange(i as int, v.len() as int), a@, b@) == sized_replaced(
                v@,
                a@,
                b@,
            ),
        decreases v.len() - i,
    {
        let ghost rest = v@.subrange(i as int, v.len() as int);
        let ghost before = out@;
        let mut sized = false;
        let mut close: usize = 0;
        if matches_at(v, i, a) {
            let d = count_digits(v, i + a.len());
            close = i + a.len() + d;
            sized = close < v.len() && v[close] == ')';
            assert(rest.subrange(0, a@.len() as int) =~= v@.subrange(i as int, i + a@.len()));
            assert(rest.subrange(a@.len() as int, rest.len() as int) =~= v@.subrange(
                i + a@.len(),
                v.len() as int,
            ));
            assert(sized == sized_at_start(rest, a@));
            assert(sized ==> close == i + sized_close(rest, a@));
        } else {
            assert(rest.len() >= a@.len() ==> rest.subrange(0, a@.len() as int) =~= v@.subrange(
                i as int,
                i + a@.len(),
            ));
            assert(!sized_at_start(rest, a@));
        }
        if sized {
            push_all(&mut out, b);
            assert(rest.subrange(sized_close(rest, a@) + 1, rest.len() as int) =~= v@.subrange(
                close + 1,
                v.len() as int,
            ));
            i = close + 1;
        } else {
            assert(rest.drop_first() =~= v@.subrange(i + 1, v.len() as int));
            out.push(v[i]);
            assert(out@ + sized_replaced(v@.subrange(i + 1, v.len() as int), a@, b@) =~= before
                + sized_replaced(rest, a@, b@));
            i = i + 1;
        }
    }
    assert(sized_replaced(v@.subrange(i as int, v.len() as int), a@, b@) =~= Seq::<char>::empty());
    assert(out@ + Seq::<char>::empty() =~= out@);
    out
}

/// Applies the dialect substitution pass to `v`.
pub fn substitute(v: Vec<char>) -> (r: Vec<char>)
    ensures
        r@ == substituted(v@),
{
    let serial = apply_table(v, &serial_table());
    let limited = rewrite_limit(serial);
    let typed = apply_table(limited, &type_table());
    let upper = replace_sized(&typed, &chars_of("BINARY("), &chars_of("BYTEA"));
    let binary = replace_sized(&upper, &chars_of("binary("), &chars_of("bytea"));
    strip_engine(drop_database_guard(binary))
}

/// The dialect substitution pass on a statement's text.
pub fn substitute_dialect(sql: &str) -> (r: String)
    ensures
        r@ == substituted(sql@),
{
    string_of(&substitute(chars_of(sql)))
}


/// Texts that differ within their first five characters, and within their
/// common length, do not agree.
proof fn lemma_differs_early(x: Seq<char>, y: Seq<char>)
    requires
        exists|j: int| 0 <= j < 5 && j < x.len() && j < y.len() && x[j] != y[j],
    ensures
        !prefix_agree(x, y),
{
    let j = choose|j: int| 0 <= j < 5 && j < x.len() && j < y.len() && x[j] != y[j];
    let m = if x.len() < y.len() {
        x.len()
    } else {
        y.len()
    };
    assert(x.subrange(0, m as int)[j] != y.subrange(0, m as int)[j]);
}

/// Whether `x` and `y` differ within their first five characters, and within
/// their common length.
spec fn differ_early(x: Seq<char>, y: Seq<char>) -> bool {
    ||| 0 < x.len() && 0 < y.len() && x[0] != y[0]
    ||| 1 < x.len() && 1 < y.len() && x[1] != y[1]
    ||| 2 < x.len() && 2 < y.len() && x[2] != y[2]
    ||| 3 < x.len() && 3 < y.len() && x[3] != y[3]
    ||| 4 < x.len() && 4 < y.len() && x[4] != y[4]
}

proof fn lemma_free_by_early_differences(a: Seq<char>, b: Seq<char>)
    requires
        a.len() > 0,
        b.len() > 0,
        forall|k: int| 1 <= k < a.len() ==> differ_early(#[trigger] a.subrange(k, a.len() as int), b),
        forall|k: int| 0 <= k < b.len() ==> differ_early(#[trigger] b.subrange(k, b.len() as int), a),
    ensures
        overlap_free(a, b),
{
    assert forall|k: int| 1 <= k < a.len() implies !#[trigger] prefix_agree(a.subrange(k, a.len() as int), b) by {
        let x = a.subrange(k, a.len() as int);
        assert(differ_early(x, b));
        if 0 < x.len() && 0 < b.len() && x[0] != b[0] {
            lemma_differs_early(x, b);
        } else if 1 < x.len() && 1 < b.len() && x[1] != b[1] {
            lemma_differs_early(x, b);
        } else if 2 < x.len() && 2 < b.len() && x[2] != b[2] {
            lemma_differs_early(x, b);
        } else if 3 < x.len() && 3 < b.len() && x[3] != b[3] {
            lemma_differs_early(x, b);
        } else {
            lemma_differs_early(x, b);
        }
    }
    assert forall|k: int| 0 <= k < b.len() implies !#[trigger] prefix_agree(b.subrange(k, b.len() as int), a) by {
        let x = b.subrange(k, b.len() as int);
        assert(differ_early(x, a));
        if 0 < x.len() && 0 < a.len() && x[0] != a[0] {
            lemma_differs_early(x, a);
        } else if 1 < x.len() && 1 < a.len() && x[1] != a[1] {
            lemma_differs_early(x, a);
        } else if 2 < x.len() && 2 < a.len() && x[2] != a[2] {
            lemma_differs_early(x, a);
        } else if 3 < x.len() && 3 < a.len() && x[3] != a[3] {
            lemma_differs_early(x, a);
        } else {
            lemma_differs_early(x, a);
        }
    }
}

proof fn lemma_rule_0_overlap_free()
    ensures
        overlap_free("INT AUTO_INCREMENT"@, "SERIAL"@),
{
    reveal_strlit("INT AUTO_INCREMENT");
    reveal_strlit("SERIAL");
    lemma_free_by_early_differences("INT AUTO_INCREMENT"@, "SERIAL"@);
}

proof fn lemma_rule_1_overlap_free()
    ensures
        overlap_free("int auto_increment"@, "serial"@),
{
    reveal_strlit("int auto_increment");
    reveal_strlit("serial");
    lemma_free_by_early_differences("int auto_increment"@, "serial"@);
}

proof fn lemma_rule_2_overlap_free()
    ensures
        overlap_free("BIGINT AUTO_INCREMENT"@, "BIGSERIAL"@),
{
    reveal_strlit("BIGINT AUTO_INCREMENT");
    reveal_strlit("BIGSERIAL");
    lemma_free_by_early_differences("BIGINT AUTO_INCREMENT"@, "BIGSERIAL"@);
}

proof fn lemma_rule_3_overlap_free()
    ensures
        overlap_free("bigint auto_increment"@, "bigserial"@),
{
    reveal_strlit("bigint auto_increment");
    reveal_strlit("bigserial");
    lemma_free_by_early_differences("bigint auto_increment"@, "bigserial"@);
}

proof fn lemma_rule_4_overlap_free()
    ensures
        overlap_free("`"@, "\""@),
{
    reveal_strlit("`");
    reveal_strlit("\"");
    lemma_free_by_early_differences("`"@, "\""@);
}

proof fn lemma_rule_9_overlap_free()
    ensures
        overlap_free("TINYINT(1)"@, "BOOLEAN"@),
{
    reveal_strlit("TINYINT(1)");
    reveal_strlit("BOOLEAN");
    lemma_free_by_early_differences("TINYINT(1)"@, "BOOLEAN"@);
}

proof fn lemma_rule_10_overlap_free()
    ensures
        overlap_free("tinyint(1)"@, "boolean"@),
{
    reveal_strlit("tinyint(1)");
    reveal_strlit("boolean");
    lemma_free_by_early_differences("tinyint(1)"@, "boolean"@);
}

proof fn lemma_rule_23_overlap_free()
    ensures
        overlap_free("VARBINARY"@, "BYTEA"@),
{
    reveal_strlit("VARBINARY");
    reveal_strlit("BYTEA");
    lemma_free_by_early_differences("VARBINARY"@, "BYTEA"@);
}

proof fn lemma_rule_24_overlap_free()
    ensures
        overlap_free("varbinary"@, "bytea"@),
{
    reveal_strlit("varbinary");
    reveal_strlit("bytea");
    lemma_free_by_early_differences("varbinary"@, "bytea"@);
}

proof fn lemma_rule_25_overlap_free()
    ensures
        overlap_free("NOW()"@, "CURRENT_TIMESTAMP"@),
{
    reveal_strlit("NOW()");
    reveal_strlit("CURRENT_TIMESTAMP");
    lemma_free_by_early_differences("NOW()"@, "CURRENT_TIMESTAMP"@);
}

proof fn lemma_rule_26_overlap_free()
    ensures
        overlap_free("now()"@, "current_timestamp"@),
{
    reveal_strlit("now()");
    reveal_strlit("current_timestamp");
    lemma_free_by_early_differences("now()"@, "current_timestamp"@);
}

proof fn lemma_rule_27_overlap_free()
    ensures
        overlap_free("CURDATE()"@, "CURRENT_DATE"@),
{
    reveal_strlit("CURDATE()");
    reveal_strlit("CURRENT_DATE");
    lemma_free_by_early_differences("CURDATE()"@, "CURRENT_DATE"@);
}

proof fn lemma_rule_28_overlap_free()
    ensures
        overlap_free("curdate()"@, "current_date"@),
{
    reveal_strlit("curdate()");
    reveal_strlit("current_date");
    lemma_free_by_early_differences("curdate()"@, "current_date"@);
}

proof fn lemma_rule_29_overlap_free()
    ensures
        overlap_free("CURTIME()"@, "CURRENT_TIME"@),
{
    reveal_strlit("CURTIME()");
    reveal_strlit("CURRENT_TIME");
    lemma_free_by_early_differences("CURTIME()"@, "CURRENT_TIME"@);
}

proof fn lemma_rule_30_overlap_free()
    ensures
        overlap_free("curtime()"@, "current_time"@),
{
    reveal_strlit("curtime()");
    reveal_strlit("current_time");
    lemma_free_by_early_differences("curtime()"@, "current_time"@);
}

proof fn lemma_rule_31_overlap_free()
    ensures
        overlap_free("YEAR"@, "SMALLINT"@),
{
    reveal_strlit("YEAR");
    reveal_strlit("SMALLINT");
    lemma_free_by_early_differences("YEAR"@, "SMALLINT"@);
}

proof fn lemma_rule_32_overlap_free()
    ensures
        overlap_free("year"@, "smallint"@),
{
    reveal_strlit("year");
    reveal_strlit("smallint");
    lemma_free_by_early_differences("year"@, "smallint"@);
}

/// The rules whose pattern cannot overlap their replacement: the
/// auto-increment, quoting, `TINYINT(1)`, `VARBINARY`, date/time and `YEAR`
/// rules.
pub open spec fn is_overlap_free_rule(k: int) -> bool {
    k == 0 || k == 1 || k == 2 || k == 3 || k == 4 || k == 9 || k == 10 || k == 23 || k == 24 || k == 25 || k == 26 || k == 27 || k == 28 || k == 29 || k == 30 || k == 31 || k == 32
}

proof fn lemma_overlap_free_rules(k: int)
    requires
        is_overlap_free_rule(k),
    ensures
        overlap_free((serial_rules() + type_rules())[k].0@, (serial_rules() + type_rules())[k].1@),
{
    assert((serial_rules() + type_rules()) =~= seq![
        ("INT AUTO_INCREMENT", "SERIAL"),
        ("int auto_increment", "serial"),
        ("BIGINT AUTO_INCREMENT", "BIGSERIAL"),
        ("bigint auto_increment", "bigserial"),
        ("`", "\""),
        (" UNSIGNED", ""),
        (" unsigned", ""),
        ("MEDIUMINT", "INTEGER"),
        ("mediumint", "integer"),
        ("TINYINT(1)", "BOOLEAN"),
        ("tinyint(1)", "boolean"),
        ("TINYINT", "SMALLINT"),
        ("tinyint", "smallint"),
        ("LONGTEXT", "TEXT"),
        ("longtext", "text"),
        ("MEDIUMTEXT", "TEXT"),
        ("mediumtext", "text"),
        ("LONGBLOB", "BYTEA"),
        ("longblob", "bytea"),
        ("MEDIUMBLOB", "BYTEA"),
        ("mediumblob", "bytea"),
        ("BLOB", "BYTEA"),
        ("blob", "bytea"),
        ("VARBINARY", "BYTEA"),
        ("varbinary", "bytea"),
        ("NOW()", "CURRENT_TIMESTAMP"),
        ("now()", "current_timestamp"),
        ("CURDATE()", "CURRENT_DATE"),
        ("curdate()", "current_date"),
        ("CURTIME()", "CURRENT_TIME"),
        ("curtime()", "current_time"),
        ("YEAR", "SMALLINT"),
        ("year", "smallint"),
    ]);
    if k == 0 {
        lemma_rule_0_overlap_free();
    } else if k == 1 {
        lemma_rule_1_overlap_free();
    } else if k == 2 {
        lemma_rule_2_overlap_free();
    } else if k == 3 {
        lemma_rule_3_overlap_free();
    } else if k == 4 {
        lemma_rule_4_overlap_free();
    } else if k == 9 {
        lemma_rule_9_overlap_free();
    } else if k == 10 {
        lemma_rule_10_overlap_free();
    } else if k == 23 {
        lemma_rule_23_overlap_free();
    } else if k == 24 {
        lemma_rule_24_overlap_free();
    } else if k == 25 {
        lemma_rule_25_overlap_free();
    } else if k == 26 {
        lemma_rule_26_overlap_free();
    } else if k == 27 {
        lemma_rule_27_overlap_free();
    } else if k == 28 {
        lemma_rule_28_overlap_free();
    } else if k == 29 {
        lemma_rule_29_overlap_free();
    } else if k == 30 {
        lemma_rule_30_overlap_free();
    } else if k == 31 {
        lemma_rule_31_overlap_free();
    } else if k == 32 {
        lemma_rule_32_overlap_free();
    }
}

/// Applying a rule of the substitution pass a second time changes nothing,
/// for every text, when the rule's pattern cannot overlap its replacement.
pub proof fn rule_application_idempotent(s: Seq<char>, k: int)
    requires
        is_overlap_free_rule(k),
    ensures
        ({
            let (a, b) = (serial_rules() + type_rules())[k];
            replaced(replaced(s, a@, b@), a@, b@) == replaced(s, a@, b@)
        }),
{
    lemma_overlap_free_rules(k);
    let (a, b) = (serial_rules() + type_rules())[k];
    lemma_replaced_leaves_none(s, a@, b@);
    lemma_replaced_absent(replaced(s, a@, b@), a@, b@);
}

/// Applying any rule of the substitution pass a second time changes nothing
/// exactly when its first application left no occurrence of its pattern.
pub proof fn rule_reapplication_settled(s: Seq<char>, k: int)
    requires
        0 <= k < serial_rules().len() + type_rules().len(),
        !contains(
            replaced(s, (serial_rules() + type_rules())[k].0@, (serial_rules() + type_rules())[k].1@),
            (serial_rules() + type_rules())[k].0@,
        ),
    ensures
        ({
            let (a, b) = (serial_rules() + type_rules())[k];
            replaced(replaced(s, a@, b@), a@, b@) == replaced(s, a@, b@)
        }),
{
    let (a, b) = (serial_rules() + type_rules())[k];
    lemma_replaced_absent(replaced(s, a@, b@), a@, b@);
}


/// A sized type `a<digits>)` starts at `p` in `s`.
pub open spec fn sized_at(s: Seq<char>, p: int, a: Seq<char>) -> bool {
    0 <= p <= s.len() && sized_at_start(s.subrange(p, s.len() as int), a)
}

/// A sized-type rule whose pattern cannot overlap its replacement, and whose
/// pattern and replacement both begin with a character that can neither
/// continue a length nor close it.
pub open spec fn sized_rule_ok(a: Seq<char>, b: Seq<char>) -> bool {
    &&& overlap_free(a, b)
    &&& !is_digit(a[0]) && a[0] != ')'
    &&& !is_digit(b[0]) && b[0] != ')'
}

proof fn lemma_sized_shift(s: Seq<char>, p: int, a: Seq<char>)
    requires
        s.len() > 0,
        p >= 1,
    ensures
        sized_at(s, p, a) == sized_at(s.drop_first(), p - 1, a),
{
    if p <= s.len() {
        assert(s.subrange(p, s.len() as int) =~= s.drop_first().subrange(p - 1, s.len() - 1));
    }
}

proof fn lemma_sized_at_zero(s: Seq<char>, a: Seq<char>)
    ensures
        sized_at(s, 0, a) == sized_at_start(s, a),
{
    assert(s.subrange(0, s.len() as int) =~= s);
}

proof fn lemma_sized_none_unchanged(s: Seq<char>, a: Seq<char>, b: Seq<char>)
    requires
        forall|p: int| !sized_at(s, p, a),
    ensures
        sized_replaced(s, a, b) == s,
    decreases s.len(),
{
    if a.len() == 0 || s.len() == 0 {
    } else {
        lemma_sized_at_zero(s, a);
        assert forall|p: int| !sized_at(s.drop_first(), p, a) by {
            if p >= 0 {
                lemma_sized_shift(s, p + 1, a);
            }
        }
        lemma_sized_none_unchanged(s.drop_first(), a, b);
        assert(seq![s[0]] + s.drop_first() =~= s);
    }
}

proof fn lemma_sized_first(s: Seq<char>, a: Seq<char>, i: int)
    requires
        0 <= i,
        forall|t: int| 0 <= t < i ==> !sized_at(s, t, a),
    ensures
        (forall|t: int| !sized_at(s, t, a)) || exists|q: int|
            sized_at(s, q, a) && forall|t: int| 0 <= t < q ==> !sized_at(s, t, a),
    decreases s.len() + 1 - i,
{
    if i > s.len() {
    } else if sized_at(s, i, a) {
    } else {
        lemma_sized_first(s, a, i + 1);
    }
}

proof fn lemma_sized_prefix(s: Seq<char>, a: Seq<char>, b: Seq<char>, q: int)
    requires
        a.len() > 0,
        sized_at(s, q, a),
        forall|t: int| 0 <= t < q ==> !sized_at(s, t, a),
    ensures
        sized_replaced(s, a, b).len() >= q + b.len(),
        sized_replaced(s, a, b).subrange(0, q) == s.subrange(0, q),
        sized_replaced(s, a, b).subrange(q, q + b.len()) == b,
    decreases s.len(),
{
    let o = sized_replaced(s, a, b);
    lemma_sized_at_zero(s, a);
    if sized_at_start(s, a) {
        assert(q == 0);
        assert(o.subrange(0, b.len() as int) =~= b);
        assert(o.subrange(0, 0) =~= s.subrange(0, 0));
    } else {
        let x = s.drop_first();
        lemma_sized_shift(s, q, a);
        assert forall|t: int| 0 <= t < q - 1 implies !sized_at(x, t, a) by {
            lemma_sized_shift(s, t + 1, a);
        }
        lemma_sized_prefix(x, a, b, q - 1);
        let o2 = sized_replaced(x, a, b);
        assert(o == seq![s[0]] + o2);
        assert(o.subrange(0, q) =~= seq![s[0]] + o2.subrange(0, q - 1));
        assert(s.subrange(0, q) =~= seq![s[0]] + x.subrange(0, q - 1));
        assert(o.subrange(q, q + b.len()) =~= o2.subrange(q - 1, q - 1 + b.len()));
    }
}

proof fn lemma_digit_count_agree(x: Seq<char>, y: Seq<char>, e: int)
    requires
        0 <= e < x.len(),
        e < y.len(),
        x.subrange(0, e) == y.subrange(0, e),
        !is_digit(x[e]),
        !is_digit(y[e]),
    ensures
        digit_count(x) == digit_count(y),
        digit_count(x) <= e,
    decreases e,
{
    if e > 0 {
        assert(x[0] == x.subrange(0, e)[0]);
        assert(y[0] == y.subrange(0, e)[0]);
        if is_digit(x[0]) {
            assert(x.drop_first().subrange(0, e - 1) =~= y.drop_first().subrange(0, e - 1)) by {
                assert forall|j: int| 0 <= j < e - 1 implies x.drop_first()[j] == y.drop_first()[j] by {
                    assert(x[j + 1] == x.subrange(0, e)[j + 1]);
                    assert(y[j + 1] == y.subrange(0, e)[j + 1]);
                }
            }
            lemma_digit_count_agree(x.drop_first(), y.drop_first(), e - 1);
        }
    }
}

proof fn lemma_sized_clean_after_match(s: Seq<char>, a: Seq<char>, b: Seq<char>)
    requires
        sized_rule_ok(a, b),
        s.len() > 0,
        sized_at_start(s, a),
        forall|p: int|
            !#[trigger] sized_at(
                sized_replaced(s.subrange(sized_close(s, a) + 1, s.len() as int), a, b),
                p,
                a,
            ),
    ensures
        forall|p: int| !sized_at(sized_replaced(s, a, b), p, a),
{
    let o = sized_replaced(s, a, b);
    let o2 = sized_replaced(s.subrange(sized_close(s, a) + 1, s.len() as int), a, b);
    assert(o == b + o2);
    assert forall|p: int| !sized_at(o, p, a) by {
        if sized_at(o, p, a) {
            let t = o.subrange(p, o.len() as int);
            if p < b.len() {
                assert(o.subrange(p, p + a.len()) =~= t.subrange(0, a.len() as int));
                assert(o.subrange(p, b.len() as int) =~= b.subrange(p, b.len() as int));
                crate::text::lemma_agree_inside(o, p, b.subrange(p, b.len() as int), a);
            } else {
                assert(t =~= o2.subrange(p - b.len(), o2.len() as int));
                assert(sized_at(o2, p - b.len(), a));
            }
        }
    }
}

proof fn lemma_sized_head(s: Seq<char>, a: Seq<char>, b: Seq<char>)
    requires
        sized_rule_ok(a, b),
        s.len() > 0,
        !sized_at_start(s, a),
    ensures
        !sized_at(sized_replaced(s, a, b), 0, a),
{
    let o = sized_replaced(s, a, b);
    let x = s.drop_first();
    let o2 = sized_replaced(x, a, b);
    assert(o == seq![s[0]] + o2);
    lemma_sized_at_zero(o, a);
    if sized_at_start(o, a) {
        lemma_sized_first(x, a, 0);
        if forall|t: int| !sized_at(x, t, a) {
            lemma_sized_none_unchanged(x, a, b);
            assert(seq![s[0]] + x =~= s);
        } else {
            let q = choose|q: int| sized_at(x, q, a) && forall|t: int| 0 <= t < q ==> !sized_at(x, t, a);
            lemma_sized_prefix(x, a, b, q);
            let xq = x.subrange(q, x.len() as int);
            assert(xq.subrange(0, a.len() as int) == a);
            assert(o.subrange(0, q + 1) =~= s.subrange(0, q + 1)) by {
                assert(o.subrange(0, q + 1) =~= seq![s[0]] + o2.subrange(0, q));
                assert(s.subrange(0, q + 1) =~= seq![s[0]] + x.subrange(0, q));
            }
            assert(o.subrange(q + 1, q + 1 + b.len()) =~= b) by {
                assert(o.subrange(q + 1, q + 1 + b.len()) =~= o2.subrange(q, q + b.len()));
            }
            assert(o[q + 1] == b[0]) by {
                assert(o[q + 1] == o.subrange(q + 1, q + 1 + b.len())[0]);
            }
            assert(s[q + 1] == a[0]) by {
                assert(s[q + 1] == x[q]);
                assert(x[q] == xq[0]);
                assert(xq[0] == xq.subrange(0, a.len() as int)[0]);
            }
            if q + 1 < a.len() {
                let k = q + 1;
                assert(o.subrange(k, a.len() as int) =~= a.subrange(k, a.len() as int));
                crate::text::lemma_agree_inside(o, k, a.subrange(k, a.len() as int), b);
            } else {
                let e = q + 1 - a.len();
                let ot = o.subrange(a.len() as int, o.len() as int);
                let st = s.subrange(a.len() as int, s.len() as int);
                assert(s.subrange(0, a.len() as int) =~= o.subrange(0, a.len() as int)) by {
                    assert(s.subrange(0, a.len() as int) =~= s.subrange(0, q + 1).subrange(0, a.len() as int));
                    assert(o.subrange(0, a.len() as int) =~= o.subrange(0, q + 1).subrange(0, a.len() as int));
                }
                assert(ot.subrange(0, e) =~= st.subrange(0, e)) by {
                    assert forall|j: int| 0 <= j < e implies ot[j] == st[j] by {
                        assert(o[a.len() + j] == o.subrange(0, q + 1)[a.len() + j]);
                        assert(s[a.len() + j] == s.subrange(0, q + 1)[a.len() + j]);
                    }
                }
                assert(ot[e] == b[0]);
                assert(st[e] == a[0]);
                lemma_digit_count_agree(ot, st, e);
                let c = sized_close(o, a);
                assert(c == sized_close(s, a));
                assert(c <= q + 1);
                if c < q + 1 {
                    assert(o[c] == o.subrange(0, q + 1)[c]);
                    assert(s[c] == s.subrange(0, q + 1)[c]);
                }
            }
        }
    }
}

proof fn lemma_sized_clean(s: Seq<char>, a: Seq<char>, b: Seq<char>)
    requires
        sized_rule_ok(a, b),
    ensures
        forall|p: int| !sized_at(sized_replaced(s, a, b), p, a),
    decreases s.len(),
{
    let o = sized_replaced(s, a, b);
    if s.len() == 0 {
        assert forall|p: int| !sized_at(o, p, a) by {
            if 0 <= p <= o.len() {
                assert(o.subrange(p, o.len() as int).len() == 0);
            }
        }
    } else if sized_at_start(s, a) {
        lemma_sized_clean(s.subrange(sized_close(s, a) + 1, s.len() as int), a, b);
        lemma_sized_clean_after_match(s, a, b);
    } else {
        let x = s.drop_first();
        lemma_sized_clean(x, a, b);
        let o2 = sized_replaced(x, a, b);
        assert(o == seq![s[0]] + o2);
        lemma_sized_head(s, a, b);
        assert forall|p: int| !sized_at(o, p, a) by {
            if p >= 1 {
                assert(o.drop_first() =~= o2);
                lemma_sized_shift(o, p, a);
            }
        }
    }
}

proof fn lemma_binary_rules_ok()
    ensures
        sized_rule_ok("BINARY("@, "BYTEA"@),
        sized_rule_ok("binary("@, "bytea"@),
{
    reveal_strlit("BINARY(");
    reveal_strlit("BYTEA");
    reveal_strlit("binary(");
    reveal_strlit("bytea");
    lemma_free_by_early_differences("BINARY("@, "BYTEA"@);
    lemma_free_by_early_differences("binary("@, "bytea"@);
}

/// Mapping `BINARY(n)` to `BYTEA` a second time changes nothing, for every
/// text; likewise in lower case.
pub proof fn binary_rule_idempotent(s: Seq<char>)
    ensures
        sized_replaced(sized_replaced(s, "BINARY("@, "BYTEA"@), "BINARY("@, "BYTEA"@)
            == sized_replaced(s, "BINARY("@, "BYTEA"@),
        sized_replaced(sized_replaced(s, "binary("@, "bytea"@), "binary("@, "bytea"@)
            == sized_replaced(s, "binary("@, "bytea"@),
{
    lemma_binary_rules_ok();
    lemma_sized_clean(s, "BINARY("@, "BYTEA"@);
    lemma_sized_none_unchanged(sized_replaced(s, "BINARY("@, "BYTEA"@), "BINARY("@, "BYTEA"@);
    lemma_sized_clean(s, "binary("@, "bytea"@);
    lemma_sized_none_unchanged(sized_replaced(s, "binary("@, "bytea"@), "binary("@, "bytea"@);
}


/// A non-empty run of digits.
pub open spec fn all_digits(s: Seq<char>) -> bool {
    s.len() > 0 && forall|i: int| 0 <= i < s.len() ==> is_digit(#[trigger] s[i])
}

proof fn lemma_not_ci_at(s: Seq<char>, t: int, p: Seq<char>, k: int)
    requires
        0 <= k < p.len(),
        0 <= t + k < s.len(),
        ascii_lower(s[t + k]) != p[k],
    ensures
        !occurs_at_ci(s, t, p),
{
}

proof fn lemma_find_ci_at(s: Seq<char>, p: Seq<char>, i: int, j: int)
    requires
        0 <= i <= j,
        occurs_at_ci(s, j, p),
        forall|t: int| i <= t < j ==> !occurs_at_ci(s, t, p),
    ensures
        find_ci_from(s, p, i) == Some(j),
    decreases j - i,
{
    if i < j {
        lemma_find_ci_at(s, p, i + 1, j);
    }
}

proof fn lemma_find_at(s: Seq<char>, p: Seq<char>, i: int, j: int)
    requires
        0 <= i <= j,
        occurs_at(s, j, p),
        forall|t: int| i <= t < j ==> !occurs_at(s, t, p),
    ensures
        find_from(s, p, i) == Some(j),
    decreases j - i,
{
    if i < j {
        lemma_find_at(s, p, i + 1, j);
    }
}

proof fn lemma_digits_not_white(s: Seq<char>)
    requires
        all_digits(s),
    ensures
        lead_ws(s) == 0,
        trail_ws(s) == 0,
        trimmed(s) == s,
{
    assert(is_digit(s[0]));
    assert(is_digit(s[s.len() - 1]));
    assert(s.subrange(0, s.len() as int) =~= s);
}

proof fn lemma_space_then_digits(s: Seq<char>)
    requires
        all_digits(s),
    ensures
        lead_ws(seq![' '] + s) == 1,
        trimmed(seq![' '] + s) == s,
{
    let x = seq![' '] + s;
    assert(x.drop_first() =~= s);
    lemma_digits_not_white(s);
    assert(x.subrange(1, x.len() as int) =~= s);
    assert(x.last() == s.last());
}

proof fn lemma_count_end_digits(s: Seq<char>, i: int)
    requires
        all_digits(s),
        0 <= i <= s.len(),
    ensures
        count_end_from(s, i) == s.len(),
    decreases s.len() - i,
{
    if i < s.len() {
        assert(is_digit(s[i]));
        lemma_count_end_digits(s, i + 1);
    }
}

/// The two-argument form `LIMIT o, c` of a plain query becomes exactly
/// `LIMIT c OFFSET o`, for any offset and count written in digits.
pub proof fn limit_pair_rewritten(o: Seq<char>, c: Seq<char>)
    requires
        all_digits(o),
        all_digits(c),
    ensures
        limit_rewritten("SELECT * FROM t LIMIT "@ + o + ", "@ + c) == "SELECT * FROM t LIMIT "@ + c
            + " OFFSET "@ + o,
{
    reveal_strlit("SELECT * FROM t LIMIT ");
    reveal_strlit("limit");
    reveal_strlit(", ");
    reveal_strlit(",");
    reveal_strlit("LIMIT ");
    reveal_strlit(" OFFSET ");
    let h = "SELECT * FROM t LIMIT "@;
    let s = h + o + ", "@ + c;
    let kw = "limit"@;
    assert(occurs_at_ci(s, 16, kw)) by {
        assert forall|k: int| 0 <= k < kw.len() implies ascii_lower(#[trigger] s[16 + k]) == kw[k] by {
            assert(s[16 + k] == h[16 + k]);
        }
    }
    assert forall|t: int| 0 <= t < 16 implies !occurs_at_ci(s, t, kw) by {
        if t == 2 {
            assert(s[3] == h[3]);
            lemma_not_ci_at(s, t, kw, 1);
        } else {
            assert(s[t] == h[t]);
            lemma_not_ci_at(s, t, kw, 0);
        }
    }
    lemma_find_ci_at(s, kw, 0, 16);
    let tail = s.subrange(21, s.len() as int);
    assert(tail =~= seq![' '] + (o + ", "@ + c));
    let arg = o + ", "@ + c;
    assert(!is_white_space(arg[0])) by {
        assert(arg[0] == o[0]);
        assert(is_digit(o[0]));
    }
    assert(lead_ws(tail) == 1) by {
        assert(tail.drop_first() =~= arg);
        assert(lead_ws(arg) == 0);
        assert(tail[0] == ' ');
        assert(is_white_space(' '));
    }
    assert(s.subrange(22, s.len() as int) =~= arg);
    assert(trail_ws(arg) == 0) by {
        assert(arg.last() == c.last());
        assert(is_digit(c[c.len() - 1]));
    }
    assert(s.subrange(22, s.len() as int) =~= arg);
    let comma = ","@;
    assert(occurs_at(arg, o.len() as int, comma)) by {
        assert(arg.subrange(o.len() as int, (o.len() + 1) as int) =~= comma);
    }
    assert forall|t: int| 0 <= t < o.len() implies !occurs_at(arg, t, comma) by {
        assert(arg[t] == o[t]);
        assert(is_digit(o[t]));
        assert(arg.subrange(t, t + 1)[0] == arg[t]);
    }
    lemma_find_at(arg, comma, 0, o.len() as int);
    assert(arg.subrange(0, o.len() as int) =~= o);
    lemma_digits_not_white(o);
    assert(arg.subrange((o.len() + 1) as int, arg.len() as int) =~= seq![' '] + c);
    lemma_space_then_digits(c);
    lemma_count_end_digits(c, 0);
    assert(s.subrange(0, 16) =~= h.subrange(0, 16));
    assert(c.subrange(0, c.len() as int) =~= c);
    assert(s.subrange(s.len() as int, s.len() as int) =~= Seq::<char>::empty());
    assert(c.subrange(c.len() as int, c.len() as int) =~= Seq::<char>::empty());
    assert(h.subrange(0, 16) + "LIMIT "@ + c + " OFFSET "@ + o + Seq::<char>::empty()
        + Seq::<char>::empty() =~= h + c + " OFFSET "@ + o);
}

} // verus!
