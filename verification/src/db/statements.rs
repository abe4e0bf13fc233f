//! Statements that are put together from the fields given.

use crate::text::{decimal_digits, join, joined, push_decimal, views};
use vstd::prelude::*;

verus! {

/// The assignments of an update statement for `columns`: each column set to
/// the parameter of its place, counted from 1.
pub open spec fn assignments(columns: Seq<Seq<char>>) -> Seq<Seq<char>> {
    Seq::new(columns.len(), |i: int| columns[i] + " = ?"@ + decimal_digits((i + 1) as nat))
}

/// The statement that updates `columns` of the row of `table` whose id is
/// the last parameter.
pub open spec fn update_sql(table: Seq<char>, columns: Seq<Seq<char>>) -> Seq<char> {
    "UPDATE "@ + table + " SET "@ + joined(assignments(columns), ", "@) + " WHERE id = ?"@
        + decimal_digits(columns.len() + 1)
}

/// The statement that updates `columns` of one row of `table`. Every column
/// is set to the parameter of its place, and the row's id is the parameter
/// after the last column.
pub fn update_statement(table: &str, columns: &Vec<String>) -> (sql: String)
    requires
        columns.len() < usize::MAX,
    ensures
        sql@ == update_sql(table@, views(columns@)),
{
    let mut parts: Vec<String> = Vec::new();
    let mut i: usize = 0;
    while i < columns.len()
        invariant
            i <= columns.len() < usize::MAX,
            parts.len() == i,
            forall|k: int|
                0 <= k < i ==> #[trigger] parts@[k]@ == assignments(views(columns@))[k],
        decreases columns.len() - i,
    {
        let mut part = columns[i].clone();
        part.append(" = ?");
        push_decimal(&mut part, i + 1);
        parts.push(part);
        i += 1;
    }
    assert(views(parts@) =~= assignments(views(columns@)));
    let mut sql = String::from_str("UPDATE ");
    sql.append(table);
    sql.append(" SET ");
    sql.append(join(&parts, ", ").as_str());
    sql.append(" WHERE id = ?");
    push_decimal(&mut sql, columns.len() + 1);
    sql
}

} // verus!
