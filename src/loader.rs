//! The statements that load the CSV text into the destination table and
//! check it afterwards.
use vstd::prelude::*;
use crate::json::{chars_of, string_of};

verus! {

/// Creates the table when it is missing and empties it, so that each load
/// replaces the table's contents.
pub open spec fn schema_text(table: Seq<char>) -> Seq<char> {
    "CREATE TABLE IF NOT EXISTS "@ + table
        + " (country TEXT NOT NULL, region TEXT NOT NULL, population INTEGER, area REAL, density REAL); DELETE FROM "@
        + table + ";"@
}

/// Imports a CSV file into the table, skipping its header line.
pub open spec fn import_text(csv: Seq<char>, table: Seq<char>) -> Seq<char> {
    ".import --skip 1 "@ + csv + " "@ + table
}

/// Counts the rows of each region, largest count first.
pub open spec fn validation_text(table: Seq<char>) -> Seq<char> {
    "SELECT region, COUNT(*) AS cnt FROM "@ + table + " GROUP BY region ORDER BY cnt DESC;"@
}

fn push_str(out: &mut Vec<char>, s: &str)
    ensures
        final(out)@ == old(out)@ + s@,
{
    let v = chars_of(s);
    let mut i: usize = 0;
    while i < v.len()
        invariant
            i <= v@.len(),
            v@ == s@,
            out@ == old(out)@ + v@.take(i as int),
        decreases v@.len() - i,
    {
        out.push(v[i]);
        assert(v@.take(i + 1) =~= v@.take(i as int).push(v@[i as int]));
        i += 1;
    }
    assert(v@.take(i as int) =~= v@);
}

/// The statements that create and empty the destination table.
pub fn schema_statement(table: &str) -> (r: String)
    ensures
        r@ == schema_text(table@),
{
    let mut out: Vec<char> = Vec::new();
    push_str(&mut out, "CREATE TABLE IF NOT EXISTS ");
    push_str(&mut out, table);
    push_str(
        &mut out,
        " (country TEXT NOT NULL, region TEXT NOT NULL, population INTEGER, area REAL, density REAL); DELETE FROM ",
    );
    push_str(&mut out, table);
    push_str(&mut out, ";");
    assert(out@ =~= schema_text(table@));
    string_of(&out)
}

/// The command that imports the CSV file into the table.
pub fn import_command(csv: &str, table: &str) -> (r: String)
    ensures
        r@ == import_text(csv@, table@),
{
    let mut out: Vec<char> = Vec::new();
    push_str(&mut out, ".import --skip 1 ");
    push_str(&mut out, csv);
    push_str(&mut out, " ");
    push_str(&mut out, table);
    assert(out@ =~= import_text(csv@, table@));
    string_of(&out)
}

/// The query that counts the rows of each region.
pub fn validation_query(table: &str) -> (r: String)
    ensures
        r@ == validation_text(table@),
{
    let mut out: Vec<char> = Vec::new();
    push_str(&mut out, "SELECT region, COUNT(*) AS cnt FROM ");
    push_str(&mut out, table);
    push_str(&mut out, " GROUP BY region ORDER BY cnt DESC;");
    assert(out@ =~= validation_text(table@));
    string_of(&out)
}

} // verus!
