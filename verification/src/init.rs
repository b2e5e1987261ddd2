//! The SQL text for the bootstrap path (creating the table, its per-column
//! indexes, and the bulk-insert statement) and the test that tells a
//! missing table apart from every other database failure. The statements
//! are executed, and the data moved, by the surrounding binary.

use vstd::prelude::*;
use crate::text::contains_seq;
use crate::text::dec_nat;
use crate::text::push_dec_u64;
use crate::text::str_contains;
use vstd::string::StringExecFns;

verus! {

/// Whether a database error message reports a missing table, which asks for
/// the bootstrap path rather than a failure.
pub fn is_missing_table_error(msg: &str) -> (r: bool)
    ensures
        r == contains_seq(msg@, "does not exist"@),
{
    str_contains(msg, "does not exist")
}

/// The statement that reads the whole table.
pub fn select_all_sql(table_name: &str) -> (r: String)
    ensures
        r@ == "SELECT * FROM "@ + table_name@,
{
    let mut sql = String::from_str("SELECT * FROM ");
    sql.append(table_name);
    sql
}

/// The column definitions of the created table from position `i` on, one
/// double-precision column per position, comma-separated.
pub open spec fn table_columns(n: nat, i: nat) -> Seq<char>
    decreases n - i,
{
    if i >= n {
        Seq::<char>::empty()
    } else {
        "c"@ + dec_nat(i) + " DOUBLE PRECISION"@ + (if i + 1 < n {
            ", "@
        } else {
            Seq::<char>::empty()
        }) + table_columns(n, i + 1)
    }
}

/// The statement that creates the bootstrap table: one double-precision
/// column `c<index>` per data column.
pub fn create_table_sql(table_name: &str, col_num: usize) -> (r: String)
    ensures
        r@ == "CREATE TABLE "@ + table_name@ + " ("@ + table_columns(col_num as nat, 0)
            + ");"@,
{
    let mut sql = String::from_str("CREATE TABLE ");
    sql.append(table_name);
    sql.append(" (");
    let ghost head = sql@;
    let mut i: usize = 0;
    while i < col_num
        invariant
            0 <= i <= col_num,
            sql@ + table_columns(col_num as nat, i as nat) == head + table_columns(
                col_num as nat,
                0,
            ),
        decreases col_num - i,
    {
        sql.append("c");
        push_dec_u64(&mut sql, i as u64);
        sql.append(" DOUBLE PRECISION");
        if i + 1 < col_num {
            sql.append(", ");
        }
        proof {
            assert(sql@ + table_columns(col_num as nat, i as nat + 1) =~= head
                + table_columns(col_num as nat, 0));
        }
        i = i + 1;
    }
    sql.append(");");
    proof {
        assert(table_columns(col_num as nat, col_num as nat) == Seq::<char>::empty());
        assert(sql@ =~= "CREATE TABLE "@ + table_name@ + " ("@ + table_columns(
            col_num as nat,
            0,
        ) + ");"@);
    }
    sql
}

/// The statement that creates the index on one column of the table.
pub fn create_index_sql(table_name: &str, idx: usize) -> (r: String)
    ensures
        r@ == "CREATE INDEX idx_"@ + table_name@ + "_c"@ + dec_nat(idx as nat) + " ON "@
            + table_name@ + " (c"@ + dec_nat(idx as nat) + ");"@,
{
    let mut sql = String::from_str("CREATE INDEX idx_");
    sql.append(table_name);
    sql.append("_c");
    push_dec_u64(&mut sql, idx as u64);
    sql.append(" ON ");
    sql.append(table_name);
    sql.append(" (c");
    push_dec_u64(&mut sql, idx as u64);
    sql.append(");");
    sql
}

/// The column-name list of the bulk-insert statement from position `i` on.
pub open spec fn insert_columns(n: nat, i: nat) -> Seq<char>
    decreases n - i,
{
    if i >= n {
        Seq::<char>::empty()
    } else {
        "c"@ + dec_nat(i) + (if i + 1 < n {
            ", "@
        } else {
            Seq::<char>::empty()
        }) + insert_columns(n, i + 1)
    }
}

/// The placeholder list of the bulk-insert statement from position `i` on,
/// parameters numbered from 1.
pub open spec fn insert_params(n: nat, i: nat) -> Seq<char>
    decreases n - i,
{
    if i >= n {
        Seq::<char>::empty()
    } else {
        "$"@ + dec_nat(i + 1) + (if i + 1 < n {
            ", "@
        } else {
            Seq::<char>::empty()
        }) + insert_params(n, i + 1)
    }
}

/// The parameterized statement that inserts one data row into the
/// bootstrap table, one sequentially numbered parameter per column.
pub fn insert_sql(table_name: &str, col_num: usize) -> (r: String)
    requires
        col_num < usize::MAX,
    ensures
        r@ == "INSERT INTO "@ + table_name@ + " ("@ + insert_columns(col_num as nat, 0)
            + ") VALUES ("@ + insert_params(col_num as nat, 0) + ");"@,
{
    let mut sql = String::from_str("INSERT INTO ");
    sql.append(table_name);
    sql.append(" (");
    let ghost head = sql@;
    let mut i: usize = 0;
    while i < col_num
        invariant
            0 <= i <= col_num,
            sql@ + insert_columns(col_num as nat, i as nat) == head + insert_columns(
                col_num as nat,
                0,
            ),
        decreases col_num - i,
    {
        sql.append("c");
        push_dec_u64(&mut sql, i as u64);
        if i + 1 < col_num {
            sql.append(", ");
        }
        proof {
            assert(sql@ + insert_columns(col_num as nat, i as nat + 1) =~= head
                + insert_columns(col_num as nat, 0));
        }
        i = i + 1;
    }
    sql.append(") VALUES (");
    let ghost mid = sql@;
    let mut j: usize = 0;
    while j < col_num
        invariant
            0 <= j <= col_num,
            col_num < usize::MAX,
            sql@ + insert_params(col_num as nat, j as nat) == mid + insert_params(
                col_num as nat,
                0,
            ),
        decreases col_num - j,
    {
        sql.append("$");
        push_dec_u64(&mut sql, (j + 1) as u64);
        if j + 1 < col_num {
            sql.append(", ");
        }
        proof {
            assert(sql@ + insert_params(col_num as nat, j as nat + 1) =~= mid + insert_params(
                col_num as nat,
                0,
            ));
        }
        j = j + 1;
    }
    sql.append(");");
    proof {
        assert(insert_columns(col_num as nat, col_num as nat) == Seq::<char>::empty());
        assert(insert_params(col_num as nat, col_num as nat) == Seq::<char>::empty());
        assert(mid =~= "INSERT INTO "@ + table_name@ + " ("@ + insert_columns(
            col_num as nat,
            0,
        ) + ") VALUES ("@);
        assert(sql@ =~= "INSERT INTO "@ + table_name@ + " ("@ + insert_columns(
            col_num as nat,
            0,
        ) + ") VALUES ("@ + insert_params(col_num as nat, 0) + ");"@);
    }
    sql
}

} // verus!
