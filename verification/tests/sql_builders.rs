use train_gen::generate::generate_sql;
use train_gen::init::create_index_sql;
use train_gen::init::create_table_sql;
use train_gen::init::insert_sql;
use train_gen::init::select_all_sql;

#[test]
fn test_generating_sql() {
    let agg_fields = vec![0, 1];
    let select_fields = vec![0, 1, 2, 3, 4];
    let sql = generate_sql("table", &select_fields, &agg_fields);
    let answer = "SELECT COUNT(c0), SUM(c0), SUM(c1), MAX(c0), MAX(c1), MIN(c0), MIN(c1) FROM table WHERE c0 >= $1 AND c0 <= $2 AND c1 >= $3 AND c1 <= $4 AND c2 >= $5 AND c2 <= $6 AND c3 >= $7 AND c3 <= $8 AND c4 >= $9 AND c4 <= $10;";
    assert_eq!(answer, sql);
}

#[test]
fn sql_skips_unselected_aggregates() {
    // An aggregated column outside the selected set contributes no term;
    // aggregate terms follow selected order, not aggregated order.
    let agg_fields = vec![7, 2];
    let select_fields = vec![2, 3];
    let sql = generate_sql("t", &select_fields, &agg_fields);
    let answer = "SELECT COUNT(c0), SUM(c2), MAX(c2), MIN(c2) FROM t \
                  WHERE c2 >= $1 AND c2 <= $2 AND c3 >= $3 AND c3 <= $4;";
    assert_eq!(answer, sql);
}

#[test]
fn sql_is_deterministic() {
    let agg_fields = vec![0, 1];
    let select_fields = vec![0, 1, 2, 3, 4];
    let first = generate_sql("table", &select_fields, &agg_fields);
    let second = generate_sql("table", &select_fields, &agg_fields);
    assert_eq!(first, second);
}

#[test]
fn creating_table_sql() {
    let sql = create_table_sql("data", 3);
    assert_eq!(
        sql,
        "CREATE TABLE data (c0 DOUBLE PRECISION, c1 DOUBLE PRECISION, c2 DOUBLE PRECISION);"
    );
    let empty = create_table_sql("data", 0);
    assert_eq!(empty, "CREATE TABLE data ();");
}

#[test]
fn creating_index_sql() {
    let sql = create_index_sql("data", 2);
    assert_eq!(sql, "CREATE INDEX idx_data_c2 ON data (c2);");
}

#[test]
fn inserting_sql() {
    let sql = insert_sql("data", 3);
    assert_eq!(sql, "INSERT INTO data (c0, c1, c2) VALUES ($1, $2, $3);");
}

#[test]
fn selecting_all_sql() {
    assert_eq!(select_all_sql("data"), "SELECT * FROM data");
}
