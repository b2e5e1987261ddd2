use train_gen::error::GeneratorError;
use train_gen::generate::assemble_regime;
use train_gen::generate::convert_to_parameters;
use train_gen::generate::flatten_rows;
use train_gen::generate::generate_ranges;
use train_gen::generate::output_file_names;
use train_gen::generate::partition;
use train_gen::generate::read_true_answer;
use train_gen::matrix::select;
use train_gen::matrix::Matrix;

fn bits(vals: &[f64]) -> Vec<u64> {
    vals.iter().map(|v| v.to_bits()).collect()
}

fn nine_rows() -> Matrix {
    let rows: Vec<Vec<u64>> = (0..9).map(|r| bits(&[r as f64, 10.0 + r as f64])).collect();
    Matrix::from_rows(rows, 2).unwrap()
}

#[test]
fn partition_nine_rows_into_four() {
    let data = nine_rows();
    let parts = partition(&data, 4);
    assert_eq!(parts.len(), 4);
    let sizes: Vec<usize> = parts.iter().map(|p| p.row_count()).collect();
    assert_eq!(sizes, vec![2, 2, 2, 3]);
    // ceil(9 / 4) == 3: no partition exceeds it.
    assert!(sizes.iter().all(|s| *s <= 3));
    // The partitions reconstruct the original row sequence exactly.
    let mut joined: Vec<Vec<u64>> = Vec::new();
    for p in &parts {
        for i in 0..p.row_count() {
            joined.push(p.row(i).clone());
        }
    }
    for (r, row) in joined.iter().enumerate() {
        assert_eq!(f64::from_bits(row[0]), r as f64);
        assert_eq!(f64::from_bits(row[1]), 10.0 + r as f64);
    }
}

#[test]
fn partition_more_parts_than_rows() {
    let rows: Vec<Vec<u64>> = (0..2).map(|r| bits(&[r as f64])).collect();
    let data = Matrix::from_rows(rows, 1).unwrap();
    let parts = partition(&data, 5);
    assert_eq!(parts.len(), 5);
    let sizes: Vec<usize> = parts.iter().map(|p| p.row_count()).collect();
    // base = floor(2 / 5) = 0: the last partition absorbs everything.
    assert_eq!(sizes, vec![0, 0, 0, 0, 2]);
}

#[test]
fn partition_remainder_goes_to_the_last_part() {
    // With a remainder above one, the final partition absorbs all of it:
    // the first k - 1 partitions hold exactly floor(rows / k) rows each.
    let rows: Vec<Vec<u64>> = (0..10).map(|r| bits(&[r as f64])).collect();
    let data = Matrix::from_rows(rows, 1).unwrap();
    let parts = partition(&data, 4);
    let sizes: Vec<usize> = parts.iter().map(|p| p.row_count()).collect();
    assert_eq!(sizes, vec![2, 2, 2, 4]);
}

#[test]
fn partition_single_part() {
    let data = nine_rows();
    let parts = partition(&data, 1);
    assert_eq!(parts.len(), 1);
    assert_eq!(parts[0].row_count(), 9);
}

#[test]
fn selecting_columns_projects_and_keeps_order() {
    let rows = vec![bits(&[1.0, 2.0, 3.0]), bits(&[4.0, 5.0, 6.0])];
    let data = Matrix::from_rows(rows, 3).unwrap();
    let picked = select(&data, &vec![2, 0]).unwrap();
    assert_eq!(picked.row_count(), 2);
    assert_eq!(picked.col_count(), 2);
    assert_eq!(picked.row(0), &bits(&[3.0, 1.0]));
    assert_eq!(picked.row(1), &bits(&[6.0, 4.0]));
}

#[test]
fn selecting_a_column_outside_the_matrix_fails() {
    let rows = vec![bits(&[1.0, 2.0])];
    let data = Matrix::from_rows(rows, 2).unwrap();
    assert!(matches!(
        select(&data, &vec![0, 2]),
        Err(GeneratorError::ShapeError(_))
    ));
    assert!(matches!(
        select(&data, &vec![-1]),
        Err(GeneratorError::ShapeError(_))
    ));
}

#[test]
fn ragged_rows_are_a_shape_error() {
    let rows = vec![bits(&[1.0, 2.0]), bits(&[3.0])];
    assert!(matches!(
        Matrix::from_rows(rows, 2),
        Err(GeneratorError::ShapeError(_))
    ));
}

#[test]
fn range_rows_stack_lower_upper_width() {
    let lower = Matrix::from_rows(vec![bits(&[0.5, 1.5])], 2).unwrap();
    let upper = Matrix::from_rows(vec![bits(&[1.5, 2.5])], 2).unwrap();
    let width = Matrix::from_rows(vec![bits(&[1.0, 1.0])], 2).unwrap();
    let ranges = generate_ranges(&lower, &upper, &width).unwrap();
    assert_eq!(ranges.col_count(), 6);
    assert_eq!(ranges.row_count(), 1);
    assert_eq!(ranges.row(0), &bits(&[0.5, 1.5, 1.5, 2.5, 1.0, 1.0]));
}

#[test]
fn mismatched_range_shapes_fail() {
    let lower = Matrix::from_rows(vec![bits(&[0.5, 1.5])], 2).unwrap();
    let upper = Matrix::from_rows(vec![bits(&[1.5])], 1).unwrap();
    let width = Matrix::from_rows(vec![bits(&[1.0, 1.0])], 2).unwrap();
    assert!(matches!(
        generate_ranges(&lower, &upper, &width),
        Err(GeneratorError::ShapeError(_))
    ));
}

#[test]
fn group_columns_collapse_to_midpoint() {
    // Range row over three selected columns: lowers, uppers, widths.
    let ranges = bits(&[0.0, 4.0, -2.0, 2.0, 6.0, 0.0, 2.0, 2.0, 2.0]);
    let mids = bits(&[1.0, 5.0, -1.0]);
    let group_fields = vec![1];
    let mut params = bits(&[0.0; 6]);
    convert_to_parameters(&mut params, &ranges, &mids, &group_fields);
    // Column 1 is a group column: lower == upper == its midpoint,
    // whatever bias was synthesized.
    assert_eq!(f64::from_bits(params[2]), 5.0);
    assert_eq!(f64::from_bits(params[3]), 5.0);
    // The others carry (lower, upper) pairs in selected order.
    assert_eq!(f64::from_bits(params[0]), 0.0);
    assert_eq!(f64::from_bits(params[1]), 2.0);
    assert_eq!(f64::from_bits(params[4]), -2.0);
    assert_eq!(f64::from_bits(params[5]), 0.0);
}

#[test]
fn zero_count_normalizes_aggregates_to_zero() {
    // A zero count leaves the database's aggregates undefined: every
    // aggregate field must come back as exactly 0.0.
    let row = Some((0i64, vec![None, None, Some(7.5f64.to_bits())]));
    let (count, vals) = read_true_answer(row).unwrap();
    assert_eq!(count, 0);
    assert_eq!(vals.len(), 3);
    for v in vals {
        assert_eq!(f64::from_bits(v), 0.0);
    }
}

#[test]
fn positive_count_keeps_aggregates() {
    let row = Some((2i64, vec![Some(1.5f64.to_bits()), Some((-3.0f64).to_bits())]));
    let (count, vals) = read_true_answer(row).unwrap();
    assert_eq!(count, 2);
    assert_eq!(f64::from_bits(vals[0]), 1.5);
    assert_eq!(f64::from_bits(vals[1]), -3.0);
}

#[test]
fn missing_result_row_fails_loudly() {
    assert!(matches!(
        read_true_answer(None),
        Err(GeneratorError::Message(_))
    ));
}

#[test]
fn reassembly_preserves_row_order() {
    // A 9-row matrix split into 4 partitions: after per-partition work the
    // reassembled matrices list the rows in the original order, whatever
    // order the workers finished in.
    let data = nine_rows();
    let parts = partition(&data, 4);
    let mut results: Vec<Result<(Matrix, Matrix), GeneratorError>> = Vec::new();
    for p in &parts {
        let rows: Vec<Vec<u64>> = (0..p.row_count()).map(|i| p.row(i).clone()).collect();
        let x = Matrix::from_rows(rows.clone(), p.col_count()).unwrap();
        let y = Matrix::from_rows(rows, p.col_count()).unwrap();
        results.push(Ok((x, y)));
    }
    let (xs, ys) = assemble_regime(&mut results).unwrap();
    assert_eq!(xs.len(), 4);
    assert_eq!(ys.len(), 4);
    let flat = flatten_rows(&xs);
    assert_eq!(flat.len(), 9);
    for (r, row) in flat.iter().enumerate() {
        assert_eq!(f64::from_bits(row[0]), r as f64);
        assert_eq!(f64::from_bits(row[1]), 10.0 + r as f64);
    }
}

#[test]
fn one_failed_worker_fails_the_regime() {
    // Regime atomicity: a single failed worker fails the whole regime with
    // that worker's error, and no output pair is assembled.
    let ok_pair = || {
        let m = Matrix::from_rows(vec![bits(&[1.0])], 1).unwrap();
        let n = Matrix::from_rows(vec![bits(&[2.0])], 1).unwrap();
        Ok((m, n))
    };
    let mut results: Vec<Result<(Matrix, Matrix), GeneratorError>> = vec![
        ok_pair(),
        Err(GeneratorError::DbError(String::from("connection reset"))),
        ok_pair(),
    ];
    let out = assemble_regime(&mut results);
    match out {
        Err(GeneratorError::DbError(msg)) => assert_eq!(msg, "connection reset"),
        _ => panic!("the regime must fail with the failed worker's error"),
    }
}

#[test]
fn naming_output_files() {
    let (x, y) = output_file_names("out/run", 3);
    assert_eq!(x, "out/run-3-X.csv");
    assert_eq!(y, "out/run-3-Y.csv");
}
