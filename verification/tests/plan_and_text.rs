use train_gen::config::Config;
use train_gen::config::DbConfig;
use train_gen::config::GeneratorConfig;
use train_gen::config::GeneratorFields;
use train_gen::config::GeneratorNormal;
use train_gen::error::GeneratorError;
use train_gen::generate::execute;
use train_gen::init::is_missing_table_error;
use train_gen::matrix::Matrix;
use train_gen::text::parse_usize;

fn bits(vals: &[f64]) -> Vec<u64> {
    vals.iter().map(|v| v.to_bits()).collect()
}

fn test_config() -> Config {
    Config {
        db: DbConfig {
            username: String::from("alice"),
            password: String::from(""),
            db_name: String::from("training"),
            table_name: String::from("table"),
            port: String::from("5432"),
            host: String::from("localhost"),
        },
        generator: GeneratorConfig {
            fields: GeneratorFields {
                agg_fields: vec![0, 1],
                select_fields: vec![0, 1, 2],
                group_fields: vec![2],
            },
            normal: GeneratorNormal {
                means: vec![bits(&[0.0, 0.0, 0.0]), bits(&[1.0, 1.0, 1.0])],
                std_devs: vec![bits(&[0.5, 0.5, 0.5]), bits(&[2.0, 2.0, 2.0])],
            },
        },
    }
}

fn test_data() -> Matrix {
    let rows: Vec<Vec<u64>> = (0..9)
        .map(|r| bits(&[r as f64, r as f64 + 0.5, -(r as f64), 99.0]))
        .collect();
    Matrix::from_rows(rows, 4).unwrap()
}

#[test]
fn executing_lays_out_the_whole_run() {
    let config = test_config();
    let plan = execute("out", "4", &config, &test_data()).unwrap();
    assert_eq!(
        plan.sql,
        "SELECT COUNT(c0), SUM(c0), SUM(c1), MAX(c0), MAX(c1), MIN(c0), MIN(c1) \
         FROM table WHERE c0 >= $1 AND c0 <= $2 AND c1 >= $3 AND c1 <= $4 \
         AND c2 >= $5 AND c2 <= $6;"
    );
    let sizes: Vec<usize> = plan.partitions.iter().map(|p| p.row_count()).collect();
    assert_eq!(sizes, vec![2, 2, 2, 3]);
    // The partitions hold the projected working matrix in row order.
    assert_eq!(plan.partitions[0].col_count(), 3);
    assert_eq!(plan.partitions[0].row(0), &bits(&[0.0, 0.5, -0.0]));
    assert_eq!(plan.partitions[3].row(2), &bits(&[8.0, 8.5, -8.0]));
    // One regime per configured (mean, std) pair, with its file names.
    assert_eq!(plan.regimes.len(), 2);
    assert_eq!(plan.regimes[0].x_file, "out-0-X.csv");
    assert_eq!(plan.regimes[0].y_file, "out-0-Y.csv");
    assert_eq!(plan.regimes[1].x_file, "out-1-X.csv");
    assert_eq!(plan.regimes[1].y_file, "out-1-Y.csv");
    assert_eq!(plan.regimes[1].means, bits(&[1.0, 1.0, 1.0]));
    assert_eq!(plan.regimes[1].std_devs, bits(&[2.0, 2.0, 2.0]));
}

#[test]
fn executing_with_a_bad_thread_count_fails() {
    let config = test_config();
    assert!(matches!(
        execute("out", "four", &config, &test_data()),
        Err(GeneratorError::IntParseError(_))
    ));
    assert!(matches!(
        execute("out", "", &config, &test_data()),
        Err(GeneratorError::IntParseError(_))
    ));
    assert!(matches!(
        execute("out", "0", &config, &test_data()),
        Err(GeneratorError::Message(_))
    ));
}

#[test]
fn executing_with_a_bad_column_fails() {
    let mut config = test_config();
    config.generator.fields.select_fields = vec![0, 9];
    assert!(matches!(
        execute("out", "2", &config, &test_data()),
        Err(GeneratorError::ShapeError(_))
    ));
}

#[test]
fn executing_without_aggregated_columns_fails() {
    let mut config = test_config();
    config.generator.fields.agg_fields = vec![7];
    assert!(matches!(
        execute("out", "2", &config, &test_data()),
        Err(GeneratorError::Message(_))
    ));
}

#[test]
fn parsing_thread_counts() {
    assert_eq!(parse_usize("42").unwrap(), 42);
    assert_eq!(parse_usize("0").unwrap(), 0);
    assert!(matches!(
        parse_usize(""),
        Err(GeneratorError::IntParseError(_))
    ));
    assert!(matches!(
        parse_usize("4x"),
        Err(GeneratorError::IntParseError(_))
    ));
    assert!(matches!(
        parse_usize("-3"),
        Err(GeneratorError::IntParseError(_))
    ));
    assert!(matches!(
        parse_usize("99999999999999999999999999999"),
        Err(GeneratorError::IntParseError(_))
    ));
}

#[test]
fn recognizing_a_missing_table() {
    assert!(is_missing_table_error(
        "relation \"table\" does not exist"
    ));
    assert!(!is_missing_table_error("syntax error at or near SELECT"));
}

#[test]
fn connection_url_without_password() {
    let config = test_config();
    assert_eq!(
        config.connection_url(),
        "postgresql://alice@localhost:5432/training"
    );
}

#[test]
fn connection_url_with_password() {
    let mut config = test_config();
    config.db.password = String::from("pw");
    assert_eq!(
        config.connection_url(),
        "postgresql://alice:pw@localhost:5432/training"
    );
}

#[test]
fn errors_describe_themselves() {
    let e = GeneratorError::DbError(String::from("no route to host"));
    assert_eq!(e.describe(), "no route to host");
}
