use logquery::error::Error;
use logquery::parser::{group_records, missing_columns, LineOutcome};
use logquery::schema::{Column, ColumnType, Schema};
use logquery::values::{
    f32_cmp_key_exec, f64_cmp_key_exec, parse_i32, parse_i64, str_lt_exec, Record, TypedValue,
};

fn schema_with(columns: Vec<Column>) -> Schema {
    Schema {
        regex: String::from("*"),
        table: String::from("logs"),
        columns,
    }
}

#[test]
fn parse_invalid_multiline() {
    let cases = [
        ("i32", ColumnType::Int32),
        ("i64", ColumnType::Int64),
        ("bool", ColumnType::Bool),
        ("f32", ColumnType::Float32),
        ("f64", ColumnType::Float64),
        ("datetime", ColumnType::DateTime),
    ];

    for case in cases {
        let schema = schema_with(vec![
            Column::new("string", ColumnType::String),
            Column {
                name: case.0.to_string(),
                column_type: case.1,
                multiline: true,
            },
        ]);
        let result = schema.validate();
        assert!(result.is_err());
        if let Err(Error::InvalidMultilineType(name, column_type)) = result {
            assert_eq!(case.0.to_owned(), name);
            assert_eq!(case.1, column_type);
        } else {
            panic!(
                "Error should be Error::InvalidMultilineType. Actual error: {:?}",
                result.unwrap_err()
            );
        }
    }
}

#[test]
fn parse_invalid_multiple_multiline() {
    let schema = schema_with(vec![
        Column::multiline_string("string1"),
        Column::multiline_string("string2"),
    ]);
    let result = schema.validate();
    assert!(result.is_err());
    if let Err(Error::TooManyMultilineColumns(columns)) = result {
        assert_eq!(
            columns,
            vec![String::from("string1"), String::from("string2")]
        );
    } else {
        panic!(
            "Error should be Error::TooManyMultilineColumns. Actual error: {:?}",
            result.unwrap_err()
        );
    }
}

#[test]
fn validate_accepts_single_multiline_string() {
    let schema = schema_with(vec![
        Column::multiline_string("message"),
        Column::new("index", ColumnType::Int32),
    ]);
    assert!(schema.validate().is_ok());
}

#[test]
fn verify_columns_exist() {
    let regex =
        regex::Regex::new(r"(?P<index>\d+)\t(?P<string_value>.+)\t(?P<double_value>\d+\.\d+)")
            .unwrap();
    let capture_names: Vec<String> = regex
        .capture_names()
        .flatten()
        .map(str::to_string)
        .collect();
    let columns = vec![
        Column::new("index", ColumnType::String),
        Column::new("string_value", ColumnType::String),
        Column::new("double_value", ColumnType::String),
        Column::new("unknown", ColumnType::String),
    ];
    let missing = missing_columns(&columns, &capture_names);
    assert_eq!(missing, vec![String::from("unknown")]);

    let covered = vec![
        Column::new("index", ColumnType::String),
        Column::new("string_value", ColumnType::String),
    ];
    assert!(missing_columns(&covered, &capture_names).is_empty());
}

#[test]
fn parse_lines_with_extra_text() {
    let regex =
        regex::Regex::new(r"(?P<index>\d+)\t(?P<string_value>.+)\t(?P<double_value>\d+\.\d+)")
            .unwrap();
    let text = "1234\tthis is some string\t3.14159\nthis is extra text";
    let mut outcomes: Vec<LineOutcome> = Vec::new();
    for line in text.lines() {
        match regex.captures(line) {
            Some(captures) => {
                let index_text = captures.name("index").unwrap().as_str().to_string();
                let index = parse_i32(&index_text).unwrap();
                let values = vec![
                    ("index".to_string(), TypedValue::Int32(index)),
                    (
                        "string_value".to_string(),
                        TypedValue::String(
                            captures.name("string_value").unwrap().as_str().to_string(),
                        ),
                    ),
                    (
                        "double_value".to_string(),
                        TypedValue::String(
                            captures.name("double_value").unwrap().as_str().to_string(),
                        ),
                    ),
                ];
                outcomes.push(LineOutcome::Matched(Record {
                    values,
                    extra_text: None,
                }));
            }
            None => outcomes.push(LineOutcome::Unmatched(line.to_string())),
        }
    }
    let records = group_records(outcomes);
    assert_eq!(
        records,
        vec![Record {
            values: vec![
                ("index".to_string(), TypedValue::Int32(1234)),
                (
                    "string_value".to_string(),
                    TypedValue::String("this is some string".to_string()),
                ),
                (
                    "double_value".to_string(),
                    TypedValue::String("3.14159".to_string()),
                ),
            ],
            extra_text: Some(vec!["this is extra text".to_string()]),
        }]
    );
}

#[test]
fn group_records_drops_leading_unmatched_lines() {
    let outcomes = vec![
        LineOutcome::Unmatched("noise".to_string()),
        LineOutcome::Matched(Record {
            values: vec![("c".to_string(), TypedValue::Int32(1))],
            extra_text: None,
        }),
        LineOutcome::Unmatched("tail".to_string()),
    ];
    let records = group_records(outcomes);
    assert_eq!(
        records,
        vec![Record {
            values: vec![("c".to_string(), TypedValue::Int32(1))],
            extra_text: Some(vec!["tail".to_string()]),
        }]
    );
}

#[test]
fn parse_i32_exact_bounds() {
    assert_eq!(parse_i32(&"2147483647".to_string()), Some(i32::MAX));
    assert_eq!(parse_i32(&"-2147483648".to_string()), Some(i32::MIN));
    assert_eq!(parse_i32(&"2147483648".to_string()), None);
    assert_eq!(parse_i32(&"-2147483649".to_string()), None);
    assert_eq!(parse_i32(&"007".to_string()), Some(7));
    assert_eq!(parse_i32(&"".to_string()), None);
    assert_eq!(parse_i32(&"-".to_string()), None);
    assert_eq!(parse_i32(&"12a".to_string()), None);
    assert_eq!(parse_i32(&"2.5".to_string()), None);
}

#[test]
fn parse_i64_exact_bounds() {
    assert_eq!(
        parse_i64(&"9223372036854775807".to_string()),
        Some(i64::MAX)
    );
    assert_eq!(
        parse_i64(&"-9223372036854775808".to_string()),
        Some(i64::MIN)
    );
    assert_eq!(parse_i64(&"9223372036854775808".to_string()), None);
    assert_eq!(parse_i64(&"-9223372036854775809".to_string()), None);
    assert_eq!(parse_i64(&"99999999999999999999999".to_string()), None);
    assert_eq!(parse_i64(&"1234".to_string()), Some(1234));
}

#[test]
fn float_comparison_keys_order_like_the_numbers() {
    assert!(f32_cmp_key_exec(1.0f32.to_bits()) < f32_cmp_key_exec(2.0f32.to_bits()));
    assert!(f32_cmp_key_exec((-1.0f32).to_bits()) < f32_cmp_key_exec(1.0f32.to_bits()));
    assert!(f32_cmp_key_exec((-2.0f32).to_bits()) < f32_cmp_key_exec((-1.0f32).to_bits()));
    assert_eq!(
        f32_cmp_key_exec((-0.0f32).to_bits()),
        f32_cmp_key_exec(0.0f32.to_bits())
    );
    assert!(f32_cmp_key_exec(f32::NEG_INFINITY.to_bits()) < f32_cmp_key_exec(f32::MIN.to_bits()));
    assert!(f32_cmp_key_exec(f32::MAX.to_bits()) < f32_cmp_key_exec(f32::INFINITY.to_bits()));

    assert!(f64_cmp_key_exec(11.11f64.to_bits()) < f64_cmp_key_exec(22.22f64.to_bits()));
    assert!(f64_cmp_key_exec((-0.5f64).to_bits()) < f64_cmp_key_exec(0.25f64.to_bits()));
    assert_eq!(
        f64_cmp_key_exec((-0.0f64).to_bits()),
        f64_cmp_key_exec(0.0f64.to_bits())
    );
}

#[test]
fn string_order_is_lexicographic() {
    assert!(str_lt_exec(&"a".to_string(), &"b".to_string()));
    assert!(str_lt_exec(&"a".to_string(), &"ab".to_string()));
    assert!(!str_lt_exec(&"ab".to_string(), &"a".to_string()));
    assert!(!str_lt_exec(&"b".to_string(), &"b".to_string()));
    assert!(str_lt_exec(&"".to_string(), &"a".to_string()));
    assert!(str_lt_exec(&"Zoo".to_string(), &"apple".to_string()));
}
