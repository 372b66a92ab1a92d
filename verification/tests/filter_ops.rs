use chrono::TimeZone;
use logquery::engine::{Engine, TableResult};
use logquery::error::Error;
use logquery::query as lq;
use logquery::schema::{Column, ColumnType, Schema};
use logquery::values::{Record, TypedValue};

fn conv_value(v: &sqlparser::ast::Value) -> lq::Literal {
    match v {
        sqlparser::ast::Value::Number(text, long) => lq::Literal::Number(lq::NumberValue {
            text: text.clone(),
            long: *long,
            float32_bits: text.parse::<f32>().map(f32::to_bits).unwrap_or(f32::NAN.to_bits()),
            float64_bits: text.parse::<f64>().map(f64::to_bits).unwrap_or(f64::NAN.to_bits()),
        }),
        sqlparser::ast::Value::SingleQuotedString(s) => {
            lq::Literal::SingleQuotedString(s.clone())
        }
        sqlparser::ast::Value::Boolean(b) => lq::Literal::Boolean(*b),
        _ => lq::Literal::Other,
    }
}

fn conv_op(op: &sqlparser::ast::BinaryOperator) -> lq::BinaryOperator {
    match op {
        sqlparser::ast::BinaryOperator::Eq => lq::BinaryOperator::Eq,
        sqlparser::ast::BinaryOperator::NotEq => lq::BinaryOperator::NotEq,
        sqlparser::ast::BinaryOperator::Lt => lq::BinaryOperator::Lt,
        sqlparser::ast::BinaryOperator::LtEq => lq::BinaryOperator::LtEq,
        sqlparser::ast::BinaryOperator::Gt => lq::BinaryOperator::Gt,
        sqlparser::ast::BinaryOperator::GtEq => lq::BinaryOperator::GtEq,
        _ => lq::BinaryOperator::Other,
    }
}

fn conv_expr(e: &sqlparser::ast::Expr) -> lq::Expr {
    match e {
        sqlparser::ast::Expr::Identifier(id) => lq::Expr::Identifier(id.value.clone()),
        sqlparser::ast::Expr::Value(v) => lq::Expr::Value(conv_value(&v.value)),
        sqlparser::ast::Expr::BinaryOp { left, op, right } => lq::Expr::BinaryOp {
            left: Box::new(conv_expr(left)),
            op: conv_op(op),
            right: Box::new(conv_expr(right)),
        },
        _ => lq::Expr::Other,
    }
}

fn conv_item(it: &sqlparser::ast::SelectItem) -> lq::SelectItem {
    match it {
        sqlparser::ast::SelectItem::UnnamedExpr(e) => lq::SelectItem::UnnamedExpr(conv_expr(e)),
        sqlparser::ast::SelectItem::ExprWithAlias { expr, alias } => lq::SelectItem::ExprWithAlias {
            expr: conv_expr(expr),
            alias: alias.value.clone(),
        },
        sqlparser::ast::SelectItem::Wildcard(_) => lq::SelectItem::Wildcard,
        _ => lq::SelectItem::Other,
    }
}

fn conv_statement(s: &sqlparser::ast::Statement) -> lq::Statement {
    match s {
        sqlparser::ast::Statement::Query(q) => {
            let body = match &*q.body {
                sqlparser::ast::SetExpr::Select(sel) => lq::SetExpr::Select(lq::Select {
                    projection: sel.projection.iter().map(conv_item).collect(),
                    selection: sel.selection.as_ref().map(conv_expr),
                }),
                _ => lq::SetExpr::Other,
            };
            let order_by = match &q.order_by {
                Some(ob) => match &ob.kind {
                    sqlparser::ast::OrderByKind::Expressions(exprs) => exprs
                        .iter()
                        .map(|k| lq::OrderByExpr {
                            expr: conv_expr(&k.expr),
                            asc: match k.options.sort {
                                Some(sqlparser::ast::OrderBySort::Asc) => Some(true),
                                Some(sqlparser::ast::OrderBySort::Desc) => Some(false),
                                _ => None,
                            },
                        })
                        .collect(),
                    _ => vec![lq::OrderByExpr { expr: lq::Expr::Other, asc: None }],
                },
                None => vec![],
            };
            let (limit, offset) = match &q.limit_clause {
                Some(sqlparser::ast::LimitClause::LimitOffset { limit, offset, .. }) => (
                    limit.as_ref().map(conv_expr),
                    offset.as_ref().map(|o| conv_expr(&o.value)),
                ),
                Some(sqlparser::ast::LimitClause::OffsetCommaLimit { offset, limit }) => {
                    (Some(conv_expr(limit)), Some(conv_expr(offset)))
                }
                None => (None, None),
            };
            lq::Statement::Query(lq::Query { body, order_by, limit, offset })
        }
        _ => lq::Statement::Other,
    }
}

fn parse_statements(sql: &str) -> Vec<lq::Statement> {
    let dialect = sqlparser::dialect::GenericDialect {};
    sqlparser::parser::Parser::parse_sql(&dialect, sql)
        .unwrap()
        .iter()
        .map(conv_statement)
        .collect()
}

fn instant(y: i32, mo: u32, d: u32) -> i64 {
    chrono::Utc
        .with_ymd_and_hms(y, mo, d, 0, 0, 0)
        .unwrap()
        .timestamp_nanos_opt()
        .unwrap()
}

fn schema_of(cols: &[(&str, ColumnType)]) -> Schema {
    Schema {
        regex: String::from(".*"),
        table: String::from("logs"),
        columns: cols.iter().map(|(n, t)| Column::new(n, *t)).collect(),
    }
}

fn record_of(pairs: Vec<(&str, TypedValue)>) -> Record {
    Record {
        values: pairs.into_iter().map(|(k, v)| (k.to_string(), v)).collect(),
        extra_text: None,
    }
}

fn run_query(schema: Schema, sql: &str, records: Vec<Record>) -> TableResult {
    let statements = parse_statements(sql);
    let engine = Engine::with_query(schema, statements).unwrap();
    engine.execute(records).unwrap()
}

fn equals_schema() -> Schema {
    schema_of(&[
        ("col1", ColumnType::Int32),
        ("col2", ColumnType::String),
        ("col3", ColumnType::Float32),
        ("col4", ColumnType::Float64),
        ("col5", ColumnType::Int64),
        ("col6", ColumnType::Bool),
        ("col7", ColumnType::DateTime),
    ])
}

fn equals_row(
    c1: i32,
    c2: &str,
    c3: f32,
    c4: f64,
    c5: i64,
    c6: bool,
    day: u32,
) -> Record {
    record_of(vec![
        ("col1", TypedValue::Int32(c1)),
        ("col2", TypedValue::String(c2.to_string())),
        ("col3", TypedValue::Float32(c3.to_bits())),
        ("col4", TypedValue::Float64(c4.to_bits())),
        ("col5", TypedValue::Int64(c5)),
        ("col6", TypedValue::Bool(c6)),
        ("col7", TypedValue::DateTime(instant(2022, 1, day))),
    ])
}

fn equals_rows() -> Vec<Record> {
    vec![
        equals_row(1, "one", 1.0, 1.0, 1234, false, 1),
        equals_row(2, "two", 2.5, 3.1, 2147483647, true, 2),
        equals_row(3, "three", 3.0, 1.0, 567, false, 3),
    ]
}

#[test]
fn sql_where_column_equals_literal() {
    let columns: Vec<String> = vec!["col1", "col2", "col3", "col4", "col5", "col6", "col7"]
        .into_iter()
        .map(|x| x.to_string())
        .collect();
    let expected = vec![equals_row(2, "two", 2.5, 3.1, 2147483647, true, 2)];

    let queries = vec![
        "SELECT * FROM table1 WHERE col1 = 2",
        "SELECT * FROM table1 WHERE 2 = col1",
        "SELECT * FROM table1 WHERE col2 = 'two'",
        "SELECT * FROM table1 WHERE 'two' = col2",
        "SELECT * FROM table1 WHERE col3 = 2.5",
        "SELECT * FROM table1 WHERE 2.5 = col3",
        "SELECT * FROM table1 WHERE col4 = 3.1",
        "SELECT * FROM table1 WHERE 3.1 = col4",
        "SELECT * FROM table1 WHERE col5 = 2147483647",
        "SELECT * FROM table1 WHERE 2147483647 = col5",
        "SELECT * FROM table1 WHERE col6 = true",
        "SELECT * FROM table1 WHERE true = col6",
        "SELECT * FROM table1 WHERE col7 = '2022-01-02T00:00:00Z'",
        "SELECT * FROM table1 WHERE '2022-01-02T00:00:00Z' = col7",
        "SELECT * FROM table1 WHERE col7 = '2022-01-02T01:00:00+01:00'",
        "SELECT * FROM table1 WHERE '2022-01-02T01:00:00+01:00' = col7",
    ];

    for query in queries {
        let result = run_query(equals_schema(), query, equals_rows());
        assert_eq!(result.columns, columns);
        assert_eq!(result.events, expected);
    }
}

fn typed_schema() -> Schema {
    schema_of(&[
        ("i32", ColumnType::Int32),
        ("string", ColumnType::String),
        ("i64", ColumnType::Int64),
        ("f32", ColumnType::Float32),
        ("f64", ColumnType::Float64),
        ("datetime", ColumnType::DateTime),
        ("bool", ColumnType::Bool),
    ])
}

fn typed_row(i: i32, s: &str, l: i64, f: f32, d: f64, day: u32, b: bool) -> Record {
    record_of(vec![
        ("i32", TypedValue::Int32(i)),
        ("string", TypedValue::String(s.to_string())),
        ("i64", TypedValue::Int64(l)),
        ("f32", TypedValue::Float32(f.to_bits())),
        ("f64", TypedValue::Float64(d.to_bits())),
        ("datetime", TypedValue::DateTime(instant(2022, 1, day))),
        ("bool", TypedValue::Bool(b)),
    ])
}

#[test]
fn sql_where_column_does_not_equal_literal() {
    let rows = vec![
        typed_row(1, "a", 1000, 1.1, 11.11, 1, true),
        typed_row(2, "b", 2000, 2.2, 22.22, 2, false),
    ];
    let expected = vec![typed_row(1, "a", 1000, 1.1, 11.11, 1, true)];

    let queries = vec![
        "select * from logs where i32 != 2",
        "select * from logs where 2 != i32",
        "select * from logs where i64 != 2000",
        "select * from logs where 2000 != i64",
        "select * from logs where f32 != 2.2",
        "select * from logs where 2.2 != f32",
        "select * from logs where f64 != 22.22",
        "select * from logs where 22.22 != f64",
        "select * from logs where datetime != '2022-01-02T00:00:00Z'",
        "select * from logs where '2022-01-02T00:00:00Z' != datetime",
        "select * from logs where string != 'b'",
        "select * from logs where 'b' != string",
        "select * from logs where i32 <> 2",
        "select * from logs where 2 <> i32",
        "select * from logs where i64 <> 2000",
        "select * from logs where 2000 <> i64",
        "select * from logs where f32 <> 2.2",
        "select * from logs where 2.2 <> f32",
        "select * from logs where f64 <> 22.22",
        "select * from logs where 22.22 <> f64",
        "select * from logs where datetime <> '2022-01-02T00:00:00Z'",
        "select * from logs where '2022-01-02T00:00:00Z' <> datetime",
        "select * from logs where string <> 'b'",
        "select * from logs where 'b' <> string",
    ];

    for query in queries {
        let result = run_query(typed_schema(), query, rows.clone());
        assert_eq!(result.events, expected);
    }
}

fn three_typed_rows() -> Vec<Record> {
    vec![
        typed_row(1, "a", 1000, 1.1, 11.11, 1, true),
        typed_row(2, "b", 2000, 2.2, 22.22, 2, false),
        typed_row(3, "c", 3000, 3.3, 33.33, 3, true),
    ]
}

#[test]
fn sql_where_column_less_than_literal() {
    let expected = vec![typed_row(1, "a", 1000, 1.1, 11.11, 1, true)];
    let queries = vec![
        "select * from logs where i32 < 2",
        "select * from logs where 2 > i32",
        "select * from logs where i64 < 2000",
        "select * from logs where 2000 > i64",
        "select * from logs where f32 < 2.2",
        "select * from logs where 2.2 > f32",
        "select * from logs where f64 < 22.22",
        "select * from logs where 22.22 > f64",
        "select * from logs where datetime < '2022-01-02T00:00:00Z'",
        "select * from logs where '2022-01-02T00:00:00Z' > datetime",
        "select * from logs where string < 'b'",
        "select * from logs where 'b' > string",
    ];
    for query in queries {
        let result = run_query(typed_schema(), query, three_typed_rows());
        assert_eq!(result.events, expected);
    }
}

#[test]
fn sql_where_column_less_than_or_equal_to_literal() {
    let expected = vec![
        typed_row(1, "a", 1000, 1.1, 11.11, 1, true),
        typed_row(2, "b", 2000, 2.2, 22.22, 2, false),
    ];
    let queries = vec![
        "select * from logs where i32 <= 2",
        "select * from logs where 2 >= i32",
        "select * from logs where i64 <= 2000",
        "select * from logs where 2000 >= i64",
        "select * from logs where f32 <= 2.2",
        "select * from logs where 2.2 >= f32",
        "select * from logs where f64 <= 22.22",
        "select * from logs where 22.22 >= f64",
        "select * from logs where datetime <= '2022-01-02T00:00:00Z'",
        "select * from logs where '2022-01-02T00:00:00Z' >= datetime",
        "select * from logs where string <= 'b'",
        "select * from logs where 'b' >= string",
    ];
    for query in queries {
        let result = run_query(typed_schema(), query, three_typed_rows());
        assert_eq!(result.events, expected);
    }
}

#[test]
fn sql_where_column_greater_than_literal() {
    let expected = vec![typed_row(3, "c", 3000, 3.3, 33.33, 3, true)];
    let queries = vec![
        "select * from logs where i32 > 2",
        "select * from logs where 2 < i32",
        "select * from logs where i64 > 2000",
        "select * from logs where 2000 < i64",
        "select * from logs where f32 > 2.2",
        "select * from logs where 2.2 < f32",
        "select * from logs where f64 > 22.22",
        "select * from logs where 22.22 < f64",
        "select * from logs where datetime > '2022-01-02T00:00:00Z'",
        "select * from logs where '2022-01-02T00:00:00Z' < datetime",
        "select * from logs where string > 'b'",
        "select * from logs where 'b' < string",
    ];
    for query in queries {
        let result = run_query(typed_schema(), query, three_typed_rows());
        assert_eq!(result.events, expected);
    }
}

#[test]
fn sql_where_column_greater_than_or_equal_to_literal() {
    let expected = vec![
        typed_row(2, "b", 2000, 2.2, 22.22, 2, false),
        typed_row(3, "c", 3000, 3.3, 33.33, 3, true),
    ];
    let queries = vec![
        "select * from logs where i32 >= 2",
        "select * from logs where 2 <= i32",
        "select * from logs where i64 >= 2000",
        "select * from logs where 2000 <= i64",
        "select * from logs where f32 >= 2.2",
        "select * from logs where 2.2 <= f32",
        "select * from logs where f64 >= 22.22",
        "select * from logs where 22.22 <= f64",
        "select * from logs where datetime >= '2022-01-02T00:00:00Z'",
        "select * from logs where '2022-01-02T00:00:00Z' <= datetime",
        "select * from logs where string >= 'b'",
        "select * from logs where 'b' <= string",
    ];
    for query in queries {
        let result = run_query(typed_schema(), query, three_typed_rows());
        assert_eq!(result.events, expected);
    }
}

#[test]
fn sql_where_type_mismatch_is_an_error() {
    let statements = parse_statements("select * from logs where string = 5");
    let engine = Engine::with_query(typed_schema(), statements).unwrap();
    let result = engine.execute(three_typed_rows());
    assert!(matches!(result, Err(Error::TypeMismatch(..))));
}

#[test]
fn sql_where_bool_order_comparison_is_an_error() {
    let statements = parse_statements("select * from logs where bool < true");
    let engine = Engine::with_query(typed_schema(), statements).unwrap();
    let result = engine.execute(three_typed_rows());
    assert!(matches!(result, Err(Error::TypeMismatch(..))));
}

#[test]
fn sql_where_unsupported_shape_is_an_error() {
    let statements = parse_statements("select * from logs where i32 = i64");
    let engine = Engine::with_query(typed_schema(), statements).unwrap();
    let result = engine.execute(three_typed_rows());
    assert!(matches!(result, Err(Error::InvalidQuery(_))));
}

#[test]
fn sql_where_bad_timestamp_literal_is_an_error() {
    let statements = parse_statements("select * from logs where datetime = 'not a timestamp'");
    let engine = Engine::with_query(typed_schema(), statements).unwrap();
    let result = engine.execute(three_typed_rows());
    assert!(matches!(result, Err(Error::TypeMismatch(..))));
}
