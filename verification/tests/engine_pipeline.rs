use logquery::engine::{Engine, TableResult};
use logquery::error::Error;
use logquery::query as lq;
use logquery::schema::{Column, ColumnType, Schema};
use logquery::values::{Record, TypedValue};

fn conv_value(v: &sqlparser::ast::Value) -> lq::Literal {
    match v {
        sqlparser::ast::Value::Number(text, long) => lq::Literal::Number(lq::NumberValue {
            text: text.clone(),
            long: *long,
            float32_bits: text.parse::<f32>().map(f32::to_bits).unwrap_or(f32::NAN.to_bits()),
            float64_bits: text.parse::<f64>().map(f64::to_bits).unwrap_or(f64::NAN.to_bits()),
        }),
        sqlparser::ast::Value::SingleQuotedString(s) => {
            lq::Literal::SingleQuotedString(s.clone())
        }
        sqlparser::ast::Value::Boolean(b) => lq::Literal::Boolean(*b),
        _ => lq::Literal::Other,
    }
}

fn conv_op(op: &sqlparser::ast::BinaryOperator) -> lq::BinaryOperator {
    match op {
        sqlparser::ast::BinaryOperator::Eq => lq::BinaryOperator::Eq,
        sqlparser::ast::BinaryOperator::NotEq => lq::BinaryOperator::NotEq,
        sqlparser::ast::BinaryOperator::Lt => lq::BinaryOperator::Lt,
        sqlparser::ast::BinaryOperator::LtEq => lq::BinaryOperator::LtEq,
        sqlparser::ast::BinaryOperator::Gt => lq::BinaryOperator::Gt,
        sqlparser::ast::BinaryOperator::GtEq => lq::BinaryOperator::GtEq,
        _ => lq::BinaryOperator::Other,
    }
}

fn conv_expr(e: &sqlparser::ast::Expr) -> lq::Expr {
    match e {
        sqlparser::ast::Expr::Identifier(id) => lq::Expr::Identifier(id.value.clone()),
        sqlparser::ast::Expr::Value(v) => lq::Expr::Value(conv_value(&v.value)),
        sqlparser::ast::Expr::BinaryOp { left, op, right } => lq::Expr::BinaryOp {
            left: Box::new(conv_expr(left)),
            op: conv_op(op),
            right: Box::new(conv_expr(right)),
        },
        _ => lq::Expr::Other,
    }
}

fn conv_item(it: &sqlparser::ast::SelectItem) -> lq::SelectItem {
    match it {
        sqlparser::ast::SelectItem::UnnamedExpr(e) => lq::SelectItem::UnnamedExpr(conv_expr(e)),
        sqlparser::ast::SelectItem::ExprWithAlias { expr, alias } => lq::SelectItem::ExprWithAlias {
            expr: conv_expr(expr),
            alias: alias.value.clone(),
        },
        sqlparser::ast::SelectItem::Wildcard(_) => lq::SelectItem::Wildcard,
        _ => lq::SelectItem::Other,
    }
}

fn conv_statement(s: &sqlparser::ast::Statement) -> lq::Statement {
    match s {
        sqlparser::ast::Statement::Query(q) => {
            let body = match &*q.body {
                sqlparser::ast::SetExpr::Select(sel) => lq::SetExpr::Select(lq::Select {
                    projection: sel.projection.iter().map(conv_item).collect(),
                    selection: sel.selection.as_ref().map(conv_expr),
                }),
                _ => lq::SetExpr::Other,
            };
            let order_by = match &q.order_by {
                Some(ob) => match &ob.kind {
                    sqlparser::ast::OrderByKind::Expressions(exprs) => exprs
                        .iter()
                        .map(|k| lq::OrderByExpr {
                            expr: conv_expr(&k.expr),
                            asc: match k.options.sort {
                                Some(sqlparser::ast::OrderBySort::Asc) => Some(true),
                                Some(sqlparser::ast::OrderBySort::Desc) => Some(false),
                                _ => None,
                            },
                        })
                        .collect(),
                    _ => vec![lq::OrderByExpr { expr: lq::Expr::Other, asc: None }],
                },
                None => vec![],
            };
            let (limit, offset) = match &q.limit_clause {
                Some(sqlparser::ast::LimitClause::LimitOffset { limit, offset, .. }) => (
                    limit.as_ref().map(conv_expr),
                    offset.as_ref().map(|o| conv_expr(&o.value)),
                ),
                Some(sqlparser::ast::LimitClause::OffsetCommaLimit { offset, limit }) => {
                    (Some(conv_expr(limit)), Some(conv_expr(offset)))
                }
                None => (None, None),
            };
            lq::Statement::Query(lq::Query { body, order_by, limit, offset })
        }
        _ => lq::Statement::Other,
    }
}

fn parse_statements(sql: &str) -> Vec<lq::Statement> {
    let dialect = sqlparser::dialect::GenericDialect {};
    sqlparser::parser::Parser::parse_sql(&dialect, sql)
        .unwrap()
        .iter()
        .map(conv_statement)
        .collect()
}

fn string_schema(names: &[&str]) -> Schema {
    Schema {
        regex: String::from(".*"),
        table: String::from("table1"),
        columns: names
            .iter()
            .map(|n| Column::new(n, ColumnType::String))
            .collect(),
    }
}

fn int_schema(names: &[&str]) -> Schema {
    Schema {
        regex: String::from(".*"),
        table: String::from("logs"),
        columns: names
            .iter()
            .map(|n| Column::new(n, ColumnType::Int32))
            .collect(),
    }
}

fn string_record(pairs: &[(&str, &str)]) -> Record {
    Record {
        values: pairs
            .iter()
            .map(|(k, v)| (k.to_string(), TypedValue::String(v.to_string())))
            .collect(),
        extra_text: None,
    }
}

fn int_record(pairs: &[(&str, i32)]) -> Record {
    Record {
        values: pairs
            .iter()
            .map(|(k, v)| (k.to_string(), TypedValue::Int32(*v)))
            .collect(),
        extra_text: None,
    }
}

fn run_query(schema: Schema, sql: &str, records: Vec<Record>) -> TableResult {
    let statements = parse_statements(sql);
    let engine = Engine::with_query(schema, statements).unwrap();
    engine.execute(records).unwrap()
}

fn two_column_records() -> Vec<Record> {
    vec![
        string_record(&[("col1", "1"), ("col2", "one")]),
        string_record(&[("col1", "2"), ("col2", "two")]),
    ]
}

fn three_row_records() -> Vec<Record> {
    vec![
        string_record(&[("col1", "1"), ("col2", "one")]),
        string_record(&[("col1", "2"), ("col2", "two")]),
        string_record(&[("col1", "3"), ("col2", "three")]),
    ]
}

fn three_column_records() -> Vec<Record> {
    vec![
        string_record(&[("col1", "1"), ("col2", "one"), ("col3", "first")]),
        string_record(&[("col1", "2"), ("col2", "two"), ("col3", "second")]),
    ]
}

#[test]
fn create_engine() {
    let engine = Engine::new(string_schema(&["col1", "col2"]));
    assert_eq!(
        engine.columns,
        vec![String::from("col1"), String::from("col2")]
    );
}

#[test]
fn create_with_empty_query() {
    let statements = parse_statements("");
    let result = Engine::with_query(string_schema(&["col1", "col2"]), statements);
    if let Err(Error::InvalidSqlQuery) = result {
    } else {
        panic!(
            "Error should be Error::InvalidSqlQuery. Actual error {:?}",
            result.err()
        );
    }
}

#[test]
fn create_with_two_queries() {
    let statements = parse_statements("SELECT * FROM table1; SELECT * FROM table1");
    let result = Engine::with_query(string_schema(&["col1", "col2"]), statements);
    assert!(matches!(result, Err(Error::TooManySqlQueries)));
}

#[test]
fn sql_projection_wildcard() {
    let result = run_query(
        string_schema(&["col1", "col2"]),
        "SELECT * FROM table1",
        two_column_records(),
    );
    assert_eq!(result.columns, vec!["col1".to_string(), "col2".to_string()]);
    assert_eq!(result.events, two_column_records());
}

#[test]
fn sql_projection_identifier_all() {
    let result = run_query(
        string_schema(&["col1", "col2", "col3"]),
        "SELECT col1, col2, col3 FROM table1",
        three_column_records(),
    );
    assert_eq!(
        result.columns,
        vec!["col1".to_string(), "col2".to_string(), "col3".to_string()]
    );
    assert_eq!(result.events, three_column_records());
}

#[test]
fn sql_projection_identifier_subset() {
    let result = run_query(
        string_schema(&["col1", "col2", "col3"]),
        "SELECT col1, col3 FROM table1",
        three_column_records(),
    );
    assert_eq!(result.columns, vec!["col1".to_string(), "col3".to_string()]);
    assert_eq!(
        result.events,
        vec![
            string_record(&[("col1", "1"), ("col3", "first")]),
            string_record(&[("col1", "2"), ("col3", "second")]),
        ]
    );
}

#[test]
fn sql_projection_alias_all() {
    let result = run_query(
        string_schema(&["col1", "col2", "col3"]),
        "SELECT col1 as column1, col2 as column2, col3 as column3 FROM table1",
        three_column_records(),
    );
    assert_eq!(
        result.columns,
        vec![
            "column1".to_string(),
            "column2".to_string(),
            "column3".to_string()
        ]
    );
    assert_eq!(
        result.events,
        vec![
            string_record(&[("column1", "1"), ("column2", "one"), ("column3", "first")]),
            string_record(&[("column1", "2"), ("column2", "two"), ("column3", "second")]),
        ]
    );
}

#[test]
fn sql_projection_alias_subset() {
    let result = run_query(
        string_schema(&["col1", "col2", "col3"]),
        "SELECT col1 as column1, col3 as column3 FROM table1",
        three_column_records(),
    );
    assert_eq!(
        result.columns,
        vec!["column1".to_string(), "column3".to_string()]
    );
    assert_eq!(
        result.events,
        vec![
            string_record(&[("column1", "1"), ("column3", "first")]),
            string_record(&[("column1", "2"), ("column3", "second")]),
        ]
    );
}

#[test]
fn sql_projection_duplicate_alias_is_rejected() {
    let statements = parse_statements("SELECT col1 as x, col2 as x FROM table1");
    let engine = Engine::with_query(string_schema(&["col1", "col2"]), statements).unwrap();
    let result = engine.execute(two_column_records());
    assert!(matches!(result, Err(Error::InvalidQuery(_))));
}

#[test]
fn sql_limit_all() {
    let result = run_query(
        string_schema(&["col1", "col2"]),
        "SELECT * FROM table1 LIMIT 3",
        three_row_records(),
    );
    assert_eq!(result.columns, vec!["col1".to_string(), "col2".to_string()]);
    assert_eq!(result.events, three_row_records());
}

#[test]
fn sql_limit_subset() {
    let result = run_query(
        string_schema(&["col1", "col2"]),
        "SELECT * FROM table1 LIMIT 2",
        three_row_records(),
    );
    assert_eq!(result.columns, vec!["col1".to_string(), "col2".to_string()]);
    assert_eq!(
        result.events,
        vec![
            string_record(&[("col1", "1"), ("col2", "one")]),
            string_record(&[("col1", "2"), ("col2", "two")]),
        ]
    );
}

#[test]
fn sql_limit_greater_than_count() {
    let result = run_query(
        string_schema(&["col1", "col2"]),
        "SELECT * FROM table1 LIMIT 4",
        three_row_records(),
    );
    assert_eq!(result.columns, vec!["col1".to_string(), "col2".to_string()]);
    assert_eq!(result.events, three_row_records());
}

#[test]
fn sql_limit_rejects_decimal() {
    let statements = parse_statements("SELECT * FROM table1 LIMIT 1.5");
    let engine = Engine::with_query(string_schema(&["col1", "col2"]), statements).unwrap();
    let result = engine.execute(three_row_records());
    assert!(matches!(result, Err(Error::InvalidQuery(_))));
}

#[test]
fn sql_offset() {
    let result = run_query(
        string_schema(&["col1", "col2"]),
        "SELECT * FROM table1 OFFSET 1",
        three_row_records(),
    );
    assert_eq!(result.columns, vec!["col1".to_string(), "col2".to_string()]);
    assert_eq!(
        result.events,
        vec![
            string_record(&[("col1", "2"), ("col2", "two")]),
            string_record(&[("col1", "3"), ("col2", "three")]),
        ]
    );
}

#[test]
fn sql_offset_greater_than_count() {
    let result = run_query(
        string_schema(&["col1", "col2"]),
        "SELECT * FROM table1 OFFSET 4",
        three_row_records(),
    );
    assert_eq!(result.columns, vec!["col1".to_string(), "col2".to_string()]);
    assert_eq!(result.events, vec![]);
}

#[test]
fn sql_offset_huge_never_errors() {
    let result = run_query(
        string_schema(&["col1", "col2"]),
        "SELECT * FROM table1 OFFSET 99999999999999999999999999",
        three_row_records(),
    );
    assert_eq!(result.events, vec![]);
}

#[test]
fn sql_limit_offset_all() {
    let result = run_query(
        string_schema(&["col1", "col2"]),
        "SELECT * FROM table1 LIMIT 3 OFFSET 0",
        three_row_records(),
    );
    assert_eq!(result.columns, vec!["col1".to_string(), "col2".to_string()]);
    assert_eq!(result.events, three_row_records());
}

#[test]
fn sql_limit_offset_subset() {
    let result = run_query(
        string_schema(&["col1", "col2"]),
        "SELECT * FROM table1 LIMIT 2 OFFSET 1",
        three_row_records(),
    );
    assert_eq!(result.columns, vec!["col1".to_string(), "col2".to_string()]);
    assert_eq!(
        result.events,
        vec![
            string_record(&[("col1", "2"), ("col2", "two")]),
            string_record(&[("col1", "3"), ("col2", "three")]),
        ]
    );
}

#[test]
fn sql_limit_offset_greater_than_count() {
    let result = run_query(
        string_schema(&["col1", "col2"]),
        "SELECT * FROM table1 LIMIT 2 OFFSET 3",
        three_row_records(),
    );
    assert_eq!(result.columns, vec!["col1".to_string(), "col2".to_string()]);
    assert_eq!(result.events, vec![]);
}

fn order_one_key_records() -> Vec<Record> {
    vec![
        int_record(&[("index", 1), ("value", 3)]),
        int_record(&[("index", 2), ("value", 2)]),
        int_record(&[("index", 3), ("value", 1)]),
    ]
}

fn order_two_key_records() -> Vec<Record> {
    vec![
        int_record(&[("index", 1), ("value1", 1), ("value2", 2)]),
        int_record(&[("index", 2), ("value1", 2), ("value2", 0)]),
        int_record(&[("index", 3), ("value1", 1), ("value2", 1)]),
    ]
}

#[test]
fn sql_order_by_implicit_ascending() {
    let result = run_query(
        int_schema(&["index", "value"]),
        "SELECT * FROM logs ORDER BY value",
        order_one_key_records(),
    );
    assert_eq!(
        result.events,
        vec![
            int_record(&[("index", 3), ("value", 1)]),
            int_record(&[("index", 2), ("value", 2)]),
            int_record(&[("index", 1), ("value", 3)]),
        ]
    );
}

#[test]
fn sql_order_by_explicit_ascending() {
    let result = run_query(
        int_schema(&["index", "value"]),
        "SELECT * FROM logs ORDER BY value ASC",
        order_one_key_records(),
    );
    assert_eq!(
        result.events,
        vec![
            int_record(&[("index", 3), ("value", 1)]),
            int_record(&[("index", 2), ("value", 2)]),
            int_record(&[("index", 1), ("value", 3)]),
        ]
    );
}

#[test]
fn sql_order_by_explicit_descending() {
    let result = run_query(
        int_schema(&["index", "value"]),
        "SELECT * FROM logs ORDER BY index DESC",
        order_one_key_records(),
    );
    assert_eq!(
        result.events,
        vec![
            int_record(&[("index", 3), ("value", 1)]),
            int_record(&[("index", 2), ("value", 2)]),
            int_record(&[("index", 1), ("value", 3)]),
        ]
    );
}

#[test]
fn sql_order_by_multiple_columns_implicit_ascending() {
    let result = run_query(
        int_schema(&["index", "value1", "value2"]),
        "select * from logs order by value1, value2",
        order_two_key_records(),
    );
    assert_eq!(
        result.events,
        vec![
            int_record(&[("index", 3), ("value1", 1), ("value2", 1)]),
            int_record(&[("index", 1), ("value1", 1), ("value2", 2)]),
            int_record(&[("index", 2), ("value1", 2), ("value2", 0)]),
        ]
    );
}

#[test]
fn sql_order_by_multiple_columns_explicit_ascending() {
    let result = run_query(
        int_schema(&["index", "value1", "value2"]),
        "select * from logs order by value1 asc, value2 asc",
        order_two_key_records(),
    );
    assert_eq!(
        result.events,
        vec![
            int_record(&[("index", 3), ("value1", 1), ("value2", 1)]),
            int_record(&[("index", 1), ("value1", 1), ("value2", 2)]),
            int_record(&[("index", 2), ("value1", 2), ("value2", 0)]),
        ]
    );
}

#[test]
fn sql_order_by_multiple_columns_explicit_descending() {
    let result = run_query(
        int_schema(&["index", "value1", "value2"]),
        "select * from logs order by value1 desc, value2 desc",
        order_two_key_records(),
    );
    assert_eq!(
        result.events,
        vec![
            int_record(&[("index", 2), ("value1", 2), ("value2", 0)]),
            int_record(&[("index", 1), ("value1", 1), ("value2", 2)]),
            int_record(&[("index", 3), ("value1", 1), ("value2", 1)]),
        ]
    );
}

#[test]
fn sql_order_by_multiple_columns_explicit_ascending_and_descending() {
    let result = run_query(
        int_schema(&["index", "value1", "value2"]),
        "select * from logs order by value1 asc, value2 desc",
        order_two_key_records(),
    );
    assert_eq!(
        result.events,
        vec![
            int_record(&[("index", 1), ("value1", 1), ("value2", 2)]),
            int_record(&[("index", 3), ("value1", 1), ("value2", 1)]),
            int_record(&[("index", 2), ("value1", 2), ("value2", 0)]),
        ]
    );
}

#[test]
fn sql_order_by_rejects_expression_key() {
    let statements = parse_statements("select * from logs order by value1 + 1");
    let engine = Engine::with_query(int_schema(&["index", "value1"]), statements).unwrap();
    let result = engine.execute(vec![
        int_record(&[("index", 1), ("value1", 1)]),
        int_record(&[("index", 2), ("value1", 2)]),
    ]);
    assert!(matches!(result, Err(Error::InvalidQuery(_))));
}

#[test]
fn multiline_column_collects_extra_text() {
    let schema = Schema {
        regex: String::from(".*"),
        table: String::from("logs"),
        columns: vec![
            Column::new("index", ColumnType::Int32),
            Column::multiline_string("message"),
        ],
    };
    let records = vec![Record {
        values: vec![
            ("index".to_string(), TypedValue::Int32(1)),
            (
                "message".to_string(),
                TypedValue::String("first line".to_string()),
            ),
        ],
        extra_text: Some(vec!["second line".to_string(), "third line".to_string()]),
    }];
    let engine = Engine::new(schema);
    let result = engine.execute(records).unwrap();
    assert_eq!(
        result.events,
        vec![Record {
            values: vec![
                ("index".to_string(), TypedValue::Int32(1)),
                (
                    "message".to_string(),
                    TypedValue::String("first line\nsecond line\nthird line".to_string()),
                ),
            ],
            extra_text: None,
        }]
    );
}
