use vstd::prelude::*;

use crate::engine::TableResult;
use crate::error::{Error, ErrorModel};
use crate::query::{
    flip_operator, flip_operator_exec, supported_operator, BinaryOperator, Expr, ExprModel,
    Literal, LiteralModel, OperandModel, Statement, StatementModel,
};
use crate::query::{SelectItem, SetExpr};
use crate::schema::{find_column, ColumnType, SchemaModel};
use crate::values::{
    f32_cmp_key, f32_cmp_key_exec, f32_is_nan, f32_is_nan_exec, f64_cmp_key, f64_cmp_key_exec,
    f64_is_nan, f64_is_nan_exec, instant_of, lookup, parse_i32, parse_i32_spec, parse_i64,
    parse_i64_spec, parse_instant, records_model, str_lt, str_lt_exec, Record, RecordModel,
    TypedValue, ValueModel,
};

verus! {

// ---------------------------------------------------------------------------
// One comparison, between a stored value and a literal, under a declared
// column type.  Evaluation proceeds only when the three agree; any other
// combination is a type mismatch (`None` here), a hard error rather than a
// dropped row.
// ---------------------------------------------------------------------------
/// An order comparison under integer order.
pub open spec fn cmp_int(op: BinaryOperator, a: int, b: int) -> Option<bool> {
    match op {
        BinaryOperator::Eq => Option::Some(a == b),
        BinaryOperator::NotEq => Option::Some(a != b),
        BinaryOperator::Lt => Option::Some(a < b),
        BinaryOperator::LtEq => Option::Some(a <= b),
        BinaryOperator::Gt => Option::Some(a > b),
        BinaryOperator::GtEq => Option::Some(a >= b),
        BinaryOperator::Other => Option::None,
    }
}

/// An order comparison under lexicographic string order.
pub open spec fn cmp_str(op: BinaryOperator, a: Seq<char>, b: Seq<char>) -> Option<bool> {
    match op {
        BinaryOperator::Eq => Option::Some(a == b),
        BinaryOperator::NotEq => Option::Some(a != b),
        BinaryOperator::Lt => Option::Some(str_lt(a, b)),
        BinaryOperator::LtEq => Option::Some(a == b || str_lt(a, b)),
        BinaryOperator::Gt => Option::Some(str_lt(b, a)),
        BinaryOperator::GtEq => Option::Some(a == b || str_lt(b, a)),
        BinaryOperator::Other => Option::None,
    }
}

/// An order comparison of floating-point numbers by their comparison keys:
/// a NaN on either side is equal to nothing and less than nothing, as IEEE
/// 754 has it.
pub open spec fn cmp_float(
    op: BinaryOperator,
    nan_a: bool,
    nan_b: bool,
    ka: int,
    kb: int,
) -> Option<bool> {
    match op {
        BinaryOperator::Eq => Option::Some(!nan_a && !nan_b && ka == kb),
        BinaryOperator::NotEq => Option::Some(nan_a || nan_b || ka != kb),
        BinaryOperator::Lt => Option::Some(!nan_a && !nan_b && ka < kb),
        BinaryOperator::LtEq => Option::Some(!nan_a && !nan_b && ka <= kb),
        BinaryOperator::Gt => Option::Some(!nan_a && !nan_b && ka > kb),
        BinaryOperator::GtEq => Option::Some(!nan_a && !nan_b && ka >= kb),
        BinaryOperator::Other => Option::None,
    }
}

/// The comparison matrix: declared column type by stored value by literal
/// kind.  Strings compare lexically, numeric literals parse into the exact
/// declared width, booleans support only equality, and a timestamp literal
/// denotes an absolute instant.  `None` is a type mismatch.
pub open spec fn eval_compare(
    ct: ColumnType,
    v: ValueModel,
    op: BinaryOperator,
    lit: LiteralModel,
) -> Option<bool> {
    match (ct, v, lit) {
        (ColumnType::String, ValueModel::Str(s), LiteralModel::SingleQuotedString(l)) => cmp_str(
            op,
            s,
            l,
        ),
        (ColumnType::Int32, ValueModel::Int32(x), LiteralModel::Number(n)) => if n.long {
            Option::None
        } else {
            match parse_i32_spec(n.text) {
                Option::Some(l) => cmp_int(op, x as int, l as int),
                Option::None => Option::None,
            }
        },
        (ColumnType::Int64, ValueModel::Int64(x), LiteralModel::Number(n)) => if n.long {
            Option::None
        } else {
            match parse_i64_spec(n.text) {
                Option::Some(l) => cmp_int(op, x as int, l as int),
                Option::None => Option::None,
            }
        },
        (ColumnType::Bool, ValueModel::Bool(x), LiteralModel::Boolean(l)) => match op {
            BinaryOperator::Eq => Option::Some(x == l),
            BinaryOperator::NotEq => Option::Some(x != l),
            _ => Option::None,
        },
        (ColumnType::Float32, ValueModel::Float32(b), LiteralModel::Number(n)) => if n.long {
            Option::None
        } else {
            cmp_float(
                op,
                f32_is_nan(b),
                f32_is_nan(n.float32_bits),
                f32_cmp_key(b) as int,
                f32_cmp_key(n.float32_bits) as int,
            )
        },
        (ColumnType::Float64, ValueModel::Float64(b), LiteralModel::Number(n)) => if n.long {
            Option::None
        } else {
            cmp_float(
                op,
                f64_is_nan(b),
                f64_is_nan(n.float64_bits),
                f64_cmp_key(b) as int,
                f64_cmp_key(n.float64_bits) as int,
            )
        },
        (ColumnType::DateTime, ValueModel::DateTime(t), LiteralModel::SingleQuotedString(l)) => {
            match instant_of(l) {
                Option::Some(x) => cmp_int(op, t as int, x as int),
                Option::None => Option::None,
            }
        },
        _ => Option::None,
    }
}

/// The same matrix with the literal written first, stated directly: what
/// `literal OP column` means, without the algebraic flip.
pub open spec fn eval_literal_first(
    ct: ColumnType,
    lit: LiteralModel,
    op: BinaryOperator,
    v: ValueModel,
) -> Option<bool> {
    match (ct, v, lit) {
        (ColumnType::String, ValueModel::Str(s), LiteralModel::SingleQuotedString(l)) => cmp_str(
            op,
            l,
            s,
        ),
        (ColumnType::Int32, ValueModel::Int32(x), LiteralModel::Number(n)) => if n.long {
            Option::None
        } else {
            match parse_i32_spec(n.text) {
                Option::Some(l) => cmp_int(op, l as int, x as int),
                Option::None => Option::None,
            }
        },
        (ColumnType::Int64, ValueModel::Int64(x), LiteralModel::Number(n)) => if n.long {
            Option::None
        } else {
            match parse_i64_spec(n.text) {
                Option::Some(l) => cmp_int(op, l as int, x as int),
                Option::None => Option::None,
            }
        },
        (ColumnType::Bool, ValueModel::Bool(x), LiteralModel::Boolean(l)) => match op {
            BinaryOperator::Eq => Option::Some(l == x),
            BinaryOperator::NotEq => Option::Some(l != x),
            _ => Option::None,
        },
        (ColumnType::Float32, ValueModel::Float32(b), LiteralModel::Number(n)) => if n.long {
            Option::None
        } else {
            cmp_float(
                op,
                f32_is_nan(n.float32_bits),
                f32_is_nan(b),
                f32_cmp_key(n.float32_bits) as int,
                f32_cmp_key(b) as int,
            )
        },
        (ColumnType::Float64, ValueModel::Float64(b), LiteralModel::Number(n)) => if n.long {
            Option::None
        } else {
            cmp_float(
                op,
                f64_is_nan(n.float64_bits),
                f64_is_nan(b),
                f64_cmp_key(n.float64_bits) as int,
                f64_cmp_key(b) as int,
            )
        },
        (ColumnType::DateTime, ValueModel::DateTime(t), LiteralModel::SingleQuotedString(l)) => {
            match instant_of(l) {
                Option::Some(x) => cmp_int(op, x as int, t as int),
                Option::None => Option::None,
            }
        },
        _ => Option::None,
    }
}

/// Flip correctness: writing `literal OP column` means exactly the flipped
/// comparison on the column, for every operator and every column type —
/// the equality operators are symmetric, the order operators reverse.
pub proof fn lemma_flip_correct(
    ct: ColumnType,
    v: ValueModel,
    op: BinaryOperator,
    lit: LiteralModel,
)
    ensures
        eval_literal_first(ct, lit, op, v) == eval_compare(ct, v, flip_operator(op), lit),
{
    if let (ColumnType::String, ValueModel::Str(s), LiteralModel::SingleQuotedString(l)) = (
        ct,
        v,
        lit,
    ) {
        if str_lt(l, s) {
            crate::values::lemma_str_lt_asymmetric(l, s);
        }
        if str_lt(s, l) {
            crate::values::lemma_str_lt_asymmetric(s, l);
        }
    }
}

/// One record against the comparison: its stored value in the column, under
/// the matrix; a record without the column counts as a mismatch.
pub open spec fn eval_record(
    ct: ColumnType,
    col: Seq<char>,
    op: BinaryOperator,
    lit: LiteralModel,
    r: RecordModel,
) -> Option<bool> {
    match lookup(r.values, col) {
        Option::Some(v) => eval_compare(ct, v, op, lit),
        Option::None => Option::None,
    }
}

/// The position of the first record whose comparison is a type mismatch.
pub open spec fn first_mismatch(
    ct: ColumnType,
    col: Seq<char>,
    op: BinaryOperator,
    lit: LiteralModel,
    events: Seq<RecordModel>,
) -> Option<int>
    decreases events.len(),
{
    if events.len() == 0 {
        Option::None
    } else if eval_record(ct, col, op, lit, events[0]) is None {
        Option::Some(0)
    } else {
        match first_mismatch(ct, col, op, lit, events.drop_first()) {
            Option::Some(j) => Option::Some(j + 1),
            Option::None => Option::None,
        }
    }
}

pub proof fn lemma_first_mismatch_skip(
    ct: ColumnType,
    col: Seq<char>,
    op: BinaryOperator,
    lit: LiteralModel,
    events: Seq<RecordModel>,
    i: int,
)
    requires
        0 <= i <= events.len(),
        forall|k: int| 0 <= k < i ==> eval_record(ct, col, op, lit, #[trigger] events[k]) is Some,
    ensures
        first_mismatch(ct, col, op, lit, events) == match first_mismatch(
            ct,
            col,
            op,
            lit,
            events.skip(i),
        ) {
            Option::Some(j) => Option::Some(j + i),
            Option::None => Option::<int>::None,
        },
    decreases i,
{
    if i > 0 {
        assert(events.drop_first().skip(i - 1) =~= events.skip(i));
        lemma_first_mismatch_skip(ct, col, op, lit, events.drop_first(), i - 1);
    } else {
        assert(events.skip(0) =~= events);
    }
}

/// A first mismatch lies inside the record sequence and is a mismatch.
pub proof fn lemma_first_mismatch_in_range(
    ct: ColumnType,
    col: Seq<char>,
    op: BinaryOperator,
    lit: LiteralModel,
    events: Seq<RecordModel>,
)
    ensures
        match first_mismatch(ct, col, op, lit, events) {
            Option::Some(j) => 0 <= j < events.len() && eval_record(
                ct,
                col,
                op,
                lit,
                events[j],
            ) is None,
            Option::None => true,
        },
    decreases events.len(),
{
    if events.len() > 0 && eval_record(ct, col, op, lit, events[0]) is Some {
        lemma_first_mismatch_in_range(ct, col, op, lit, events.drop_first());
    }
}

/// The records that satisfy the comparison, in their original order.
pub open spec fn filtered_events(
    ct: ColumnType,
    col: Seq<char>,
    op: BinaryOperator,
    lit: LiteralModel,
    events: Seq<RecordModel>,
) -> Seq<RecordModel> {
    events.filter(|r: RecordModel| eval_record(ct, col, op, lit, r) == Option::Some(true))
}

/// A record against the comparison written literal-first.
pub open spec fn eval_record_literal_first(
    ct: ColumnType,
    col: Seq<char>,
    op: BinaryOperator,
    lit: LiteralModel,
    r: RecordModel,
) -> Option<bool> {
    match lookup(r.values, col) {
        Option::Some(v) => eval_literal_first(ct, lit, op, v),
        Option::None => Option::None,
    }
}

/// The records satisfying the literal-first comparison, in original order.
pub open spec fn filtered_events_literal_first(
    ct: ColumnType,
    col: Seq<char>,
    op: BinaryOperator,
    lit: LiteralModel,
    events: Seq<RecordModel>,
) -> Seq<RecordModel> {
    events.filter(
        |r: RecordModel| eval_record_literal_first(ct, col, op, lit, r) == Option::Some(true),
    )
}

/// Filtering `column OP' literal` under the flipped operator and filtering
/// `literal OP column` stated directly keep identical surviving sets, for
/// every operator and every column type.
pub proof fn lemma_flip_surviving_sets(
    ct: ColumnType,
    col: Seq<char>,
    op: BinaryOperator,
    lit: LiteralModel,
    events: Seq<RecordModel>,
)
    ensures
        filtered_events(ct, col, flip_operator(op), lit, events)
            == filtered_events_literal_first(ct, col, op, lit, events),
    decreases events.len(),
{
    reveal(Seq::filter);
    if events.len() > 0 {
        lemma_flip_surviving_sets(ct, col, op, lit, events.drop_last());
        match lookup(events.last().values, col) {
            Option::Some(v) => lemma_flip_correct(ct, v, op, lit),
            Option::None => {},
        }
    }
}

/// The WHERE expression as a single comparison between a column and a
/// literal, in either operand order: writing `literal OP column` states the
/// flipped comparison on the column.  Any other shape is unsupported.
pub open spec fn comparison_of(e: ExprModel) -> Option<
    (Seq<char>, BinaryOperator, LiteralModel),
> {
    match e {
        ExprModel::BinaryOp { left, op, right } => match (left, right) {
            (
                OperandModel::Identifier(c),
                OperandModel::Value(l),
            ) => Option::Some((c, op, l)),
            (
                OperandModel::Value(l),
                OperandModel::Identifier(c),
            ) => Option::Some((c, flip_operator(op), l)),
            _ => Option::None,
        },
        _ => Option::None,
    }
}

/// The comparison the statement's WHERE clause asks for, if it has one.
pub open spec fn selection_comparison(m: crate::engine::TableResultModel) -> Option<
    Option<(Seq<char>, BinaryOperator, LiteralModel)>,
> {
    match m.statement {
        Option::Some(StatementModel::Query(q)) => match q.body {
            crate::query::SetExprModel::Select(sel) => match sel.selection {
                Option::Some(e) => Option::Some(comparison_of(e)),
                Option::None => Option::None,
            },
            _ => Option::None,
        },
        _ => Option::None,
    }
}

/// Before filtering on a comparison, the named column must be declared by
/// the schema (folding ASCII case) and present in every record.
pub open spec fn filter_requires(m: crate::engine::TableResultModel) -> bool {
    match selection_comparison(m) {
        Option::Some(Option::Some((col, op, lit))) => supported_operator(op) ==> {
            &&& find_column(m.schema.columns, col) is Some
            &&& forall|i: int|
                0 <= i < m.events.len() ==> lookup(#[trigger] m.events[i].values, col) is Some
        },
        _ => true,
    }
}

/// What the filter stage returns: the statement decides the comparison, the
/// comparison decides each record, the first mismatch aborts.
pub open spec fn spec_filter(m: crate::engine::TableResultModel) -> Result<
    Seq<RecordModel>,
    ErrorModel,
> {
    match m.statement {
        Option::None => Result::Ok(m.events),
        Option::Some(stmt) => match stmt {
            StatementModel::Query(q) => match q.body {
                crate::query::SetExprModel::Select(sel) => match sel.selection {
                    Option::None => Result::Ok(m.events),
                    Option::Some(e) => match comparison_of(e) {
                        Option::None => Result::Err(ErrorModel::InvalidQuery(stmt)),
                        Option::Some((col, op, lit)) => if !supported_operator(op) {
                            Result::Err(ErrorModel::InvalidQuery(stmt))
                        } else {
                            let ct = match find_column(m.schema.columns, col) {
                                Option::Some(c) => c.column_type,
                                Option::None => ColumnType::String,
                            };
                            match first_mismatch(ct, col, op, lit, m.events) {
                                Option::Some(j) => Result::Err(
                                    ErrorModel::TypeMismatch(
                                        ct,
                                        match lookup(m.events[j].values, col) {
                                            Option::Some(v) => v,
                                            Option::None => ValueModel::Bool(false),
                                        },
                                        lit,
                                    ),
                                ),
                                Option::None => Result::Ok(
                                    filtered_events(ct, col, op, lit, m.events),
                                ),
                            }
                        },
                    },
                },
                _ => Result::Err(ErrorModel::InvalidQuery(stmt)),
            },
            StatementModel::Other => Result::Err(ErrorModel::InvalidQuery(stmt)),
        },
    }
}

/// Evaluates one stored value against the literal under the declared type.
fn compare_typed(ct: ColumnType, v: &TypedValue, op: BinaryOperator, lit: &Literal) -> (r: Option<
    bool,
>)
    ensures
        r == eval_compare(ct, v@, op, lit@),
{
    match (ct, v, lit) {
        (ColumnType::String, TypedValue::String(s), Literal::SingleQuotedString(l)) => {
            match op {
                BinaryOperator::Eq => Option::Some(*s == *l),
                BinaryOperator::NotEq => Option::Some(!(*s == *l)),
                BinaryOperator::Lt => Option::Some(str_lt_exec(s, l)),
                BinaryOperator::LtEq => Option::Some(*s == *l || str_lt_exec(s, l)),
                BinaryOperator::Gt => Option::Some(str_lt_exec(l, s)),
                BinaryOperator::GtEq => Option::Some(*s == *l || str_lt_exec(l, s)),
                BinaryOperator::Other => Option::None,
            }
        },
        (ColumnType::Int32, TypedValue::Int32(x), Literal::Number(n)) => {
            if n.long {
                Option::None
            } else {
                match parse_i32(&n.text) {
                    Option::Some(l) => cmp_i64_exec(op, *x as i64, l as i64),
                    Option::None => Option::None,
                }
            }
        },
        (ColumnType::Int64, TypedValue::Int64(x), Literal::Number(n)) => {
            if n.long {
                Option::None
            } else {
                match parse_i64(&n.text) {
                    Option::Some(l) => cmp_i64_exec(op, *x, l),
                    Option::None => Option::None,
                }
            }
        },
        (ColumnType::Bool, TypedValue::Bool(x), Literal::Boolean(l)) => match op {
            BinaryOperator::Eq => Option::Some(*x == *l),
            BinaryOperator::NotEq => Option::Some(*x != *l),
            _ => Option::None,
        },
        (ColumnType::Float32, TypedValue::Float32(b), Literal::Number(n)) => {
            if n.long {
                Option::None
            } else {
                cmp_float_exec(
                    op,
                    f32_is_nan_exec(*b),
                    f32_is_nan_exec(n.float32_bits),
                    f32_cmp_key_exec(*b) as u64,
                    f32_cmp_key_exec(n.float32_bits) as u64,
                )
            }
        },
        (ColumnType::Float64, TypedValue::Float64(b), Literal::Number(n)) => {
            if n.long {
                Option::None
            } else {
                cmp_float_exec(
                    op,
                    f64_is_nan_exec(*b),
                    f64_is_nan_exec(n.float64_bits),
                    f64_cmp_key_exec(*b),
                    f64_cmp_key_exec(n.float64_bits),
                )
            }
        },
        (ColumnType::DateTime, TypedValue::DateTime(t), Literal::SingleQuotedString(l)) => {
            match parse_instant(l) {
                Option::Some(x) => cmp_i64_exec(op, *t, x),
                Option::None => Option::None,
            }
        },
        _ => Option::None,
    }
}

fn cmp_i64_exec(op: BinaryOperator, a: i64, b: i64) -> (r: Option<bool>)
    ensures
        r == cmp_int(op, a as int, b as int),
{
    match op {
        BinaryOperator::Eq => Option::Some(a == b),
        BinaryOperator::NotEq => Option::Some(a != b),
        BinaryOperator::Lt => Option::Some(a < b),
        BinaryOperator::LtEq => Option::Some(a <= b),
        BinaryOperator::Gt => Option::Some(a > b),
        BinaryOperator::GtEq => Option::Some(a >= b),
        BinaryOperator::Other => Option::None,
    }
}

fn cmp_float_exec(op: BinaryOperator, nan_a: bool, nan_b: bool, ka: u64, kb: u64) -> (r: Option<
    bool,
>)
    ensures
        r == cmp_float(op, nan_a, nan_b, ka as int, kb as int),
{
    match op {
        BinaryOperator::Eq => Option::Some(!nan_a && !nan_b && ka == kb),
        BinaryOperator::NotEq => Option::Some(nan_a || nan_b || ka != kb),
        BinaryOperator::Lt => Option::Some(!nan_a && !nan_b && ka < kb),
        BinaryOperator::LtEq => Option::Some(!nan_a && !nan_b && ka <= kb),
        BinaryOperator::Gt => Option::Some(!nan_a && !nan_b && ka > kb),
        BinaryOperator::GtEq => Option::Some(!nan_a && !nan_b && ka >= kb),
        BinaryOperator::Other => Option::None,
    }
}

/// Index sequences the surviving-index primitive produces: strictly
/// ascending.
pub open spec fn strictly_ascending(idxs: Seq<usize>) -> bool {
    forall|k1: int, k2: int| 0 <= k1 < k2 < idxs.len() ==> idxs[k1] < idxs[k2]
}

pub open spec fn idx_contains(idxs: Seq<usize>, i: int) -> bool {
    exists|k: int| 0 <= k < idxs.len() && idxs[k] == i
}

/// Materializes the surviving index set: keeps exactly the records at the
/// given ascending positions, which are exactly those satisfying the
/// comparison.
fn select_by_indices(
    events: Vec<Record>,
    idxs: Vec<usize>,
    Ghost(ct): Ghost<ColumnType>,
    Ghost(col): Ghost<Seq<char>>,
    Ghost(op): Ghost<BinaryOperator>,
    Ghost(lit): Ghost<LiteralModel>,
) -> (r: Vec<Record>)
    requires
        strictly_ascending(idxs@),
        forall|k: int|
            0 <= k < idxs@.len() ==> #[trigger] idxs@[k] < events@.len() && eval_record(
                ct,
                col,
                op,
                lit,
                records_model(events@)[idxs@[k] as int],
            ) == Option::Some(true),
        forall|i: int|
            0 <= i < events@.len() && eval_record(
                ct,
                col,
                op,
                lit,
                #[trigger] records_model(events@)[i],
            ) == Option::Some(true) ==> idx_contains(idxs@, i),
    ensures
        records_model(r@) == filtered_events(ct, col, op, lit, records_model(events@)),
{
    let ghost original = records_model(events@);
    let mut events = events;
    let mut out: Vec<Record> = Vec::new();
    let mut p: usize = 0;
    let mut i: usize = 0;
    let total = events.len();
    proof {
        reveal(Seq::filter);
        assert(original.take(0) =~= Seq::empty());
        assert(records_model(out@) =~= filtered_events(ct, col, op, lit, original.take(0)));
    }
    while events.len() > 0
        invariant
            i + events@.len() == total as int,
            original.len() == total as int,
            records_model(events@) =~= original.skip(i as int),
            p <= idxs@.len(),
            strictly_ascending(idxs@),
            forall|k: int| 0 <= k < p ==> #[trigger] idxs@[k] < i,
            forall|k: int| p <= k < idxs@.len() ==> i <= #[trigger] idxs@[k],
            forall|k: int|
                0 <= k < idxs@.len() ==> #[trigger] idxs@[k] < original.len() && eval_record(
                    ct,
                    col,
                    op,
                    lit,
                    original[idxs@[k] as int],
                ) == Option::Some(true),
            forall|i2: int|
                0 <= i2 < original.len() && eval_record(
                    ct,
                    col,
                    op,
                    lit,
                    #[trigger] original[i2],
                ) == Option::Some(true) ==> idx_contains(idxs@, i2),
            records_model(out@) =~= filtered_events(ct, col, op, lit, original.take(i as int)),
        decreases events@.len(),
    {
        let ghost before = events@;
        let rec = events.remove(0);
        proof {
            assert(rec == before[0]);
            assert(records_model(before)[0] == before[0]@);
            assert(original.skip(i as int)[0] == original[i as int]);
            assert(rec@ == original[i as int]);
            assert forall|k: int|
                0 <= k < events@.len() implies records_model(events@)[k] == original.skip(
                i + 1,
            )[k] by {
                assert(events@[k] == before[k + 1]);
                assert(records_model(before)[k + 1] == before[k + 1]@);
                assert(original.skip(i as int)[k + 1] == original[i + 1 + k]);
            }
            assert(records_model(events@) =~= original.skip(i + 1));
        }
        let keep = p < idxs.len() && idxs[p] == i;
        proof {
            let kept = eval_record(ct, col, op, lit, original[i as int]) == Option::Some(true);
            if keep {
                assert(idxs@[p as int] == i);
                assert(kept);
            } else if kept {
                assert(idx_contains(idxs@, i as int));
                let k = choose|k: int| 0 <= k < idxs@.len() && idxs@[k] == i as int;
                if k < p {
                    assert(idxs@[k] < i);
                } else if p < idxs@.len() {
                    if k > p {
                        assert(idxs@[p as int] < idxs@[k]);
                    }
                }
                assert(false);
            }
            reveal(Seq::filter);
            assert(original.take(i + 1).drop_last() =~= original.take(i as int));
            assert(original.take(i + 1).last() == original[i as int]);
        }
        let ghost out_before = out@;
        if keep {
            out.push(rec);
            p = p + 1;
            proof {
                reveal(Seq::filter);
                assert forall|k: int|
                    0 <= k < records_model(out@).len() implies records_model(out@)[k]
                    == filtered_events(ct, col, op, lit, original.take(i + 1))[k] by {
                    if k < out_before.len() {
                        assert(out@[k] == out_before[k]);
                        assert(records_model(out_before)[k] == out_before[k]@);
                    } else {
                        assert(out@[k] == rec);
                    }
                }
                assert(records_model(out@) =~= filtered_events(
                    ct,
                    col,
                    op,
                    lit,
                    original.take(i + 1),
                ));
            }
        } else {
            proof {
                reveal(Seq::filter);
                assert(records_model(out@) =~= filtered_events(
                    ct,
                    col,
                    op,
                    lit,
                    original.take(i + 1),
                ));
            }
        }
        i = i + 1;
    }
    proof {
        assert(original.take(total as int) =~= original);
    }
    out
}

impl TableResult {
    /// Returns the subsequence of records satisfying the WHERE clause's
    /// single comparison between a column and a literal, in either operand
    /// order; an absent WHERE is the identity, and any other clause shape is
    /// an invalid query.  The surviving index set is computed first, then
    /// materialized.
    pub fn filter(self) -> (r: Result<TableResult, Error>)
        requires
            filter_requires(self@),
        ensures
            match r {
                Result::Ok(t) => spec_filter(self@) == Result::Ok::<_, ErrorModel>(t@.events)
                    && t@.columns == self@.columns && t@.schema == self@.schema && t@.statement
                    == self@.statement,
                Result::Err(e) => spec_filter(self@) == Result::Err::<Seq<RecordModel>, _>(e@),
            },
    {
        let ghost m = self@;
        let idxs: Vec<usize> = match &self.statement {
            Option::None => {
                return Result::Ok(self);
            },
            Option::Some(stmt) => match stmt {
                Statement::Query(query) => match &query.body {
                    SetExpr::Select(select) => match &select.selection {
                        Option::None => {
                            return Result::Ok(self);
                        },
                        Option::Some(expr) => match expr {
                            Expr::BinaryOp { left, op, right } => match (&**left, &**right) {
                                (Expr::Identifier(column), Expr::Value(literal)) => {
                                    let op = *op;
                                    proof {
                                        assert(comparison_of(expr@) == Option::Some(
                                            (column@, op, literal@),
                                        ));
                                    }
                                    if let BinaryOperator::Other = op {
                                        return Result::Err(Error::InvalidQuery(stmt.duplicate()));
                                    }
                                    match self.surviving_indices(column, op, literal) {
                                        Result::Ok(x) => x,
                                        Result::Err(e) => {
                                            proof {
                                                assert(first_mismatch(
                                                    find_column(
                                                        m.schema.columns,
                                                        column@,
                                                    )->Some_0.column_type,
                                                    column@,
                                                    op,
                                                    literal@,
                                                    m.events,
                                                ) is Some);
                                                lemma_first_mismatch_in_range(
                                                    find_column(
                                                        m.schema.columns,
                                                        column@,
                                                    )->Some_0.column_type,
                                                    column@,
                                                    op,
                                                    literal@,
                                                    m.events,
                                                );
                                            }
                                            return Result::Err(e);
                                        },
                                    }
                                },
                                (Expr::Value(literal), Expr::Identifier(column)) => {
                                    let op = flip_operator_exec(*op);
                                    proof {
                                        assert(comparison_of(expr@) == Option::Some(
                                            (column@, op, literal@),
                                        ));
                                    }
                                    if let BinaryOperator::Other = op {
                                        return Result::Err(Error::InvalidQuery(stmt.duplicate()));
                                    }
                                    match self.surviving_indices(column, op, literal) {
                                        Result::Ok(x) => x,
                                        Result::Err(e) => {
                                            proof {
                                                assert(first_mismatch(
                                                    find_column(
                                                        m.schema.columns,
                                                        column@,
                                                    )->Some_0.column_type,
                                                    column@,
                                                    op,
                                                    literal@,
                                                    m.events,
                                                ) is Some);
                                                lemma_first_mismatch_in_range(
                                                    find_column(
                                                        m.schema.columns,
                                                        column@,
                                                    )->Some_0.column_type,
                                                    column@,
                                                    op,
                                                    literal@,
                                                    m.events,
                                                );
                                            }
                                            return Result::Err(e);
                                        },
                                    }
                                },
                                _ => {
                                    return Result::Err(Error::InvalidQuery(stmt.duplicate()));
                                },
                            },
                            _ => {
                                return Result::Err(Error::InvalidQuery(stmt.duplicate()));
                            },
                        },
                    },
                    SetExpr::Other => {
                        return Result::Err(Error::InvalidQuery(stmt.duplicate()));
                    },
                },
                Statement::Other => {
                    return Result::Err(Error::InvalidQuery(stmt.duplicate()));
                },
            },
        };
        let ghost trip = selection_comparison(m)->Some_0->Some_0;
        let ghost ct = find_column(m.schema.columns, trip.0)->Some_0.column_type;
        let TableResult { columns, events, schema, statement } = self;
        let events = select_by_indices(events, idxs, Ghost(ct), Ghost(trip.0), Ghost(trip.1),
            Ghost(trip.2));
        Result::Ok(TableResult { columns, events, schema, statement })
    }

    /// The surviving index set for one comparison: the positions, in
    /// ascending order, of the records that satisfy `column OP literal`.
    /// The first record whose stored value does not agree with the declared
    /// type and the literal's kind aborts with a type mismatch.
    fn surviving_indices(&self, column: &String, op: BinaryOperator, literal: &Literal) -> (r:
        Result<Vec<usize>, Error>)
        requires
            supported_operator(op),
            find_column(self@.schema.columns, column@) is Some,
            forall|i: int|
                0 <= i < self@.events.len() ==> lookup(
                    (#[trigger] self@.events[i]).values,
                    column@,
                ) is Some,
        ensures
            ({
                let ct = find_column(self@.schema.columns, column@)->Some_0.column_type;
                match r {
                    Result::Ok(idxs) => {
                        &&& first_mismatch(ct, column@, op, literal@, self@.events) is None
                        &&& strictly_ascending(idxs@)
                        &&& forall|k: int|
                            0 <= k < idxs@.len() ==> #[trigger] idxs@[k] < self@.events.len()
                                && eval_record(
                                ct,
                                column@,
                                op,
                                literal@,
                                self@.events[idxs@[k] as int],
                            ) == Option::Some(true)
                        &&& forall|i: int|
                            0 <= i < self@.events.len() && eval_record(
                                ct,
                                column@,
                                op,
                                literal@,
                                #[trigger] self@.events[i],
                            ) == Option::Some(true) ==> idx_contains(idxs@, i)
                    },
                    Result::Err(e) => match first_mismatch(
                        ct,
                        column@,
                        op,
                        literal@,
                        self@.events,
                    ) {
                        Option::Some(j) => e@ == ErrorModel::TypeMismatch(
                            ct,
                            lookup(self@.events[j].values, column@)->Some_0,
                            literal@,
                        ),
                        Option::None => false,
                    },
                }
            }),
    {
        let ghost events_model = self@.events;
        let schema_type = match self.schema.column_type_of(column) {
            Option::Some(t) => t,
            Option::None => {
                proof {
                    assert(false);
                }
                ColumnType::String
            },
        };
        let mut idxs: Vec<usize> = Vec::new();
        let n = self.events.len();
        for i in 0..n
            invariant
                n == self.events.len(),
                events_model == self@.events,
                Option::Some(schema_type) == match find_column(self@.schema.columns, column@) {
                    Option::Some(c) => Option::Some(c.column_type),
                    Option::None => Option::<ColumnType>::None,
                },
                forall|i2: int|
                    0 <= i2 < events_model.len() ==> lookup(
                        (#[trigger] events_model[i2]).values,
                        column@,
                    ) is Some,
                forall|k: int|
                    0 <= k < i ==> eval_record(
                        schema_type,
                        column@,
                        op,
                        literal@,
                        #[trigger] events_model[k],
                    ) is Some,
                strictly_ascending(idxs@),
                forall|k: int| 0 <= k < idxs@.len() ==> #[trigger] idxs@[k] < i,
                forall|k: int|
                    0 <= k < idxs@.len() ==> eval_record(
                        schema_type,
                        column@,
                        op,
                        literal@,
                        events_model[#[trigger] idxs@[k] as int],
                    ) == Option::Some(true),
                forall|i2: int|
                    0 <= i2 < i && eval_record(
                        schema_type,
                        column@,
                        op,
                        literal@,
                        #[trigger] events_model[i2],
                    ) == Option::Some(true) ==> idx_contains(idxs@, i2),
        {
            proof {
                assert(records_model(self.events@)[i as int] == self.events@[i as int]@);
            }
            let value = match self.events[i].get(column) {
                Option::Some(v) => v,
                Option::None => {
                    proof {
                        assert(false);
                    }
                    return Result::Err(Error::InvalidSqlQuery);
                },
            };
            let keep = match compare_typed(schema_type, value, op, literal) {
                Option::Some(k) => k,
                Option::None => {
                    proof {
                        lemma_first_mismatch_skip(
                            schema_type,
                            column@,
                            op,
                            literal@,
                            events_model,
                            i as int,
                        );
                        assert(events_model.skip(i as int)[0] == events_model[i as int]);
                        assert(first_mismatch(schema_type, column@, op, literal@, events_model)
                            == Option::Some(i as int));
                    }
                    return Result::Err(
                        Error::TypeMismatch(schema_type, value.duplicate(), literal.duplicate()),
                    );
                },
            };
            if keep {
                let ghost before = idxs@;
                idxs.push(i);
                proof {
                    assert forall|i2: int|
                        0 <= i2 < i + 1 && eval_record(
                            schema_type,
                            column@,
                            op,
                            literal@,
                            #[trigger] events_model[i2],
                        ) == Option::Some(true) implies idx_contains(idxs@, i2) by {
                        if i2 < i {
                            let k = choose|k: int|
                                0 <= k < before.len() && before[k] == i2;
                            assert(idxs@[k] == i2);
                        } else {
                            assert(idxs@[idxs@.len() - 1] == i2);
                        }
                    }
                }
            }
            proof {
                assert(eval_record(schema_type, column@, op, literal@, events_model[i as int])
                    is Some);
            }
        }
        proof {
            lemma_first_mismatch_skip(schema_type, column@, op, literal@, events_model, n as int);
            assert(events_model.skip(n as int) =~= Seq::empty());
        }
        Result::Ok(idxs)
    }
}

} // verus!
