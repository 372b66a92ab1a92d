pub mod filter;

use vstd::prelude::*;

use crate::error::{Error, ErrorModel};
use crate::query::{
    Expr, ExprModel, Literal, LiteralModel, SelectItem, SelectItemModel, SetExpr, SetExprModel,
    Statement, StatementModel,
};
use crate::schema::{Schema, SchemaModel};
use crate::values::{
    is_uint_text, names_model, pairs_model, parse_uint_capped, records_model, uint_val, Record,
    RecordModel, TypedValue, ValueModel,
};

verus! {

/// The query execution engine: an immutable compiled statement and schema.
/// `execute` threads one in-progress result through the five pipeline stages
/// in fixed order: Filter, Project, OrderBy, Offset, Limit.
pub struct Engine {
    pub schema: Schema,
    pub columns: Vec<String>,
    pub statement: Option<Statement>,
}

pub struct EngineModel {
    pub schema: SchemaModel,
    pub columns: Seq<Seq<char>>,
    pub statement: Option<StatementModel>,
}

impl View for Engine {
    type V = EngineModel;

    open spec fn view(&self) -> EngineModel {
        EngineModel {
            schema: self.schema@,
            columns: names_model(self.columns@),
            statement: match &self.statement {
                Option::Some(s) => Option::Some(s@),
                Option::None => Option::None,
            },
        }
    }
}

/// One in-progress result: the active column list and the record sequence,
/// with the schema and statement the remaining stages read.
pub struct TableResult {
    pub columns: Vec<String>,
    pub events: Vec<Record>,
    pub schema: Schema,
    pub statement: Option<Statement>,
}

pub struct TableResultModel {
    pub columns: Seq<Seq<char>>,
    pub events: Seq<RecordModel>,
    pub schema: SchemaModel,
    pub statement: Option<StatementModel>,
}

impl View for TableResult {
    type V = TableResultModel;

    open spec fn view(&self) -> TableResultModel {
        TableResultModel {
            columns: names_model(self.columns@),
            events: records_model(self.events@),
            schema: self.schema@,
            statement: match &self.statement {
                Option::Some(s) => Option::Some(s@),
                Option::None => Option::None,
            },
        }
    }
}

/// The names of the schema's columns, in declaration order.
pub open spec fn schema_column_names(schema: SchemaModel) -> Seq<Seq<char>> {
    schema.columns.map_values(|c: crate::schema::ColumnModel| c.name)
}

fn schema_column_name_vec(schema: &Schema) -> (r: Vec<String>)
    ensures
        names_model(r@) == schema_column_names(schema@),
{
    let mut columns: Vec<String> = Vec::new();
    let n = schema.columns.len();
    for i in 0..n
        invariant
            n == schema.columns.len(),
            columns.len() == i,
            forall|k: int|
                0 <= k < i ==> names_model(columns@)[k] == schema_column_names(schema@)[k],
    {
        let ghost before = columns@;
        columns.push(schema.columns[i].name.clone());
        proof {
            assert forall|k: int|
                0 <= k < i + 1 implies names_model(columns@)[k] == schema_column_names(
                schema@,
            )[k] by {
                if k < i {
                    assert(columns@[k] == before[k]);
                } else {
                    assert(columns@[k] == schema.columns@[k as int].name);
                    assert(schema@.columns[k] == schema.columns@[k]@);
                }
            }
        }
    }
    proof {
        assert(names_model(columns@) =~= schema_column_names(schema@));
    }
    columns
}

impl Engine {
    /// An engine without a statement: execution passes the records through
    /// unchanged, under the schema's column list.
    pub fn new(schema: Schema) -> (e: Engine)
        ensures
            e@.schema == schema@,
            e@.columns == schema_column_names(schema@),
            e@.statement is None,
    {
        let columns = schema_column_name_vec(&schema);
        Engine { schema, columns, statement: Option::None }
    }

    /// An engine over exactly one compiled statement: none is an error, and
    /// so is more than one.
    pub fn with_query(schema: Schema, statements: Vec<Statement>) -> (r: Result<Engine, Error>)
        ensures
            match r {
                Result::Ok(e) => statements@.len() == 1 && e@.schema == schema@ && e@.columns
                    == schema_column_names(schema@) && e@.statement == Option::Some(
                    statements@[0]@,
                ),
                Result::Err(e) => if statements@.len() == 0 {
                    e@ == ErrorModel::InvalidSqlQuery
                } else {
                    statements@.len() > 1 && e@ == ErrorModel::TooManySqlQueries
                },
            },
    {
        let mut statements = statements;
        if statements.len() == 0 {
            return Result::Err(Error::InvalidSqlQuery);
        }
        if statements.len() > 1 {
            return Result::Err(Error::TooManySqlQueries);
        }
        let statement = statements.remove(0);
        let mut engine = Engine::new(schema);
        engine.statement = Option::Some(statement);
        Result::Ok(engine)
    }
}

// ---------------------------------------------------------------------------
// Continuation text.
//
// When the schema designates one string column as multiline, the lines that
// did not match the extraction pattern are appended to that column's value,
// each behind a line break, before any stage runs.
// ---------------------------------------------------------------------------
/// The name of the first multiline column, if the schema has one.
pub open spec fn first_multiline_name(cols: Seq<crate::schema::ColumnModel>) -> Option<Seq<char>>
    decreases cols.len(),
{
    if cols.len() == 0 {
        Option::None
    } else if cols[0].multiline {
        Option::Some(cols[0].name)
    } else {
        first_multiline_name(cols.drop_first())
    }
}

/// `s` with each line appended behind a line break.
pub open spec fn appended_lines(s: Seq<char>, lines: Seq<Seq<char>>) -> Seq<char>
    decreases lines.len(),
{
    if lines.len() == 0 {
        s
    } else {
        appended_lines(s, lines.drop_last()) + seq!['\n'] + lines.last()
    }
}

/// The position of the first entry called `name`, or the length when absent.
pub open spec fn name_index(vals: Seq<(Seq<char>, ValueModel)>, name: Seq<char>) -> int
    decreases vals.len(),
{
    if vals.len() == 0 {
        0
    } else if vals[0].0 == name {
        0
    } else {
        1 + name_index(vals.drop_first(), name)
    }
}

pub proof fn lemma_name_index(vals: Seq<(Seq<char>, ValueModel)>, name: Seq<char>)
    ensures
        crate::values::lookup(vals, name) is Some ==> {
            let i = name_index(vals, name);
            &&& 0 <= i < vals.len()
            &&& vals[i].0 == name
            &&& vals[i].1 == crate::values::lookup(vals, name)->Some_0
            &&& forall|k: int| 0 <= k < i ==> vals[k].0 != name
        },
        crate::values::lookup(vals, name) is None ==> name_index(vals, name) == vals.len(),
    decreases vals.len(),
{
    if vals.len() > 0 && vals[0].0 != name {
        lemma_name_index(vals.drop_first(), name);
        if crate::values::lookup(vals, name) is Some {
            let i = name_index(vals, name);
            assert(vals[i] == vals.drop_first()[i - 1]);
            assert forall|k: int| 0 <= k < i implies vals[k].0 != name by {
                if k > 0 {
                    assert(vals[k] == vals.drop_first()[k - 1]);
                }
            }
        }
    }
}

/// Entries whose names all differ from `name` shift the found position.
pub proof fn lemma_name_index_skip(
    vals: Seq<(Seq<char>, ValueModel)>,
    name: Seq<char>,
    i: int,
)
    requires
        0 <= i <= vals.len(),
        forall|k: int| 0 <= k < i ==> vals[k].0 != name,
    ensures
        name_index(vals, name) == i + name_index(vals.skip(i), name),
    decreases i,
{
    if i > 0 {
        assert(vals.drop_first().skip(i - 1) =~= vals.skip(i));
        lemma_name_index_skip(vals.drop_first(), name, i - 1);
    } else {
        assert(vals.skip(0) =~= vals);
    }
}

/// The position of the first entry called `name` in a record's value list,
/// or the length when there is none.
fn find_pair_index(values: &Vec<(String, TypedValue)>, name: &String) -> (r: usize)
    ensures
        r as int == name_index(pairs_model(values@), name@),
{
    let ghost model = pairs_model(values@);
    let n = values.len();
    for j in 0..n
        invariant
            n == values.len(),
            model == pairs_model(values@),
            forall|k: int| 0 <= k < j ==> model[k].0 != name@,
    {
        proof {
            assert(model[j as int] == (values@[j as int].0@, values@[j as int].1@));
        }
        if values[j].0 == *name {
            proof {
                lemma_name_index_skip(model, name@, j as int);
                assert(model.skip(j as int)[0] == model[j as int]);
            }
            return j;
        }
    }
    proof {
        lemma_name_index_skip(model, name@, n as int);
        assert(model.skip(n as int) =~= Seq::empty());
    }
    n
}

/// One record after its continuation lines are appended to the multiline
/// column: the column's string value grows, the extra text is consumed.
/// A record that carries none is unchanged.
pub open spec fn merge_record(rec: RecordModel, mcol: Seq<char>) -> RecordModel {
    match rec.extra_text {
        Option::None => rec,
        Option::Some(lines) => match crate::values::lookup(rec.values, mcol) {
            Option::Some(ValueModel::Str(s)) => RecordModel {
                values: rec.values.update(
                    name_index(rec.values, mcol),
                    (mcol, ValueModel::Str(appended_lines(s, lines))),
                ),
                extra_text: Option::None,
            },
            _ => rec,
        },
    }
}

/// The record set after continuation text is merged: the identity when no
/// column is multiline.
pub open spec fn spec_merge_extra(schema: SchemaModel, events: Seq<RecordModel>) -> Seq<
    RecordModel,
> {
    match first_multiline_name(schema.columns) {
        Option::None => events,
        Option::Some(mcol) => events.map_values(|r: RecordModel| merge_record(r, mcol)),
    }
}

/// Records can only carry continuation text when the schema says where it
/// goes: the multiline column must hold a string value in each such record.
pub open spec fn extra_text_requires(schema: SchemaModel, events: Seq<RecordModel>) -> bool {
    match first_multiline_name(schema.columns) {
        Option::None => true,
        Option::Some(mcol) => forall|i: int|
            0 <= i < events.len() && (#[trigger] events[i]).extra_text is Some ==> crate::values::lookup(
                events[i].values,
                mcol,
            ) matches Option::Some(ValueModel::Str(_)),
    }
}

fn find_multiline_column(schema: &Schema) -> (r: Option<String>)
    ensures
        match r {
            Option::Some(name) => first_multiline_name(schema@.columns) == Option::Some(name@),
            Option::None => first_multiline_name(schema@.columns) is None,
        },
{
    let ghost cols = schema@.columns;
    proof {
        assert(cols.skip(0) =~= cols);
    }
    let n = schema.columns.len();
    for i in 0..n
        invariant
            n == schema.columns.len(),
            cols == schema@.columns,
            forall|k: int| 0 <= k < i ==> !cols[k].multiline,
            first_multiline_name(cols) == first_multiline_name(cols.skip(i as int)),
    {
        proof {
            assert(cols[i as int] == schema.columns@[i as int]@);
            assert(cols.skip(i as int)[0] == cols[i as int]);
            assert(cols.skip(i as int).drop_first() =~= cols.skip(i + 1));
        }
        if schema.columns[i].multiline {
            return Option::Some(schema.columns[i].name.clone());
        }
    }
    Option::None
}

/// Appends each line to `value` behind a line break.
fn append_extra_lines(value: &mut String, lines: &Vec<String>)
    ensures
        final(value)@ == appended_lines(old(value)@, lines.deep_view()),
{
    let ghost start = value@;
    let n = lines.len();
    for i in 0..n
        invariant
            n == lines.len(),
            value@ == appended_lines(start, lines.deep_view().take(i as int)),
    {
        let ghost mid = value@;
        value.append("\n");
        value.append(lines[i].as_str());
        proof {
            reveal_strlit("\n");
            let ghost all = lines.deep_view();
            assert(all.take(i + 1).drop_last() =~= all.take(i as int));
            assert(all.take(i + 1).last() == all[i as int]);
            assert("\n"@ =~= seq!['\n']);
            assert(value@ == mid + seq!['\n'] + all[i as int]);
        }
    }
    proof {
        assert(lines.deep_view().take(n as int) =~= lines.deep_view());
    }
}

/// Merges one record's continuation lines into the multiline column.
fn merge_one_record(rec: Record, mcol: &String) -> (r: Record)
    requires
        rec@.extra_text is Some ==> crate::values::lookup(rec@.values, mcol@) matches Option::Some(
            ValueModel::Str(_),
        ),
    ensures
        r@ == merge_record(rec@, mcol@),
{
    let ghost model = rec@;
    let Record { mut values, extra_text } = rec;
    let lines = match extra_text {
        Option::None => {
            return Record { values, extra_text: Option::None };
        },
        Option::Some(lines) => lines,
    };
    // Locate the multiline column; the requirement says it is there.
    let j = find_pair_index(&values, mcol);
    proof {
        lemma_name_index(model.values, mcol@);
        assert(j < values@.len());
    }
    let (name, value) = values.remove(j);
    match value {
        TypedValue::String(mut s) => {
            append_extra_lines(&mut s, &lines);
            values.insert(j, (name, TypedValue::String(s)));
            proof {
                assert(pairs_model(values@) =~= model.values.update(
                    j as int,
                    (mcol@, ValueModel::Str(appended_lines(model.values[j as int].1->Str_0,
                    lines.deep_view()))),
                ));
            }
            Record { values, extra_text: Option::None }
        },
        _ => {
            proof {
                assert(false);
            }
            Record { values, extra_text: Option::None }
        },
    }
}

impl TableResult {
    /// Appends each record's continuation lines to the multiline column,
    /// when the schema designates one.
    fn handle_extra_text(self) -> (r: TableResult)
        requires
            extra_text_requires(self@.schema, self@.events),
        ensures
            r@.events == spec_merge_extra(self@.schema, self@.events),
            r@.columns == self@.columns,
            r@.schema == self@.schema,
            r@.statement == self@.statement,
    {
        let ghost m = self@;
        let mcol = match find_multiline_column(&self.schema) {
            Option::None => {
                return self;
            },
            Option::Some(name) => name,
        };
        let TableResult { columns, events, schema, statement } = self;
        let ghost original = records_model(events@);
        let mut events = events;
        let mut out: Vec<Record> = Vec::new();
        let mut i: usize = 0;
        let total = events.len();
        proof {
            assert(original.len() == total as int);
        }
        while events.len() > 0
            invariant
                i + events@.len() == total as int,
                original.len() == total as int,
                records_model(events@) =~= original.skip(i as int),
                i <= total,
                forall|k: int|
                    0 <= k < i ==> records_model(out@)[k] == spec_merge_extra(m.schema, original)[k],
                out@.len() == i,
                first_multiline_name(m.schema.columns) == Option::Some(mcol@),
                extra_text_requires(m.schema, original),
                original == m.events,
            decreases events@.len(),
        {
            let ghost before = events@;
            let rec = events.remove(0);
            proof {
                assert(rec == before[0]);
                assert(records_model(before)[0] == before[0]@);
                assert(original.skip(i as int)[0] == original[i as int]);
                assert(rec@ == original[i as int]);
                assert forall|k: int|
                    0 <= k < events@.len() implies records_model(events@)[k] == original.skip(
                    i + 1,
                )[k] by {
                    assert(events@[k] == before[k + 1]);
                    assert(records_model(before)[k + 1] == before[k + 1]@);
                    assert(original.skip(i as int)[k + 1] == original[i + 1 + k]);
                }
                assert(records_model(events@) =~= original.skip(i + 1));
                assert(extra_text_requires(m.schema, original));
                assert(original[i as int].extra_text is Some ==> crate::values::lookup(
                    original[i as int].values,
                    mcol@,
                ) matches Option::Some(ValueModel::Str(_)));
            }
            let ghost out_before = out@;
            let merged = merge_one_record(rec, &mcol);
            out.push(merged);
            proof {
                assert forall|k: int|
                    0 <= k < i + 1 implies records_model(out@)[k] == spec_merge_extra(
                    m.schema,
                    original,
                )[k] by {
                    assert(spec_merge_extra(m.schema, original)[k] == merge_record(
                        original[k],
                        mcol@,
                    ));
                    if k < i {
                        assert(out@[k] == out_before[k]);
                        assert(records_model(out_before)[k] == out_before[k]@);
                    } else {
                        assert(out@[k] == merged);
                    }
                }
            }
            i = i + 1;
        }
        proof {
            assert(records_model(out@) =~= spec_merge_extra(m.schema, original));
        }
        TableResult { columns: columns, events: out, schema, statement }
    }
}

// ---------------------------------------------------------------------------
// Project.
//
// The SELECT list re-keys each record to exactly the requested output
// columns, in the requested order: a plain identifier keeps its name, an
// aliased identifier moves the value under the alias, and a wildcard is a
// distinct case that bypasses re-keying altogether.  Anything else is an
// invalid query, as is a duplicate output name, which would silently
// overwrite a value.
// ---------------------------------------------------------------------------

/// What one projection item asks for: a (source, output) column pair.
pub open spec fn item_pair(it: SelectItemModel) -> Option<(Seq<char>, Seq<char>)> {
    match it {
        SelectItemModel::UnnamedExpr(e) => match e {
            ExprModel::Identifier(c) => Option::Some((c, c)),
            _ => Option::None,
        },
        SelectItemModel::ExprWithAlias { expr, alias } => match expr {
            ExprModel::Identifier(c) => Option::Some((c, alias)),
            _ => Option::None,
        },
        _ => Option::None,
    }
}

/// The (source, output) pairs of a projection list whose items all name
/// columns.
pub open spec fn pair_items(items: Seq<SelectItemModel>) -> Seq<(Seq<char>, Seq<char>)> {
    items.map_values(|it: SelectItemModel| item_pair(it)->Some_0)
}

pub enum ProjectionPlan {
    Invalid,
    Wildcard,
    Columns(Seq<(Seq<char>, Seq<char>)>),
}

/// Reads the projection left to right: the first unsupported item makes the
/// query invalid, a wildcard before that makes the projection the identity,
/// and otherwise the items name the output columns.
pub open spec fn scan_projection(items: Seq<SelectItemModel>) -> ProjectionPlan
    decreases items.len(),
{
    if items.len() == 0 {
        ProjectionPlan::Columns(Seq::empty())
    } else if items[0] is Wildcard {
        ProjectionPlan::Wildcard
    } else {
        match item_pair(items[0]) {
            Option::None => ProjectionPlan::Invalid,
            Option::Some(p) => match scan_projection(items.drop_first()) {
                ProjectionPlan::Invalid => ProjectionPlan::Invalid,
                ProjectionPlan::Wildcard => ProjectionPlan::Wildcard,
                ProjectionPlan::Columns(rest) => ProjectionPlan::Columns(seq![p] + rest),
            },
        }
    }
}

pub proof fn lemma_scan_projection_skip(items: Seq<SelectItemModel>, i: int)
    requires
        0 <= i <= items.len(),
        forall|k: int| 0 <= k < i ==> item_pair(#[trigger] items[k]) is Some,
    ensures
        scan_projection(items) == match scan_projection(items.skip(i)) {
            ProjectionPlan::Invalid => ProjectionPlan::Invalid,
            ProjectionPlan::Wildcard => ProjectionPlan::Wildcard,
            ProjectionPlan::Columns(rest) => ProjectionPlan::Columns(
                pair_items(items.take(i)) + rest,
            ),
        },
    decreases i,
{
    if i > 0 {
        assert(items.drop_first().skip(i - 1) =~= items.skip(i));
        lemma_scan_projection_skip(items.drop_first(), i - 1);
        match scan_projection(items.skip(i)) {
            ProjectionPlan::Columns(rest) => {
                let p = item_pair(items[0])->Some_0;
                assert(items.drop_first().take(i - 1) =~= items.take(i).drop_first());
                assert(pair_items(items.take(i)) =~= seq![p] + pair_items(
                    items.drop_first().take(i - 1),
                ));
                assert(seq![p] + (pair_items(items.drop_first().take(i - 1)) + rest) =~= pair_items(
                    items.take(i),
                ) + rest);
            },
            _ => {},
        }
    } else {
        assert(items.skip(0) =~= items);
    }
}

/// No two projection items may write the same output column.
pub open spec fn distinct_outputs(pairs: Seq<(Seq<char>, Seq<char>)>) -> bool {
    forall|k1: int, k2: int| 0 <= k1 < k2 < pairs.len() ==> (#[trigger] pairs[k1]).1 != (
    #[trigger] pairs[k2]).1
}

/// One record re-keyed to the requested output columns, in order.
pub open spec fn project_record(rec: RecordModel, pairs: Seq<(Seq<char>, Seq<char>)>) -> RecordModel {
    RecordModel {
        values: pairs.map_values(
            |p: (Seq<char>, Seq<char>)|
                (
                    p.1,
                    match crate::values::lookup(rec.values, p.0) {
                        Option::Some(v) => v,
                        Option::None => ValueModel::Bool(false),
                    },
                ),
        ),
        extra_text: rec.extra_text,
    }
}

/// The models of collected (source, output) name pairs.
pub open spec fn string_pairs_model(s: Seq<(String, String)>) -> Seq<(Seq<char>, Seq<char>)> {
    s.map_values(|p: (String, String)| (p.0@, p.1@))
}

/// The outputs of the plan's pairs, in projection order.
pub open spec fn output_names(pairs: Seq<(Seq<char>, Seq<char>)>) -> Seq<Seq<char>> {
    pairs.map_values(|p: (Seq<char>, Seq<char>)| p.1)
}

/// What the projection stage returns.  An empty record set keeps the active
/// column list (the full schema list) even under a narrowing projection.
pub open spec fn spec_project(m: TableResultModel) -> Result<
    (Seq<Seq<char>>, Seq<RecordModel>),
    ErrorModel,
> {
    match m.statement {
        Option::Some(StatementModel::Query(q)) => match q.body {
            SetExprModel::Select(sel) => match scan_projection(sel.projection) {
                ProjectionPlan::Invalid => Result::Err(
                    ErrorModel::InvalidQuery(m.statement->Some_0),
                ),
                ProjectionPlan::Wildcard => Result::Ok((m.columns, m.events)),
                ProjectionPlan::Columns(pairs) => if !distinct_outputs(pairs) {
                    Result::Err(ErrorModel::InvalidQuery(m.statement->Some_0))
                } else if m.events.len() == 0 {
                    Result::Ok((m.columns, m.events))
                } else {
                    Result::Ok(
                        (
                            output_names(pairs),
                            m.events.map_values(|r: RecordModel| project_record(r, pairs)),
                        ),
                    )
                },
            },
            SetExprModel::Other => Result::Err(ErrorModel::InvalidQuery(m.statement->Some_0)),
        },
        _ => Result::Ok((m.columns, m.events)),
    }
}

/// Every projected source column must exist in every record.  Naming an
/// unknown column is a caller error outside the engine's validation
/// responsibility.
pub open spec fn project_requires(m: TableResultModel) -> bool {
    match m.statement {
        Option::Some(StatementModel::Query(q)) => match q.body {
            SetExprModel::Select(sel) => match scan_projection(sel.projection) {
                ProjectionPlan::Columns(pairs) => distinct_outputs(pairs) ==> forall|
                    i: int,
                    k: int,
                |
                    0 <= i < m.events.len() && 0 <= k < pairs.len() ==> crate::values::lookup(
                        (#[trigger] m.events[i]).values,
                        (#[trigger] pairs[k]).0,
                    ) is Some,
                _ => true,
            },
            _ => true,
        },
        _ => true,
    }
}

/// A wildcard projection is a no-op: the output columns equal the active
/// column list and the output records equal the input records exactly.
pub proof fn lemma_wildcard_projection_identity(m: TableResultModel)
    requires
        m.statement is Some,
        m.statement->Some_0 is Query,
        m.statement->Some_0->Query_0.body is Select,
        m.statement->Some_0->Query_0.body->Select_0.projection == seq![
            SelectItemModel::Wildcard,
        ],
    ensures
        spec_project(m) == Result::Ok::<_, ErrorModel>((m.columns, m.events)),
{
    let items = m.statement->Some_0->Query_0.body->Select_0.projection;
    assert(items[0] is Wildcard);
}

/// Projects one record to the plan's output columns.
fn project_one_record(rec: Record, pairs: &Vec<(String, String)>) -> (r: Record)
    requires
        forall|k: int|
            0 <= k < pairs@.len() ==> crate::values::lookup(
                rec@.values,
                (#[trigger] string_pairs_model(pairs@)[k]).0,
            ) is Some,
    ensures
        r@ == project_record(rec@, string_pairs_model(pairs@)),
{
    let ghost plan = string_pairs_model(pairs@);
    let mut values: Vec<(String, TypedValue)> = Vec::new();
    let n = pairs.len();
    for k in 0..n
        invariant
            n == pairs.len(),
            plan == string_pairs_model(pairs@),
            forall|k2: int|
                0 <= k2 < plan.len() ==> crate::values::lookup(
                    rec@.values,
                    (#[trigger] plan[k2]).0,
                ) is Some,
            values@.len() == k,
            forall|k2: int|
                0 <= k2 < k ==> pairs_model(values@)[k2] == project_record(rec@, plan).values[k2],
    {
        proof {
            assert(plan[k as int] == (pairs@[k as int].0@, pairs@[k as int].1@));
        }
        let value = match rec.get(&pairs[k].0) {
            Option::Some(v) => v.duplicate(),
            Option::None => {
                proof {
                    assert(false);
                }
                TypedValue::Bool(false)
            },
        };
        let ghost before = values@;
        let out_name = pairs[k].1.clone();
        let ghost out_view = out_name@;
        let ghost val_view = value@;
        values.push((out_name, value));
        proof {
            assert forall|k2: int|
                0 <= k2 < k + 1 implies pairs_model(values@)[k2] == project_record(
                rec@,
                plan,
            ).values[k2] by {
                if k2 < k {
                    assert(values@[k2] == before[k2]);
                    assert(pairs_model(before)[k2] == (before[k2].0@, before[k2].1@));
                } else {
                    assert(values@[k2].0@ == out_view);
                    assert(values@[k2].1@ == val_view);
                    assert(pairs_model(values@)[k2] == (values@[k2].0@, values@[k2].1@));
                }
            }
        }
    }
    proof {
        assert(pairs_model(values@) =~= project_record(rec@, plan).values);
    }
    Record { values, extra_text: rec.extra_text }
}

impl TableResult {
    /// Re-keys every record to the SELECT list's output columns, replacing
    /// the active column list; a wildcard is the identity, and an empty
    /// record set keeps the schema's column list.
    #[verifier::loop_isolation(false)]
    #[verifier::rlimit(60)]
    fn project(self) -> (r: Result<TableResult, Error>)
        requires
            project_requires(self@),
        ensures
            match r {
                Result::Ok(t) => spec_project(self@) == Result::Ok::<_, ErrorModel>(
                    (t@.columns, t@.events),
                ) && t@.schema == self@.schema && t@.statement == self@.statement,
                Result::Err(e) => spec_project(self@) == Result::Err::<
                    (Seq<Seq<char>>, Seq<RecordModel>),
                    _,
                >(e@),
            },
    {
        let ghost m = self@;
        let pairs: Vec<(String, String)> = match &self.statement {
            Option::None => {
                return Result::Ok(self);
            },
            Option::Some(stmt) => match stmt {
                Statement::Query(query) => match &query.body {
                    SetExpr::Select(select) => {
                        let items = &select.projection;
                        let ghost items_model = crate::query::items_model(select.projection@);
                        let mut pairs: Vec<(String, String)> = Vec::new();
                        let n = items.len();
                        let mut i: usize = 0;
                        while i < n
                            invariant
                                n == items.len(),
                                items_model == crate::query::items_model(items@),
                                i <= n,
                                pairs@.len() == i,
                                forall|k: int|
                                    0 <= k < i ==> item_pair(#[trigger] items_model[k])
                                        == Option::Some(string_pairs_model(pairs@)[k]),
                            decreases n - i,
                        {
                            proof {
                                assert(items_model[i as int] == items@[i as int]@);
                            }
                            let ghost before = pairs@;
                            match &items[i] {
                                SelectItem::Wildcard => {
                                    proof {
                                        lemma_scan_projection_skip(items_model, i as int);
                                        assert(items_model.skip(i as int)[0]
                                            == items_model[i as int]);
                                    }
                                    return Result::Ok(self);
                                },
                                SelectItem::UnnamedExpr(e) => match e {
                                    Expr::Identifier(c) => {
                                        pairs.push((c.clone(), c.clone()));
                                    },
                                    _ => {
                                        proof {
                                            lemma_scan_projection_skip(items_model, i as int);
                                            assert(items_model.skip(i as int)[0]
                                                == items_model[i as int]);
                                        }
                                        return Result::Err(Error::InvalidQuery(stmt.duplicate()));
                                    },
                                },
                                SelectItem::ExprWithAlias { expr, alias } => match expr {
                                    Expr::Identifier(c) => {
                                        pairs.push((c.clone(), alias.clone()));
                                    },
                                    _ => {
                                        proof {
                                            lemma_scan_projection_skip(items_model, i as int);
                                            assert(items_model.skip(i as int)[0]
                                                == items_model[i as int]);
                                        }
                                        return Result::Err(Error::InvalidQuery(stmt.duplicate()));
                                    },
                                },
                                SelectItem::Other => {
                                    proof {
                                        lemma_scan_projection_skip(items_model, i as int);
                                        assert(items_model.skip(i as int)[0]
                                            == items_model[i as int]);
                                    }
                                    return Result::Err(Error::InvalidQuery(stmt.duplicate()));
                                },
                            }
                            proof {
                                assert forall|k: int|
                                    0 <= k < i + 1 implies item_pair(#[trigger] items_model[k])
                                    == Option::Some(string_pairs_model(pairs@)[k]) by {
                                    if k < i {
                                        assert(pairs@[k] == before[k]);
                                        assert(string_pairs_model(before)[k] == (
                                            before[k].0@,
                                            before[k].1@,
                                        ));
                                    } else {
                                        assert(string_pairs_model(pairs@)[k] == (
                                            pairs@[k].0@,
                                            pairs@[k].1@,
                                        ));
                                    }
                                }
                            }
                            i = i + 1;
                        }
                        proof {
                            lemma_scan_projection_skip(items_model, n as int);
                            assert(items_model.skip(n as int) =~= Seq::empty());
                            assert(items_model.take(n as int) =~= items_model);
                            assert(pair_items(items_model) =~= string_pairs_model(pairs@));
                            assert(pair_items(items_model) + Seq::empty() =~= string_pairs_model(
                                pairs@,
                            ));
                            assert(scan_projection(items_model) == ProjectionPlan::Columns(
                                string_pairs_model(pairs@),
                            ));
                        }
                        // Reject a projection that writes one output column twice.
                        let np = pairs.len();
                        for a in 0..np
                            invariant
                                np == pairs.len(),
                                forall|k1: int, k2: int|
                                    0 <= k1 < k2 < a ==> (#[trigger] string_pairs_model(
                                        pairs@,
                                    )[k1]).1 != (#[trigger] string_pairs_model(pairs@)[k2]).1,
                                forall|k1: int, k2: int|
                                    0 <= k1 < a && k1 < k2 < np ==> (#[trigger] string_pairs_model(
                                        pairs@,
                                    )[k1]).1 != (#[trigger] string_pairs_model(pairs@)[k2]).1,
                        {
                            for b in (a + 1)..np
                                invariant
                                    np == pairs.len(),
                                    a < np,
                                    forall|k2: int|
                                        a < k2 < b ==> (#[trigger] string_pairs_model(
                                            pairs@,
                                        )[k2]).1 != string_pairs_model(pairs@)[a as int].1,
                            {
                                proof {
                                    assert(string_pairs_model(pairs@)[a as int] == (
                                        pairs@[a as int].0@,
                                        pairs@[a as int].1@,
                                    ));
                                    assert(string_pairs_model(pairs@)[b as int] == (
                                        pairs@[b as int].0@,
                                        pairs@[b as int].1@,
                                    ));
                                }
                                if pairs[a].1 == pairs[b].1 {
                                    return Result::Err(Error::InvalidQuery(stmt.duplicate()));
                                }
                            }
                        }
                        proof {
                            assert(distinct_outputs(string_pairs_model(pairs@)));
                        }
                        pairs
                    },
                    SetExpr::Other => {
                        return Result::Err(Error::InvalidQuery(stmt.duplicate()));
                    },
                },
                Statement::Other => {
                    return Result::Ok(self);
                },
            },
        };
        if self.events.len() == 0 {
            return Result::Ok(self);
        }
        let ghost plan = string_pairs_model(pairs@);
        let TableResult { columns, events, schema, statement } = self;
        let ghost original = records_model(events@);
        // The new column list: the outputs, in projection order.
        let mut new_columns: Vec<String> = Vec::new();
        let np = pairs.len();
        for k in 0..np
            invariant
                np == pairs.len(),
                plan == string_pairs_model(pairs@),
                new_columns@.len() == k,
                forall|k2: int|
                    0 <= k2 < k ==> names_model(new_columns@)[k2] == output_names(plan)[k2],
        {
            let ghost before = new_columns@;
            let out_name = pairs[k].1.clone();
            let ghost out_view = out_name@;
            new_columns.push(out_name);
            proof {
                assert forall|k2: int|
                    0 <= k2 < k + 1 implies names_model(new_columns@)[k2] == output_names(
                    plan,
                )[k2] by {
                    if k2 < k {
                        assert(new_columns@[k2] == before[k2]);
                    } else {
                        assert(new_columns@[k2]@ == out_view);
                        assert(plan[k2] == (pairs@[k2].0@, pairs@[k2].1@));
                    }
                }
            }
        }
        proof {
            assert(names_model(new_columns@) =~= output_names(plan));
        }
        // Re-key every record.
        let mut events = events;
        let mut out: Vec<Record> = Vec::new();
        let mut i: usize = 0;
        let total = events.len();
        proof {
            assert(original.len() == total as int);
        }
        while events.len() > 0
            invariant
                i + events@.len() == total as int,
                original.len() == total as int,
                records_model(events@) =~= original.skip(i as int),
                i <= total,
                plan == string_pairs_model(pairs@),
                forall|i2: int, k: int|
                    0 <= i2 < original.len() && 0 <= k < plan.len() ==> crate::values::lookup(
                        (#[trigger] original[i2]).values,
                        (#[trigger] plan[k]).0,
                    ) is Some,
                out@.len() == i,
                forall|k: int|
                    0 <= k < i ==> records_model(out@)[k] == project_record(original[k], plan),
            decreases events@.len(),
        {
            let ghost before = events@;
            let rec = events.remove(0);
            proof {
                assert(rec == before[0]);
                assert(records_model(before)[0] == before[0]@);
                assert(original.skip(i as int)[0] == original[i as int]);
                assert(rec@ == original[i as int]);
                assert forall|k: int|
                    0 <= k < events@.len() implies records_model(events@)[k] == original.skip(
                    i + 1,
                )[k] by {
                    assert(events@[k] == before[k + 1]);
                    assert(records_model(before)[k + 1] == before[k + 1]@);
                    assert(original.skip(i as int)[k + 1] == original[i + 1 + k]);
                }
                assert(records_model(events@) =~= original.skip(i + 1));
            }
            let ghost out_before = out@;
            let projected = project_one_record(rec, &pairs);
            out.push(projected);
            proof {
                assert forall|k: int|
                    0 <= k < i + 1 implies records_model(out@)[k] == project_record(
                    original[k],
                    plan,
                ) by {
                    if k < i {
                        assert(out@[k] == out_before[k]);
                        assert(records_model(out_before)[k] == out_before[k]@);
                    } else {
                        assert(out@[k] == projected);
                    }
                }
            }
            i = i + 1;
        }
        proof {
            assert(records_model(out@) =~= original.map_values(
                |r: RecordModel| project_record(r, plan),
            ));
        }
        Result::Ok(TableResult { columns: new_columns, events: out, schema, statement })
    }
}

// ---------------------------------------------------------------------------
// OrderBy.
//
// The ORDER BY keys impose a total order by lexicographic key priority:
// earlier keys decide first, later keys resolve ties, and a descending key
// reverses only its own contribution.  Only plain column identifiers are
// supported as keys; any other key expression is an invalid query.
// ---------------------------------------------------------------------------
use crate::query::{OrderByExpr, OrderByModel};
use crate::values::{comparable, lookup, value_eq, value_lt};

pub open spec fn asc_of(k: OrderByModel) -> bool {
    match k.asc {
        Option::Some(b) => b,
        Option::None => true,
    }
}

/// The ORDER BY keys as (column, ascending) pairs, `None` when a key is not
/// a plain column identifier.
pub open spec fn key_columns(keys: Seq<OrderByModel>) -> Option<Seq<(Seq<char>, bool)>>
    decreases keys.len(),
{
    if keys.len() == 0 {
        Option::Some(Seq::empty())
    } else {
        match keys[0].expr {
            ExprModel::Identifier(c) => match key_columns(keys.drop_first()) {
                Option::Some(rest) => Option::Some(seq![(c, asc_of(keys[0]))] + rest),
                Option::None => Option::None,
            },
            _ => Option::None,
        }
    }
}

pub proof fn lemma_key_columns_skip(keys: Seq<OrderByModel>, collected: Seq<(Seq<char>, bool)>, i: int)
    requires
        0 <= i <= keys.len(),
        collected.len() == i,
        forall|k: int|
            0 <= k < i ==> (#[trigger] keys[k]).expr is Identifier && collected[k] == (
                keys[k].expr->Identifier_0,
                asc_of(keys[k]),
            ),
    ensures
        key_columns(keys) == match key_columns(keys.skip(i)) {
            Option::Some(rest) => Option::Some(collected + rest),
            Option::None => Option::<Seq<(Seq<char>, bool)>>::None,
        },
    decreases i,
{
    if i > 0 {
        assert(keys.drop_first().skip(i - 1) =~= keys.skip(i));
        lemma_key_columns_skip(keys.drop_first(), collected.drop_first(), i - 1);
        assert forall|k: int|
            0 <= k < i - 1 implies (#[trigger] keys.drop_first()[k]).expr is Identifier
            && collected.drop_first()[k] == (
            keys.drop_first()[k].expr->Identifier_0,
            asc_of(keys.drop_first()[k]),
        ) by {
            assert(keys.drop_first()[k] == keys[k + 1]);
            assert(collected.drop_first()[k] == collected[k + 1]);
        }
        match key_columns(keys.skip(i)) {
            Option::Some(rest) => {
                assert(seq![collected[0]] + (collected.drop_first() + rest) =~= collected + rest);
            },
            Option::None => {},
        }
    } else {
        assert(keys.skip(0) =~= keys);
        match key_columns(keys) {
            Option::Some(rest) => {
                assert(collected + rest =~= rest);
            },
            Option::None => {},
        }
    }
}

/// The value a record holds in an ORDER BY column.
pub open spec fn value_at(rec: RecordModel, col: Seq<char>) -> ValueModel {
    match lookup(rec.values, col) {
        Option::Some(v) => v,
        Option::None => ValueModel::Bool(false),
    }
}

/// One key decides in its own direction.
pub open spec fn key_lt(key: (Seq<char>, bool), a: RecordModel, b: RecordModel) -> bool {
    if key.1 {
        value_lt(value_at(a, key.0), value_at(b, key.0))
    } else {
        value_lt(value_at(b, key.0), value_at(a, key.0))
    }
}

pub open spec fn key_eq(key: (Seq<char>, bool), a: RecordModel, b: RecordModel) -> bool {
    value_eq(value_at(a, key.0), value_at(b, key.0))
}

/// The record order the keys impose: the first key that decides wins, ties
/// fall through to the later keys, and records tying on every key are
/// mutually ordered both ways.
pub open spec fn rec_le(keys: Seq<(Seq<char>, bool)>, a: RecordModel, b: RecordModel) -> bool
    decreases keys.len(),
{
    if keys.len() == 0 {
        true
    } else if key_lt(keys[0], a, b) {
        true
    } else if key_eq(keys[0], a, b) {
        rec_le(keys.drop_first(), a, b)
    } else {
        false
    }
}

/// Both records hold every key column, with mutually comparable values.
pub open spec fn rec_comparable(
    keys: Seq<(Seq<char>, bool)>,
    a: RecordModel,
    b: RecordModel,
) -> bool {
    forall|k: int|
        0 <= k < keys.len() ==> {
            &&& lookup(a.values, (#[trigger] keys[k]).0) is Some
            &&& lookup(b.values, keys[k].0) is Some
            &&& comparable(value_at(a, keys[k].0), value_at(b, keys[k].0))
        }
}

/// All records of the set can be ordered against one another on the keys.
pub open spec fn orderable(keys: Seq<(Seq<char>, bool)>, events: Seq<RecordModel>) -> bool {
    forall|i: int, j: int|
        0 <= i < events.len() && 0 <= j < events.len() ==> rec_comparable(
            keys,
            #[trigger] events[i],
            #[trigger] events[j],
        )
}

pub proof fn lemma_rec_comparable_drop(keys: Seq<(Seq<char>, bool)>, a: RecordModel, b: RecordModel)
    requires
        keys.len() > 0,
        rec_comparable(keys, a, b),
    ensures
        rec_comparable(keys.drop_first(), a, b),
{
    assert forall|k: int|
        0 <= k < keys.drop_first().len() implies {
        &&& lookup(a.values, (#[trigger] keys.drop_first()[k]).0) is Some
        &&& lookup(b.values, keys.drop_first()[k].0) is Some
        &&& comparable(value_at(a, keys.drop_first()[k].0), value_at(b, keys.drop_first()[k].0))
    } by {
        assert(keys.drop_first()[k] == keys[k + 1]);
    }
}

/// Two mutually comparable records are ordered at least one way.
pub proof fn lemma_rec_le_total(keys: Seq<(Seq<char>, bool)>, a: RecordModel, b: RecordModel)
    requires
        rec_comparable(keys, a, b),
    ensures
        rec_le(keys, a, b) || rec_le(keys, b, a),
    decreases keys.len(),
{
    if keys.len() > 0 {
        let va = value_at(a, keys[0].0);
        let vb = value_at(b, keys[0].0);
        crate::values::lemma_value_trichotomy(va, vb);
        if value_eq(va, vb) {
            crate::values::lemma_value_trichotomy(vb, va);
            lemma_rec_comparable_drop(keys, a, b);
            assert forall|k: int|
                0 <= k < keys.drop_first().len() implies {
                &&& lookup(b.values, (#[trigger] keys.drop_first()[k]).0) is Some
                &&& lookup(a.values, keys.drop_first()[k].0) is Some
                &&& comparable(value_at(b, keys.drop_first()[k].0), value_at(
                    a,
                    keys.drop_first()[k].0,
                ))
            } by {
                assert(keys.drop_first()[k] == keys[k + 1]);
                crate::values::lemma_value_trichotomy(
                    value_at(a, keys[k + 1].0),
                    value_at(b, keys[k + 1].0),
                );
            }
            lemma_rec_le_total(keys.drop_first(), a, b);
        }
    }
}

/// The record order is transitive over mutually comparable records.
pub proof fn lemma_rec_le_trans(
    keys: Seq<(Seq<char>, bool)>,
    a: RecordModel,
    b: RecordModel,
    c: RecordModel,
)
    requires
        rec_comparable(keys, a, b),
        rec_comparable(keys, b, c),
        rec_comparable(keys, a, c),
        rec_le(keys, a, b),
        rec_le(keys, b, c),
    ensures
        rec_le(keys, a, c),
    decreases keys.len(),
{
    if keys.len() > 0 {
        let va = value_at(a, keys[0].0);
        let vb = value_at(b, keys[0].0);
        let vc = value_at(c, keys[0].0);
        crate::values::lemma_value_trichotomy(va, vb);
        crate::values::lemma_value_trichotomy(vb, vc);
        crate::values::lemma_value_trichotomy(va, vc);
        if value_eq(va, vb) && value_eq(vb, vc) {
            crate::values::lemma_value_eq_substitution(vb, vc, va);
            crate::values::lemma_value_eq_substitution(va, vb, vc);
            lemma_rec_comparable_drop(keys, a, b);
            lemma_rec_comparable_drop(keys, b, c);
            lemma_rec_comparable_drop(keys, a, c);
            lemma_rec_le_trans(keys.drop_first(), a, b, c);
        } else {
            if value_eq(va, vb) {
                crate::values::lemma_value_eq_substitution(va, vb, vc);
            }
            if value_eq(vb, vc) {
                crate::values::lemma_value_eq_substitution(vb, vc, va);
            }
            if value_lt(va, vb) && value_lt(vb, vc) {
                crate::values::lemma_value_lt_trans(va, vb, vc);
            }
            if value_lt(vc, vb) && value_lt(vb, va) {
                crate::values::lemma_value_lt_trans(vc, vb, va);
            }
        }
    }
}

/// Keys on which the records tie decide nothing: they can be dropped.
pub proof fn lemma_rec_le_skip(
    keys: Seq<(Seq<char>, bool)>,
    a: RecordModel,
    b: RecordModel,
    i: int,
)
    requires
        0 <= i <= keys.len(),
        forall|j: int|
            0 <= j < i ==> !key_lt(#[trigger] keys[j], a, b) && key_eq(keys[j], a, b),
    ensures
        rec_le(keys, a, b) == rec_le(keys.skip(i), a, b),
    decreases i,
{
    if i > 0 {
        assert(keys.drop_first().skip(i - 1) =~= keys.skip(i));
        assert forall|j: int|
            0 <= j < i - 1 implies !key_lt(#[trigger] keys.drop_first()[j], a, b) && key_eq(
            keys.drop_first()[j],
            a,
            b,
        ) by {
            assert(keys.drop_first()[j] == keys[j + 1]);
        }
        lemma_rec_le_skip(keys.drop_first(), a, b, i - 1);
    } else {
        assert(keys.skip(0) =~= keys);
    }
}

/// Multi-key ORDER BY resolves ties using subsequent keys in order: when two
/// records tie on every key before position `k` and the key at `k` orders
/// them, that key alone decides, whatever the keys after it say.
pub proof fn lemma_tie_resolution(
    keys: Seq<(Seq<char>, bool)>,
    a: RecordModel,
    b: RecordModel,
    k: int,
)
    requires
        rec_comparable(keys, a, b),
        0 <= k < keys.len(),
        forall|j: int| 0 <= j < k ==> key_eq(#[trigger] keys[j], a, b),
        key_lt(keys[k], a, b),
    ensures
        rec_le(keys, a, b),
        !rec_le(keys, b, a),
{
    assert forall|j: int|
        0 <= j < k implies !key_lt(#[trigger] keys[j], a, b) && key_eq(keys[j], a, b) by {
        crate::values::lemma_value_trichotomy(value_at(a, keys[j].0), value_at(b, keys[j].0));
    }
    assert forall|j: int|
        0 <= j < k implies !key_lt(#[trigger] keys[j], b, a) && key_eq(keys[j], b, a) by {
        crate::values::lemma_value_trichotomy(value_at(a, keys[j].0), value_at(b, keys[j].0));
    }
    lemma_rec_le_skip(keys, a, b, k);
    lemma_rec_le_skip(keys, b, a, k);
    assert(keys.skip(k)[0] == keys[k]);
    crate::values::lemma_value_trichotomy(value_at(a, keys[k].0), value_at(b, keys[k].0));
    assert(rec_le(keys.skip(k), a, b));
    assert(!key_lt(keys[k], b, a) && !key_eq(keys[k], b, a));
    assert(!rec_le(keys.skip(k), b, a));
}

/// Records in key order: every pair, in sequence order, is ordered.
pub open spec fn sorted_by_keys(keys: Seq<(Seq<char>, bool)>, s: Seq<RecordModel>) -> bool {
    forall|i: int, j: int| 0 <= i < j < s.len() ==> rec_le(keys, s[i], s[j])
}

/// The models of collected (column, ascending) pairs.
pub open spec fn key_pairs_model(s: Seq<(String, bool)>) -> Seq<(Seq<char>, bool)> {
    s.map_values(|p: (String, bool)| (p.0@, p.1))
}

/// The ORDER BY outcome the statement asks for: no keys, keys, or an
/// unsupported key expression.
pub open spec fn spec_order_outcome(m: TableResultModel) -> Result<
    Option<Seq<(Seq<char>, bool)>>,
    ErrorModel,
> {
    match m.statement {
        Option::Some(StatementModel::Query(q)) => if q.order_by.len() == 0 {
            Result::Ok(Option::None)
        } else {
            match key_columns(q.order_by) {
                Option::Some(keys) => Result::Ok(Option::Some(keys)),
                Option::None => Result::Err(ErrorModel::InvalidQuery(m.statement->Some_0)),
            }
        },
        _ => Result::Ok(Option::None),
    }
}

pub open spec fn order_by_requires(m: TableResultModel) -> bool {
    match spec_order_outcome(m) {
        Result::Ok(Option::Some(keys)) => orderable(keys, m.events),
        _ => true,
    }
}

/// Models commute with inserting a record.
pub proof fn lemma_records_model_insert(s: Seq<Record>, i: int, r: Record)
    requires
        0 <= i <= s.len(),
    ensures
        records_model(s.insert(i, r)) == records_model(s).insert(i, r@),
{
    s.insert_ensures(i, r);
    records_model(s).insert_ensures(i, r@);
    assert(records_model(s.insert(i, r)) =~= records_model(s).insert(i, r@));
}

/// Two records of an orderable set are mutually comparable.
pub proof fn lemma_orderable_pair(
    keys: Seq<(Seq<char>, bool)>,
    events: Seq<RecordModel>,
    x: RecordModel,
    y: RecordModel,
)
    requires
        orderable(keys, events),
        events.contains(x),
        events.contains(y),
    ensures
        rec_comparable(keys, x, y),
{
    let i = choose|i: int| 0 <= i < events.len() && events[i] == x;
    let j = choose|j: int| 0 <= j < events.len() && events[j] == y;
    assert(rec_comparable(keys, events[i], events[j]));
}

/// Whether `a` orders at or before `b` on the keys, first key first.
fn rec_le_exec(keys: &Vec<(String, bool)>, a: &Record, b: &Record) -> (r: bool)
    requires
        rec_comparable(key_pairs_model(keys@), a@, b@),
    ensures
        r == rec_le(key_pairs_model(keys@), a@, b@),
{
    let ghost keysm = key_pairs_model(keys@);
    proof {
        assert(keysm.skip(0) =~= keysm);
    }
    let n = keys.len();
    for k in 0..n
        invariant
            n == keys.len(),
            keysm == key_pairs_model(keys@),
            rec_comparable(keysm, a@, b@),
            rec_le(keysm, a@, b@) == rec_le(keysm.skip(k as int), a@, b@),
        decreases n - k,
    {
        proof {
            assert(keysm[k as int] == (keys@[k as int].0@, keys@[k as int].1));
            assert(keysm.skip(k as int)[0] == keysm[k as int]);
            assert(keysm.skip(k as int).drop_first() =~= keysm.skip(k + 1));
        }
        let va = match a.get(&keys[k].0) {
            Option::Some(v) => v,
            Option::None => {
                proof {
                    assert(false);
                }
                return true;
            },
        };
        let vb = match b.get(&keys[k].0) {
            Option::Some(v) => v,
            Option::None => {
                proof {
                    assert(false);
                }
                return true;
            },
        };
        let asc = keys[k].1;
        let lt = if asc {
            crate::values::value_lt_exec(va, vb)
        } else {
            proof {
                crate::values::lemma_value_trichotomy(va@, vb@);
            }
            crate::values::value_lt_exec(vb, va)
        };
        if lt {
            return true;
        }
        let eq = crate::values::value_eq_exec(va, vb);
        if !eq {
            return false;
        }
    }
    proof {
        assert(keysm.skip(n as int) =~= Seq::empty());
    }
    true
}

/// The position where `rec` belongs in the sorted prefix: after everything
/// ordered at or before it.
#[verifier::loop_isolation(false)]
fn insertion_point(keys: &Vec<(String, bool)>, out: &Vec<Record>, rec: &Record) -> (pos: usize)
    requires
        forall|k: int|
            0 <= k < out@.len() ==> rec_comparable(
                key_pairs_model(keys@),
                #[trigger] records_model(out@)[k],
                rec@,
            ),
    ensures
        pos <= out@.len(),
        forall|k: int|
            0 <= k < pos ==> rec_le(key_pairs_model(keys@), #[trigger] records_model(out@)[k], rec@),
        pos < out@.len() ==> !rec_le(
            key_pairs_model(keys@),
            records_model(out@)[pos as int],
            rec@,
        ),
{
    let n = out.len();
    for pos in 0..n
        invariant
            n == out.len(),
            forall|k: int|
                0 <= k < pos ==> rec_le(
                    key_pairs_model(keys@),
                    #[trigger] records_model(out@)[k],
                    rec@,
                ),
    {
        proof {
            assert(records_model(out@)[pos as int] == out@[pos as int]@);
        }
        if !rec_le_exec(keys, &out[pos], rec) {
            return pos;
        }
    }
    n
}

/// Sorts the records into key order by insertion, keeping the multiset of
/// records exactly.
fn sort_records(events: Vec<Record>, keys: &Vec<(String, bool)>) -> (r: Vec<Record>)
    requires
        orderable(key_pairs_model(keys@), records_model(events@)),
    ensures
        sorted_by_keys(key_pairs_model(keys@), records_model(r@)),
        records_model(r@).to_multiset() == records_model(events@).to_multiset(),
{
    broadcast use vstd::seq_lib::group_to_multiset_ensures;
    broadcast use vstd::multiset::group_multiset_axioms;

    let ghost keysm = key_pairs_model(keys@);
    let ghost original = records_model(events@);
    let mut events = events;
    let mut out: Vec<Record> = Vec::new();
    let total = events.len();
    proof {
        assert(original.len() == total as int);
        assert(records_model(out@) =~= Seq::<RecordModel>::empty());
        assert(records_model(out@).to_multiset().add(records_model(events@).to_multiset())
            =~= original.to_multiset());
    }
    let mut i: usize = 0;
    while events.len() > 0
        invariant
            i + events@.len() == total as int,
            original.len() == total as int,
            keysm == key_pairs_model(keys@),
            orderable(keysm, original),
            records_model(events@) =~= original.skip(i as int),
            i <= total,
            sorted_by_keys(keysm, records_model(out@)),
            records_model(out@).to_multiset().add(records_model(events@).to_multiset())
                == original.to_multiset(),
            forall|k: int|
                0 <= k < out@.len() ==> original.contains(#[trigger] records_model(out@)[k]),
        decreases events@.len(),
    {
        let ghost before = events@;
        let rec = events.remove(0);
        proof {
            assert(rec == before[0]);
            assert(records_model(before)[0] == before[0]@);
            assert(original.skip(i as int)[0] == original[i as int]);
            assert(rec@ == original[i as int]);
            assert(original.contains(rec@));
            assert forall|k: int|
                0 <= k < events@.len() implies records_model(events@)[k] == original.skip(
                i + 1,
            )[k] by {
                assert(events@[k] == before[k + 1]);
                assert(records_model(before)[k + 1] == before[k + 1]@);
                assert(original.skip(i as int)[k + 1] == original[i + 1 + k]);
            }
            assert(records_model(events@) =~= original.skip(i + 1));
            // The record in hand is comparable with everything sorted so far.
            assert forall|k: int|
                0 <= k < out@.len() implies rec_comparable(
                keysm,
                #[trigger] records_model(out@)[k],
                rec@,
            ) by {
                lemma_orderable_pair(keysm, original, records_model(out@)[k], rec@);
            }
            // The removal keeps the multiset balance.
            assert(records_model(before).remove(0) =~= records_model(events@));
            vstd::seq_lib::to_multiset_remove(records_model(before), 0);
            assert(records_model(events@).to_multiset() == records_model(
                before,
            ).to_multiset().remove(rec@));
            assert(records_model(before).contains(rec@));
            vstd::seq_lib::to_multiset_contains(records_model(before), rec@);
            assert(records_model(before).to_multiset().count(rec@) >= 1);
        }
        let ghost out_before = out@;
        let pos = insertion_point(keys, &out, &rec);
        out.insert(pos, rec);
        proof {
            assert(out@ == out_before.insert(pos as int, rec));
            lemma_records_model_insert(out_before, pos as int, rec);
            let new_model = records_model(out_before).insert(pos as int, rec@);
            records_model(out_before).insert_ensures(pos as int, rec@);
            // Order around the insertion point.
            if (pos as int) < records_model(out_before).len() {
                lemma_orderable_pair(
                    keysm,
                    original,
                    records_model(out_before)[pos as int],
                    rec@,
                );
                lemma_rec_le_total(keysm, records_model(out_before)[pos as int], rec@);
            }
            assert forall|k: int|
                pos <= k < records_model(out_before).len() implies rec_le(
                keysm,
                rec@,
                #[trigger] records_model(out_before)[k],
            ) by {
                lemma_orderable_pair(keysm, original, records_model(out_before)[k], rec@);
                lemma_rec_le_total(keysm, records_model(out_before)[k], rec@);
                if k > pos {
                    lemma_orderable_pair(
                        keysm,
                        original,
                        records_model(out_before)[pos as int],
                        rec@,
                    );
                    lemma_orderable_pair(
                        keysm,
                        original,
                        records_model(out_before)[pos as int],
                        records_model(out_before)[k],
                    );
                    lemma_rec_le_trans(
                        keysm,
                        rec@,
                        records_model(out_before)[pos as int],
                        records_model(out_before)[k],
                    );
                }
            }
            assert forall|i1: int, j1: int|
                0 <= i1 < j1 < new_model.len() implies rec_le(
                keysm,
                new_model[i1],
                new_model[j1],
            ) by {
                if i1 < pos && j1 < pos {
                    assert(new_model[i1] == records_model(out_before)[i1]);
                    assert(new_model[j1] == records_model(out_before)[j1]);
                } else if i1 < pos && j1 == pos {
                    assert(new_model[i1] == records_model(out_before)[i1]);
                    assert(new_model[j1] == rec@);
                } else if i1 < pos {
                    assert(new_model[i1] == records_model(out_before)[i1]);
                    assert(new_model[j1] == records_model(out_before)[j1 - 1]);
                } else if i1 == pos {
                    assert(new_model[i1] == rec@);
                    assert(new_model[j1] == records_model(out_before)[j1 - 1]);
                } else {
                    assert(new_model[i1] == records_model(out_before)[i1 - 1]);
                    assert(new_model[j1] == records_model(out_before)[j1 - 1]);
                }
            }
            assert(sorted_by_keys(keysm, records_model(out@)));
            // The insertion keeps the multiset balance.
            vstd::seq_lib::to_multiset_insert(records_model(out_before), pos as int, rec@);
            assert(records_model(out@).to_multiset() == records_model(
                out_before,
            ).to_multiset().insert(rec@));
            assert(records_model(out@).to_multiset().add(records_model(events@).to_multiset())
                =~= original.to_multiset());
            // Membership carries over.
            assert forall|k: int|
                0 <= k < out@.len() implies original.contains(
                #[trigger] records_model(out@)[k],
            ) by {
                if k < pos {
                    assert(new_model[k] == records_model(out_before)[k]);
                } else if k == pos {
                    assert(new_model[k] == rec@);
                } else {
                    assert(new_model[k] == records_model(out_before)[k - 1]);
                }
            }
        }
        i = i + 1;
    }
    proof {
        assert(records_model(events@).to_multiset() =~= Seq::<RecordModel>::empty().to_multiset());
        assert(records_model(out@).to_multiset() =~= original.to_multiset());
    }
    out
}

impl TableResult {
    /// Imposes the ORDER BY order on the records: a total order by
    /// lexicographic key priority, ascending by default, each descending
    /// key reversing only its own contribution.  Absent ORDER BY is the
    /// identity.
    #[verifier::loop_isolation(false)]
    fn order_by(self) -> (r: Result<TableResult, Error>)
        requires
            order_by_requires(self@),
        ensures
            match r {
                Result::Ok(t) => t@.columns == self@.columns && t@.schema == self@.schema
                    && t@.statement == self@.statement && match spec_order_outcome(self@) {
                    Result::Ok(Option::None) => t@.events == self@.events,
                    Result::Ok(Option::Some(keys)) => sorted_by_keys(keys, t@.events)
                        && t@.events.to_multiset() == self@.events.to_multiset(),
                    Result::Err(_) => false,
                },
                Result::Err(e) => spec_order_outcome(self@) == Result::Err::<
                    Option<Seq<(Seq<char>, bool)>>,
                    _,
                >(e@),
            },
    {
        let ghost m = self@;
        let keys: Vec<(String, bool)> = match &self.statement {
            Option::None => {
                return Result::Ok(self);
            },
            Option::Some(stmt) => match stmt {
                Statement::Query(query) => {
                    if query.order_by.len() == 0 {
                        return Result::Ok(self);
                    }
                    let ghost keys_model = crate::query::keys_model(query.order_by@);
                    let mut keys: Vec<(String, bool)> = Vec::new();
                    let n = query.order_by.len();
                    let mut k: usize = 0;
                    while k < n
                        invariant
                            n == query.order_by.len(),
                            keys_model == crate::query::keys_model(query.order_by@),
                            k <= n,
                            keys@.len() == k,
                            forall|k2: int|
                                0 <= k2 < k ==> (#[trigger] keys_model[k2]).expr is Identifier
                                    && key_pairs_model(keys@)[k2] == (
                                keys_model[k2].expr->Identifier_0,
                                asc_of(keys_model[k2]),
                            ),
                        decreases n - k,
                    {
                        proof {
                            assert(keys_model[k as int] == query.order_by@[k as int]@);
                        }
                        let key = &query.order_by[k];
                        let ghost before = keys@;
                        match &key.expr {
                            Expr::Identifier(c) => {
                                let asc = match key.asc {
                                    Option::Some(b) => b,
                                    Option::None => true,
                                };
                                let name = c.clone();
                                let ghost name_view = name@;
                                keys.push((name, asc));
                                proof {
                                    assert forall|k2: int|
                                        0 <= k2 < k + 1 implies (
                                    #[trigger] keys_model[k2]).expr is Identifier
                                        && key_pairs_model(keys@)[k2] == (
                                    keys_model[k2].expr->Identifier_0,
                                    asc_of(keys_model[k2]),
                                    ) by {
                                        if k2 < k {
                                            assert(keys@[k2] == before[k2]);
                                            assert(key_pairs_model(before)[k2] == (
                                                before[k2].0@,
                                                before[k2].1,
                                            ));
                                        } else {
                                            assert(keys@[k2].0@ == name_view);
                                            assert(key_pairs_model(keys@)[k2] == (
                                                keys@[k2].0@,
                                                keys@[k2].1,
                                            ));
                                        }
                                    }
                                }
                            },
                            _ => {
                                proof {
                                    lemma_key_columns_skip(
                                        keys_model,
                                        key_pairs_model(keys@),
                                        k as int,
                                    );
                                    assert(keys_model.skip(k as int)[0] == keys_model[k as int]);
                                }
                                return Result::Err(Error::InvalidQuery(stmt.duplicate()));
                            },
                        }
                        k = k + 1;
                    }
                    proof {
                        lemma_key_columns_skip(keys_model, key_pairs_model(keys@), n as int);
                        assert(keys_model.skip(n as int) =~= Seq::empty());
                        assert(key_columns(keys_model) == Option::Some(
                            key_pairs_model(keys@) + Seq::empty(),
                        ));
                        assert(key_pairs_model(keys@) + Seq::empty() =~= key_pairs_model(keys@));
                    }
                    keys
                },
                Statement::Other => {
                    return Result::Ok(self);
                },
            },
        };
        let TableResult { columns, events, schema, statement } = self;
        let events = sort_records(events, &keys);
        Result::Ok(TableResult { columns, events, schema, statement })
    }
}

// ---------------------------------------------------------------------------
// Offset and Limit.
//
// `OFFSET N` drops the first `N` records: an `N` beyond the record count
// leaves an empty result, never an error.  `LIMIT N` keeps at most the first
// `N` records.  Only a non-negative integer literal is accepted for `N`;
// any other expression is an invalid query.
// ---------------------------------------------------------------------------
/// The effective count for an offset or limit clause: the written number,
/// clamped to the record count (no clause ever reads past the end).
pub open spec fn clamped_count(text: Seq<char>, len: int) -> int {
    if uint_val(text) <= len {
        uint_val(text)
    } else {
        len
    }
}

pub open spec fn spec_offset(m: TableResultModel) -> Result<Seq<RecordModel>, ErrorModel> {
    match m.statement {
        Option::Some(StatementModel::Query(q)) => match q.offset {
            Option::Some(e) => match e {
                ExprModel::Value(LiteralModel::Number(n)) => if is_uint_text(n.text) {
                    Result::Ok(m.events.skip(clamped_count(n.text, m.events.len() as int)))
                } else {
                    Result::Err(ErrorModel::InvalidQuery(m.statement->Some_0))
                },
                _ => Result::Err(ErrorModel::InvalidQuery(m.statement->Some_0)),
            },
            Option::None => Result::Ok(m.events),
        },
        _ => Result::Ok(m.events),
    }
}

pub open spec fn spec_limit(m: TableResultModel) -> Result<Seq<RecordModel>, ErrorModel> {
    match m.statement {
        Option::Some(StatementModel::Query(q)) => match q.limit {
            Option::Some(e) => match e {
                ExprModel::Value(LiteralModel::Number(n)) => if is_uint_text(n.text) {
                    Result::Ok(m.events.take(clamped_count(n.text, m.events.len() as int)))
                } else {
                    Result::Err(ErrorModel::InvalidQuery(m.statement->Some_0))
                },
                _ => Result::Err(ErrorModel::InvalidQuery(m.statement->Some_0)),
            },
            Option::None => Result::Ok(m.events),
        },
        _ => Result::Ok(m.events),
    }
}

/// Drops the first `n` records, moving the rest forward.
fn drop_front(events: Vec<Record>, n: usize) -> (r: Vec<Record>)
    requires
        n <= events@.len(),
    ensures
        r@ == events@.skip(n as int),
{
    let ghost original = events@;
    let mut events = events;
    let mut dropped: usize = 0;
    while dropped < n
        invariant
            dropped <= n,
            n <= original.len(),
            events@ == original.skip(dropped as int),
        decreases n - dropped,
    {
        let ghost before = events@;
        events.remove(0);
        proof {
            assert(events@ =~= original.skip(dropped + 1));
        }
        dropped = dropped + 1;
    }
    events
}

/// For every N >= 0 written as the offset literal, `OFFSET N` on a K-record
/// result never errors and yields max(0, K - N) records, however large N is.
pub proof fn lemma_offset_count(m: TableResultModel, n: crate::query::NumberModel)
    requires
        m.statement is Some,
        m.statement->Some_0 is Query,
        m.statement->Some_0->Query_0.offset == Option::Some(
            ExprModel::Value(LiteralModel::Number(n)),
        ),
        is_uint_text(n.text),
    ensures
        spec_offset(m) is Ok,
        spec_offset(m)->Ok_0.len() == if uint_val(n.text) <= m.events.len() {
            m.events.len() - uint_val(n.text)
        } else {
            0
        },
{
    crate::values::lemma_uint_val_nonneg(n.text);
}

/// For every N >= 0 written as the limit literal, `LIMIT N` on a K-record
/// result never errors and yields min(N, K) records.
pub proof fn lemma_limit_count(m: TableResultModel, n: crate::query::NumberModel)
    requires
        m.statement is Some,
        m.statement->Some_0 is Query,
        m.statement->Some_0->Query_0.limit == Option::Some(
            ExprModel::Value(LiteralModel::Number(n)),
        ),
        is_uint_text(n.text),
    ensures
        spec_limit(m) is Ok,
        spec_limit(m)->Ok_0.len() == if uint_val(n.text) <= m.events.len() {
            uint_val(n.text)
        } else {
            m.events.len() as int
        },
{
    crate::values::lemma_uint_val_nonneg(n.text);
}

/// `LIMIT N OFFSET M` composed equals slicing `records[M .. M + N]`, both
/// bounds clamped to the record count: the offset stage runs first, the
/// limit stage on what it left.
pub proof fn lemma_limit_offset_slice(
    m: TableResultModel,
    off: crate::query::NumberModel,
    lim: crate::query::NumberModel,
)
    requires
        m.statement is Some,
        m.statement->Some_0 is Query,
        m.statement->Some_0->Query_0.offset == Option::Some(
            ExprModel::Value(LiteralModel::Number(off)),
        ),
        m.statement->Some_0->Query_0.limit == Option::Some(
            ExprModel::Value(LiteralModel::Number(lim)),
        ),
        is_uint_text(off.text),
        is_uint_text(lim.text),
    ensures
        spec_offset(m) is Ok,
        ({
            let after = TableResultModel { events: spec_offset(m)->Ok_0, ..m };
            let k = m.events.len() as int;
            let lo = if uint_val(off.text) <= k {
                uint_val(off.text)
            } else {
                k
            };
            let hi = if uint_val(off.text) + uint_val(lim.text) <= k {
                uint_val(off.text) + uint_val(lim.text)
            } else {
                k
            };
            &&& spec_limit(after) is Ok
            &&& spec_limit(after)->Ok_0 == m.events.subrange(lo, hi)
        }),
{
    crate::values::lemma_uint_val_nonneg(off.text);
    crate::values::lemma_uint_val_nonneg(lim.text);
    let k = m.events.len() as int;
    let big_m = uint_val(off.text);
    let big_n = uint_val(lim.text);
    let lo = if big_m <= k {
        big_m
    } else {
        k
    };
    let hi = if big_m + big_n <= k {
        big_m + big_n
    } else {
        k
    };
    let after = TableResultModel { events: spec_offset(m)->Ok_0, ..m };
    assert(after.events == m.events.skip(lo));
    assert(spec_limit(after)->Ok_0 =~= m.events.subrange(lo, hi));
}

impl TableResult {
    /// Drops the first `N` records, `N` being the offset clause's literal.
    fn offset(self) -> (r: Result<TableResult, Error>)
        ensures
            match r {
                Result::Ok(t) => spec_offset(self@) == Result::Ok::<_, ErrorModel>(t@.events)
                    && t@.columns == self@.columns && t@.schema == self@.schema && t@.statement
                    == self@.statement,
                Result::Err(e) => spec_offset(self@) == Result::Err::<Seq<RecordModel>, _>(e@),
            },
    {
        let ghost m = self@;
        let n: usize = match &self.statement {
            Option::Some(stmt) => match stmt {
                Statement::Query(query) => match &query.offset {
                    Option::Some(e) => match e {
                        Expr::Value(Literal::Number(num)) => {
                            proof {
                                assert(num.text@.skip(0) =~= num.text@);
                            }
                            match parse_uint_capped(&num.text, 0, self.events.len() as u64) {
                                Option::Some(v) => {
                                    proof {
                                        crate::values::lemma_uint_val_nonneg(num.text@);
                                        assert(v as int == clamped_count(
                                            num.text@,
                                            m.events.len() as int,
                                        ));
                                    }
                                    v as usize
                                },
                                Option::None => {
                                    return Result::Err(Error::InvalidQuery(stmt.duplicate()));
                                },
                            }
                        },
                        _ => {
                            return Result::Err(Error::InvalidQuery(stmt.duplicate()));
                        },
                    },
                    Option::None => {
                        return Result::Ok(self);
                    },
                },
                Statement::Other => {
                    return Result::Ok(self);
                },
            },
            Option::None => {
                return Result::Ok(self);
            },
        };
        let TableResult { columns, events, schema, statement } = self;
        let ghost whole = events@;
        let events = drop_front(events, n);
        proof {
            crate::values::lemma_records_model_skip(whole, n as int);
        }
        Result::Ok(TableResult { columns, events, schema, statement })
    }

    /// Keeps at most the first `N` records, `N` being the limit clause's
    /// literal.
    fn limit(self) -> (r: Result<TableResult, Error>)
        ensures
            match r {
                Result::Ok(t) => spec_limit(self@) == Result::Ok::<_, ErrorModel>(t@.events)
                    && t@.columns == self@.columns && t@.schema == self@.schema && t@.statement
                    == self@.statement,
                Result::Err(e) => spec_limit(self@) == Result::Err::<Seq<RecordModel>, _>(e@),
            },
    {
        let ghost m = self@;
        let n: usize = match &self.statement {
            Option::Some(stmt) => match stmt {
                Statement::Query(query) => match &query.limit {
                    Option::Some(e) => match e {
                        Expr::Value(Literal::Number(num)) => {
                            proof {
                                assert(num.text@.skip(0) =~= num.text@);
                            }
                            match parse_uint_capped(&num.text, 0, self.events.len() as u64) {
                                Option::Some(v) => {
                                    proof {
                                        crate::values::lemma_uint_val_nonneg(num.text@);
                                        assert(v as int == clamped_count(
                                            num.text@,
                                            m.events.len() as int,
                                        ));
                                    }
                                    v as usize
                                },
                                Option::None => {
                                    return Result::Err(Error::InvalidQuery(stmt.duplicate()));
                                },
                            }
                        },
                        _ => {
                            return Result::Err(Error::InvalidQuery(stmt.duplicate()));
                        },
                    },
                    Option::None => {
                        return Result::Ok(self);
                    },
                },
                Statement::Other => {
                    return Result::Ok(self);
                },
            },
            Option::None => {
                return Result::Ok(self);
            },
        };
        let TableResult { columns, mut events, schema, statement } = self;
        let ghost whole = events@;
        events.truncate(n);
        proof {
            assert(events@ == whole.take(n as int));
            crate::values::lemma_records_model_take(whole, n as int);
        }
        Result::Ok(TableResult { columns, events, schema, statement })
    }
}


// ---------------------------------------------------------------------------
// The pipeline.
//
// Execution order is fixed: continuation text is merged, then
// Filter -> Project -> OrderBy -> Offset -> Limit, offset always before
// limit regardless of clause order in the source text.  The first error
// aborts the remaining stages; no partial result is ever produced.
// ---------------------------------------------------------------------------
/// The inputs on which the pipeline is defined: continuation text goes to a
/// string value, filtered and projected columns exist in the records, and
/// the ORDER BY keys hold mutually comparable values.
pub open spec fn pipeline_requires(m: TableResultModel) -> bool {
    &&& extra_text_requires(m.schema, m.events)
    &&& {
        let m1 = TableResultModel { events: spec_merge_extra(m.schema, m.events), ..m };
        &&& crate::engine::filter::filter_requires(m1)
        &&& match crate::engine::filter::spec_filter(m1) {
            Result::Err(_) => true,
            Result::Ok(ev2) => {
                let m2 = TableResultModel { events: ev2, ..m1 };
                &&& project_requires(m2)
                &&& match spec_project(m2) {
                    Result::Err(_) => true,
                    Result::Ok(projected) => {
                        let m3 = TableResultModel {
                            columns: projected.0,
                            events: projected.1,
                            ..m2
                        };
                        order_by_requires(m3)
                    },
                }
            },
        }
    }
}

/// The OrderBy stage's relation between the records before and after it.
pub open spec fn order_result(
    keys_opt: Option<Seq<(Seq<char>, bool)>>,
    before: Seq<RecordModel>,
    sorted: Seq<RecordModel>,
) -> bool {
    match keys_opt {
        Option::None => sorted == before,
        Option::Some(keys) => sorted_by_keys(keys, sorted) && sorted.to_multiset()
            == before.to_multiset(),
    }
}

/// What executing the pipeline returns, stage by stage.
pub open spec fn execute_post(
    m: TableResultModel,
    r: Result<(Seq<Seq<char>>, Seq<RecordModel>), ErrorModel>,
) -> bool {
    let m1 = TableResultModel { events: spec_merge_extra(m.schema, m.events), ..m };
    match crate::engine::filter::spec_filter(m1) {
        Result::Err(e) => r == Result::Err::<(Seq<Seq<char>>, Seq<RecordModel>), ErrorModel>(e),
        Result::Ok(ev2) => {
            let m2 = TableResultModel { events: ev2, ..m1 };
            match spec_project(m2) {
                Result::Err(e) => r == Result::Err::<
                    (Seq<Seq<char>>, Seq<RecordModel>),
                    ErrorModel,
                >(e),
                Result::Ok(projected) => {
                    let m3 = TableResultModel { columns: projected.0, events: projected.1, ..m2 };
                    match spec_order_outcome(m3) {
                        Result::Err(e) => r == Result::Err::<
                            (Seq<Seq<char>>, Seq<RecordModel>),
                            ErrorModel,
                        >(e),
                        Result::Ok(keys_opt) => exists|sorted: Seq<RecordModel>|
                            {
                                &&& #[trigger] order_result(keys_opt, m3.events, sorted)
                                &&& {
                                    let m4 = TableResultModel { events: sorted, ..m3 };
                                    match spec_offset(m4) {
                                        Result::Err(e) => r == Result::Err::<
                                            (Seq<Seq<char>>, Seq<RecordModel>),
                                            ErrorModel,
                                        >(e),
                                        Result::Ok(ev5) => {
                                            let m5 = TableResultModel { events: ev5, ..m4 };
                                            match spec_limit(m5) {
                                                Result::Err(e) => r == Result::Err::<
                                                    (Seq<Seq<char>>, Seq<RecordModel>),
                                                    ErrorModel,
                                                >(e),
                                                Result::Ok(ev6) => r == Result::Ok::<
                                                    (Seq<Seq<char>>, Seq<RecordModel>),
                                                    ErrorModel,
                                                >((m3.columns, ev6)),
                                            }
                                        },
                                    }
                                }
                            },
                    }
                },
            }
        },
    }
}

impl TableResult {
    /// Runs the five stages in their fixed order over this result.
    fn process(self) -> (r: Result<TableResult, Error>)
        requires
            pipeline_requires(self@),
        ensures
            match r {
                Result::Ok(t) => execute_post(
                    self@,
                    Result::Ok((t@.columns, t@.events)),
                ) && t@.schema == self@.schema && t@.statement == self@.statement,
                Result::Err(e) => execute_post(
                    self@,
                    Result::Err((e@)),
                ),
            },
    {
        let ghost m = self@;
        let ghost m1e = TableResultModel { events: spec_merge_extra(m.schema, m.events), ..m };
        let merged = self.handle_extra_text();
        proof {
            assert(merged@ == m1e);
        }
        let filtered = match merged.filter() {
            Result::Ok(t) => t,
            Result::Err(e) => {
                return Result::Err(e);
            },
        };
        let ghost m2e = TableResultModel {
            events: crate::engine::filter::spec_filter(m1e)->Ok_0,
            ..m1e
        };
        proof {
            assert(filtered@ == m2e);
        }
        let projected = match filtered.project() {
            Result::Ok(t) => t,
            Result::Err(e) => {
                return Result::Err(e);
            },
        };
        let ghost m3e = TableResultModel {
            columns: spec_project(m2e)->Ok_0.0,
            events: spec_project(m2e)->Ok_0.1,
            ..m2e
        };
        proof {
            assert(projected@ == m3e);
        }
        let ordered = match projected.order_by() {
            Result::Ok(t) => t,
            Result::Err(e) => {
                return Result::Err(e);
            },
        };
        let ghost keys_opt = spec_order_outcome(m3e)->Ok_0;
        proof {
            assert(order_result(keys_opt, m3e.events, ordered@.events));
            assert(ordered@ == TableResultModel { events: ordered@.events, ..m3e });
        }
        let cut = match ordered.offset() {
            Result::Ok(t) => t,
            Result::Err(e) => {
                proof {
                    assert(order_result(keys_opt, m3e.events, ordered@.events));
                }
                return Result::Err(e);
            },
        };
        proof {
            assert(cut@ == TableResultModel { events: cut@.events, ..m3e });
        }
        match cut.limit() {
            Result::Ok(t) => {
                proof {
                    assert(order_result(keys_opt, m3e.events, ordered@.events));
                }
                Result::Ok(t)
            },
            Result::Err(e) => {
                proof {
                    assert(order_result(keys_opt, m3e.events, ordered@.events));
                }
                Result::Err(e)
            },
        }
    }
}

/// The in-progress result an engine starts from: its column list, schema and
/// statement over the supplied records.
pub open spec fn engine_input(e: EngineModel, events: Seq<RecordModel>) -> TableResultModel {
    TableResultModel {
        columns: e.columns,
        events,
        schema: e.schema,
        statement: e.statement,
    }
}

fn duplicate_names(names: &Vec<String>) -> (r: Vec<String>)
    ensures
        names_model(r@) == names_model(names@),
{
    let mut out: Vec<String> = Vec::new();
    let n = names.len();
    for i in 0..n
        invariant
            n == names.len(),
            out.len() == i,
            forall|k: int| 0 <= k < i ==> names_model(out@)[k] == names_model(names@)[k],
    {
        let ghost before = out@;
        out.push(names[i].clone());
        proof {
            assert forall|k: int|
                0 <= k < i + 1 implies names_model(out@)[k] == names_model(names@)[k] by {
                if k < i {
                    assert(out@[k] == before[k]);
                } else {
                    assert(out@[k] == names@[k]);
                }
            }
        }
    }
    proof {
        assert(names_model(out@) =~= names_model(names@));
    }
    out
}

impl Engine {
    /// Executes the compiled statement over the record sequence, producing
    /// the final column order and record sequence.  The engine is stateless
    /// beyond its immutable statement and schema, so it is reusable across
    /// inputs.
    pub fn execute(&self, events: Vec<Record>) -> (r: Result<TableResult, Error>)
        requires
            pipeline_requires(engine_input(self@, records_model(events@))),
        ensures
            match r {
                Result::Ok(t) => execute_post(
                    engine_input(self@, records_model(events@)),
                    Result::Ok((t@.columns, t@.events)),
                ) && t@.schema == self@.schema && t@.statement == self@.statement,
                Result::Err(e) => execute_post(
                    engine_input(self@, records_model(events@)),
                    Result::Err((e@)),
                ),
            },
    {
        let schema = self.schema.duplicate();
        let columns = duplicate_names(&self.columns);
        let statement = match &self.statement {
            Option::Some(s) => Option::Some(s.duplicate()),
            Option::None => Option::None,
        };
        let table_result = TableResult { columns, events, schema, statement };
        table_result.process()
    }
}

} // verus!

