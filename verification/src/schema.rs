use vstd::prelude::*;

use crate::error::{Error, ErrorModel};

verus! {

/// The type a column is declared with; it selects the comparison branch
/// used by the query engine and drives typed-mismatch errors.
#[derive(Clone, Copy, Debug, PartialEq, Eq, Structural)]
pub enum ColumnType {
    String,
    Int32,
    Int64,
    Bool,
    Float32,
    Float64,
    DateTime,
}

/// One column of the record schema: its name, its declared type, and whether
/// continuation lines are appended to it.
#[derive(Debug, PartialEq)]
pub struct Column {
    pub name: String,
    pub column_type: ColumnType,
    pub multiline: bool,
}

pub struct ColumnModel {
    pub name: Seq<char>,
    pub column_type: ColumnType,
    pub multiline: bool,
}

impl View for Column {
    type V = ColumnModel;

    open spec fn view(&self) -> ColumnModel {
        ColumnModel { name: self.name@, column_type: self.column_type, multiline: self.multiline }
    }
}

impl DeepView for Column {
    type V = ColumnModel;

    open spec fn deep_view(&self) -> ColumnModel {
        self.view()
    }
}

/// The record schema: the extraction pattern, the table name the statement
/// addresses, and the ordered column list.
#[derive(Debug, PartialEq)]
pub struct Schema {
    pub regex: String,
    pub table: String,
    pub columns: Vec<Column>,
}

pub struct SchemaModel {
    pub regex: Seq<char>,
    pub table: Seq<char>,
    pub columns: Seq<ColumnModel>,
}

/// The models of a column list.
pub open spec fn columns_model(s: Seq<Column>) -> Seq<ColumnModel> {
    s.map_values(|c: Column| c@)
}

impl View for Schema {
    type V = SchemaModel;

    open spec fn view(&self) -> SchemaModel {
        SchemaModel {
            regex: self.regex@,
            table: self.table@,
            columns: columns_model(self.columns@),
        }
    }
}

impl Column {
    /// Creates a column definition.
    pub fn new(name: &str, column_type: ColumnType) -> (c: Column)
        ensures
            c@ == (ColumnModel { name: name@, column_type, multiline: false }),
    {
        Column { name: name.to_owned(), column_type, multiline: false }
    }

    /// Creates a multiline string definition.
    pub fn multiline_string(name: &str) -> (c: Column)
        ensures
            c@ == (ColumnModel {
                name: name@,
                column_type: ColumnType::String,
                multiline: true,
            }),
    {
        Column { name: name.to_owned(), column_type: ColumnType::String, multiline: true }
    }
}

impl Schema {
    /// An explicit copy; its contract says that the copy models the same
    /// schema.
    pub fn duplicate(&self) -> (r: Schema)
        ensures
            r@ == self@,
    {
        let mut columns: Vec<Column> = Vec::new();
        let n = self.columns.len();
        for i in 0..n
            invariant
                n == self.columns.len(),
                columns.len() == i,
                forall|k: int|
                    0 <= k < i ==> columns_model(columns@)[k] == columns_model(self.columns@)[k],
        {
            let ghost before = columns@;
            let column = &self.columns[i];
            let copied = Column {
                name: column.name.clone(),
                column_type: column.column_type,
                multiline: column.multiline,
            };
            columns.push(copied);
            proof {
                assert forall|k: int|
                    0 <= k < i + 1 implies columns_model(columns@)[k] == columns_model(
                    self.columns@,
                )[k] by {
                    if k < i {
                        assert(columns@[k] == before[k]);
                        assert(columns_model(before)[k] == before[k]@);
                    } else {
                        assert(columns@[k]@ == self.columns@[k]@);
                    }
                }
            }
        }
        proof {
            assert(columns_model(columns@) =~= columns_model(self.columns@));
        }
        Schema { regex: self.regex.clone(), table: self.table.clone(), columns }
    }
}

// ---------------------------------------------------------------------------
// ASCII-case-insensitive column naming.  A statement may write a column in
// another case than the schema declares; the engine resolves the name by
// folding ASCII letters.
// ---------------------------------------------------------------------------
pub open spec fn fold_ascii_char(c: char) -> u32 {
    if 65 <= c as u32 <= 90 {
        (c as u32 + 32) as u32
    } else {
        c as u32
    }
}

pub open spec fn eq_ignore_ascii_case(a: Seq<char>, b: Seq<char>) -> bool {
    a.len() == b.len() && forall|i: int|
        0 <= i < a.len() ==> fold_ascii_char(a[i]) == fold_ascii_char(#[trigger] b[i])
}

pub fn eq_ignore_ascii_case_exec(a: &String, b: &String) -> (r: bool)
    ensures
        r == eq_ignore_ascii_case(a@, b@),
{
    let a_str = a.as_str();
    let b_str = b.as_str();
    let a_len = a_str.unicode_len();
    let b_len = b_str.unicode_len();
    if a_len != b_len {
        return false;
    }
    let mut i: usize = 0;
    while i < a_len
        invariant
            i <= a_len,
            a_len == a@.len(),
            b_len == b@.len(),
            a_len == b_len,
            a_str@ == a@,
            b_str@ == b@,
            forall|k: int| 0 <= k < i ==> fold_ascii_char(a@[k]) == fold_ascii_char(#[trigger] b@[k]),
        decreases a_len - i,
    {
        let ca = a_str.get_char(i) as u32;
        let cb = b_str.get_char(i) as u32;
        let fa = if 65 <= ca && ca <= 90 {
            ca + 32
        } else {
            ca
        };
        let fb = if 65 <= cb && cb <= 90 {
            cb + 32
        } else {
            cb
        };
        if fa != fb {
            return false;
        }
        i = i + 1;
    }
    true
}

/// The first schema column whose name matches `name`, folding ASCII case.
pub open spec fn find_column(cols: Seq<ColumnModel>, name: Seq<char>) -> Option<ColumnModel>
    decreases cols.len(),
{
    if cols.len() == 0 {
        Option::None
    } else if eq_ignore_ascii_case(cols[0].name, name) {
        Option::Some(cols[0])
    } else {
        find_column(cols.drop_first(), name)
    }
}

pub proof fn lemma_find_column_skip(cols: Seq<ColumnModel>, name: Seq<char>, i: int)
    requires
        0 <= i <= cols.len(),
        forall|k: int| 0 <= k < i ==> !eq_ignore_ascii_case(cols[k].name, name),
    ensures
        find_column(cols, name) == find_column(cols.skip(i), name),
    decreases i,
{
    if i > 0 {
        assert(cols.drop_first().skip(i - 1) =~= cols.skip(i));
        lemma_find_column_skip(cols.drop_first(), name, i - 1);
    } else {
        assert(cols.skip(0) =~= cols);
    }
}

impl Schema {
    /// The declared type of the first column matching `name`, folding ASCII
    /// case.
    pub fn column_type_of(&self, name: &String) -> (r: Option<ColumnType>)
        ensures
            r == match find_column(self@.columns, name@) {
                Option::Some(c) => Option::Some(c.column_type),
                Option::None => Option::<ColumnType>::None,
            },
    {
        let ghost cols = self@.columns;
        let n = self.columns.len();
        for i in 0..n
            invariant
                n == self.columns.len(),
                cols == self@.columns,
                forall|k: int| 0 <= k < i ==> !eq_ignore_ascii_case(cols[k].name, name@),
        {
            proof {
                assert(cols[i as int] == self.columns@[i as int]@);
            }
            if eq_ignore_ascii_case_exec(&self.columns[i].name, name) {
                proof {
                    lemma_find_column_skip(cols, name@, i as int);
                    assert(cols.skip(i as int)[0] == cols[i as int]);
                }
                return Option::Some(self.columns[i].column_type);
            }
        }
        proof {
            lemma_find_column_skip(cols, name@, n as int);
        }
        Option::None
    }
}

// ---------------------------------------------------------------------------
// Schema validation: continuation lines can only be appended to a string
// column, and to at most one.
// ---------------------------------------------------------------------------
/// The names of every multiline column, in declaration order.
pub open spec fn multiline_names(cols: Seq<ColumnModel>) -> Seq<Seq<char>>
    decreases cols.len(),
{
    if cols.len() == 0 {
        Seq::empty()
    } else {
        let rest = multiline_names(cols.drop_last());
        if cols.last().multiline {
            rest.push(cols.last().name)
        } else {
            rest
        }
    }
}

/// What validation says of the columns from position `i` on, `seen` telling
/// whether an earlier column was multiline: the first column that is
/// multiline but not a string fails with its name and type; a second
/// multiline column fails with all multiline names.
pub open spec fn validate_from(cols: Seq<ColumnModel>, i: int, seen: bool) -> Result<
    (),
    ErrorModel,
>
    decreases cols.len() - i,
{
    if i < 0 || i >= cols.len() {
        Result::Ok(())
    } else if cols[i].multiline && cols[i].column_type != ColumnType::String {
        Result::Err(ErrorModel::InvalidMultilineType(cols[i].name, cols[i].column_type))
    } else if cols[i].multiline && seen {
        Result::Err(ErrorModel::TooManyMultilineColumns(multiline_names(cols)))
    } else {
        validate_from(cols, i + 1, seen || cols[i].multiline)
    }
}

impl Schema {
    /// Ensures that only string columns are multiline and that at most one
    /// column is.
    pub fn validate(&self) -> (r: Result<(), Error>)
        ensures
            match r {
                Result::Ok(_) => validate_from(self@.columns, 0, false) is Ok,
                Result::Err(e) => validate_from(self@.columns, 0, false) == Result::Err::<
                    (),
                    ErrorModel,
                >(e@),
            },
    {
        let ghost cols = self@.columns;
        let n = self.columns.len();
        let mut seen: bool = false;
        let mut i: usize = 0;
        while i < n
            invariant
                i <= n,
                n == self.columns.len(),
                cols == self@.columns,
                validate_from(cols, 0, false) == validate_from(cols, i as int, seen),
            decreases n - i,
        {
            proof {
                assert(cols[i as int] == self.columns@[i as int]@);
            }
            let column = &self.columns[i];
            if column.multiline && column.column_type != ColumnType::String {
                return Result::Err(
                    Error::InvalidMultilineType(column.name.clone(), column.column_type),
                );
            }
            if column.multiline && seen {
                return Result::Err(Error::TooManyMultilineColumns(self.collect_multiline_names()));
            }
            seen = seen || column.multiline;
            i = i + 1;
        }
        Result::Ok(())
    }

    fn collect_multiline_names(&self) -> (r: Vec<String>)
        ensures
            r.deep_view() == multiline_names(self@.columns),
    {
        let ghost cols = self@.columns;
        let mut names: Vec<String> = Vec::new();
        let n = self.columns.len();
        for i in 0..n
            invariant
                n == self.columns.len(),
                cols == self@.columns,
                names.deep_view() =~= multiline_names(cols.take(i as int)),
        {
            proof {
                assert(cols[i as int] == self.columns@[i as int]@);
                assert(cols.take(i + 1).drop_last() =~= cols.take(i as int));
                assert(cols.take(i + 1).last() == cols[i as int]);
            }
            if self.columns[i].multiline {
                let ghost before = names@;
                names.push(self.columns[i].name.clone());
                proof {
                    assert forall|k: int|
                        0 <= k < before.len() + 1 implies names.deep_view()[k] == multiline_names(
                        cols.take(i + 1),
                    )[k] by {
                        if k < before.len() {
                            assert(names@[k] == before[k]);
                        }
                    }
                    assert(names.deep_view() =~= multiline_names(cols.take(i + 1)));
                }
            }
        }
        proof {
            assert(cols.take(n as int) =~= cols);
        }
        names
    }
}

} // verus!
