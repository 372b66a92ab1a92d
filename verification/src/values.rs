use vstd::prelude::*;

verus! {

/// A value held by one record column: a tagged union with exactly one
/// active variant per instance.
///
/// Two of the schema types are binary floating-point numbers and one is an
/// absolute instant in time.  The engine holds both as plain integers:
/// `Float32`/`Float64` carry the IEEE 754 bit pattern of the number, and
/// `DateTime` carries nanoseconds since the Unix epoch (UTC).  The record
/// extractor produces these encodings; the engine's comparison model is
/// defined over them.
#[derive(Debug, Clone, PartialEq)]
pub enum TypedValue {
    String(String),
    Int32(i32),
    Int64(i64),
    Bool(bool),
    Float32(u32),
    Float64(u64),
    DateTime(i64),
}

/// The mathematical model of a `TypedValue`.
pub enum ValueModel {
    Str(Seq<char>),
    Int32(i32),
    Int64(i64),
    Bool(bool),
    Float32(u32),
    Float64(u64),
    DateTime(i64),
}

impl View for TypedValue {
    type V = ValueModel;

    open spec fn view(&self) -> ValueModel {
        match self {
            TypedValue::String(s) => ValueModel::Str(s@),
            TypedValue::Int32(x) => ValueModel::Int32(*x),
            TypedValue::Int64(x) => ValueModel::Int64(*x),
            TypedValue::Bool(x) => ValueModel::Bool(*x),
            TypedValue::Float32(x) => ValueModel::Float32(*x),
            TypedValue::Float64(x) => ValueModel::Float64(*x),
            TypedValue::DateTime(x) => ValueModel::DateTime(*x),
        }
    }
}

impl DeepView for TypedValue {
    type V = ValueModel;

    open spec fn deep_view(&self) -> ValueModel {
        self.view()
    }
}

impl TypedValue {
    /// An explicit copy; unlike a derived `Clone`, its contract says that the
    /// copy models the same value.
    pub fn duplicate(&self) -> (r: TypedValue)
        ensures
            r@ == self@,
    {
        match self {
            TypedValue::String(s) => TypedValue::String(s.clone()),
            TypedValue::Int32(x) => TypedValue::Int32(*x),
            TypedValue::Int64(x) => TypedValue::Int64(*x),
            TypedValue::Bool(x) => TypedValue::Bool(*x),
            TypedValue::Float32(x) => TypedValue::Float32(*x),
            TypedValue::Float64(x) => TypedValue::Float64(*x),
            TypedValue::DateTime(x) => TypedValue::DateTime(*x),
        }
    }
}

/// One structured row extracted from raw text: a mapping from column name to
/// typed value (held as an association list with the schema's column order),
/// plus continuation lines that did not match the extraction pattern.
#[derive(Debug, Clone, PartialEq)]
pub struct Record {
    pub values: Vec<(String, TypedValue)>,
    pub extra_text: Option<Vec<String>>,
}

/// The mathematical model of a `Record`.
pub struct RecordModel {
    pub values: Seq<(Seq<char>, ValueModel)>,
    pub extra_text: Option<Seq<Seq<char>>>,
}

/// The models of a record's column/value pairs.
pub open spec fn pairs_model(s: Seq<(String, TypedValue)>) -> Seq<(Seq<char>, ValueModel)> {
    s.map_values(|p: (String, TypedValue)| (p.0@, p.1@))
}

impl View for Record {
    type V = RecordModel;

    open spec fn view(&self) -> RecordModel {
        RecordModel {
            values: pairs_model(self.values@),
            extra_text: match self.extra_text {
                Option::None => Option::None,
                Option::Some(lines) => Option::Some(lines.deep_view()),
            },
        }
    }
}

impl DeepView for Record {
    type V = RecordModel;

    open spec fn deep_view(&self) -> RecordModel {
        self.view()
    }
}

/// The value stored under `name`, taking the first entry with that name.
pub open spec fn lookup(vals: Seq<(Seq<char>, ValueModel)>, name: Seq<char>) -> Option<ValueModel>
    decreases vals.len(),
{
    if vals.len() == 0 {
        Option::None
    } else if vals[0].0 == name {
        Option::Some(vals[0].1)
    } else {
        lookup(vals.drop_first(), name)
    }
}

/// Skipping entries whose names all differ from `name` leaves the lookup
/// result unchanged.
pub proof fn lemma_lookup_skip(vals: Seq<(Seq<char>, ValueModel)>, name: Seq<char>, i: int)
    requires
        0 <= i <= vals.len(),
        forall|k: int| 0 <= k < i ==> vals[k].0 != name,
    ensures
        lookup(vals, name) == lookup(vals.skip(i), name),
    decreases i,
{
    if i > 0 {
        assert(vals.drop_first().skip(i - 1) =~= vals.skip(i));
        lemma_lookup_skip(vals.drop_first(), name, i - 1);
    } else {
        assert(vals.skip(0) =~= vals);
    }
}

impl Record {
    /// The value of the column called `name`, or `None` when the record has
    /// no such column.
    pub fn get<'a>(&'a self, name: &String) -> (r: Option<&'a TypedValue>)
        ensures
            match r {
                Option::Some(v) => lookup(self@.values, name@) == Option::Some(v@),
                Option::None => lookup(self@.values, name@) is None,
            },
    {
        let ghost model = self@.values;
        let n = self.values.len();
        for i in 0..n
            invariant
                n == self.values.len(),
                model == self@.values,
                forall|k: int| 0 <= k < i ==> model[k].0 != name@,
        {
            proof {
                assert(model[i as int] == (self.values@[i as int].0@, self.values@[i as int].1@));
            }
            if self.values[i].0 == *name {
                proof {
                    lemma_lookup_skip(model, name@, i as int);
                    assert(model.skip(i as int)[0] == model[i as int]);
                }
                return Option::Some(&self.values[i].1);
            }
        }
        proof {
            lemma_lookup_skip(model, name@, n as int);
        }
        Option::None
    }
}

// ---------------------------------------------------------------------------
// Floating-point bit patterns.
//
// A `Float32`/`Float64` value is an IEEE 754 bit pattern.  The engine orders
// such values by mapping each non-NaN pattern to an unsigned key under which
// the IEEE order of the numbers is plain integer order: the two zeros share
// one key, negative numbers invert, positive numbers shift above them.  A NaN
// pattern compares as IEEE does: equal to nothing, less than nothing.
// ---------------------------------------------------------------------------
pub open spec fn f32_is_nan(b: u32) -> bool {
    b & 0x7f80_0000u32 == 0x7f80_0000u32 && b & 0x007f_ffffu32 != 0
}

pub open spec fn f32_cmp_key(b: u32) -> u32 {
    if b & 0x7fff_ffffu32 == 0 {
        0x8000_0000u32
    } else if b & 0x8000_0000u32 != 0 {
        !b
    } else {
        b | 0x8000_0000u32
    }
}

pub open spec fn f64_is_nan(b: u64) -> bool {
    b & 0x7ff0_0000_0000_0000u64 == 0x7ff0_0000_0000_0000u64 && b & 0x000f_ffff_ffff_ffffu64 != 0
}

pub open spec fn f64_cmp_key(b: u64) -> u64 {
    if b & 0x7fff_ffff_ffff_ffffu64 == 0 {
        0x8000_0000_0000_0000u64
    } else if b & 0x8000_0000_0000_0000u64 != 0 {
        !b
    } else {
        b | 0x8000_0000_0000_0000u64
    }
}

pub fn f32_is_nan_exec(b: u32) -> (r: bool)
    ensures
        r == f32_is_nan(b),
{
    b & 0x7f80_0000u32 == 0x7f80_0000u32 && b & 0x007f_ffffu32 != 0
}

pub fn f32_cmp_key_exec(b: u32) -> (r: u32)
    ensures
        r == f32_cmp_key(b),
{
    if b & 0x7fff_ffffu32 == 0 {
        0x8000_0000u32
    } else if b & 0x8000_0000u32 != 0 {
        !b
    } else {
        b | 0x8000_0000u32
    }
}

pub fn f64_is_nan_exec(b: u64) -> (r: bool)
    ensures
        r == f64_is_nan(b),
{
    b & 0x7ff0_0000_0000_0000u64 == 0x7ff0_0000_0000_0000u64 && b & 0x000f_ffff_ffff_ffffu64
        != 0
}

pub fn f64_cmp_key_exec(b: u64) -> (r: u64)
    ensures
        r == f64_cmp_key(b),
{
    if b & 0x7fff_ffff_ffff_ffffu64 == 0 {
        0x8000_0000_0000_0000u64
    } else if b & 0x8000_0000_0000_0000u64 != 0 {
        !b
    } else {
        b | 0x8000_0000_0000_0000u64
    }
}

// ---------------------------------------------------------------------------
// Lexicographic order on character sequences: strings compare by code point,
// position by position, a proper prefix ordering before its extensions.
// ---------------------------------------------------------------------------
pub open spec fn str_lt(a: Seq<char>, b: Seq<char>) -> bool
    decreases a.len(),
{
    if b.len() == 0 {
        false
    } else if a.len() == 0 {
        true
    } else if (a[0] as u32) < (b[0] as u32) {
        true
    } else if (a[0] as u32) > (b[0] as u32) {
        false
    } else {
        str_lt(a.drop_first(), b.drop_first())
    }
}

pub proof fn lemma_str_lt_asymmetric(a: Seq<char>, b: Seq<char>)
    requires
        str_lt(a, b),
    ensures
        !str_lt(b, a),
        a != b,
    decreases a.len(),
{
    if a.len() != 0 && b.len() != 0 && (a[0] as u32) == (b[0] as u32) {
        lemma_str_lt_asymmetric(a.drop_first(), b.drop_first());
    }
}

pub proof fn lemma_str_lt_connected(a: Seq<char>, b: Seq<char>)
    requires
        !str_lt(a, b),
        !str_lt(b, a),
    ensures
        a == b,
    decreases a.len(),
{
    if a.len() != 0 && b.len() != 0 {
        lemma_str_lt_connected(a.drop_first(), b.drop_first());
        vstd::utf8::char_u32_cast(a[0], a[0] as u32);
        vstd::utf8::char_u32_cast(b[0], b[0] as u32);
        assert(a[0] == b[0]);
        assert forall|i: int| 0 <= i < a.len() implies a[i] == b[i] by {
            if i > 0 {
                assert(a.drop_first()[i - 1] == b.drop_first()[i - 1]);
            }
        }
        assert(a =~= b);
    }
}

pub proof fn lemma_str_lt_trans(a: Seq<char>, b: Seq<char>, c: Seq<char>)
    requires
        str_lt(a, b),
        str_lt(b, c),
    ensures
        str_lt(a, c),
    decreases a.len(),
{
    if a.len() != 0 && b.len() != 0 && c.len() != 0 && (a[0] as u32) == (b[0] as u32) && (b[0]
        as u32) == (c[0] as u32) {
        lemma_str_lt_trans(a.drop_first(), b.drop_first(), c.drop_first());
    }
}

/// An equal prefix does not decide the order: it can be dropped.
pub proof fn lemma_str_lt_common_prefix(a: Seq<char>, b: Seq<char>, i: int)
    requires
        0 <= i <= a.len(),
        i <= b.len(),
        forall|k: int| 0 <= k < i ==> a[k] == b[k],
    ensures
        str_lt(a, b) == str_lt(a.skip(i), b.skip(i)),
    decreases i,
{
    if i > 0 && a.len() != 0 && b.len() != 0 {
        assert(a.drop_first().skip(i - 1) =~= a.skip(i));
        assert(b.drop_first().skip(i - 1) =~= b.skip(i));
        lemma_str_lt_common_prefix(a.drop_first(), b.drop_first(), i - 1);
    } else {
        assert(a.skip(0) =~= a);
        assert(b.skip(0) =~= b);
    }
}

/// Lexicographic comparison of two strings, by code point.
pub fn str_lt_exec(a: &String, b: &String) -> (r: bool)
    ensures
        r == str_lt(a@, b@),
{
    let a_str = a.as_str();
    let b_str = b.as_str();
    let a_len = a_str.unicode_len();
    let b_len = b_str.unicode_len();
    let mut i: usize = 0;
    loop
        invariant
            i <= a_len,
            i <= b_len,
            a_len == a@.len(),
            b_len == b@.len(),
            a_str@ == a@,
            b_str@ == b@,
            forall|k: int| 0 <= k < i ==> a@[k] == b@[k],
        decreases a_len - i,
    {
        proof {
            lemma_str_lt_common_prefix(a@, b@, i as int);
        }
        if i == a_len {
            return i < b_len;
        }
        if i == b_len {
            return false;
        }
        let ca = a_str.get_char(i) as u32;
        let cb = b_str.get_char(i) as u32;
        if ca < cb {
            return true;
        }
        if ca > cb {
            return false;
        }
        proof {
            assert(a@.skip(i as int)[0] == a@[i as int]);
            assert(b@.skip(i as int)[0] == b@[i as int]);
        }
        i = i + 1;
    }
}

// ---------------------------------------------------------------------------
// Decimal integer text.  A comparison literal such as `2147483647` reaches
// the engine as text; these functions give it its integer meaning, exactly.
// ---------------------------------------------------------------------------
pub open spec fn is_digit(c: char) -> bool {
    48 <= c as u32 <= 57
}

pub open spec fn digit_val(c: char) -> int {
    c as u32 - 48
}

pub open spec fn is_uint_text(s: Seq<char>) -> bool {
    s.len() > 0 && forall|i: int| 0 <= i < s.len() ==> is_digit(#[trigger] s[i])
}

/// The number written by a digit sequence, most significant digit first.
pub open spec fn uint_val(s: Seq<char>) -> int
    decreases s.len(),
{
    if s.len() == 0 {
        0
    } else {
        uint_val(s.drop_last()) * 10 + digit_val(s.last())
    }
}

pub open spec fn is_int_text(s: Seq<char>) -> bool {
    is_uint_text(s) || (s.len() > 1 && s[0] == '-' && is_uint_text(s.drop_first()))
}

pub open spec fn int_val(s: Seq<char>) -> int {
    if s.len() > 0 && s[0] == '-' {
        -uint_val(s.drop_first())
    } else {
        uint_val(s)
    }
}

pub open spec fn parse_i32_spec(s: Seq<char>) -> Option<i32> {
    if is_int_text(s) && i32::MIN <= int_val(s) <= i32::MAX {
        Option::Some(int_val(s) as i32)
    } else {
        Option::None
    }
}

pub open spec fn parse_i64_spec(s: Seq<char>) -> Option<i64> {
    if is_int_text(s) && i64::MIN <= int_val(s) <= i64::MAX {
        Option::Some(int_val(s) as i64)
    } else {
        Option::None
    }
}

proof fn lemma_uint_val_step(s: Seq<char>, i: int)
    requires
        0 <= i < s.len(),
    ensures
        uint_val(s.take(i + 1)) == uint_val(s.take(i)) * 10 + digit_val(s[i]),
{
    assert(s.take(i + 1).drop_last() =~= s.take(i));
    assert(s.take(i + 1).last() == s[i]);
}

pub proof fn lemma_uint_val_nonneg(s: Seq<char>)
    requires
        forall|i: int| 0 <= i < s.len() ==> is_digit(#[trigger] s[i]),
    ensures
        uint_val(s) >= 0,
    decreases s.len(),
{
    if s.len() > 0 {
        lemma_uint_val_nonneg(s.drop_last());
    }
}

/// Reads the digits of `text` from position `start` on, capping the value at
/// `cap`: the result is the written number or `cap`, whichever is smaller,
/// and `None` when the remainder of the text is not a non-empty digit run.
pub fn parse_uint_capped(text: &String, start: usize, cap: u64) -> (r: Option<u64>)
    requires
        start <= text@.len(),
    ensures
        r == (if is_uint_text(text@.skip(start as int)) {
            if uint_val(text@.skip(start as int)) <= cap as int {
                Option::Some(uint_val(text@.skip(start as int)) as u64)
            } else {
                Option::Some(cap)
            }
        } else {
            Option::<u64>::None
        }),
{
    let ghost s = text@.skip(start as int);
    let t = text.as_str();
    let len = t.unicode_len();
    if start == len {
        return Option::None;
    }
    let mut acc: u64 = 0;
    let mut over: bool = false;
    let mut i: usize = start;
    while i < len
        invariant
            start <= i <= len,
            len == text@.len(),
            t@ == text@,
            s == text@.skip(start as int),
            start < len,
            forall|k: int| 0 <= k < i - start ==> is_digit(#[trigger] s[k]),
            !over ==> acc as int == uint_val(s.take(i - start)) && acc <= cap,
            over ==> uint_val(s.take(i - start)) > cap as int,
        decreases len - i,
    {
        let c = t.get_char(i);
        let cu = c as u32;
        proof {
            assert(s[i - start] == text@[i as int]);
        }
        if cu < 48 || cu > 57 {
            return Option::None;
        }
        let d = (cu - 48) as u64;
        proof {
            lemma_uint_val_step(s, i - start);
            if over {
                lemma_uint_val_nonneg(s.take(i - start));
            }
        }
        if !over {
            let wide: u128 = acc as u128 * 10 + d as u128;
            if wide > cap as u128 {
                over = true;
            } else {
                acc = wide as u64;
            }
        }
        i = i + 1;
    }
    proof {
        assert(s.take(len - start) =~= s);
    }
    if over {
        Option::Some(cap)
    } else {
        Option::Some(acc)
    }
}

/// The meaning of `text` as a 64-bit signed integer: an optional minus sign,
/// then decimal digits; `None` outside that shape or outside the range.
pub fn parse_i64(text: &String) -> (r: Option<i64>)
    ensures
        r == parse_i64_spec(text@),
{
    let t = text.as_str();
    let len = t.unicode_len();
    if len == 0 {
        return Option::None;
    }
    let neg = t.get_char(0) == '-';
    let start: usize = if neg {
        1
    } else {
        0
    };
    // One past the magnitude of `i64::MIN`, so the boundary stays exact.
    let cap: u64 = 9223372036854775809u64;
    let parsed = parse_uint_capped(text, start, cap);
    proof {
        if !neg {
            assert(text@.skip(0) =~= text@);
        } else {
            assert(text@.skip(1) =~= text@.drop_first());
        }
    }
    match parsed {
        Option::None => Option::None,
        Option::Some(v) => {
            proof {
                let ghost s = if neg {
                    text@.drop_first()
                } else {
                    text@
                };
                lemma_uint_val_nonneg(s);
            }
            if v == cap {
                Option::None
            } else if neg {
                if v == 9223372036854775808u64 {
                    Option::Some(i64::MIN)
                } else {
                    Option::Some(-(v as i64))
                }
            } else {
                if v > 9223372036854775807u64 {
                    Option::None
                } else {
                    Option::Some(v as i64)
                }
            }
        },
    }
}

/// The meaning of `text` as a 32-bit signed integer.
pub fn parse_i32(text: &String) -> (r: Option<i32>)
    ensures
        r == parse_i32_spec(text@),
{
    match parse_i64(text) {
        Option::None => Option::None,
        Option::Some(v) => {
            if -2147483648i64 <= v && v <= 2147483647i64 {
                Option::Some(v as i32)
            } else {
                Option::None
            }
        },
    }
}

/// The models of a record sequence.
pub open spec fn records_model(s: Seq<Record>) -> Seq<RecordModel> {
    s.map_values(|r: Record| r@)
}

/// The models of a column-name list.
pub open spec fn names_model(s: Seq<String>) -> Seq<Seq<char>> {
    s.map_values(|x: String| x@)
}

/// Taking models commutes with dropping a prefix.
pub proof fn lemma_records_model_skip(s: Seq<Record>, n: int)
    requires
        0 <= n <= s.len(),
    ensures
        records_model(s.skip(n)) == records_model(s).skip(n),
{
    assert(records_model(s.skip(n)) =~= records_model(s).skip(n));
}

/// Taking models commutes with keeping a prefix.
pub proof fn lemma_records_model_take(s: Seq<Record>, n: int)
    requires
        0 <= n <= s.len(),
    ensures
        records_model(s.take(n)) == records_model(s).take(n),
{
    assert(records_model(s.take(n)) =~= records_model(s).take(n));
}

/// The instant a timestamp text denotes, as nanoseconds since the Unix epoch,
/// or `None` when the text does not denote one the engine can hold.
pub uninterp spec fn instant_of(s: Seq<char>) -> Option<i64>;

/// Relies on chrono's `FromStr` for `DateTime<Utc>` (a relaxed RFC 3339 with
/// an offset, normalized to UTC) and on `DateTime::timestamp_nanos_opt`: the
/// parsed instant in nanoseconds since the Unix epoch, `None` when the text
/// does not parse or the instant falls outside the nanosecond range.  Both
/// depend on the text alone.
#[verifier::external_body]
pub(crate) fn parse_instant(s: &String) -> (r: Option<i64>)
    ensures
        r == instant_of(s@),
{
    match s.parse::<chrono::DateTime<chrono::Utc>>() {
        Ok(dt) => dt.timestamp_nanos_opt(),
        Err(_) => None,
    }
}

// ---------------------------------------------------------------------------
// The natural order of typed values: numbers by magnitude, strings lexically,
// instants chronologically, `false` before `true`.  It is defined between two
// values of the same kind, neither a NaN; all records of one record set share
// one schema, so the engine only ever compares within a kind.
// ---------------------------------------------------------------------------
pub open spec fn same_kind(a: ValueModel, b: ValueModel) -> bool {
    match (a, b) {
        (ValueModel::Str(_), ValueModel::Str(_)) => true,
        (ValueModel::Int32(_), ValueModel::Int32(_)) => true,
        (ValueModel::Int64(_), ValueModel::Int64(_)) => true,
        (ValueModel::Bool(_), ValueModel::Bool(_)) => true,
        (ValueModel::Float32(_), ValueModel::Float32(_)) => true,
        (ValueModel::Float64(_), ValueModel::Float64(_)) => true,
        (ValueModel::DateTime(_), ValueModel::DateTime(_)) => true,
        _ => false,
    }
}

pub open spec fn value_is_nan(v: ValueModel) -> bool {
    match v {
        ValueModel::Float32(b) => f32_is_nan(b),
        ValueModel::Float64(b) => f64_is_nan(b),
        _ => false,
    }
}

/// Two values can be ordered: one kind, and no NaN on either side.
pub open spec fn comparable(a: ValueModel, b: ValueModel) -> bool {
    same_kind(a, b) && !value_is_nan(a) && !value_is_nan(b)
}

pub open spec fn value_lt(a: ValueModel, b: ValueModel) -> bool {
    match (a, b) {
        (ValueModel::Str(x), ValueModel::Str(y)) => str_lt(x, y),
        (ValueModel::Int32(x), ValueModel::Int32(y)) => x < y,
        (ValueModel::Int64(x), ValueModel::Int64(y)) => x < y,
        (ValueModel::Bool(x), ValueModel::Bool(y)) => !x && y,
        (ValueModel::Float32(x), ValueModel::Float32(y)) => f32_cmp_key(x) < f32_cmp_key(y),
        (ValueModel::Float64(x), ValueModel::Float64(y)) => f64_cmp_key(x) < f64_cmp_key(y),
        (ValueModel::DateTime(x), ValueModel::DateTime(y)) => x < y,
        _ => false,
    }
}

/// Equality under the comparison model: both IEEE zeros count as equal.
pub open spec fn value_eq(a: ValueModel, b: ValueModel) -> bool {
    match (a, b) {
        (ValueModel::Str(x), ValueModel::Str(y)) => x == y,
        (ValueModel::Int32(x), ValueModel::Int32(y)) => x == y,
        (ValueModel::Int64(x), ValueModel::Int64(y)) => x == y,
        (ValueModel::Bool(x), ValueModel::Bool(y)) => x == y,
        (ValueModel::Float32(x), ValueModel::Float32(y)) => f32_cmp_key(x) == f32_cmp_key(y),
        (ValueModel::Float64(x), ValueModel::Float64(y)) => f64_cmp_key(x) == f64_cmp_key(y),
        (ValueModel::DateTime(x), ValueModel::DateTime(y)) => x == y,
        _ => false,
    }
}

/// Of two comparable values, exactly one of "less", "equal", "greater" holds.
pub proof fn lemma_value_trichotomy(a: ValueModel, b: ValueModel)
    requires
        comparable(a, b),
    ensures
        value_lt(a, b) || value_eq(a, b) || value_lt(b, a),
        value_lt(a, b) ==> !value_eq(a, b) && !value_lt(b, a),
        value_eq(a, b) ==> !value_lt(a, b) && !value_lt(b, a),
        value_eq(a, b) == value_eq(b, a),
{
    if let (ValueModel::Str(x), ValueModel::Str(y)) = (a, b) {
        if str_lt(x, y) {
            lemma_str_lt_asymmetric(x, y);
        } else if str_lt(y, x) {
            lemma_str_lt_asymmetric(y, x);
        } else {
            lemma_str_lt_connected(x, y);
        }
    }
}

pub proof fn lemma_value_lt_trans(a: ValueModel, b: ValueModel, c: ValueModel)
    requires
        value_lt(a, b),
        value_lt(b, c),
    ensures
        value_lt(a, c),
{
    if let (ValueModel::Str(x), ValueModel::Str(y)) = (a, b) {
        if let ValueModel::Str(z) = c {
            lemma_str_lt_trans(x, y, z);
        }
    }
}

/// A value equal to another orders the same way against any third value.
pub proof fn lemma_value_eq_substitution(a: ValueModel, b: ValueModel, c: ValueModel)
    requires
        value_eq(a, b),
    ensures
        value_lt(a, c) == value_lt(b, c),
        value_lt(c, a) == value_lt(c, b),
        value_eq(a, c) == value_eq(b, c),
{
}

pub fn value_lt_exec(a: &TypedValue, b: &TypedValue) -> (r: bool)
    requires
        comparable(a@, b@),
    ensures
        r == value_lt(a@, b@),
{
    match (a, b) {
        (TypedValue::String(x), TypedValue::String(y)) => str_lt_exec(x, y),
        (TypedValue::Int32(x), TypedValue::Int32(y)) => *x < *y,
        (TypedValue::Int64(x), TypedValue::Int64(y)) => *x < *y,
        (TypedValue::Bool(x), TypedValue::Bool(y)) => !*x && *y,
        (TypedValue::Float32(x), TypedValue::Float32(y)) => f32_cmp_key_exec(*x)
            < f32_cmp_key_exec(*y),
        (TypedValue::Float64(x), TypedValue::Float64(y)) => f64_cmp_key_exec(*x)
            < f64_cmp_key_exec(*y),
        (TypedValue::DateTime(x), TypedValue::DateTime(y)) => *x < *y,
        _ => {
            assert(false);
            false
        },
    }
}

pub fn value_eq_exec(a: &TypedValue, b: &TypedValue) -> (r: bool)
    requires
        comparable(a@, b@),
    ensures
        r == value_eq(a@, b@),
{
    match (a, b) {
        (TypedValue::String(x), TypedValue::String(y)) => *x == *y,
        (TypedValue::Int32(x), TypedValue::Int32(y)) => *x == *y,
        (TypedValue::Int64(x), TypedValue::Int64(y)) => *x == *y,
        (TypedValue::Bool(x), TypedValue::Bool(y)) => *x == *y,
        (TypedValue::Float32(x), TypedValue::Float32(y)) => f32_cmp_key_exec(*x)
            == f32_cmp_key_exec(*y),
        (TypedValue::Float64(x), TypedValue::Float64(y)) => f64_cmp_key_exec(*x)
            == f64_cmp_key_exec(*y),
        (TypedValue::DateTime(x), TypedValue::DateTime(y)) => *x == *y,
        _ => {
            assert(false);
            false
        },
    }
}

} // verus!
