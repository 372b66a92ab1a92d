use vstd::prelude::*;

use crate::schema::ColumnModel;
use crate::values::{names_model, records_model, Record, RecordModel};

verus! {

// ---------------------------------------------------------------------------
// The verified half of record extraction.  Matching a line against the
// extraction pattern is the pattern engine's work; what is decided here is
// how the per-line outcomes become a record sequence: each matched line
// starts a record, each unmatched line becomes continuation text of the
// record before it, and unmatched lines before the first record are dropped.
// ---------------------------------------------------------------------------
/// What one input line produced: a record, or text that matched nothing.
#[derive(Debug, PartialEq)]
pub enum LineOutcome {
    Matched(Record),
    Unmatched(String),
}

pub enum LineOutcomeModel {
    Matched(RecordModel),
    Unmatched(Seq<char>),
}

impl View for LineOutcome {
    type V = LineOutcomeModel;

    open spec fn view(&self) -> LineOutcomeModel {
        match self {
            LineOutcome::Matched(r) => LineOutcomeModel::Matched(r@),
            LineOutcome::Unmatched(s) => LineOutcomeModel::Unmatched(s@),
        }
    }
}

/// The models of a line-outcome sequence.
pub open spec fn outcomes_model(s: Seq<LineOutcome>) -> Seq<LineOutcomeModel> {
    s.map_values(|o: LineOutcome| o@)
}

/// A record with one more continuation line.
pub open spec fn with_extra_line(rec: RecordModel, line: Seq<char>) -> RecordModel {
    RecordModel {
        values: rec.values,
        extra_text: match rec.extra_text {
            Option::None => Option::Some(seq![line]),
            Option::Some(lines) => Option::Some(lines.push(line)),
        },
    }
}

/// The record sequence the line outcomes describe.
pub open spec fn grouped_records(items: Seq<LineOutcomeModel>) -> Seq<RecordModel>
    decreases items.len(),
{
    if items.len() == 0 {
        Seq::empty()
    } else {
        let prev = grouped_records(items.drop_last());
        match items.last() {
            LineOutcomeModel::Matched(r) => prev.push(r),
            LineOutcomeModel::Unmatched(line) => if prev.len() == 0 {
                prev
            } else {
                prev.update(prev.len() - 1, with_extra_line(prev.last(), line))
            },
        }
    }
}

/// Groups per-line outcomes into records: matched lines in order, each
/// unmatched line appended to the record before it, leading unmatched lines
/// dropped.
pub fn group_records(items: Vec<LineOutcome>) -> (r: Vec<Record>)
    ensures
        records_model(r@) == grouped_records(outcomes_model(items@)),
{
    let ghost all = outcomes_model(items@);
    let mut items = items;
    let mut out: Vec<Record> = Vec::new();
    let total = items.len();
    proof {
        assert(all.len() == total as int);
        assert(all.take(0) =~= Seq::<LineOutcomeModel>::empty());
    }
    let mut i: usize = 0;
    while items.len() > 0
        invariant
            i + items@.len() == total as int,
            all.len() == total as int,
            outcomes_model(items@) =~= all.skip(i as int),
            i <= total,
            records_model(out@) == grouped_records(all.take(i as int)),
        decreases items@.len(),
    {
        let ghost before = items@;
        let item = items.remove(0);
        proof {
            assert(item == before[0]);
            assert(outcomes_model(before)[0] == before[0]@);
            assert(all.skip(i as int)[0] == all[i as int]);
            assert(item@ == all[i as int]);
            assert forall|k: int|
                0 <= k < items@.len() implies outcomes_model(items@)[k] == all.skip(i + 1)[k] by {
                assert(items@[k] == before[k + 1]);
                assert(outcomes_model(before)[k + 1] == before[k + 1]@);
                assert(all.skip(i as int)[k + 1] == all[i + 1 + k]);
            }
            assert(outcomes_model(items@) =~= all.skip(i + 1));
            assert(all.take(i + 1).drop_last() =~= all.take(i as int));
            assert(all.take(i + 1).last() == all[i as int]);
        }
        let ghost out_before = out@;
        match item {
            LineOutcome::Matched(rec) => {
                out.push(rec);
                proof {
                    assert forall|k: int|
                        0 <= k < out@.len() implies records_model(out@)[k] == grouped_records(
                        all.take(i + 1),
                    )[k] by {
                        if k < out_before.len() {
                            assert(out@[k] == out_before[k]);
                            assert(records_model(out_before)[k] == out_before[k]@);
                        }
                    }
                    assert(records_model(out@) =~= grouped_records(all.take(i + 1)));
                }
            },
            LineOutcome::Unmatched(line) => {
                let ghost line_view = line@;
                if out.len() > 0 {
                    let last = match out.pop() {
                        Option::Some(r) => r,
                        Option::None => {
                            proof {
                                assert(false);
                            }
                            return out;
                        },
                    };
                    let Record { values, extra_text } = last;
                    let extra_text = match extra_text {
                        Option::None => {
                            let mut lines: Vec<String> = Vec::new();
                            lines.push(line);
                            proof {
                                assert(lines.deep_view() =~= seq![line_view]);
                            }
                            Option::Some(lines)
                        },
                        Option::Some(mut lines) => {
                            let ghost lines_before = lines.deep_view();
                            lines.push(line);
                            proof {
                                assert forall|k: int|
                                    0 <= k < lines.deep_view().len() implies lines.deep_view()[k]
                                    == lines_before.push(line_view)[k] by {
                                    if k < lines_before.len() {
                                        assert(lines@[k] == lines@[k]);
                                    }
                                }
                                assert(lines.deep_view() =~= lines_before.push(line_view));
                            }
                            Option::Some(lines)
                        },
                    };
                    let merged = Record { values, extra_text };
                    out.push(merged);
                    proof {
                        assert(merged@ == with_extra_line(out_before.last()@, line_view));
                        assert forall|k: int|
                            0 <= k < out@.len() implies records_model(out@)[k] == grouped_records(
                            all.take(i + 1),
                        )[k] by {
                            assert(grouped_records(all.take(i + 1)) == grouped_records(
                                all.take(i as int),
                            ).update(
                                grouped_records(all.take(i as int)).len() - 1,
                                with_extra_line(
                                    grouped_records(all.take(i as int)).last(),
                                    line_view,
                                ),
                            ));
                            if k < out@.len() - 1 {
                                assert(out@[k] == out_before[k]);
                                assert(records_model(out_before)[k] == out_before[k]@);
                            } else {
                                assert(out@[k] == merged);
                                assert(records_model(out_before).last() == out_before.last()@);
                            }
                        }
                        assert(records_model(out@) =~= grouped_records(all.take(i + 1)));
                    }
                } else {
                    proof {
                        assert(records_model(out@) =~= grouped_records(all.take(i + 1)));
                    }
                }
            },
        }
        i = i + 1;
    }
    proof {
        assert(all.take(total as int) =~= all);
    }
    out
}

// ---------------------------------------------------------------------------
// Capture-group coverage: every schema column must correspond to a named
// capture group of the extraction pattern.
// ---------------------------------------------------------------------------
/// The schema column names that appear in no capture group, in declaration
/// order.
pub open spec fn missing_names(cols: Seq<ColumnModel>, caps: Seq<Seq<char>>) -> Seq<Seq<char>>
    decreases cols.len(),
{
    if cols.len() == 0 {
        Seq::empty()
    } else {
        let rest = missing_names(cols.drop_last(), caps);
        if !caps.contains(cols.last().name) {
            rest.push(cols.last().name)
        } else {
            rest
        }
    }
}

fn contains_name(caps: &Vec<String>, name: &String) -> (r: bool)
    ensures
        r == names_model(caps@).contains(name@),
{
    let n = caps.len();
    for i in 0..n
        invariant
            n == caps.len(),
            forall|k: int| 0 <= k < i ==> names_model(caps@)[k] != name@,
    {
        proof {
            assert(names_model(caps@)[i as int] == caps@[i as int]@);
        }
        if caps[i] == *name {
            return true;
        }
    }
    proof {
        assert forall|k: int| 0 <= k < names_model(caps@).len() implies names_model(caps@)[k]
            != name@ by {}
    }
    false
}

/// The schema columns that the capture-group names do not cover.
pub fn missing_columns(columns: &Vec<crate::schema::Column>, capture_names: &Vec<String>) -> (r:
    Vec<String>)
    ensures
        names_model(r@) == missing_names(
            crate::schema::columns_model(columns@),
            names_model(capture_names@),
        ),
{
    let ghost cols = crate::schema::columns_model(columns@);
    let ghost caps = names_model(capture_names@);
    let mut out: Vec<String> = Vec::new();
    let n = columns.len();
    proof {
        assert(cols.take(0) =~= Seq::<ColumnModel>::empty());
    }
    for i in 0..n
        invariant
            n == columns.len(),
            cols == crate::schema::columns_model(columns@),
            caps == names_model(capture_names@),
            names_model(out@) == missing_names(cols.take(i as int), caps),
    {
        proof {
            assert(cols[i as int] == columns@[i as int]@);
            assert(cols.take(i + 1).drop_last() =~= cols.take(i as int));
            assert(cols.take(i + 1).last() == cols[i as int]);
        }
        let ghost out_before = out@;
        if !contains_name(capture_names, &columns[i].name) {
            let name = columns[i].name.clone();
            let ghost name_view = name@;
            out.push(name);
            proof {
                assert forall|k: int|
                    0 <= k < out@.len() implies names_model(out@)[k] == missing_names(
                    cols.take(i + 1),
                    caps,
                )[k] by {
                    if k < out_before.len() {
                        assert(out@[k] == out_before[k]);
                        assert(names_model(out_before)[k] == out_before[k]@);
                    } else {
                        assert(out@[k]@ == name_view);
                    }
                }
                assert(names_model(out@) =~= missing_names(cols.take(i + 1), caps));
            }
        } else {
            proof {
                assert(names_model(out@) =~= missing_names(cols.take(i + 1), caps));
            }
        }
    }
    proof {
        assert(cols.take(n as int) =~= cols);
    }
    out
}

} // verus!
