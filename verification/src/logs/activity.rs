//! Per-source activity: how many records each process has in the buffer and
//! when it was last seen.

use vstd::prelude::*;
use crate::logs::buffer::views;
use crate::logs::entry::{LogEntry, LogEntryView};
use crate::text::{
    lemma_lex_irreflexive, lemma_lex_total, lemma_lex_transitive, lex_less, string_less,
};

verus! {

/// One line of the summary: a process name, the number of its records, and
/// the greatest of their timestamps.
pub type ActivityRow = (Seq<char>, nat, Seq<char>);

/// How many of `entries` come from the process `name`.
pub open spec fn count_of(entries: Seq<LogEntryView>, name: Seq<char>) -> nat
    decreases entries.len(),
{
    if entries.len() == 0 {
        0
    } else {
        count_of(entries.drop_last(), name) + if entries.last().process == name {
            1nat
        } else {
            0nat
        }
    }
}

/// The greatest timestamp among the records of `name` in `entries`, in the
/// order of strings; empty where it has none.
pub open spec fn last_seen(entries: Seq<LogEntryView>, name: Seq<char>) -> Seq<char>
    decreases entries.len(),
{
    if entries.len() == 0 {
        Seq::empty()
    } else {
        let before = last_seen(entries.drop_last(), name);
        let e = entries.last();
        if e.process == name && lex_less(before, e.timestamp) {
            e.timestamp
        } else {
            before
        }
    }
}

/// Whether `row` says of its process what `entries` holds of it.
pub open spec fn describes(entries: Seq<LogEntryView>, row: ActivityRow) -> bool {
    &&& row.1 > 0
    &&& row.1 == count_of(entries, row.0)
    &&& row.2 == last_seen(entries, row.0)
}

/// Whether some row is about the process `name`.
pub open spec fn has_name(rows: Seq<ActivityRow>, name: Seq<char>) -> bool {
    exists|i: int| 0 <= i < rows.len() && (#[trigger] rows[i]).0 == name
}

/// Whether every row says of its process what `entries` holds of it.
pub open spec fn all_describe(entries: Seq<LogEntryView>, rows: Seq<ActivityRow>) -> bool {
    forall|i: int| 0 <= i < rows.len() ==> describes(entries, #[trigger] rows[i])
}

/// Whether no two rows are about the same process.
pub open spec fn names_distinct(rows: Seq<ActivityRow>) -> bool {
    forall|i: int, j: int|
        0 <= i < j < rows.len() ==> (#[trigger] rows[i]).0 != (#[trigger] rows[j]).0
}

/// Whether every process of `entries` has a row.
pub open spec fn names_cover(rows: Seq<ActivityRow>, entries: Seq<LogEntryView>) -> bool {
    forall|k: int| 0 <= k < entries.len() ==> has_name(rows, (#[trigger] entries[k]).process)
}

/// Whether the numbers of records never go up from row to row.
pub open spec fn descending(rows: Seq<ActivityRow>) -> bool {
    forall|i: int, j: int|
        0 <= i < j < rows.len() ==> (#[trigger] rows[i]).1 >= (#[trigger] rows[j]).1
}

/// Whether `rows` is a summary of `entries`: one row for each process that
/// occurs, with the number of its records and the greatest of their
/// timestamps, the rows with more records first.
pub open spec fn is_summary(rows: Seq<ActivityRow>, entries: Seq<LogEntryView>) -> bool {
    &&& all_describe(entries, rows)
    &&& names_distinct(rows)
    &&& names_cover(rows, entries)
    &&& descending(rows)
}

/// What a row holds, as mathematical values.
pub open spec fn row_view(row: (String, usize, String)) -> ActivityRow {
    (row.0@, row.1 as nat, row.2@)
}

/// What the rows hold, as mathematical values.
pub open spec fn row_views(rows: Seq<(String, usize, String)>) -> Seq<ActivityRow> {
    rows.map_values(|r: (String, usize, String)| row_view(r))
}

/// A process that does not occur has no records and was never seen.
pub proof fn lemma_absent(entries: Seq<LogEntryView>, name: Seq<char>)
    requires
        forall|k: int| 0 <= k < entries.len() ==> (#[trigger] entries[k]).process != name,
    ensures
        count_of(entries, name) == 0,
        last_seen(entries, name) == Seq::<char>::empty(),
    decreases entries.len(),
{
    if entries.len() > 0 {
        assert(entries.last() == entries[entries.len() - 1]);
        lemma_absent(entries.drop_last(), name);
    }
}

/// No process has more records than there are.
pub proof fn lemma_count_bounded(entries: Seq<LogEntryView>, name: Seq<char>)
    ensures
        count_of(entries, name) <= entries.len(),
    decreases entries.len(),
{
    if entries.len() > 0 {
        lemma_count_bounded(entries.drop_last(), name);
    }
}

/// Nothing comes before the empty string.
pub proof fn lemma_empty_is_least(t: Seq<char>)
    ensures
        lex_less(Seq::empty(), t) <==> t.len() > 0,
        !lex_less(t, Seq::empty()),
{
}

/// A process without records does not occur.
pub proof fn lemma_uncounted_is_absent(entries: Seq<LogEntryView>, name: Seq<char>)
    requires
        count_of(entries, name) == 0,
    ensures
        forall|k: int| 0 <= k < entries.len() ==> (#[trigger] entries[k]).process != name,
    decreases entries.len(),
{
    if entries.len() > 0 {
        lemma_uncounted_is_absent(entries.drop_last(), name);
        assert forall|k: int| 0 <= k < entries.len() implies (#[trigger] entries[k]).process
            != name by {
            if k < entries.len() - 1 {
                assert(entries[k] == entries.drop_last()[k]);
            }
        }
    }
}

/// `last_seen` is the greatest timestamp of the process in the order of
/// strings: none of its records has a later one, and where it has records,
/// one of them carries it.
pub proof fn lemma_last_seen_is_greatest(entries: Seq<LogEntryView>, name: Seq<char>)
    ensures
        forall|k: int|
            0 <= k < entries.len() && (#[trigger] entries[k]).process == name ==> !lex_less(
                last_seen(entries, name),
                entries[k].timestamp,
            ),
        count_of(entries, name) > 0 ==> exists|k: int|
            0 <= k < entries.len() && (#[trigger] entries[k]).process == name
                && entries[k].timestamp == last_seen(entries, name),
    decreases entries.len(),
{
    if entries.len() > 0 {
        let earlier = entries.drop_last();
        let e = entries.last();
        let before = last_seen(earlier, name);
        let latest = last_seen(entries, name);
        lemma_last_seen_is_greatest(earlier, name);
        assert forall|k: int|
            0 <= k < entries.len() && (#[trigger] entries[k]).process == name implies !lex_less(
            latest,
            entries[k].timestamp,
        ) by {
            if k < entries.len() - 1 {
                assert(entries[k] == earlier[k]);
                if latest != before && lex_less(latest, entries[k].timestamp) {
                    lemma_lex_transitive(before, latest, entries[k].timestamp);
                }
            } else {
                lemma_lex_irreflexive(e.timestamp);
            }
        }
        if count_of(entries, name) > 0 {
            if e.process == name && lex_less(before, e.timestamp) {
                assert(entries[entries.len() - 1].timestamp == latest);
            } else if count_of(earlier, name) > 0 {
                let k = choose|k: int|
                    0 <= k < earlier.len() && (#[trigger] earlier[k]).process == name
                        && earlier[k].timestamp == before;
                assert(entries[k] == earlier[k]);
            } else {
                lemma_uncounted_is_absent(earlier, name);
                lemma_absent(earlier, name);
                lemma_empty_is_least(e.timestamp);
                assert(e.timestamp =~= Seq::<char>::empty());
                assert(entries[entries.len() - 1].timestamp == latest);
            }
        }
    }
}

/// The greatest timestamp is the only one: a timestamp that a record of the
/// process carries, and that none of its records exceeds, is `last_seen`.
pub proof fn lemma_greatest_is_last_seen(
    entries: Seq<LogEntryView>,
    name: Seq<char>,
    k: int,
)
    requires
        0 <= k < entries.len(),
        entries[k].process == name,
        forall|i: int|
            0 <= i < entries.len() && (#[trigger] entries[i]).process == name ==> !lex_less(
                entries[k].timestamp,
                entries[i].timestamp,
            ),
    ensures
        last_seen(entries, name) == entries[k].timestamp,
{
    lemma_last_seen_is_greatest(entries, name);
    lemma_count_positive(entries, name, k);
    let w = choose|w: int|
        0 <= w < entries.len() && (#[trigger] entries[w]).process == name && entries[w].timestamp
            == last_seen(entries, name);
    lemma_lex_total(entries[k].timestamp, entries[w].timestamp);
}

/// A process that occurs has a record.
pub proof fn lemma_count_positive(entries: Seq<LogEntryView>, name: Seq<char>, k: int)
    requires
        0 <= k < entries.len(),
        entries[k].process == name,
    ensures
        count_of(entries, name) > 0,
    decreases entries.len(),
{
    if k < entries.len() - 1 {
        lemma_count_positive(entries.drop_last(), name, k);
    }
}

/// The index of the row about `name`, or the number of rows where there is
/// none.
fn find_row(groups: &Vec<(String, usize, String)>, name: &String) -> (i: usize)
    ensures
        i <= groups.len(),
        i < groups.len() ==> groups@[i as int].0@ == name@,
        i == groups.len() ==> !has_name(row_views(groups@), name@),
{
    let mut i: usize = 0;
    while i < groups.len()
        invariant
            i <= groups.len(),
            forall|k: int| 0 <= k < i ==> (#[trigger] row_views(groups@)[k]).0 != name@,
        decreases groups.len() - i,
    {
        if groups[i].0 == *name {
            return i;
        }
        assert(row_views(groups@)[i as int].0 == groups@[i as int].0@);
        i += 1;
    }
    i
}

/// One row for each process of `entries`, in the order in which the
/// processes first occur.
fn group_entries(entries: &Vec<LogEntry>) -> (groups: Vec<(String, usize, String)>)
    ensures
        all_describe(views(entries@), row_views(groups@)),
        names_distinct(row_views(groups@)),
        names_cover(row_views(groups@), views(entries@)),
{
    let ghost all = views(entries@);
    let mut groups: Vec<(String, usize, String)> = Vec::new();
    let mut k: usize = 0;
    while k < entries.len()
        invariant
            k <= entries.len(),
            all == views(entries@),
            all_describe(all.take(k as int), row_views(groups@)),
            names_distinct(row_views(groups@)),
            names_cover(row_views(groups@), all.take(k as int)),
        decreases entries.len() - k,
    {
        let e = &entries[k];
        let ghost before = all.take(k as int);
        let ghost after = all.take(k + 1);
        let ghost rows = row_views(groups@);
        assert(after.drop_last() == before);
        assert(after.last() == e@);
        let i = find_row(&groups, &e.process);
        if i < groups.len() {
            proof {
                lemma_count_bounded(before, e.process@);
                assert(describes(before, rows[i as int]));
            }
            groups[i].1 = groups[i].1 + 1;
            if string_less(groups[i].2.as_str(), e.timestamp.as_str()) {
                groups[i].2 = e.timestamp.clone();
            }
            proof {
                let rows2 = row_views(groups@);
                assert forall|r: int| 0 <= r < rows2.len() implies describes(
                    after,
                    #[trigger] rows2[r],
                ) by {
                    assert(describes(before, rows[r]));
                    if r != i {
                        assert(rows2[r] == rows[r]);
                        assert(rows[r].0 != rows[i as int].0);
                    }
                }
                assert forall|a: int, b: int| 0 <= a < b < rows2.len() implies (
                #[trigger] rows2[a]).0 != (#[trigger] rows2[b]).0 by {
                    assert(rows2[a].0 == rows[a].0);
                    assert(rows2[b].0 == rows[b].0);
                }
                assert forall|j: int| 0 <= j < after.len() implies has_name(
                    rows2,
                    (#[trigger] after[j]).process,
                ) by {
                    if j < k {
                        assert(after[j] == before[j]);
                        assert(has_name(rows, before[j].process));
                        let w = choose|w: int|
                            0 <= w < rows.len() && (#[trigger] rows[w]).0 == before[j].process;
                        assert(rows2[w].0 == rows[w].0);
                    } else {
                        assert(rows2[i as int].0 == e.process@);
                    }
                }
            }
        } else {
            proof {
                assert forall|j: int| 0 <= j < before.len() implies (
                #[trigger] before[j]).process != e.process@ by {
                    assert(has_name(rows, before[j].process));
                }
                lemma_absent(before, e.process@);
                lemma_empty_is_least(e.timestamp@);
            }
            groups.push((e.process.clone(), 1, e.timestamp.clone()));
            proof {
                let rows2 = row_views(groups@);
                assert(rows2 == rows.push((e.process@, 1nat, e.timestamp@)));
                assert(describes(after, rows2[rows.len() as int])) by {
                    if e.timestamp@.len() == 0 {
                        assert(e.timestamp@ == Seq::<char>::empty());
                    }
                }
                assert forall|r: int| 0 <= r < rows2.len() implies describes(
                    after,
                    #[trigger] rows2[r],
                ) by {
                    if r < rows.len() {
                        assert(rows2[r] == rows[r]);
                        assert(describes(before, rows[r]));
                        assert(rows[r].0 != e.process@);
                    }
                }
                assert forall|a: int, b: int| 0 <= a < b < rows2.len() implies (
                #[trigger] rows2[a]).0 != (#[trigger] rows2[b]).0 by {
                    assert(rows2[a] == rows[a]);
                    if b < rows.len() {
                        assert(rows2[b] == rows[b]);
                    }
                }
                assert forall|j: int| 0 <= j < after.len() implies has_name(
                    rows2,
                    (#[trigger] after[j]).process,
                ) by {
                    if j < k {
                        assert(after[j] == before[j]);
                        assert(has_name(rows, before[j].process));
                        let w = choose|w: int|
                            0 <= w < rows.len() && (#[trigger] rows[w]).0 == before[j].process;
                        assert(rows2[w] == rows[w]);
                    } else {
                        assert(rows2[rows.len() as int].0 == e.process@);
                    }
                }
            }
        }
        k += 1;
    }
    assert(all.take(k as int) == all);
    groups
}

/// Putting a row about a new process where the counts allow keeps the rows
/// in order and about different processes.
proof fn lemma_insert_row(
    entries: Seq<LogEntryView>,
    rows: Seq<ActivityRow>,
    p: int,
    row: ActivityRow,
)
    requires
        all_describe(entries, rows),
        names_distinct(rows),
        descending(rows),
        describes(entries, row),
        !has_name(rows, row.0),
        0 <= p <= rows.len(),
        forall|k: int| 0 <= k < p ==> (#[trigger] rows[k]).1 >= row.1,
        p < rows.len() ==> rows[p].1 < row.1,
    ensures
        all_describe(entries, rows.insert(p, row)),
        names_distinct(rows.insert(p, row)),
        descending(rows.insert(p, row)),
        has_name(rows.insert(p, row), row.0),
        forall|name: Seq<char>| has_name(rows, name) ==> has_name(rows.insert(p, row), name),
{
    let out = rows.insert(p, row);
    assert(out[p] == row);
    assert forall|i: int| 0 <= i < out.len() implies describes(entries, #[trigger] out[i]) by {
        if i < p {
            assert(out[i] == rows[i]);
        } else if i > p {
            assert(out[i] == rows[i - 1]);
        }
    }
    assert forall|i: int, j: int| 0 <= i < j < out.len() implies (#[trigger] out[i]).0 != (
    #[trigger] out[j]).0 && out[i].1 >= out[j].1 by {
        let a = if i < p {
            i
        } else {
            i - 1
        };
        let b = if j < p {
            j
        } else {
            j - 1
        };
        if i != p {
            assert(out[i] == rows[a]);
        }
        if j != p {
            assert(out[j] == rows[b]);
        }
        if i == p {
            assert(rows[p].1 < row.1);
            if b > p {
                assert(rows[p].1 >= rows[b].1);
            }
        }
    }
    assert forall|name: Seq<char>| has_name(rows, name) implies has_name(out, name) by {
        let w = choose|w: int| 0 <= w < rows.len() && (#[trigger] rows[w]).0 == name;
        if w < p {
            assert(out[w] == rows[w]);
        } else {
            assert(out[w + 1] == rows[w]);
        }
    }
}

/// The rows of `groups`, those with more records first.
fn sort_rows(groups: &Vec<(String, usize, String)>, Ghost(entries): Ghost<Seq<LogEntryView>>) -> (sorted:
    Vec<(String, usize, String)>)
    requires
        all_describe(entries, row_views(groups@)),
        names_distinct(row_views(groups@)),
    ensures
        all_describe(entries, row_views(sorted@)),
        names_distinct(row_views(sorted@)),
        descending(row_views(sorted@)),
        forall|name: Seq<char>|
            has_name(row_views(groups@), name) ==> has_name(row_views(sorted@), name),
{
    let ghost given = row_views(groups@);
    let mut sorted: Vec<(String, usize, String)> = Vec::new();
    let mut i: usize = 0;
    while i < groups.len()
        invariant
            i <= groups.len(),
            given == row_views(groups@),
            all_describe(entries, given),
            names_distinct(given),
            all_describe(entries, row_views(sorted@)),
            names_distinct(row_views(sorted@)),
            descending(row_views(sorted@)),
            forall|j: int| 0 <= j < i ==> has_name(row_views(sorted@), (#[trigger] given[j]).0),
            forall|name: Seq<char>|
                has_name(row_views(sorted@), name) ==> exists|j: int|
                    0 <= j < i && (#[trigger] given[j]).0 == name,
        decreases groups.len() - i,
    {
        let ghost rows = row_views(sorted@);
        let count: usize = groups[i].1;
        let mut p: usize = 0;
        while p < sorted.len() && sorted[p].1 >= count
            invariant
                p <= sorted.len(),
                rows == row_views(sorted@),
                forall|k: int| 0 <= k < p ==> (#[trigger] rows[k]).1 >= count,
            decreases sorted.len() - p,
        {
            assert(rows[p as int].1 == sorted@[p as int].1);
            p += 1;
        }
        let row = (groups[i].0.clone(), count, groups[i].2.clone());
        proof {
            assert(row_view(row) == given[i as int]);
            assert(describes(entries, given[i as int]));
            if has_name(rows, given[i as int].0) {
                let j = choose|j: int| 0 <= j < i && (#[trigger] given[j]).0 == given[i as int].0;
                assert(false);
            }
            if p < sorted.len() {
                assert(rows[p as int].1 == sorted@[p as int].1);
            }
            lemma_insert_row(entries, rows, p as int, given[i as int]);
        }
        sorted.insert(p, row);
        proof {
            let rows2 = row_views(sorted@);
            assert(rows2 == rows.insert(p as int, given[i as int]));
            assert forall|name: Seq<char>| has_name(rows2, name) implies exists|j: int|
                0 <= j < i + 1 && (#[trigger] given[j]).0 == name by {
                let w = choose|w: int| 0 <= w < rows2.len() && (#[trigger] rows2[w]).0 == name;
                if w == p {
                    assert(given[i as int].0 == name);
                } else {
                    let v = if w < p {
                        w
                    } else {
                        w - 1
                    };
                    assert(rows2[w] == rows[v]);
                    assert(has_name(rows, name));
                }
            }
        }
        i += 1;
    }
    proof {
        assert forall|name: Seq<char>| has_name(given, name) implies has_name(
            row_views(sorted@),
            name,
        ) by {
            let w = choose|w: int| 0 <= w < given.len() && (#[trigger] given[w]).0 == name;
        }
    }
    sorted
}

/// The activity of each process in `entries`: its name, the number of its
/// records and the greatest of their timestamps, the processes with more
/// records first. Processes with as many records come in no promised
/// order.
pub fn summarize(entries: &Vec<LogEntry>) -> (summary: Vec<(String, usize, String)>)
    ensures
        is_summary(row_views(summary@), views(entries@)),
{
    let groups = group_entries(entries);
    let summary = sort_rows(&groups, Ghost(views(entries@)));
    proof {
        let all = views(entries@);
        assert forall|k: int| 0 <= k < all.len() implies has_name(
            row_views(summary@),
            (#[trigger] all[k]).process,
        ) by {
            assert(has_name(row_views(groups@), all[k].process));
        }
    }
    summary
}

} // verus!
