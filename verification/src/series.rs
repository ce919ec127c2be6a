//! Grouping the values read for a run of events into one series per metric
//! and label set, ordered by metric name and then by label set.
use vstd::prelude::*;
use crate::config::opt_string_view;
use crate::models::{Metrics, Series};
use crate::text::{
    lemma_seq_lt_irreflexive, lemma_seq_lt_total, lemma_seq_lt_transitive, seq_lt, str_eq,
    str_lt,
};

verus! {

/// What a series is known by: its metric's name and its label set.
pub type SeriesKey = (Seq<char>, Option<Seq<char>>);

/// The order of label sets: no labels first, then label sets in
/// lexicographic order.
pub open spec fn label_lt(a: Option<Seq<char>>, b: Option<Seq<char>>) -> bool {
    match (a, b) {
        (None, Some(_)) => true,
        (Some(x), Some(y)) => seq_lt(x, y),
        _ => false,
    }
}

/// The order of series: by metric name, then by label set.
pub open spec fn key_lt(a: SeriesKey, b: SeriesKey) -> bool {
    seq_lt(a.0, b.0) || (a.0 == b.0 && label_lt(a.1, b.1))
}

pub proof fn lemma_key_lt_irreflexive(a: SeriesKey)
    ensures
        !key_lt(a, a),
{
    lemma_seq_lt_irreflexive(a.0);
    if let Some(x) = a.1 {
        lemma_seq_lt_irreflexive(x);
    }
}

pub proof fn lemma_key_lt_transitive(a: SeriesKey, b: SeriesKey, c: SeriesKey)
    requires
        key_lt(a, b),
        key_lt(b, c),
    ensures
        key_lt(a, c),
{
    if seq_lt(a.0, b.0) && seq_lt(b.0, c.0) {
        lemma_seq_lt_transitive(a.0, b.0, c.0);
    }
    if a.0 == b.0 && b.0 == c.0 {
        lemma_seq_lt_irreflexive(a.0);
        if let (Some(x), Some(y), Some(z)) = (a.1, b.1, c.1) {
            lemma_seq_lt_transitive(x, y, z);
        }
    }
}

pub proof fn lemma_key_lt_total(a: SeriesKey, b: SeriesKey)
    ensures
        a == b || key_lt(a, b) || key_lt(b, a),
{
    lemma_seq_lt_total(a.0, b.0);
    if let (Some(x), Some(y)) = (a.1, b.1) {
        lemma_seq_lt_total(x, y);
    }
}

/// The name and label set that a metric id and a label id stand for.
pub struct SeriesName {
    pub metric_id: i64,
    pub label_id: Option<i64>,
    pub name: String,
    pub label: Option<String>,
}

/// A value read for a metric id and a label id at an event.
pub struct ValueRow {
    pub event_id: i64,
    pub metric_id: i64,
    pub label_id: Option<i64>,
    pub value: Option<i64>,
}

pub open spec fn name_key(n: SeriesName) -> SeriesKey {
    (n.name@, opt_string_view(n.label))
}

pub open spec fn series_key(s: Series) -> SeriesKey {
    (s.name@, opt_string_view(s.label))
}

/// What a pair of ids stands for: the last entry of the table with those
/// ids (a later entry replaces an earlier one).
pub open spec fn name_lookup(names: Seq<SeriesName>, metric_id: i64, label_id: Option<i64>) -> Option<
    SeriesKey,
>
    decreases names.len(),
{
    if names.len() == 0 {
        None
    } else if names.last().metric_id == metric_id && names.last().label_id == label_id {
        Some(name_key(names.last()))
    } else {
        name_lookup(names.drop_last(), metric_id, label_id)
    }
}

pub open spec fn row_key(names: Seq<SeriesName>, r: ValueRow) -> SeriesKey {
    name_lookup(names, r.metric_id, r.label_id).unwrap()
}

/// The values of the rows that stand for series `k`, in row order.
pub open spec fn values_for(names: Seq<SeriesName>, rows: Seq<ValueRow>, k: SeriesKey) -> Seq<
    Option<i64>,
>
    decreases rows.len(),
{
    if rows.len() == 0 {
        Seq::empty()
    } else if row_key(names, rows.last()) == k {
        values_for(names, rows.drop_last(), k).push(rows.last().value)
    } else {
        values_for(names, rows.drop_last(), k)
    }
}

/// The value that series `k` has at event `e`: that of the last row for
/// `k` at `e`; nothing where there is no such row.
pub open spec fn value_at(names: Seq<SeriesName>, rows: Seq<ValueRow>, k: SeriesKey, e: i64) -> Option<
    i64,
>
    decreases rows.len(),
{
    if rows.len() == 0 {
        None
    } else if row_key(names, rows.last()) == k && rows.last().event_id == e {
        rows.last().value
    } else {
        value_at(names, rows.drop_last(), k, e)
    }
}

/// The values of series `k`, one for each of `events` in order.
pub open spec fn event_values(
    names: Seq<SeriesName>,
    rows: Seq<ValueRow>,
    k: SeriesKey,
    events: Seq<i64>,
) -> Seq<Option<i64>> {
    Seq::new(events.len(), |t: int| value_at(names, rows, k, events[t]))
}

proof fn lemma_value_at_push(names: Seq<SeriesName>, rows: Seq<ValueRow>, x: ValueRow, k: SeriesKey, e: i64)
    ensures
        value_at(names, rows.push(x), k, e) == if row_key(names, x) == k && x.event_id == e {
            x.value
        } else {
            value_at(names, rows, k, e)
        },
{
    assert(rows.push(x).drop_last() =~= rows);
}

/// A series without rows has no value at any event.
proof fn lemma_value_at_no_row(names: Seq<SeriesName>, rows: Seq<ValueRow>, k: SeriesKey, e: i64)
    requires
        values_for(names, rows, k).len() == 0,
    ensures
        value_at(names, rows, k, e) is None,
    decreases rows.len(),
{
    if rows.len() > 0 {
        lemma_value_at_no_row(names, rows.drop_last(), k, e);
    }
}

/// Each series comes before the next in the order of `key_lt`.
pub open spec fn strictly_sorted(ss: Seq<Series>) -> bool {
    forall|i: int, j: int|
        0 <= i < j < ss.len() ==> key_lt(#[trigger] series_key(ss[i]), #[trigger] series_key(ss[j]))
}

proof fn lemma_values_for_push(names: Seq<SeriesName>, rows: Seq<ValueRow>, x: ValueRow, k: SeriesKey)
    ensures
        values_for(names, rows.push(x), k) == if row_key(names, x) == k {
            values_for(names, rows, k).push(x.value)
        } else {
            values_for(names, rows, k)
        },
{
    assert(rows.push(x).drop_last() =~= rows);
}

/// A series with values has a row that stands for it.
proof fn lemma_values_have_row(names: Seq<SeriesName>, rows: Seq<ValueRow>, k: SeriesKey)
    requires
        values_for(names, rows, k).len() > 0,
    ensures
        exists|j: int| 0 <= j < rows.len() && row_key(names, rows[j]) == k,
    decreases rows.len(),
{
    if row_key(names, rows.last()) == k {
        assert(row_key(names, rows[rows.len() - 1]) == k);
    } else {
        lemma_values_have_row(names, rows.drop_last(), k);
        let j = choose|j: int| 0 <= j < rows.drop_last().len() && row_key(names, rows.drop_last()[j]) == k;
        assert(row_key(names, rows[j]) == k);
    }
}

fn clone_label(label: &Option<String>) -> (res: Option<String>)
    ensures
        opt_string_view(res) == opt_string_view(*label),
{
    match label {
        Some(s) => Some(s.clone()),
        None => None,
    }
}

fn same_id(a: Option<i64>, b: Option<i64>) -> (res: bool)
    ensures
        res == (a == b),
{
    match (a, b) {
        (Some(x), Some(y)) => x == y,
        (None, None) => true,
        _ => false,
    }
}

/// The name and label set of a pair of ids.
fn lookup_name(names: &Vec<SeriesName>, metric_id: i64, label_id: Option<i64>) -> (res: (
    String,
    Option<String>,
))
    requires
        name_lookup(names@, metric_id, label_id) is Some,
    ensures
        name_lookup(names@, metric_id, label_id) == Some((res.0@, opt_string_view(res.1))),
{
    let mut i: usize = names.len();
    assert(names@.take(i as int) =~= names@);
    while i > 0
        invariant
            i <= names@.len(),
            name_lookup(names@.take(i as int), metric_id, label_id) == name_lookup(
                names@,
                metric_id,
                label_id,
            ),
            name_lookup(names@, metric_id, label_id) is Some,
        decreases i,
    {
        let n = &names[i - 1];
        assert(names@.take(i as int).last() == names@[i - 1]);
        assert(names@.take(i as int).drop_last() =~= names@.take(i - 1));
        if n.metric_id == metric_id && same_id(n.label_id, label_id) {
            return (n.name.clone(), clone_label(&n.label));
        }
        i = i - 1;
    }
    proof {
        assert(names@.take(0) =~= Seq::<SeriesName>::empty());
    }
    (String::new(), None)
}

fn label_lt_exec(a: &Option<String>, b: &Option<String>) -> (res: bool)
    ensures
        res == label_lt(opt_string_view(*a), opt_string_view(*b)),
{
    match (a, b) {
        (None, Some(_)) => true,
        (Some(x), Some(y)) => str_lt(x.as_str(), y.as_str()),
        _ => false,
    }
}

fn label_eq_exec(a: &Option<String>, b: &Option<String>) -> (res: bool)
    ensures
        res == (opt_string_view(*a) == opt_string_view(*b)),
{
    match (a, b) {
        (None, None) => true,
        (Some(x), Some(y)) => str_eq(x.as_str(), y.as_str()),
        _ => false,
    }
}

/// Whether series `s` comes before the series of `name` and `label`.
fn series_before(s: &Series, name: &String, label: &Option<String>) -> (res: bool)
    ensures
        res == key_lt(series_key(*s), (name@, opt_string_view(*label))),
{
    if str_lt(s.name.as_str(), name.as_str()) {
        true
    } else if str_eq(s.name.as_str(), name.as_str()) {
        label_lt_exec(&s.label, label)
    } else {
        false
    }
}

/// Whether series `s` is the series of `name` and `label`.
fn series_is(s: &Series, name: &String, label: &Option<String>) -> (res: bool)
    ensures
        res == (series_key(*s) == (name@, opt_string_view(*label))),
{
    str_eq(s.name.as_str(), name.as_str()) && label_eq_exec(&s.label, label)
}

/// Where the series of `name` and `label` stands, or would stand, in
/// `out`: after every series that comes before it.
fn position_for(out: &Vec<Series>, name: &String, label: &Option<String>) -> (pos: usize)
    ensures
        pos <= out.len(),
        forall|i: int| 0 <= i < pos ==> key_lt(series_key(out[i]), (name@, opt_string_view(*label))),
        pos < out.len() ==> !key_lt(series_key(out[pos as int]), (name@, opt_string_view(*label))),
{
    let mut i: usize = 0;
    while i < out.len()
        invariant
            i <= out.len(),
            forall|t: int| 0 <= t < i ==> key_lt(series_key(out[t]), (name@, opt_string_view(*label))),
        decreases out.len() - i,
    {
        if !series_before(&out[i], name, label) {
            return i;
        }
        i = i + 1;
    }
    i
}

/// `ss` are the series that `rows` form over `events`: ordered by name,
/// then by label set, none twice, none without rows; each holding one value
/// for each event, in order: the value of its last row at that event, or
/// nothing where it has no row there; and every row stands for one of them.
pub open spec fn grouped(
    names: Seq<SeriesName>,
    rows: Seq<ValueRow>,
    events: Seq<i64>,
    ss: Seq<Series>,
) -> bool {
    &&& strictly_sorted(ss)
    &&& forall|i: int|
        0 <= i < ss.len() ==> (#[trigger] ss[i]).values@ == event_values(
            names,
            rows,
            series_key(ss[i]),
            events,
        )
    &&& forall|i: int| 0 <= i < ss.len() ==> values_for(names, rows, series_key(#[trigger] ss[i])).len() > 0
    &&& forall|j: int|
        #![trigger rows[j]]
        0 <= j < rows.len() ==> exists|i: int|
            0 <= i < ss.len() && series_key(#[trigger] ss[i]) == row_key(names, rows[j])
}

/// `values` with `v` at each position whose event is `event`.
fn place_value(values: &mut Vec<Option<i64>>, events: &Vec<i64>, event: i64, v: Option<i64>)
    requires
        old(values)@.len() == events@.len(),
    ensures
        final(values)@ == Seq::new(
            events@.len(),
            |t: int| if events@[t] == event { v } else { old(values)@[t] },
        ),
{
    let ghost start = values@;
    let mut t: usize = 0;
    while t < events.len()
        invariant
            t <= events@.len(),
            values@.len() == events@.len(),
            start.len() == events@.len(),
            forall|u: int|
                0 <= u < events@.len() ==> #[trigger] values@[u] == if u < t && events@[u] == event {
                    v
                } else {
                    start[u]
                },
        decreases events@.len() - t,
    {
        if events[t] == event {
            values.set(t, v);
        }
        t = t + 1;
    }
    assert(values@ =~= Seq::new(
        events@.len(),
        |t: int| if events@[t] == event { v } else { start[t] },
    ));
}

/// One value per event, none of them there yet.
fn no_values(n: usize) -> (res: Vec<Option<i64>>)
    ensures
        res@ == Seq::new(n as nat, |t: int| None::<i64>),
{
    let mut v: Vec<Option<i64>> = Vec::new();
    let mut i: usize = 0;
    while i < n
        invariant
            i <= n,
            v@ == Seq::new(i as nat, |t: int| None::<i64>),
        decreases n - i,
    {
        v.push(None);
        assert(v@ =~= Seq::new((i + 1) as nat, |t: int| None::<i64>));
        i = i + 1;
    }
    v
}

/// Groups `rows` into one series for each name and label set that they
/// stand for, as the table `names` says, each holding one value for each
/// of `events`; the series come ordered by name, then by label set, none
/// twice.
pub fn group_series(names: &Vec<SeriesName>, rows: &Vec<ValueRow>, events: &Vec<i64>) -> (res: Vec<
    Series,
>)
    requires
        forall|j: int|
            0 <= j < rows.len() ==> (name_lookup(names@, #[trigger] rows[j].metric_id, rows[j].label_id)
                is Some),
    ensures
        grouped(names@, rows@, events@, res@),
{
    let mut out: Vec<Series> = Vec::new();
    let mut r: usize = 0;
    while r < rows.len()
        invariant
            r <= rows.len(),
            forall|j: int|
                0 <= j < rows.len() ==> (name_lookup(names@, #[trigger] rows[j].metric_id, rows[j].label_id)
                    is Some),
            strictly_sorted(out@),
            forall|i: int|
                0 <= i < out.len() ==> (#[trigger] out[i]).values@ == event_values(
                    names@,
                    rows@.take(r as int),
                    series_key(out[i]),
                    events@,
                ),
            forall|i: int|
                0 <= i < out.len() ==> values_for(names@, rows@.take(r as int), series_key(#[trigger] out[i])).len()
                    > 0,
            forall|j: int|
                #![trigger rows[j]]
                0 <= j < r ==> exists|i: int|
                    0 <= i < out.len() && series_key(#[trigger] out[i]) == row_key(names@, rows[j]),
        decreases rows.len() - r,
    {
        let row = &rows[r];
        let (name, label) = lookup_name(names, row.metric_id, row.label_id);
        let ghost k: SeriesKey = (name@, opt_string_view(label));
        let ghost before = out@;
        let ghost rs = rows@.take(r as int);
        let ghost x = rows[r as int];
        assert(k == row_key(names@, x));
        assert(rows@.take(r + 1) =~= rs.push(x));
        proof {
            assert forall|kk: SeriesKey| #[trigger]
                values_for(names@, rows@.take(r + 1), kk) == (if k == kk {
                    values_for(names@, rs, kk).push(x.value)
                } else {
                    values_for(names@, rs, kk)
                }) by {
                lemma_values_for_push(names@, rs, x, kk);
            }
            assert forall|kk: SeriesKey, e: i64| #[trigger]
                value_at(names@, rows@.take(r + 1), kk, e) == (if k == kk && x.event_id == e {
                    x.value
                } else {
                    value_at(names@, rs, kk, e)
                }) by {
                lemma_value_at_push(names@, rs, x, kk, e);
            }
        }
        let pos = position_for(&out, &name, &label);
        if pos < out.len() && series_is(&out[pos], &name, &label) {
            let mut s = out.remove(pos);
            let ghost old_values = s.values@;
            place_value(&mut s.values, events, row.event_id, row.value);
            out.insert(pos, s);
            proof {
                assert(out@ =~= before.update(pos as int, s));
                assert forall|i: int| 0 <= i < out.len() && i != pos implies series_key(
                    #[trigger] out[i],
                ) != k by {
                    if i < pos {
                        assert(key_lt(series_key(before[i]), series_key(before[pos as int])));
                        lemma_key_lt_irreflexive(k);
                    } else {
                        assert(key_lt(series_key(before[pos as int]), series_key(before[i])));
                        lemma_key_lt_irreflexive(k);
                    }
                }
                assert(s.values@ =~= event_values(names@, rows@.take(r + 1), k, events@));
                assert forall|i: int| 0 <= i < out.len() implies (#[trigger] out[i]).values@
                    == event_values(names@, rows@.take(r + 1), series_key(out[i]), events@) by {
                    if i != pos {
                        assert(out[i] == before[i]);
                        assert(out[i].values@ =~= event_values(
                            names@,
                            rows@.take(r + 1),
                            series_key(out[i]),
                            events@,
                        ));
                    }
                }
                assert forall|i: int, j: int| 0 <= i < j < out.len() implies key_lt(
                    #[trigger] series_key(out[i]),
                    #[trigger] series_key(out[j]),
                ) by {
                    assert(series_key(out[i]) == series_key(before[i]));
                    assert(series_key(out[j]) == series_key(before[j]));
                }
                assert forall|j: int| #![trigger rows[j]] 0 <= j < r + 1 implies exists|i: int|
                    0 <= i < out.len() && series_key(#[trigger] out[i]) == row_key(names@, rows[j]) by {
                    if j < r {
                        let i = choose|i: int|
                            0 <= i < before.len() && series_key(before[i]) == row_key(
                                names@,
                                rows[j],
                            );
                        assert(series_key(out[i]) == series_key(before[i]));
                    } else {
                        assert(series_key(out[pos as int]) == k);
                    }
                }
            }
        } else {
            proof {
                if pos < before.len() {
                    lemma_key_lt_total(series_key(before[pos as int]), k);
                }
                assert forall|i: int| 0 <= i < before.len() implies series_key(#[trigger] before[i])
                    != k by {
                    if i < pos {
                        lemma_key_lt_irreflexive(k);
                    } else if i > pos {
                        assert(key_lt(series_key(before[pos as int]), series_key(before[i])));
                        lemma_key_lt_transitive(k, series_key(before[pos as int]), series_key(before[i]));
                        lemma_key_lt_irreflexive(k);
                    }
                }
                if values_for(names@, rs, k).len() > 0 {
                    lemma_values_have_row(names@, rs, k);
                    let j = choose|j: int| 0 <= j < rs.len() && row_key(names@, rs[j]) == k;
                    assert(rs[j] == rows[j]);
                    let i = choose|i: int|
                        0 <= i < before.len() && series_key(before[i]) == row_key(names@, rows[j]);
                    assert(false);
                }
                assert forall|e: i64| #[trigger] value_at(names@, rs, k, e) is None by {
                    lemma_value_at_no_row(names@, rs, k, e);
                }
            }
            let mut values = no_values(events.len());
            place_value(&mut values, events, row.event_id, row.value);
            let s = Series { name, label, values };
            out.insert(pos, s);
            proof {
                assert(series_key(s) == k);
                assert(s.values@ =~= event_values(names@, rows@.take(r + 1), k, events@));
                assert(out@ =~= before.insert(pos as int, s));
                assert forall|i: int, j: int| 0 <= i < j < out.len() implies key_lt(
                    #[trigger] series_key(out[i]),
                    #[trigger] series_key(out[j]),
                ) by {
                    if j < pos {
                        assert(out[i] == before[i] && out[j] == before[j]);
                    } else if j == pos {
                        assert(out[i] == before[i]);
                    } else if i < pos {
                        assert(out[i] == before[i] && out[j] == before[j - 1]);
                        if j - 1 > pos {
                            assert(key_lt(series_key(before[pos as int]), series_key(before[j - 1])));
                            lemma_key_lt_transitive(k, series_key(before[pos as int]), series_key(before[j - 1]));
                        }
                        lemma_key_lt_transitive(series_key(before[i]), k, series_key(before[j - 1]));
                    } else if i == pos {
                        assert(out[j] == before[j - 1]);
                        if j - 1 > pos {
                            assert(key_lt(series_key(before[pos as int]), series_key(before[j - 1])));
                            lemma_key_lt_transitive(k, series_key(before[pos as int]), series_key(before[j - 1]));
                        }
                    } else {
                        assert(out[i] == before[i - 1] && out[j] == before[j - 1]);
                    }
                }
                assert forall|i: int| 0 <= i < out.len() implies (#[trigger] out[i]).values@
                    == event_values(names@, rows@.take(r + 1), series_key(out[i]), events@)
                    && values_for(names@, rows@.take(r + 1), series_key(out[i])).len() > 0 by {
                    if i < pos {
                        assert(out[i] == before[i]);
                    } else if i > pos {
                        assert(out[i] == before[i - 1]);
                    }
                    if i != pos {
                        assert(out[i].values@ =~= event_values(
                            names@,
                            rows@.take(r + 1),
                            series_key(out[i]),
                            events@,
                        ));
                    }
                }
                assert forall|j: int| #![trigger rows[j]] 0 <= j < r + 1 implies exists|i: int|
                    0 <= i < out.len() && series_key(#[trigger] out[i]) == row_key(names@, rows[j]) by {
                    if j < r {
                        let i = choose|i: int|
                            0 <= i < before.len() && series_key(before[i]) == row_key(
                                names@,
                                rows[j],
                            );
                        if i < pos {
                            assert(out[i] == before[i]);
                        } else {
                            assert(out[i + 1] == before[i]);
                        }
                    } else {
                        assert(series_key(out[pos as int]) == k);
                    }
                }
            }
        }
        r = r + 1;
    }
    assert(rows@.take(rows.len() as int) =~= rows@);
    out
}

/// The value of series `k` at event `e` is that of the last row for `k`
/// at `e`.
proof fn lemma_value_at_last(names: Seq<SeriesName>, rows: Seq<ValueRow>, j: int)
    requires
        0 <= j < rows.len(),
        forall|j2: int|
            j < j2 < rows.len() ==> !(row_key(names, #[trigger] rows[j2]) == row_key(names, rows[j])
                && rows[j2].event_id == rows[j].event_id),
    ensures
        value_at(names, rows, row_key(names, rows[j]), rows[j].event_id) == rows[j].value,
    decreases rows.len(),
{
    if j < rows.len() - 1 {
        let pre = rows.drop_last();
        assert(rows[rows.len() - 1] == rows.last());
        assert(pre[j] == rows[j]);
        assert forall|j2: int|
            j < j2 < pre.len() implies !(row_key(names, #[trigger] pre[j2]) == row_key(names, pre[j])
                && pre[j2].event_id == pre[j].event_id) by {
            assert(pre[j2] == rows[j2]);
        }
        lemma_value_at_last(names, pre, j);
    }
}

/// Each value read comes back at its event: the series of a row holds one
/// value per event, and at each position of the row's event it holds the
/// row's value, where no later row stands for the same series at the same
/// event.
pub proof fn lemma_values_line_up(
    names: Seq<SeriesName>,
    rows: Seq<ValueRow>,
    events: Seq<i64>,
    ss: Seq<Series>,
    j: int,
    t: int,
)
    requires
        grouped(names, rows, events, ss),
        0 <= j < rows.len(),
        0 <= t < events.len(),
        events[t] == rows[j].event_id,
        forall|j2: int|
            j < j2 < rows.len() ==> !(row_key(names, #[trigger] rows[j2]) == row_key(names, rows[j])
                && rows[j2].event_id == rows[j].event_id),
    ensures
        exists|i: int|
            0 <= i < ss.len() && series_key(#[trigger] ss[i]) == row_key(names, rows[j])
                && ss[i].values@.len() == events.len() && ss[i].values@[t] == rows[j].value,
{
    let i = choose|i: int| 0 <= i < ss.len() && series_key(#[trigger] ss[i]) == row_key(names, rows[j]);
    lemma_value_at_last(names, rows, j);
    assert(ss[i].values@ == event_values(names, rows, series_key(ss[i]), events));
}

/// Whether every row's ids stand for a name in the table.
pub fn rows_named(names: &Vec<SeriesName>, rows: &Vec<ValueRow>) -> (res: bool)
    ensures
        res == (forall|j: int|
            0 <= j < rows.len() ==> (name_lookup(names@, #[trigger] rows[j].metric_id, rows[j].label_id)
                is Some)),
{
    let mut j: usize = 0;
    while j < rows.len()
        invariant
            j <= rows.len(),
            forall|t: int|
                0 <= t < j ==> (name_lookup(names@, #[trigger] rows[t].metric_id, rows[t].label_id)
                    is Some),
        decreases rows.len() - j,
    {
        if !has_name(names, rows[j].metric_id, rows[j].label_id) {
            return false;
        }
        j = j + 1;
    }
    true
}

/// Whether a pair of ids stands for a name in the table.
fn has_name(names: &Vec<SeriesName>, metric_id: i64, label_id: Option<i64>) -> (res: bool)
    ensures
        res == (name_lookup(names@, metric_id, label_id) is Some),
{
    let mut i: usize = names.len();
    assert(names@.take(i as int) =~= names@);
    while i > 0
        invariant
            i <= names@.len(),
            name_lookup(names@.take(i as int), metric_id, label_id) == name_lookup(
                names@,
                metric_id,
                label_id,
            ),
        decreases i,
    {
        assert(names@.take(i as int).last() == names@[i - 1]);
        assert(names@.take(i as int).drop_last() =~= names@.take(i - 1));
        if names[i - 1].metric_id == metric_id && same_id(names[i - 1].label_id, label_id) {
            return true;
        }
        i = i - 1;
    }
    assert(names@.take(0) =~= Seq::<SeriesName>::empty());
    false
}

/// The dashboard's data for a run of events: nothing where there are no
/// events; else the events' timestamps (one per event, in the order of
/// `event_ids`) and the series their values form, each with one value per
/// event.
pub fn metrics_for_events(
    event_ids: &Vec<i64>,
    timestamps: Vec<i64>,
    names: &Vec<SeriesName>,
    rows: &Vec<ValueRow>,
) -> (res: Metrics)
    requires
        forall|j: int|
            0 <= j < rows.len() ==> (name_lookup(names@, #[trigger] rows[j].metric_id, rows[j].label_id)
                is Some),
    ensures
        event_ids.len() == 0 ==> res.timestamps@.len() == 0 && res.series@.len() == 0,
        event_ids.len() > 0 ==> res.timestamps@ == timestamps@ && grouped(
            names@,
            rows@,
            event_ids@,
            res.series@,
        ),
        timestamps@.len() == event_ids@.len() ==> forall|i: int|
            0 <= i < res.series@.len() ==> (#[trigger] res.series@[i]).values@.len()
                == res.timestamps@.len(),
{
    if event_ids.len() == 0 {
        return Metrics::empty();
    }
    let series = group_series(names, rows, event_ids);
    Metrics { timestamps, series }
}

} // verus!
