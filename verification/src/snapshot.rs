//! What a snapshot of the Prometheus endpoint adds to the database: which
//! metrics and label sets are new, and which values are stored under which
//! ids.
use vstd::prelude::*;
use vstd::relations::{sorted_by, total_ordering};
use crate::text::{
    join_sep, join_strings, lemma_seq_lt_irreflexive, lemma_seq_lt_total, lemma_seq_lt_transitive,
    push_char, push_str, seq_lt, str_eq, str_lt, string_views,
};

verus! {

/// The type of a metric family, as the exposition format declares it.
#[derive(Clone, Copy, Debug, PartialEq, Eq, Structural)]
pub enum MetricKind {
    Counter,
    Gauge,
    Summary,
    Untyped,
    Histogram,
    GaugeHistogram,
    NativeHistogram,
    HybridHistogram,
    StateSet,
    Info,
}

/// The metric types that can be read but are not stored.
#[derive(Clone, Copy, Debug, PartialEq, Eq, Structural)]
pub enum UnsupportedMetricType {
    Summary,
    Histogram,
    GaugeHistogram,
    NativeHistogram,
    HybridHistogram,
    StateSet,
}

/// The number a metric family's type is stored as, where the family is
/// stored at all.
pub open spec fn metric_type_spec(t: MetricKind) -> Result<i64, UnsupportedMetricType> {
    match t {
        MetricKind::Counter => Ok(0),
        MetricKind::Gauge => Ok(1),
        MetricKind::Summary => Ok(2),
        MetricKind::Untyped => Ok(3),
        MetricKind::Histogram => Err(UnsupportedMetricType::Histogram),
        MetricKind::GaugeHistogram => Err(UnsupportedMetricType::GaugeHistogram),
        MetricKind::NativeHistogram => Err(UnsupportedMetricType::NativeHistogram),
        MetricKind::HybridHistogram => Err(UnsupportedMetricType::HybridHistogram),
        MetricKind::StateSet => Err(UnsupportedMetricType::StateSet),
        MetricKind::Info => Ok(9),
    }
}

/// The number a metric family's type is stored as; an error for the types
/// whose families are not stored.
pub fn metric_type(t: MetricKind) -> (res: Result<i64, UnsupportedMetricType>)
    ensures
        res == metric_type_spec(t),
{
    match t {
        MetricKind::Counter => Ok(0),
        MetricKind::Gauge => Ok(1),
        MetricKind::Summary => Ok(2),
        MetricKind::Untyped => Ok(3),
        MetricKind::Histogram => Err(UnsupportedMetricType::Histogram),
        MetricKind::GaugeHistogram => Err(UnsupportedMetricType::GaugeHistogram),
        MetricKind::NativeHistogram => Err(UnsupportedMetricType::NativeHistogram),
        MetricKind::HybridHistogram => Err(UnsupportedMetricType::HybridHistogram),
        MetricKind::StateSet => Err(UnsupportedMetricType::StateSet),
        MetricKind::Info => Ok(9),
    }
}

/// The number every metric type has in the database, in the order in which
/// the types are declared.
pub fn sql_metric_type(t: MetricKind) -> (res: i64)
    ensures
        res == match t {
            MetricKind::Counter => 0,
            MetricKind::Gauge => 1,
            MetricKind::Summary => 2,
            MetricKind::Untyped => 3,
            MetricKind::Histogram => 4,
            MetricKind::GaugeHistogram => 5,
            MetricKind::NativeHistogram => 6,
            MetricKind::HybridHistogram => 7,
            MetricKind::StateSet => 8,
            MetricKind::Info => 9i64,
        },
{
    match t {
        MetricKind::Counter => 0,
        MetricKind::Gauge => 1,
        MetricKind::Summary => 2,
        MetricKind::Untyped => 3,
        MetricKind::Histogram => 4,
        MetricKind::GaugeHistogram => 5,
        MetricKind::NativeHistogram => 6,
        MetricKind::HybridHistogram => 7,
        MetricKind::StateSet => 8,
        MetricKind::Info => 9,
    }
}

/// A label of a sample: its name and value.
pub struct Label {
    pub name: String,
    pub value: String,
}

/// What a sample's value is, as far as storing it goes; an info value
/// carries labels of its own.
pub enum SampleValue {
    Counter,
    Gauge,
    Untyped,
    Summary,
    Histogram,
    GaugeHistogram,
    NativeHistogram,
    HybridHistogram,
    StateSet,
    Info(Vec<Label>),
}

/// Whether a value of this kind is stored, and if not, which type it is.
pub open spec fn value_support_spec(v: SampleValue) -> Result<(), UnsupportedMetricType> {
    match v {
        SampleValue::Counter | SampleValue::Gauge | SampleValue::Untyped | SampleValue::Info(_) => Ok(
            (),
        ),
        SampleValue::Summary => Err(UnsupportedMetricType::Summary),
        SampleValue::Histogram => Err(UnsupportedMetricType::Histogram),
        SampleValue::GaugeHistogram => Err(UnsupportedMetricType::GaugeHistogram),
        SampleValue::NativeHistogram => Err(UnsupportedMetricType::NativeHistogram),
        SampleValue::HybridHistogram => Err(UnsupportedMetricType::HybridHistogram),
        SampleValue::StateSet => Err(UnsupportedMetricType::StateSet),
    }
}

/// Counters, gauges, untyped and info values are stored (an info value as
/// 1); the other kinds are not, and the error names the kind.
pub fn value_support(v: &SampleValue) -> (res: Result<(), UnsupportedMetricType>)
    ensures
        res == value_support_spec(*v),
{
    match v {
        SampleValue::Counter | SampleValue::Gauge | SampleValue::Untyped | SampleValue::Info(_) => Ok(
            (),
        ),
        SampleValue::Summary => Err(UnsupportedMetricType::Summary),
        SampleValue::Histogram => Err(UnsupportedMetricType::Histogram),
        SampleValue::GaugeHistogram => Err(UnsupportedMetricType::GaugeHistogram),
        SampleValue::NativeHistogram => Err(UnsupportedMetricType::NativeHistogram),
        SampleValue::HybridHistogram => Err(UnsupportedMetricType::HybridHistogram),
        SampleValue::StateSet => Err(UnsupportedMetricType::StateSet),
    }
}

// ---------------------------------------------------------------------------
// Label sets as stored
// ---------------------------------------------------------------------------

/// `name=value`.
pub open spec fn label_part(l: Label) -> Seq<char> {
    l.name@ + seq!['='] + l.value@
}

pub open spec fn label_parts(labels: Seq<Label>) -> Seq<Seq<char>> {
    labels.map_values(|l: Label| label_part(l))
}

/// The order in which strings are sorted: lexicographic, by code point.
pub open spec fn lex_leq() -> spec_fn(Seq<char>, Seq<char>) -> bool {
    |a: Seq<char>, b: Seq<char>| !seq_lt(b, a)
}

pub proof fn lemma_lex_leq_total_ordering()
    ensures
        total_ordering(lex_leq()),
{
    let leq = lex_leq();
    assert forall|a: Seq<char>| #[trigger] leq(a, a) by {
        lemma_seq_lt_irreflexive(a);
    }
    assert forall|a: Seq<char>, b: Seq<char>| #[trigger] leq(a, b) && #[trigger] leq(b, a) implies a
        == b by {
        lemma_seq_lt_total(a, b);
    }
    assert forall|a: Seq<char>, b: Seq<char>, c: Seq<char>| #[trigger] leq(a, b) && #[trigger] leq(
        b,
        c,
    ) implies leq(a, c) by {
        lemma_seq_lt_total(a, b);
        lemma_seq_lt_total(b, c);
        if seq_lt(c, a) {
            if seq_lt(a, b) {
                lemma_seq_lt_transitive(c, a, b);
                lemma_seq_lt_total(b, c);
                if seq_lt(b, c) {
                    lemma_seq_lt_transitive(b, c, b);
                    lemma_seq_lt_irreflexive(b);
                }
            }
        }
    }
    assert forall|a: Seq<char>, b: Seq<char>| #[trigger] leq(a, b) || #[trigger] leq(b, a) by {
        lemma_seq_lt_total(a, b);
        if seq_lt(a, b) && seq_lt(b, a) {
            lemma_seq_lt_transitive(a, b, a);
            lemma_seq_lt_irreflexive(a);
        }
    }
}

/// The string a label set is stored as: no string for no labels, else the
/// `name=value` parts, sorted, joined with commas.
pub open spec fn label_string(labels: Seq<Label>) -> Option<Seq<char>> {
    if labels.len() == 0 {
        None
    } else {
        Some(join_sep(label_parts(labels).sort_by(lex_leq()), ','))
    }
}

fn label_part_exec(l: &Label) -> (res: String)
    ensures
        res@ == label_part(*l),
{
    let mut s = l.name.clone();
    push_char(&mut s, '=');
    push_str(&mut s, l.value.as_str());
    s
}

/// Whether `a` sorts no later than `b`.
fn lex_leq_exec(a: &String, b: &String) -> (res: bool)
    ensures
        res == lex_leq()(a@, b@),
{
    !str_lt(b.as_str(), a.as_str())
}

/// Sorts strings by insertion: the result is the parts in `lex_leq` order.
fn sort_strings(parts: Vec<String>) -> (res: Vec<String>)
    ensures
        string_views(res@) == string_views(parts@).sort_by(lex_leq()),
{
    let ghost leq = lex_leq();
    proof {
        lemma_lex_leq_total_ordering();
    }
    let mut out: Vec<String> = Vec::new();
    let mut i: usize = 0;
    assert(string_views(out@) =~= string_views(parts@).take(0));
    while i < parts.len()
        invariant
            leq == lex_leq(),
            total_ordering(leq),
            i <= parts@.len(),
            sorted_by(string_views(out@), leq),
            string_views(out@).to_multiset() == string_views(parts@).take(i as int).to_multiset(),
        decreases parts@.len() - i,
    {
        let x = parts[i].clone();
        let ghost before = string_views(out@);
        let mut pos: usize = 0;
        while pos < out.len()
            invariant
                leq == lex_leq(),
                total_ordering(leq),
                before == string_views(out@),
                pos <= out@.len(),
                forall|t: int| 0 <= t < pos ==> #[trigger] leq(before[t], x@),
            ensures
                pos <= out@.len(),
                forall|t: int| 0 <= t < pos ==> #[trigger] leq(before[t], x@),
                pos < out@.len() ==> !leq(before[pos as int], x@),
            decreases out@.len() - pos,
        {
            if !lex_leq_exec(&out[pos], &x) {
                break;
            }
            pos = pos + 1;
        }
        proof {
            if pos < out@.len() {
                assert(!leq(before[pos as int], x@));
                assert(leq(x@, before[pos as int]));
            }
        }
        out.insert(pos, x);
        proof {
            let after = string_views(out@);
            assert(after =~= before.insert(pos as int, x@));
            assert forall|a: int, b: int| 0 <= a < b < after.len() implies #[trigger] leq(
                after[a],
                after[b],
            ) by {
                if b < pos {
                } else if b == pos {
                    assert(after[a] == before[a]);
                } else if a < pos {
                    assert(after[b] == before[b - 1]);
                    assert(leq(x@, before[pos as int]));
                    if b - 1 > pos {
                        assert(leq(before[pos as int], before[b - 1]));
                    }
                    assert(leq(x@, before[b - 1]));
                    assert(leq(before[a], x@));
                } else if a == pos {
                    assert(after[b] == before[b - 1]);
                    if b - 1 > pos {
                        assert(leq(before[pos as int], before[b - 1]));
                    }
                } else {
                    assert(after[a] == before[a - 1]);
                    assert(after[b] == before[b - 1]);
                }
            }
            vstd::seq_lib::to_multiset_insert(before, pos as int, x@);
            assert(string_views(parts@).take(i + 1) =~= string_views(parts@).take(i as int).push(x@));
            vstd::seq_lib::to_multiset_build(string_views(parts@).take(i as int), x@);
        }
        i = i + 1;
    }
    proof {
        assert(string_views(parts@).take(parts@.len() as int) =~= string_views(parts@));
        string_views(parts@).lemma_sort_by_ensures(leq);
        vstd::seq_lib::lemma_sorted_unique(string_views(out@), string_views(parts@).sort_by(leq), leq);
    }
    out
}

/// The string a label set is stored as: `None` for no labels, else the
/// `name=value` parts sorted and joined with commas.
pub fn labels_to_db(labels: &Vec<Label>) -> (res: Option<String>)
    ensures
        match res {
            Some(s) => label_string(labels@) == Some(s@),
            None => label_string(labels@) is None,
        },
{
    if labels.len() == 0 {
        return None;
    }
    let mut parts: Vec<String> = Vec::new();
    let mut i: usize = 0;
    while i < labels.len()
        invariant
            i <= labels@.len(),
            string_views(parts@) == label_parts(labels@.take(i as int)),
        decreases labels@.len() - i,
    {
        let p = label_part_exec(&labels[i]);
        parts.push(p);
        assert(label_parts(labels@.take(i + 1)) =~= label_parts(labels@.take(i as int)).push(
            label_part(labels@[i as int]),
        ));
        assert(string_views(parts@) =~= label_parts(labels@.take(i + 1)));
        i = i + 1;
    }
    assert(labels@.take(labels@.len() as int) =~= labels@);
    let sorted = sort_strings(parts);
    Some(join_strings(&sorted, ','))
}

/// Label sets with the same `name=value` parts, in whatever order, are
/// stored as the same string.
pub proof fn lemma_label_order_is_irrelevant(a: Seq<Label>, b: Seq<Label>)
    requires
        label_parts(a).to_multiset() == label_parts(b).to_multiset(),
    ensures
        label_string(a) == label_string(b),
{
    lemma_lex_leq_total_ordering();
    label_parts(a).lemma_sort_by_ensures(lex_leq());
    label_parts(b).lemma_sort_by_ensures(lex_leq());
    vstd::seq_lib::lemma_sorted_unique(
        label_parts(a).sort_by(lex_leq()),
        label_parts(b).sort_by(lex_leq()),
        lex_leq(),
    );
    if a.len() == 0 || b.len() == 0 {
        label_parts(a).to_multiset_ensures();
        label_parts(b).to_multiset_ensures();
        assert(label_parts(a).len() == a.len());
        assert(label_parts(b).len() == b.len());
    }
}

// ---------------------------------------------------------------------------
// A snapshot and what it adds
// ---------------------------------------------------------------------------

/// One sample of a metric family: its labels and its value.
pub struct Sample {
    pub labels: Vec<Label>,
    pub value: SampleValue,
}

/// A metric family of a snapshot.
pub struct Family {
    pub name: String,
    pub kind: MetricKind,
    pub samples: Vec<Sample>,
}

/// The labels a sample's label set is read from for the table of label
/// sets: an info value's own labels, else the sample's labels.
pub open spec fn sample_label_source(s: Sample) -> Seq<Label> {
    match s.value {
        SampleValue::Info(ls) => ls@,
        _ => s.labels@,
    }
}

/// The label sets of the samples, in order, where there are any labels.
pub open spec fn sample_label_strings(samples: Seq<Sample>) -> Seq<Seq<char>>
    decreases samples.len(),
{
    if samples.len() == 0 {
        Seq::empty()
    } else {
        let prev = sample_label_strings(samples.drop_last());
        match label_string(sample_label_source(samples.last())) {
            Some(l) => prev.push(l),
            None => prev,
        }
    }
}

/// The label sets of every sample of every family, in order.
pub open spec fn family_label_strings(fams: Seq<Family>) -> Seq<Seq<char>>
    decreases fams.len(),
{
    if fams.len() == 0 {
        Seq::empty()
    } else {
        family_label_strings(fams.drop_last()) + sample_label_strings(fams.last().samples@)
    }
}

/// The label sets of a snapshot, in order, with repeats.
pub fn label_strings(fams: &Vec<Family>) -> (res: Vec<String>)
    ensures
        string_views(res@) == family_label_strings(fams@),
{
    let mut out: Vec<String> = Vec::new();
    let mut f: usize = 0;
    assert(string_views(out@) =~= family_label_strings(fams@.take(0)));
    while f < fams.len()
        invariant
            f <= fams@.len(),
            string_views(out@) == family_label_strings(fams@.take(f as int)),
        decreases fams@.len() - f,
    {
        let fam = &fams[f];
        let ghost base = string_views(out@);
        let mut k: usize = 0;
        assert(base =~= base + sample_label_strings(fam.samples@.take(0)));
        while k < fam.samples.len()
            invariant
                k <= fam.samples@.len(),
                string_views(out@) == base + sample_label_strings(fam.samples@.take(k as int)),
            decreases fam.samples@.len() - k,
        {
            let sample = &fam.samples[k];
            let ghost pre = fam.samples@.take(k as int);
            assert(fam.samples@.take(k + 1).drop_last() =~= pre);
            let l = match &sample.value {
                SampleValue::Info(ls) => labels_to_db(ls),
                _ => labels_to_db(&sample.labels),
            };
            assert(fam.samples@.take(k + 1).last() == *sample);
            assert(match l {
                Some(x) => label_string(sample_label_source(*sample)) == Some(x@),
                None => label_string(sample_label_source(*sample)) is None,
            });
            match l {
                Some(l) => {
                    let ghost prev_out = string_views(out@);
                    let ghost lv = l@;
                    out.push(l);
                    assert(string_views(out@) =~= prev_out.push(lv));
                    assert(sample_label_strings(fam.samples@.take(k + 1)) == sample_label_strings(
                        pre,
                    ).push(lv));
                    assert(string_views(out@) =~= base + sample_label_strings(fam.samples@.take(k + 1)));
                },
                None => {
                    assert(string_views(out@) =~= base + sample_label_strings(fam.samples@.take(k + 1)));
                },
            }
            k = k + 1;
        }
        assert(fam.samples@.take(fam.samples@.len() as int) =~= fam.samples@);
        assert(fams@.take(f + 1).drop_last() =~= fams@.take(f as int));
        f = f + 1;
    }
    assert(fams@.take(fams@.len() as int) =~= fams@);
    out
}

/// Whether `s` is among `v`.
fn contains_string(v: &Vec<String>, s: &String) -> (res: bool)
    ensures
        res == string_views(v@).contains(s@),
{
    let mut i: usize = 0;
    while i < v.len()
        invariant
            i <= v@.len(),
            forall|t: int| 0 <= t < i ==> string_views(v@)[t] != s@,
        decreases v@.len() - i,
    {
        if str_eq(v[i].as_str(), s.as_str()) {
            assert(string_views(v@)[i as int] == s@);
            return true;
        }
        i = i + 1;
    }
    false
}

/// The label sets to add to the table: each one that is not known yet,
/// once, in the order in which they first come.
pub open spec fn new_labels_spec(strings: Seq<Seq<char>>, known: Seq<Seq<char>>) -> Seq<Seq<char>>
    decreases strings.len(),
{
    if strings.len() == 0 {
        Seq::empty()
    } else {
        let prev = new_labels_spec(strings.drop_last(), known);
        let x = strings.last();
        if known.contains(x) || prev.contains(x) {
            prev
        } else {
            prev.push(x)
        }
    }
}

/// The label sets of `strings` to add to a table that holds `known`.
pub fn new_labels(strings: &Vec<String>, known: &Vec<String>) -> (res: Vec<String>)
    ensures
        string_views(res@) == new_labels_spec(string_views(strings@), string_views(known@)),
{
    let mut out: Vec<String> = Vec::new();
    let mut i: usize = 0;
    assert(string_views(strings@).take(0) =~= Seq::<Seq<char>>::empty());
    while i < strings.len()
        invariant
            i <= strings@.len(),
            string_views(out@) == new_labels_spec(string_views(strings@).take(i as int), string_views(known@)),
        decreases strings@.len() - i,
    {
        assert(string_views(strings@).take(i + 1).drop_last() =~= string_views(strings@).take(i as int));
        let x = &strings[i];
        if !contains_string(known, x) && !contains_string(&out, x) {
            out.push(x.clone());
            assert(string_views(out@) =~= new_labels_spec(string_views(strings@).take(i as int), string_views(known@)).push(
                x@,
            ));
        }
        i = i + 1;
    }
    assert(string_views(strings@).take(strings@.len() as int) =~= string_views(strings@));
    out
}

/// A metric family to add to the table of metrics, with the number its type
/// is stored as.
pub struct NewMetric {
    pub family: usize,
    pub kind: i64,
}

/// The families to add to a table that holds the names `known`, with the
/// names added: each family whose name is neither known nor added before
/// and whose type is stored.
pub open spec fn new_metrics_acc(fams: Seq<Family>, known: Seq<Seq<char>>) -> (
    Seq<NewMetric>,
    Seq<Seq<char>>,
)
    decreases fams.len(),
{
    if fams.len() == 0 {
        (Seq::empty(), Seq::empty())
    } else {
        let (prev, names) = new_metrics_acc(fams.drop_last(), known);
        let f = fams.last();
        if known.contains(f.name@) || names.contains(f.name@) {
            (prev, names)
        } else {
            match metric_type_spec(f.kind) {
                Ok(code) => (
                    prev.push(NewMetric { family: (fams.len() - 1) as usize, kind: code }),
                    names.push(f.name@),
                ),
                Err(_) => (prev, names),
            }
        }
    }
}

/// The families of a snapshot to add to a table that holds the names
/// `known`, in order.
pub fn new_metrics(fams: &Vec<Family>, known: &Vec<String>) -> (res: Vec<NewMetric>)
    ensures
        res@ == new_metrics_acc(fams@, string_views(known@)).0,
{
    let mut out: Vec<NewMetric> = Vec::new();
    let mut names: Vec<String> = Vec::new();
    let mut f: usize = 0;
    while f < fams.len()
        invariant
            f <= fams@.len(),
            (out@, string_views(names@)) == new_metrics_acc(fams@.take(f as int), string_views(known@)),
        decreases fams@.len() - f,
    {
        assert(fams@.take(f + 1).drop_last() =~= fams@.take(f as int));
        let fam = &fams[f];
        if !contains_string(known, &fam.name) && !contains_string(&names, &fam.name) {
            match metric_type(fam.kind) {
                Ok(code) => {
                    out.push(NewMetric { family: f, kind: code });
                    names.push(fam.name.clone());
                },
                Err(_) => {},
            }
        }
        f = f + 1;
    }
    assert(fams@.take(fams@.len() as int) =~= fams@);
    out
}

/// A name in a table of ids, with its id.
pub struct NamedId {
    pub name: String,
    pub id: i64,
}

/// The id of `key` in a table: that of its last entry (a later entry
/// replaces an earlier one).
pub open spec fn id_lookup(table: Seq<NamedId>, key: Seq<char>) -> Option<i64>
    decreases table.len(),
{
    if table.len() == 0 {
        None
    } else if table.last().name@ == key {
        Some(table.last().id)
    } else {
        id_lookup(table.drop_last(), key)
    }
}

/// The id of `key` in a table, if it has one.
pub fn find_id(table: &Vec<NamedId>, key: &str) -> (res: Option<i64>)
    ensures
        res == id_lookup(table@, key@),
{
    let mut i: usize = table.len();
    assert(table@.take(i as int) =~= table@);
    while i > 0
        invariant
            i <= table@.len(),
            id_lookup(table@.take(i as int), key@) == id_lookup(table@, key@),
        decreases i,
    {
        assert(table@.take(i as int).last() == table@[i - 1]);
        assert(table@.take(i as int).drop_last() =~= table@.take(i - 1));
        if str_eq(table[i - 1].name.as_str(), key) {
            return Some(table[i - 1].id);
        }
        i = i - 1;
    }
    None
}

/// A value to store: the sample it comes from (by family and sample index),
/// the id of its metric and the id of its label set, if it has labels.
#[derive(Clone, Copy, Debug, PartialEq, Eq, Structural)]
pub struct PlannedValue {
    pub family: usize,
    pub sample: usize,
    pub metric_id: i64,
    pub label_id: Option<i64>,
}

/// What sample `si` of family `fi` stores, under metric id `mid`: nothing
/// where its value is not stored; else the ids of its metric and of its
/// label set.
pub open spec fn sample_value_row(fi: int, si: int, mid: i64, s: Sample, labels: Seq<NamedId>) -> Option<
    PlannedValue,
> {
    if value_support_spec(s.value) is Ok {
        Some(
            PlannedValue {
                family: fi as usize,
                sample: si as usize,
                metric_id: mid,
                label_id: match label_string(s.labels@) {
                    Some(l) => id_lookup(labels, l),
                    None => None,
                },
            },
        )
    } else {
        None
    }
}

/// What the samples of family `fi` store, in order.
pub open spec fn sample_value_rows(fi: int, mid: i64, samples: Seq<Sample>, labels: Seq<NamedId>) -> Seq<
    PlannedValue,
>
    decreases samples.len(),
{
    if samples.len() == 0 {
        Seq::empty()
    } else {
        let prev = sample_value_rows(fi, mid, samples.drop_last(), labels);
        match sample_value_row(fi, samples.len() - 1, mid, samples.last(), labels) {
            Some(r) => prev.push(r),
            None => prev,
        }
    }
}

/// What a snapshot stores, in order: the samples of each family whose
/// metric has an id.
pub open spec fn value_rows(fams: Seq<Family>, metrics: Seq<NamedId>, labels: Seq<NamedId>) -> Seq<
    PlannedValue,
>
    decreases fams.len(),
{
    if fams.len() == 0 {
        Seq::empty()
    } else {
        let prev = value_rows(fams.drop_last(), metrics, labels);
        match id_lookup(metrics, fams.last().name@) {
            Some(mid) => prev + sample_value_rows(fams.len() - 1, mid, fams.last().samples@, labels),
            None => prev,
        }
    }
}

/// Every label set of a value to store has an id.
pub open spec fn labels_resolved(fams: Seq<Family>, metrics: Seq<NamedId>, labels: Seq<NamedId>) -> bool {
    forall|f: int, k: int|
        0 <= f < fams.len() && 0 <= k < fams[f].samples@.len() && id_lookup(metrics, fams[f].name@)
            is Some && value_support_spec(#[trigger] fams[f].samples@[k].value) is Ok && label_string(
            fams[f].samples@[k].labels@,
        ) is Some ==> id_lookup(labels, label_string(fams[f].samples@[k].labels@).unwrap()) is Some
}

/// Whether every label set of a value to store has an id.
pub fn check_labels_resolved(fams: &Vec<Family>, metrics: &Vec<NamedId>, labels: &Vec<NamedId>) -> (res:
    bool)
    ensures
        res == labels_resolved(fams@, metrics@, labels@),
{
    let mut f: usize = 0;
    while f < fams.len()
        invariant
            f <= fams@.len(),
            forall|g: int, k: int|
                0 <= g < f && 0 <= k < fams@[g].samples@.len() && id_lookup(metrics@, fams@[g].name@)
                    is Some && value_support_spec(#[trigger] fams@[g].samples@[k].value) is Ok
                    && label_string(fams@[g].samples@[k].labels@) is Some ==> id_lookup(
                    labels@,
                    label_string(fams@[g].samples@[k].labels@).unwrap(),
                ) is Some,
        decreases fams@.len() - f,
    {
        let fam = &fams[f];
        if find_id(metrics, fam.name.as_str()).is_some() {
            let mut k: usize = 0;
            while k < fam.samples.len()
                invariant
                    f < fams@.len(),
                    *fam == fams@[f as int],
                    id_lookup(metrics@, fam.name@) is Some,
                    k <= fam.samples@.len(),
                    forall|g: int, j: int|
                        0 <= g < f && 0 <= j < fams@[g].samples@.len() && id_lookup(
                            metrics@,
                            fams@[g].name@,
                        ) is Some && value_support_spec(#[trigger] fams@[g].samples@[j].value) is Ok
                            && label_string(fams@[g].samples@[j].labels@) is Some ==> id_lookup(
                            labels@,
                            label_string(fams@[g].samples@[j].labels@).unwrap(),
                        ) is Some,
                    forall|j: int|
                        0 <= j < k && value_support_spec(#[trigger] fam.samples@[j].value) is Ok
                            && label_string(fam.samples@[j].labels@) is Some ==> id_lookup(
                            labels@,
                            label_string(fam.samples@[j].labels@).unwrap(),
                        ) is Some,
                decreases fam.samples@.len() - k,
            {
                let sample = &fam.samples[k];
                if value_support(&sample.value).is_ok() {
                    match labels_to_db(&sample.labels) {
                        Some(l) => {
                            if find_id(labels, l.as_str()).is_none() {
                                assert(value_support_spec(fams@[f as int].samples@[k as int].value) is Ok);
                                return false;
                            }
                        },
                        None => {},
                    }
                }
                k = k + 1;
            }
            assert forall|g: int, j: int|
                0 <= g < f + 1 && 0 <= j < fams@[g].samples@.len() && id_lookup(
                    metrics@,
                    fams@[g].name@,
                ) is Some && value_support_spec(#[trigger] fams@[g].samples@[j].value) is Ok
                    && label_string(fams@[g].samples@[j].labels@) is Some implies id_lookup(
                    labels@,
                    label_string(fams@[g].samples@[j].labels@).unwrap(),
                ) is Some by {
                if g == f {
                    assert(fams@[g].samples@[j] == fam.samples@[j]);
                }
            }
        }
        f = f + 1;
    }
    true
}

/// The values a snapshot stores, given the ids of its metrics and label
/// sets.
pub fn plan_values(fams: &Vec<Family>, metrics: &Vec<NamedId>, labels: &Vec<NamedId>) -> (res: Vec<
    PlannedValue,
>)
    requires
        labels_resolved(fams@, metrics@, labels@),
    ensures
        res@ == value_rows(fams@, metrics@, labels@),
{
    let mut out: Vec<PlannedValue> = Vec::new();
    let mut f: usize = 0;
    while f < fams.len()
        invariant
            f <= fams@.len(),
            labels_resolved(fams@, metrics@, labels@),
            out@ == value_rows(fams@.take(f as int), metrics@, labels@),
        decreases fams@.len() - f,
    {
        assert(fams@.take(f + 1).drop_last() =~= fams@.take(f as int));
        assert(fams@.take(f + 1).last() == fams@[f as int]);
        let fam = &fams[f];
        match find_id(metrics, fam.name.as_str()) {
            Some(mid) => {
                let ghost base = out@;
                let mut k: usize = 0;
                assert(base =~= base + sample_value_rows(f as int, mid, fam.samples@.take(0), labels@));
                while k < fam.samples.len()
                    invariant
                        f < fams@.len(),
                        *fam == fams@[f as int],
                        k <= fam.samples@.len(),
                        labels_resolved(fams@, metrics@, labels@),
                        id_lookup(metrics@, fam.name@) == Some(mid),
                        out@ == base + sample_value_rows(f as int, mid, fam.samples@.take(k as int), labels@),
                    decreases fam.samples@.len() - k,
                {
                    let sample = &fam.samples[k];
                    let ghost pre = fam.samples@.take(k as int);
                    assert(fam.samples@.take(k + 1).drop_last() =~= pre);
                    assert(fam.samples@.take(k + 1).last() == *sample);
                    match value_support(&sample.value) {
                        Ok(()) => {
                            let label_id = match labels_to_db(&sample.labels) {
                                Some(l) => {
                                    assert(value_support_spec(fams@[f as int].samples@[k as int].value) is Ok);
                                    find_id(labels, l.as_str())
                                },
                                None => None,
                            };
                            let row = PlannedValue { family: f, sample: k, metric_id: mid, label_id };
                            assert(sample_value_row(f as int, k as int, mid, *sample, labels@) == Some(row));
                            out.push(row);
                            assert(out@ =~= base + sample_value_rows(
                                f as int,
                                mid,
                                fam.samples@.take(k + 1),
                                labels@,
                            ));
                        },
                        Err(_) => {
                            assert(out@ =~= base + sample_value_rows(
                                f as int,
                                mid,
                                fam.samples@.take(k + 1),
                                labels@,
                            ));
                        },
                    }
                    k = k + 1;
                }
                assert(fam.samples@.take(fam.samples@.len() as int) =~= fam.samples@);
            },
            None => {},
        }
        f = f + 1;
    }
    assert(fams@.take(fams@.len() as int) =~= fams@);
    out
}

// ---------------------------------------------------------------------------
// What a snapshot adds, over several calls
// ---------------------------------------------------------------------------

/// Every label set of a snapshot is either known already or added; no label
/// set is added twice, and none that is known is added again.
pub proof fn lemma_new_labels_cover(strings: Seq<Seq<char>>, known: Seq<Seq<char>>)
    ensures
        forall|x: Seq<char>|
            #[trigger] strings.contains(x) ==> known.contains(x) || new_labels_spec(
                strings,
                known,
            ).contains(x),
        new_labels_spec(strings, known).no_duplicates(),
        forall|x: Seq<char>|
            #[trigger] new_labels_spec(strings, known).contains(x) ==> !known.contains(x)
                && strings.contains(x),
    decreases strings.len(),
{
    if strings.len() > 0 {
        let pre = strings.drop_last();
        lemma_new_labels_cover(pre, known);
        let prev = new_labels_spec(pre, known);
        let x = strings.last();
        assert forall|y: Seq<char>| #[trigger] strings.contains(y) implies known.contains(y)
            || new_labels_spec(strings, known).contains(y) by {
            let j = choose|j: int| 0 <= j < strings.len() && strings[j] == y;
            if j < strings.len() - 1 {
                assert(pre[j] == y);
                assert(pre.contains(y));
                if prev.contains(y) {
                    let t = choose|t: int| 0 <= t < prev.len() && prev[t] == y;
                    if !(known.contains(x) || prev.contains(x)) {
                        assert(prev.push(x)[t] == y);
                    }
                }
            } else {
                if !(known.contains(x) || prev.contains(x)) {
                    assert(prev.push(x)[prev.len() as int] == x);
                }
            }
        }
        assert forall|y: Seq<char>| #[trigger] new_labels_spec(strings, known).contains(y) implies !known.contains(y)
            && strings.contains(y) by {
            let r = new_labels_spec(strings, known);
            let t = choose|t: int| 0 <= t < r.len() && r[t] == y;
            if t < prev.len() {
                assert(prev[t] == y);
                assert(prev.contains(y));
                let j = choose|j: int| 0 <= j < pre.len() && pre[j] == y;
                assert(strings[j] == y);
            } else {
                assert(y == x);
                assert(strings[strings.len() - 1] == x);
            }
        }
    }
}

/// Counter, gauge, untyped and info values are the ones stored; a value of
/// any other kind is refused with an error that names that kind.
pub proof fn lemma_stored_value_kinds(v: SampleValue)
    ensures
        value_support_spec(v) is Ok <==> (v is Counter || v is Gauge || v is Untyped || v is Info),
        v is Summary ==> value_support_spec(v) == Err::<(), UnsupportedMetricType>(
            UnsupportedMetricType::Summary,
        ),
        v is Histogram ==> value_support_spec(v) == Err::<(), UnsupportedMetricType>(
            UnsupportedMetricType::Histogram,
        ),
        v is GaugeHistogram ==> value_support_spec(v) == Err::<(), UnsupportedMetricType>(
            UnsupportedMetricType::GaugeHistogram,
        ),
        v is NativeHistogram ==> value_support_spec(v) == Err::<(), UnsupportedMetricType>(
            UnsupportedMetricType::NativeHistogram,
        ),
        v is HybridHistogram ==> value_support_spec(v) == Err::<(), UnsupportedMetricType>(
            UnsupportedMetricType::HybridHistogram,
        ),
        v is StateSet ==> value_support_spec(v) == Err::<(), UnsupportedMetricType>(
            UnsupportedMetricType::StateSet,
        ),
{
}

/// Where every sample of a family holds a counter, gauge, untyped or info
/// value, the family stores one value per sample, in order, each under the
/// family's metric id.
pub proof fn lemma_every_stored_sample_has_a_row(fi: int, mid: i64, samples: Seq<Sample>, labels: Seq<NamedId>)
    requires
        forall|k: int|
            0 <= k < samples.len() ==> {
                let v = (#[trigger] samples[k]).value;
                v is Counter || v is Gauge || v is Untyped || v is Info
            },
    ensures
        sample_value_rows(fi, mid, samples, labels).len() == samples.len(),
        forall|k: int|
            0 <= k < samples.len() ==> (#[trigger] sample_value_rows(fi, mid, samples, labels)[k]).family
                == fi as usize && sample_value_rows(fi, mid, samples, labels)[k].sample == k as usize
                && sample_value_rows(fi, mid, samples, labels)[k].metric_id == mid,
    decreases samples.len(),
{
    if samples.len() > 0 {
        let pre = samples.drop_last();
        assert forall|k: int| 0 <= k < pre.len() implies {
            let v = (#[trigger] pre[k]).value;
            v is Counter || v is Gauge || v is Untyped || v is Info
        } by {
            assert(pre[k] == samples[k]);
        }
        lemma_every_stored_sample_has_a_row(fi, mid, pre, labels);
        let last = samples[samples.len() - 1];
        assert(samples.last() == last);
        lemma_stored_value_kinds(last.value);
        let prev = sample_value_rows(fi, mid, pre, labels);
        let rows = sample_value_rows(fi, mid, samples, labels);
        assert(rows == prev.push(sample_value_row(fi, samples.len() - 1, mid, last, labels).unwrap()));
        assert forall|k: int| 0 <= k < samples.len() implies (#[trigger] rows[k]).family == fi as usize
            && rows[k].sample == k as usize && rows[k].metric_id == mid by {
            if k < pre.len() {
                assert(rows[k] == prev[k]);
            }
        }
    }
}

/// A snapshot's values are those of its families in order: a family whose
/// metric has an id and whose samples all hold counter, gauge, untyped or
/// info values adds one row per sample, after the rows of the families
/// before it; a family whose metric has no id adds none.
pub proof fn lemma_family_rows(fams: Seq<Family>, f: int, metrics: Seq<NamedId>, labels: Seq<NamedId>)
    requires
        0 <= f < fams.len(),
    ensures
        id_lookup(metrics, fams[f].name@) is None ==> value_rows(fams.take(f + 1), metrics, labels)
            == value_rows(fams.take(f), metrics, labels),
        (id_lookup(metrics, fams[f].name@) matches Some(mid) && forall|k: int|
            0 <= k < fams[f].samples@.len() ==> {
                let v = (#[trigger] fams[f].samples@[k]).value;
                v is Counter || v is Gauge || v is Untyped || v is Info
            }) ==> {
            let before = value_rows(fams.take(f), metrics, labels);
            let after = value_rows(fams.take(f + 1), metrics, labels);
            &&& after.len() == before.len() + fams[f].samples@.len()
            &&& after.subrange(0, before.len() as int) == before
            &&& forall|k: int|
                0 <= k < fams[f].samples@.len() ==> (#[trigger] after[before.len() + k]).family
                    == f as usize && after[before.len() + k].sample == k as usize
                    && after[before.len() + k].metric_id == id_lookup(metrics, fams[f].name@).unwrap()
        },
{
    let t = fams.take(f + 1);
    assert(t.drop_last() =~= fams.take(f));
    assert(t.last() == fams[f]);
    if let Some(mid) = id_lookup(metrics, fams[f].name@) {
        if forall|k: int|
            0 <= k < fams[f].samples@.len() ==> {
                let v = (#[trigger] fams[f].samples@[k]).value;
                v is Counter || v is Gauge || v is Untyped || v is Info
            } {
            lemma_every_stored_sample_has_a_row(f, mid, fams[f].samples@, labels);
            let before = value_rows(fams.take(f), metrics, labels);
            let rows = sample_value_rows(f, mid, fams[f].samples@, labels);
            let after = value_rows(t, metrics, labels);
            assert(after == before + rows);
            assert(after.subrange(0, before.len() as int) =~= before);
            assert forall|k: int| 0 <= k < fams[f].samples@.len() implies (#[trigger] after[before.len()
                + k]).family == f as usize && after[before.len() + k].sample == k as usize
                && after[before.len() + k].metric_id == mid by {
                assert(after[before.len() + k] == rows[k]);
            }
        }
    }
}

/// The table of label sets, extended by what a snapshot adds, holds every
/// label set that was known or that the snapshot has, and nothing else; a
/// table with no label set twice keeps that property.
pub proof fn lemma_label_table_stays_unique(strings: Seq<Seq<char>>, known: Seq<Seq<char>>)
    requires
        known.no_duplicates(),
    ensures
        (known + new_labels_spec(strings, known)).no_duplicates(),
        forall|x: Seq<char>|
            #[trigger] (known + new_labels_spec(strings, known)).contains(x) <==> (known.contains(x)
                || strings.contains(x)),
{
    let added = new_labels_spec(strings, known);
    let table = known + added;
    lemma_new_labels_cover(strings, known);
    assert forall|i: int, j: int| 0 <= i < table.len() && 0 <= j < table.len() && i != j implies table[i]
        != table[j] by {
        if i < known.len() && j < known.len() {
        } else if i >= known.len() && j >= known.len() {
            assert(table[i] == added[i - known.len()]);
            assert(table[j] == added[j - known.len()]);
        } else if i < known.len() {
            assert(table[j] == added[j - known.len()]);
            assert(added.contains(table[j]));
            assert(known.contains(table[i]));
        } else {
            assert(table[i] == added[i - known.len()]);
            assert(added.contains(table[i]));
            assert(known.contains(table[j]));
        }
    }
    assert forall|x: Seq<char>| #[trigger] table.contains(x) <==> (known.contains(x) || strings.contains(x)) by {
        if table.contains(x) {
            let t = choose|t: int| 0 <= t < table.len() && table[t] == x;
            if t >= known.len() {
                assert(added[t - known.len()] == x);
                assert(added.contains(x));
            } else {
                assert(known[t] == x);
            }
        }
        if known.contains(x) {
            let t = choose|t: int| 0 <= t < known.len() && known[t] == x;
            assert(table[t] == x);
        } else if strings.contains(x) {
            assert(added.contains(x));
            let t = choose|t: int| 0 <= t < added.len() && added[t] == x;
            assert(table[known.len() + t] == x);
        }
    }
}

/// In a table where no name comes twice, the id found for a name is the id
/// of its row; a name with no row has none.
pub proof fn lemma_id_lookup_unique(table: Seq<NamedId>, t: int)
    requires
        0 <= t < table.len(),
        forall|i: int, j: int|
            0 <= i < table.len() && 0 <= j < table.len() && i != j ==> (#[trigger] table[i]).name@
                != (#[trigger] table[j]).name@,
    ensures
        id_lookup(table, table[t].name@) == Some(table[t].id),
    decreases table.len(),
{
    if t < table.len() - 1 {
        assert(table.last() == table[table.len() - 1]);
        assert(table.drop_last()[t] == table[t]);
        lemma_id_lookup_unique(table.drop_last(), t);
    }
}

/// A name that no row of a table has has no id there.
pub proof fn lemma_id_lookup_absent(table: Seq<NamedId>, key: Seq<char>)
    requires
        forall|i: int| 0 <= i < table.len() ==> (#[trigger] table[i]).name@ != key,
    ensures
        id_lookup(table, key) is None,
    decreases table.len(),
{
    if table.len() > 0 {
        assert(table.last() == table[table.len() - 1]);
        assert forall|i: int| 0 <= i < table.drop_last().len() implies (#[trigger] table.drop_last()[i]).name@
            != key by {
            assert(table.drop_last()[i] == table[i]);
        }
        lemma_id_lookup_absent(table.drop_last(), key);
    }
}

/// Every family of a snapshot whose type is stored is either known already
/// or added, under its name and with the number of its type; no name is
/// added twice, and none that is known is added again.
pub proof fn lemma_new_metrics_cover(fams: Seq<Family>, known: Seq<Seq<char>>)
    requires
        fams.len() <= usize::MAX,
    ensures
        ({
            let (added, names) = new_metrics_acc(fams, known);
            &&& added.len() == names.len()
            &&& forall|t: int|
                0 <= t < added.len() ==> (#[trigger] added[t]).family < fams.len() && fams[added[t].family as int].name@
                    == names[t] && metric_type_spec(fams[added[t].family as int].kind) == Ok::<
                    i64,
                    UnsupportedMetricType,
                >(added[t].kind)
            &&& names.no_duplicates()
            &&& forall|x: Seq<char>| #[trigger] names.contains(x) ==> !known.contains(x)
            &&& forall|i: int|
                0 <= i < fams.len() && (metric_type_spec(#[trigger] fams[i].kind) is Ok)
                    ==> known.contains(fams[i].name@) || names.contains(fams[i].name@)
        }),
    decreases fams.len(),
{
    if fams.len() > 0 {
        let pre = fams.drop_last();
        lemma_new_metrics_cover(pre, known);
        let (padded, pnames) = new_metrics_acc(pre, known);
        let (added, names) = new_metrics_acc(fams, known);
        let f = fams.last();
        assert forall|t: int| 0 <= t < added.len() implies (#[trigger] added[t]).family < fams.len()
            && fams[added[t].family as int].name@ == names[t] && metric_type_spec(
            fams[added[t].family as int].kind,
        ) == Ok::<i64, UnsupportedMetricType>(added[t].kind) by {
            if t < padded.len() {
                assert(added[t] == padded[t]);
                assert(names[t] == pnames[t]);
                assert(pre[added[t].family as int] == fams[added[t].family as int]);
            } else {
                assert(!(known.contains(f.name@) || pnames.contains(f.name@)));
                let code = metric_type_spec(f.kind)->Ok_0;
                assert(added == padded.push(NewMetric { family: (fams.len() - 1) as usize, kind: code }));
                assert(added[t].family == fams.len() - 1);
                assert(fams[fams.len() - 1] == f);
            }
        }
        assert forall|x: Seq<char>| #[trigger] names.contains(x) implies !known.contains(x) by {
            let t = choose|t: int| 0 <= t < names.len() && names[t] == x;
            if t < pnames.len() {
                assert(pnames[t] == x);
                assert(pnames.contains(x));
            }
        }
        assert forall|i: int|
            0 <= i < fams.len() && (metric_type_spec(#[trigger] fams[i].kind) is Ok) implies known.contains(
            fams[i].name@,
        ) || names.contains(fams[i].name@) by {
            if i < fams.len() - 1 {
                assert(pre[i] == fams[i]);
                if pnames.contains(fams[i].name@) {
                    let t = choose|t: int| 0 <= t < pnames.len() && pnames[t] == fams[i].name@;
                    assert(names[t] == pnames[t]);
                }
            } else {
                if !(known.contains(f.name@) || pnames.contains(f.name@)) {
                    assert(names[pnames.len() as int] == f.name@);
                } else if pnames.contains(f.name@) {
                    let t = choose|t: int| 0 <= t < pnames.len() && pnames[t] == f.name@;
                    assert(names[t] == pnames[t]);
                }
            }
        }
    }
}

/// A sample's label set is among the snapshot's label sets.
proof fn lemma_sample_label_listed(samples: Seq<Sample>, k: int)
    requires
        0 <= k < samples.len(),
        label_string(sample_label_source(samples[k])) is Some,
    ensures
        sample_label_strings(samples).contains(label_string(sample_label_source(samples[k])).unwrap()),
    decreases samples.len(),
{
    let l = label_string(sample_label_source(samples[k])).unwrap();
    let pre = samples.drop_last();
    if k < samples.len() - 1 {
        assert(pre[k] == samples[k]);
        lemma_sample_label_listed(pre, k);
        let t = choose|t: int|
            0 <= t < sample_label_strings(pre).len() && sample_label_strings(pre)[t] == l;
        assert(sample_label_strings(samples)[t] == l);
    } else {
        assert(sample_label_strings(samples).last() == l);
        assert(sample_label_strings(samples)[sample_label_strings(samples).len() - 1] == l);
    }
}

proof fn lemma_family_label_listed(fams: Seq<Family>, f: int, x: Seq<char>)
    requires
        0 <= f < fams.len(),
        sample_label_strings(fams[f].samples@).contains(x),
    ensures
        family_label_strings(fams).contains(x),
    decreases fams.len(),
{
    let pre = fams.drop_last();
    let t = choose|t: int|
        0 <= t < sample_label_strings(fams[f].samples@).len() && sample_label_strings(
            fams[f].samples@,
        )[t] == x;
    if f < fams.len() - 1 {
        assert(pre[f] == fams[f]);
        lemma_family_label_listed(pre, f, x);
        let u = choose|u: int|
            0 <= u < family_label_strings(pre).len() && family_label_strings(pre)[u] == x;
        assert(family_label_strings(fams)[u] == x);
    } else {
        assert(family_label_strings(fams)[family_label_strings(pre).len() + t] == x);
    }
}

/// Once every label set that is known or added has an id, every value of a
/// snapshot finds the id of its label set, wherever an info value's labels
/// give the same label set as its sample's labels.
pub proof fn lemma_added_labels_resolve(
    fams: Seq<Family>,
    metrics: Seq<NamedId>,
    known: Seq<Seq<char>>,
    labels: Seq<NamedId>,
)
    requires
        forall|x: Seq<char>|
            known.contains(x) || new_labels_spec(family_label_strings(fams), known).contains(x)
                ==> (#[trigger] id_lookup(labels, x)) is Some,
        forall|f: int, k: int|
            0 <= f < fams.len() && 0 <= k < fams[f].samples@.len() ==> label_string(
                sample_label_source(#[trigger] fams[f].samples@[k]),
            ) == label_string(fams[f].samples@[k].labels@),
    ensures
        labels_resolved(fams, metrics, labels),
{
    lemma_new_labels_cover(family_label_strings(fams), known);
    assert forall|f: int, k: int|
        0 <= f < fams.len() && 0 <= k < fams[f].samples@.len() && id_lookup(metrics, fams[f].name@)
            is Some && value_support_spec(#[trigger] fams[f].samples@[k].value) is Ok && label_string(
            fams[f].samples@[k].labels@,
        ) is Some implies id_lookup(labels, label_string(fams[f].samples@[k].labels@).unwrap())
        is Some by {
        let l = label_string(fams[f].samples@[k].labels@).unwrap();
        assert(label_string(sample_label_source(fams[f].samples@[k])) == Some(l));
        lemma_sample_label_listed(fams[f].samples@, k);
        lemma_family_label_listed(fams, f, l);
        assert(family_label_strings(fams).contains(l));
    }
}

} // verus!
