//! The document under construction: global metadata, per-series chart
//! metadata, per-series samples, and the identity registry of callstacks.
//! Every method is specified against the model in `model`.
use vstd::prelude::*;

use crate::model::ChartV;
use crate::model::DataViewV;
use crate::model::DataViewerV;
use crate::model::ErrV;
use crate::model::InfoV;
use crate::model::MemcontextV;
use crate::model::add_inuse_spec;
use crate::model::apply_context;
use crate::model::apply_contexts;
use crate::model::apply_inuse;
use crate::model::assigned_uid;
use crate::model::init_viewer;
use crate::model::lemma_apply_context_wf;
use crate::model::lemma_reg_lookup_member;
use crate::model::reg_lookup;
use crate::model::series_app;
use crate::model::series_of;
use crate::model::viewer_wf;
use crate::series::Sample;
use crate::series::SeriesKey;
use crate::series::Type;
use crate::series::key_eq;
use crate::text::capture_bytes_field;
use crate::text::u32_to_string;

verus! {

/// A fatal scan error: either a snapshot date that does not parse, or a
/// matched pattern whose digit group cannot be taken as a number.
#[derive(Debug, Clone, PartialEq, Eq)]
pub enum ParseError {
    Date { text: String },
    InUseField,
    ContextField,
}

impl View for ParseError {
    type V = ErrV;

    open spec fn view(&self) -> ErrV {
        match self {
            ParseError::Date { text } => ErrV::Date { text: text@ },
            ParseError::InUseField => ErrV::InUseField,
            ParseError::ContextField => ErrV::ContextField,
        }
    }
}

/// One memory-context block: its counts and its callstack text.
#[derive(Debug, Clone, PartialEq, Eq)]
pub struct Memcontext {
    pub allocs: u64,
    pub bytes: u64,
    pub callstack: String,
}

impl View for Memcontext {
    type V = MemcontextV;

    open spec fn view(&self) -> MemcontextV {
        MemcontextV { allocs: self.allocs, bytes: self.bytes, callstack: self.callstack@ }
    }
}

impl DeepView for Memcontext {
    type V = MemcontextV;

    open spec fn deep_view(&self) -> MemcontextV {
        self.view()
    }
}

impl Memcontext {
    /// A block with no allocations and empty callstack text.
    pub fn empty() -> (r: Memcontext)
        ensures
            r@ == crate::model::empty_ctx(),
    {
        Memcontext { allocs: 0, bytes: 0, callstack: String::new() }
    }
}

/// Global metadata of the document.
#[derive(Debug, Clone, PartialEq, Eq)]
pub struct DataView {
    pub chart_type: Type,
    pub title: Option<String>,
    pub x_title: Option<String>,
    pub y_title: Option<String>,
    pub x_unit: Option<String>,
    pub y_unit: Option<String>,
    pub description: Option<String>,
}

impl View for DataView {
    type V = DataViewV;

    open spec fn view(&self) -> DataViewV {
        DataViewV {
            chart_type: self.chart_type,
            title: self.title.deep_view(),
            x_title: self.x_title.deep_view(),
            y_title: self.y_title.deep_view(),
            x_unit: self.x_unit.deep_view(),
            y_unit: self.y_unit.deep_view(),
            description: self.description.deep_view(),
        }
    }
}

/// Metadata of one chart.
#[derive(Debug, Clone, PartialEq, Eq)]
pub struct Chart {
    pub title: Option<String>,
    pub description: Option<String>,
}

impl View for Chart {
    type V = ChartV;

    open spec fn view(&self) -> ChartV {
        ChartV { title: self.title.deep_view(), description: self.description.deep_view() }
    }
}

/// The identity registry: callstack text to uid, in first-seen order.
#[derive(Debug, Clone, PartialEq, Eq)]
pub struct Info {
    pub uid_count: u32,
    pub uids: Vec<(String, u32)>,
}

impl View for Info {
    type V = InfoV;

    open spec fn view(&self) -> InfoV {
        InfoV { uid_count: self.uid_count as int, uids: self.uids.deep_view() }
    }
}

/// `reg_lookup` finds the entry an index-wise search finds.
proof fn lemma_reg_lookup_at(r: Seq<(Seq<char>, u32)>, k: Seq<char>, i: int)
    requires
        0 <= i < r.len(),
        forall|j: int| 0 <= j < i ==> (#[trigger] r[j]).0 != k,
        r[i].0 == k,
    ensures
        reg_lookup(r, k) == Some(r[i].1),
    decreases i,
{
    if i > 0 {
        assert(r[0].0 != k);
        assert(r.drop_first()[i - 1] == r[i]);
        assert forall|j: int| 0 <= j < i - 1 implies (#[trigger] r.drop_first()[j]).0 != k by {
            assert(r.drop_first()[j] == r[j + 1]);
        }
        lemma_reg_lookup_at(r.drop_first(), k, i - 1);
    }
}

impl Info {
    /// Return the uid of a callstack seen before, or register a new one
    /// under the next uid; the flag says whether the callstack was new.
    pub fn assign_or_lookup(&mut self, callstack: &String) -> (r: (u32, bool))
        requires
            old(self).uid_count < u32::MAX,
        ensures
            r.0 == assigned_uid(old(self)@, callstack@),
            r.1 == (reg_lookup(old(self)@.uids, callstack@) is None),
            final(self)@.uids == if r.1 {
                old(self)@.uids.push((callstack@, r.0))
            } else {
                old(self)@.uids
            },
            final(self)@.uid_count == if r.1 {
                old(self)@.uid_count + 1
            } else {
                old(self)@.uid_count
            },
    {
        let n = self.uids.len();
        let mut idx: usize = 0;
        while idx < n
            invariant
                0 <= idx <= n,
                n == self.uids.len(),
                forall|j: int| 0 <= j < idx ==> (#[trigger] self@.uids[j]).0 != callstack@,
            decreases n - idx,
        {
            let hit = {
                let entry = &self.uids[idx];
                entry.0 == *callstack
            };
            if hit {
                let uid = self.uids[idx].1;
                proof {
                    lemma_reg_lookup_at(self@.uids, callstack@, idx as int);
                }
                return (uid, false);
            }
            idx = idx + 1;
        }
        proof {
            lemma_reg_lookup_member(self@.uids, callstack@);
            if reg_lookup(self@.uids, callstack@) is Some {
                let w = choose|i: int|
                    0 <= i < self@.uids.len() && self@.uids[i] == (
                        callstack@,
                        reg_lookup(self@.uids, callstack@)->Some_0,
                    );
                assert(self@.uids[w].0 == callstack@);
            }
        }
        let uid = self.uid_count + 1;
        self.uid_count = uid;
        self.uids.push((callstack.clone(), uid));
        proof {
            assert(self@.uids =~= old(self)@.uids.push((callstack@, uid)));
        }
        (uid, true)
    }
}

/// The entries of an association list, with values taken to their views.
pub open spec fn chart_entries(l: Seq<(SeriesKey, Chart)>) -> Seq<(SeriesKey, ChartV)> {
    l.map_values(|p: (SeriesKey, Chart)| (p.0, p.1@))
}

/// The entries of the sample store, with the sample vectors as sequences.
pub open spec fn data_entries(l: Seq<(SeriesKey, Vec<Sample>)>) -> Seq<(SeriesKey, Seq<Sample>)> {
    l.map_values(|p: (SeriesKey, Vec<Sample>)| (p.0, p.1@))
}

/// The finite map an association list stands for; a later entry for the
/// same key would win, but the lists kept here never repeat a key.
pub open spec fn alist_map<V>(l: Seq<(SeriesKey, V)>) -> Map<SeriesKey, V>
    decreases l.len(),
{
    if l.len() == 0 {
        Map::empty()
    } else {
        alist_map(l.drop_last()).insert(l.last().0, l.last().1)
    }
}

/// No key occurs twice.
pub open spec fn alist_unique<V>(l: Seq<(SeriesKey, V)>) -> bool {
    forall|i: int, j: int| 0 <= i < j < l.len() ==> (#[trigger] l[i]).0 != (#[trigger] l[j]).0
}

/// A key is in the map exactly when some entry carries it.
proof fn lemma_alist_contains<V>(l: Seq<(SeriesKey, V)>, k: SeriesKey)
    ensures
        alist_map(l).contains_key(k) <==> exists|i: int| 0 <= i < l.len() && (#[trigger] l[i]).0
            == k,
    decreases l.len(),
{
    if l.len() > 0 {
        lemma_alist_contains(l.drop_last(), k);
        if l.last().0 == k {
            assert(l[l.len() - 1].0 == k);
        } else if alist_map(l.drop_last()).contains_key(k) {
            let i = choose|i: int| 0 <= i < l.drop_last().len() && (#[trigger] l.drop_last()[i]).0 == k;
            assert(l[i].0 == k);
        } else if exists|i: int| 0 <= i < l.len() && (#[trigger] l[i]).0 == k {
            let i = choose|i: int| 0 <= i < l.len() && (#[trigger] l[i]).0 == k;
            assert(l.drop_last()[i].0 == k);
        }
    }
}

/// With unique keys, the map agrees with every entry.
proof fn lemma_alist_index<V>(l: Seq<(SeriesKey, V)>, i: int)
    requires
        alist_unique(l),
        0 <= i < l.len(),
    ensures
        alist_map(l).contains_key(l[i].0),
        alist_map(l)[l[i].0] == l[i].1,
    decreases l.len(),
{
    if i == l.len() - 1 {
    } else {
        assert(alist_unique(l.drop_last())) by {
            assert(forall|a: int, b: int|
                0 <= a < b < l.drop_last().len() ==> (#[trigger] l.drop_last()[a]).0 != (
                #[trigger] l.drop_last()[b]).0);
        }
        lemma_alist_index(l.drop_last(), i);
        assert(l.drop_last()[i] == l[i]);
        assert(l[i].0 != l.last().0);
    }
}

/// Appending an entry puts its key in the map.
proof fn lemma_alist_push<V>(l: Seq<(SeriesKey, V)>, k: SeriesKey, v: V)
    ensures
        alist_map(l.push((k, v))) == alist_map(l).insert(k, v),
{
    assert(l.push((k, v)).drop_last() =~= l);
    assert(l.push((k, v)).last() == (k, v));
}

/// With unique keys, rewriting the value of the entry at `i` updates the
/// map at that entry's key.
proof fn lemma_alist_update<V>(l: Seq<(SeriesKey, V)>, i: int, v: V)
    requires
        alist_unique(l),
        0 <= i < l.len(),
    ensures
        alist_map(l.update(i, (l[i].0, v))) == alist_map(l).insert(l[i].0, v),
    decreases l.len(),
{
    let l2 = l.update(i, (l[i].0, v));
    if i == l.len() - 1 {
        assert(l2.drop_last() =~= l.drop_last());
        assert(alist_map(l2) == alist_map(l.drop_last()).insert(l[i].0, v));
        assert(alist_map(l).insert(l[i].0, v) =~= alist_map(l.drop_last()).insert(l[i].0, v));
    } else {
        assert(alist_unique(l.drop_last())) by {
            assert(forall|a: int, b: int|
                0 <= a < b < l.drop_last().len() ==> (#[trigger] l.drop_last()[a]).0 != (
                #[trigger] l.drop_last()[b]).0);
        }
        assert(l2.drop_last() =~= l.drop_last().update(i, (l[i].0, v)));
        assert(l.drop_last()[i] == l[i]);
        lemma_alist_update(l.drop_last(), i, v);
        assert(l2.last() == l.last());
        assert(l[i].0 != l.last().0);
        assert(alist_map(l2) == alist_map(l.drop_last()).insert(l[i].0, v).insert(
            l.last().0,
            l.last().1,
        ));
        assert(alist_map(l.drop_last()).insert(l[i].0, v).insert(l.last().0, l.last().1)
            =~= alist_map(l.drop_last()).insert(l.last().0, l.last().1).insert(l[i].0, v));
    }
}

/// Index of the entry keyed `key`, if any.
fn find_key(data: &Vec<(SeriesKey, Vec<Sample>)>, key: SeriesKey) -> (r: Option<usize>)
    ensures
        match r {
            Some(i) => {
                &&& i < data@.len()
                &&& data@[i as int].0 == key
                &&& forall|j: int| 0 <= j < i ==> (#[trigger] data@[j]).0 != key
            },
            None => forall|j: int| 0 <= j < data@.len() ==> (#[trigger] data@[j]).0 != key,
        },
{
    let n = data.len();
    let mut idx: usize = 0;
    while idx < n
        invariant
            0 <= idx <= n,
            n == data@.len(),
            forall|j: int| 0 <= j < idx ==> (#[trigger] data@[j]).0 != key,
        decreases n - idx,
    {
        if key_eq(&data[idx].0, &key) {
            return Some(idx);
        }
        idx = idx + 1;
    }
    None
}

/// Append one sample to the series keyed `key`, creating it on first use.
fn push_sample(data: &mut Vec<(SeriesKey, Vec<Sample>)>, key: SeriesKey, smp: Sample)
    requires
        alist_unique(data_entries(old(data)@)),
    ensures
        alist_unique(data_entries(final(data)@)),
        alist_map(data_entries(final(data)@)) == series_app(
            alist_map(data_entries(old(data)@)),
            key,
            smp,
        ),
        forall|i: int|
            0 <= i < final(data)@.len() ==> (#[trigger] final(data)@[i]).0 == key || exists|j: int|
                0 <= j < old(data)@.len() && (#[trigger] old(data)@[j]).0 == final(data)@[i].0,
{
    let ghost entries0 = data_entries(old(data)@);
    match find_key(data, key) {
        Some(idx) => {
            let mut entry = data.remove(idx);
            entry.1.push(smp);
            data.insert(idx, entry);
            proof {
                let upd = old(data)@.update(idx as int, entry);
                assert(data@ =~= upd);
                assert(data_entries(upd) =~= entries0.update(idx as int, (key, entry.1@)));
                lemma_alist_index(entries0, idx as int);
                lemma_alist_update(entries0, idx as int, entry.1@);
                assert(entries0[idx as int].1 == old(data)@[idx as int].1@);
                assert(series_of(alist_map(entries0), key) == old(data)@[idx as int].1@);
                assert(alist_unique(data_entries(data@)));
            }
        },
        None => {
            let mut samples: Vec<Sample> = Vec::new();
            samples.push(smp);
            data.push((key, samples));
            proof {
                assert(data_entries(data@) =~= entries0.push((key, samples@)));
                lemma_alist_push(entries0, key, samples@);
                lemma_alist_contains(entries0, key);
                assert(forall|i: int|
                    0 <= i < entries0.len() ==> (#[trigger] entries0[i]).0 != key);
                assert(!alist_map(entries0).contains_key(key));
                assert(samples@ =~= series_of(alist_map(entries0), key).push(smp));
                assert(alist_unique(data_entries(data@)));
            }
        },
    }
}

/// The root of the document: global metadata, chart metadata and sample
/// data per series, and the identity registry.
#[derive(Debug, Clone, PartialEq, Eq)]
pub struct DataViewer {
    pub dataview: DataView,
    pub chart: Vec<(SeriesKey, Chart)>,
    pub data: Vec<(SeriesKey, Vec<Sample>)>,
    pub info: Info,
}

impl View for DataViewer {
    type V = DataViewerV;

    open spec fn view(&self) -> DataViewerV {
        DataViewerV {
            dataview: self.dataview@,
            chart: alist_map(chart_entries(self.chart@)),
            data: alist_map(data_entries(self.data@)),
            info: self.info@,
        }
    }
}

impl DataViewer {
    /// Representation invariant: no series key occurs twice, and the model
    /// of the document is well formed.
    pub open spec fn inv(&self) -> bool {
        &&& alist_unique(chart_entries(self.chart@))
        &&& alist_unique(data_entries(self.data@))
        &&& viewer_wf(self@)
    }

    /// The empty document: fixed global metadata and the chart entry of
    /// the aggregate series.
    pub fn new() -> (r: DataViewer)
        ensures
            r@ == init_viewer(),
            r.inv(),
    {
        let dataview = DataView {
            chart_type: Type::XY,
            title: Some(String::from_str("History of memory usage with Memtrace")),
            x_title: Some(String::from_str("Elapsed Time")),
            y_title: Some(String::from_str("Memory in use")),
            x_unit: Some(String::from_str("Hour")),
            y_unit: Some(String::from_str("KBytes")),
            description: None,
        };
        let mut chart: Vec<(SeriesKey, Chart)> = Vec::new();
        chart.push(
            (
                SeriesKey::InUse,
                Chart { title: Some(String::from_str("Total HEAP Memory in use")), description: None },
            ),
        );
        let r = DataViewer {
            dataview,
            chart,
            data: Vec::new(),
            info: Info { uid_count: 0, uids: Vec::new() },
        };
        proof {
            assert(chart_entries(r.chart@) =~= Seq::<(SeriesKey, ChartV)>::empty().push(
                (SeriesKey::InUse, r.chart@[0].1@),
            ));
            lemma_alist_push(Seq::<(SeriesKey, ChartV)>::empty(), SeriesKey::InUse, r.chart@[0].1@);
            assert(r@ =~= init_viewer());
        }
        r
    }

    /// Record the aggregate sample of one in-use-summary line: the byte
    /// count extracted from the remainder of the line, at the given elapsed
    /// time. Fails exactly when the remainder has no byte-count field or
    /// its digits exceed the largest representable count.
    pub fn add_inuse_summary(&mut self, elapsed_sec: i64, inuse: &str) -> (r: Result<
        (),
        ParseError,
    >)
        requires
            old(self).inv(),
        ensures
            match r {
                Ok(()) => {
                    &&& add_inuse_spec(old(self)@, elapsed_sec, inuse@) == Ok::<_, ErrV>(
                        final(self)@,
                    )
                    &&& final(self).inv()
                },
                Err(e) => {
                    &&& add_inuse_spec(old(self)@, elapsed_sec, inuse@) == Err::<DataViewerV, _>(
                        e@,
                    )
                    &&& *final(self) == *old(self)
                },
            },
    {
        match capture_bytes_field(inuse) {
            None => Err(ParseError::InUseField),
            Some(None) => Err(ParseError::InUseField),
            Some(Some(bytes)) => {
                push_sample(&mut self.data, SeriesKey::InUse, Sample { elapsed_sec, bytes });
                proof {
                    assert(self@ =~= apply_inuse(old(self)@, elapsed_sec, bytes));
                }
                Ok(())
            },
        }
    }

    /// Attach one completed context block at the given elapsed time,
    /// registering its callstack when it is new.
    pub fn add_memcontext(&mut self, elapsed_sec: i64, memcontext: &Memcontext)
        requires
            old(self).inv(),
            old(self)@.info.uid_count < u32::MAX,
        ensures
            final(self)@ == apply_context(old(self)@, elapsed_sec, memcontext@),
            final(self).inv(),
    {
        proof {
            lemma_apply_context_wf(old(self)@, elapsed_sec, memcontext@);
        }
        let (uid, fresh) = self.info.assign_or_lookup(&memcontext.callstack);
        if fresh {
            let mut title = String::from_str("Memory Context with UID:");
            title.append(u32_to_string(uid).as_str());
            let chart = Chart { title: Some(title), description: Some(memcontext.callstack.clone()) };
            proof {
                lemma_alist_contains(chart_entries(self.chart@), SeriesKey::Uid(uid));
            }
            self.chart.push((SeriesKey::Uid(uid), chart));
            proof {
                assert(chart_entries(self.chart@) =~= chart_entries(old(self).chart@).push(
                    (SeriesKey::Uid(uid), chart@),
                ));
                lemma_alist_push(chart_entries(old(self).chart@), SeriesKey::Uid(uid), chart@);
            }
        }
        push_sample(
            &mut self.data,
            SeriesKey::Uid(uid),
            Sample { elapsed_sec, bytes: memcontext.bytes },
        );
        proof {
            assert(self@ =~= apply_context(old(self)@, elapsed_sec, memcontext@));
            assert(viewer_wf(self@));
            assert forall|i: int, j: int|
                0 <= i < j < chart_entries(self.chart@).len() implies (#[trigger] chart_entries(
                self.chart@,
            )[i]).0 != (#[trigger] chart_entries(self.chart@)[j]).0 by {
                if fresh && j == chart_entries(self.chart@).len() - 1 {
                    lemma_alist_contains(
                        chart_entries(old(self).chart@),
                        chart_entries(self.chart@)[j].0,
                    );
                }
            }
            assert forall|i: int, j: int|
                0 <= i < j < data_entries(self.data@).len() implies (#[trigger] data_entries(
                self.data@,
            )[i]).0 != (#[trigger] data_entries(self.data@)[j]).0 by {}
        }
    }

    /// Attach a list of completed context blocks, in order, at one elapsed
    /// time.
    pub fn add_memcontexts(&mut self, elapsed_sec: i64, memcontexts: &Vec<Memcontext>)
        requires
            old(self).inv(),
            old(self)@.info.uid_count + memcontexts@.len() <= u32::MAX,
        ensures
            final(self)@ == apply_contexts(old(self)@, elapsed_sec, memcontexts.deep_view()),
            final(self).inv(),
    {
        let ghost cs = memcontexts.deep_view();
        let n = memcontexts.len();
        let mut i: usize = 0;
        proof {
            assert(cs.skip(0) =~= cs);
        }
    while i < n
        invariant
            0 <= i <= n,
            n == memcontexts@.len(),
            cs == memcontexts.deep_view(),
            cs.len() == n,
            self.inv(),
            self@.info.uid_count + (n - i) <= u32::MAX,
            apply_contexts(self@, elapsed_sec, cs.skip(i as int)) == apply_contexts(
                old(self)@,
                elapsed_sec,
                cs,
            ),
        decreases n - i,
    {
            proof {
                lemma_apply_context_wf(self@, elapsed_sec, cs[i as int]);
                assert(cs.skip(i as int)[0] == cs[i as int]);
                assert(cs.skip(i as int).drop_first() =~= cs.skip(i + 1));
            }
            let c = &memcontexts[i];
            assert(c@ == cs[i as int]);
            self.add_memcontext(elapsed_sec, c);
            i = i + 1;
        }
        proof {
            assert(cs.skip(n as int) =~= Seq::<MemcontextV>::empty());
        }
    }
}

} // verus!
