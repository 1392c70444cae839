//! Mathematical model of the scan. The exec types of `viewer` and `scanner`
//! each have a view into the structures below, and every step of the scan is
//! specified as a function from model to model, so the whole run is a fold of
//! `step` over the lines of the log.
use vstd::prelude::*;

use crate::dates::date_timestamp;
use crate::series::Sample;
use crate::series::SeriesKey;
use crate::series::Type;
use crate::text::bytes_field_val;
use crate::text::dec_str;
use crate::text::find_bytes_field;
use crate::text::find_header;
use crate::text::header_allocs;
use crate::text::header_bytes;
use crate::text::lit_at;

verus! {

/// Model of one chart's metadata.
#[verifier::ext_equal]
pub struct ChartV {
    pub title: Option<Seq<char>>,
    pub description: Option<Seq<char>>,
}

/// Model of the document's global metadata.
#[verifier::ext_equal]
pub struct DataViewV {
    pub chart_type: Type,
    pub title: Option<Seq<char>>,
    pub x_title: Option<Seq<char>>,
    pub y_title: Option<Seq<char>>,
    pub x_unit: Option<Seq<char>>,
    pub y_unit: Option<Seq<char>>,
    pub description: Option<Seq<char>>,
}

/// Model of the identity registry: entries in first-seen order; the entry at
/// index `i` holds uid `i + 1`.
#[verifier::ext_equal]
pub struct InfoV {
    pub uid_count: int,
    pub uids: Seq<(Seq<char>, u32)>,
}

/// Model of one memory-context block.
#[verifier::ext_equal]
pub struct MemcontextV {
    pub allocs: u64,
    pub bytes: u64,
    pub callstack: Seq<char>,
}

/// Model of the whole document under construction.
#[verifier::ext_equal]
pub struct DataViewerV {
    pub dataview: DataViewV,
    pub chart: Map<SeriesKey, ChartV>,
    pub data: Map<SeriesKey, Seq<Sample>>,
    pub info: InfoV,
}

/// Model of the scan state.
#[verifier::ext_equal]
pub struct ScannerV {
    pub viewer: DataViewerV,
    pub current: MemcontextV,
    pub pending: Seq<MemcontextV>,
    pub in_block: bool,
    pub timestamp: i64,
    pub min_ts: i64,
}

/// Model of a fatal scan error.
pub enum ErrV {
    Date { text: Seq<char> },
    InUseField,
    ContextField,
}

/// First entry of the registry whose callstack is `k`, if any.
pub open spec fn reg_lookup(r: Seq<(Seq<char>, u32)>, k: Seq<char>) -> Option<u32>
    decreases r.len(),
{
    if r.len() == 0 {
        None
    } else if r[0].0 == k {
        Some(r[0].1)
    } else {
        reg_lookup(r.drop_first(), k)
    }
}

/// The uid under which a callstack is, or will next be, registered.
pub open spec fn assigned_uid(info: InfoV, k: Seq<char>) -> u32 {
    match reg_lookup(info.uids, k) {
        Some(u) => u,
        None => (info.uid_count + 1) as u32,
    }
}

/// The samples a series holds so far: empty until the first append.
pub open spec fn series_of(data: Map<SeriesKey, Seq<Sample>>, k: SeriesKey) -> Seq<Sample> {
    if data.contains_key(k) {
        data[k]
    } else {
        Seq::empty()
    }
}

/// Append one sample to a series, creating the series on first use.
pub open spec fn series_app(
    data: Map<SeriesKey, Seq<Sample>>,
    k: SeriesKey,
    s: Sample,
) -> Map<SeriesKey, Seq<Sample>> {
    data.insert(k, series_of(data, k).push(s))
}

/// Title of the chart created for a fresh uid.
pub open spec fn uid_title(uid: u32) -> Seq<char> {
    "Memory Context with UID:"@ + dec_str(uid as int)
}

/// A context block with no allocations and empty callstack text.
pub open spec fn empty_ctx() -> MemcontextV {
    MemcontextV { allocs: 0, bytes: 0, callstack: Seq::empty() }
}

/// Append the aggregate in-use sample.
pub open spec fn apply_inuse(v: DataViewerV, elapsed_sec: i64, bytes: u64) -> DataViewerV {
    DataViewerV {
        data: series_app(v.data, SeriesKey::InUse, Sample { elapsed_sec, bytes }),
        ..v
    }
}

/// Attach one completed context block: look its callstack up in the
/// registry, registering it (and creating its chart) when it is new, then
/// append a sample to the uid's series.
pub open spec fn apply_context(v: DataViewerV, elapsed_sec: i64, c: MemcontextV) -> DataViewerV {
    let uid = assigned_uid(v.info, c.callstack);
    let v1 = if reg_lookup(v.info.uids, c.callstack) is Some {
        v
    } else {
        DataViewerV {
            chart: v.chart.insert(
                SeriesKey::Uid(uid),
                ChartV { title: Some(uid_title(uid)), description: Some(c.callstack) },
            ),
            info: InfoV { uid_count: v.info.uid_count + 1, uids: v.info.uids.push((c.callstack, uid)) },
            ..v
        }
    };
    DataViewerV {
        data: series_app(v1.data, SeriesKey::Uid(uid), Sample { elapsed_sec, bytes: c.bytes }),
        ..v1
    }
}

/// Attach every pending context block, in file order.
pub open spec fn apply_contexts(v: DataViewerV, elapsed_sec: i64, cs: Seq<MemcontextV>) -> DataViewerV
    decreases cs.len(),
{
    if cs.len() == 0 {
        v
    } else {
        apply_contexts(apply_context(v, elapsed_sec, cs[0]), elapsed_sec, cs.drop_first())
    }
}

/// The document as it stands before any line is read: fixed global
/// metadata, the chart of the aggregate series, no data, empty registry.
pub open spec fn init_viewer() -> DataViewerV {
    DataViewerV {
        dataview: DataViewV {
            chart_type: Type::XY,
            title: Some("History of memory usage with Memtrace"@),
            x_title: Some("Elapsed Time"@),
            y_title: Some("Memory in use"@),
            x_unit: Some("Hour"@),
            y_unit: Some("KBytes"@),
            description: None,
        },
        chart: Map::empty().insert(
            SeriesKey::InUse,
            ChartV { title: Some("Total HEAP Memory in use"@), description: None },
        ),
        data: Map::empty(),
        info: InfoV { uid_count: 0, uids: Seq::empty() },
    }
}

/// The scan state before any line is read.
pub open spec fn init_scanner() -> ScannerV {
    ScannerV {
        viewer: init_viewer(),
        current: empty_ctx(),
        pending: Seq::empty(),
        in_block: false,
        timestamp: 0,
        min_ts: 0,
    }
}

/// Effect of a snapshot-timestamp line; any other line passes through.
pub open spec fn heap_step(m: ScannerV, line: Seq<char>) -> Result<ScannerV, ErrV> {
    if lit_at(line, 0, "HEAP SUMMARY "@) {
        let date = line.subrange("HEAP SUMMARY "@.len() as int, line.len() as int);
        match date_timestamp(date) {
            None => Err(ErrV::Date { text: date }),
            Some(t) => Ok(
                ScannerV {
                    timestamp: t,
                    min_ts: if m.min_ts == 0 {
                        t
                    } else {
                        m.min_ts
                    },
                    ..m
                },
            ),
        }
    } else {
        Ok(m)
    }
}

/// Effect of an in-use-summary line; any other line passes through. The
/// line's byte count becomes a sample of the aggregate series, and every
/// pending context block is attached at the same elapsed time.
pub open spec fn inuse_step(m: ScannerV, line: Seq<char>) -> Result<ScannerV, ErrV> {
    if lit_at(line, 0, "    in use: "@) {
        let rest = line.subrange("    in use: "@.len() as int, line.len() as int);
        let x = (m.timestamp - m.min_ts) as i64;
        match add_inuse_spec(m.viewer, x, rest) {
            Err(e) => Err(e),
            Ok(v1) => Ok(
                ScannerV { viewer: apply_contexts(v1, x, m.pending), pending: Seq::empty(), ..m },
            ),
        }
    } else {
        Ok(m)
    }
}

/// Effect of the in-use remainder on the document alone: its byte count,
/// when present and representable, becomes a sample of the aggregate series.
pub open spec fn add_inuse_spec(v: DataViewerV, elapsed_sec: i64, rest: Seq<char>) -> Result<
    DataViewerV,
    ErrV,
> {
    match find_bytes_field(rest) {
        None => Err(ErrV::InUseField),
        Some(i) => {
            let b = bytes_field_val(rest, i);
            if b <= u64::MAX {
                Ok(apply_inuse(v, elapsed_sec, b as u64))
            } else {
                Err(ErrV::InUseField)
            }
        },
    }
}

/// Effect of one line on the scan state. A context-header match wins over
/// every other category; while a block is open every line is part of it,
/// and an empty line completes it; otherwise the line may carry a snapshot
/// timestamp or an in-use summary, and is ignored when it carries neither.
pub open spec fn step(m: ScannerV, line: Seq<char>) -> Result<ScannerV, ErrV> {
    match find_header(line) {
        Some(i) => {
            let a = header_allocs(line, i);
            let b = header_bytes(line, i);
            if a <= u64::MAX && b <= u64::MAX {
                Ok(
                    ScannerV {
                        current: MemcontextV {
                            allocs: a as u64,
                            bytes: b as u64,
                            callstack: Seq::empty(),
                        },
                        in_block: true,
                        ..m
                    },
                )
            } else {
                Err(ErrV::ContextField)
            }
        },
        None => {
            if m.in_block {
                let stack2 = m.current.callstack + line + seq!['\n'];
                if line.len() == 0 {
                    Ok(
                        ScannerV {
                            pending: m.pending.push(
                                MemcontextV {
                                    allocs: m.current.allocs,
                                    bytes: m.current.bytes,
                                    callstack: stack2,
                                },
                            ),
                            current: empty_ctx(),
                            in_block: false,
                            ..m
                        },
                    )
                } else {
                    Ok(
                        ScannerV {
                            current: MemcontextV {
                                allocs: m.current.allocs,
                                bytes: m.current.bytes,
                                callstack: stack2,
                            },
                            ..m
                        },
                    )
                }
            } else {
                match heap_step(m, line) {
                    Err(e) => Err(e),
                    Ok(m1) => inuse_step(m1, line),
                }
            }
        },
    }
}

/// The whole scan: fold `step` over the lines, stopping at the first error.
pub open spec fn scan_from(m: ScannerV, lines: Seq<Seq<char>>) -> Result<ScannerV, ErrV>
    decreases lines.len(),
{
    if lines.len() == 0 {
        Ok(m)
    } else {
        match step(m, lines[0]) {
            Err(e) => Err(e),
            Ok(m2) => scan_from(m2, lines.drop_first()),
        }
    }
}

/// The line is classified, in state `m`, as an in-use summary.
pub open spec fn is_inuse_event(m: ScannerV, line: Seq<char>) -> bool {
    &&& find_header(line) is None
    &&& !m.in_block
    &&& lit_at(line, 0, "    in use: "@)
}

/// Number of in-use-summary lines the scan meets along a successful run.
pub open spec fn count_inuse_from(m: ScannerV, lines: Seq<Seq<char>>) -> int
    decreases lines.len(),
{
    if lines.len() == 0 {
        0
    } else {
        match step(m, lines[0]) {
            Err(e) => 0,
            Ok(m2) => (if is_inuse_event(m, lines[0]) {
                1int
            } else {
                0int
            }) + count_inuse_from(m2, lines.drop_first()),
        }
    }
}

/// Well-formedness of the registry: uids are 1, 2, ... in first-seen order
/// and no callstack is registered twice.
pub open spec fn reg_wf(r: Seq<(Seq<char>, u32)>) -> bool {
    &&& forall|i: int| 0 <= i < r.len() ==> (#[trigger] r[i]).1 == i + 1
    &&& forall|i: int, j: int| 0 <= i < j < r.len() ==> r[i].0 != r[j].0
}

/// Well-formedness of the document: sound registry, and every uid-keyed
/// series or chart belongs to a registered uid.
pub open spec fn viewer_wf(v: DataViewerV) -> bool {
    &&& reg_wf(v.info.uids)
    &&& v.info.uid_count == v.info.uids.len()
    &&& forall|u: u32| #[trigger] v.data.contains_key(SeriesKey::Uid(u)) ==> 1 <= u <= v.info.uid_count
    &&& forall|u: u32| #[trigger] v.chart.contains_key(SeriesKey::Uid(u)) ==> 1 <= u <= v.info.uid_count
}

/// Well-formedness of the scan state.
pub open spec fn scanner_wf(m: ScannerV) -> bool {
    viewer_wf(m.viewer)
}

/// A successful lookup returns the uid of a registered entry.
pub proof fn lemma_reg_lookup_member(r: Seq<(Seq<char>, u32)>, k: Seq<char>)
    ensures
        match reg_lookup(r, k) {
            Some(u) => exists|i: int| 0 <= i < r.len() && r[i] == (k, u),
            None => forall|i: int| 0 <= i < r.len() ==> (#[trigger] r[i]).0 != k,
        },
    decreases r.len(),
{
    if r.len() > 0 {
        lemma_reg_lookup_member(r.drop_first(), k);
        if r[0].0 == k {
            assert(r[0] == (k, r[0].1));
        } else {
            match reg_lookup(r.drop_first(), k) {
                Some(u) => {
                    let i = choose|i: int|
                        0 <= i < r.drop_first().len() && r.drop_first()[i] == (k, u);
                    assert(r[i + 1] == (k, u));
                },
                None => {
                    assert forall|i: int| 0 <= i < r.len() implies (#[trigger] r[i]).0 != k by {
                        if i > 0 {
                            assert(r.drop_first()[i - 1] == r[i]);
                        }
                    }
                },
            }
        }
    }
}

/// Looking up after registering one more entry: an already registered
/// callstack keeps its uid, the new entry answers for its own callstack.
pub proof fn lemma_reg_lookup_push(r: Seq<(Seq<char>, u32)>, k: Seq<char>, p: (Seq<char>, u32))
    ensures
        reg_lookup(r.push(p), k) == (match reg_lookup(r, k) {
            Some(u) => Some(u),
            None => if p.0 == k {
                Some(p.1)
            } else {
                None
            },
        }),
    decreases r.len(),
{
    if r.len() == 0 {
        assert(r.push(p)[0] == p);
        assert(r.push(p).drop_first() =~= Seq::<(Seq<char>, u32)>::empty());
    } else {
        assert(r.push(p).drop_first() =~= r.drop_first().push(p));
        lemma_reg_lookup_push(r.drop_first(), k, p);
    }
}

/// Attaching one context preserves well-formedness and grows the registry
/// by at most one entry.
pub proof fn lemma_apply_context_wf(v: DataViewerV, x: i64, c: MemcontextV)
    requires
        viewer_wf(v),
        v.info.uid_count < u32::MAX,
    ensures
        viewer_wf(apply_context(v, x, c)),
        v.info.uid_count <= apply_context(v, x, c).info.uid_count <= v.info.uid_count + 1,
        1 <= assigned_uid(v.info, c.callstack) <= apply_context(v, x, c).info.uid_count,
{
    lemma_reg_lookup_member(v.info.uids, c.callstack);
    let uid = assigned_uid(v.info, c.callstack);
    match reg_lookup(v.info.uids, c.callstack) {
        Some(u) => {
            let i = choose|i: int|
                0 <= i < v.info.uids.len() && v.info.uids[i] == (c.callstack, u);
            assert(v.info.uids[i].1 == i + 1);
        },
        None => {
            let r2 = v.info.uids.push((c.callstack, uid));
            assert forall|i: int| 0 <= i < r2.len() implies (#[trigger] r2[i]).1 == i + 1 by {}
            assert forall|i: int, j: int| 0 <= i < j < r2.len() implies r2[i].0 != r2[j].0 by {}
        },
    }
}

/// Attaching a list of contexts preserves well-formedness; the registry
/// grows by at most one entry per context.
pub proof fn lemma_apply_contexts_wf(v: DataViewerV, x: i64, cs: Seq<MemcontextV>)
    requires
        viewer_wf(v),
        v.info.uid_count + cs.len() <= u32::MAX,
    ensures
        viewer_wf(apply_contexts(v, x, cs)),
        v.info.uid_count <= apply_contexts(v, x, cs).info.uid_count <= v.info.uid_count + cs.len(),
    decreases cs.len(),
{
    if cs.len() > 0 {
        lemma_apply_context_wf(v, x, cs[0]);
        lemma_apply_contexts_wf(apply_context(v, x, cs[0]), x, cs.drop_first());
    }
}

/// One step preserves well-formedness; the registry and the pending list
/// together grow by at most one per line.
pub proof fn lemma_step_wf(m: ScannerV, line: Seq<char>)
    requires
        scanner_wf(m),
        m.viewer.info.uid_count + m.pending.len() < u32::MAX,
    ensures
        step(m, line) matches Ok(m2) ==> {
            &&& scanner_wf(m2)
            &&& m2.viewer.info.uid_count + m2.pending.len() <= m.viewer.info.uid_count
                + m.pending.len() + 1
        },
{
    if step(m, line) is Ok {
        let m2 = step(m, line)->Ok_0;
        if find_header(line) is Some {
        } else if m.in_block {
        } else {
            match heap_step(m, line) {
                Err(e) => {},
                Ok(m1) => {
                    if lit_at(line, 0, "    in use: "@) {
                        let rest = line.subrange(
                            "    in use: "@.len() as int,
                            line.len() as int,
                        );
                        let x = (m1.timestamp - m1.min_ts) as i64;
                        match add_inuse_spec(m1.viewer, x, rest) {
                            Ok(v1) => {
                                assert(viewer_wf(v1));
                                lemma_apply_contexts_wf(v1, x, m1.pending);
                            },
                            Err(e) => {},
                        }
                    }
                },
            }
        }
    }
}

} // verus!
