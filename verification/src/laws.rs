//! Properties of the scan as a whole, stated over the model: the length of
//! the aggregate series, the stability of uid assignment, and the zero
//! baseline of the first snapshot.
use vstd::prelude::*;

use crate::model::DataViewerV;
use crate::model::MemcontextV;
use crate::model::ScannerV;
use crate::model::apply_context;
use crate::model::apply_contexts;
use crate::model::assigned_uid;
use crate::model::count_inuse_from;
use crate::model::heap_step;
use crate::model::init_scanner;
use crate::model::is_inuse_event;
use crate::model::lemma_reg_lookup_push;
use crate::model::reg_lookup;
use crate::model::scan_from;
use crate::model::series_of;
use crate::model::step;
use crate::model::viewer_wf;
use crate::series::Sample;
use crate::series::SeriesKey;
use crate::series::flat_of;
use crate::series::lemma_flat_len;
use crate::text::lit_at;

verus! {

/// Attaching context blocks never touches the aggregate series.
proof fn lemma_apply_contexts_inuse(v: DataViewerV, x: i64, cs: Seq<MemcontextV>)
    ensures
        series_of(apply_contexts(v, x, cs).data, SeriesKey::InUse) == series_of(
            v.data,
            SeriesKey::InUse,
        ),
    decreases cs.len(),
{
    if cs.len() > 0 {
        lemma_apply_contexts_inuse(apply_context(v, x, cs[0]), x, cs.drop_first());
    }
}

/// One step appends one aggregate sample on an in-use-summary line and
/// none on any other line.
proof fn lemma_step_inuse_len(m: ScannerV, line: Seq<char>)
    requires
        step(m, line) is Ok,
    ensures
        series_of(step(m, line)->Ok_0.viewer.data, SeriesKey::InUse).len() == series_of(
            m.viewer.data,
            SeriesKey::InUse,
        ).len() + (if is_inuse_event(m, line) {
            1int
        } else {
            0int
        }),
{
    let m2 = step(m, line)->Ok_0;
    if crate::text::find_header(line) is None && !m.in_block {
        let m1 = heap_step(m, line)->Ok_0;
        if lit_at(line, 0, "    in use: "@) {
            let rest = line.subrange("    in use: "@.len() as int, line.len() as int);
            let x = (m1.timestamp - m1.min_ts) as i64;
            match crate::model::add_inuse_spec(m1.viewer, x, rest) {
                Ok(v1) => {
                    lemma_apply_contexts_inuse(v1, x, m1.pending);
                },
                Err(e) => {},
            }
        }
    }
}

proof fn lemma_inuse_len_from(m: ScannerV, lines: Seq<Seq<char>>)
    requires
        scan_from(m, lines) is Ok,
    ensures
        series_of(scan_from(m, lines)->Ok_0.viewer.data, SeriesKey::InUse).len() == series_of(
            m.viewer.data,
            SeriesKey::InUse,
        ).len() + count_inuse_from(m, lines),
    decreases lines.len(),
{
    if lines.len() > 0 {
        let m2 = step(m, lines[0])->Ok_0;
        lemma_step_inuse_len(m, lines[0]);
        lemma_inuse_len_from(m2, lines.drop_first());
    }
}

/// On every log the scan completes, the flat aggregate series holds
/// exactly two numbers for each in-use-summary line the scan met.
pub proof fn lemma_inuse_series_length(lines: Seq<Seq<char>>)
    requires
        scan_from(init_scanner(), lines) is Ok,
    ensures
        flat_of(
            series_of(scan_from(init_scanner(), lines)->Ok_0.viewer.data, SeriesKey::InUse),
        ).len() == 2 * count_inuse_from(init_scanner(), lines),
{
    lemma_inuse_len_from(init_scanner(), lines);
    lemma_flat_len(series_of(scan_from(init_scanner(), lines)->Ok_0.viewer.data, SeriesKey::InUse));
}

/// Two context blocks with byte-identical callstack text resolve to the
/// same uid, and that uid's series accumulates a sample from each, in
/// order.
pub proof fn lemma_same_callstack_same_uid(
    v: DataViewerV,
    x1: i64,
    x2: i64,
    c1: MemcontextV,
    c2: MemcontextV,
)
    requires
        viewer_wf(v),
        c1.callstack == c2.callstack,
    ensures
        ({
            let uid = assigned_uid(v.info, c1.callstack);
            let v1 = apply_context(v, x1, c1);
            let v2 = apply_context(v1, x2, c2);
            &&& assigned_uid(v1.info, c2.callstack) == uid
            &&& series_of(v2.data, SeriesKey::Uid(uid)) == series_of(
                v.data,
                SeriesKey::Uid(uid),
            ).push(Sample { elapsed_sec: x1, bytes: c1.bytes }).push(
                Sample { elapsed_sec: x2, bytes: c2.bytes },
            )
        }),
{
    let k = c1.callstack;
    let uid = assigned_uid(v.info, k);
    let v1 = apply_context(v, x1, c1);
    match reg_lookup(v.info.uids, k) {
        Some(u) => {},
        None => {
            lemma_reg_lookup_push(v.info.uids, k, (k, uid));
        },
    }
    assert(reg_lookup(v1.info.uids, k) == Some(uid));
}

/// Processing the first snapshot line sets the baseline: afterwards the
/// current timestamp and the baseline agree, so the elapsed time of an
/// in-use summary that follows at once is zero.
pub proof fn lemma_first_snapshot_baseline(m: ScannerV, line: Seq<char>)
    requires
        m.min_ts == 0,
        crate::text::find_header(line) is None,
        !m.in_block,
        lit_at(line, 0, "HEAP SUMMARY "@),
        step(m, line) is Ok,
    ensures
        step(m, line)->Ok_0.timestamp == step(m, line)->Ok_0.min_ts,
{
}

/// An in-use summary taken while the current timestamp still equals the
/// baseline records elapsed time zero.
pub proof fn lemma_zero_elapsed(m: ScannerV, line: Seq<char>)
    requires
        m.timestamp == m.min_ts,
        is_inuse_event(m, line),
        step(m, line) is Ok,
    ensures
        ({
            let s = series_of(step(m, line)->Ok_0.viewer.data, SeriesKey::InUse);
            s.len() > 0 && s.last().elapsed_sec == 0
        }),
{
    if lit_at(line, 0, "HEAP SUMMARY "@) {
        reveal_strlit("HEAP SUMMARY ");
        reveal_strlit("    in use: ");
        assert(line.subrange(0, "HEAP SUMMARY "@.len() as int)[0] == line[0]);
        assert(line.subrange(0, "    in use: "@.len() as int)[0] == line[0]);
        assert(false);
    }
    let m1 = heap_step(m, line)->Ok_0;
    assert(m1 == m);
    let rest = line.subrange("    in use: "@.len() as int, line.len() as int);
    let x = (m.timestamp - m.min_ts) as i64;
    assert(x == 0);
    match crate::model::add_inuse_spec(m.viewer, x, rest) {
        Ok(v1) => {
            lemma_apply_contexts_inuse(v1, x, m.pending);
        },
        Err(e) => {},
    }
}

} // verus!
