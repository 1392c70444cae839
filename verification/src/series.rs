//! Series keys and samples. A series is either the aggregate heap total
//! (`InUse`) or the series of one distinct callstack (`Uid`). A sample keeps
//! the exact values the log yields: elapsed seconds and bytes; the charting
//! front end divides them into hours and kilobytes.
use vstd::prelude::*;

verus! {

/// Chart type of the document's global metadata.
#[derive(Debug, Clone, Copy, PartialEq, Eq, Default)]
pub enum Type {
    #[default]
    XY,
    Line,
}

/// Key of one time series of the document.
#[derive(Debug, Clone, Copy, PartialEq, Eq)]
pub enum SeriesKey {
    InUse,
    Uid(u32),
}

/// One (x, y) sample: elapsed seconds since the first snapshot, and the
/// byte count observed there.
#[derive(Debug, Clone, Copy, PartialEq, Eq)]
pub struct Sample {
    pub elapsed_sec: i64,
    pub bytes: u64,
}

/// Whether two series keys are the same key.
pub fn key_eq(a: &SeriesKey, b: &SeriesKey) -> (r: bool)
    ensures
        r == (a == b),
{
    match (a, b) {
        (SeriesKey::InUse, SeriesKey::InUse) => true,
        (SeriesKey::Uid(x), SeriesKey::Uid(y)) => *x == *y,
        _ => false,
    }
}

/// The flat alternating form of a series: x then y, in emission order.
pub open spec fn flat_of(s: Seq<Sample>) -> Seq<int>
    decreases s.len(),
{
    if s.len() == 0 {
        Seq::empty()
    } else {
        flat_of(s.drop_last()) + seq![s.last().elapsed_sec as int, s.last().bytes as int]
    }
}

/// The flat form holds two numbers for each sample.
pub proof fn lemma_flat_len(s: Seq<Sample>)
    ensures
        flat_of(s).len() == 2 * s.len(),
    decreases s.len(),
{
    if s.len() > 0 {
        lemma_flat_len(s.drop_last());
    }
}

/// The flat alternating form of a series, executable; every sample yields
/// its x then its y.
pub fn flatten(s: &Vec<Sample>) -> (r: Vec<i128>)
    ensures
        r@.len() == flat_of(s@).len(),
        forall|j: int| 0 <= j < r@.len() ==> r@[j] as int == #[trigger] flat_of(s@)[j],
{
    let mut r: Vec<i128> = Vec::new();
    let mut i: usize = 0;
    proof {
        assert(s@.subrange(0, 0) =~= Seq::<Sample>::empty());
    }
    while i < s.len()
        invariant
            0 <= i <= s@.len(),
            r@.len() == flat_of(s@.subrange(0, i as int)).len(),
            forall|j: int|
                0 <= j < r@.len() ==> r@[j] as int == #[trigger] flat_of(
                    s@.subrange(0, i as int),
                )[j],
        decreases s@.len() - i,
    {
        let smp = s[i];
        r.push(smp.elapsed_sec as i128);
        r.push(smp.bytes as i128);
        proof {
            let pre = s@.subrange(0, i as int);
            let post = s@.subrange(0, i + 1);
            assert(post.drop_last() =~= pre);
            assert(post.last() == s@[i as int]);
            lemma_flat_len(pre);
        }
        i = i + 1;
    }
    proof {
        assert(s@.subrange(0, s@.len() as int) =~= s@);
    }
    r
}

} // verus!
