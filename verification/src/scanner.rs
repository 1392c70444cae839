//! The scan itself: one pass over the lines of the log, driving the
//! document builder. Each call of `process_line` is one application of the
//! model's `step`; `scan` folds it over a whole file.
use vstd::prelude::*;

use crate::dates::TS_BOUND;
use crate::dates::parse_heap_date;
use crate::model::ErrV;
use crate::model::ScannerV;
use crate::model::add_inuse_spec;
use crate::model::init_scanner;
use crate::model::lemma_step_wf;
use crate::model::scan_from;
use crate::model::step;
use crate::text::capture_header;
use crate::text::lit_at_exec;
use crate::viewer::DataViewer;
use crate::viewer::Memcontext;
use crate::viewer::ParseError;

verus! {

/// State of the scan between two lines.
pub struct Scanner {
    pub viewer: DataViewer,
    pub current: Memcontext,
    pub pending: Vec<Memcontext>,
    pub in_block: bool,
    pub timestamp: i64,
    pub min_ts: i64,
}

impl View for Scanner {
    type V = ScannerV;

    open spec fn view(&self) -> ScannerV {
        ScannerV {
            viewer: self.viewer@,
            current: self.current@,
            pending: self.pending.deep_view(),
            in_block: self.in_block,
            timestamp: self.timestamp,
            min_ts: self.min_ts,
        }
    }
}

impl Scanner {
    /// Representation invariant: sound document, and timestamps inside the
    /// range a parsed date can yield.
    pub open spec fn inv(&self) -> bool {
        &&& self.viewer.inv()
        &&& -TS_BOUND < self.timestamp < TS_BOUND
        &&& -TS_BOUND < self.min_ts < TS_BOUND
    }

    /// The scan state before any line is read.
    pub fn new() -> (r: Scanner)
        ensures
            r@ == init_scanner(),
            r.inv(),
    {
        let r = Scanner {
            viewer: DataViewer::new(),
            current: Memcontext::empty(),
            pending: Vec::new(),
            in_block: false,
            timestamp: 0,
            min_ts: 0,
        };
        proof {
            assert(r@ =~= init_scanner());
        }
        r
    }

    /// Process one line of the log: one application of the model's `step`.
    pub fn process_line(&mut self, line: &str) -> (r: Result<(), ParseError>)
        requires
            old(self).inv(),
            old(self)@.viewer.info.uid_count + old(self)@.pending.len() <= u32::MAX,
        ensures
            match r {
                Ok(()) => {
                    &&& step(old(self)@, line@) == Ok::<_, ErrV>(final(self)@)
                    &&& final(self).inv()
                },
                Err(e) => step(old(self)@, line@) == Err::<ScannerV, _>(e@),
            },
    {
        match capture_header(line) {
            Some((a_opt, b_opt)) => {
                match (a_opt, b_opt) {
                    (Some(a), Some(b)) => {
                        self.current = Memcontext { allocs: a, bytes: b, callstack: String::new() };
                        self.in_block = true;
                        proof {
                            assert(self@ =~= step(old(self)@, line@)->Ok_0);
                        }
                        Ok(())
                    },
                    _ => Err(ParseError::ContextField),
                }
            },
            None => {
                if self.in_block {
                    self.current.callstack.append(line);
                    self.current.callstack.append("\n");
                    proof {
                        reveal_strlit("\n");
                        assert("\n"@ =~= seq!['\n']);
                    }
                    if line.is_empty() {
                        let mut done = Memcontext::empty();
                        core::mem::swap(&mut done, &mut self.current);
                        self.pending.push(done);
                        self.in_block = false;
                        proof {
                            assert(self@.pending =~= old(self)@.pending.push(
                                step(old(self)@, line@)->Ok_0.pending.last(),
                            ));
                            assert(self@ =~= step(old(self)@, line@)->Ok_0);
                        }
                    } else {
                        proof {
                            assert(self@ =~= step(old(self)@, line@)->Ok_0);
                        }
                    }
                    Ok(())
                } else {
                    let n = line.unicode_len();
                    if lit_at_exec(line, 0, "HEAP SUMMARY ") {
                        let la = "HEAP SUMMARY ".unicode_len();
                        let date = line.substring_char(la, n);
                        match parse_heap_date(date) {
                            None => {
                                return Err(ParseError::Date { text: date.to_owned() });
                            },
                            Some(t) => {
                                self.timestamp = t;
                                if self.min_ts == 0 {
                                    self.min_ts = t;
                                }
                            },
                        }
                    }
                    if lit_at_exec(line, 0, "    in use: ") {
                        let li = "    in use: ".unicode_len();
                        let rest = line.substring_char(li, n);
                        let elapsed = self.timestamp - self.min_ts;
                        let ghost mid = self@;
                        match self.viewer.add_inuse_summary(elapsed, rest) {
                            Err(e) => {
                                proof {
                                    assert(add_inuse_spec(mid.viewer, elapsed, rest@)
                                        == Err::<crate::model::DataViewerV, _>(e@));
                                }
                                return Err(e);
                            },
                            Ok(()) => {
                                self.viewer.add_memcontexts(elapsed, &self.pending);
                                self.pending.clear();
                                proof {
                                    assert(self@ =~= step(old(self)@, line@)->Ok_0);
                                }
                            },
                        }
                    } else {
                        proof {
                            assert(self@ =~= step(old(self)@, line@)->Ok_0);
                        }
                    }
                    Ok(())
                }
            },
        }
    }
}

/// Scan a whole log, one line at a time, and yield the finished document;
/// the first fatal error aborts the run. The result is the model's fold of
/// `step` over the lines, so a second run over the same lines yields the
/// same document.
pub fn scan(lines: &Vec<String>) -> (r: Result<DataViewer, ParseError>)
    requires
        lines@.len() < 0x1_0000_0000,
    ensures
        match r {
            Ok(v) => {
                &&& scan_from(init_scanner(), lines.deep_view()) matches Ok(m) && m.viewer == v@
                &&& v.inv()
            },
            Err(e) => scan_from(init_scanner(), lines.deep_view()) == Err::<ScannerV, _>(e@),
        },
{
    let mut scanner = Scanner::new();
    let ghost lv = lines.deep_view();
    let n = lines.len();
    let mut i: usize = 0;
    proof {
        assert(lv.skip(0) =~= lv);
    }
    while i < n
        invariant
            0 <= i <= n,
            n == lines@.len(),
            n < 0x1_0000_0000,
            lv == lines.deep_view(),
            lv.len() == n,
            scanner.inv(),
            scanner@.viewer.info.uid_count + scanner@.pending.len() <= i,
            scan_from(scanner@, lv.skip(i as int)) == scan_from(init_scanner(), lv),
        decreases n - i,
    {
        proof {
            assert(lv.skip(i as int)[0] == lv[i as int]);
            assert(lv.skip(i as int).drop_first() =~= lv.skip(i + 1));
            lemma_step_wf(scanner@, lv[i as int]);
        }
        let ghost pre = scanner@;
        let line = &lines[i];
        assert(line@ == lv[i as int]);
        match scanner.process_line(line.as_str()) {
            Ok(()) => {},
            Err(e) => {
                proof {
                    assert(scan_from(pre, lv.skip(i as int)) == Err::<ScannerV, ErrV>(e@));
                }
                return Err(e);
            },
        }
        i = i + 1;
    }
    proof {
        assert(lv.skip(n as int) =~= Seq::<Seq<char>>::empty());
    }
    Ok(scanner.viewer)
}

} // verus!
