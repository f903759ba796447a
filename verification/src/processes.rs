//! Process inventory: builds a snapshot of the process table from the raw
//! per-entry data the caller scanned out of the process-listing root, and
//! computes the additions between one snapshot and the next.
//!
//! A record is kept for every purely numeric entry whose command-line file
//! could be read; an unreadable executable link yields a record with an
//! empty executable field rather than aborting the scan.  Records compare
//! by all of their fields and the snapshot is a set: duplicates are kept
//! only once, first occurrence first.

use vstd::prelude::*;
use vstd::string::*;

use crate::text::{all_digits, command_of, command_token, is_numeric_name};

verus! {

/// One process record: the entry name (process id), the target of the
/// executable link (empty when unreadable), the command (first token of
/// the command line) and the raw command line itself.
#[derive(Debug)]
pub struct Process {
    pub pid: String,
    pub exe: String,
    pub cmd: String,
    pub cmdline: String,
}

/// The mathematical value of a process record.
#[verifier::ext_equal]
pub struct ProcessView {
    pub pid: Seq<char>,
    pub exe: Seq<char>,
    pub cmd: Seq<char>,
    pub cmdline: Seq<char>,
}

impl View for Process {
    type V = ProcessView;

    open spec fn view(&self) -> ProcessView {
        ProcessView {
            pid: self.pid@,
            exe: self.exe@,
            cmd: self.cmd@,
            cmdline: self.cmdline@,
        }
    }
}

impl PartialEq for Process {
    fn eq(&self, other: &Self) -> (r: bool) {
        self.pid.eq(&other.pid) && self.exe.eq(&other.exe) && self.cmd.eq(&other.cmd)
            && self.cmdline.eq(&other.cmdline)
    }
}

impl vstd::std_specs::cmp::PartialEqSpecImpl for Process {
    open spec fn obeys_eq_spec() -> bool {
        true
    }

    open spec fn eq_spec(&self, other: &Self) -> bool {
        self@ == other@
    }
}

impl Eq for Process {

}

impl Clone for Process {
    fn clone(&self) -> (r: Self)
        ensures
            r@ == self@,
    {
        Process {
            pid: self.pid.clone(),
            exe: self.exe.clone(),
            cmd: self.cmd.clone(),
            cmdline: self.cmdline.clone(),
        }
    }
}

/// One scanned entry of the process-listing root, as the caller read it:
/// the entry's name, the content of its command-line file (absent when the
/// read failed — the entry is then skipped) and the target of its
/// executable link (absent when unresolvable — the record then carries an
/// empty executable).
pub struct ProcSample {
    pub name: String,
    pub cmdline: Option<String>,
    pub exe: Option<String>,
}

/// The mathematical value of a scanned entry.
pub struct ProcSampleView {
    pub name: Seq<char>,
    pub cmdline: Option<Seq<char>>,
    pub exe: Option<Seq<char>>,
}

impl View for ProcSample {
    type V = ProcSampleView;

    open spec fn view(&self) -> ProcSampleView {
        ProcSampleView {
            name: self.name@,
            cmdline: match self.cmdline {
                Some(c) => Some(c@),
                None => None,
            },
            exe: match self.exe {
                Some(e) => Some(e@),
                None => None,
            },
        }
    }
}

/// A scanned entry yields a record: its name is purely numeric and its
/// command-line file was read.
pub open spec fn sample_kept(s: ProcSampleView) -> bool {
    all_digits(s.name) && s.cmdline is Some
}

/// The record a kept entry yields.
pub open spec fn record_of(s: ProcSampleView) -> ProcessView {
    ProcessView {
        pid: s.name,
        exe: match s.exe {
            Some(e) => e,
            None => Seq::empty(),
        },
        cmd: match s.cmdline {
            Some(c) => command_of(c),
            None => Seq::empty(),
        },
        cmdline: match s.cmdline {
            Some(c) => c,
            None => Seq::empty(),
        },
    }
}

/// The records of the kept entries, in scan order, duplicates included.
pub open spec fn raw_records(samples: Seq<ProcSampleView>) -> Seq<ProcessView>
    decreases samples.len(),
{
    if samples.len() == 0 {
        Seq::empty()
    } else {
        raw_records(samples.drop_last()) + (if sample_kept(samples.last()) {
            seq![record_of(samples.last())]
        } else {
            Seq::empty()
        })
    }
}

/// Keeps the first occurrence of every record, dropping later duplicates.
pub open spec fn dedup(s: Seq<ProcessView>) -> Seq<ProcessView>
    decreases s.len(),
{
    if s.len() == 0 {
        Seq::empty()
    } else if s.drop_last().contains(s.last()) {
        dedup(s.drop_last())
    } else {
        dedup(s.drop_last()).push(s.last())
    }
}

/// No record occurs twice.
pub open spec fn no_dups(s: Seq<ProcessView>) -> bool {
    forall|i: int, j: int| 0 <= i < j < s.len() ==> s[i] != s[j]
}

/// What a scan of the process-listing root yields: one record per kept
/// entry, in scan order, each distinct record once.
pub open spec fn snapshot_spec(samples: Seq<ProcSampleView>) -> Seq<ProcessView> {
    dedup(raw_records(samples))
}

/// Deduplication keeps exactly the records that were there.
pub proof fn lemma_dedup_membership(s: Seq<ProcessView>)
    ensures
        forall|x: ProcessView| s.contains(x) <==> dedup(s).contains(x),
    decreases s.len(),
{
    if s.len() > 0 {
        lemma_dedup_membership(s.drop_last());
        assert forall|x: ProcessView| s.contains(x) implies dedup(s).contains(x) by {
            if x == s.last() {
                if s.drop_last().contains(x) {
                    assert(dedup(s.drop_last()).contains(x));
                } else {
                    assert(dedup(s)[dedup(s).len() - 1] == x);
                }
            } else {
                let i = choose|i: int| 0 <= i < s.len() && s[i] == x;
                assert(s.drop_last()[i] == x);
                assert(s.drop_last().contains(x));
                if !s.drop_last().contains(s.last()) {
                    let j = choose|j: int|
                        0 <= j < dedup(s.drop_last()).len() && dedup(s.drop_last())[j] == x;
                    assert(dedup(s)[j] == x);
                }
            }
        }
        assert forall|x: ProcessView| dedup(s).contains(x) implies s.contains(x) by {
            if s.drop_last().contains(s.last()) {
                assert(s.drop_last().contains(x));
                let i = choose|i: int| 0 <= i < s.drop_last().len() && s.drop_last()[i] == x;
                assert(s[i] == x);
            } else {
                let j = choose|j: int| 0 <= j < dedup(s).len() && dedup(s)[j] == x;
                if j < dedup(s).len() - 1 {
                    assert(dedup(s.drop_last())[j] == x);
                    assert(s.drop_last().contains(x));
                    let i = choose|i: int| 0 <= i < s.drop_last().len() && s.drop_last()[i] == x;
                    assert(s[i] == x);
                } else {
                    assert(x == s.last());
                    assert(s[s.len() - 1] == x);
                }
            }
        }
    }
}

/// Deduplication leaves no duplicate behind.
pub proof fn lemma_dedup_no_dups(s: Seq<ProcessView>)
    ensures
        no_dups(dedup(s)),
    decreases s.len(),
{
    if s.len() > 0 {
        lemma_dedup_no_dups(s.drop_last());
        lemma_dedup_membership(s.drop_last());
        if !s.drop_last().contains(s.last()) {
            let d = dedup(s.drop_last());
            assert forall|i: int, j: int| 0 <= i < j < dedup(s).len() implies dedup(s)[i] != dedup(
                s,
            )[j] by {
                if j < d.len() {
                    assert(d[i] != d[j]);
                } else {
                    assert(dedup(s)[j] == s.last());
                    assert(dedup(s)[i] == d[i]);
                    if d[i] == s.last() {
                        assert(d.contains(s.last()));
                    }
                }
            }
        }
    }
}

/// A snapshot holds each record once.
pub proof fn lemma_snapshot_no_dups(samples: Seq<ProcSampleView>)
    ensures
        no_dups(snapshot_spec(samples)),
{
    lemma_dedup_no_dups(raw_records(samples));
}

/// The records of the current scan that the previous snapshot does not
/// hold, in scan order.
pub open spec fn new_records(cur: Seq<ProcessView>, prev: Seq<ProcessView>) -> Seq<ProcessView>
    decreases cur.len(),
{
    if cur.len() == 0 {
        Seq::empty()
    } else {
        new_records(cur.drop_last(), prev) + (if prev.contains(cur.last()) {
            Seq::empty()
        } else {
            seq![cur.last()]
        })
    }
}

/// Two consecutive identical process scans yield an empty set of new
/// processes: a scan whose records the previous snapshot already holds
/// contributes nothing.
pub proof fn lemma_identical_scan_no_new(cur: Seq<ProcessView>, prev: Seq<ProcessView>)
    requires
        forall|x: ProcessView| cur.contains(x) ==> prev.contains(x),
    ensures
        new_records(cur, prev).len() == 0,
    decreases cur.len(),
{
    if cur.len() > 0 {
        assert(cur.contains(cur.last()));
        assert forall|x: ProcessView| cur.drop_last().contains(x) implies prev.contains(x) by {
            let i = choose|i: int| 0 <= i < cur.drop_last().len() && cur.drop_last()[i] == x;
            assert(cur[i] == x);
            assert(cur.contains(x));
        }
        lemma_identical_scan_no_new(cur.drop_last(), prev);
    }
}

/// A scan that adds exactly one record `p` to what the previous snapshot
/// holds yields exactly `p` as the one new process.
pub proof fn lemma_one_new_process(cur: Seq<ProcessView>, prev: Seq<ProcessView>, p: ProcessView)
    requires
        no_dups(cur),
        !prev.contains(p),
        cur.contains(p),
        forall|x: ProcessView| cur.contains(x) ==> x == p || prev.contains(x),
    ensures
        new_records(cur, prev) == seq![p],
    decreases cur.len(),
{
    assert(cur.len() > 0);
    let head = cur.drop_last();
    assert forall|x: ProcessView| head.contains(x) implies cur.contains(x) by {
        let i = choose|i: int| 0 <= i < head.len() && head[i] == x;
        assert(cur[i] == x);
    }
    if cur.last() == p {
        assert forall|x: ProcessView| head.contains(x) implies prev.contains(x) by {
            let i = choose|i: int| 0 <= i < head.len() && head[i] == x;
            assert(cur[i] == x);
            assert(x != p);
        }
        lemma_identical_scan_no_new(head, prev);
        assert(new_records(cur, prev) =~= seq![p]);
    } else {
        assert(prev.contains(cur.last()));
        let i = choose|i: int| 0 <= i < cur.len() && cur[i] == p;
        assert(i < cur.len() - 1);
        assert(head[i] == p);
        assert(head.contains(p));
        lemma_one_new_process(head, prev, p);
        assert(new_records(cur, prev) =~= seq![p]);
    }
}

/// Whether a snapshot holds a record equal to `p`.
pub fn snapshot_contains(v: &Vec<Process>, p: &Process) -> (r: bool)
    ensures
        r == v@.map_values(|q: Process| q@).contains(p@),
{
    let ghost vview = v@.map_values(|q: Process| q@);
    let n = v.len();
    let mut i: usize = 0;
    while i < n
        invariant
            n == v@.len(),
            i <= n,
            vview == v@.map_values(|q: Process| q@),
            forall|j: int| 0 <= j < i ==> vview[j] != p@,
        decreases n - i,
    {
        if v[i].eq(p) {
            proof {
                assert(vview[i as int] == p@);
            }
            return true;
        }
        i += 1;
    }
    false
}

/// Builds the snapshot of one scan: a record per kept entry, first
/// occurrence of each distinct record only.
pub fn build_snapshot(samples: &Vec<ProcSample>) -> (r: Vec<Process>)
    ensures
        r@.map_values(|p: Process| p@) == snapshot_spec(
            samples@.map_values(|s: ProcSample| s@),
        ),
{
    let ghost sview = samples@.map_values(|s: ProcSample| s@);
    let mut out: Vec<Process> = Vec::new();
    let n = samples.len();
    let mut i: usize = 0;
    proof {
        assert(sview.take(0) =~= Seq::<ProcSampleView>::empty());
        assert(out@.map_values(|p: Process| p@) =~= Seq::<ProcessView>::empty());
    }
    while i < n
        invariant
            n == samples@.len(),
            i <= n,
            sview == samples@.map_values(|s: ProcSample| s@),
            out@.map_values(|p: Process| p@) == dedup(raw_records(sview.take(i as int))),
        decreases n - i,
    {
        let ghost out_prev = out@.map_values(|p: Process| p@);
        let ghost raw_prev = raw_records(sview.take(i as int));
        proof {
            assert(sview.take(i as int + 1).drop_last() =~= sview.take(i as int));
            assert(sview.take(i as int + 1).last() == sview[i as int]);
            assert(sview[i as int] == samples@[i as int]@);
        }
        let sample = &samples[i];
        let numeric = is_numeric_name(sample.name.as_str());
        match &sample.cmdline {
            Some(cmdline) => {
                if numeric {
                    let cmd = command_token(cmdline.as_str());
                    let exe = match &sample.exe {
                        Some(e) => e.clone(),
                        None => String::new(),
                    };
                    let rec = Process {
                        pid: sample.name.clone(),
                        exe,
                        cmd,
                        cmdline: cmdline.clone(),
                    };
                    proof {
                        assert(sample_kept(sview[i as int]));
                        assert(rec@ == record_of(sview[i as int]));
                        assert(raw_records(sview.take(i as int + 1)) =~= raw_prev.push(rec@));
                        assert(raw_prev.push(rec@).drop_last() =~= raw_prev);
                        lemma_dedup_membership(raw_prev);
                    }
                    if !snapshot_contains(&out, &rec) {
                        out.push(rec);
                        proof {
                            assert(out@.map_values(|p: Process| p@) =~= out_prev.push(
                                raw_prev.push(record_of(sview[i as int])).last(),
                            ));
                        }
                    }
                } else {
                    proof {
                        assert(!sample_kept(sview[i as int]));
                        assert(raw_records(sview.take(i as int + 1)) =~= raw_prev);
                    }
                }
            },
            None => {
                proof {
                    assert(!sample_kept(sview[i as int]));
                    assert(raw_records(sview.take(i as int + 1)) =~= raw_prev);
                }
            },
        }
        i += 1;
    }
    proof {
        assert(sview.take(n as int) =~= sview);
    }
    out
}

/// The new records of the current scan against a previous snapshot, in
/// scan order.
pub fn new_process_records(cur: &Vec<Process>, prev: &Vec<Process>) -> (r: Vec<Process>)
    ensures
        r@.map_values(|p: Process| p@) == new_records(
            cur@.map_values(|p: Process| p@),
            prev@.map_values(|p: Process| p@),
        ),
{
    let ghost cview = cur@.map_values(|p: Process| p@);
    let ghost pview = prev@.map_values(|p: Process| p@);
    let mut out: Vec<Process> = Vec::new();
    let n = cur.len();
    let mut i: usize = 0;
    proof {
        assert(cview.take(0) =~= Seq::<ProcessView>::empty());
        assert(out@.map_values(|p: Process| p@) =~= Seq::<ProcessView>::empty());
    }
    while i < n
        invariant
            n == cur@.len(),
            i <= n,
            cview == cur@.map_values(|p: Process| p@),
            pview == prev@.map_values(|p: Process| p@),
            out@.map_values(|p: Process| p@) == new_records(cview.take(i as int), pview),
        decreases n - i,
    {
        let ghost out_prev = out@.map_values(|p: Process| p@);
        proof {
            assert(cview.take(i as int + 1).drop_last() =~= cview.take(i as int));
            assert(cview.take(i as int + 1).last() == cview[i as int]);
            assert(cview[i as int] == cur@[i as int]@);
        }
        if !snapshot_contains(prev, &cur[i]) {
            let rec = cur[i].clone();
            out.push(rec);
            proof {
                assert(out@.map_values(|p: Process| p@) =~= out_prev.push(cview[i as int]));
                assert(new_records(cview.take(i as int + 1), pview) =~= out_prev.push(
                    cview[i as int],
                ));
            }
        } else {
            proof {
                assert(new_records(cview.take(i as int + 1), pview) =~= out_prev);
            }
        }
        i += 1;
    }
    proof {
        assert(cview.take(n as int) =~= cview);
    }
    out
}

/// The process inventory: the stored snapshot that change detection runs
/// against, and the snapshot of new processes taken at construction.
pub struct Processes {
    pub processes: Vec<Process>,
    pub new_processes: Vec<Process>,
}

impl Processes {
    /// The stored snapshot as a sequence of record values.
    pub open spec fn snap(&self) -> Seq<ProcessView> {
        self.processes@.map_values(|p: Process| p@)
    }

    /// Builds the inventory from one scan of the process-listing root.
    pub fn new(samples: &Vec<ProcSample>) -> (r: Self)
        ensures
            r.snap() == snapshot_spec(samples@.map_values(|s: ProcSample| s@)),
            r.new_processes@.map_values(|p: Process| p@) == snapshot_spec(
                samples@.map_values(|s: ProcSample| s@),
            ),
    {
        let processes = build_snapshot(samples);
        let new_processes = build_snapshot(samples);
        Processes { processes, new_processes }
    }

    /// Change detection with a sliding baseline: returns the records of the
    /// fresh scan that the stored snapshot does not hold, and replaces the
    /// stored snapshot with the fresh scan as a side effect, so each call
    /// measures against the previous call's scan.
    pub fn get_new_processes(&mut self, samples: &Vec<ProcSample>) -> (r: Vec<Process>)
        ensures
            final(self).snap() == snapshot_spec(samples@.map_values(|s: ProcSample| s@)),
            final(self).new_processes@ == old(self).new_processes@,
            r@.map_values(|p: Process| p@) == new_records(
                snapshot_spec(samples@.map_values(|s: ProcSample| s@)),
                old(self).snap(),
            ),
    {
        let current = build_snapshot(samples);
        let news = new_process_records(&current, &self.processes);
        self.processes = current;
        news
    }
}

} // verus!
