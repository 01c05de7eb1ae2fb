//! Scanning the lines of one trace file, and the statistics of a scan.
use vstd::prelude::*;
use crate::numbers::{decimal_i32, parse_decimal_i64};
use crate::parser::{line_event, parse_line};
use crate::text::{chars_of, rfind_char, rfind_char_in};
use crate::types::{Syscall, SyscallView};

verus! {

/// Counters of one scan, or of several scans added up. The three times are
/// in nanoseconds.
#[derive(Clone, Copy, Debug, PartialEq, Eq, Structural)]
pub struct ProcessStats {
    pub total_lines: usize,
    pub parsed_lines: usize,
    pub failed_lines: usize,
    pub time_reading: u64,
    pub time_parsing: u64,
    pub time_db_insert: u64,
}

pub struct StatsView {
    pub total: nat,
    pub parsed: nat,
    pub failed: nat,
    pub reading: nat,
    pub parsing: nat,
    pub inserting: nat,
}

impl View for ProcessStats {
    type V = StatsView;

    open spec fn view(&self) -> StatsView {
        StatsView {
            total: self.total_lines as nat,
            parsed: self.parsed_lines as nat,
            failed: self.failed_lines as nat,
            reading: self.time_reading as nat,
            parsing: self.time_parsing as nat,
            inserting: self.time_db_insert as nat,
        }
    }
}

pub open spec fn zero_stats() -> StatsView {
    StatsView { total: 0, parsed: 0, failed: 0, reading: 0, parsing: 0, inserting: 0 }
}

/// Field-wise sum of two statistics.
pub open spec fn sum(a: StatsView, b: StatsView) -> StatsView {
    StatsView {
        total: a.total + b.total,
        parsed: a.parsed + b.parsed,
        failed: a.failed + b.failed,
        reading: a.reading + b.reading,
        parsing: a.parsing + b.parsing,
        inserting: a.inserting + b.inserting,
    }
}

/// Whether each field of `a` fits the field of [`ProcessStats`] that holds it.
pub open spec fn fits(a: StatsView) -> bool {
    a.total <= usize::MAX && a.parsed <= usize::MAX && a.failed <= usize::MAX && a.reading
        <= u64::MAX && a.parsing <= u64::MAX && a.inserting <= u64::MAX
}

/// The statistics of many scans added up, in the order given.
pub open spec fn total(s: Seq<StatsView>) -> StatsView {
    s.fold_left(zero_stats(), |acc: StatsView, x: StatsView| sum(acc, x))
}

pub open spec fn texts(lines: Seq<String>) -> Seq<Seq<char>> {
    lines.map_values(|l: String| l@)
}

pub open spec fn views(events: Seq<Syscall>) -> Seq<SyscallView> {
    events.map_values(|e: Syscall| e@)
}

/// How many of `lines` parse.
pub open spec fn parsed_in(lines: Seq<Seq<char>>) -> nat
    decreases lines.len(),
{
    if lines.len() == 0 {
        0
    } else {
        parsed_in(lines.drop_last()) + if line_event(lines.last()) is Some {
            1nat
        } else {
            0nat
        }
    }
}

/// The events of the lines that parse, in the order of the lines.
pub open spec fn events_in(lines: Seq<Seq<char>>) -> Seq<SyscallView>
    decreases lines.len(),
{
    if lines.len() == 0 {
        Seq::empty()
    } else {
        events_in(lines.drop_last()) + match line_event(lines.last()) {
            Some(e) => seq![e],
            None => Seq::empty(),
        }
    }
}

/// The counters that scanning `lines` yields (its times are measured outside).
pub open spec fn scan_view(lines: Seq<Seq<char>>) -> StatsView {
    StatsView {
        total: lines.len(),
        parsed: parsed_in(lines),
        failed: (lines.len() - parsed_in(lines)) as nat,
        reading: 0,
        parsing: 0,
        inserting: 0,
    }
}

/// The text after the last `.` of a file name (all of it when there is none),
/// read as a decimal `i32`.
pub open spec fn pid_of(name: Seq<char>) -> Option<int> {
    match rfind_char(name, '.') {
        Some(d) => decimal_i32(name.skip(d + 1)),
        None => decimal_i32(name),
    }
}

/// The events of one scanned file, with the scan's statistics.
pub struct FileScan {
    pub events: Vec<Syscall>,
    pub stats: ProcessStats,
}

impl ProcessStats {
    /// All counters at zero.
    pub fn new() -> (r: ProcessStats)
        ensures
            r@ == zero_stats(),
    {
        ProcessStats {
            total_lines: 0,
            parsed_lines: 0,
            failed_lines: 0,
            time_reading: 0,
            time_parsing: 0,
            time_db_insert: 0,
        }
    }

    /// Whether [`ProcessStats::merge`] can add `other` without overflow.
    pub fn can_merge(&self, other: &ProcessStats) -> (b: bool)
        ensures
            b == fits(sum(self@, other@)),
    {
        self.total_lines <= usize::MAX - other.total_lines && self.parsed_lines <= usize::MAX
            - other.parsed_lines && self.failed_lines <= usize::MAX - other.failed_lines
            && self.time_reading <= u64::MAX - other.time_reading && self.time_parsing <= u64::MAX
            - other.time_parsing && self.time_db_insert <= u64::MAX - other.time_db_insert
    }

    /// Adds `other` to these statistics, field by field.
    pub fn merge(&mut self, other: &ProcessStats)
        requires
            fits(sum(old(self)@, other@)),
        ensures
            final(self)@ == sum(old(self)@, other@),
    {
        self.total_lines = self.total_lines + other.total_lines;
        self.parsed_lines = self.parsed_lines + other.parsed_lines;
        self.failed_lines = self.failed_lines + other.failed_lines;
        self.time_reading = self.time_reading + other.time_reading;
        self.time_parsing = self.time_parsing + other.time_parsing;
        self.time_db_insert = self.time_db_insert + other.time_db_insert;
    }
}

/// Reads the process id from a file name such as `trace.12345`.
pub fn extract_pid(filename: &str) -> (r: Option<i32>)
    ensures
        match r {
            Some(p) => pid_of(filename@) == Some(p as int),
            None => pid_of(filename@) is None,
        },
{
    let v = chars_of(filename);
    let n = v.len();
    assert(v@.subrange(0, n as int) =~= v@);
    let start = match rfind_char_in(&v, 0, n, '.') {
        Some(d) => {
            assert(v@.skip(d + 1) =~= v@.subrange(d + 1, n as int));
            d + 1
        },
        None => 0,
    };
    match parse_decimal_i64(&v, start, n) {
        Some(x) => {
            if -0x8000_0000 <= x && x <= 0x7fff_ffff {
                Some(x as i32)
            } else {
                None
            }
        },
        None => None,
    }
}

/// The process id that a file's rows carry: the one its name ends with, else 0.
pub fn process_id(filename: &str) -> (r: i32)
    ensures
        r == match pid_of(filename@) {
            Some(p) => p,
            None => 0,
        },
{
    match extract_pid(filename) {
        Some(p) => p,
        None => 0,
    }
}

/// Counts one line and parses it: `parsed_lines` grows when it parses,
/// `failed_lines` when it does not.
pub fn scan_line(stats: &mut ProcessStats, line: &str) -> (r: Option<Syscall>)
    requires
        old(stats).total_lines < usize::MAX,
        old(stats).parsed_lines < usize::MAX,
        old(stats).failed_lines < usize::MAX,
    ensures
        crate::types::opt_view(r) == line_event(line@),
        final(stats)@ == sum(
            old(stats)@,
            StatsView {
                total: 1,
                parsed: if r is Some {
                    1
                } else {
                    0
                },
                failed: if r is Some {
                    0
                } else {
                    1
                },
                reading: 0,
                parsing: 0,
                inserting: 0,
            },
        ),
{
    stats.total_lines = stats.total_lines + 1;
    let r = parse_line(line);
    if r.is_some() {
        stats.parsed_lines = stats.parsed_lines + 1;
    } else {
        stats.failed_lines = stats.failed_lines + 1;
    }
    r
}

/// Scans the lines of one file: the events of the lines that parse, in order,
/// and the counts of lines seen, parsed and failed.
pub fn scan_lines(lines: &Vec<String>) -> (r: FileScan)
    ensures
        views(r.events@) == events_in(texts(lines@)),
        r.events.len() == r.stats.parsed_lines,
        r.stats@ == scan_view(texts(lines@)),
{
    let mut stats = ProcessStats::new();
    let mut events: Vec<Syscall> = Vec::new();
    let mut i: usize = 0;
    while i < lines.len()
        invariant
            i <= lines.len(),
            stats@ == scan_view(texts(lines@).take(i as int)),
            views(events@) == events_in(texts(lines@).take(i as int)),
            events.len() == stats.parsed_lines,
        decreases lines.len() - i,
    {
        let ghost pre = texts(lines@).take(i as int);
        let ghost post = texts(lines@).take(i + 1);
        assert(post.drop_last() =~= pre);
        assert(post.last() == lines@[i as int]@);
        proof {
            lemma_parsed_le(pre);
        }
        let ghost before = events@;
        let e = scan_line(&mut stats, lines[i].as_str());
        match e {
            Some(ev) => {
                events.push(ev);
                assert(views(events@) =~= views(before) + seq![ev@]);
            },
            None => {
                assert(views(events@) =~= views(before) + Seq::<SyscallView>::empty());
            },
        }
        i = i + 1;
    }
    assert(texts(lines@).take(lines.len() as int) =~= texts(lines@));
    FileScan { events, stats }
}

proof fn lemma_parsed_le(lines: Seq<Seq<char>>)
    ensures
        parsed_in(lines) <= lines.len(),
    decreases lines.len(),
{
    if lines.len() > 0 {
        lemma_parsed_le(lines.drop_last());
    }
}

/// Adds up the statistics of several scans in the order given.
pub fn total_of(stats: &Vec<ProcessStats>) -> (r: ProcessStats)
    requires
        fits(total(stats@.map_values(|x: ProcessStats| x@))),
    ensures
        r@ == total(stats@.map_values(|x: ProcessStats| x@)),
{
    let ghost all = stats@.map_values(|x: ProcessStats| x@);
    let mut acc = ProcessStats::new();
    let mut i: usize = 0;
    while i < stats.len()
        invariant
            i <= stats.len(),
            all == stats@.map_values(|x: ProcessStats| x@),
            fits(total(all)),
            acc@ == total(all.take(i as int)),
        decreases stats.len() - i,
    {
        proof {
            assert(all.take(i + 1).drop_last() =~= all.take(i as int));
            lemma_total_prefix_le(all, i + 1);
        }
        acc.merge(&stats[i]);
        i = i + 1;
    }
    assert(all.take(stats.len() as int) =~= all);
    acc
}

proof fn lemma_total_prefix_le(s: Seq<StatsView>, k: int)
    requires
        0 <= k <= s.len(),
    ensures
        total(s.take(k)).total <= total(s).total,
        total(s.take(k)).parsed <= total(s).parsed,
        total(s.take(k)).failed <= total(s).failed,
        total(s.take(k)).reading <= total(s).reading,
        total(s.take(k)).parsing <= total(s).parsing,
        total(s.take(k)).inserting <= total(s).inserting,
    decreases s.len(),
{
    if k < s.len() {
        assert(s.drop_last().take(k) =~= s.take(k));
        lemma_total_prefix_le(s.drop_last(), k);
    } else {
        assert(s.take(k) =~= s);
    }
}

/// Scanning the lines of a file in two parts and adding up the two
/// statistics gives the statistics of scanning it whole; the events of the
/// whole are those of the first part followed by those of the second.
pub proof fn lemma_split_scan(a: Seq<Seq<char>>, b: Seq<Seq<char>>)
    ensures
        scan_view(a + b) == sum(scan_view(a), scan_view(b)),
        events_in(a + b) == events_in(a) + events_in(b),
    decreases b.len(),
{
    lemma_parsed_le(a);
    lemma_parsed_le(b);
    lemma_parsed_le(a + b);
    if b.len() == 0 {
        assert(a + b =~= a);
        assert(events_in(a) + events_in(b) =~= events_in(a));
    } else {
        lemma_split_scan(a, b.drop_last());
        assert((a + b).drop_last() =~= a + b.drop_last());
        assert((a + b).last() == b.last());
        assert(events_in(a + b) =~= events_in(a) + events_in(b));
    }
}

/// Adding up per-file statistics gives the same totals in any order: a run
/// that handles the files one after another and one that handles them in
/// whatever order its workers finish agree on every counter.
pub proof fn lemma_total_any_order(a: Seq<StatsView>, b: Seq<StatsView>)
    requires
        a.to_multiset() == b.to_multiset(),
    ensures
        total(a) == total(b),
{
    let f = |acc: StatsView, x: StatsView| sum(acc, x);
    assert(vstd::seq_lib::commutative_foldl(f));
    vstd::seq_lib::lemma_fold_left_permutation(a, b, f, zero_stats());
}

/// The totals of the statistics of several files count each line of each
/// file once: lines seen, lines parsed, and lines failed.
pub proof fn lemma_total_of_scans(files: Seq<Seq<Seq<char>>>)
    ensures
        total(files.map_values(|f: Seq<Seq<char>>| scan_view(f))) == scan_view(
            files.fold_left(Seq::<Seq<char>>::empty(), |acc: Seq<Seq<char>>, f: Seq<Seq<char>>| acc + f),
        ),
    decreases files.len(),
{
    let g = |acc: Seq<Seq<char>>, f: Seq<Seq<char>>| acc + f;
    if files.len() == 0 {
        assert(Seq::<Seq<char>>::empty().len() == 0);
        assert(scan_view(Seq::<Seq<char>>::empty()) == zero_stats());
    } else {
        lemma_total_of_scans(files.drop_last());
        assert(files.drop_last().map_values(|f: Seq<Seq<char>>| scan_view(f)) =~= files.map_values(
            |f: Seq<Seq<char>>| scan_view(f),
        ).drop_last());
        lemma_split_scan(files.drop_last().fold_left(Seq::<Seq<char>>::empty(), g), files.last());
    }
}

} // verus!
