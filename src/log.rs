//! The run log: finding the requested run's block of thermodynamic rows.
//!
//! A line that starts with the start marker announces a block; the next line
//! is its header; the rows follow until a line that starts with an end marker
//! closes the block and counts one more run.

use vstd::prelude::*;
use crate::numeric::{float_text, is_float_word};
use crate::table::{column_of, column_words, rows_view, Column, ColumnData, Table};
use crate::text::{begins_with, has_prefix, line_chars, split_words, texts, words};

verus! {

/// The marker prefixes that a log is scanned for.
#[derive(Debug, Clone)]
pub struct LogMarkers {
    /// Starts a block: its next line is the header.
    pub start: String,
    /// Close a block.
    pub ends: Vec<String>,
    /// Output styles that cannot be read; meeting one outside a block fails.
    pub unsupported: Vec<String>,
}

/// The markers, as character sequences.
pub struct MarkersView {
    pub start: Seq<char>,
    pub ends: Seq<Seq<char>>,
    pub unsupported: Seq<Seq<char>>,
}

impl LogMarkers {
    pub open spec fn view(&self) -> MarkersView {
        MarkersView { start: self.start@, ends: texts(self.ends@), unsupported: texts(self.unsupported@) }
    }

    /// The markers of the simulator's own log format.
    pub fn lammps() -> (r: LogMarkers)
        ensures
            r.view() == lammps_markers(),
    {
        let r = LogMarkers {
            start: "Per MPI rank memory allocation".to_owned(),
            ends: vec!["Loop time".to_owned(), "ERROR".to_owned()],
            unsupported: vec!["thermo_style multi".to_owned(), "thermo_style yaml".to_owned()],
        };
        assert(r.view().ends =~= lammps_markers().ends);
        assert(r.view().unsupported =~= lammps_markers().unsupported);
        r
    }
}

/// The simulator's log markers.
pub open spec fn lammps_markers() -> MarkersView {
    MarkersView {
        start: "Per MPI rank memory allocation"@,
        ends: seq!["Loop time"@, "ERROR"@],
        unsupported: seq!["thermo_style multi"@, "thermo_style yaml"@],
    }
}

/// Where the scan stands.
#[derive(Debug, Clone, Copy, PartialEq, Eq, Structural)]
pub enum LogPhase {
    /// Looking for a start marker.
    Seeking,
    /// The next line is the header.
    AwaitHeader,
    /// Inside a block.
    Collecting,
    /// The requested run has been read whole.
    Terminated,
}

/// The state of a scan.
pub struct LogScanView {
    pub phase: LogPhase,
    /// Blocks closed so far.
    pub run: nat,
    /// Words of the current block's header.
    pub header: Seq<Seq<char>>,
    /// Rows kept for the requested run.
    pub rows: Seq<Seq<Seq<char>>>,
    /// A header of the requested run was read.
    pub found: bool,
}

/// `line` starts with one of `ps`.
pub open spec fn starts_with_any(line: Seq<char>, ps: Seq<Seq<char>>) -> bool {
    exists|i: int| 0 <= i < ps.len() && has_prefix(line, #[trigger] ps[i])
}

/// `n` words, each a float.
pub open spec fn numeric_row(ws: Seq<Seq<char>>, n: nat) -> bool {
    ws.len() == n && forall|i: int| 0 <= i < ws.len() ==> float_text(#[trigger] ws[i])
}

pub open spec fn initial_scan() -> LogScanView {
    LogScanView { phase: LogPhase::Seeking, run: 0, header: seq![], rows: seq![], found: false }
}

/// One line of the scan for run `req`; `None` where the line names an
/// unsupported output style.
pub open spec fn log_step(m: MarkersView, req: nat, s: LogScanView, line: Seq<char>) -> Option<
    LogScanView,
> {
    match s.phase {
        LogPhase::Seeking => if starts_with_any(line, m.unsupported) {
            None
        } else if has_prefix(line, m.start) {
            Some(LogScanView { phase: LogPhase::AwaitHeader, ..s })
        } else {
            Some(s)
        },
        LogPhase::AwaitHeader => Some(
            LogScanView {
                phase: LogPhase::Collecting,
                header: words(line),
                found: s.found || s.run == req,
                ..s
            },
        ),
        LogPhase::Collecting => if starts_with_any(line, m.ends) {
            if s.run + 1 > req {
                Some(LogScanView { phase: LogPhase::Terminated, run: s.run + 1, ..s })
            } else {
                Some(LogScanView { phase: LogPhase::Seeking, run: s.run + 1, header: seq![], ..s })
            }
        } else if s.run == req && numeric_row(words(line), s.header.len()) {
            Some(LogScanView { rows: s.rows.push(words(line)), ..s })
        } else {
            Some(s)
        },
        LogPhase::Terminated => Some(s),
    }
}

/// The scan over `lines`, or the first unsupported line met.
pub open spec fn log_scan(m: MarkersView, req: nat, lines: Seq<Seq<char>>) -> Result<
    LogScanView,
    Seq<char>,
>
    decreases lines.len(),
{
    if lines.len() == 0 {
        Ok(initial_scan())
    } else {
        match log_scan(m, req, lines.drop_last()) {
            Err(e) => Err(e),
            Ok(s) => match log_step(m, req, s, lines.last()) {
                Some(t) => Ok(t),
                None => Err(lines.last()),
            },
        }
    }
}

/// Why a run could not be read.
#[derive(Debug, Clone, PartialEq, Eq)]
pub enum LogError {
    /// A line naming an output style that cannot be read.
    UnsupportedFormat(String),
    /// The log has no block for the requested run.
    RunNotFound { requested: u32, suggested: u32 },
    /// The run's block holds no row.
    EmptyColumnSet,
}

/// The table holds `rows` under `header`, every column as floats.
pub open spec fn float_table(t: Table, header: Seq<Seq<char>>, rows: Seq<Seq<Seq<char>>>) -> bool {
    &&& t.columns.len() == header.len()
    &&& forall|c: int|
        0 <= c < header.len() ==> {
            let col = #[trigger] t.columns@[c];
            &&& col.name@ == header[c]
            &&& col.data is Float
            &&& col.data.holds(column_of(rows, c))
        }
}

/// What reading run `req` of `lines` gives.
pub open spec fn log_run_result(m: MarkersView, req: u32, lines: Seq<Seq<char>>, r: Result<
    Table,
    LogError,
>) -> bool {
    match log_scan(m, req as nat, lines) {
        Err(line) => r matches Err(LogError::UnsupportedFormat(l)) && l@ == line,
        Ok(s) => if !s.found {
            r == Err::<Table, LogError>(
                LogError::RunNotFound {
                    requested: req,
                    suggested: if req == 0 { 0 } else { (req - 1) as u32 },
                },
            )
        } else if s.rows.len() == 0 {
            r == Err::<Table, LogError>(LogError::EmptyColumnSet)
        } else {
            r matches Ok(t) && float_table(t, s.header, s.rows)
        },
    }
}

/// The lines of `lines` that start with `p`, in order.
pub open spec fn lines_with_prefix(lines: Seq<Seq<char>>, p: Seq<char>) -> Seq<Seq<char>> {
    lines.filter(|l: Seq<char>| has_prefix(l, p))
}

/// Markers as characters, for scanning.
struct MarkerChars {
    start: Vec<char>,
    ends: Vec<Vec<char>>,
    unsupported: Vec<Vec<char>>,
}

impl MarkerChars {
    spec fn view(&self) -> MarkersView {
        MarkersView {
            start: self.start@,
            ends: self.ends@.map_values(|c: Vec<char>| c@),
            unsupported: self.unsupported@.map_values(|c: Vec<char>| c@),
        }
    }
}

fn chars_of_all(v: &Vec<String>) -> (r: Vec<Vec<char>>)
    ensures
        r@.map_values(|c: Vec<char>| c@) == texts(v@),
{
    let mut out: Vec<Vec<char>> = Vec::new();
    let mut i: usize = 0;
    while i < v.len()
        invariant
            i <= v.len(),
            out@.map_values(|c: Vec<char>| c@) == texts(v@.take(i as int)),
        decreases v.len() - i,
    {
        let cs = line_chars(v[i].as_str());
        let ghost before = out@;
        out.push(cs);
        assert(out@.map_values(|c: Vec<char>| c@) =~= before.map_values(|c: Vec<char>| c@).push(
            cs@,
        ));
        assert(texts(v@.take(i + 1)) =~= texts(v@.take(i as int)).push(v@[i as int]@));
        i += 1;
    }
    assert(v@.take(v.len() as int) =~= v@);
    out
}

/// Whether `line` starts with one of `ps`.
fn begins_with_any(line: &Vec<char>, ps: &Vec<Vec<char>>) -> (r: bool)
    ensures
        r == starts_with_any(line@, ps@.map_values(|c: Vec<char>| c@)),
{
    let ghost pv = ps@.map_values(|c: Vec<char>| c@);
    let mut i: usize = 0;
    while i < ps.len()
        invariant
            pv == ps@.map_values(|c: Vec<char>| c@),
            i <= ps.len(),
            forall|k: int| 0 <= k < i ==> !has_prefix(line@, #[trigger] pv[k]),
        decreases ps.len() - i,
    {
        if begins_with(line, &ps[i]) {
            assert(pv[i as int] == ps@[i as int]@);
            return true;
        }
        i += 1;
    }
    false
}

/// Whether every word reads as a float.
fn all_float_words(ws: &Vec<String>) -> (r: bool)
    ensures
        r == forall|i: int| 0 <= i < ws.len() ==> float_text(#[trigger] texts(ws@)[i]),
{
    let mut i: usize = 0;
    while i < ws.len()
        invariant
            i <= ws.len(),
            forall|k: int| 0 <= k < i ==> float_text(#[trigger] texts(ws@)[k]),
        decreases ws.len() - i,
    {
        if !is_float_word(ws[i].as_str()) {
            assert(texts(ws@)[i as int] == ws@[i as int]@);
            return false;
        }
        i += 1;
    }
    true
}

/// A scan in progress.
pub struct LogScan {
    pub phase: LogPhase,
    pub run: u64,
    pub header: Vec<String>,
    pub rows: Vec<Vec<String>>,
    pub found: bool,
}

impl LogScan {
    pub open spec fn view(&self) -> LogScanView {
        LogScanView {
            phase: self.phase,
            run: self.run as nat,
            header: texts(self.header@),
            rows: rows_view(self.rows@),
            found: self.found,
        }
    }

    /// The counter stays in range while the scan goes on.
    pub open spec fn wf(&self, req: u32) -> bool {
        self.phase != LogPhase::Terminated ==> self.run <= req
    }

    pub fn new() -> (r: LogScan)
        ensures
            r.view() == initial_scan(),
            r.wf(0),
    {
        let r = LogScan {
            phase: LogPhase::Seeking,
            run: 0,
            header: Vec::new(),
            rows: Vec::new(),
            found: false,
        };
        assert(r.view().header =~= Seq::<Seq<char>>::empty());
        assert(r.view().rows =~= Seq::<Seq<Seq<char>>>::empty());
        r
    }

    /// Takes one line; `false` where it names an unsupported style.
    fn step(&mut self, m: &MarkerChars, req: u32, line: &String) -> (r: bool)
        requires
            old(self).wf(req),
        ensures
            r == log_step(m.view(), req as nat, old(self).view(), line@) is Some,
            r ==> final(self).view() == log_step(m.view(), req as nat, old(self).view(), line@)->0,
            r ==> final(self).wf(req),
    {
        match self.phase {
            LogPhase::Seeking => {
                let cs = line_chars(line.as_str());
                if begins_with_any(&cs, &m.unsupported) {
                    return false;
                }
                if begins_with(&cs, &m.start) {
                    self.phase = LogPhase::AwaitHeader;
                }
                true
            },
            LogPhase::AwaitHeader => {
                self.header = split_words(line.as_str());
                self.phase = LogPhase::Collecting;
                self.found = self.found || self.run == req as u64;
                true
            },
            LogPhase::Collecting => {
                let cs = line_chars(line.as_str());
                if begins_with_any(&cs, &m.ends) {
                    self.run = self.run + 1;
                    if self.run > req as u64 {
                        self.phase = LogPhase::Terminated;
                    } else {
                        self.phase = LogPhase::Seeking;
                        self.header = Vec::new();
                        assert(texts(self.header@) =~= Seq::<Seq<char>>::empty());
                    }
                    return true;
                }
                if self.run == req as u64 {
                    let ws = split_words(line.as_str());
                    if ws.len() == self.header.len() && all_float_words(&ws) {
                        let ghost before = self.rows@;
                        self.rows.push(ws);
                        assert(rows_view(self.rows@) =~= rows_view(before).push(texts(ws@)));
                    }
                }
                true
            },
            LogPhase::Terminated => true,
        }
    }
}

/// Builds the float table of a run's rows.
fn float_columns(header: &Vec<String>, rows: &Vec<Vec<String>>) -> (t: Table)
    requires
        forall|i: int| 0 <= i < rows.len() ==> (#[trigger] rows@[i]).len() == header.len(),
    ensures
        float_table(t, texts(header@), rows_view(rows@)),
{
    let mut columns: Vec<Column> = Vec::new();
    let mut c: usize = 0;
    while c < header.len()
        invariant
            forall|i: int| 0 <= i < rows.len() ==> (#[trigger] rows@[i]).len() == header.len(),
            c <= header.len(),
            columns.len() == c,
            forall|k: int|
                0 <= k < c ==> {
                    let col = #[trigger] columns@[k];
                    &&& col.name@ == texts(header@)[k]
                    &&& col.data is Float
                    &&& col.data.holds(column_of(rows_view(rows@), k))
                },
        decreases header.len() - c,
    {
        let vals = column_words(rows, c);
        columns.push(Column { name: header[c].clone(), data: ColumnData::Float(vals) });
        c += 1;
    }
    Table { columns }
}

/// Reads runs of a log under a set of markers.
pub struct LogLammpsReader {
    pub markers: LogMarkers,
}

impl LogLammpsReader {
    /// Reads run `requried_thermo_run_id` (run 0 when absent) of a log given
    /// as its lines, under the simulator's markers.
    pub fn new(lines: &Vec<String>, requried_thermo_run_id: Option<u32>) -> (r: Result<
        Table,
        LogError,
    >)
        ensures
            log_run_result(
                lammps_markers(),
                match requried_thermo_run_id {
                    Some(k) => k,
                    None => 0,
                },
                texts(lines@),
                r,
            ),
    {
        let reader = LogLammpsReader { markers: LogMarkers::lammps() };
        let req = match requried_thermo_run_id {
            Some(k) => k,
            None => 0,
        };
        reader.parse_lammps_log(lines, req)
    }

    /// The lines of a log that start with `prefix_key`, in order.
    pub fn log_starts_with(lines: &Vec<String>, prefix_key: &str) -> (r: Vec<String>)
        ensures
            texts(r@) == lines_with_prefix(texts(lines@), prefix_key@),
    {
        Self::parse_log_starts_with(lines, prefix_key)
    }

    /// The lines that start with `prefix_key`, compared character by
    /// character.
    fn parse_log_starts_with(lines: &Vec<String>, prefix_key: &str) -> (r: Vec<String>)
        ensures
            texts(r@) == lines_with_prefix(texts(lines@), prefix_key@),
    {
        let p = line_chars(prefix_key);
        let mut out: Vec<String> = Vec::new();
        let mut i: usize = 0;
        while i < lines.len()
            invariant
                p@ == prefix_key@,
                i <= lines.len(),
                texts(out@) == lines_with_prefix(texts(lines@.take(i as int)), p@),
            decreases lines.len() - i,
        {
            let cs = line_chars(lines[i].as_str());
            let ghost prev = texts(lines@.take(i as int));
            assert(texts(lines@.take(i + 1)) =~= prev.push(lines@[i as int]@));
            proof {
                prev.lemma_filter_push(lines@[i as int]@, |l: Seq<char>| has_prefix(l, p@));
            }
            if begins_with(&cs, &p) {
                let ghost before = out@;
                out.push(lines[i].clone());
                assert(texts(out@) =~= texts(before).push(lines@[i as int]@));
            }
            i += 1;
        }
        assert(lines@.take(lines.len() as int) =~= lines@);
        out
    }

    /// Reads run `req` of a log given as its lines.
    pub fn parse_lammps_log(&self, lines: &Vec<String>, req: u32) -> (r: Result<Table, LogError>)
        ensures
            log_run_result(self.markers.view(), req, texts(lines@), r),
    {
        let m = MarkerChars {
            start: line_chars(self.markers.start.as_str()),
            ends: chars_of_all(&self.markers.ends),
            unsupported: chars_of_all(&self.markers.unsupported),
        };
        assert(m.view() == self.markers.view());
        let mut scan = LogScan::new();
        let mut i: usize = 0;
        while i < lines.len()
            invariant
                m.view() == self.markers.view(),
                i <= lines.len(),
                log_scan(m.view(), req as nat, texts(lines@.take(i as int))) == Ok::<
                    LogScanView,
                    Seq<char>,
                >(scan.view()),
                scan.wf(req),
            decreases lines.len() - i,
        {
            let ghost pre = texts(lines@.take(i as int));
            assert(texts(lines@.take(i + 1)).drop_last() =~= pre);
            assert(texts(lines@.take(i + 1)).last() == lines@[i as int]@);
            if !scan.step(&m, req, &lines[i]) {
                assert(log_scan(m.view(), req as nat, texts(lines@.take(i + 1))) == Err::<
                    LogScanView,
                    Seq<char>,
                >(lines@[i as int]@));
                proof {
                    assert(texts(lines@.take(i + 1)) =~= texts(lines@).take(i + 1));
                    lemma_scan_error_sticks(m.view(), req as nat, texts(lines@), i + 1);
                    assert(texts(lines@.take(lines.len() as int)) =~= texts(lines@));
                }
                return Err(LogError::UnsupportedFormat(lines[i].clone()));
            }
            i += 1;
        }
        assert(lines@.take(lines.len() as int) =~= lines@);
        if !scan.found {
            let suggested = if req == 0 {
                0
            } else {
                req - 1
            };
            return Err(LogError::RunNotFound { requested: req, suggested });
        }
        if scan.rows.len() == 0 {
            return Err(LogError::EmptyColumnSet);
        }
        proof {
            lemma_rows_width(m.view(), req as nat, texts(lines@));
            assert forall|k: int| 0 <= k < scan.rows.len() implies (
            #[trigger] scan.rows@[k]).len() == scan.header.len() by {
                assert(rows_view(scan.rows@)[k] == texts(scan.rows@[k]@));
            }
        }
        Ok(float_columns(&scan.header, &scan.rows))
    }
}

/// Once the scan has failed on a line, it fails on that line whatever follows.
proof fn lemma_scan_error_sticks(m: MarkersView, req: nat, lines: Seq<Seq<char>>, n: int)
    requires
        0 < n <= lines.len(),
        log_scan(m, req, lines.take(n)) is Err,
    ensures
        log_scan(m, req, lines) == log_scan(m, req, lines.take(n)),
    decreases lines.len() - n,
{
    if n < lines.len() {
        assert(lines.take(n + 1).drop_last() =~= lines.take(n));
        assert(log_scan(m, req, lines.take(n + 1)) == log_scan(m, req, lines.take(n)));
        lemma_scan_error_sticks(m, req, lines, n + 1);
    } else {
        assert(lines.take(n) =~= lines);
    }
}

/// Every kept row has one word per header name; once a header of the
/// requested run is read, it stays the header.
proof fn lemma_rows_width(m: MarkersView, req: nat, lines: Seq<Seq<char>>)
    ensures
        log_scan(m, req, lines) matches Ok(s) ==> {
            &&& forall|k: int| 0 <= k < s.rows.len() ==> (#[trigger] s.rows[k]).len() == s.header.len()
            &&& s.rows.len() > 0 ==> s.found
            &&& s.rows.len() > 0 && s.phase != LogPhase::Terminated ==> s.run == req && s.phase == LogPhase::Collecting
            &&& s.phase == LogPhase::Terminated ==> s.run == req + 1
            &&& s.phase != LogPhase::Terminated ==> s.run <= req
            &&& s.phase == LogPhase::Collecting && s.run == req ==> s.found
            &&& s.found ==> (s.phase == LogPhase::Collecting && s.run == req) || s.phase
                == LogPhase::Terminated
            &&& !s.found ==> s.rows.len() == 0
        },
    decreases lines.len(),
{
    if lines.len() > 0 {
        lemma_rows_width(m, req, lines.drop_last());
    }
}

/// The scan over `lines` started from state `s` instead of the initial one.
pub open spec fn scan_from(m: MarkersView, req: nat, s: LogScanView, lines: Seq<Seq<char>>) -> Option<
    LogScanView,
>
    decreases lines.len(),
{
    if lines.len() == 0 {
        Some(s)
    } else {
        match scan_from(m, req, s, lines.drop_last()) {
            None => None,
            Some(t) => log_step(m, req, t, lines.last()),
        }
    }
}

/// The rows that the numeric lines of `body` give under a header of `n`
/// names, in order.
pub open spec fn kept_rows(body: Seq<Seq<char>>, n: nat) -> Seq<Seq<Seq<char>>>
    decreases body.len(),
{
    if body.len() == 0 {
        seq![]
    } else if numeric_row(words(body.last()), n) {
        kept_rows(body.drop_last(), n).push(words(body.last()))
    } else {
        kept_rows(body.drop_last(), n)
    }
}

proof fn lemma_scan_append(m: MarkersView, req: nat, a: Seq<Seq<char>>, b: Seq<Seq<char>>)
    requires
        log_scan(m, req, a) is Ok,
    ensures
        scan_from(m, req, log_scan(m, req, a)->Ok_0, b) matches Some(t) ==> log_scan(m, req, a + b)
            == Ok::<LogScanView, Seq<char>>(t),
    decreases b.len(),
{
    if b.len() == 0 {
        assert(a + b =~= a);
    } else {
        lemma_scan_append(m, req, a, b.drop_last());
        assert((a + b).drop_last() =~= a + b.drop_last());
        assert((a + b).last() == b.last());
    }
}

proof fn lemma_body(m: MarkersView, req: nat, s: LogScanView, body: Seq<Seq<char>>)
    requires
        s.phase == LogPhase::Collecting,
        s.run == req,
        forall|i: int| 0 <= i < body.len() ==> !starts_with_any(#[trigger] body[i], m.ends),
    ensures
        scan_from(m, req, s, body) == Some(
            LogScanView { rows: s.rows + kept_rows(body, s.header.len()), ..s },
        ),
    decreases body.len(),
{
    if body.len() == 0 {
        assert(s.rows + kept_rows(body, s.header.len()) =~= s.rows);
    } else {
        let init = body.drop_last();
        assert forall|i: int| 0 <= i < init.len() implies !starts_with_any(
            #[trigger] init[i],
            m.ends,
        ) by {
            assert(init[i] == body[i]);
        }
        lemma_body(m, req, s, init);
        assert(!starts_with_any(body[body.len() - 1], m.ends));
        let k = kept_rows(init, s.header.len());
        if numeric_row(words(body.last()), s.header.len()) {
            assert(s.rows + k.push(words(body.last())) =~= (s.rows + k).push(words(body.last())));
        }
    }
}

proof fn lemma_after_end(m: MarkersView, req: nat, s: LogScanView, after: Seq<Seq<char>>)
    requires
        s.phase == LogPhase::Terminated,
    ensures
        scan_from(m, req, s, after) == Some(s),
    decreases after.len(),
{
    if after.len() > 0 {
        lemma_after_end(m, req, s, after.drop_last());
    }
}

/// A log that closes exactly `k` blocks and then holds a block of run `k`
/// (its start line, its header line, a body without end markers, an end
/// line), followed by anything: reading run `k` gives one float column per
/// word of the header, each with one value per numeric line of the body; with
/// no numeric line it fails with `EmptyColumnSet`.
pub proof fn lemma_run_shape(
    m: MarkersView,
    k: u32,
    before: Seq<Seq<char>>,
    start: Seq<char>,
    header: Seq<char>,
    body: Seq<Seq<char>>,
    end: Seq<char>,
    after: Seq<Seq<char>>,
    r: Result<Table, LogError>,
)
    requires
        log_scan(m, k as nat, before) matches Ok(s) && s.phase == LogPhase::Seeking && s.run == k,
        !starts_with_any(start, m.unsupported),
        has_prefix(start, m.start),
        forall|i: int| 0 <= i < body.len() ==> !starts_with_any(#[trigger] body[i], m.ends),
        starts_with_any(end, m.ends),
        log_run_result(m, k, before + seq![start, header] + body + seq![end] + after, r),
    ensures
        kept_rows(body, words(header).len()).len() == 0 ==> r == Err::<Table, LogError>(
            LogError::EmptyColumnSet,
        ),
        kept_rows(body, words(header).len()).len() > 0 ==> (r matches Ok(t) && t.columns.len()
            == words(header).len() && forall|c: int|
            0 <= c < t.columns.len() ==> (#[trigger] t.columns@[c]).data.spec_len() == kept_rows(
                body,
                words(header).len(),
            ).len()),
{
    let req = k as nat;
    let s0 = log_scan(m, req, before)->Ok_0;
    lemma_rows_width(m, req, before);
    assert(!s0.found && s0.rows.len() == 0);
    let s1 = LogScanView { phase: LogPhase::AwaitHeader, ..s0 };
    let s2 = LogScanView {
        phase: LogPhase::Collecting,
        header: words(header),
        found: true,
        ..s1
    };
    let n = words(header).len();
    let s3 = LogScanView { rows: s2.rows + kept_rows(body, n), ..s2 };
    let s4 = LogScanView { phase: LogPhase::Terminated, run: s3.run + 1, ..s3 };
    let head = seq![start, header];
    assert(scan_from(m, req, s0, head) == Some(s2)) by {
        assert(head.drop_last() =~= seq![start]);
        assert(seq![start].drop_last() =~= Seq::<Seq<char>>::empty());
        assert(log_step(m, req, s0, start) == Some(s1));
        assert(scan_from(m, req, s0, Seq::<Seq<char>>::empty()) == Some(s0));
        assert(seq![start].last() == start);
        assert(scan_from(m, req, s0, seq![start]) == Some(s1));
        assert(head.last() == header);
        assert(log_step(m, req, s1, header) == Some(s2));
    }
    lemma_scan_append(m, req, before, head);
    let p1 = before + head;
    lemma_body(m, req, s2, body);
    lemma_scan_append(m, req, p1, body);
    let p2 = p1 + body;
    assert(seq![end].drop_last() =~= Seq::<Seq<char>>::empty());
    assert(scan_from(m, req, s3, seq![end]) == Some(s4)) by {
        assert(log_step(m, req, s3, end) == Some(s4));
        assert(scan_from(m, req, s3, Seq::<Seq<char>>::empty()) == Some(s3));
    }
    lemma_scan_append(m, req, p2, seq![end]);
    let p3 = p2 + seq![end];
    lemma_after_end(m, req, s4, after);
    lemma_scan_append(m, req, p3, after);
    assert(s3.rows =~= kept_rows(body, n));
    assert(log_scan(m, req, p3 + after) == Ok::<LogScanView, Seq<char>>(s4));
    if kept_rows(body, n).len() > 0 {
        let t = r->Ok_0;
        assert(float_table(t, words(header), s4.rows));
        assert forall|c: int| 0 <= c < t.columns.len() implies (
        #[trigger] t.columns@[c]).data.spec_len() == kept_rows(body, n).len() by {
            let col = t.columns@[c];
            assert(col.data.holds(column_of(s4.rows, c)));
            if let ColumnData::Float(v) = col.data {
                assert(texts(v@).len() == v@.len());
                assert(column_of(s4.rows, c).len() == s4.rows.len());
            }
        }
    }
}

/// Reading a run beyond the blocks that the log closes fails with
/// `RunNotFound`, naming the run and suggesting the one before it.
pub proof fn lemma_run_beyond_last_block(m: MarkersView, k: u32, lines: Seq<Seq<char>>, r: Result<
    Table,
    LogError,
>)
    requires
        log_scan(m, k as nat, lines) matches Ok(s) && s.run < k,
        log_run_result(m, k, lines, r),
    ensures
        r == Err::<Table, LogError>(
            LogError::RunNotFound { requested: k, suggested: (k - 1) as u32 },
        ),
{
    lemma_rows_width(m, k as nat, lines);
}

} // verus!
