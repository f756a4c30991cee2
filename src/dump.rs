//! The atom dump: per-timestep sections of a timestep, an atom count, the
//! box bounds and the atom rows, read into one table per frame and a table
//! of box bounds.

use vstd::prelude::*;
use std::collections::BTreeMap;
use vstd::string::StrSliceExecFns;
use crate::numeric::{float_text, is_float_word, is_u64_word, parse_u64, unsigned_int_value};
use crate::table::{assembly, column_kind, column_of, rows_view, Table, TableError, Values};
use crate::text::{begins_with, has_prefix, line_chars, split_words, texts, words};

verus! {

/// The marker prefixes of a dump.
#[derive(Debug, Clone)]
pub struct DumpMarkers {
    /// Its next line holds the timestep.
    pub timestep: String,
    /// Its next line holds the atom count.
    pub atom_count: String,
    /// Its next three lines hold the lo and hi bounds of x, y and z.
    pub box_bounds: String,
    /// The rest of its line names the columns; atom rows follow.
    pub atoms: String,
}

pub struct DumpMarkersView {
    pub timestep: Seq<char>,
    pub atom_count: Seq<char>,
    pub box_bounds: Seq<char>,
    pub atoms: Seq<char>,
}

impl DumpMarkers {
    pub open spec fn view(&self) -> DumpMarkersView {
        DumpMarkersView {
            timestep: self.timestep@,
            atom_count: self.atom_count@,
            box_bounds: self.box_bounds@,
            atoms: self.atoms@,
        }
    }

    /// The markers of the simulator's own dump format.
    pub fn lammps() -> (r: DumpMarkers)
        ensures
            r.view() == lammps_dump_markers(),
    {
        DumpMarkers {
            timestep: "ITEM: TIMESTEP".to_owned(),
            atom_count: "ITEM: NUMBER OF ATOMS".to_owned(),
            box_bounds: "ITEM: BOX BOUNDS".to_owned(),
            atoms: "ITEM: ATOMS".to_owned(),
        }
    }
}

pub open spec fn lammps_dump_markers() -> DumpMarkersView {
    DumpMarkersView {
        timestep: "ITEM: TIMESTEP"@,
        atom_count: "ITEM: NUMBER OF ATOMS"@,
        box_bounds: "ITEM: BOX BOUNDS"@,
        atoms: "ITEM: ATOMS"@,
    }
}

/// What the next line of the dump is.
#[derive(Debug, Clone, Copy, PartialEq, Eq, Structural)]
pub enum DumpPhase {
    /// Outside any section.
    Scanning,
    /// The timestep line.
    Timestep,
    /// The atom count line.
    AtomCount,
    /// The x bounds line.
    BoundsX,
    /// The y bounds line.
    BoundsY,
    /// The z bounds line.
    BoundsZ,
    /// An atom row, unless it is a marker.
    Rows,
}

/// One atoms section: header words and the words of each row.
pub struct BlockView {
    pub header: Seq<Seq<char>>,
    pub rows: Seq<Seq<Seq<char>>>,
}

/// What a scan has gathered.
pub struct DumpScanView {
    pub phase: DumpPhase,
    pub timesteps: Seq<Seq<char>>,
    pub counts: Seq<Seq<char>>,
    /// Three lines per frame: x, y, z.
    pub bounds: Seq<Seq<char>>,
    pub blocks: Seq<BlockView>,
}

pub open spec fn initial_dump_scan() -> DumpScanView {
    DumpScanView {
        phase: DumpPhase::Scanning,
        timesteps: seq![],
        counts: seq![],
        bounds: seq![],
        blocks: seq![],
    }
}

/// One line of the scan.
pub open spec fn dump_step(m: DumpMarkersView, s: DumpScanView, line: Seq<char>) -> DumpScanView {
    match s.phase {
        DumpPhase::Timestep => DumpScanView {
            phase: DumpPhase::Scanning,
            timesteps: s.timesteps.push(line),
            ..s
        },
        DumpPhase::AtomCount => DumpScanView {
            phase: DumpPhase::Scanning,
            counts: s.counts.push(line),
            ..s
        },
        DumpPhase::BoundsX => DumpScanView {
            phase: DumpPhase::BoundsY,
            bounds: s.bounds.push(line),
            ..s
        },
        DumpPhase::BoundsY => DumpScanView {
            phase: DumpPhase::BoundsZ,
            bounds: s.bounds.push(line),
            ..s
        },
        DumpPhase::BoundsZ => DumpScanView {
            phase: DumpPhase::Scanning,
            bounds: s.bounds.push(line),
            ..s
        },
        _ => if has_prefix(line, m.timestep) {
            DumpScanView { phase: DumpPhase::Timestep, ..s }
        } else if has_prefix(line, m.atom_count) {
            DumpScanView { phase: DumpPhase::AtomCount, ..s }
        } else if has_prefix(line, m.box_bounds) {
            DumpScanView { phase: DumpPhase::BoundsX, ..s }
        } else if has_prefix(line, m.atoms) {
            DumpScanView {
                phase: DumpPhase::Rows,
                blocks: s.blocks.push(
                    BlockView { header: words(line.skip(m.atoms.len() as int)), rows: seq![] },
                ),
                ..s
            }
        } else if s.phase == DumpPhase::Rows {
            let b = s.blocks.last();
            DumpScanView {
                blocks: s.blocks.update(
                    s.blocks.len() - 1,
                    BlockView { rows: b.rows.push(words(line)), ..b },
                ),
                ..s
            }
        } else {
            s
        },
    }
}

pub open spec fn dump_scan(m: DumpMarkersView, lines: Seq<Seq<char>>) -> DumpScanView
    decreases lines.len(),
{
    if lines.len() == 0 {
        initial_dump_scan()
    } else {
        dump_step(m, dump_scan(m, lines.drop_last()), lines.last())
    }
}

/// Why a dump could not be read.
#[derive(Debug, Clone, Copy, PartialEq, Eq, Structural)]
pub enum DumpError {
    /// The dump ends where a marker promised more lines.
    Truncated,
    /// The dump holds no atoms section, so no frame.
    EmptyTrajectory,
    /// The numbers of timestep, atom count, box bounds and atoms sections
    /// differ.
    FrameCountMismatch,
    /// The timestep of this frame is not an unsigned integer.
    BadTimestep(usize),
    /// The atom count of this frame is not an unsigned integer.
    BadAtomCount(usize),
    /// A box bounds line of this frame does not start with two floats.
    BadBounds(usize),
    /// The atom rows of this frame do not make a table.
    Rows { frame: usize, error: TableError },
}

/// The `u64` that the last word of `line` reads as.
pub open spec fn last_word_u64(line: Seq<char>) -> Option<u64> {
    let ws = words(line);
    if ws.len() > 0 && is_u64_word(ws.last()) {
        Some(unsigned_int_value(ws.last()) as u64)
    } else {
        None
    }
}

/// The first two words of `line`, where both are floats.
pub open spec fn bounds_pair(line: Seq<char>) -> Option<(Seq<char>, Seq<char>)> {
    let ws = words(line);
    if ws.len() >= 2 && float_text(ws[0]) && float_text(ws[1]) {
        Some((ws[0], ws[1]))
    } else {
        None
    }
}

/// The sections gathered form whole frames.
pub open spec fn frames_complete(s: DumpScanView) -> bool {
    &&& s.timesteps.len() == s.blocks.len()
    &&& s.counts.len() == s.blocks.len()
    &&& s.bounds.len() == 3 * s.blocks.len()
}

/// Frame `i` has readable fields.
pub open spec fn fields_ok(s: DumpScanView, i: int) -> bool {
    &&& last_word_u64(s.timesteps[i]) is Some
    &&& last_word_u64(s.counts[i]) is Some
    &&& bounds_pair(s.bounds[3 * i]) is Some
    &&& bounds_pair(s.bounds[3 * i + 1]) is Some
    &&& bounds_pair(s.bounds[3 * i + 2]) is Some
}

/// Frame `i` reads whole.
pub open spec fn frame_ok(s: DumpScanView, i: int) -> bool {
    fields_ok(s, i) && exists|t: Table| assembly(s.blocks[i].header, s.blocks[i].rows, Ok(t))
}

/// Frame `i` fails with `e`: its first unreadable field, else its rows.
pub open spec fn frame_fails_with(s: DumpScanView, i: int, e: DumpError) -> bool {
    if last_word_u64(s.timesteps[i]) is None {
        e == DumpError::BadTimestep(i as usize)
    } else if last_word_u64(s.counts[i]) is None {
        e == DumpError::BadAtomCount(i as usize)
    } else if bounds_pair(s.bounds[3 * i]) is None || bounds_pair(s.bounds[3 * i + 1]) is None
        || bounds_pair(s.bounds[3 * i + 2]) is None {
        e == DumpError::BadBounds(i as usize)
    } else {
        e matches DumpError::Rows { frame, error } && frame == i && assembly(
            s.blocks[i].header,
            s.blocks[i].rows,
            Err(error),
        )
    }
}

/// The box bounds table: one row per frame, in the order met.
#[derive(Debug, Clone, PartialEq)]
pub struct BoxState {
    pub timestep: Vec<u64>,
    pub atoms: Vec<u64>,
    pub xlo: Vec<String>,
    pub xhi: Vec<String>,
    pub ylo: Vec<String>,
    pub yhi: Vec<String>,
    pub zlo: Vec<String>,
    pub zhi: Vec<String>,
}

impl BoxState {
    pub open spec fn rows(&self) -> nat {
        self.timestep@.len()
    }

    /// All columns have one value per frame.
    pub open spec fn wf(&self) -> bool {
        &&& self.atoms@.len() == self.rows()
        &&& self.xlo@.len() == self.rows()
        &&& self.xhi@.len() == self.rows()
        &&& self.ylo@.len() == self.rows()
        &&& self.yhi@.len() == self.rows()
        &&& self.zlo@.len() == self.rows()
        &&& self.zhi@.len() == self.rows()
    }

    pub fn new() -> (r: BoxState)
        ensures
            r.wf(),
            r.rows() == 0,
    {
        BoxState {
            timestep: Vec::new(),
            atoms: Vec::new(),
            xlo: Vec::new(),
            xhi: Vec::new(),
            ylo: Vec::new(),
            yhi: Vec::new(),
            zlo: Vec::new(),
            zhi: Vec::new(),
        }
    }

    /// Row `i` holds frame `i` of the scan.
    pub open spec fn holds_frame(&self, s: DumpScanView, i: int) -> bool {
        &&& Some(self.timestep@[i]) == last_word_u64(s.timesteps[i])
        &&& Some(self.atoms@[i]) == last_word_u64(s.counts[i])
        &&& bounds_pair(s.bounds[3 * i]) == Some((self.xlo@[i]@, self.xhi@[i]@))
        &&& bounds_pair(s.bounds[3 * i + 1]) == Some((self.ylo@[i]@, self.yhi@[i]@))
        &&& bounds_pair(s.bounds[3 * i + 2]) == Some((self.zlo@[i]@, self.zhi@[i]@))
    }
}

/// What the gathered sections give: the frames' timesteps, tables and box
/// bounds, or the error of the first frame that cannot be read.
pub open spec fn frames_result(
    s: DumpScanView,
    r: Result<(Seq<u64>, Seq<Table>, BoxState), DumpError>,
) -> bool {
    match r {
        Ok((ts, tabs, st)) => {
            &&& ts.len() == s.blocks.len()
            &&& tabs.len() == s.blocks.len()
            &&& st.wf()
            &&& st.rows() == s.blocks.len()
            &&& st.timestep@ == ts
            &&& forall|i: int|
                0 <= i < s.blocks.len() ==> {
                    &&& #[trigger] st.holds_frame(s, i)
                    &&& assembly(s.blocks[i].header, s.blocks[i].rows, Ok(tabs[i]))
                }
        },
        Err(e) => exists|i: int|
            0 <= i < s.blocks.len() && (forall|j: int| 0 <= j < i ==> #[trigger] frame_ok(s, j))
                && frame_fails_with(s, i, e),
    }
}

/// The box bounds table of a dump whose frames all read.
pub open spec fn state_result(m: DumpMarkersView, lines: Seq<Seq<char>>, st: BoxState) -> bool {
    let s = dump_scan(m, lines);
    &&& s.phase == DumpPhase::Scanning || s.phase == DumpPhase::Rows
    &&& s.blocks.len() > 0
    &&& frames_complete(s)
    &&& st.wf()
    &&& st.rows() == s.blocks.len()
    &&& forall|i: int| 0 <= i < s.blocks.len() ==> #[trigger] st.holds_frame(s, i) && frame_ok(s, i)
}

/// What reading `lines` gives.
pub open spec fn dump_result(
    m: DumpMarkersView,
    lines: Seq<Seq<char>>,
    r: Result<(Seq<u64>, Seq<Table>, BoxState), DumpError>,
) -> bool {
    let s = dump_scan(m, lines);
    if s.phase != DumpPhase::Scanning && s.phase != DumpPhase::Rows {
        r == Err::<(Seq<u64>, Seq<Table>, BoxState), DumpError>(DumpError::Truncated)
    } else if s.blocks.len() == 0 {
        r == Err::<(Seq<u64>, Seq<Table>, BoxState), DumpError>(DumpError::EmptyTrajectory)
    } else if !frames_complete(s) {
        r == Err::<(Seq<u64>, Seq<Table>, BoxState), DumpError>(DumpError::FrameCountMismatch)
    } else {
        frames_result(s, r)
    }
}

/// Timestep to table for timesteps and tables paired in order, a later
/// frame replacing an earlier one of the same timestep.
pub open spec fn dump_map(ts: Seq<u64>, tabs: Seq<Seq<(Seq<char>, Values)>>) -> Map<
    u64,
    Seq<(Seq<char>, Values)>,
>
    decreases ts.len(),
{
    if ts.len() == 0 || ts.len() != tabs.len() {
        Map::empty()
    } else {
        dump_map(ts.drop_last(), tabs.drop_last()).insert(ts.last(), tabs.last())
    }
}

struct RawBlock {
    header: Vec<String>,
    rows: Vec<Vec<String>>,
}

impl RawBlock {
    spec fn view(&self) -> BlockView {
        BlockView { header: texts(self.header@), rows: rows_view(self.rows@) }
    }
}

struct DumpMarkerChars {
    timestep: Vec<char>,
    atom_count: Vec<char>,
    box_bounds: Vec<char>,
    atoms: Vec<char>,
}

impl DumpMarkerChars {
    spec fn view(&self) -> DumpMarkersView {
        DumpMarkersView {
            timestep: self.timestep@,
            atom_count: self.atom_count@,
            box_bounds: self.box_bounds@,
            atoms: self.atoms@,
        }
    }
}

struct DumpScan {
    phase: DumpPhase,
    timesteps: Vec<String>,
    counts: Vec<String>,
    bounds: Vec<String>,
    blocks: Vec<RawBlock>,
}

impl DumpScan {
    spec fn view(&self) -> DumpScanView {
        DumpScanView {
            phase: self.phase,
            timesteps: texts(self.timesteps@),
            counts: texts(self.counts@),
            bounds: texts(self.bounds@),
            blocks: self.blocks@.map_values(|b: RawBlock| b.view()),
        }
    }

    /// In the rows phase there is a block to add rows to.
    spec fn wf(&self) -> bool {
        self.phase == DumpPhase::Rows ==> self.blocks.len() > 0
    }

    fn new() -> (r: DumpScan)
        ensures
            r.view() == initial_dump_scan(),
            r.wf(),
    {
        let r = DumpScan {
            phase: DumpPhase::Scanning,
            timesteps: Vec::new(),
            counts: Vec::new(),
            bounds: Vec::new(),
            blocks: Vec::new(),
        };
        assert(r.view().timesteps =~= Seq::<Seq<char>>::empty());
        assert(r.view().counts =~= Seq::<Seq<char>>::empty());
        assert(r.view().bounds =~= Seq::<Seq<char>>::empty());
        assert(r.view().blocks =~= Seq::<BlockView>::empty());
        r
    }

    fn step(&mut self, m: &DumpMarkerChars, line: &String)
        requires
            old(self).wf(),
        ensures
            final(self).wf(),
            final(self).view() == dump_step(m.view(), old(self).view(), line@),
    {
        let ghost s = self.view();
        match self.phase {
            DumpPhase::Timestep => {
                self.timesteps.push(line.clone());
                self.phase = DumpPhase::Scanning;
                assert(self.view().timesteps =~= s.timesteps.push(line@));
            },
            DumpPhase::AtomCount => {
                self.counts.push(line.clone());
                self.phase = DumpPhase::Scanning;
                assert(self.view().counts =~= s.counts.push(line@));
            },
            DumpPhase::BoundsX => {
                self.bounds.push(line.clone());
                self.phase = DumpPhase::BoundsY;
                assert(self.view().bounds =~= s.bounds.push(line@));
            },
            DumpPhase::BoundsY => {
                self.bounds.push(line.clone());
                self.phase = DumpPhase::BoundsZ;
                assert(self.view().bounds =~= s.bounds.push(line@));
            },
            DumpPhase::BoundsZ => {
                self.bounds.push(line.clone());
                self.phase = DumpPhase::Scanning;
                assert(self.view().bounds =~= s.bounds.push(line@));
            },
            _ => {
                let cs = line_chars(line.as_str());
                if begins_with(&cs, &m.timestep) {
                    self.phase = DumpPhase::Timestep;
                } else if begins_with(&cs, &m.atom_count) {
                    self.phase = DumpPhase::AtomCount;
                } else if begins_with(&cs, &m.box_bounds) {
                    self.phase = DumpPhase::BoundsX;
                } else if begins_with(&cs, &m.atoms) {
                    let rest = line.as_str().substring_char(m.atoms.len(), cs.len());
                    assert(rest@ == line@.skip(m.atoms.len() as int));
                    let header = split_words(rest);
                    let rows: Vec<Vec<String>> = Vec::new();
                    let b = RawBlock { header, rows };
                    assert(b.view().rows =~= Seq::<Seq<Seq<char>>>::empty());
                    self.blocks.push(b);
                    self.phase = DumpPhase::Rows;
                    assert(self.view().blocks =~= s.blocks.push(b.view()));
                } else if self.phase == DumpPhase::Rows {
                    let ws = split_words(line.as_str());
                    let mut b = self.blocks.pop().unwrap();
                    let ghost bv = b.view();
                    b.rows.push(ws);
                    assert(b.view().rows =~= bv.rows.push(texts(ws@)));
                    self.blocks.push(b);
                    assert(self.view().blocks =~= s.blocks.update(
                        s.blocks.len() - 1,
                        BlockView { rows: bv.rows.push(words(line@)), ..bv },
                    ));
                }
            },
        }
    }
}

/// The `u64` that the last word of a line reads as.
fn read_last_u64(line: &String) -> (r: Option<u64>)
    ensures
        r == last_word_u64(line@),
{
    let ws = split_words(line.as_str());
    if ws.len() == 0 {
        return None;
    }
    let last = &ws[ws.len() - 1];
    assert(texts(ws@).last() == last@);
    parse_u64(last.as_str())
}

/// The first two words of a line, where both read as floats.
fn read_bounds(line: &String) -> (r: Option<(String, String)>)
    ensures
        match r {
            Some((lo, hi)) => bounds_pair(line@) == Some((lo@, hi@)),
            None => bounds_pair(line@) is None,
        },
{
    let ws = split_words(line.as_str());
    if ws.len() < 2 {
        return None;
    }
    assert(texts(ws@)[0] == ws@[0]@);
    assert(texts(ws@)[1] == ws@[1]@);
    if is_float_word(ws[0].as_str()) && is_float_word(ws[1].as_str()) {
        Some((ws[0].clone(), ws[1].clone()))
    } else {
        None
    }
}

/// Reads the frames out of complete sections.
fn read_frames(scan: &DumpScan) -> (r: Result<(Vec<u64>, Vec<Table>, BoxState), DumpError>)
    requires
        frames_complete(scan.view()),
    ensures
        frames_result(
            scan.view(),
            match r {
                Ok((ts, tabs, st)) => Ok((ts@, tabs@, st)),
                Err(e) => Err(e),
            },
        ),
{
        let ghost s = scan.view();
        let n = scan.blocks.len();
        assert(scan.bounds@.len() == s.bounds.len());
        let mut timesteps: Vec<u64> = Vec::new();
        let mut tables: Vec<Table> = Vec::new();
        let mut st = BoxState::new();
        let mut f: usize = 0;
        while f < n
            invariant
                s == scan.view(),
                frames_complete(s),
                n == s.blocks.len(),
                scan.bounds@.len() == 3 * n,
                f <= n,
                timesteps@.len() == f,
                tables@.len() == f,
                st.wf(),
                st.rows() == f,
                st.timestep@ == timesteps@,
                forall|j: int|
                    0 <= j < f ==> {
                        &&& #[trigger] st.holds_frame(s, j)
                        &&& assembly(s.blocks[j].header, s.blocks[j].rows, Ok(tables@[j]))
                    },
                forall|j: int| 0 <= j < f ==> #[trigger] frame_ok(s, j),
            decreases n - f,
        {
            assert(s.timesteps[f as int] == scan.timesteps@[f as int]@);
            assert(s.counts[f as int] == scan.counts@[f as int]@);
            assert(s.bounds[3 * f] == scan.bounds@[3 * f as int]@);
            assert(s.bounds[3 * f + 1] == scan.bounds@[3 * f + 1]@);
            assert(s.bounds[3 * f + 2] == scan.bounds@[3 * f + 2]@);
            assert(s.blocks[f as int] == scan.blocks@[f as int].view());
            let ts = match read_last_u64(&scan.timesteps[f]) {
                Some(v) => v,
                None => {
                    assert(frame_fails_with(s, f as int, DumpError::BadTimestep(f)));
                    return Err(DumpError::BadTimestep(f));
                },
            };
            let count = match read_last_u64(&scan.counts[f]) {
                Some(v) => v,
                None => {
                    assert(frame_fails_with(s, f as int, DumpError::BadAtomCount(f)));
                    return Err(DumpError::BadAtomCount(f));
                },
            };
            assert(3 * f + 2 < scan.bounds.len());
            let k: usize = 3 * f;
            let bx = read_bounds(&scan.bounds[k]);
            let by = read_bounds(&scan.bounds[k + 1]);
            let bz = read_bounds(&scan.bounds[k + 2]);
            let ((xlo, xhi), (ylo, yhi), (zlo, zhi)) = match (bx, by, bz) {
                (Some(x), Some(y), Some(z)) => (x, y, z),
                _ => {
                    assert(frame_fails_with(s, f as int, DumpError::BadBounds(f)));
                    return Err(DumpError::BadBounds(f));
                },
            };
            let block = &scan.blocks[f];
            let table = match Table::assemble(&block.header, &block.rows) {
                Ok(t) => t,
                Err(error) => {
                    assert(frame_fails_with(s, f as int, DumpError::Rows { frame: f, error }));
                    return Err(DumpError::Rows { frame: f, error });
                },
            };
            assert(assembly(s.blocks[f as int].header, s.blocks[f as int].rows, Ok(table)));
            assert(frame_ok(s, f as int));
            let ghost old_tables = tables@;
            let ghost old_st = st;
            timesteps.push(ts);
            tables.push(table);
            st.timestep.push(ts);
            st.atoms.push(count);
            st.xlo.push(xlo);
            st.xhi.push(xhi);
            st.ylo.push(ylo);
            st.yhi.push(yhi);
            st.zlo.push(zlo);
            st.zhi.push(zhi);
            assert(st.holds_frame(s, f as int));
            assert forall|j: int| 0 <= j < f implies #[trigger] st.holds_frame(s, j) && assembly(
                s.blocks[j].header,
                s.blocks[j].rows,
                Ok(tables@[j]),
            ) by {
                assert(old_st.holds_frame(s, j));
                assert(tables@[j] == old_tables[j]);
            }
            f += 1;
        }
        Ok((timesteps, tables, st))
}

/// Reads dumps under a set of markers, keeping the frames in the order met.
pub struct DumpLammpsReader {
    pub markers: DumpMarkers,
    pub timesteps: Vec<u64>,
    pub trajectories: Vec<Table>,
    pub box_state: BoxState,
}

impl DumpLammpsReader {
    /// A reader with no frames yet.
    pub fn new(markers: DumpMarkers) -> (r: DumpLammpsReader)
        ensures
            r.markers.view() == markers.view(),
            r.timesteps@.len() == 0,
            r.trajectories@.len() == 0,
            r.box_state.wf(),
            r.box_state.rows() == 0,
    {
        DumpLammpsReader {
            markers,
            timesteps: Vec::new(),
            trajectories: Vec::new(),
            box_state: BoxState::new(),
        }
    }

    /// Reads a dump given as its lines into the frames, tables and box
    /// bounds of this reader; on an error the reader is left as it was.
    pub fn parse_lammps_dump(&mut self, lines: &Vec<String>) -> (r: Result<(), DumpError>)
        ensures
            final(self).markers == old(self).markers,
            r is Ok ==> dump_result(
                old(self).markers.view(),
                texts(lines@),
                Ok((final(self).timesteps@, final(self).trajectories@, final(self).box_state)),
            ),
            r matches Err(e) ==> dump_result(old(self).markers.view(), texts(lines@), Err(e)),
            r is Err ==> *final(self) == *old(self),
    {
        let m = DumpMarkerChars {
            timestep: line_chars(self.markers.timestep.as_str()),
            atom_count: line_chars(self.markers.atom_count.as_str()),
            box_bounds: line_chars(self.markers.box_bounds.as_str()),
            atoms: line_chars(self.markers.atoms.as_str()),
        };
        let ghost mv = m.view();
        let mut scan = DumpScan::new();
        let mut i: usize = 0;
        while i < lines.len()
            invariant
                mv == m.view(),
                mv == self.markers.view(),
                i <= lines.len(),
                scan.wf(),
                scan.view() == dump_scan(mv, texts(lines@.take(i as int))),
            decreases lines.len() - i,
        {
            assert(texts(lines@.take(i + 1)).drop_last() =~= texts(lines@.take(i as int)));
            assert(texts(lines@.take(i + 1)).last() == lines@[i as int]@);
            scan.step(&m, &lines[i]);
            i += 1;
        }
        assert(lines@.take(lines.len() as int) =~= lines@);
        let ghost s = scan.view();
        if scan.phase != DumpPhase::Scanning && scan.phase != DumpPhase::Rows {
            return Err(DumpError::Truncated);
        }
        let n = scan.blocks.len();
        if n == 0 {
            return Err(DumpError::EmptyTrajectory);
        }
        if scan.timesteps.len() != n || scan.counts.len() != n || scan.bounds.len() / 3 != n
            || scan.bounds.len() % 3 != 0 {
            return Err(DumpError::FrameCountMismatch);
        }
        let (timesteps, tables, st) = match read_frames(&scan) {
            Ok(x) => x,
            Err(e) => {
                return Err(e);
            },
        };
        self.timesteps = timesteps;
        self.trajectories = tables;
        self.box_state = st;
        Ok(())
    }

    /// Timestep to table over the frames read, pairing timesteps and tables
    /// in order as far as both go; a later frame replaces an earlier one of
    /// the same timestep.
    pub fn get_dump_map(&self) -> (r: BTreeMap<u64, Table>)
        ensures
            ({
                let n = if self.timesteps@.len() <= self.trajectories@.len() {
                    self.timesteps@.len()
                } else {
                    self.trajectories@.len()
                };
                r@.map_values(|t: Table| t.view()) == dump_map(
                    self.timesteps@.take(n as int),
                    self.trajectories@.map_values(|t: Table| t.view()).take(n as int),
                )
            }),
    {
        let n = if self.timesteps.len() <= self.trajectories.len() {
            self.timesteps.len()
        } else {
            self.trajectories.len()
        };
        let mut map: BTreeMap<u64, Table> = BTreeMap::new();
        let mut i: usize = 0;
        while i < n
            invariant
                n <= self.timesteps.len(),
                n <= self.trajectories.len(),
                i <= n,
                map@.map_values(|t: Table| t.view()) == dump_map(
                    self.timesteps@.take(i as int),
                    self.trajectories@.map_values(|t: Table| t.view()).take(i as int),
                ),
            decreases n - i,
        {
            let t = self.trajectories[i].copy();
            let ghost before = map@;
            map.insert(self.timesteps[i], t);
            proof {
                let tv = self.trajectories@.map_values(|t: Table| t.view());
                assert(self.timesteps@.take(i + 1).drop_last() =~= self.timesteps@.take(i as int));
                assert(tv.take(i + 1).drop_last() =~= tv.take(i as int));
                assert(map@.map_values(|t: Table| t.view()) =~= before.map_values(
                    |t: Table| t.view(),
                ).insert(self.timesteps@[i as int], t.view()));
            }
            i += 1;
        }
        map
    }

    /// Reads a dump given as its lines into a map from timestep to table.
    pub fn parse(lines: &Vec<String>) -> (r: Result<BTreeMap<u64, Table>, DumpError>)
        ensures
            match r {
                Ok(map) => exists|ts: Seq<u64>, tabs: Seq<Table>, st: BoxState|
                    dump_result(lammps_dump_markers(), texts(lines@), Ok((ts, tabs, st)))
                        && map@.map_values(|t: Table| t.view()) == dump_map(
                        ts,
                        tabs.map_values(|t: Table| t.view()),
                    ),
                Err(e) => dump_result(lammps_dump_markers(), texts(lines@), Err(e)),
            },
    {
        let mut system = DumpLammpsReader::new(DumpMarkers::lammps());
        match system.parse_lammps_dump(lines) {
            Ok(()) => {
                let map = system.get_dump_map();
                let ghost n = system.timesteps@.len();
                assert(system.timesteps@.take(n as int) =~= system.timesteps@);
                assert(system.trajectories@.map_values(|t: Table| t.view()).take(n as int)
                    =~= system.trajectories@.map_values(|t: Table| t.view()));
                Ok(map)
            },
            Err(e) => Err(e),
        }
    }

    /// Reads a dump given as its lines and gives its box bounds table.
    pub fn parse_state(lines: &Vec<String>) -> (r: Result<BoxState, DumpError>)
        ensures
            r matches Ok(st) ==> state_result(lammps_dump_markers(), texts(lines@), st),
            r matches Err(e) ==> dump_result(lammps_dump_markers(), texts(lines@), Err(e)),
    {
        let mut system = DumpLammpsReader::new(DumpMarkers::lammps());
        assert(system.markers.view() == lammps_dump_markers());
        match system.parse_lammps_dump(lines) {
            Ok(()) => {
                let st = system.box_state;
                proof {
                    let sc = dump_scan(lammps_dump_markers(), texts(lines@));
                    assert forall|i: int| 0 <= i < sc.blocks.len() implies #[trigger] frame_ok(sc, i) by {
                        assert(st.holds_frame(sc, i));
                        assert(assembly(sc.blocks[i].header, sc.blocks[i].rows, Ok(system.trajectories@[i])));
                    }
                }
                Ok(st)
            },
            Err(e) => {
                assert(dump_result(lammps_dump_markers(), texts(lines@), Err(e)));
                Err(e)
            },
        }
    }
}

/// Whatever dump reads whole, each column of each frame's table has the
/// one type that its words as a whole allow: integer if every word is one,
/// else float if every word is one, else text; never a type per row.
pub proof fn lemma_dump_columns_typed_whole(
    m: DumpMarkersView,
    lines: Seq<Seq<char>>,
    ts: Seq<u64>,
    tabs: Seq<Table>,
    st: BoxState,
)
    requires
        dump_result(m, lines, Ok((ts, tabs, st))),
    ensures
        tabs.len() == dump_scan(m, lines).blocks.len() > 0,
        forall|i: int, c: int|
            0 <= i < tabs.len() && 0 <= c < dump_scan(m, lines).blocks[i].header.len() ==> {
                let b = dump_scan(m, lines).blocks[i];
                let col = (#[trigger] tabs[i].columns@[c]);
                &&& col.name@ == b.header[c]
                &&& col.data.kind() == column_kind(column_of(b.rows, c))
                &&& col.data.holds(column_of(b.rows, c))
            },
{
    let s = dump_scan(m, lines);
    assert forall|i: int, c: int|
        0 <= i < tabs.len() && 0 <= c < s.blocks[i].header.len() implies {
            let b = s.blocks[i];
            let col = (#[trigger] tabs[i].columns@[c]);
            &&& col.name@ == b.header[c]
            &&& col.data.kind() == column_kind(column_of(b.rows, c))
            &&& col.data.holds(column_of(b.rows, c))
        } by {
        assert(st.holds_frame(s, i));
        assert(assembly(s.blocks[i].header, s.blocks[i].rows, Ok(tabs[i])));
    }
}

} // verus!
