use log_lammps_reader::{
    join_ids, msd_pairs, ColumnData, ColumnError, DumpError, DumpLammpsReader, DumpMarkers,
    TableError,
};

fn lines(text: &str) -> Vec<String> {
    text.lines().map(String::from).collect()
}

fn strings(v: &[&str]) -> Vec<String> {
    v.iter().map(|s| s.to_string()).collect()
}

const TWO_FRAMES: &str = "ITEM: TIMESTEP
0
ITEM: NUMBER OF ATOMS
2
ITEM: BOX BOUNDS pp pp pp
0.0 1.0
0.0 2.0
-1.0 1.0
ITEM: ATOMS id type x y z
1 1 0.9 0.5 0.0
2 1 0.2 1.5 0.5
ITEM: TIMESTEP
100
ITEM: NUMBER OF ATOMS
2
ITEM: BOX BOUNDS pp pp pp
0.0 1.0
0.0 2.0
-1.0 1.0
ITEM: ATOMS id type x y z
2 1 0.25 1.5 0.5
1 1 0.1 0.5 0.0
";

#[test]
fn frames_become_tables_keyed_by_timestep() {
    let map = DumpLammpsReader::parse(&lines(TWO_FRAMES)).unwrap();
    let keys: Vec<u64> = map.keys().cloned().collect();
    assert_eq!(keys, vec![0, 100]);
    let t = &map[&100];
    let names: Vec<&str> = t.columns.iter().map(|c| c.name.as_str()).collect();
    assert_eq!(names, vec!["id", "type", "x", "y", "z"]);
    assert_eq!(t.columns[0].data, ColumnData::Integer(vec![2, 1]));
    assert_eq!(t.columns[2].data, ColumnData::Float(strings(&["0.25", "0.1"])));
    assert_eq!(map[&0].columns[2].data, ColumnData::Float(strings(&["0.9", "0.2"])));
}

#[test]
fn box_state_has_one_row_per_frame() {
    let st = DumpLammpsReader::parse_state(&lines(TWO_FRAMES)).unwrap();
    assert_eq!(st.timestep, vec![0, 100]);
    assert_eq!(st.atoms, vec![2, 2]);
    assert_eq!(st.xlo, strings(&["0.0", "0.0"]));
    assert_eq!(st.yhi, strings(&["2.0", "2.0"]));
    assert_eq!(st.zlo, strings(&["-1.0", "-1.0"]));
}

#[test]
fn reader_keeps_frames_in_the_order_met() {
    let text = TWO_FRAMES.replacen("TIMESTEP\n0\n", "TIMESTEP\n500\n", 1);
    let mut reader = DumpLammpsReader::new(DumpMarkers::lammps());
    reader.parse_lammps_dump(&lines(&text)).unwrap();
    assert_eq!(reader.timesteps, vec![500, 100]);
    assert_eq!(reader.trajectories.len(), 2);
    let keys: Vec<u64> = reader.get_dump_map().keys().cloned().collect();
    assert_eq!(keys, vec![100, 500]);
}

#[test]
fn later_frame_of_a_timestep_replaces_the_earlier() {
    let text = TWO_FRAMES.replacen("TIMESTEP\n100\n", "TIMESTEP\n0\n", 1);
    let map = DumpLammpsReader::parse(&lines(&text)).unwrap();
    assert_eq!(map.len(), 1);
    assert_eq!(map[&0].columns[0].data, ColumnData::Integer(vec![2, 1]));
}

#[test]
fn atom_count_is_not_checked_against_rows() {
    let text = TWO_FRAMES.replacen("ATOMS\n2\n", "ATOMS\n5\n", 1);
    let st = DumpLammpsReader::parse_state(&lines(&text)).unwrap();
    assert_eq!(st.atoms, vec![5, 2]);
}

#[test]
fn dump_without_frames_is_an_empty_trajectory() {
    assert_eq!(DumpLammpsReader::parse(&Vec::new()), Err(DumpError::EmptyTrajectory));
    let text = "ITEM: TIMESTEP\n0\nITEM: NUMBER OF ATOMS\n1\n";
    assert_eq!(DumpLammpsReader::parse_state(&lines(text)), Err(DumpError::EmptyTrajectory));
    let mut reader = DumpLammpsReader::new(DumpMarkers::lammps());
    assert_eq!(reader.parse_lammps_dump(&lines("no markers here\n")), Err(DumpError::EmptyTrajectory));
    assert!(reader.timesteps.is_empty());
    assert!(reader.trajectories.is_empty());
}

#[test]
fn dump_cut_after_a_marker_is_truncated() {
    let r = DumpLammpsReader::parse(&lines("ITEM: TIMESTEP\n0\nITEM: BOX BOUNDS pp pp pp\n0 1\n"));
    assert_eq!(r, Err(DumpError::Truncated));
}

#[test]
fn missing_section_is_a_frame_count_mismatch() {
    let text = "ITEM: TIMESTEP\n0\nITEM: ATOMS id x\n1 0.5\n";
    assert_eq!(DumpLammpsReader::parse(&lines(text)), Err(DumpError::FrameCountMismatch));
}

#[test]
fn bad_fields_name_their_frame() {
    let text = TWO_FRAMES.replacen("TIMESTEP\n100\n", "TIMESTEP\n-100\n", 1);
    assert_eq!(DumpLammpsReader::parse(&lines(&text)), Err(DumpError::BadTimestep(1)));
    let text = TWO_FRAMES.replacen("ATOMS\n2\n", "ATOMS\ntwo\n", 1);
    assert_eq!(DumpLammpsReader::parse(&lines(&text)), Err(DumpError::BadAtomCount(0)));
    let text = TWO_FRAMES.replacen("0.0 2.0\n", "0.0\n", 1);
    assert_eq!(DumpLammpsReader::parse(&lines(&text)), Err(DumpError::BadBounds(0)));
}

#[test]
fn short_atom_row_is_a_row_error() {
    let text = TWO_FRAMES.replacen("1 1 0.1 0.5 0.0", "1 1 0.1", 1);
    assert_eq!(
        DumpLammpsReader::parse(&lines(&text)),
        Err(DumpError::Rows { frame: 1, error: TableError::RowWidth(1) })
    );
}

#[test]
fn frame_without_rows_is_an_empty_column_set() {
    let text = "ITEM: TIMESTEP\n7\nITEM: NUMBER OF ATOMS\n0\nITEM: BOX BOUNDS pp pp pp\n0 1\n0 1\n0 1\nITEM: ATOMS id x\n";
    assert_eq!(
        DumpLammpsReader::parse(&lines(text)),
        Err(DumpError::Rows { frame: 0, error: TableError::EmptyColumnSet })
    );
}

#[test]
fn timestep_is_the_last_word_of_its_line() {
    let text = TWO_FRAMES.replacen("TIMESTEP\n100\n", "TIMESTEP\n step  +100 \n", 1);
    let st = DumpLammpsReader::parse_state(&lines(&text)).unwrap();
    assert_eq!(st.timestep, vec![0, 100]);
}

#[test]
fn join_pairs_rows_by_id_not_position() {
    let map = DumpLammpsReader::parse(&lines(TWO_FRAMES)).unwrap();
    let pairs = msd_pairs(&map[&0], &map[&100], "id").unwrap();
    assert_eq!(pairs, vec![(0, 1), (1, 0)]);
}

#[test]
fn join_keeps_every_match_and_drops_unmatched() {
    assert_eq!(join_ids(&vec![5, 6, 5], &vec![5, 7, 6]), vec![(0, 0), (0, 2), (2, 1)]);
    assert!(join_ids(&vec![1], &vec![2]).is_empty());
}

#[test]
fn join_needs_integer_id_columns() {
    let map = DumpLammpsReader::parse(&lines(TWO_FRAMES)).unwrap();
    assert_eq!(msd_pairs(&map[&0], &map[&100], "atom"), Err(ColumnError::NotFound));
    assert_eq!(msd_pairs(&map[&0], &map[&100], "x"), Err(ColumnError::NotInteger));
}
