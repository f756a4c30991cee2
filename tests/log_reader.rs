use log_lammps_reader::{ColumnData, LogError, LogLammpsReader, Table};

fn lines(text: &str) -> Vec<String> {
    text.lines().map(String::from).collect()
}

fn float_column(t: &Table, c: usize) -> Vec<String> {
    match &t.columns[c].data {
        ColumnData::Float(v) => v.clone(),
        other => panic!("column {} is not a float column: {:?}", c, other),
    }
}

const TWO_RUNS: &str = "LAMMPS (29 Aug 2024)
units lj
Per MPI rank memory allocation (min/avg/max) = 2.3 | 2.3 | 2.3 Mbytes
Step Temp E_pair
0 1.0 -6.5
10 0.9 -6.4
Loop time of 0.01 on 1 procs
run 100
Per MPI rank memory allocation (min/avg/max) = 2.4 | 2.4 | 2.4 Mbytes
Step Temp E_pair
100 0.8 -6.3
WARNING: something odd
110 0.7
120 0.6 abc
130 0.5 -6.1
Loop time of 0.02 on 1 procs
Total wall time: 0:00:01
";

#[test]
fn run_zero_is_the_default() {
    let t = LogLammpsReader::new(&lines(TWO_RUNS), None).unwrap();
    assert_eq!(t.columns.len(), 3);
    assert_eq!(t.columns[0].name, "Step");
    assert_eq!(t.columns[1].name, "Temp");
    assert_eq!(t.columns[2].name, "E_pair");
    assert_eq!(float_column(&t, 0), vec!["0", "10"]);
    assert_eq!(float_column(&t, 2), vec!["-6.5", "-6.4"]);
}

#[test]
fn second_run_drops_rows_that_do_not_fit_the_header() {
    let t = LogLammpsReader::new(&lines(TWO_RUNS), Some(1)).unwrap();
    assert_eq!(t.width(), 3);
    assert_eq!(t.height(), 2);
    assert_eq!(float_column(&t, 0), vec!["100", "130"]);
    assert_eq!(float_column(&t, 1), vec!["0.8", "0.5"]);
    assert_eq!(float_column(&t, 2), vec!["-6.3", "-6.1"]);
}

#[test]
fn run_beyond_the_last_block_is_not_found() {
    let r = LogLammpsReader::new(&lines(TWO_RUNS), Some(2));
    assert_eq!(r, Err(LogError::RunNotFound { requested: 2, suggested: 1 }));
    let r = LogLammpsReader::new(&lines(TWO_RUNS), Some(7));
    assert_eq!(r, Err(LogError::RunNotFound { requested: 7, suggested: 6 }));
}

#[test]
fn log_without_blocks_suggests_run_zero() {
    let r = LogLammpsReader::new(&lines("units lj\nrun 10\n"), None);
    assert_eq!(r, Err(LogError::RunNotFound { requested: 0, suggested: 0 }));
}

#[test]
fn unsupported_style_fails_with_the_line() {
    let text = "thermo_style multi\nPer MPI rank memory allocation\nStep Temp\n0 1.0\nLoop time\n";
    let r = LogLammpsReader::new(&lines(text), None);
    assert_eq!(r, Err(LogError::UnsupportedFormat("thermo_style multi".to_string())));
    let text = "thermo_style yaml extra\n";
    let r = LogLammpsReader::new(&lines(text), Some(3));
    assert_eq!(r, Err(LogError::UnsupportedFormat("thermo_style yaml extra".to_string())));
}

#[test]
fn unsupported_style_after_the_requested_run_is_not_read() {
    let text = "Per MPI rank memory allocation\nStep Temp\n0 1.0\nLoop time\nthermo_style multi\n";
    let t = LogLammpsReader::new(&lines(text), Some(0)).unwrap();
    assert_eq!(float_column(&t, 1), vec!["1.0"]);
}

#[test]
fn custom_style_is_accepted() {
    let text = "thermo_style custom step temp\nPer MPI rank memory allocation\nStep Temp\n0 1.0\nLoop time\n";
    let t = LogLammpsReader::new(&lines(text), None).unwrap();
    assert_eq!(t.height(), 1);
}

#[test]
fn block_with_no_numeric_row_is_an_empty_column_set() {
    let text = "Per MPI rank memory allocation\nStep Temp\nnot a row\nLoop time\n";
    let r = LogLammpsReader::new(&lines(text), None);
    assert_eq!(r, Err(LogError::EmptyColumnSet));
}

#[test]
fn error_banner_ends_a_block() {
    let text = "Per MPI rank memory allocation\nStep Temp\n0 1.0\nERROR: lost atoms\n\
                Per MPI rank memory allocation\nStep Temp\n5 2.0\n";
    let t = LogLammpsReader::new(&lines(text), Some(1)).unwrap();
    assert_eq!(float_column(&t, 0), vec!["5"]);
    assert_eq!(float_column(&t, 1), vec!["2.0"]);
}

#[test]
fn unterminated_last_block_is_read() {
    let text = "Per MPI rank memory allocation\nStep Temp\n0 1.0\n1 1e-3\n";
    let t = LogLammpsReader::new(&lines(text), None).unwrap();
    assert_eq!(float_column(&t, 1), vec!["1.0", "1e-3"]);
}

#[test]
fn rows_accept_every_float_spelling() {
    let text = "Per MPI rank memory allocation\nA B C D\n1. .5 -inf NaN\n1 2 3\n+1 2e+3 infinity 4\nLoop time\n";
    let t = LogLammpsReader::new(&lines(text), None).unwrap();
    assert_eq!(t.height(), 2);
    assert_eq!(float_column(&t, 0), vec!["1.", "+1"]);
    assert_eq!(float_column(&t, 2), vec!["-inf", "infinity"]);
}

#[test]
fn row_count_is_the_number_of_numeric_lines_of_the_block() {
    let text = "Per MPI rank memory allocation\nStep Temp\n0 1\nLoop time\n\
                Per MPI rank memory allocation\nStep Temp Press\n1 2 3\n4 5 6\n7 8\n9 10 11\nLoop time\n\
                Per MPI rank memory allocation\nStep\n1\nLoop time\n";
    let t = LogLammpsReader::new(&lines(text), Some(1)).unwrap();
    assert_eq!(t.width(), 3);
    assert_eq!(t.height(), 3);
    for c in 0..3 {
        assert_eq!(t.columns[c].data.len(), 3);
    }
}

#[test]
fn prefix_lines_keep_file_order_and_case() {
    let text = "Loop time of 1\nloop time lower\n Loop time indented\nLoop time of 2\nLoop\n";
    let r = LogLammpsReader::log_starts_with(&lines(text), "Loop time");
    assert_eq!(r, vec!["Loop time of 1", "Loop time of 2"]);
}

#[test]
fn prefix_lines_with_empty_prefix_are_all_lines() {
    let text = "a\n\nb\n";
    let r = LogLammpsReader::log_starts_with(&lines(text), "");
    assert_eq!(r, vec!["a", "", "b"]);
    let r = LogLammpsReader::log_starts_with(&lines(text), "c");
    assert!(r.is_empty());
}
