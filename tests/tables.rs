use log_lammps_reader::{
    column_index, is_float_word, split_words, Column, ColumnData, ColumnError, Table, TableError,
};

fn strings(v: &[&str]) -> Vec<String> {
    v.iter().map(|s| s.to_string()).collect()
}

fn rows(v: &[&[&str]]) -> Vec<Vec<String>> {
    v.iter().map(|r| strings(r)).collect()
}

#[test]
fn inference_is_per_column() {
    let header = strings(&["a", "b", "c"]);
    let t = Table::assemble(&header, &rows(&[&["1", "1", "1"], &["2", "2.5", "a"], &["3", "3", "3"]])).unwrap();
    assert_eq!(t.columns[0].data, ColumnData::Integer(vec![1, 2, 3]));
    assert_eq!(t.columns[1].data, ColumnData::Float(strings(&["1", "2.5", "3"])));
    assert_eq!(t.columns[2].data, ColumnData::Text(strings(&["1", "a", "3"])));
}

#[test]
fn integer_column_of_three() {
    let t = Table::assemble(&strings(&["n"]), &rows(&[&["1"], &["2"], &["3"]])).unwrap();
    assert_eq!(t.columns[0].data, ColumnData::Integer(vec![1, 2, 3]));
}

#[test]
fn one_float_word_makes_a_float_column() {
    let t = Table::assemble(&strings(&["n"]), &rows(&[&["1"], &["2.5"]])).unwrap();
    assert_eq!(t.columns[0].data, ColumnData::Float(strings(&["1", "2.5"])));
}

#[test]
fn one_text_word_makes_a_text_column() {
    let t = Table::assemble(&strings(&["n"]), &rows(&[&["1"], &["a"]])).unwrap();
    assert_eq!(t.columns[0].data, ColumnData::Text(strings(&["1", "a"])));
}

#[test]
fn integers_are_read_with_sign_and_range() {
    let t = Table::assemble(&strings(&["n"]), &rows(&[&["-7"], &["+8"], &["9223372036854775807"]])).unwrap();
    assert_eq!(t.columns[0].data, ColumnData::Integer(vec![-7, 8, i64::MAX]));
    let t = Table::assemble(&strings(&["n"]), &rows(&[&["1"], &["9223372036854775808"]])).unwrap();
    assert_eq!(t.columns[0].data, ColumnData::Float(strings(&["1", "9223372036854775808"])));
}

#[test]
fn no_rows_is_an_empty_column_set() {
    let r = Table::assemble(&strings(&["a"]), &Vec::new());
    assert_eq!(r, Err(TableError::EmptyColumnSet));
}

#[test]
fn first_row_of_the_wrong_width_is_named() {
    let r = Table::assemble(&strings(&["a", "b"]), &rows(&[&["1", "2"], &["3"], &["4", "5", "6"]]));
    assert_eq!(r, Err(TableError::RowWidth(1)));
}

#[test]
fn columns_keep_header_order_and_names() {
    let t = Table::assemble(&strings(&["z", "a", "m"]), &rows(&[&["x", "y", "w"]])).unwrap();
    let names: Vec<&str> = t.columns.iter().map(|c| c.name.as_str()).collect();
    assert_eq!(names, vec!["z", "a", "m"]);
    assert_eq!(t.width(), 3);
    assert_eq!(t.height(), 1);
}

#[test]
fn float_words_follow_the_grammar() {
    for w in ["1", "1.", ".5", "-1.5", "+2", "1e5", "1E-5", "2.5e+10", "inf", "-Inf", "INFINITY", "nan", "+NaN", "007"] {
        assert!(is_float_word(w), "{} should read as a float", w);
    }
    for w in ["", ".", "e5", "1e", "1e+", "+", "-", "1.2.3", "0x10", "1_000", " 1", "1 ", "infinit", "nana", "abc", "1,5"] {
        assert!(!is_float_word(w), "{} should not read as a float", w);
    }
}

#[test]
fn words_split_on_unicode_whitespace() {
    assert_eq!(split_words("  a\tbb \u{3000}c\u{85}d  "), strings(&["a", "bb", "c", "d"]));
    assert!(split_words("").is_empty());
    assert!(split_words(" \t ").is_empty());
    assert_eq!(split_words("x"), strings(&["x"]));
}

#[test]
fn column_lookup_finds_the_first_of_a_name() {
    let t = Table {
        columns: vec![
            Column { name: "x".to_string(), data: ColumnData::Integer(vec![1]) },
            Column { name: "y".to_string(), data: ColumnData::Integer(vec![2]) },
            Column { name: "y".to_string(), data: ColumnData::Integer(vec![3]) },
        ],
    };
    assert_eq!(column_index(&t, "y"), Some(1));
    assert_eq!(column_index(&t, "Y"), None);
}

#[test]
fn replace_changes_only_the_named_column() {
    let mut t = Table::assemble(&strings(&["id", "x"]), &rows(&[&["1", "0.5"], &["2", "0.7"]])).unwrap();
    let r = t.replace("x", ColumnData::Float(strings(&["1.5", "-0.3"])));
    assert_eq!(r, Ok(()));
    assert_eq!(t.columns[1].name, "x");
    assert_eq!(t.columns[1].data, ColumnData::Float(strings(&["1.5", "-0.3"])));
    assert_eq!(t.columns[0].data, ColumnData::Integer(vec![1, 2]));
}

#[test]
fn replace_refuses_missing_columns_and_wrong_lengths() {
    let mut t = Table::assemble(&strings(&["id", "x"]), &rows(&[&["1", "0.5"], &["2", "0.7"]])).unwrap();
    let before = t.clone();
    assert_eq!(t.replace("q", ColumnData::Integer(vec![1, 2])), Err(ColumnError::NotFound));
    assert_eq!(t.replace("x", ColumnData::Integer(vec![1])), Err(ColumnError::LengthMismatch));
    assert_eq!(t, before);
}

#[test]
fn float_words_agree_with_std() {
    let words = [
        "0", "-0", "1.5", "1.", ".5", "+.5", "-.5e3", "1.e5", "1e+5", "1e-5", "1E5", "1e", "1e+",
        "e1", ".", "+", "-", "", "inf", "-inf", "+INF", "Infinity", "-infinity", "infinit", "NaN",
        "-nan", "nAn", "na", "1.2.3", "1..2", "--1", "+-1", "0x1", "1_0", " 1", "1 ", "١", "12e3.4",
        "00012.5000", "9999999999999999999999999", "1e999",
    ];
    for w in words {
        assert_eq!(is_float_word(w), w.parse::<f64>().is_ok(), "word {:?}", w);
    }
}

#[test]
fn blanks_agree_with_std() {
    for u in 0u32..0x3100 {
        if let Some(c) = char::from_u32(u) {
            let s = format!("a{}b", c);
            let expected = if c.is_whitespace() { 2 } else { 1 };
            assert_eq!(split_words(&s).len(), expected, "char {:#x}", u);
        }
    }
}
