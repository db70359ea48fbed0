use csv_dataframe::lineparser::{take_cell_str, take_line_str, CsvStr};

#[test]
fn lineparser_test_csv_read_str() {
    let mycsvstr = "1 ,2.2 , 3,four\n10, 20.20,30,fourty";
    let (a, b) = take_line_str(mycsvstr);
    assert_eq!(a, "1 ,2.2 , 3,four");
    assert_eq!(b, "\n10, 20.20,30,fourty");
}

#[test]
fn parse_quoted_str() {
    let mycsvstr = "1 ,\"\n\" , 3,four\n10, 20.20,30,fourty";
    let (a, b) = take_line_str(mycsvstr);
    assert_eq!(a, "1 ,\"\n\" , 3,four");
    assert_eq!(b, "\n10, 20.20,30,fourty");
    assert_ne!(a, "1 ,\"");
}

#[test]
fn parse_cell_str() {
    let mycsvstr = "1 ,\"\n\" , 3,four\n10, 20.20,30,fourty";
    let (st, new_line) = take_cell_str(mycsvstr);
    assert_eq!(st.0, "1 ");
    assert_eq!(st.1, "\"\n\" , 3,four\n10, 20.20,30,fourty");
    assert_eq!(new_line, false);

    let mycsvstr = "1 \"\n\" , 3,four\n10, 20.20,30,fourty";
    let (st, new_line) = take_cell_str(mycsvstr);
    assert_eq!(st.0, "1 \"\n\" ");
    assert_eq!(st.1, " 3,four\n10, 20.20,30,fourty");
    assert_eq!(new_line, false);

    let mycsvstr = "fourty\n 34";
    let (st, new_line) = take_cell_str(mycsvstr);
    assert_eq!(st.0, "fourty");
    assert_eq!(st.1, " 34");
    assert_eq!(new_line, true);
}

#[test]
fn iter_csv() {
    let mycsvstr = "1 ,\"\n\" , 3,four\n10, 20.20,30,fourty";
    let csvstr_obj = CsvStr::new(mycsvstr, 0, 0);

    let cells: Vec<CsvStr> = csvstr_obj.cells();

    assert_eq!(cells[0], CsvStr::new("1 ", 0, 0));
    assert_eq!(cells[1], CsvStr::new("\"\n\" ", 0, 1));
    assert_eq!(cells[2], CsvStr::new(" 3", 0, 2));
    assert_eq!(cells[3], CsvStr::new("four", 0, 3));
    assert_eq!(cells[4], CsvStr::new("10", 1, 0));
    assert_eq!(cells[5], CsvStr::new(" 20.20", 1, 1));
    assert_eq!(cells[6], CsvStr::new("30", 1, 2));
    assert_eq!(cells[7], CsvStr::new("fourty", 1, 3));
}

#[test]
fn cells_keep_doubled_quotes_and_skip_trailing_delimiter() {
    let cells = CsvStr::new("a\"\"b,c,\n", 2, 0).cells();
    assert_eq!(cells.len(), 3);
    assert_eq!(cells[0], CsvStr::new("a\"\"b", 2, 0));
    assert_eq!(cells[1], CsvStr::new("c", 2, 1));
    assert_eq!(cells[2], CsvStr::new("", 2, 2));
    assert!(CsvStr::new("", 0, 0).cells().is_empty());
}

#[test]
fn take_cell_at_end_of_text() {
    let (st, new_line) = take_cell_str("last");
    assert_eq!(st.0, "last");
    assert_eq!(st.1, "");
    assert!(!new_line);
    let (a, b) = take_line_str("no newline");
    assert_eq!(a, "no newline");
    assert_eq!(b, "");
}
