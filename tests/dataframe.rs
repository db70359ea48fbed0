use csv_dataframe::column::{ColErrorcode, ColumnData, Dtype};
use csv_dataframe::dataframe::{csv_read_str, csv_read_str_iter, DataFrame, ReadError};

fn parse_float(s: &str) -> Result<u32, String> {
    match s.parse::<f32>() {
        Ok(v) => Ok(v.to_bits()),
        Err(e) => Err(e.to_string()),
    }
}

fn ints(df: &DataFrame, i: usize) -> Vec<i32> {
    match &df.data[i].data {
        ColumnData::Int(c) => c.data.clone(),
        _ => panic!("not an int column"),
    }
}

fn nullable_ints(df: &DataFrame, i: usize) -> Vec<Option<i32>> {
    match &df.data[i].data {
        ColumnData::IntNullable(c) => c.data.clone(),
        _ => panic!("not a nullable int column"),
    }
}

fn nullable_doubles(df: &DataFrame, i: usize) -> Vec<Option<f32>> {
    match &df.data[i].data {
        ColumnData::DoubleNullable(c) => c.data.iter().map(|o| o.map(f32::from_bits)).collect(),
        _ => panic!("not a nullable double column"),
    }
}

fn strings(df: &DataFrame, i: usize) -> Vec<String> {
    match &df.data[i].data {
        ColumnData::Str(c) => c.data.clone(),
        _ => panic!("not a string column"),
    }
}

fn check_reference_frame(df: &DataFrame) {
    assert_eq!(ints(df, 0), vec![1, 10]);
    assert_eq!(nullable_doubles(df, 1), vec![Some(2.2), Some(20.20)]);
    assert_eq!(strings(df, 3), vec![String::from("four"), String::from("fourty")]);
}

#[test]
fn mod_test_csv_read_str() {
    let mycsvstr = "1 ,2.2 , 3,four\n10, 20.20,30,fourty";
    let myschema = "a:int,b:doubleNullable,c:int,someothername:string";
    let df = csv_read_str_iter(mycsvstr, myschema, &parse_float).unwrap();
    check_reference_frame(&df);
}

#[test]
fn test_csv_read_iter() {
    let mycsvstr = "1 ,2.2 , 3,four\n10, 20.20,30,fourty";
    let myschema = "a:int,b:doubleNullable,c:int,someothername:string";
    let df = csv_read_str_iter(mycsvstr, myschema, &parse_float).unwrap();
    check_reference_frame(&df);
}

#[test]
fn test_csv_read_iter_complete_the_lines() {
    let mycsvstr = "1 ,2.2 , 3,four\n10, 20.20,30,fourty";
    let myschema = "a:int,b:doubleNullable,c:int,someothername:string";
    let df = csv_read_str_iter(mycsvstr, myschema, &parse_float).unwrap();
    check_reference_frame(&df);
}

#[test]
fn return_error_if_noncomplete_lines_and_int() {
    let mycsvstr = "1,1.1,3,four\n123\n100,200.200,300,fourhundred\n456\n789\n\n";
    let myschema = "a:intNullable,b:doubleNullable,c:int,someothername:string";
    let df = csv_read_str_iter(mycsvstr, myschema, &parse_float);

    let mut test_err_string = String::new();
    if let Err(err) = df {
        test_err_string = err.to_message();
    }
    let ref_error = "".parse::<i32>().unwrap_err();

    assert_eq!(test_err_string, ref_error.to_string());
}

#[test]
fn return_error_schema_errors() {
    let myschema = "a:not_a_col_type,3rd_token:b:int,,correct_col:string";
    let df = DataFrame::new(myschema);

    let expected_error_msg = "dataframe error failed to parse schema
sub error 0: ColError: 'ParseDataType', do not recognize  \"not_a_col_type\" as datatype
sub error 1: ColError: 'SchemaSyntax' \"unexpected third token \"3rd_token\" for column descr No. 1\"
sub error 2: ColError: 'ParseDataType', do not recognize  \"\" as datatype"
        .to_string();

    if let Err(err) = df {
        let err_text = err.to_message();
        assert_eq!(expected_error_msg, err_text);
    } else {
        panic!("did not yield any error!!");
    }
}

#[test]
fn typed_columns_from_text() {
    let df = csv_read_str_iter("1,2.2,3,four\n10,20.20,30,fourty", "a:int,b:doubleNullable,c:int,d:string", &parse_float)
        .unwrap();
    assert_eq!(ints(&df, 0), vec![1, 10]);
    assert_eq!(nullable_doubles(&df, 1), vec![Some(2.2), Some(20.2)]);
    assert_eq!(ints(&df, 2), vec![3, 30]);
    assert_eq!(strings(&df, 3), vec![String::from("four"), String::from("fourty")]);
    assert_eq!(df.shape(), (2, 4));
}

#[test]
fn line_and_scanner_ingestion_agree_without_quotes() {
    let text = "1,2.5,x,7\n-4,oops,y,\n9,1e3,z,8";
    let schema = "a:int,b:doubleNullable,c:string,d:intNullable";
    let by_line = csv_read_str(text, schema, &parse_float).unwrap();
    let by_scan = csv_read_str_iter(text, schema, &parse_float).unwrap();
    assert_eq!(ints(&by_line, 0), ints(&by_scan, 0));
    assert_eq!(nullable_doubles(&by_line, 1), nullable_doubles(&by_scan, 1));
    assert_eq!(strings(&by_line, 2), strings(&by_scan, 2));
    assert_eq!(nullable_ints(&by_line, 3), nullable_ints(&by_scan, 3));
    assert_eq!(nullable_ints(&by_scan, 3), vec![Some(7), None, Some(8)]);
    assert_eq!(nullable_doubles(&by_scan, 1), vec![Some(2.5), None, Some(1000.0)]);
}

#[test]
fn ragged_row_is_completed() {
    let df = csv_read_str_iter("1,1.1,3,four\n123\n", "a:intNullable,b:doubleNullable,c:intNullable,d:string", &parse_float)
        .unwrap();
    assert_eq!(nullable_ints(&df, 0), vec![Some(1), Some(123)]);
    assert_eq!(nullable_doubles(&df, 1), vec![Some(1.1), None]);
    assert_eq!(nullable_ints(&df, 2), vec![Some(3), None]);
    assert_eq!(strings(&df, 3), vec![String::from("four"), String::new()]);
    assert_eq!(df.shape(), (2, 4));
}

#[test]
fn schema_errors_are_all_reported() {
    let err = match DataFrame::new("a:badtype,b:x:int,,c:string") {
        Err(e) => e,
        Ok(_) => panic!("schema should be refused"),
    };
    assert_eq!(err.sub_errors.len(), 3);
    assert_eq!(err.sub_errors[0].errorcode, ColErrorcode::ParseDataType);
    assert_eq!(err.sub_errors[0].error_msg, "badtype");
    assert_eq!(err.sub_errors[0].i_col, 0);
    assert_eq!(err.sub_errors[1].errorcode, ColErrorcode::SchemaSyntax);
    assert_eq!(err.sub_errors[1].error_msg, "b");
    assert_eq!(err.sub_errors[1].i_col, 1);
    assert_eq!(err.sub_errors[2].errorcode, ColErrorcode::ParseDataType);
    assert_eq!(err.sub_errors[2].error_msg, "");
    assert_eq!(err.sub_errors[2].i_col, 2);
}

#[test]
fn schema_is_case_insensitive_and_names_optional() {
    let df = DataFrame::new("Price:DOUBLE;INT\nlabel:StringPool").unwrap();
    assert_eq!(df.data.len(), 3);
    assert_eq!(df.data[0].name.as_deref(), Some("price"));
    assert_eq!(df.data[0].dtype(), Dtype::ColDouble);
    assert_eq!(df.data[1].name, None);
    assert_eq!(df.data[1].dtype(), Dtype::ColInt);
    assert_eq!(df.data[2].dtype(), Dtype::ColStringPool);
    assert_eq!(df.shape(), (0, 3));
}

#[test]
fn strict_columns_report_cell_errors() {
    let mut df = DataFrame::new("a:int,b:double").unwrap();
    let e = df.append_line("x,1.5", &parse_float).unwrap_err();
    assert_eq!(e.text, "x");
    assert_eq!(e.message, "x".parse::<i32>().unwrap_err().to_string());

    let mut df = DataFrame::new("a:int,b:double").unwrap();
    let e = df.append_str(" 5 ,abc", &parse_float).unwrap_err();
    assert_eq!(e.text, "abc");
    assert_eq!(ints(&df, 0), vec![5]);

    match csv_read_str_iter("1,2", "a:int,b:int,c:int", &parse_float) {
        Err(ReadError::Cell(e)) => assert_eq!(e.text, ""),
        _ => panic!("padding an int column must fail"),
    }
}

#[test]
fn append_line_trims_pads_and_ignores_extras() {
    let mut df = DataFrame::new("a:int,b:string,c:intNullable").unwrap();
    df.append_line("  42 , hi ", &parse_float).unwrap();
    df.append_line("", &parse_float).unwrap();
    df.append_line("7,x,8,extra,more", &parse_float).unwrap();
    assert_eq!(ints(&df, 0), vec![42, 7]);
    assert_eq!(strings(&df, 1), vec![String::from("hi"), String::from("x")]);
    assert_eq!(nullable_ints(&df, 2), vec![None, Some(8)]);
    df.reserve(10);
    assert_eq!(df.shape(), (2, 3));
}

#[test]
fn pooled_strings_are_kept_verbatim() {
    let mut df = DataFrame::new("s:stringpool,n:int").unwrap();
    df.append_str("\" quoted, text\",1\n plain ,2\n", &parse_float).unwrap();
    match &df.data[0].data {
        ColumnData::Pool(p) => {
            assert_eq!(p.data.len(), 2);
            assert_eq!(p.data.get_str(0), "\" quoted, text\"");
            assert_eq!(p.data.get_str(1), " plain ");
        },
        _ => panic!("not a pooled column"),
    }
    assert_eq!(ints(&df, 1), vec![1, 2]);
}

#[test]
fn integer_parsing_edges() {
    let mut df = DataFrame::new("a:intNullable").unwrap();
    for t in ["+5", "-0", "2147483647", "-2147483648", "2147483648", "-", "1_0", " 12 "] {
        df.append_line(t, &parse_float).unwrap();
    }
    assert_eq!(
        nullable_ints(&df, 0),
        vec![Some(5), Some(0), Some(i32::MAX), Some(i32::MIN), None, None, None, Some(12)]
    );
}

#[test]
fn dtype_names() {
    assert_eq!(Dtype::from_str("IntNullable"), Dtype::ColIntNullable);
    assert_eq!(Dtype::from_str("doublenullable"), Dtype::ColDoubleNullable);
    let e = Dtype::from_str_to_res("float").unwrap_err();
    assert_eq!(e.errorcode, ColErrorcode::ParseDataType);
    assert_eq!(e.error_msg, "float");
    assert_eq!(e.to_message(), "ColError: 'ParseDataType', do not recognize  \"float\" as datatype");
}

#[test]
fn agreement_when_last_line_ends_with_comma() {
    let text = "1,2,\n3,4,";
    let schema = "a:int,b:intNullable,c:string,d:intNullable";
    let by_line = csv_read_str(text, schema, &parse_float).unwrap();
    let by_scan = csv_read_str_iter(text, schema, &parse_float).unwrap();
    for df in [&by_line, &by_scan] {
        assert_eq!(ints(df, 0), vec![1, 3]);
        assert_eq!(nullable_ints(df, 1), vec![Some(2), Some(4)]);
        assert_eq!(strings(df, 2), vec![String::new(), String::new()]);
        assert_eq!(nullable_ints(df, 3), vec![None, None]);
    }
}

#[test]
fn scanner_differs_on_empty_lines() {
    let text = "1\n\n2\n";
    let by_line = csv_read_str(text, "a:intNullable", &parse_float).unwrap();
    let by_scan = csv_read_str_iter(text, "a:intNullable", &parse_float).unwrap();
    assert_eq!(nullable_ints(&by_line, 0), vec![Some(1), Some(2)]);
    assert_eq!(nullable_ints(&by_scan, 0), vec![Some(1), None, Some(2)]);
}

#[test]
fn cloned_table_is_independent() {
    let mut df = DataFrame::new("n:int,s:stringpool").unwrap();
    df.append_str("1,one\n2,two\n", &parse_float).unwrap();
    let mut copy = df.clone();
    copy.append_str("3,three\n", &parse_float).unwrap();
    assert_eq!(df.shape(), (2, 2));
    assert_eq!(copy.shape(), (3, 2));
    assert_eq!(ints(&df, 0), vec![1, 2]);
    match (&df.data[1].data, &copy.data[1].data) {
        (ColumnData::Pool(a), ColumnData::Pool(b)) => {
            assert_eq!(a.data.len(), 2);
            assert_eq!(a.data.get_str(1), "two");
            assert_eq!(b.data.get_str(2), "three");
        },
        _ => panic!("not pooled columns"),
    }
}

#[test]
fn many_schema_errors_are_numbered() {
    let schema = vec!["bad"; 11].join(",");
    let err = DataFrame::new(&schema).unwrap_err();
    assert_eq!(err.sub_errors.len(), 11);
    assert_eq!(err.error_msg, "failed to parse schema");
    let msg = err.to_message();
    assert!(msg.starts_with("dataframe error failed to parse schema\nsub error 0: "));
    assert!(msg.ends_with("\nsub error 10: ColError: 'ParseDataType', do not recognize  \"bad\" as datatype"));

    let err = DataFrame::new("int,int,int,int,int,int,int,int,int,int,int,int,x:y:int").unwrap_err();
    assert_eq!(
        err.sub_errors[0].to_message(),
        "ColError: 'SchemaSyntax' \"unexpected third token \"x\" for column descr No. 12\""
    );
}

fn format_float(bits: u32) -> String {
    f32::from_bits(bits).to_string()
}

#[test]
fn columns_render_with_separator_and_na() {
    let mut df = DataFrame::new("i:int,n:intNullable,d:doubleNullable,s:string,p:stringpool").unwrap();
    df.append_line("-2147483648,x,1.5,a,b", &parse_float).unwrap();
    df.append_line("0,-7,y,c c,d", &parse_float).unwrap();
    assert_eq!(df.data[0].data.render(&format_float), "-2147483648, 0, ");
    assert_eq!(df.data[1].data.render(&format_float), "NA, -7, ");
    assert_eq!(df.data[2].data.render(&format_float), "1.5, NA, ");
    assert_eq!(df.data[3].data.render(&format_float), "a, c c, ");
    assert_eq!(df.data[4].data.render(&format_float), "b, d, ");
    assert_eq!(
        df.render(&format_float),
        "DataFrame\ni: -2147483648, 0, \nn: NA, -7, \nd: 1.5, NA, \ns: a, c c, \np: b, d, \n"
    );
    let unnamed = DataFrame::new("int").unwrap();
    assert_eq!(unnamed.render(&format_float), "DataFrame\nNone: \n");
    assert_eq!(Dtype::ColDoubleNullable.to_message(), "DType: ColDoubleNullable");
}
