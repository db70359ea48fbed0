use csv_dataframe::column::{ColDouble, ColInt, ColString, ColStringPool, Dtype, VectorData};
use csv_dataframe::stringpool::{StringPool, POOL_STRING_SIZE};
use std::ptr;

fn parse_float(s: &str) -> Result<u32, String> {
    s.parse::<f32>().map(|v| v.to_bits()).map_err(|e| e.to_string())
}

#[test]
fn try_add_str() {
    let mut sp = StringPool::new();

    println!("new stringpool must always have one pool ready");
    assert!(sp.num_chunks() == 1);
    assert!(sp.get_last_idx() == 0);

    println!("however the number of inserted strings should be 0");
    assert!(sp.len() == 0);

    sp.add_str("hello");
    sp.add_str(" world");

    assert_eq!(sp.get_str(0), "hello");
    assert_eq!(sp.get_str(1), " world");
}

#[test]
fn hello_alot() {
    let mut sp = StringPool::new();

    for i in 0..POOL_STRING_SIZE {
        let temp_string = format!(" hello_world_{}", i);
        sp.add_str(&temp_string);
    }

    println!("inserted and retrived str match");
    for i in 0..POOL_STRING_SIZE {
        assert_eq!(sp.get_str(i), format!(" hello_world_{}", i));
    }

    let sp_cloned = sp.clone();
    println!("clone must not point to same address");
    assert!(!ptr::eq(sp.borrow_last_chunk(), sp_cloned.borrow_last_chunk()));

    println!("cloned content is the same");
    for i in 0..POOL_STRING_SIZE {
        assert_eq!(sp.get_str(i), sp_cloned.get_str(i),);
    }
}

#[test]
fn reserve_ps() {
    let mut sp = StringPool::new();
    for i in 0..POOL_STRING_SIZE {
        let temp_string = format!(" hello_world_{}", i);
        sp.add_str(&temp_string);
    }

    let lc_cap_before = sp.borrow_last_chunk().capacity();
    let lc_len = sp.borrow_last_chunk().len();
    let enough_to_trigger_reallocation = lc_cap_before - lc_len + 42;
    sp.reserve(enough_to_trigger_reallocation);
    let lc_cap_after = sp.borrow_last_chunk().capacity();

    println!("using reserve exceeding capacity resulted in increased capacity");
    println!("bf:{} af:{} and len{}", lc_cap_before, lc_cap_after, lc_len);
    assert!(lc_cap_after - 42 >= lc_cap_before);
}

#[test]
fn pool_rollover_reads_back_every_string() {
    let mut sp = StringPool::new();
    let texts: Vec<String> = (0..200).map(|i| format!("text number {} é", i)).collect();
    for t in &texts {
        sp.add_str(t);
    }
    assert!(sp.num_chunks() > 1);
    for (i, t) in texts.iter().enumerate() {
        assert_eq!(sp.get_str(i), t.as_str());
    }
}

#[test]
fn pool_long_string_is_not_split() {
    let mut sp = StringPool::new();
    let long = "x".repeat(POOL_STRING_SIZE + 10);
    sp.add_str(&long);
    assert_eq!(sp.num_chunks(), 1);
    sp.add_str("next");
    assert_eq!(sp.num_chunks(), 2);
    assert_eq!(sp.get_last_idx(), 1);
    assert_eq!(sp.get_str(0), long.as_str());
    assert_eq!(sp.get_str(1), "next");
}

#[test]
fn pool_column_clone_is_independent() {
    let mut col = ColStringPool { data: StringPool::new() };
    col.data.add_str("one");
    col.data.add_str("two");
    let mut copy = col.clone();
    for i in 0..2000 {
        copy.data.add_str(&format!("extra {}", i));
    }
    copy.data.reserve(4096);
    assert_eq!(col.data.len(), 2);
    assert_eq!(col.data.get_str(0), "one");
    assert_eq!(col.data.get_str(1), "two");
    assert_eq!(copy.data.get_str(1), "two");
    assert_eq!(copy.data.len(), 2002);
}

#[test]
fn payloads_through_the_column_trait() {
    let mut ints = ColInt::default();
    ints.push_from_str(" 17\t", &parse_float).unwrap();
    assert!(ints.push_from_str("17x", &parse_float).is_err());
    assert_eq!(ints.data, vec![17]);
    assert_eq!(VectorData::len(&ints), 1);
    assert_eq!(VectorData::dtype(&ints), Dtype::ColInt);

    let mut doubles = ColDouble::default();
    doubles.push_from_str(" 0.5 ", &parse_float).unwrap();
    let e = doubles.push_from_str("half", &parse_float).unwrap_err();
    assert_eq!(e.text, "half");
    assert_eq!(doubles.data, vec![0.5f32.to_bits()]);

    let mut texts = ColString::default();
    texts.push_from_str("  kept  ", &parse_float).unwrap();
    let copy = texts.copy_values();
    assert_eq!(copy.data, vec![String::from("  kept  ")]);

    let mut pooled = ColStringPool { data: StringPool::new() };
    pooled.push_from_str(" a ", &parse_float).unwrap();
    VectorData::reserve(&mut pooled, 100);
    assert_eq!(pooled.data.get_str(0), " a ");
    assert_eq!(VectorData::dtype(&pooled), Dtype::ColStringPool);
}
