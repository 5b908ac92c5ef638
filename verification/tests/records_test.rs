use af_coding_challenge::records::{read_shop_rows, rows_from_records, ShopDataError};

fn names(data: &[u8]) -> Vec<String> {
    read_shop_rows(data).unwrap().into_iter().map(|r| r.name).collect()
}

#[test]
fn rows_keep_the_order_of_the_records() {
    let rows = read_shop_rows(b"Shop A,0.0,0.0\nShop B,3.0,4.0\nShop C,1.0,1.0\n").unwrap();
    assert_eq!(rows.len(), 3);
    assert_eq!(rows[0].name, "Shop A");
    assert_eq!(rows[1].name, "Shop B");
    assert_eq!(rows[1].y, "3.0");
    assert_eq!(rows[1].x, "4.0");
    assert_eq!(rows[2].name, "Shop C");
}

#[test]
fn test_fewer_than_three_shops() {
    let shops = read_shop_rows(b"Shop A,0.0,0.0\nShop B,3.0,4.0\n").unwrap();
    assert_eq!(shops.len(), 2);
    assert_eq!(names(b"Shop A,0.0,0.0\nShop B,3.0,4.0\n"), vec!["Shop A", "Shop B"]);
}

#[test]
fn test_duplicate_shop_names() {
    let rows = read_shop_rows(b"Starbucks,0.0,0.0\nStarbucks,3.0,4.0\nStarbucks,1.0,1.0\n").unwrap();
    assert_eq!(rows.len(), 3);
    assert_eq!(rows[0].name, "Starbucks");
    assert_eq!(rows[1].name, "Starbucks");
    assert_eq!(rows[2].name, "Starbucks");
    assert_eq!(rows[2].y, "1.0");
}

#[test]
fn empty_data_gives_no_rows() {
    assert_eq!(read_shop_rows(b"").unwrap().len(), 0);
}

#[test]
fn readme_example_rows() {
    let rows = read_shop_rows(
        b"Starbucks Seattle,47.5809,-122.3160\nStarbucks SF,37.5209,-122.3340\n",
    )
    .unwrap();
    assert_eq!(rows.len(), 2);
    assert_eq!(rows[0].name, "Starbucks Seattle");
    assert_eq!(rows[0].y, "47.5809");
    assert_eq!(rows[0].x, "-122.3160");
}

#[test]
fn short_records_are_refused() {
    assert!(matches!(
        read_shop_rows(b"Shop A,1.0\nShop B,2.0\n"),
        Err(ShopDataError::MissingField { record: 0, found: 2 })
    ));
    assert!(matches!(
        read_shop_rows(b"Lonely\n"),
        Err(ShopDataError::MissingField { record: 0, found: 1 })
    ));
}

#[test]
fn extra_fields_are_ignored() {
    let rows = read_shop_rows(b"Shop A,1.0,2.0,extra\n").unwrap();
    assert_eq!(rows.len(), 1);
    assert_eq!(rows[0].x, "2.0");
}

#[test]
fn quoted_fields_are_unquoted() {
    let rows = read_shop_rows(b"\"Cafe, Bar\",1.5,2.5\n").unwrap();
    assert_eq!(rows[0].name, "Cafe, Bar");
}

#[test]
fn unequal_records_are_refused() {
    assert!(matches!(
        read_shop_rows(b"Shop A,1.0,2.0\nShop B,3.0\n"),
        Err(ShopDataError::MalformedCsv(_))
    ));
}

#[test]
fn invalid_utf8_is_refused() {
    assert!(read_shop_rows(b"Shop \xff,1.0,2.0\n").is_err());
}

#[test]
fn rows_from_records_names_the_first_short_record() {
    let records = vec![
        vec!["A".to_string(), "1".to_string(), "2".to_string()],
        vec!["B".to_string()],
        vec!["C".to_string(), "3".to_string()],
    ];
    assert!(matches!(
        rows_from_records(&records),
        Err(ShopDataError::MissingField { record: 1, found: 1 })
    ));
}

#[test]
fn rows_from_complete_records() {
    let records = vec![
        vec!["A".to_string(), "1".to_string(), "2".to_string()],
        vec!["C".to_string(), "3".to_string(), "4".to_string(), "x".to_string()],
    ];
    let rows = rows_from_records(&records).unwrap();
    assert_eq!(rows.len(), 2);
    assert_eq!(rows[0].name, "A");
    assert_eq!(rows[1].name, "C");
    assert_eq!(rows[1].y, "3");
    assert_eq!(rows[1].x, "4");
    assert!(rows_from_records(&Vec::new()).unwrap().is_empty());
}
