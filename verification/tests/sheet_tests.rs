use punten_telling_tik_spel::inport_info::{read_sheet_dynamic, rows_from_table, SheetRow};

#[test]
fn rows_pair_headers_with_values() {
    let csv = "Tijdstempel,Naam,Wachtwoord\n19-10-2025 14:12:22,Anna,geheim\n20-10-2025 13:00:00,Bob,\n";
    let rows = read_sheet_dynamic(csv).unwrap();
    assert_eq!(rows.len(), 2);
    assert_eq!(rows[0].get("Naam").map(|s| s.as_str()), Some("Anna"));
    assert_eq!(rows[0].get("Wachtwoord").map(|s| s.as_str()), Some("geheim"));
    assert_eq!(rows[1].get("Wachtwoord").map(|s| s.as_str()), Some(""));
    assert_eq!(rows[1].get("Team"), None);
    assert_eq!(rows[0].value_or("Team", "x"), "x");
    assert_eq!(rows[0].value_or("Naam", "x"), "Anna");
}

#[test]
fn headers_only_gives_no_rows() {
    let rows = read_sheet_dynamic("A,B\n").unwrap();
    assert!(rows.is_empty());
    let rows = read_sheet_dynamic("").unwrap();
    assert!(rows.is_empty());
}

#[test]
fn later_column_with_same_header_wins() {
    let rows = read_sheet_dynamic("K,K\n1,2\n").unwrap();
    assert_eq!(rows[0].get("K").map(|s| s.as_str()), Some("2"));
}

#[test]
fn quoted_fields_are_read() {
    let rows = read_sheet_dynamic("A,B\n\"x,y\",\"z\"\n").unwrap();
    assert_eq!(rows[0].value_or("A", ""), "x,y");
    assert_eq!(rows[0].value_or("B", ""), "z");
}

#[test]
fn unequal_record_is_an_error() {
    let r = read_sheet_dynamic("A,B\n1,2,3\n");
    assert!(r.is_err());
    let msg = r.err().unwrap();
    assert!(!msg.is_empty());
}

#[test]
fn row_lookup_by_hand() {
    let row = SheetRow { cells: vec![("a".to_string(), "1".to_string()), ("b".to_string(), "2".to_string())] };
    assert_eq!(row.get("b").map(|s| s.as_str()), Some("2"));
    assert_eq!(row.get("c"), None);
}

#[test]
fn rows_from_a_table() {
    let headers = vec!["a".to_string(), "b".to_string()];
    let recs = vec![
        vec!["1".to_string(), "2".to_string()],
        vec!["3".to_string()],
        vec!["4".to_string(), "5".to_string(), "6".to_string()],
    ];
    let rows = rows_from_table(&headers, &recs);
    assert_eq!(rows.len(), 3);
    assert_eq!(rows[0].cells, vec![("a".to_string(), "1".to_string()), ("b".to_string(), "2".to_string())]);
    assert_eq!(rows[1].cells, vec![("a".to_string(), "3".to_string())]);
    assert_eq!(rows[2].cells.len(), 2);
    assert_eq!(rows[2].get("b").map(|v| v.as_str()), Some("5"));
    assert!(rows_from_table(&headers, &Vec::new()).is_empty());
}
