use quenya::ara::aramorph::table::{load_table, CompatibilityTable};

#[test]
fn table_holds_what_was_put_in() {
    let mut table = CompatibilityTable::new();
    assert_eq!(table.contains("NONE PV"), false);
    table.insert(String::from("NONE PV"));
    assert_eq!(table.contains("NONE PV"), true);
    assert_eq!(table.contains("NONE  PV"), false);
    assert_eq!(table.contains("none pv"), false);
}

#[test]
fn table_lines_are_trimmed() {
    let lines = vec![
        String::from("  NONE PV"),
        String::from("PV, SUFF0\t\r"),
        String::from(""),
        String::from("\u{3000}A  B\u{a0}"),
    ];
    let table = load_table(&lines);
    assert_eq!(table.contains("NONE PV"), true);
    assert_eq!(table.contains("  NONE PV"), false);
    assert_eq!(table.contains("PV, SUFF0"), true);
    assert_eq!(table.contains(""), true);
    assert_eq!(table.contains("A  B"), true);
    assert_eq!(table.contains("A B"), false);
    assert_eq!(load_table(&Vec::new()).contains(""), false);
}
