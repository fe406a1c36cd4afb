use rustique::config::{CellAttr, CellColor};
use rustique::table::{
    cell_or_header, modify_table, reset_table, ColumnProperties, FlattenMap, TableGroup, TableSection,
    TableSubFlags, Tables,
};

fn names(m: &FlattenMap) -> Vec<String> {
    (0..m.len()).map(|i| m.entry_at(i).0).collect()
}

#[test]
fn list_defaults_columns_in_order() {
    let t = Tables::list_defaults();
    let expect = vec!["name", "mod_id", "version", "latest_version", "deps", "missing_deps", "description"];
    assert_eq!(names(&t.headers), expect);
    assert_eq!(names(&t.cells), expect);
    let h = t.headers.get("deps").unwrap();
    assert_eq!(h, ColumnProperties { color: Some(CellColor::Green), attribute: Some(CellAttr::Bold) });
    assert_eq!(t.cells.get("name").unwrap(), ColumnProperties { color: Some(CellColor::Yellow), attribute: None });
    assert_eq!(t.cells.get("version").unwrap(), ColumnProperties { color: Some(CellColor::Reset), attribute: Some(CellAttr::Dim) });
    assert_eq!(t.cells.get("missing_deps").unwrap(), ColumnProperties { color: Some(CellColor::Red), attribute: Some(CellAttr::Bold) });
}

#[test]
fn search_defaults_columns() {
    let t = Tables::search_defaults();
    assert_eq!(names(&t.headers), vec!["mod_id", "name", "summary"]);
    assert_eq!(t.cells.get("mod_id").unwrap(), ColumnProperties { color: Some(CellColor::Magenta), attribute: Some(CellAttr::Bold) });
    assert_eq!(t.cells.get("summary").unwrap(), ColumnProperties { color: Some(CellColor::Reset), attribute: None });
}

#[test]
fn with_defaults_holds_both_tables() {
    let t = Tables::with_defaults();
    assert_eq!(t.list.headers.len(), 7);
    assert_eq!(t.search.cells.len(), 3);
    let d = Tables::default();
    assert_eq!(names(&d.list.cells), names(&t.list.cells));
}

#[test]
fn column_properties_default() {
    let p = ColumnProperties::default();
    assert_eq!(p.color, Some(CellColor::Reset));
    assert_eq!(p.attribute, Some(CellAttr::NoHidden));
}

#[test]
fn new_section_is_empty() {
    let s = TableSection::new();
    assert_eq!(s.headers.len(), 0);
    assert_eq!(s.cells.len(), 0);
}

#[test]
fn cell_or_header_prefers_cells() {
    assert_eq!(cell_or_header(&TableGroup { cells: true, headers: true }), Some("cells".to_string()));
    assert_eq!(cell_or_header(&TableGroup { cells: false, headers: true }), Some("headers".to_string()));
    assert_eq!(cell_or_header(&TableGroup { cells: false, headers: false }), None);
}

#[test]
fn set_keeps_unset_values_and_adds_to_other_group() {
    let mut s = Tables::list_defaults();
    let arg = TableSubFlags {
        group: TableGroup { cells: false, headers: true },
        field: Some("name".to_string()),
        fields: vec![],
        color: Some(CellColor::Blue),
        attr: None,
    };
    modify_table(&arg, &mut s, false);
    assert_eq!(s.headers.get("name").unwrap(), ColumnProperties { color: Some(CellColor::Blue), attribute: Some(CellAttr::Bold) });
    // a new column: exact values in the edited group, defaults in the other
    let arg2 = TableSubFlags {
        group: TableGroup { cells: true, headers: false },
        field: None,
        fields: vec!["website".to_string()],
        color: None,
        attr: Some(CellAttr::Italic),
    };
    modify_table(&arg2, &mut s, false);
    assert_eq!(s.cells.get("website").unwrap(), ColumnProperties { color: None, attribute: Some(CellAttr::Italic) });
    assert_eq!(s.headers.get("website").unwrap(), ColumnProperties::default());
    assert_eq!(names(&s.cells).last().unwrap(), "website");
}

#[test]
fn delete_removes_from_both_groups_keeping_order() {
    let mut s = Tables::list_defaults();
    let arg = TableSubFlags {
        group: TableGroup { cells: false, headers: true },
        field: None,
        fields: vec!["version".to_string(), "deps".to_string()],
        color: None,
        attr: None,
    };
    modify_table(&arg, &mut s, true);
    let expect = vec!["name", "mod_id", "latest_version", "missing_deps", "description"];
    assert_eq!(names(&s.headers), expect);
    assert_eq!(names(&s.cells), expect);
}

#[test]
fn delete_undoes_set_on_concrete_table() {
    let mut a = Tables::search_defaults();
    let mut b = Tables::search_defaults();
    let set = TableSubFlags {
        group: TableGroup { cells: true, headers: false },
        field: Some("author".to_string()),
        fields: vec![],
        color: Some(CellColor::Red),
        attr: None,
    };
    let del = TableSubFlags { group: TableGroup { cells: true, headers: false }, field: Some("author".to_string()), fields: vec![], color: None, attr: None };
    modify_table(&set, &mut a, false);
    modify_table(&del, &mut a, true);
    modify_table(&del, &mut b, true);
    assert_eq!(names(&a.cells), names(&b.cells));
    assert_eq!(names(&a.headers), names(&b.headers));
}

#[test]
fn reset_table_by_name() {
    let mut s = TableSection::new();
    reset_table(&mut s, "search");
    assert_eq!(names(&s.headers), vec!["mod_id", "name", "summary"]);
    reset_table(&mut s, "list");
    assert_eq!(s.headers.len(), 7);
    reset_table(&mut s, "other");
    assert_eq!(s.headers.len(), 7);
}

#[test]
fn flatten_map_insert_and_remove() {
    let mut m = FlattenMap::new();
    m.with("a", Some(CellColor::Red), None);
    m.with("b", None, None);
    m.with("a", Some(CellColor::Blue), Some(CellAttr::Dim));
    assert_eq!(names(&m), vec!["a", "b"]);
    assert_eq!(m.get("a").unwrap().color, Some(CellColor::Blue));
    m.ensure("c");
    m.ensure("a");
    assert_eq!(names(&m), vec!["a", "b", "c"]);
    m.remove("a");
    assert_eq!(names(&m), vec!["b", "c"]);
    assert_eq!(m.get("a"), None);
}
