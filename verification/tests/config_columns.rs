use rustique::config::{CellAttr, CellColor, ListColumn, SearchColumn, Package};
use std::str::FromStr;

#[test]
fn cell_color_names_read_back() {
    let all = [
        CellColor::Black, CellColor::Blue, CellColor::Cyan, CellColor::DarkCyan, CellColor::DarkBlue,
        CellColor::Green, CellColor::DarkGreen, CellColor::Magenta, CellColor::DarkMagenta,
        CellColor::Red, CellColor::DarkRed, CellColor::White, CellColor::Yellow,
        CellColor::DarkYellow, CellColor::Reset,
    ];
    for c in all {
        assert_eq!(CellColor::parse(c.as_str()), Ok(c));
    }
}

#[test]
fn grey_colors_are_not_read() {
    assert_eq!(CellColor::Grey.as_str(), "grey");
    assert_eq!(CellColor::DarkGrey.as_str(), "dark_grey");
    assert_eq!(CellColor::parse("grey"), Err(()));
    assert_eq!(CellColor::parse("dark_grey"), Err(()));
}

#[test]
fn cell_color_parse_ignores_case() {
    assert_eq!(CellColor::parse("DARK_Blue"), Ok(CellColor::DarkBlue));
    assert_eq!(CellColor::from_str("Magenta"), Ok(CellColor::Magenta));
    assert_eq!(CellColor::parse("purple"), Err(()));
}

#[test]
fn list_column_names() {
    assert_eq!(ListColumn::Name.as_str(), "name");
    assert_eq!(ListColumn::ModURL.as_str(), "mod_url");
    assert_eq!(ListColumn::LastUpdateLocal.as_str(), "last_update");
    assert_eq!(ListColumn::parse("LATEST_VERSION"), Ok(ListColumn::LatestVersion));
}

#[test]
fn last_update_local_is_read_under_its_long_name() {
    assert_eq!(ListColumn::parse("last_update"), Err(()));
    assert_eq!(ListColumn::parse("last_update_local"), Ok(ListColumn::LastUpdateLocal));
}

#[test]
fn search_columns_read_back() {
    let all = [
        SearchColumn::Name, SearchColumn::ModId, SearchColumn::Downloads, SearchColumn::Follows,
        SearchColumn::Trending, SearchColumn::Comments, SearchColumn::Summary, SearchColumn::ModidStrs,
        SearchColumn::AssetId, SearchColumn::Author, SearchColumn::UrlAlias, SearchColumn::Side,
        SearchColumn::Type, SearchColumn::Tags, SearchColumn::LastReleased,
    ];
    for c in all {
        assert_eq!(SearchColumn::parse(c.as_str()), Ok(c));
    }
    assert_eq!(SearchColumn::ModidStrs.as_str(), "modid_strs");
}

#[test]
fn cell_attrs_read_back() {
    for a in [CellAttr::Bold, CellAttr::Italic, CellAttr::Underline, CellAttr::Reset, CellAttr::Dim, CellAttr::NoHidden] {
        assert_eq!(CellAttr::from_str(a.as_str()), Ok(a));
    }
    assert_eq!(CellAttr::NoHidden.as_str(), "nohidden");
    assert_eq!(CellAttr::parse("blink"), Err(()));
}

#[test]
fn package_default_is_empty() {
    let p = Package::default();
    assert_eq!(p.mod_id, "");
    assert_eq!(p.pinned_version, None);
}
