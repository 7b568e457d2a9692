use ygo_wcs_lf::years::{display, normalize, resolve, year_from_name, YearsError};

#[test]
fn normalizes_explicit_years() {
    assert_eq!(resolve(vec![2026, 2025, 2026], Vec::new()).unwrap(), [2025, 2026]);
}

#[test]
fn explicit_years_win_over_discovered_ones() {
    assert_eq!(resolve(vec![2024], vec![2025, 2026]).unwrap(), [2024]);
}

#[test]
fn discovers_sorted_years_with_limit_lists() {
    // Directory names as found on disk; `notes` is no year, and `2024` has no
    // list, so it is not among those found.
    let found: Vec<u16> = ["2026", "notes", "2025"]
        .iter()
        .filter_map(|name| year_from_name(name))
        .collect();

    assert_eq!(resolve(Vec::new(), found).unwrap(), [2025, 2026]);
}

#[test]
fn build_year_discovery_uses_limit_list_directories() {
    let found: Vec<u16> = ["2026", "2025"].iter().filter_map(|name| year_from_name(name)).collect();

    assert_eq!(resolve(Vec::new(), found).unwrap(), [2025, 2026]);
}

#[test]
fn rejects_empty_discovery() {
    assert_eq!(resolve(Vec::new(), Vec::new()), Err(YearsError::NoneFound));
}

#[test]
fn formats_years() {
    assert_eq!(display(&vec![2025, 2026]), "2025, 2026");
}

#[test]
fn formats_one_and_no_year() {
    assert_eq!(display(&vec![2026]), "2026");
    assert_eq!(display(&vec![]), "");
}

#[test]
fn reads_year_directory_names() {
    assert_eq!(year_from_name("2026"), Some(2026));
    assert_eq!(year_from_name("+2026"), Some(2026));
    assert_eq!(year_from_name("65535"), Some(65535));
    assert_eq!(year_from_name("65536"), None);
    assert_eq!(year_from_name("notes"), None);
    assert_eq!(year_from_name(""), None);
    assert_eq!(year_from_name("20 26"), None);
    for year in [0u16, 7, 2025, 65535] {
        assert_eq!(year_from_name(&year.to_string()), Some(year));
    }
}

#[test]
fn normalizing_twice_changes_nothing() {
    let once = normalize(&vec![3, 1, 2, 3, 1]);
    assert_eq!(once, [1, 2, 3]);
    assert_eq!(normalize(&once), once);
}

#[test]
fn explains_an_empty_discovery() {
    assert_eq!(
        YearsError::NoneFound.message("/p"),
        "no World Championship years found; expected [year]/data/lf.list under /p"
    );
}
