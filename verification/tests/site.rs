use ygo_wcs_lf::site::template::{file_size, render, SiteYear, TemplateError, Templates};
use ygo_wcs_lf::site::{site_years, year_pdf, SiteError};

fn values(pairs: &[(&str, &str)]) -> Vec<(String, String)> {
    pairs.iter().map(|(name, value)| (name.to_string(), value.to_string())).collect()
}

#[test]
fn formats_file_size_in_mebibytes() {
    assert_eq!(file_size(1_572_864), "1.5 MiB");
}

#[test]
fn file_sizes_match_float_formatting() {
    let samples = [
        0u64,
        1,
        52_428,
        52_429,
        104_857,
        262_144,
        786_432,
        1_310_720,
        1_048_576,
        10_485_760,
        123_456_789,
        9_007_199_254_740_993,
        u64::MAX / 3,
        u64::MAX,
    ];
    for bytes in samples {
        assert_eq!(
            file_size(bytes),
            format!("{:.1} MiB", bytes as f64 / (1024.0 * 1024.0)),
            "{bytes} bytes"
        );
    }
}

#[test]
fn rejects_missing_and_unresolved_placeholders() {
    assert!(render("plain", &values(&[("year", "2026")])).is_err());
    assert!(render("{{unknown}}", &values(&[])).is_err());
}

#[test]
fn names_the_failing_placeholder() {
    assert_eq!(
        render("plain", &values(&[("year", "2026")])),
        Err(TemplateError::MissingPlaceholder("{{year}}".to_owned()))
    );
    assert_eq!(
        render("a {{unknown}} b", &values(&[])),
        Err(TemplateError::UnresolvedPlaceholder("{{unknown}}".to_owned()))
    );
    assert_eq!(
        render("a {{open", &values(&[])),
        Err(TemplateError::UnresolvedPlaceholder("{{open".to_owned()))
    );
}

#[test]
fn replaces_every_occurrence() {
    assert_eq!(
        render("{{year}}/{{year}} {{size}}", &values(&[("year", "2026"), ("size", "1.0 MiB")])),
        Ok("2026/2026 1.0 MiB".to_owned())
    );
    assert_eq!(render("no placeholders", &values(&[])), Ok("no placeholders".to_owned()));
    let rendered = render("{{a}}{{b}}", &values(&[("a", "{"), ("b", "{")])).unwrap_err();
    assert_eq!(rendered, TemplateError::UnresolvedPlaceholder("{{".to_owned()));
}

#[test]
fn assembles_index_and_viewers() {
    let templates = Templates::load(
        "<main>{{cards}}</main>".to_owned(),
        "<h2>{{year}}</h2><a href=\"{{year}}/index.html\">{{size}}</a>".to_owned(),
        "<iframe src=\"./lf.pdf#view=FitH\" title=\"{{year}}\"></iframe>".to_owned(),
    );
    let years = site_years(&vec![2025, 2026, 2025]).unwrap();
    assert_eq!(years, vec![2026, 2025]);
    let entries: Vec<SiteYear> = years
        .iter()
        .map(|&year| SiteYear { year, bytes: 1_572_864 })
        .collect();
    let index = templates.index(&entries).unwrap();
    assert_eq!(
        index,
        "<main><h2>2026</h2><a href=\"2026/index.html\">1.5 MiB</a>\n<h2>2025</h2><a href=\"2025/index.html\">1.5 MiB</a></main>"
    );
    assert!(index.find("<h2>2026</h2>").unwrap() < index.find("<h2>2025</h2>").unwrap());
    assert!(index.contains("href=\"2026/index.html\""));
    assert!(!index.contains("download"));
    let viewer = templates.viewer(2026).unwrap();
    assert!(viewer.contains("src=\"./lf.pdf#view=FitH\""));
    assert!(viewer.contains("title=\"2026\""));
    assert!(!viewer.contains("<header"));
    assert!(!viewer.contains("download"));
}

#[test]
fn index_reports_a_broken_entry_template() {
    let templates = Templates::load("{{cards}}".to_owned(), "{{name}}".to_owned(), "".to_owned());
    let entries = vec![SiteYear { year: 2026, bytes: 0 }];
    assert_eq!(
        templates.index(&entries),
        Err(TemplateError::MissingPlaceholder("{{year}}".to_owned()))
    );
    assert_eq!(
        templates.viewer(2026),
        Err(TemplateError::MissingPlaceholder("{{year}}".to_owned()))
    );
}

#[test]
fn site_needs_a_year() {
    let error = site_years(&vec![]).unwrap_err();
    assert_eq!(error, SiteError::NoYears);
    assert_eq!(error.message(), "cannot generate a site without any years");
    assert_eq!(year_pdf(2026), "2026/lf/lf.pdf");
    assert_eq!(
        SiteError::NotAFile("2026/lf/lf.pdf".to_owned()).message(),
        "limit-list PDF is not a file: 2026/lf/lf.pdf"
    );
}

#[test]
fn template_errors_name_the_placeholder() {
    assert_eq!(
        TemplateError::MissingPlaceholder("{{year}}".to_owned()).message(),
        "site template is missing placeholder {{year}}"
    );
    assert_eq!(
        TemplateError::UnresolvedPlaceholder("{{x}}".to_owned()).message(),
        "site template contains unresolved placeholder {{x}}"
    );
}
