use std::collections::BTreeMap;

use ygo_wcs_lf::lf::cache::NameCache;
use ygo_wcs_lf::lf::model::{CardEntry, Region, Restriction};
use ygo_wcs_lf::lf::output::{serialize, write_contents};
use ygo_wcs_lf::lf::report::{
    check_parsed, check_resolved, input_path, names_to_query, output_path, skipped_line, summary,
    year_output, RunError,
};
use ygo_wcs_lf::lf::parser::{parse, Diagnostic};
use ygo_wcs_lf::lf::run::{YearAction, YearEvent, YearFailure, YearPhase, YearRun};
use ygo_wcs_lf::lf::resolver::{
    first_id, query_names, resolve, ResolveDiagnostic, ResolvedCard, SearchResults,
};

#[test]
fn parses_sections_names_and_explicit_ids() {
    let source = "\
/// ocg: source
/// forbidden
青眼の白龍 // Blue-Eyes White Dragon // 89631139
/// limited
増殖するＧ //
/// tcg: source
/// semi-limited
// Crossout Designator
";

    let parsed = parse(source);

    assert!(parsed.diagnostics.is_empty());
    assert_eq!(
        parsed.cards,
        vec![
            CardEntry {
                region: Region::Ocg,
                restriction: Restriction::Forbidden,
                japanese_name: Some("青眼の白龍".to_owned()),
                english_name: Some("Blue-Eyes White Dragon".to_owned()),
                explicit_id: Some(89_631_139),
                line_number: 3,
            },
            CardEntry {
                region: Region::Ocg,
                restriction: Restriction::Limited,
                japanese_name: Some("増殖するＧ".to_owned()),
                english_name: None,
                explicit_id: None,
                line_number: 5,
            },
            CardEntry {
                region: Region::Tcg,
                restriction: Restriction::SemiLimited,
                japanese_name: None,
                english_name: Some("Crossout Designator".to_owned()),
                explicit_id: None,
                line_number: 8,
            },
        ]
    );
}

#[test]
fn skips_malformed_lines_with_diagnostics() {
    let source = "\
card before markers // Card
/// ocg
/// forbidden
missing delimiter
//
Japanese // English // nope
Japanese // English // 1 // extra
";

    let parsed = parse(source);

    assert!(parsed.cards.is_empty());
    assert_eq!(
        parsed.diagnostics,
        vec![
            Diagnostic {
                line_number: 1,
                message: "card appears before an ocg or tcg marker".to_owned(),
            },
            Diagnostic {
                line_number: 4,
                message:
                    "expected `Japanese name // English name[ // id]`, got \"missing delimiter\""
                        .to_owned(),
            },
            Diagnostic {
                line_number: 5,
                message: "Japanese and English names are both empty".to_owned(),
            },
            Diagnostic {
                line_number: 6,
                message: "invalid explicit ID `nope`".to_owned(),
            },
            Diagnostic {
                line_number: 7,
                message: "expected `Japanese name // English name[ // id]`, got \"Japanese // English // 1 // extra\"".to_owned(),
            },
        ]
    );
}

#[test]
fn reports_unknown_and_misplaced_markers() {
    let parsed = parse("/// limited\n/// ocg\n/// banned\n/// tcg\nA // B\n");

    assert!(parsed.cards.is_empty());
    assert_eq!(
        parsed.diagnostics,
        vec![
            Diagnostic {
                line_number: 1,
                message: "restriction marker `limited` appears before a region".to_owned(),
            },
            Diagnostic {
                line_number: 3,
                message: "unknown section marker `banned`".to_owned(),
            },
            Diagnostic {
                line_number: 5,
                message: "card appears before a restriction marker".to_owned(),
            },
        ]
    );
}

#[test]
fn reads_ids_like_rust_integer_parsing() {
    let parsed = parse("/// ocg\r\n/// forbidden\r\n  A // B // +42  \r\n\r\nA // B //   \nA // B // 4294967296\nA///B // 7");

    assert_eq!(parsed.cards.len(), 2);
    assert_eq!(parsed.cards[0].explicit_id, Some(42));
    assert_eq!(parsed.cards[0].line_number, 3);
    assert_eq!(parsed.cards[1].japanese_name, Some("A".to_owned()));
    assert_eq!(parsed.cards[1].english_name, Some("/B".to_owned()));
    assert_eq!(parsed.cards[1].explicit_id, Some(7));
    assert_eq!(
        parsed.diagnostics,
        vec![
            Diagnostic { line_number: 5, message: "explicit ID is empty".to_owned() },
            Diagnostic { line_number: 6, message: "invalid explicit ID `4294967296`".to_owned() },
        ]
    );
}

#[test]
fn empty_source_has_no_lines() {
    let parsed = parse("");
    assert!(parsed.cards.is_empty());
    assert!(parsed.diagnostics.is_empty());
}

fn card(
    japanese_name: Option<&str>,
    english_name: Option<&str>,
    explicit_id: Option<u32>,
    line_number: usize,
) -> CardEntry {
    CardEntry {
        region: Region::Ocg,
        restriction: Restriction::Forbidden,
        japanese_name: japanese_name.map(str::to_owned),
        english_name: english_name.map(str::to_owned),
        explicit_id,
        line_number,
    }
}

fn results(answers: &[(&str, Result<Option<u32>, &str>)]) -> SearchResults {
    let mut results = SearchResults::new();
    for (name, answer) in answers {
        results.insert((*name).to_owned(), answer.map_err(str::to_owned));
    }
    results
}

#[test]
fn resolves_bilingual_and_single_name_cards() {
    let search = results(&[
        ("青眼の白龍", Ok(Some(89_631_139))),
        ("Blue-Eyes White Dragon", Ok(Some(89_631_139))),
        ("増殖するＧ", Ok(Some(23_427_709))),
    ]);
    let cards = vec![
        card(Some("青眼の白龍"), Some("Blue-Eyes White Dragon"), None, 3),
        card(Some("増殖するＧ"), None, None, 4),
    ];

    let resolved = resolve(&cards, &search);

    assert_eq!(
        resolved.cards,
        vec![
            ResolvedCard { region: Region::Ocg, restriction: Restriction::Forbidden, id: 89_631_139 },
            ResolvedCard { region: Region::Ocg, restriction: Restriction::Forbidden, id: 23_427_709 },
        ]
    );
    assert!(resolved.diagnostics.is_empty());
}

#[test]
fn explicit_ids_bypass_queries_and_names_are_cached() {
    let search = results(&[("Shared", Ok(Some(7)))]);
    let cards = vec![
        card(None, Some("Manual"), Some(42), 1),
        card(None, Some("Shared"), None, 2),
        card(None, Some("Shared"), None, 3),
    ];

    let resolved = resolve(&cards, &search);

    assert_eq!(resolved.cards.iter().map(|card| card.id).collect::<Vec<_>>(), [42, 7, 7]);
    assert_eq!(query_names(&cards), ["Shared"]);
}

#[test]
fn skips_mismatches_missing_results_and_request_failures() {
    let search = results(&[
        ("Japanese", Ok(Some(1))),
        ("English", Ok(Some(2))),
        ("Missing", Ok(None)),
        ("Failed", Err("offline")),
    ]);
    let cards = vec![
        card(Some("Japanese"), Some("English"), None, 10),
        card(None, Some("Missing"), None, 11),
        card(Some("Failed"), None, None, 12),
    ];

    let resolved = resolve(&cards, &search);

    assert!(resolved.cards.is_empty());
    assert_eq!(
        resolved.diagnostics,
        vec![
            ResolveDiagnostic {
                line_number: 10,
                message: "name lookup mismatch: Japanese `Japanese` returned 1, English `English` returned 2".to_owned(),
            },
            ResolveDiagnostic {
                line_number: 11,
                message: "no card found for English name `Missing`".to_owned(),
            },
            ResolveDiagnostic {
                line_number: 12,
                message: "failed to query Japanese name `Failed`: offline".to_owned(),
            },
        ]
    );
}

#[test]
fn reports_names_without_a_lookup() {
    let resolved = resolve(&vec![card(None, Some("Nowhere"), None, 5)], &SearchResults::new());

    assert_eq!(
        resolved.diagnostics,
        vec![ResolveDiagnostic {
            line_number: 5,
            message: "missing query result for English name `Nowhere`".to_owned(),
        }]
    );
}

#[test]
fn queries_each_name_once_in_order() {
    let cards = vec![
        card(Some("b"), Some("a"), None, 1),
        card(Some("c"), Some("b"), None, 2),
        card(Some("z"), None, Some(3), 3),
    ];

    assert_eq!(query_names(&cards), ["a", "b", "c"]);
}

#[test]
fn later_lookups_replace_earlier_ones() {
    let mut search = SearchResults::new();
    search.insert("A".to_owned(), Ok(None));
    search.insert("A".to_owned(), Ok(Some(9)));

    assert_eq!(search.get(&"A".to_owned()), Some(&Ok(Some(9))));
    assert_eq!(search.get(&"B".to_owned()), None);
}

fn resolved(region: Region, restriction: Restriction, id: u32) -> ResolvedCard {
    ResolvedCard { region, restriction, id }
}

#[test]
fn serializes_regions_and_restrictions_in_fixed_order() {
    let cards = vec![
        resolved(Region::Tcg, Restriction::SemiLimited, 6),
        resolved(Region::Ocg, Restriction::Forbidden, 1),
        resolved(Region::Tcg, Restriction::Forbidden, 4),
        resolved(Region::Ocg, Restriction::Limited, 2),
        resolved(Region::Ocg, Restriction::SemiLimited, 3),
        resolved(Region::Tcg, Restriction::Limited, 5),
        resolved(Region::Ocg, Restriction::Forbidden, 7),
    ];

    let json: Vec<Vec<Vec<u32>>> = serde_json::from_slice(&serialize(&cards).unwrap()).unwrap();

    assert_eq!(json, vec![vec![vec![1, 7], vec![2], vec![3]], vec![vec![4], vec![5], vec![6]]]);
}

#[test]
fn persists_found_and_missing_search_results() {
    let mut cache = NameCache::new();
    assert_eq!(cache.cached("Blue-Eyes"), None);
    assert_eq!(cache.store("Blue-Eyes", Some(89_631_139)), Some(89_631_139));
    assert_eq!(cache.store("Missing", None), None);

    let saved: BTreeMap<String, Option<u32>> = cache.entries().iter().cloned().collect();
    let json = serde_json::to_vec_pretty(&saved).unwrap();
    let loaded: BTreeMap<String, Option<u32>> = serde_json::from_slice(&json).unwrap();
    let reopened = NameCache::from_entries(loaded.into_iter().collect());

    assert_eq!(reopened.cached("Blue-Eyes"), Some(Some(89_631_139)));
    assert_eq!(reopened.cached("Missing"), Some(None));
    assert_eq!(reopened.cached("Other"), None);
    let (results, ask) = reopened.lookups(&vec!["Blue-Eyes".to_owned(), "Missing".to_owned()]);
    assert!(ask.is_empty());
    assert_eq!(results.get(&"Blue-Eyes".to_owned()), Some(&Ok(Some(89_631_139))));
    assert_eq!(results.get(&"Missing".to_owned()), Some(&Ok(None)));
}

#[test]
fn a_stored_answer_is_kept() {
    let mut cache = NameCache::new();
    assert_eq!(cache.store("Shared", Some(1)), Some(1));
    assert_eq!(cache.store("Shared", Some(2)), Some(1));
    assert_eq!(cache.store("Shared", None), Some(1));
    assert_eq!(cache.cached("Shared"), Some(Some(1)));
    let later_wins = NameCache::from_entries(vec![
        ("A".to_owned(), Some(1)),
        ("A".to_owned(), None),
    ]);
    assert_eq!(later_wins.cached("A"), Some(None));
}

#[test]
fn reports_a_year_run() {
    assert_eq!(input_path(2026), "2026/data/lf.list");
    assert_eq!(output_path(2026), "2026/data/lf.json");
    assert_eq!(
        skipped_line("2026/data/lf.list", 4, "explicit ID is empty"),
        "2026/data/lf.list:4: skipped: explicit ID is empty"
    );
    let parsed = parse("/// ocg\n/// forbidden\nA // B // 7\nbroken\n");
    assert_eq!(check_parsed("2026/data/lf.list", &parsed), Ok(()));
    let empty = parse("");
    let error = check_parsed("2026/data/lf.list", &empty).unwrap_err();
    assert_eq!(error, RunError::NoValidCards("2026/data/lf.list".to_owned()));
    assert_eq!(error.message(), "no valid cards found in 2026/data/lf.list");
    let resolved = resolve(&parsed.cards, &SearchResults::new());
    assert_eq!(check_resolved("2026/data/lf.json", &resolved), Ok(()));
    assert_eq!(
        summary(&parsed, &resolved, "2026/data/lf.json"),
        "wrote 1 card IDs to 2026/data/lf.json (1 skipped)"
    );
    let nothing = resolve(&Vec::new(), &SearchResults::new());
    assert_eq!(
        check_resolved("2026/data/lf.json", &nothing).unwrap_err().message(),
        "no card IDs could be resolved; 2026/data/lf.json was not written"
    );
}

#[test]
fn output_file_ends_with_a_newline() {
    let cards = vec![resolved(Region::Tcg, Restriction::Limited, 5)];
    let bytes = write_contents(&cards).unwrap();
    assert_eq!(bytes.last(), Some(&b'\n'));
    assert_eq!(&bytes[..bytes.len() - 1], &serialize(&cards).unwrap()[..]);
}

#[test]
fn asks_only_for_names_without_an_answer() {
    let mut cache = NameCache::new();
    cache.store("Known", Some(7));
    cache.store("Gone", None);
    let names = vec!["Gone".to_owned(), "Known".to_owned(), "New".to_owned()];

    let (mut results, ask) = cache.lookups(&names);
    assert_eq!(ask, ["New"]);
    assert_eq!(results.get(&"Known".to_owned()), Some(&Ok(Some(7))));
    assert_eq!(results.get(&"Gone".to_owned()), Some(&Ok(None)));
    assert_eq!(results.get(&"New".to_owned()), None);

    cache.record(&mut results, "New".to_owned(), Ok(Some(9)));
    assert_eq!(results.get(&"New".to_owned()), Some(&Ok(Some(9))));
    assert_eq!(cache.cached("New"), Some(Some(9)));

    cache.record(&mut results, "Down".to_owned(), Err("offline".to_owned()));
    assert_eq!(results.get(&"Down".to_owned()), Some(&Err("offline".to_owned())));
    assert_eq!(cache.cached("Down"), None);
}

#[test]
fn every_line_ends_up_once_in_line_order() {
    let source = "\
/// ocg
/// forbidden
A // B
broken
/// limited
// C // 5
/// nonsense
D //
";
    let parsed = parse(source);
    let card_lines: Vec<usize> = parsed.cards.iter().map(|card| card.line_number).collect();
    let skipped_lines: Vec<usize> = parsed.diagnostics.iter().map(|d| d.line_number).collect();
    assert_eq!(card_lines, [3, 6, 8]);
    assert_eq!(skipped_lines, [4, 7]);

    let search = results(&[("A", Ok(Some(1))), ("B", Ok(Some(2)))]);
    let resolved = resolve(&parsed.cards, &search);
    assert_eq!(resolved.cards.len() + resolved.diagnostics.len(), parsed.cards.len());
    assert_eq!(resolved.cards.iter().map(|card| card.id).collect::<Vec<_>>(), [5]);
}

#[test]
fn answering_every_queried_name_leaves_none_missing() {
    let cards = vec![
        card(Some("x"), Some("y"), None, 1),
        card(None, Some("z"), None, 2),
        card(Some("ignored"), None, Some(4), 3),
    ];
    let mut search = SearchResults::new();
    for name in query_names(&cards) {
        search.insert(name, Ok(None));
    }
    let resolved = resolve(&cards, &search);
    assert!(resolved
        .diagnostics
        .iter()
        .all(|d| !d.message.starts_with("missing query result")));
    assert_eq!(resolved.cards.len(), 1);
}

#[test]
fn grouping_keeps_every_card() {
    let cards = vec![
        resolved(Region::Ocg, Restriction::Forbidden, 1),
        resolved(Region::Tcg, Restriction::SemiLimited, 2),
        resolved(Region::Ocg, Restriction::Forbidden, 3),
        resolved(Region::Tcg, Restriction::Limited, 4),
    ];
    let json: Vec<Vec<Vec<u32>>> = serde_json::from_slice(&serialize(&cards).unwrap()).unwrap();
    let total: usize = json.iter().flatten().map(Vec::len).sum();
    assert_eq!(total, cards.len());
    assert_eq!(json[0][0], [1, 3]);
}

#[test]
fn storing_one_name_leaves_the_others() {
    let mut cache = NameCache::new();
    cache.store("A", Some(1));
    cache.store("B", None);
    assert_eq!(cache.cached("A"), Some(Some(1)));
    assert_eq!(cache.cached("B"), Some(None));
}

#[test]
fn cards_take_the_section_of_the_markers_before_them() {
    let source = "\
/// limited
A // B
/// tcg
/// semi-limited
C // D
/// ocg
E // F
/// forbidden
/// unknown
G // H
";
    let parsed = parse(source);
    assert_eq!(parsed.cards.len(), 2);
    assert_eq!((parsed.cards[0].region, parsed.cards[0].restriction), (Region::Tcg, Restriction::SemiLimited));
    assert_eq!(parsed.cards[0].line_number, 5);
    assert_eq!((parsed.cards[1].region, parsed.cards[1].restriction), (Region::Ocg, Restriction::Forbidden));
    assert_eq!(parsed.cards[1].line_number, 10);
    let skipped: Vec<usize> = parsed.diagnostics.iter().map(|d| d.line_number).collect();
    assert_eq!(skipped, [1, 2, 7, 9]);
    assert_eq!(parsed.diagnostics[2].message, "card appears before a restriction marker");
}

#[test]
fn a_search_takes_the_first_hit() {
    assert_eq!(first_id(&vec![]), None);
    assert_eq!(first_id(&vec![42]), Some(42));
    assert_eq!(first_id(&vec![5, 9, 1]), Some(5));
}

#[test]
fn names_are_queried_only_when_cards_parse() {
    let parsed = parse("/// ocg\n/// forbidden\nB // A\nC // D // 7\nA\n");
    assert_eq!(
        names_to_query("2026/data/lf.list", &parsed),
        Ok(vec!["A".to_owned(), "B".to_owned()])
    );
    let empty = parse("/// ocg\nbroken\n");
    assert_eq!(
        names_to_query("2026/data/lf.list", &empty),
        Err(RunError::NoValidCards("2026/data/lf.list".to_owned()))
    );
}

#[test]
fn a_year_is_written_only_when_cards_resolve() {
    let parsed = parse("/// tcg\n/// limited\nA // B // 5\nbroken\n");
    let resolved = resolve(&parsed.cards, &SearchResults::new());
    let (bytes, report) = year_output("2026/data/lf.json", &parsed, &resolved).unwrap();
    assert_eq!(bytes, write_contents(&resolved.cards).unwrap());
    let json: Vec<Vec<Vec<u32>>> = serde_json::from_slice(&bytes).unwrap();
    assert_eq!(json[1][1], vec![5]);
    assert_eq!(report, "wrote 1 card IDs to 2026/data/lf.json (1 skipped)");

    let unresolved = parse("/// tcg\n/// limited\nA //\n");
    let nothing = resolve(&unresolved.cards, &SearchResults::new());
    assert_eq!(
        year_output("2026/data/lf.json", &unresolved, &nothing),
        Err(RunError::NothingResolved("2026/data/lf.json".to_owned()))
    );
}

#[test]
fn a_year_run_reads_asks_writes_and_reports() {
    let source = "/// tcg\n/// limited\nB // A\nmissing delimiter\n";
    let skipped = parse(source).diagnostics;
    assert_eq!(skipped.len(), 1);

    let (mut run, input) = YearRun::start(2026);
    assert_eq!(input, "2026/data/lf.list");
    assert_eq!(run.phase(), YearPhase::Reading);

    let actions = run.step(YearEvent::ListRead(Some(source.to_owned())));
    assert_eq!(
        actions,
        vec![
            YearAction::Skipped(skipped_line(
                "2026/data/lf.list",
                skipped[0].line_number,
                &skipped[0].message
            )),
            YearAction::AskNames(vec!["A".to_owned(), "B".to_owned()]),
        ]
    );
    assert_eq!(run.phase(), YearPhase::Asking);

    let answers = results(&[("A", Ok(Some(7))), ("B", Ok(Some(7)))]);
    let actions = run.step(YearEvent::NamesAnswered(answers));
    let expected = write_contents(&vec![resolved(Region::Tcg, Restriction::Limited, 7)]).unwrap();
    assert_eq!(
        actions,
        vec![YearAction::WriteOutput("2026/data/lf.json".to_owned(), expected)]
    );
    assert_eq!(run.phase(), YearPhase::Writing);

    let actions = run.step(YearEvent::OutputWritten(true));
    assert_eq!(
        actions,
        vec![YearAction::Succeed("wrote 1 card IDs to 2026/data/lf.json (1 skipped)".to_owned())]
    );
    assert_eq!(run.phase(), YearPhase::Finished);
    assert!(run.step(YearEvent::OutputWritten(true)).is_empty());
}

#[test]
fn a_year_run_without_cards_asks_nothing() {
    let (mut run, _) = YearRun::start(2025);
    let actions = run.step(YearEvent::ListRead(Some("/// ocg\n".to_owned())));
    assert_eq!(
        actions,
        vec![YearAction::Fail(YearFailure::Run(RunError::NoValidCards(
            "2025/data/lf.list".to_owned()
        )))]
    );
    assert_eq!(run.phase(), YearPhase::Finished);

    let (mut unreadable, _) = YearRun::start(2025);
    assert_eq!(
        unreadable.step(YearEvent::ListRead(None)),
        vec![YearAction::Fail(YearFailure::Unreadable("2025/data/lf.list".to_owned()))]
    );
}

#[test]
fn a_year_run_writes_nothing_when_nothing_resolves() {
    let (mut run, _) = YearRun::start(2026);
    let actions = run.step(YearEvent::ListRead(Some("/// ocg\n/// limited\nA //\n".to_owned())));
    assert_eq!(actions, vec![YearAction::AskNames(vec!["A".to_owned()])]);
    assert!(run.step(YearEvent::OutputWritten(true)).is_empty());
    assert_eq!(run.phase(), YearPhase::Asking);

    let actions = run.step(YearEvent::NamesAnswered(results(&[("A", Ok(None))])));
    assert_eq!(actions.len(), 2);
    assert!(matches!(actions[0], YearAction::Skipped(_)));
    assert_eq!(
        actions[1],
        YearAction::Fail(YearFailure::Run(RunError::NothingResolved(
            "2026/data/lf.json".to_owned()
        )))
    );
    assert_eq!(run.phase(), YearPhase::Finished);
}

#[test]
fn a_year_run_fails_when_the_output_cannot_be_written() {
    let (mut run, _) = YearRun::start(2026);
    run.step(YearEvent::ListRead(Some("/// ocg\n/// limited\nA // B // 3\n".to_owned())));
    let actions = run.step(YearEvent::NamesAnswered(SearchResults::new()));
    assert!(matches!(&actions[0], YearAction::WriteOutput(path, _) if path == "2026/data/lf.json"));
    assert_eq!(
        run.step(YearEvent::OutputWritten(false)),
        vec![YearAction::Fail(YearFailure::WriteFailed("2026/data/lf.json".to_owned()))]
    );
}

#[test]
fn the_output_is_pretty_printed_with_two_space_indentation() {
    let bytes = write_contents(&vec![resolved(Region::Ocg, Restriction::Forbidden, 1)]).unwrap();
    let expected = "[\n  [\n    [\n      1\n    ],\n    [],\n    []\n  ],\n  [\n    [],\n    [],\n    []\n  ]\n]\n";
    assert_eq!(String::from_utf8(bytes).unwrap(), expected);

    let bytes = write_contents(&vec![
        resolved(Region::Tcg, Restriction::SemiLimited, 7),
        resolved(Region::Tcg, Restriction::SemiLimited, 123),
    ])
    .unwrap();
    let expected = "[\n  [\n    [],\n    [],\n    []\n  ],\n  [\n    [],\n    [],\n    [\n      7,\n      123\n    ]\n  ]\n]\n";
    assert_eq!(String::from_utf8(bytes).unwrap(), expected);
}
