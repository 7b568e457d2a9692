use ygo_wcs_lf::render::compile::{PreviewAction, PreviewEvent, PreviewFailure, PreviewPhase, PreviewRun};
use ygo_wcs_lf::staging::{StageAction, StageEvent};
use ygo_wcs_lf::limits::load_year;
use ygo_wcs_lf::render::pdf;
use ygo_wcs_lf::render::previews::{
    check_request, font_paths, ordered_card_ids, page_number, page_renames, preview_names,
    render_arguments, sort_pages, typst_source, validate_workspace, PageNameError, PreviewError,
};
use ygo_wcs_lf::render::typst::{command, compile_arguments};
use ygo_wcs_lf::render::PREVIEW_PPI;
use ygo_wcs_lf::upstream::{Upstream, UpstreamError};

#[test]
fn generates_year_pdf_source() {
    let source = pdf::typst_source(2026);

    assert!(source.contains("#import \"/typst/lf.typ\": render-limit-list"));
    assert!(source.contains("#let limits = json(\"/2026/data/lf.json\")"));
    assert!(source.contains("#render-limit-list(2026, limits)"));
}

#[test]
fn year_pdf_source_is_exact() {
    assert_eq!(
        pdf::typst_source(2025),
        "#import \"/typst/lf.typ\": render-limit-list\n\n#let limits = json(\"/2025/data/lf.json\")\n\n#render-limit-list(2025, limits)\n"
    );
}

#[test]
fn generates_ot_card_source() {
    let source = typst_source(&vec![89_631_139, 23_427_709]);

    assert!(source.contains(
        "#import \"/vendor/typst-ygo/lib/mod.typ\": ot_card_by_id, ot_card_data"
    ));
    assert!(source.contains("#let ids = (89631139, 23427709,)"));
    assert!(source.contains("ot_card_by_id(id, cards: cards)"));
}

#[test]
fn card_source_of_one_and_no_cards() {
    assert!(typst_source(&vec![7]).contains("#let ids = (7,)"));
    assert!(typst_source(&vec![]).contains("#let ids = (,)"));
}

#[test]
fn parses_preview_page_numbers() {
    assert_eq!(page_number("page-1.png").unwrap(), 1);
    assert_eq!(page_number("page-0012.png").unwrap(), 12);
    assert!(page_number("card-1.png").is_err());
}

#[test]
fn page_numbers_follow_integer_parsing() {
    assert_eq!(page_number("page-+3.png"), Ok(3));
    assert_eq!(page_number("page-.png"), Err(PageNameError::InvalidNumber));
    assert_eq!(page_number("page-4294967296.png"), Err(PageNameError::InvalidNumber));
    assert_eq!(page_number("page-4294967295.png"), Ok(u32::MAX));
    assert_eq!(page_number("page-1.jpg"), Err(PageNameError::Unexpected));
    assert_eq!(page_number("page-"), Err(PageNameError::Unexpected));
    for n in [0u32, 9, 10, 99, 100, 123_456] {
        assert_eq!(page_number(&format!("page-{n}.png")), Ok(n));
    }
}

#[test]
fn orders_card_ids_by_first_appearance() {
    let first = load_year(2025, b"[[[3,1],[2],[]],[[1],[],[4]]]").unwrap();
    let second = load_year(2026, b"[[[4,5],[],[]],[[],[],[3,6]]]").unwrap();

    assert_eq!(ordered_card_ids(&vec![first, second]), vec![3, 1, 2, 4, 5, 6]);
    assert_eq!(ordered_card_ids(&vec![]), Vec::<u32>::new());
}

#[test]
fn checks_resolution_and_cards() {
    assert_eq!(check_request(PREVIEW_PPI, &vec![1]), Ok(()));
    assert_eq!(check_request(35, &vec![1]), Err(PreviewError::ResolutionOutOfRange));
    assert_eq!(check_request(145, &vec![1]), Err(PreviewError::ResolutionOutOfRange));
    assert_eq!(check_request(36, &vec![]), Err(PreviewError::NoCards));
    assert_eq!(check_request(144, &vec![2]), Ok(()));
    assert_eq!(
        PreviewError::ResolutionOutOfRange.message(),
        "preview PPI must be between 36 and 144"
    );
    assert_eq!(PreviewError::NoCards.message(), "no card IDs found to render");
}

#[test]
fn names_previews_after_their_cards() {
    assert_eq!(
        preview_names(2, &vec![89_631_139, 23_427_709]).unwrap(),
        vec!["89631139.png".to_owned(), "23427709.png".to_owned()]
    );
    let error = preview_names(1, &vec![1, 2]).unwrap_err();
    assert_eq!(error, PreviewError::PageCountMismatch(1, 2));
    assert_eq!(error.message(), "Typst rendered 1 pages for 2 cards");
}

#[test]
fn puts_pages_in_page_order() {
    let sorted = sort_pages(vec![
        (3, "page-3.png".to_owned()),
        (1, "page-1.png".to_owned()),
        (2, "page-2.png".to_owned()),
    ]);
    let names: Vec<String> = sorted.into_iter().map(|(_, name)| name).collect();
    assert_eq!(names, ["page-1.png", "page-2.png", "page-3.png"]);
    assert!(sort_pages(Vec::new()).is_empty());
}

#[test]
fn requires_workspace_files_and_fonts() {
    assert_eq!(validate_workspace("ws", &vec![true, true]), Ok(()));
    let error = validate_workspace("ws", &vec![true, false]).unwrap_err();
    assert_eq!(
        error,
        PreviewError::WorkspaceFileMissing("ws/assets/ot/card/ot.json".to_owned())
    );
    assert_eq!(
        error.message(),
        "required typst-ygo file is missing: ws/assets/ot/card/ot.json; run `prepare` first"
    );
    assert_eq!(
        validate_workspace("ws", &vec![false, false]),
        Err(PreviewError::WorkspaceFileMissing("ws/lib/mod.typ".to_owned()))
    );
    assert_eq!(
        font_paths("ws", &vec![true, true]).unwrap(),
        vec!["ws/assets/ot/font".to_owned(), "ws/assets/rd/font".to_owned()]
    );
    let error = font_paths("ws", &vec![true, false]).unwrap_err();
    assert_eq!(
        error.message(),
        "required Typst font directory is missing: ws/assets/rd/font"
    );
}

#[test]
fn builds_typst_arguments() {
    let fonts = vec!["a".to_owned(), "b".to_owned()];
    assert_eq!(
        compile_arguments("/root", &fonts),
        ["compile", "--root", "/root", "--font-path", "a", "--font-path", "b"]
    );
    assert_eq!(
        render_arguments("/root", &fonts, 72, "ot.typ", "page-{0p}.png"),
        [
            "compile", "--root", "/root", "--font-path", "a", "--font-path", "b", "--ppi", "72",
            "ot.typ", "page-{0p}.png"
        ]
    );
}

#[test]
fn typst_command_needs_prepared_workspace() {
    let upstream = Upstream::at("/p");
    let all = vec![true; 5];
    let ready = vec![true, true];
    assert_eq!(
        command("/p", &upstream, &all, &ready, &vec![true, true]).unwrap(),
        [
            "compile",
            "--root",
            "/p",
            "--font-path",
            "/p/vendor/typst-ygo/assets/ot/font",
            "--font-path",
            "/p/vendor/typst-ygo/assets/rd/font"
        ]
    );
    assert_eq!(
        command("/p", &upstream, &vec![true, false, true, true, false], &ready, &vec![true, true]),
        Err(UpstreamError::SourcesIncomplete(vec![
            "/p/upstream/ygo-assets/assets/ot/font".to_owned(),
            "/p/upstream/ygo-assets/assets/ot/images".to_owned(),
        ]))
    );
    assert_eq!(
        command("/p", &upstream, &all, &vec![false, true], &vec![true, true]),
        Err(UpstreamError::ResourcesIncomplete(vec![
            "/p/vendor/typst-ygo/assets/ot/card/ot.json".to_owned()
        ]))
    );
    let error = command("/p", &upstream, &all, &ready, &vec![false, true]).unwrap_err();
    assert_eq!(
        error.message(),
        "required Typst font directory is missing: /p/vendor/typst-ygo/assets/ot/font; run `prepare` first"
    );
}

#[test]
fn rendered_pages_are_renamed_in_page_order() {
    let pages = vec![
        (3, "ot-3.png".to_owned()),
        (1, "ot-1.png".to_owned()),
        (2, "ot-2.png".to_owned()),
    ];
    assert_eq!(
        page_renames(pages, &vec![40, 5, 123]),
        Ok(vec![
            ("ot-1.png".to_owned(), "40.png".to_owned()),
            ("ot-2.png".to_owned(), "5.png".to_owned()),
            ("ot-3.png".to_owned(), "123.png".to_owned()),
        ])
    );
    let error = page_renames(vec![(1, "ot-1.png".to_owned())], &vec![1, 2]).unwrap_err();
    assert_eq!(error, PreviewError::PageCountMismatch(1, 2));
}

#[test]
fn a_rendering_replaces_the_previews_only_once_every_page_is_named() {
    let (mut run, action) = PreviewRun::start(vec![40, 5], 72, "/p".to_owned(), "/p/ws".to_owned());
    assert_eq!(
        action,
        PreviewAction::CheckFiles(vec![
            "/p/ws/lib/mod.typ".to_owned(),
            "/p/ws/assets/ot/card/ot.json".to_owned()
        ])
    );
    assert_eq!(
        run.step(PreviewEvent::FilesPresent(vec![true, true])),
        Some(PreviewAction::Prepare(typst_source(&vec![40, 5])))
    );
    assert_eq!(
        run.step(PreviewEvent::Prepared(Some(("/t/ot.typ".to_owned(), "/t/page-{0p}.png".to_owned())))),
        Some(PreviewAction::CheckFonts(vec![
            "/p/ws/assets/ot/font".to_owned(),
            "/p/ws/assets/rd/font".to_owned()
        ]))
    );
    let fonts = vec!["/p/ws/assets/ot/font".to_owned(), "/p/ws/assets/rd/font".to_owned()];
    assert_eq!(
        run.step(PreviewEvent::FontsPresent(vec![true, true])),
        Some(PreviewAction::Render(render_arguments("/p", &fonts, 72, "/t/ot.typ", "/t/page-{0p}.png")))
    );
    assert_eq!(run.step(PreviewEvent::Staged(StageEvent::Exists(true))), None);
    assert_eq!(run.step(PreviewEvent::Rendered(true)), Some(PreviewAction::ListPages));
    assert_eq!(
        run.step(PreviewEvent::Pages(vec![(2, "page-2.png".to_owned()), (1, "page-1.png".to_owned())])),
        Some(PreviewAction::Rename(vec![
            ("page-1.png".to_owned(), "40.png".to_owned()),
            ("page-2.png".to_owned(), "5.png".to_owned()),
        ]))
    );
    assert_eq!(run.step(PreviewEvent::Renamed(true)), Some(PreviewAction::ProbeDestination));
    assert_eq!(
        run.step(PreviewEvent::Staged(StageEvent::Exists(false))),
        Some(PreviewAction::Stage(StageAction::Place))
    );
    assert_eq!(
        run.step(PreviewEvent::Staged(StageEvent::Placed(true))),
        Some(PreviewAction::Succeed("rendered 2 card previews at 72 PPI to build/previews/ot".to_owned()))
    );
    assert_eq!(run.phase(), PreviewPhase::Finished);
}

#[test]
fn a_rendering_stops_before_touching_the_previews_when_something_is_wrong() {
    let (_, action) = PreviewRun::start(vec![1], 20, "/p".to_owned(), "/p/ws".to_owned());
    assert_eq!(
        action,
        PreviewAction::Fail(PreviewFailure::Invalid(PreviewError::ResolutionOutOfRange))
    );
    let (_, action) = PreviewRun::start(vec![], 72, "/p".to_owned(), "/p/ws".to_owned());
    assert_eq!(action, PreviewAction::Fail(PreviewFailure::Invalid(PreviewError::NoCards)));

    let (mut run, _) = PreviewRun::start(vec![1, 2], 72, "/p".to_owned(), "/p/ws".to_owned());
    run.step(PreviewEvent::FilesPresent(vec![true, true]));
    run.step(PreviewEvent::Prepared(Some(("s".to_owned(), "p".to_owned()))));
    run.step(PreviewEvent::FontsPresent(vec![true, true]));
    run.step(PreviewEvent::Rendered(true));
    assert_eq!(
        run.step(PreviewEvent::Pages(vec![(1, "page-1.png".to_owned())])),
        Some(PreviewAction::Fail(PreviewFailure::Invalid(PreviewError::PageCountMismatch(1, 2))))
    );

    let (mut failing, _) = PreviewRun::start(vec![1], 72, "/p".to_owned(), "/p/ws".to_owned());
    assert_eq!(
        failing.step(PreviewEvent::FilesPresent(vec![true, false])),
        Some(PreviewAction::Fail(PreviewFailure::Invalid(PreviewError::WorkspaceFileMissing(
            "/p/ws/assets/ot/card/ot.json".to_owned()
        ))))
    );
}
