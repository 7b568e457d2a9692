use ygo_wcs_lf::assembly::{Assembly, AssemblyAction, AssemblyEvent, AssemblyFailure, AssemblyPhase};
use ygo_wcs_lf::staging::{StageAction, StageEvent};
use ygo_wcs_lf::archive::{entry_action, is_metadata, safe_relative_path, ArchiveError, EntryAction, EntryKind};
use ygo_wcs_lf::download::{after_attempt, failure_context, DownloadStep, ATTEMPTS};
use image::ImageEncoder;
use ygo_wcs_lf::images::{
    image_jobs, ImageJob,
    cache_image, convert_png_to_jpeg, converts_download, fetch_report, image_file_name,
    image_kind, image_url, outcome, plan_image, validate_image, ConvertError, ImageError,
    ImageKind, ImagePlan, Preparation,
};
use ygo_wcs_lf::upstream::{ensure_directory_link, LinkAction, Upstream, UpstreamError};
use ygo_wcs_lf::workspace::{
    assets_root, copy_action, preserve_center_images, requirement_paths, single_directory,
    validate_workspace, CopyAction, WorkspaceError,
};

#[test]
fn accepts_normal_relative_paths() {
    assert_eq!(
        safe_relative_path("./assets/ot/card/ot.json").unwrap(),
        "assets/ot/card/ot.json"
    );
}

#[test]
fn rejects_parent_and_absolute_paths() {
    assert!(safe_relative_path("../escape").is_err());
    assert!(safe_relative_path("/absolute").is_err());
}

#[test]
fn normalizes_archive_paths_like_path_components() {
    assert_eq!(safe_relative_path("a//b/./c/").unwrap(), "a/b/c");
    assert_eq!(safe_relative_path("typst-ygo-main/").unwrap(), "typst-ygo-main");
    assert_eq!(safe_relative_path("a/../b"), Err(ArchiveError::UnsafePath("a/../b".to_owned())));
    assert_eq!(safe_relative_path("."), Err(ArchiveError::EmptyPath));
    assert_eq!(safe_relative_path(""), Err(ArchiveError::EmptyPath));
    assert_eq!(safe_relative_path("..."), Ok("...".to_owned()));
    assert_eq!(
        ArchiveError::UnsafePath("../escape".to_owned()).message(),
        "unsafe archive path: ../escape"
    );
    assert_eq!(ArchiveError::EmptyPath.message(), "archive path is empty");
}

#[test]
fn allows_only_non_filesystem_metadata_entries() {
    assert!(is_metadata(EntryKind::XGlobalHeader));
    assert!(is_metadata(EntryKind::XHeader));
    assert!(!is_metadata(EntryKind::Symlink));
    assert!(!is_metadata(EntryKind::Link));
}

#[test]
fn decides_each_archive_entry() {
    assert_eq!(entry_action("./x", EntryKind::GnuLongName), Ok(EntryAction::Skip));
    assert_eq!(
        entry_action("./dir/", EntryKind::Directory),
        Ok(EntryAction::CreateDirectory("dir".to_owned()))
    );
    assert_eq!(
        entry_action("dir/file", EntryKind::Regular),
        Ok(EntryAction::WriteFile("dir/file".to_owned()))
    );
    assert_eq!(
        entry_action("dir/file", EntryKind::Continuous),
        Ok(EntryAction::WriteFile("dir/file".to_owned()))
    );
    let refused = entry_action("dir/link", EntryKind::Symlink).unwrap_err();
    assert_eq!(refused, ArchiveError::EntryTypeNotAllowed("dir/link".to_owned()));
    assert_eq!(refused.message(), "archive entry type is not allowed: dir/link");
    assert!(matches!(
        entry_action("../x", EntryKind::XHeader),
        Err(ArchiveError::UnsafePath(_))
    ));
}

#[test]
fn finds_single_archive_root() {
    assert_eq!(
        single_directory("/tmp/x", vec!["/tmp/x/root".to_owned()], false).unwrap(),
        "/tmp/x/root"
    );
}

#[test]
fn refuses_archives_without_a_single_root() {
    let error = single_directory("/tmp/x", vec![], false).unwrap_err();
    assert_eq!(error.message(), "expected one archive root directory in /tmp/x");
    assert!(single_directory("/tmp/x", vec!["a".to_owned()], true).is_err());
    assert!(single_directory("/tmp/x", vec!["a".to_owned(), "b".to_owned()], false).is_err());
}

#[test]
fn preserves_existing_center_images() {
    let (from, to) = preserve_center_images("previous", "staged");
    assert_eq!(from, "previous/assets/ot/images");
    assert_eq!(to, "staged/assets/ot/images");
}

#[test]
fn finds_the_assets_of_an_extracted_archive() {
    assert_eq!(assets_root("x", true, true), Some("x/assets".to_owned()));
    assert_eq!(assets_root("x", false, true), Some("x".to_owned()));
    assert_eq!(assets_root("x", false, false), None);
}

#[test]
fn checks_an_assembled_workspace() {
    assert_eq!(
        requirement_paths("ws"),
        ["ws/lib/mod.typ", "ws/assets/ot/images", "ws/assets/ot/card/ot.json"]
    );
    assert_eq!(validate_workspace(&vec![true, true, true]), Ok(()));
    let error = validate_workspace(&vec![false, true, false]).unwrap_err();
    assert_eq!(
        error,
        WorkspaceError::Incomplete(vec!["lib/mod.typ".to_owned(), "assets/ot/card/ot.json".to_owned()])
    );
    assert_eq!(
        error.message(),
        "upstream workspace is incomplete: lib/mod.typ, assets/ot/card/ot.json"
    );
}

#[test]
fn recognizes_jpeg_and_png_headers() {
    let jpeg = [0xff, 0xd8, 0xff, 0xe0, 0, 0, 0, 0];
    let png = [0x89, b'P', b'N', b'G', 0x0d, 0x0a, 0x1a, 0x0a];

    assert_eq!(image_kind(&jpeg), Some(ImageKind::Jpeg));
    assert_eq!(image_kind(&png), Some(ImageKind::Png));
    assert!(image_kind(b"not jpeg").is_none());
    assert!(image_kind(&[]).is_none());
    assert!(image_kind(&[0xff, 0xd8]).is_none());
}

#[test]
fn validates_downloads_and_cache() {
    assert_eq!(validate_image(Some(ImageKind::Png)), Ok(()));
    assert_eq!(validate_image(None), Err(ImageError::NeitherJpegNorPng));
    assert!(!cache_image(Some(ImageKind::Jpeg)));
    assert!(cache_image(Some(ImageKind::Png)));
    assert!(cache_image(None));
    assert!(converts_download(Some(ImageKind::Png)));
    assert!(!converts_download(Some(ImageKind::Jpeg)));
    assert_eq!(image_file_name(101), "101.jpg");
    assert_eq!(image_url(101), "https://images.ygoprodeck.com/images/cards_cropped/101.jpg");
}

#[test]
fn seeds_cache_from_existing_workspace_image() {
    let plan = plan_image(Some(ImageKind::Jpeg), None);
    assert_eq!(plan, ImagePlan::Reuse);
    assert_eq!(outcome(plan), Preparation::Reused);
    assert!(cache_image(None));
}

#[test]
fn restores_workspace_image_from_cache() {
    let plan = plan_image(None, Some(ImageKind::Jpeg));
    assert_eq!(plan, ImagePlan::Restore);
    assert_eq!(outcome(plan), Preparation::Restored);
}

#[test]
fn plans_every_case() {
    assert_eq!(plan_image(Some(ImageKind::Png), Some(ImageKind::Jpeg)), ImagePlan::ConvertAndReuse);
    assert_eq!(outcome(ImagePlan::ConvertAndReuse), Preparation::Converted);
    assert_eq!(plan_image(None, Some(ImageKind::Png)), ImagePlan::ConvertAndRestore);
    assert_eq!(outcome(ImagePlan::ConvertAndRestore), Preparation::Restored);
    assert_eq!(plan_image(None, None), ImagePlan::Download);
    assert_eq!(outcome(ImagePlan::Download), Preparation::Downloaded);
}

#[test]
fn reports_a_run_over_the_images() {
    let results = vec![
        Ok(Preparation::Downloaded),
        Ok(Preparation::Reused),
        Ok(Preparation::Converted),
        Ok(Preparation::Restored),
        Ok(Preparation::Reused),
    ];
    assert_eq!(
        fetch_report(&results),
        Ok("prepared 5 center images (1 downloaded, 1 restored from cache, 1 converted, 2 reused)".to_owned())
    );
    let mut failed: Vec<Result<Preparation, String>> = vec![Ok(Preparation::Reused)];
    for k in 0..12 {
        failed.push(Err(format!("failure {k}")));
    }
    let report = fetch_report(&failed).unwrap_err();
    assert!(report.starts_with("12 center image preparation(s) failed:\n- failure 0\n- failure 1\n"));
    assert!(report.ends_with("- failure 9"));
    assert!(!report.contains("failure 10"));
    assert_eq!(
        fetch_report(&vec![Err("x".to_owned())]),
        Err("1 center image preparation(s) failed:\n- x".to_owned())
    );
}

#[test]
fn retries_downloads_with_growing_pauses() {
    assert_eq!(ATTEMPTS, 3);
    assert_eq!(after_attempt(1, true), DownloadStep::Persist);
    assert_eq!(after_attempt(1, false), DownloadStep::RetryAfter(1));
    assert_eq!(after_attempt(2, false), DownloadStep::RetryAfter(2));
    assert_eq!(after_attempt(3, false), DownloadStep::GiveUp);
    assert_eq!(after_attempt(3, true), DownloadStep::Persist);
    assert_eq!(failure_context("https://x"), "failed to download https://x");
}

#[test]
fn links_template_to_versioned_assets() {
    let upstream = Upstream::at("/p");
    assert_eq!(upstream.template(), "/p/vendor/typst-ygo");
    let links = upstream.base_links();
    assert_eq!(links[0], ("/p/upstream/typst-ygo/lib".to_owned(), "/p/vendor/typst-ygo/lib".to_owned()));
    assert_eq!(
        links[1],
        ("/p/upstream/ygo-assets/assets/rd".to_owned(), "/p/vendor/typst-ygo/assets/rd".to_owned())
    );
    assert_eq!(
        upstream.ot_entry_link("font", true).unwrap(),
        Some((
            "/p/upstream/ygo-assets/assets/ot/font".to_owned(),
            "/p/vendor/typst-ygo/assets/ot/font".to_owned()
        ))
    );
    assert_eq!(upstream.ot_entry_link("card", true).unwrap(), None);
    assert_eq!(upstream.ot_entry_link("images", false).unwrap(), None);
    let error = upstream.ot_entry_link("README", false).unwrap_err();
    assert_eq!(
        error.message(),
        "unexpected asset source file: /p/upstream/ygo-assets/assets/ot/README"
    );
    assert_eq!(
        upstream.created_directories(),
        [
            "/p/vendor/typst-ygo/assets/ot",
            "/p/vendor/typst-ygo/assets/ot/card",
            "/p/vendor/typst-ygo/assets/ot/images"
        ]
    );
    assert_eq!(upstream.card_data(), "/p/vendor/typst-ygo/assets/ot/card/ot.json");
    assert_eq!(upstream.center_images(), "/p/vendor/typst-ygo/assets/ot/images");
    assert_eq!(
        upstream.font_directories(),
        ["/p/vendor/typst-ygo/assets/ot/font", "/p/vendor/typst-ygo/assets/rd/font"]
    );
}

#[test]
fn rejects_conflicting_asset_directory() {
    assert_eq!(ensure_directory_link("src", "dst", false, false), Ok(LinkAction::Create));
    assert_eq!(ensure_directory_link("src", "dst", true, true), Ok(LinkAction::Keep));
    let error = ensure_directory_link("src", "dst", true, false).unwrap_err();
    assert_eq!(error, UpstreamError::NotALink("dst".to_owned(), "src".to_owned()));
    assert_eq!(
        error.message(),
        "dst must be a link to src; remove it before preparing resources"
    );
}

#[test]
fn checks_upstream_sources() {
    let upstream = Upstream::at("/p");
    assert_eq!(upstream.validate_sources(&vec![true; 5]), Ok(()));
    let error = upstream.validate_sources(&vec![false, true, true, true, true]).unwrap_err();
    assert_eq!(
        error.message(),
        "upstream submodules are incomplete: /p/upstream/typst-ygo/lib/mod.typ; run `git submodule update --init`"
    );
    let error = upstream.validate_ready(&vec![true; 5], &vec![false, false]).unwrap_err();
    assert_eq!(
        error.message(),
        "upstream resources are incomplete: /p/vendor/typst-ygo/assets/ot/card/ot.json, /p/vendor/typst-ygo/assets/ot/images; run `prepare` first"
    );
    assert_eq!(upstream.validate_ready(&vec![true; 5], &vec![true, true]), Ok(()));
}

#[test]
fn cache_files_live_under_the_cache_root() {
    assert_eq!(ygo_wcs_lf::paths::path("card-names.json"), ".cache/ygo-wcs-lf/card-names.json");
    assert_eq!(ygo_wcs_lf::paths::path("card-images"), ".cache/ygo-wcs-lf/card-images");
}

#[test]
fn copies_directory_contents_recursively() {
    assert_eq!(copy_action("source/nested", true, false), Ok(CopyAction::Descend));
    assert_eq!(copy_action("source/nested/file.txt", false, true), Ok(CopyAction::Copy));
    let error = copy_action("source/link", false, false).unwrap_err();
    assert_eq!(error.message(), "workspace source links are not allowed: source/link");
}

#[test]
fn converts_png_content_at_jpg_path_to_jpeg() {
    let mut png = Vec::new();
    image::codecs::png::PngEncoder::new(&mut png)
        .write_image(&[255, 0, 0], 1, 1, image::ExtendedColorType::Rgb8)
        .unwrap();
    assert_eq!(image_kind(&png), Some(ImageKind::Png));

    let jpeg = convert_png_to_jpeg(&png).unwrap();

    assert_eq!(image_kind(&jpeg), Some(ImageKind::Jpeg));
    let decoded = image::load_from_memory(&jpeg).unwrap();
    assert_eq!((decoded.width(), decoded.height()), (1, 1));
}

#[test]
fn refuses_to_convert_what_is_no_image() {
    assert_eq!(convert_png_to_jpeg(b"not an image"), Err(ConvertError::Decode));
    assert_eq!(convert_png_to_jpeg(&[]), Err(ConvertError::Decode));
}

#[test]
fn prepares_each_required_image_once_at_its_paths() {
    let jobs = image_jobs(&vec![23_427_709, 89_631_139], "images", ".cache/ygo-wcs-lf/card-images/");
    assert_eq!(
        jobs,
        vec![
            ImageJob {
                image_id: 23_427_709,
                destination: "images/23427709.jpg".to_owned(),
                cached: ".cache/ygo-wcs-lf/card-images/23427709.jpg".to_owned(),
            },
            ImageJob {
                image_id: 89_631_139,
                destination: "images/89631139.jpg".to_owned(),
                cached: ".cache/ygo-wcs-lf/card-images/89631139.jpg".to_owned(),
            },
        ]
    );
    assert!(image_jobs(&vec![], "images", "cache").is_empty());
}

#[test]
fn assembly_keeps_images_checks_and_then_installs() {
    let (mut assembly, previous) =
        Assembly::start("vendor/typst-ygo".to_owned(), "tmp/typst-ygo".to_owned());
    assert_eq!(previous, "vendor/typst-ygo/assets/ot/images");
    assert_eq!(assembly.step(AssemblyEvent::Staged(StageEvent::Exists(true))), None);
    assert_eq!(
        assembly.step(AssemblyEvent::PreviousImages(true)),
        Some(AssemblyAction::CopyImages(
            "vendor/typst-ygo/assets/ot/images".to_owned(),
            "tmp/typst-ygo/assets/ot/images".to_owned()
        ))
    );
    assert_eq!(
        assembly.step(AssemblyEvent::ImagesCopied(true)),
        Some(AssemblyAction::Check(vec![
            "tmp/typst-ygo/lib/mod.typ".to_owned(),
            "tmp/typst-ygo/assets/ot/images".to_owned(),
            "tmp/typst-ygo/assets/ot/card/ot.json".to_owned(),
        ]))
    );
    assert_eq!(
        assembly.step(AssemblyEvent::Present(vec![true, true, true])),
        Some(AssemblyAction::ProbeDestination)
    );
    assert_eq!(
        assembly.step(AssemblyEvent::Staged(StageEvent::Exists(true))),
        Some(AssemblyAction::Stage(StageAction::MoveAside))
    );
    assert_eq!(
        assembly.step(AssemblyEvent::Staged(StageEvent::MovedAside(true))),
        Some(AssemblyAction::Stage(StageAction::Place))
    );
    assert_eq!(
        assembly.step(AssemblyEvent::Staged(StageEvent::Placed(true))),
        Some(AssemblyAction::Done)
    );
    assert_eq!(assembly.phase(), AssemblyPhase::Finished);
}

#[test]
fn assembly_never_installs_an_incomplete_workspace() {
    let (mut assembly, _) = Assembly::start("vendor/typst-ygo".to_owned(), "staged".to_owned());
    assert!(matches!(
        assembly.step(AssemblyEvent::PreviousImages(false)),
        Some(AssemblyAction::Check(_))
    ));
    assert_eq!(assembly.step(AssemblyEvent::Present(vec![true, false])), None);
    assert_eq!(
        assembly.step(AssemblyEvent::Present(vec![true, false, true])),
        Some(AssemblyAction::Fail(AssemblyFailure::Invalid(WorkspaceError::Incomplete(vec![
            "assets/ot/images".to_owned()
        ]))))
    );

    let (mut copying, _) = Assembly::start("vendor/typst-ygo".to_owned(), "staged".to_owned());
    copying.step(AssemblyEvent::PreviousImages(true));
    assert_eq!(
        copying.step(AssemblyEvent::ImagesCopied(false)),
        Some(AssemblyAction::Fail(AssemblyFailure::ImagesNotCopied))
    );
}
