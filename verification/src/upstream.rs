//! The upstream template and assets: where they are checked out, where the
//! template workspace that Typst reads is laid out, and what must exist
//! before preparing and before rendering.

use vstd::prelude::*;

use crate::paths::{join, join_spec, list, list_spec, missing, missing_spec};
use crate::text::{chars_eq, chars_of, push_str, string_of, strings_view};

verus! {

/// The checked-out sources and the workspace assembled from them.
pub struct Upstream {
    template_source: String,
    assets_source: String,
    workspace: String,
}

pub struct UpstreamView {
    pub template_source: Seq<char>,
    pub assets_source: Seq<char>,
    pub workspace: Seq<char>,
}

impl View for Upstream {
    type V = UpstreamView;

    closed spec fn view(&self) -> UpstreamView {
        UpstreamView {
            template_source: self.template_source@,
            assets_source: self.assets_source@,
            workspace: self.workspace@,
        }
    }
}

/// The sources that preparing needs, in the order they are checked.
pub open spec fn required_sources_spec(u: UpstreamView) -> Seq<Seq<char>> {
    seq![
        join_spec(u.template_source, "lib/mod.typ"@),
        join_spec(u.assets_source, "ot/font"@),
        join_spec(u.assets_source, "rd/font"@),
        join_spec(u.assets_source, "ot/card"@),
        join_spec(u.assets_source, "ot/images"@),
    ]
}

/// The prepared resources that rendering needs.
pub open spec fn required_resources_spec(u: UpstreamView) -> Seq<Seq<char>> {
    seq![
        join_spec(u.workspace, "assets/ot/card/ot.json"@),
        join_spec(u.workspace, "assets/ot/images"@),
    ]
}

/// Why the upstream sources or the workspace cannot be used.
#[derive(Debug, PartialEq, Eq)]
pub enum UpstreamError {
    /// These sources are not checked out.
    SourcesIncomplete(Vec<String>),
    /// These prepared resources are missing.
    ResourcesIncomplete(Vec<String>),
    /// The asset sources hold a file where only directories are expected.
    UnexpectedSourceFile(String),
    /// Something other than the expected link is in the way: the path, and
    /// the directory it should link to.
    NotALink(String, String),
    /// A font directory that Typst needs is missing.
    FontDirectoryMissing(String),
}

impl UpstreamError {
    /// The message that reports the error.
    pub fn message(&self) -> (m: String)
        ensures
            m@ == match self {
                UpstreamError::SourcesIncomplete(paths) => "upstream submodules are incomplete: "@
                    + list_spec(strings_view(paths@))
                    + "; run `git submodule update --init`"@,
                UpstreamError::ResourcesIncomplete(paths) => "upstream resources are incomplete: "@
                    + list_spec(strings_view(paths@)) + "; run `prepare` first"@,
                UpstreamError::UnexpectedSourceFile(path) => "unexpected asset source file: "@
                    + path@,
                UpstreamError::NotALink(link, source) => link@ + " must be a link to "@ + source@
                    + "; remove it before preparing resources"@,
                UpstreamError::FontDirectoryMissing(path) =>
                    "required Typst font directory is missing: "@ + path@
                    + "; run `prepare` first"@,
            },
    {
        let mut out: Vec<char> = Vec::new();
        match self {
            UpstreamError::SourcesIncomplete(paths) => {
                push_str(&mut out, "upstream submodules are incomplete: ");
                push_str(&mut out, list(paths).as_str());
                push_str(&mut out, "; run `git submodule update --init`");
            },
            UpstreamError::ResourcesIncomplete(paths) => {
                push_str(&mut out, "upstream resources are incomplete: ");
                push_str(&mut out, list(paths).as_str());
                push_str(&mut out, "; run `prepare` first");
            },
            UpstreamError::UnexpectedSourceFile(path) => {
                push_str(&mut out, "unexpected asset source file: ");
                push_str(&mut out, path.as_str());
            },
            UpstreamError::NotALink(link, source) => {
                push_str(&mut out, link.as_str());
                push_str(&mut out, " must be a link to ");
                push_str(&mut out, source.as_str());
                push_str(&mut out, "; remove it before preparing resources");
            },
            UpstreamError::FontDirectoryMissing(path) => {
                push_str(&mut out, "required Typst font directory is missing: ");
                push_str(&mut out, path.as_str());
                push_str(&mut out, "; run `prepare` first");
            },
        }
        string_of(&out)
    }
}

/// What to do about a directory link that the workspace needs.
#[derive(Clone, Copy, Debug, PartialEq, Eq, Structural)]
pub enum LinkAction {
    /// The link is there and points to the right directory.
    Keep,
    /// Nothing is there yet: create the link.
    Create,
}

/// Decides about the link `link` to `source`: nothing there is created,
/// a link to `source` is kept, anything else is an error.
pub fn ensure_directory_link(source: &str, link: &str, exists: bool, links_to_source: bool) -> (r:
    Result<LinkAction, UpstreamError>)
    ensures
        !exists ==> r == Ok::<LinkAction, UpstreamError>(LinkAction::Create),
        exists && links_to_source ==> r == Ok::<LinkAction, UpstreamError>(LinkAction::Keep),
        exists && !links_to_source ==> (r matches Err(UpstreamError::NotALink(l, s)) && l@
            == link@ && s@ == source@),
{
    if !exists {
        return Ok(LinkAction::Create);
    }
    if links_to_source {
        return Ok(LinkAction::Keep);
    }
    Err(UpstreamError::NotALink(string_of(&chars_of(link)), string_of(&chars_of(source))))
}

impl Upstream {
    /// The sources and workspace of the project at `project_root`.
    pub fn at(project_root: &str) -> (u: Upstream)
        ensures
            u@.template_source == join_spec(project_root@, "upstream/typst-ygo"@),
            u@.assets_source == join_spec(project_root@, "upstream/ygo-assets/assets"@),
            u@.workspace == join_spec(project_root@, "vendor/typst-ygo"@),
    {
        Upstream {
            template_source: join(project_root, "upstream/typst-ygo"),
            assets_source: join(project_root, "upstream/ygo-assets/assets"),
            workspace: join(project_root, "vendor/typst-ygo"),
        }
    }

    /// The template workspace that Typst reads.
    pub fn template(&self) -> (p: &String)
        ensures
            p@ == self@.workspace,
    {
        &self.workspace
    }

    /// Where the OT card data is kept in the workspace.
    pub fn card_data(&self) -> (p: String)
        ensures
            p@ == join_spec(self@.workspace, "assets/ot/card/ot.json"@),
    {
        join(self.workspace.as_str(), "assets/ot/card/ot.json")
    }

    /// Where the center images are kept in the workspace.
    pub fn center_images(&self) -> (p: String)
        ensures
            p@ == join_spec(self@.workspace, "assets/ot/images"@),
    {
        join(self.workspace.as_str(), "assets/ot/images")
    }

    /// The font directories of the workspace.
    pub fn font_directories(&self) -> (ps: Vec<String>)
        ensures
            strings_view(ps@) == seq![
                join_spec(self@.workspace, "assets/ot/font"@),
                join_spec(self@.workspace, "assets/rd/font"@),
            ],
    {
        let v = vec![
            join(self.workspace.as_str(), "assets/ot/font"),
            join(self.workspace.as_str(), "assets/rd/font"),
        ];
        assert(strings_view(v@) == seq![v@[0]@, v@[1]@]);
        v
    }

    /// The sources that must be checked out.
    pub fn required_sources(&self) -> (ps: Vec<String>)
        ensures
            ps@.len() == 5,
            strings_view(ps@) == required_sources_spec(self@),
    {
        let v = vec![
            join(self.template_source.as_str(), "lib/mod.typ"),
            join(self.assets_source.as_str(), "ot/font"),
            join(self.assets_source.as_str(), "rd/font"),
            join(self.assets_source.as_str(), "ot/card"),
            join(self.assets_source.as_str(), "ot/images"),
        ];
        assert(strings_view(v@) == seq![v@[0]@, v@[1]@, v@[2]@, v@[3]@, v@[4]@]);
        v
    }

    /// The prepared resources that rendering needs.
    pub fn required_resources(&self) -> (ps: Vec<String>)
        ensures
            ps@.len() == 2,
            strings_view(ps@) == required_resources_spec(self@),
    {
        let v = vec![self.card_data(), self.center_images()];
        assert(strings_view(v@) == seq![v@[0]@, v@[1]@]);
        v
    }

    /// Checks that every source is checked out, given whether each of
    /// `required_sources` exists.
    pub fn validate_sources(&self, exists: &Vec<bool>) -> (r: Result<(), UpstreamError>)
        requires
            exists@.len() == 5,
        ensures
            missing_spec(required_sources_spec(self@), exists@).len() == 0 ==> r is Ok,
            missing_spec(required_sources_spec(self@), exists@).len() > 0 ==> (r matches Err(
                UpstreamError::SourcesIncomplete(m),
            ) && strings_view(m@) == missing_spec(required_sources_spec(self@), exists@)),
    {
        let required = self.required_sources();
        let absent = missing(&required, exists);
        if absent.len() > 0 {
            return Err(UpstreamError::SourcesIncomplete(absent));
        }
        Ok(())
    }

    /// Checks that the workspace is ready for rendering: every source is
    /// checked out, and then every prepared resource exists.
    pub fn validate_ready(&self, sources_exist: &Vec<bool>, resources_exist: &Vec<bool>) -> (r:
        Result<(), UpstreamError>)
        requires
            sources_exist@.len() == 5,
            resources_exist@.len() == 2,
        ensures
            missing_spec(required_sources_spec(self@), sources_exist@).len() > 0 ==> (r matches Err(
                UpstreamError::SourcesIncomplete(m),
            ) && strings_view(m@) == missing_spec(required_sources_spec(self@), sources_exist@)),
            missing_spec(required_sources_spec(self@), sources_exist@).len() == 0 && missing_spec(
                required_resources_spec(self@),
                resources_exist@,
            ).len() > 0 ==> (r matches Err(UpstreamError::ResourcesIncomplete(m)) && strings_view(
                m@,
            ) == missing_spec(required_resources_spec(self@), resources_exist@)),
            missing_spec(required_sources_spec(self@), sources_exist@).len() == 0 && missing_spec(
                required_resources_spec(self@),
                resources_exist@,
            ).len() == 0 ==> r is Ok,
    {
        self.validate_sources(sources_exist)?;
        let required = self.required_resources();
        let absent = missing(&required, resources_exist);
        if absent.len() > 0 {
            return Err(UpstreamError::ResourcesIncomplete(absent));
        }
        Ok(())
    }

    /// The directory links that lay out the workspace before the OT assets:
    /// each as (directory, link).
    pub fn base_links(&self) -> (links: Vec<(String, String)>)
        ensures
            links@.len() == 2,
            links@[0].0@ == join_spec(self@.template_source, "lib"@),
            links@[0].1@ == join_spec(self@.workspace, "lib"@),
            links@[1].0@ == join_spec(self@.assets_source, "rd"@),
            links@[1].1@ == join_spec(self@.workspace, "assets/rd"@),
    {
        vec![
            (join(self.template_source.as_str(), "lib"), join(self.workspace.as_str(), "lib")),
            (join(self.assets_source.as_str(), "rd"), join(self.workspace.as_str(), "assets/rd")),
        ]
    }

    /// The OT asset sources, whose directories are linked one by one.
    pub fn ot_sources(&self) -> (p: String)
        ensures
            p@ == join_spec(self@.assets_source, "ot"@),
    {
        join(self.assets_source.as_str(), "ot")
    }

    /// What to do with the entry `name` of the OT asset sources: the card
    /// data and the images are the workspace's own, so they are not linked;
    /// any other directory is linked as (directory, link); a file is an error.
    pub fn ot_entry_link(&self, name: &str, is_dir: bool) -> (r: Result<
        Option<(String, String)>,
        UpstreamError,
    >)
        ensures
            name@ == "card"@ || name@ == "images"@ ==> r matches Ok(None),
            !(name@ == "card"@ || name@ == "images"@) && !is_dir ==> (r matches Err(
                UpstreamError::UnexpectedSourceFile(p),
            ) && p@ == join_spec(join_spec(self@.assets_source, "ot"@), name@)),
            !(name@ == "card"@ || name@ == "images"@) && is_dir ==> (r matches Ok(Some(link))
                && link.0@ == join_spec(join_spec(self@.assets_source, "ot"@), name@) && link.1@
                == join_spec(join_spec(self@.workspace, "assets/ot"@), name@)),
    {
        let n = chars_of(name);
        if chars_eq(&n, &chars_of("card")) || chars_eq(
            &n,
            &chars_of("images"),
        ) {
            return Ok(None);
        }
        let source = join(join(self.assets_source.as_str(), "ot").as_str(), name);
        if !is_dir {
            return Err(UpstreamError::UnexpectedSourceFile(source));
        }
        Ok(Some((source, join(join(self.workspace.as_str(), "assets/ot").as_str(), name))))
    }

    /// The directories that preparing creates in the workspace, in order.
    pub fn created_directories(&self) -> (ps: Vec<String>)
        ensures
            strings_view(ps@) == seq![
                join_spec(self@.workspace, "assets/ot"@),
                join_spec(self@.workspace, "assets/ot/card"@),
                join_spec(self@.workspace, "assets/ot/images"@),
            ],
    {
        let v = vec![
            join(self.workspace.as_str(), "assets/ot"),
            join(self.workspace.as_str(), "assets/ot/card"),
            join(self.workspace.as_str(), "assets/ot/images"),
        ];
        assert(strings_view(v@) == seq![v@[0]@, v@[1]@, v@[2]@]);
        v
    }
}

} // verus!
