//! The arguments of a Typst compilation of this project.

use vstd::prelude::*;

use crate::paths::{find_missing, first_missing, join_spec, missing_spec};
use crate::text::{chars_of, string_of, strings_view};
use crate::upstream::{required_resources_spec, required_sources_spec, Upstream, UpstreamError};

verus! {

/// `--font-path` and the directory, for each font directory.
pub open spec fn font_arguments(fonts: Seq<Seq<char>>) -> Seq<Seq<char>>
    decreases fonts.len(),
{
    if fonts.len() == 0 {
        seq![]
    } else {
        font_arguments(fonts.drop_last()) + seq!["--font-path"@, fonts.last()]
    }
}

/// `compile`, the project root as Typst's root, and the font directories.
pub open spec fn compile_arguments_spec(project_root: Seq<char>, fonts: Seq<Seq<char>>) -> Seq<
    Seq<char>,
> {
    seq!["compile"@, "--root"@, project_root] + font_arguments(fonts)
}

fn copy_string(s: &str) -> (r: String)
    ensures
        r@ == s@,
{
    string_of(&chars_of(s))
}

/// The arguments that start every Typst compilation of the project.
pub fn compile_arguments(project_root: &str, fonts: &Vec<String>) -> (args: Vec<String>)
    ensures
        strings_view(args@) == compile_arguments_spec(project_root@, strings_view(fonts@)),
{
    let ghost fs = strings_view(fonts@);
    let mut args: Vec<String> = Vec::new();
    args.push(copy_string("compile"));
    args.push(copy_string("--root"));
    args.push(copy_string(project_root));
    let mut k: usize = 0;
    while k < fonts.len()
        invariant
            k <= fonts@.len(),
            fs == strings_view(fonts@),
            strings_view(args@) == seq!["compile"@, "--root"@, project_root@] + font_arguments(
                fs.take(k as int),
            ),
        decreases fonts@.len() - k,
    {
        let ghost before = strings_view(args@);
        assert(fs.take(k + 1).drop_last() == fs.take(k as int));
        assert(fs.take(k + 1).last() == fonts@[k as int]@);
        args.push(copy_string("--font-path"));
        args.push(fonts[k].clone());
        assert(strings_view(args@) == before + seq!["--font-path"@, fonts@[k as int]@]);
        k = k + 1;
    }
    assert(fs.take(fonts@.len() as int) == fs);
    args
}

/// The arguments of a Typst compilation that needs the prepared workspace:
/// the sources and resources must exist (see `Upstream::validate_ready`),
/// then each font directory must be a directory.
pub fn command(
    project_root: &str,
    upstream: &Upstream,
    sources_exist: &Vec<bool>,
    resources_exist: &Vec<bool>,
    fonts_are_directories: &Vec<bool>,
) -> (r: Result<Vec<String>, UpstreamError>)
    requires
        sources_exist@.len() == 5,
        resources_exist@.len() == 2,
        fonts_are_directories@.len() == 2,
    ensures
        ({
            let fonts = seq![
                join_spec(upstream@.workspace, "assets/ot/font"@),
                join_spec(upstream@.workspace, "assets/rd/font"@),
            ];
            let sources_missing = missing_spec(required_sources_spec(upstream@), sources_exist@);
            let resources_missing = missing_spec(
                required_resources_spec(upstream@),
                resources_exist@,
            );
            if sources_missing.len() > 0 {
                r matches Err(UpstreamError::SourcesIncomplete(m)) && strings_view(m@)
                    == sources_missing
            } else if resources_missing.len() > 0 {
                r matches Err(UpstreamError::ResourcesIncomplete(m)) && strings_view(m@)
                    == resources_missing
            } else if first_missing(fonts, fonts_are_directories@) is Some {
                r matches Err(UpstreamError::FontDirectoryMissing(p)) && first_missing(
                    fonts,
                    fonts_are_directories@,
                ) == Some(p@)
            } else {
                r matches Ok(args) && strings_view(args@) == compile_arguments_spec(
                    project_root@,
                    fonts,
                )
            }
        }),
{
    upstream.validate_ready(sources_exist, resources_exist)?;
    let fonts = upstream.font_directories();
    if let Some(path) = find_missing(&fonts, fonts_are_directories) {
        return Err(UpstreamError::FontDirectoryMissing(path));
    }
    Ok(compile_arguments(project_root, &fonts))
}

} // verus!
