# ygo-wcs-lf

Forbidden and limited card lists of the Yu-Gi-Oh! World Championship (OCG
and TCG): a year's list is parsed from `[year]/data/lf.list`, its card names
are resolved to card IDs, the IDs are grouped and ordered by card type, and
the lists are rendered with Typst into PDFs, card previews and a small site.

The build keeps card-name lookups and card images in `.cache/ygo-wcs-lf` and
reuses them on later runs; delete `card-names.json` or `card-images` there
to fetch them again.

## Layout

- `src/` is the library, verified with Verus: every function has a contract,
  and the properties that relate several functions are proof functions
  named `law_*`.
  - `lf/`: the list format (`parser`), name resolution (`resolver`), the
    name cache (`cache`), the grouped output (`output`), the run report
    (`report`) and the decisions of a year's run (`run`), which the program
    drives: it performs each action (reading, lookups, writing) and hands
    back what came of it.
  - `cards`, `limits`: the card data and the ordering of a year's groups.
  - `images`, `archive`, `workspace`, `upstream`, `download`: the decisions
    of preparing resources (which images, which archive entries, which links,
    when to retry).
  - `staging`: replacing a directory by a staged one and putting the old
    one back when that fails, used for the workspace, previews, PDFs and
    site; `assembly`: the end of assembling the workspace (keep the earlier
    center images, check, then replace).
  - `render/`, `site/`: the Typst sources and arguments, the decisions of
    rendering the card previews (`render::compile`), and the site's templates
    and file sizes.
  - `text`, `paths`, `json`, `years`: shared text, path and JSON helpers.
- `app/` is the command-line program: file system, network and process work
  around the library.
- `tests/` runs the library on concrete inputs.
