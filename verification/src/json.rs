//! JSON encoding and decoding of grouped card IDs, done by `serde_json`.

use vstd::prelude::*;

use crate::text::decimal;

verus! {

/// `serde_json`'s error type, carried through opaquely.
#[verifier::external_type_specification]
#[verifier::external_body]
pub struct ExJsonError(serde_json::Error);

/// Card IDs grouped as region, then restriction, then list order.
pub open spec fn nested_view(g: Vec<Vec<Vec<u32>>>) -> Seq<Seq<Seq<u32>>> {
    g@.map_values(|v: Vec<Vec<u32>>| v@.map_values(|w: Vec<u32>| w@))
}

/// The bytes of an ASCII text.
pub open spec fn ascii(s: Seq<char>) -> Seq<u8> {
    s.map_values(|c: char| c as u8)
}

/// `n` levels of two-space indentation.
pub open spec fn indentation(n: nat) -> Seq<char>
    decreases n,
{
    if n == 0 {
        seq![]
    } else {
        indentation((n - 1) as nat) + "  "@
    }
}

/// The elements of a pretty-printed array at `depth`, each on a line of its
/// own, indented to `depth`, separated by commas.
pub open spec fn pretty_items(items: Seq<Seq<char>>, depth: nat) -> Seq<char>
    decreases items.len(),
{
    if items.len() == 0 {
        seq![]
    } else {
        pretty_items(items.drop_last(), depth) + (if items.len() == 1 {
            "\n"@
        } else {
            ",\n"@
        }) + indentation(depth) + items.last()
    }
}

/// A pretty-printed array at nesting `depth` whose elements are written as
/// `items`: `[]` when it is empty, else the elements one level deeper and
/// the closing bracket on a line of its own.
pub open spec fn pretty_array(items: Seq<Seq<char>>, depth: nat) -> Seq<char> {
    if items.len() == 0 {
        "[]"@
    } else {
        "["@ + pretty_items(items, depth + 1) + "\n"@ + indentation(depth) + "]"@
    }
}

/// What `serde_json::to_vec_pretty` writes for nested arrays of integers:
/// JSON with two-space indentation (its `PrettyFormatter`), each integer in
/// decimal.
pub open spec fn pretty_json(g: Seq<Seq<Seq<u32>>>) -> Seq<u8> {
    ascii(
        pretty_array(
            g.map_values(
                |r: Seq<Seq<u32>>|
                    pretty_array(
                        r.map_values(
                            |l: Seq<u32>| pretty_array(l.map_values(|id: u32| decimal(id as nat)), 2),
                        ),
                        1,
                    ),
            ),
            0,
        ),
    )
}

/// What `serde_json::from_slice` reads from `bytes` as nested arrays of
/// unsigned 32-bit integers, or `None` where it fails.
pub uninterp spec fn json_nested(bytes: Seq<u8>) -> Option<Seq<Seq<Seq<u32>>>>;

/// Encodes nested ID lists with `serde_json::to_vec_pretty`, which writes
/// them as `pretty_json` states (`PrettyFormatter::new`, two-space indent;
/// an empty array as `[]`). It succeeds: the function fails
/// only where a `Serialize` impl fails or a map has non-string keys, and
/// vectors of integers written into a `Vec<u8>` do neither. What it writes
/// reads back through `serde_json::from_slice` as the same lists (JSON
/// arrays of decimal integers), also with a line break after it, since the
/// reader skips trailing whitespace.
#[verifier::external_body]
pub(crate) fn to_pretty_json(g: &Vec<Vec<Vec<u32>>>) -> (r: Result<Vec<u8>, serde_json::Error>)
    ensures
        r is Ok,
        r matches Ok(bytes) ==> bytes@ == pretty_json(nested_view(*g)),
        r matches Ok(bytes) ==> json_nested(bytes@) == Some(nested_view(*g)),
        r matches Ok(bytes) ==> json_nested(bytes@.push(0x0au8)) == Some(nested_view(*g)),
{
    serde_json::to_vec_pretty(g)
}

/// Decodes nested ID lists with `serde_json::from_slice`; whether it succeeds
/// and what it reads are named by `json_nested` of the bytes.
#[verifier::external_body]
pub(crate) fn from_json(bytes: &[u8]) -> (r: Result<Vec<Vec<Vec<u32>>>, serde_json::Error>)
    ensures
        r is Ok <==> json_nested(bytes@) is Some,
        r matches Ok(g) ==> nested_view(g) == json_nested(bytes@)->0,
{
    serde_json::from_slice(bytes)
}

} // verus!
