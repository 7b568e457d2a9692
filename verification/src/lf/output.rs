//! The resolved list as six ID lists: OCG then TCG, each forbidden, limited,
//! semi-limited, each in list order.

use vstd::prelude::*;

use crate::json::{json_nested, nested_view, pretty_json, to_pretty_json};
use crate::lf::model::{Region, Restriction};
use crate::lf::resolver::ResolvedCard;

verus! {

pub open spec fn region_position(region: Region) -> int {
    match region {
        Region::Ocg => 0,
        Region::Tcg => 1,
    }
}

pub open spec fn restriction_position(restriction: Restriction) -> int {
    match restriction {
        Restriction::Forbidden => 0,
        Restriction::Limited => 1,
        Restriction::SemiLimited => 2,
    }
}

/// The position of a region among the groups.
pub fn region_index(region: Region) -> (i: usize)
    ensures
        i == region_position(region),
{
    match region {
        Region::Ocg => 0,
        Region::Tcg => 1,
    }
}

/// The position of a restriction within a region.
pub fn restriction_index(restriction: Restriction) -> (i: usize)
    ensures
        i == restriction_position(restriction),
{
    match restriction {
        Restriction::Forbidden => 0,
        Restriction::Limited => 1,
        Restriction::SemiLimited => 2,
    }
}

/// The IDs of the cards in group `(r, t)`, in list order.
pub open spec fn group_ids(cards: Seq<ResolvedCard>, r: int, t: int) -> Seq<u32>
    decreases cards.len(),
{
    if cards.len() == 0 {
        seq![]
    } else {
        let last = cards.last();
        let rest = group_ids(cards.drop_last(), r, t);
        if region_position(last.region) == r && restriction_position(last.restriction) == t {
            rest.push(last.id)
        } else {
            rest
        }
    }
}

/// The six groups of a resolved list.
pub open spec fn grouped(cards: Seq<ResolvedCard>) -> Seq<Seq<Seq<u32>>> {
    seq![
        seq![group_ids(cards, 0, 0), group_ids(cards, 0, 1), group_ids(cards, 0, 2)],
        seq![group_ids(cards, 1, 0), group_ids(cards, 1, 1), group_ids(cards, 1, 2)],
    ]
}

/// Grouping loses no card and adds none: the six groups together are as
/// long as the list, and each card's ID is in the group of its region and
/// restriction.
pub proof fn law_grouping_keeps_every_card(cards: Seq<ResolvedCard>)
    ensures
        group_ids(cards, 0, 0).len() + group_ids(cards, 0, 1).len() + group_ids(cards, 0, 2).len()
            + group_ids(cards, 1, 0).len() + group_ids(cards, 1, 1).len() + group_ids(
            cards,
            1,
            2,
        ).len() == cards.len(),
        forall|k: int|
            0 <= k < cards.len() ==> group_ids(
                cards,
                region_position(#[trigger] cards[k].region),
                restriction_position(cards[k].restriction),
            ).contains(cards[k].id),
    decreases cards.len(),
{
    if cards.len() > 0 {
        let rest = cards.drop_last();
        law_grouping_keeps_every_card(rest);
        assert forall|k: int| 0 <= k < cards.len() implies group_ids(
            cards,
            region_position(#[trigger] cards[k].region),
            restriction_position(cards[k].restriction),
        ).contains(cards[k].id) by {
            let r = region_position(cards[k].region);
            let t = restriction_position(cards[k].restriction);
            if k < cards.len() - 1 {
                assert(rest[k] == cards[k]);
                let g = group_ids(rest, r, t);
                assert(g.contains(rest[k].id));
                let i = choose|i: int| 0 <= i < g.len() && g[i] == rest[k].id;
                assert(group_ids(cards, r, t)[i] == cards[k].id);
            } else {
                let g = group_ids(rest, r, t);
                assert(group_ids(cards, r, t) == g.push(cards[k].id));
                assert(group_ids(cards, r, t)[g.len() as int] == cards[k].id);
            }
        }
    }
}

/// The IDs of the cards in group `(r, t)`, in list order.
fn collect_group(cards: &Vec<ResolvedCard>, r: usize, t: usize) -> (ids: Vec<u32>)
    ensures
        ids@ == group_ids(cards@, r as int, t as int),
{
    let mut ids: Vec<u32> = Vec::new();
    let mut k: usize = 0;
    while k < cards.len()
        invariant
            k <= cards@.len(),
            ids@ == group_ids(cards@.take(k as int), r as int, t as int),
        decreases cards@.len() - k,
    {
        let card = cards[k];
        assert(cards@.take(k + 1).drop_last() == cards@.take(k as int));
        if region_index(card.region) == r && restriction_index(card.restriction) == t {
            ids.push(card.id);
        }
        k = k + 1;
    }
    assert(cards@.take(cards@.len() as int) == cards@);
    ids
}

/// Sorts the cards into their groups, keeping list order within each.
pub fn group(cards: &Vec<ResolvedCard>) -> (g: Vec<Vec<Vec<u32>>>)
    ensures
        nested_view(g) == grouped(cards@),
{
    let ocg = vec![collect_group(cards, 0, 0), collect_group(cards, 0, 1), collect_group(cards, 0, 2)];
    let tcg = vec![collect_group(cards, 1, 0), collect_group(cards, 1, 1), collect_group(cards, 1, 2)];
    let g = vec![ocg, tcg];
    assert(nested_view(g)[0] == grouped(cards@)[0]);
    assert(nested_view(g)[1] == grouped(cards@)[1]);
    assert(nested_view(g) == grouped(cards@));
    g
}

/// The list could not be encoded.
#[derive(Debug)]
pub struct EncodeError;

/// The grouped IDs of a resolved list, as pretty-printed JSON.
pub fn serialize(cards: &Vec<ResolvedCard>) -> (r: Result<Vec<u8>, EncodeError>)
    ensures
        r matches Ok(bytes) && bytes@ == pretty_json(grouped(cards@)),
{
    let groups = group(cards);
    match to_pretty_json(&groups) {
        Ok(bytes) => Ok(bytes),
        Err(_) => Err(EncodeError),
    }
}

/// The contents of the output file: the serialized list and a newline,
/// which reads back as the six groups.
pub fn write_contents(cards: &Vec<ResolvedCard>) -> (r: Result<Vec<u8>, EncodeError>)
    ensures
        r matches Ok(bytes) && bytes@ == pretty_json(grouped(cards@)).push(0x0au8),
        r matches Ok(bytes) && json_nested(bytes@) == Some(grouped(cards@)),
{
    let groups = group(cards);
    let mut json = match to_pretty_json(&groups) {
        Ok(bytes) => bytes,
        Err(_) => {
            return Err(EncodeError);
        },
    };
    json.push(0x0a);
    Ok(json)
}

} // verus!
