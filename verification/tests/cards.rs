use ygo_wcs_lf::cards::{Card, CardDatabase, CardError};
use ygo_wcs_lf::images::required_image_ids;
use ygo_wcs_lf::limits::{limits_path, load_path, load_year, load_years, LimitsError};

fn card(id: u32, image: Option<u32>, card_type: Option<&[&str]>) -> Card {
    Card {
        id,
        image,
        card_type: card_type.map(|parts| parts.iter().map(|part| part.to_string()).collect()),
    }
}

fn database(cards: Vec<Card>) -> CardDatabase {
    CardDatabase::from_cards(cards).unwrap()
}

#[test]
fn sorts_kinds_then_type_with_monster_race_last() {
    let database = database(vec![
        card(1, Some(101), Some(&["怪兽", "A-race", "Z-category"])),
        card(2, Some(102), Some(&["怪兽", "Z-race", "A-category"])),
        card(3, Some(103), Some(&["魔法", "速攻"])),
        card(4, Some(104), Some(&["陷阱", "反击"])),
        card(5, Some(105), Some(&["怪兽", "A-race", "A-category"])),
    ]);
    let mut ids = vec![4, 1, 3, 2, 5];

    database.sort_ids(&mut ids).unwrap();

    assert_eq!(ids, [5, 2, 1, 3, 4]);
}

#[test]
fn keeps_source_order_for_equal_type_keys() {
    let database = database(vec![
        card(1, Some(101), Some(&["魔法", "通常"])),
        card(2, Some(102), Some(&["魔法", "通常"])),
    ]);
    let mut ids = vec![2, 1];

    database.sort_ids(&mut ids).unwrap();

    assert_eq!(ids, [2, 1]);
}

#[test]
fn rejects_missing_cards_and_invalid_monster_types() {
    let database = database(vec![card(1, Some(101), Some(&["怪兽", "龙族"]))]);

    assert!(database.sort_ids(&mut vec![1]).is_err());
    assert!(database.sort_ids(&mut vec![2]).is_err());
}

#[test]
fn names_the_card_that_cannot_be_sorted() {
    let database = database(vec![
        card(1, Some(101), Some(&["怪兽", "龙族"])),
        card(2, None, None),
        card(3, None, Some(&[])),
        card(4, None, Some(&["魔法", ""])),
        card(5, None, Some(&["其他", "x"])),
    ]);
    assert_eq!(database.sort_ids(&mut vec![1]), Err(CardError::InvalidMonsterType(1)));
    assert_eq!(database.sort_ids(&mut vec![5, 9]), Err(CardError::Missing(9)));
    assert_eq!(database.sort_ids(&mut vec![2]), Err(CardError::NoType(2)));
    assert_eq!(database.sort_ids(&mut vec![3]), Err(CardError::InvalidType(3)));
    assert_eq!(database.sort_ids(&mut vec![4]), Err(CardError::InvalidType(4)));
    let mut ids = vec![5, 5];
    assert_eq!(database.sort_ids(&mut ids), Ok(()));
    assert_eq!(ids, [5, 5]);
}

#[test]
fn other_kinds_come_after_traps() {
    let database = database(vec![
        card(1, None, Some(&["其他", "a"])),
        card(2, None, Some(&["陷阱", "z"])),
        card(3, None, Some(&["魔法", "z"])),
    ]);
    let mut ids = vec![1, 2, 3];
    database.sort_ids(&mut ids).unwrap();
    assert_eq!(ids, [3, 2, 1]);
}

#[test]
fn rejects_duplicate_card_ids() {
    let result = CardDatabase::from_cards(vec![
        card(1, Some(101), None),
        card(2, Some(102), None),
        card(1, Some(103), None),
    ]);
    assert!(matches!(result, Err(CardError::Duplicate(1))));
}

#[test]
fn resolves_center_image_ids() {
    let database = database(vec![card(1, Some(101), Some(&["魔法", "通常"]))]);

    assert_eq!(database.image_id(1).unwrap(), 101);
    assert_eq!(database.image_id(2), Err(CardError::Missing(2)));
}

#[test]
fn maps_card_ids_to_unique_center_images() {
    let cards = database(vec![
        card(1, Some(101), Some(&["魔法", "通常"])),
        card(2, Some(101), Some(&["魔法", "通常"])),
        card(3, Some(103), Some(&["陷阱", "通常"])),
    ]);

    let images = required_image_ids(&vec![3, 1, 2, 1], &cards).unwrap();

    assert_eq!(images, [101, 103]);
}

#[test]
fn image_ids_stop_at_the_first_card_without_one() {
    let cards = database(vec![card(1, Some(101), None), card(2, None, None)]);
    assert_eq!(required_image_ids(&vec![1, 2, 3], &cards), Err(CardError::NoImage(2)));
    assert_eq!(required_image_ids(&vec![3, 2], &cards), Err(CardError::Missing(3)));
    assert_eq!(required_image_ids(&vec![], &cards), Ok(vec![]));
}

#[test]
fn sorts_and_writes_all_six_groups() {
    let database = database(vec![
        card(1, Some(101), Some(&["怪兽", "A", "Z"])),
        card(2, Some(102), Some(&["怪兽", "Z", "A"])),
        card(3, Some(103), Some(&["魔法", "通常"])),
        card(4, Some(104), Some(&["陷阱", "通常"])),
    ]);
    let mut limits =
        load_path(2026, "lf.json".to_owned(), b"[[[3,1,2],[],[]],[[4,3,2,1],[],[]]]").unwrap();

    limits.sort(&database).unwrap();
    let written = limits.write_contents().unwrap();

    assert_eq!(written.last(), Some(&b'\n'));
    let actual: Vec<Vec<Vec<u32>>> = serde_json::from_slice(&written).unwrap();
    assert_eq!(actual, vec![vec![vec![2, 1, 3], vec![], vec![]], vec![vec![2, 1, 3, 4], vec![], vec![]]]);
}

#[test]
fn exposes_all_ids() {
    let limits = load_path(2026, "lf.json".to_owned(), b"[[[1],[2],[3]],[[4],[5],[6]]]").unwrap();

    assert_eq!(limits.ids(), [1, 2, 3, 4, 5, 6]);
}

#[test]
fn rejects_lists_of_the_wrong_shape() {
    let invalid = Some(LimitsError::InvalidStructure("2026/data/lf.json".to_owned()));
    assert_eq!(load_year(2026, b"[[[1],[2]],[[4],[5],[6]]]").err(), invalid);
    assert_eq!(load_year(2026, b"not json").err(), invalid);
    assert_eq!(load_year(2026, b"[[[-1],[],[]],[[],[],[]]]").err(), invalid);
    assert_eq!(
        invalid.unwrap().message(),
        "invalid limit list structure in 2026/data/lf.json"
    );
    let limits = load_year(2025, b"[[[],[],[]],[[],[],[]]]").unwrap();
    assert_eq!(limits.year(), 2025);
    assert_eq!(limits.path(), "2025/data/lf.json");
    assert_eq!(limits_path(2026), "2026/data/lf.json");
}

#[test]
fn loads_each_year_in_turn() {
    let lists = load_years(
        &vec![2025, 2026],
        &vec![b"[[[1],[],[]],[[],[],[]]]".to_vec(), b"[[[],[],[]],[[],[],[2]]]".to_vec()],
    )
    .unwrap();
    assert_eq!(lists.len(), 2);
    assert_eq!(lists[1].year(), 2026);
    assert_eq!(lists[1].ids(), [2]);
    let lists = load_years(
        &vec![2026, 2025, 2026],
        &vec![b"[[[1],[],[]],[[],[],[]]]".to_vec(), b"[[[],[],[]],[[],[],[2]]]".to_vec()],
    )
    .unwrap();
    assert_eq!(lists.iter().map(|list| list.year()).collect::<Vec<_>>(), [2025, 2026]);
    assert_eq!(lists[0].ids(), [1]);
    assert_eq!(lists[0].path(), "2025/data/lf.json");
    assert_eq!(
        load_years(&vec![2025, 2026], &vec![b"[[[],[],[]],[[],[],[]]]".to_vec(), b"[]".to_vec()]).err(),
        Some(LimitsError::InvalidStructure("2026/data/lf.json".to_owned()))
    );
}

#[test]
fn failed_sort_leaves_the_failing_group_as_it_was() {
    let database = database(vec![card(1, None, Some(&["魔法", "b"])), card(2, None, Some(&["魔法", "a"]))]);
    let mut limits = load_year(2026, b"[[[1,2],[9,2],[2,1]],[[],[],[]]]").unwrap();
    assert_eq!(limits.sort(&database), Err(CardError::Missing(9)));
    assert_eq!(limits.ids(), [2, 1, 9, 2, 2, 1]);
}

#[test]
fn reports_card_errors_with_their_types() {
    let database = database(vec![
        card(1, Some(101), Some(&["怪兽", "龙族"])),
        card(2, None, Some(&["魔法", ""])),
    ]);
    let monster_type: Vec<String> = vec!["怪兽".to_owned(), "龙族".to_owned()];
    assert_eq!(
        database.error_message(CardError::InvalidMonsterType(1)),
        format!("monster card 1 has an invalid type: {monster_type:?}")
    );
    let spell_type: Vec<String> = vec!["魔法".to_owned(), "".to_owned()];
    assert_eq!(
        database.error_message(CardError::InvalidType(2)),
        format!("card 2 has an invalid type: {spell_type:?}")
    );
    assert_eq!(database.error_message(CardError::Missing(7)), "card 7 is missing from OT card data");
    assert_eq!(database.error_message(CardError::NoImage(2)), "card 2 has no image ID");
    assert_eq!(database.error_message(CardError::NoType(3)), "card 3 has no type");
    assert_eq!(database.error_message(CardError::Duplicate(4)), "duplicate card ID 4");
}

#[test]
fn sorting_twice_changes_nothing() {
    let database = database(vec![
        card(1, None, Some(&["怪兽", "A-race", "Z-category"])),
        card(2, None, Some(&["怪兽", "Z-race", "A-category"])),
        card(3, None, Some(&["魔法", "速攻"])),
        card(4, None, Some(&["魔法", "速攻"])),
    ]);
    let mut ids = vec![4, 3, 1, 2, 4];
    database.sort_ids(&mut ids).unwrap();
    let once = ids.clone();
    database.sort_ids(&mut ids).unwrap();
    assert_eq!(ids, once);
    assert_eq!(once, [2, 1, 4, 3, 4]);
}
