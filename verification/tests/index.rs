use icon_catalog::categories::{count_labels, find_slot, label_order, LabelOrder};
use icon_catalog::icon_index::{hash_key, mix, IconIndex};
use icon_catalog::tools::list_categories;
use icon_catalog::types::{IconError, IconInfo};

fn icon(name: &str, category: &str, path: &str) -> IconInfo {
    let rust_name = name.to_uppercase().replace('-', "_");
    IconInfo {
        name: name.to_string(),
        import_path: format!("{category}.{rust_name}"),
        rust_name,
        category: category.to_string(),
        width: 512,
        height: 512,
        view_box: "0 0 512 512".to_string(),
        path_data: path.to_string(),
    }
}

fn sample() -> Vec<IconInfo> {
    vec![
        icon("star", "solid", "M0"),
        icon("star", "regular", "M1"),
        icon("github", "brands", "M2"),
        icon("star-half", "solid", "M3"),
        icon("user", "solid", "M4"),
        icon("user", "regular", "M5"),
    ]
}

#[test]
fn the_empty_catalog_gives_an_empty_index() {
    let index = IconIndex::build(Vec::new());
    assert_eq!(index.len(), 0);
    assert!(index.icons().is_empty());
    assert!(index.find_icon("star", "solid").is_none());
    assert!(index.categories().is_empty());
    assert!(list_categories(&index).categories.is_empty());
    let loaded = IconIndex::load("");
    assert_eq!(loaded.len(), 0);
}

#[test]
fn the_index_keeps_the_records_in_their_order() {
    let index = IconIndex::build(sample());
    assert_eq!(index.len(), 6);
    let paths: Vec<&str> = index.icons().iter().map(|icon| icon.path_data.as_str()).collect();
    assert_eq!(paths, vec!["M0", "M1", "M2", "M3", "M4", "M5"]);
}

#[test]
fn find_icon_gives_the_record_with_the_name_in_the_category() {
    let index = IconIndex::build(sample());
    for wanted in sample() {
        let found = index.find_icon(&wanted.name, &wanted.category).expect("indexed");
        assert_eq!(found.name, wanted.name);
        assert_eq!(found.category, wanted.category);
        assert_eq!(found.path_data, wanted.path_data);
    }
    assert_eq!(index.find_icon("star", "solid").map(|icon| icon.path_data.as_str()), Some("M0"));
    assert_eq!(index.find_icon("star", "regular").map(|icon| icon.path_data.as_str()), Some("M1"));
}

#[test]
fn find_icon_gives_no_record_for_another_key() {
    let index = IconIndex::build(sample());
    assert!(index.find_icon("star", "brands").is_none());
    assert!(index.find_icon("github", "solid").is_none());
    assert!(index.find_icon("sta", "solid").is_none());
    assert!(index.find_icon("STAR", "solid").is_none());
    assert!(index.find_icon("star ", "solid").is_none());
    assert!(index.find_icon("starsolid", "").is_none());
    assert!(index.find_icon("", "starsolid").is_none());
    assert!(index.find_icon("stars", "olid").is_none());
}

#[test]
fn of_two_records_with_one_key_the_later_is_found() {
    let mut icons = sample();
    icons.push(icon("star", "solid", "M6"));
    icons.push(icon("github", "brands", "M7"));
    icons.push(icon("star", "solid", "M8"));
    let index = IconIndex::build(icons);
    assert_eq!(index.len(), 9);
    assert_eq!(index.find_icon("star", "solid").map(|icon| icon.path_data.as_str()), Some("M8"));
    assert_eq!(index.find_icon("github", "brands").map(|icon| icon.path_data.as_str()), Some("M7"));
    assert_eq!(index.find_icon("star", "regular").map(|icon| icon.path_data.as_str()), Some("M1"));
}

#[test]
fn categories_are_sorted_and_count_every_record() {
    let mut icons = sample();
    icons.push(icon("star", "solid", "M6"));
    let index = IconIndex::build(icons);
    assert_eq!(index.categories(), vec![("brands", 1), ("regular", 2), ("solid", 4)]);
    let total: usize = index.categories().iter().map(|(_, count)| count).sum();
    assert_eq!(total, index.len());
}

#[test]
fn list_categories_gives_names_and_counts() {
    let index = IconIndex::build(sample());
    let listed = list_categories(&index);
    let pairs: Vec<(&str, usize)> =
        listed.categories.iter().map(|entry| (entry.name.as_str(), entry.count)).collect();
    assert_eq!(pairs, vec![("brands", 1), ("regular", 2), ("solid", 3)]);
}

#[test]
fn categories_agree_with_a_sorted_count() {
    let labels = ["b", "a", "ab", "B", "", "a", "é", "z", "ab", "a-b", "a_b", "aa", "b", "Z"];
    let table = count_labels(&labels.to_vec());
    let icons: Vec<IconInfo> = labels.iter().map(|label| icon("x", label, "M")).collect();
    assert_eq!(IconIndex::build(icons).categories(), table);
    let mut expected: Vec<(&str, usize)> = Vec::new();
    let mut sorted = labels.to_vec();
    sorted.sort();
    for label in sorted {
        match expected.last_mut() {
            Some(last) if last.0 == label => last.1 += 1,
            _ => expected.push((label, 1)),
        }
    }
    assert_eq!(table, expected);
}

#[test]
fn labels_are_ordered_by_their_bytes() {
    let labels = ["", "a", "aa", "ab", "b", "B", "Z", "é", "z", "日本", "a\u{0}", "\u{10ffff}"];
    for a in labels {
        for b in labels {
            let expected = if a < b {
                LabelOrder::Before
            } else if a == b {
                LabelOrder::Same
            } else {
                LabelOrder::After
            };
            assert_eq!(label_order(a, b), expected, "{a:?} {b:?}");
        }
    }
}

#[test]
fn find_slot_gives_the_place_of_a_label() {
    let table = vec![("brands", 3), ("regular", 1), ("solid", 2)];
    assert_eq!(find_slot(&table, "brands"), (0, true));
    assert_eq!(find_slot(&table, "solid"), (2, true));
    assert_eq!(find_slot(&table, "a"), (0, false));
    assert_eq!(find_slot(&table, "duotone"), (1, false));
    assert_eq!(find_slot(&table, "thin"), (3, false));
    assert_eq!(find_slot(&Vec::new(), "solid"), (0, false));
}

#[test]
fn the_hash_of_a_key_is_carried_over_its_bytes() {
    assert_eq!(mix(7, &[]), 7);
    assert_eq!(mix(1, &[2]), 0x0000_0100_0000_01b3 + 2);
    assert_eq!(
        mix(0xcbf2_9ce4_8422_2325, b"a"),
        0xcbf2_9ce4_8422_2325_u64.wrapping_mul(0x0000_0100_0000_01b3).wrapping_add(0x61)
    );
    assert_eq!(hash_key("star", "solid"), hash_key("star", "solid"));
    assert_ne!(hash_key("star", "solid"), hash_key("stars", "olid"));
    assert_ne!(hash_key("star", "solid"), hash_key("solid", "star"));
    let by_hand = mix(
        mix(0xcbf2_9ce4_8422_2325, b"ab")
            .wrapping_mul(0x0000_0100_0000_01b3)
            .wrapping_add(0xff),
        b"c",
    );
    assert_eq!(hash_key("ab", "c"), by_hand);
}

#[test]
fn many_records_are_all_found() {
    let mut icons = Vec::new();
    for n in 0..3000 {
        icons.push(icon(&format!("icon-{n}"), ["solid", "regular", "brands"][n % 3], &format!("M{n}")));
    }
    let index = IconIndex::build(icons);
    for n in 0..3000 {
        let category = ["solid", "regular", "brands"][n % 3];
        let found = index.find_icon(&format!("icon-{n}"), category).expect("indexed");
        assert_eq!(found.path_data, format!("M{n}"));
        assert!(index.find_icon(&format!("icon-{n}"), ["solid", "regular", "brands"][(n + 1) % 3]).is_none());
    }
    assert_eq!(index.categories(), vec![("brands", 1000), ("regular", 1000), ("solid", 1000)]);
}

#[test]
fn a_lookup_miss_names_what_was_asked_for() {
    let error = IconError::NotFound { name: "hous".to_string(), category: "solid".to_string() };
    assert_eq!(error.message(), "Icon 'hous' not found in category 'solid'");
}
