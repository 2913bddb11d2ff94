use icon_catalog::extract::{
    build_record, capture_lines, choose_candidates, parse_fontawesome_file, parse_view_box,
    parse_with_state_machine, rust_name_to_kebab_case, scan_captured, to_kebab_char,
    window_limit, ScanState, Source, ViewBoxError,
};
use icon_catalog::types::IconInfo;

fn chars(s: &str) -> Vec<char> {
    s.chars().collect()
}

fn record(category: &str, identifier: &str, view_box: &str, path: &str) -> String {
    format!(
        "    pub const {identifier}: &Icon = &Icon {{\n        cropped: CroppedIcon {{\n            view_box: \"{view_box}\",\n            d: r#\"{path}\"#,\n        }},\n    }};\n// {category}\n"
    )
}

fn names(icons: &[IconInfo]) -> Vec<&str> {
    icons.iter().map(|icon| icon.name.as_str()).collect()
}

#[test]
fn view_box_gives_width_and_height() {
    assert_eq!(parse_view_box("0 0 576 512"), Ok((576, 512)));
    assert_eq!(parse_view_box("  0  0\t24   24 "), Ok((24, 24)));
    assert_eq!(parse_view_box("-8 -8 +16 016"), Ok((16, 16)));
    assert_eq!(parse_view_box("a b 1 2"), Ok((1, 2)));
    assert_eq!(parse_view_box("0 0 0 0"), Ok((0, 0)));
}

#[test]
fn view_box_with_a_wrong_number_of_fields_is_refused() {
    assert_eq!(parse_view_box(""), Err(ViewBoxError::FieldCount));
    assert_eq!(parse_view_box("0 0 576"), Err(ViewBoxError::FieldCount));
    assert_eq!(parse_view_box("0 0 576 512 1"), Err(ViewBoxError::FieldCount));
    assert_eq!(parse_view_box("0,0,576,512"), Err(ViewBoxError::FieldCount));
}

#[test]
fn view_box_with_a_bad_width_is_refused() {
    assert_eq!(parse_view_box("0 0 x 512"), Err(ViewBoxError::Width));
    assert_eq!(parse_view_box("0 0 -576 512"), Err(ViewBoxError::Width));
    assert_eq!(parse_view_box("0 0 57.6 512"), Err(ViewBoxError::Width));
    assert_eq!(parse_view_box("0 0 4294967296 512"), Err(ViewBoxError::Width));
    assert_eq!(parse_view_box("0 0 x y"), Err(ViewBoxError::Width));
}

#[test]
fn view_box_with_a_bad_height_is_refused() {
    assert_eq!(parse_view_box("0 0 576 y"), Err(ViewBoxError::Height));
    assert_eq!(parse_view_box("0 0 576 -1"), Err(ViewBoxError::Height));
    assert_eq!(parse_view_box("0 0 576 4294967296"), Err(ViewBoxError::Height));
}

#[test]
fn identifiers_become_lower_case_with_hyphens() {
    assert_eq!(rust_name_to_kebab_case("HOUSE"), "house");
    assert_eq!(rust_name_to_kebab_case("ARROW_UP_9_1"), "arrow-up-9-1");
    assert_eq!(rust_name_to_kebab_case("ICON_500PX"), "icon-500px");
    assert_eq!(rust_name_to_kebab_case("already-kebab"), "already-kebab");
    assert_eq!(rust_name_to_kebab_case("__"), "--");
    assert_eq!(rust_name_to_kebab_case(""), "");
    assert_eq!(rust_name_to_kebab_case("ÄB_ÇD"), "Äb-Çd");
}

#[test]
fn kebab_char_agrees_with_ascii_lower_case() {
    for code in 0..=0x10ffff_u32 {
        if let Some(c) = char::from_u32(code) {
            let expected = if c == '_' { '-' } else { c.to_ascii_lowercase() };
            assert_eq!(to_kebab_char(c), expected, "U+{code:04X}");
        }
    }
}

#[test]
fn build_record_derives_name_size_and_reference_path() {
    let icon = build_record(
        "brands",
        "GIT_ALT".to_string(),
        "0 0 448 512".to_string(),
        "M439.6 236.1z".to_string(),
    )
    .expect("a whole record");
    assert_eq!(icon.name, "git-alt");
    assert_eq!(icon.rust_name, "GIT_ALT");
    assert_eq!(icon.category, "brands");
    assert_eq!(icon.width, 448);
    assert_eq!(icon.height, 512);
    assert_eq!(icon.view_box, "0 0 448 512");
    assert_eq!(icon.path_data, "M439.6 236.1z");
    assert_eq!(icon.import_path, "brands.GIT_ALT");
}

#[test]
fn build_record_drops_what_breaks_the_invariant() {
    let whole = |category: &str, identifier: &str, view_box: &str, path: &str| {
        build_record(category, identifier.to_string(), view_box.to_string(), path.to_string())
            .is_some()
    };
    assert!(whole("solid", "A", "0 0 1 1", "M0"));
    assert!(!whole("", "A", "0 0 1 1", "M0"));
    assert!(!whole("solid", "", "0 0 1 1", "M0"));
    assert!(!whole("solid", "A", "0 0 1 1", ""));
    assert!(!whole("solid", "A", "", "M0"));
    assert!(!whole("solid", "A", "0 0 1", "M0"));
    assert!(!whole("solid", "A", "0 0 0 1", "M0"));
    assert!(!whole("solid", "A", "0 0 1 0", "M0"));
    assert!(!whole("solid", "A", "0 0 one 1", "M0"));
}

#[test]
fn a_category_line_sets_the_category() {
    let next = |category: &str, line: &str| {
        Source::new(line).next_category(category.to_string(), 0)
    };
    assert_eq!(next("", "pub mod solid {"), "solid");
    assert_eq!(next("solid", "pub mod regular {"), "regular");
    assert_eq!(next("solid", "    pub mod brands { // icons"), "brands");
    assert_eq!(next("solid", "pub mod regular;"), "solid");
    assert_eq!(next("solid", "mod regular {"), "solid");
    assert_eq!(next("solid", "pub mod  {"), "solid");
    assert_eq!(next("solid", "pub const A: &Icon = &Icon {"), "solid");
    assert_eq!(next("solid", "{ pub mod icons"), "icons");
    assert_eq!(next("solid", "pub mod größe {"), "größe");
}

#[test]
fn a_box_line_sets_the_box_string() {
    let next = |held: &str, line: &str| Source::new(line).next_box(held.to_string(), 0);
    assert_eq!(next("", "            view_box: \"0 0 576 512\","), "0 0 576 512");
    assert_eq!(next("0 0 1 1", "view_box: \"0 0 2 2\""), "0 0 2 2");
    assert_eq!(next("0 0 1 1", "view_box: \"\""), "0 0 1 1");
    assert_eq!(next("0 0 1 1", "view_box:\"0 0 2 2\""), "0 0 1 1");
    assert_eq!(next("0 0 1 1", "viewbox: \"0 0 2 2\""), "0 0 1 1");
    assert_eq!(next("", "pub view_box: &'static str,"), "");
}

#[test]
fn a_path_on_one_line_is_taken_between_the_markers() {
    let text = Source::new("            d: r#\"M1 2 \"quoted\" z\"#,\n");
    let path = text.next_path(chars("old"), 0);
    assert_eq!(path, chars("M1 2 \"quoted\" z"));
}

#[test]
fn a_line_without_the_path_attribute_keeps_the_path() {
    let text = Source::new("let s = r#\"M1\"#;\nd: \"M1\"\nd: r#M1#\n");
    assert_eq!(text.next_path(chars("old"), 0), chars("old"));
    assert_eq!(text.next_path(chars("old"), 1), chars("old"));
    assert_eq!(text.next_path(chars("old"), 2), chars("old"));
}

#[test]
fn a_path_over_several_lines_is_joined() {
    let text = Source::new("  d: r#\"M1 2 \n   L3 4   \n\tL5 6\n  z\"#,\nrest\n");
    let path = text.next_path(Vec::new(), 0);
    assert_eq!(path, chars("M1 2 L3 4L5 6  z"));
}

#[test]
fn a_path_is_closed_within_ten_lines_or_dropped() {
    let mut closed = String::from("d: r#\"a\n");
    for _ in 0..8 {
        closed.push_str("b\n");
    }
    closed.push_str("c\"#\n");
    assert_eq!(Source::new(&closed).next_path(chars("old"), 0), chars("abbbbbbbbc"));

    let mut open = String::from("d: r#\"a\n");
    for _ in 0..9 {
        open.push_str("b\n");
    }
    open.push_str("c\"#\n");
    assert_eq!(Source::new(&open).next_path(chars("old"), 0), chars("old"));
}

#[test]
fn a_path_that_the_text_ends_in_is_dropped() {
    let text = Source::new("d: r#\"M1\nL2\n");
    assert_eq!(text.next_path(chars("old"), 0), chars("old"));
    assert_eq!(text.next_path(Vec::new(), 0), Vec::<char>::new());
}

#[test]
fn window_limit_cuts_the_window_at_the_end() {
    assert_eq!(window_limit(100, 0, 20), 20);
    assert_eq!(window_limit(100, 80, 20), 100);
    assert_eq!(window_limit(100, 81, 20), 100);
    assert_eq!(window_limit(100, 79, 20), 99);
    assert_eq!(window_limit(100, 100, 20), 100);
    assert_eq!(window_limit(usize::MAX, usize::MAX - 3, 10), usize::MAX);
}

#[test]
fn the_look_ahead_stops_when_both_fields_are_found() {
    let text = Source::new("pub const A: &Icon = &Icon {\n  view_box: \"0 0 1 1\",\n  d: r#\"M1\"#,\n  view_box: \"0 0 2 2\",\n};\n");
    let scan = text.scan_window(0);
    assert_eq!(scan.fields, Some(("0 0 1 1".to_string(), "M1".to_string())));
    assert_eq!(scan.consumed, 3);
}

#[test]
fn the_look_ahead_takes_the_last_value_before_it_stops() {
    let text = Source::new("pub const A: &Icon = &Icon {\n  view_box: \"0 0 1 1\",\n  view_box: \"0 0 2 2\",\n  d: r#\"M1\"#,\n");
    let scan = text.scan_window(0);
    assert_eq!(scan.fields, Some(("0 0 2 2".to_string(), "M1".to_string())));
    assert_eq!(scan.consumed, 4);
}

#[test]
fn the_look_ahead_reads_twenty_lines() {
    let mut inside = String::from("pub const A: &Icon = &Icon {\n  d: r#\"M1\"#,\n");
    for _ in 0..17 {
        inside.push_str("//\n");
    }
    inside.push_str("  view_box: \"0 0 1 1\",\n");
    let scan = Source::new(&inside).scan_window(0);
    assert_eq!(scan.fields, Some(("0 0 1 1".to_string(), "M1".to_string())));
    assert_eq!(scan.consumed, 20);

    let mut outside = String::from("pub const A: &Icon = &Icon {\n  d: r#\"M1\"#,\n");
    for _ in 0..18 {
        outside.push_str("//\n");
    }
    outside.push_str("  view_box: \"0 0 1 1\",\n");
    let scan = Source::new(&outside).scan_window(0);
    assert_eq!(scan.fields, None);
    assert_eq!(scan.consumed, 20);
}

#[test]
fn the_look_ahead_ends_with_the_text() {
    let text = Source::new("pub const A: &Icon = &Icon {\n  view_box: \"0 0 1 1\",\n");
    let scan = text.scan_window(0);
    assert_eq!(scan.fields, None);
    assert_eq!(scan.consumed, 2);
    let scan = text.scan_window(1);
    assert_eq!(scan.fields, None);
    assert_eq!(scan.consumed, 1);
}

#[test]
fn a_step_gives_the_next_state_and_at_most_one_record() {
    let text = Source::new("pub mod solid {\n    pub const HOUSE: &Icon = &Icon {\n        view_box: \"0 0 576 512\",\n        d: r#\"M1 2\"#,\n    };\n}\n");
    let (state, found) = text.scan_line(ScanState { category: String::new() }, 0);
    assert_eq!(state.category, "solid");
    assert!(found.is_none());
    let (state, found) = text.scan_line(state, 1);
    assert_eq!(state.category, "solid");
    let icon = found.expect("the line declares a record");
    assert_eq!(icon.name, "house");
    assert_eq!(icon.import_path, "solid.HOUSE");
    let (state, found) = text.scan_line(state, 2);
    assert_eq!(state.category, "solid");
    assert!(found.is_none());
}

#[test]
fn a_declaration_on_the_line_that_opens_the_category_counts() {
    let text = Source::new("pub mod solid { pub const A: &Icon = &Icon {\n view_box: \"0 0 1 1\", d: r#\"M\"#,\n");
    let (state, found) = text.scan_line(ScanState { category: String::new() }, 0);
    assert_eq!(state.category, "solid");
    assert_eq!(found.expect("a record").import_path, "solid.A");
}

#[test]
fn records_outside_a_category_are_passed_over() {
    let blob = format!(
        "{}pub mod solid {{\n{}}}\n",
        record("none", "EARLY", "0 0 1 1", "M0"),
        record("solid", "LATE", "0 0 1 1", "M0"),
    );
    let icons = parse_with_state_machine(&blob);
    assert_eq!(names(&icons), vec!["late"]);
    assert_eq!(icons[0].category, "solid");
}

#[test]
fn the_category_persists_until_the_next_one_opens() {
    let blob = format!(
        "pub mod solid {{\n{}{}}}\npub mod empty {{\n}}\npub mod brands {{\n{}}}\npub mod icons {{\n    pub use super::solid;\n}}\n",
        record("solid", "A_B", "0 0 1 2", "M0"),
        record("solid", "C", "0 0 3 4", "M1"),
        record("brands", "D", "0 0 5 6", "M2"),
    );
    let icons = parse_with_state_machine(&blob);
    assert_eq!(names(&icons), vec!["a-b", "c", "d"]);
    let categories: Vec<&str> = icons.iter().map(|icon| icon.category.as_str()).collect();
    assert_eq!(categories, vec!["solid", "solid", "brands"]);
    assert_eq!((icons[2].width, icons[2].height), (5, 6));
}

#[test]
fn incomplete_records_are_dropped_and_the_scan_goes_on() {
    let blob = "pub mod solid {\n    pub const NO_PATH: &Icon = &Icon {\n        view_box: \"0 0 1 1\",\n    };\n".to_string()
        + &"//\n".repeat(20)
        + "    pub const NO_BOX: &Icon = &Icon {\n        d: r#\"M0\"#,\n    };\n"
        + &"//\n".repeat(20)
        + "    pub const BAD_BOX: &Icon = &Icon {\n        view_box: \"0 0 wide 1\",\n        d: r#\"M0\"#,\n    };\n"
        + "    pub const FLAT: &Icon = &Icon {\n        view_box: \"0 0 0 1\",\n        d: r#\"M0\"#,\n    };\n"
        + "    pub const : &Icon = &Icon {\n        view_box: \"0 0 1 1\",\n        d: r#\"M0\"#,\n    };\n"
        + "    pub const GOOD: &Icon = &Icon {\n        view_box: \"0 0 1 1\",\n        d: r#\"M0\"#,\n    };\n}\n";
    let icons = parse_with_state_machine(&blob);
    assert_eq!(names(&icons), vec!["good"]);
}

#[test]
fn a_record_takes_the_fields_of_its_neighbour_within_the_window() {
    let blob = "pub mod solid {\n    pub const FIRST: &Icon = &Icon {\n        view_box: \"0 0 1 1\",\n    };\n    pub const SECOND: &Icon = &Icon {\n        view_box: \"0 0 2 2\",\n        d: r#\"M2\"#,\n    };\n}\n";
    let icons = parse_with_state_machine(blob);
    assert_eq!(names(&icons), vec!["first", "second"]);
    assert_eq!(icons[0].view_box, "0 0 2 2");
    assert_eq!(icons[0].path_data, "M2");
    assert_eq!(icons[1].view_box, "0 0 2 2");
}

#[test]
fn records_with_paths_over_several_lines_are_extracted() {
    let blob = "pub mod regular {\n    pub const WAVE: &Icon = &Icon {\n        cropped: CroppedIcon {\n            view_box: \"0 0 640 512\",\n            d: r#\"M0 0\n                 L1 1\n                 L2 2z\"#,\n        },\n    };\n}\n";
    let icons = parse_with_state_machine(blob);
    assert_eq!(icons.len(), 1);
    assert_eq!(icons[0].path_data, "M0 0L1 1                 L2 2z");
}

#[test]
fn lines_may_end_in_carriage_return_and_line_feed() {
    let blob = "pub mod solid {\r\n    pub const A: &Icon = &Icon {\r\n        view_box: \"0 0 1 1\",\r\n        d: r#\"M0\"#,\r\n    };\r\n}\r\n";
    let icons = parse_with_state_machine(blob);
    assert_eq!(names(&icons), vec!["a"]);
    assert_eq!(icons[0].category, "solid");
}

#[test]
fn the_empty_text_declares_nothing() {
    assert!(parse_with_state_machine("").is_empty());
    assert!(parse_with_state_machine("\n\n").is_empty());
    assert!(parse_with_state_machine("pub mod solid {\n}\n").is_empty());
}

#[test]
fn every_extracted_record_meets_the_invariant() {
    let blob = format!(
        "pub mod solid {{\n{}{}{}}}\n",
        record("solid", "A", "0 0 10 20", "M0"),
        record("solid", "B_C", "1 2 3 4", "M1 \"x\""),
        record("solid", "D", "0 0 0 0", "M2"),
    );
    let icons = parse_fontawesome_file(&blob);
    assert_eq!(icons.len(), 2);
    for icon in &icons {
        assert!(!icon.name.is_empty());
        assert!(!icon.category.is_empty());
        assert!(!icon.path_data.is_empty());
        let fields: Vec<&str> = icon.view_box.split_whitespace().collect();
        assert_eq!(fields.len(), 4);
        assert_eq!(fields[2].parse::<u32>(), Ok(icon.width));
        assert_eq!(fields[3].parse::<u32>(), Ok(icon.height));
        assert!(icon.width > 0 && icon.height > 0);
        assert_eq!(icon.name, rust_name_to_kebab_case(&icon.rust_name));
        assert_eq!(icon.import_path, format!("{}.{}", icon.category, icon.rust_name));
    }
}

fn text_lines(text: &str) -> Vec<Vec<char>> {
    text.lines().map(chars).collect()
}

fn given(captures: &[Option<&str>]) -> Vec<Option<String>> {
    captures.iter().map(|capture| capture.map(str::to_string)).collect()
}

#[test]
fn the_scan_follows_the_captures_that_it_is_given() {
    let lines = text_lines(
        "first\nsecond\n  d: r#\"M1 2\"#,\nthird\nfourth\n  d: r#\"M3\n  4\"#\n",
    );
    let icons = scan_captured(
        lines,
        given(&[Some("solid"), None, None, Some("brands"), None, None, None]),
        given(&[None, Some("HOUSE"), None, None, Some("GIT_ALT"), None, None]),
        given(&[None, Some("0 0 576 512"), None, None, None, Some("0 0 448 512"), None]),
    );
    assert_eq!(icons.len(), 2);
    assert_eq!(icons[0].name, "house");
    assert_eq!(icons[0].category, "solid");
    assert_eq!(icons[0].import_path, "solid.HOUSE");
    assert_eq!((icons[0].width, icons[0].height), (576, 512));
    assert_eq!(icons[0].path_data, "M1 2");
    assert_eq!(icons[1].name, "git-alt");
    assert_eq!(icons[1].import_path, "brands.GIT_ALT");
    assert_eq!(icons[1].view_box, "0 0 448 512");
    assert_eq!(icons[1].path_data, "M3  4");
}

#[test]
fn the_scan_drops_what_the_captures_do_not_complete() {
    let lines = text_lines("a\nb\n  d: r#\"M\"#\nc\n");
    let no_category = scan_captured(
        lines.clone(),
        given(&[None, None, None, None]),
        given(&[None, Some("A"), None, None]),
        given(&[None, Some("0 0 1 1"), None, None]),
    );
    assert!(no_category.is_empty());
    let no_box = scan_captured(
        lines.clone(),
        given(&[Some("solid"), None, None, None]),
        given(&[None, Some("A"), None, None]),
        given(&[None, None, None, None]),
    );
    assert!(no_box.is_empty());
    let empty_identifier = scan_captured(
        lines.clone(),
        given(&[Some("solid"), None, None, None]),
        given(&[None, Some(""), None, None]),
        given(&[None, Some("0 0 1 1"), None, None]),
    );
    assert!(empty_identifier.is_empty());
    let whole = scan_captured(
        lines,
        given(&[Some("solid"), None, None, None]),
        given(&[None, Some("A"), None, Some("B")]),
        given(&[None, Some("0 0 1 1"), None, None]),
    );
    assert_eq!(names(&whole), vec!["a"]);
    assert!(scan_captured(Vec::new(), Vec::new(), Vec::new(), Vec::new()).is_empty());
}

#[test]
fn lines_are_chosen_by_their_markers() {
    let lines = text_lines(
        "pub mod solid {\n    pub const A: &Icon = &Icon {\n  view_box: \"0 0 1 1\",\n  d: r#\"M\"#,\npub mod other;\npub const B: u8 = 1;\n",
    );
    let chosen = choose_candidates(&lines);
    assert_eq!(
        chosen.category_lines,
        given(&[Some("pub mod solid {"), None, None, None, None, None])
    );
    assert_eq!(
        chosen.record_lines,
        given(&[None, Some("    pub const A: &Icon = &Icon {"), None, None, None, None])
    );
    assert_eq!(
        chosen.box_lines,
        given(&[None, None, Some("  view_box: \"0 0 1 1\","), None, None, None])
    );
}

#[test]
fn captures_are_taken_line_by_line() {
    let lines = text_lines(
        "pub mod solid {\n    pub const ARROW_UP: &Icon = &Icon {\n  view_box: \"0 0 1 1\",\n  d: r#\"M\"#,\npub mod { }\n  view_box: \"\"\n",
    );
    let captured = capture_lines(&lines);
    assert_eq!(captured.categories, given(&[Some("solid"), None, None, None, None, None]));
    assert_eq!(captured.identifiers, given(&[None, Some("ARROW_UP"), None, None, None, None]));
    assert_eq!(captured.boxes, given(&[None, None, Some("0 0 1 1"), None, None, None]));
}
