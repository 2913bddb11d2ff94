use icon_catalog::extract::parse_with_state_machine;
use icon_catalog::generator::{
    find_partner, finish_identifier, generate_rust_module, snake_case_to_upper, sorted_members,
    write_icon, IconData,
};
use icon_catalog::svg_source::{
    comment_of, find_attribute, find_element, find_shape, find_subtree_end, license_of,
    odd_comments, read_icon, SvgElement, SvgError,
};

fn data(name: &str, category: &str, view_box: &str, path: &str) -> IconData {
    IconData {
        name: name.to_string(),
        category: category.to_string(),
        view_box: view_box.to_string(),
        path_data: path.to_string(),
        comment: "Font Awesome Free".to_string(),
        file_path: format!("../svgs/{category}/{name}.svg"),
    }
}

fn element(depth: usize, tag: &str, attributes: &[(&str, &str)]) -> SvgElement {
    SvgElement {
        depth,
        tag: tag.to_string(),
        attributes: attributes
            .iter()
            .map(|(name, value)| (name.to_string(), value.to_string()))
            .collect(),
    }
}

#[test]
fn file_names_become_identifiers() {
    assert_eq!(snake_case_to_upper("house"), "HOUSE");
    assert_eq!(snake_case_to_upper("arrow-up-9-1"), "ARROW_UP_9_1");
    assert_eq!(snake_case_to_upper("500px"), "ICON_500PX");
    assert_eq!(snake_case_to_upper("0"), "ICON_0");
    assert_eq!(snake_case_to_upper("-0"), "_0");
    assert_eq!(snake_case_to_upper(""), "");
    assert_eq!(snake_case_to_upper("straße-ärger"), "STRASSE_ÄRGER");
    assert_eq!(snake_case_to_upper("already_UPPER"), "ALREADY_UPPER");
    assert_eq!(snake_case_to_upper("\u{663}"), "\u{663}");
}

#[test]
fn finish_identifier_replaces_hyphens_and_guards_digits() {
    assert_eq!(finish_identifier("A-B-C"), "A_B_C");
    assert_eq!(finish_identifier("9-TO-5"), "ICON_9_TO_5");
    assert_eq!(finish_identifier("lower-stays"), "lower_stays");
    assert_eq!(finish_identifier("--"), "__");
    assert_eq!(finish_identifier("A9"), "A9");
}

#[test]
fn members_of_a_category_are_sorted_by_name() {
    let icons = vec![
        data("USER", "solid", "0 0 1 1", "M0"),
        data("STAR", "regular", "0 0 1 1", "M1"),
        data("HOUSE", "solid", "0 0 1 1", "M2"),
        data("USER", "solid", "0 0 1 1", "M3"),
        data("ANCHOR", "solid", "0 0 1 1", "M4"),
        data("Z", "brands", "0 0 1 1", "M5"),
        data("HOUSE", "solid", "0 0 1 1", "M6"),
    ];
    assert_eq!(sorted_members(&icons, "solid"), vec![4, 2, 6, 0, 3]);
    assert_eq!(sorted_members(&icons, "regular"), vec![1]);
    assert_eq!(sorted_members(&icons, "brands"), vec![5]);
    assert_eq!(sorted_members(&icons, "duotone"), Vec::<usize>::new());
    assert_eq!(sorted_members(&[], "solid"), Vec::<usize>::new());
}

#[test]
fn the_partner_is_the_first_full_icon_of_the_category_and_name() {
    let full = vec![
        data("STAR", "regular", "0 0 640 640", "F0"),
        data("STAR", "solid", "0 0 640 640", "F1"),
        data("STAR", "solid", "0 0 640 640", "F2"),
    ];
    let found = find_partner(&full, &data("STAR", "solid", "0 0 1 1", "M"));
    assert_eq!(found.map(|icon| icon.path_data.as_str()), Some("F1"));
    let found = find_partner(&full, &data("STAR", "regular", "0 0 1 1", "M"));
    assert_eq!(found.map(|icon| icon.path_data.as_str()), Some("F0"));
    assert!(find_partner(&full, &data("STAR", "brands", "0 0 1 1", "M")).is_none());
    assert!(find_partner(&full, &data("STARS", "solid", "0 0 1 1", "M")).is_none());
    assert!(find_partner(&[], &data("STAR", "solid", "0 0 1 1", "M")).is_none());
}

#[test]
fn an_icon_is_written_with_and_without_its_full_shape() {
    let icon = data("HOUSE", "solid", "0 0 576 512", "M1 2");
    let full = data("HOUSE", "solid", "0 0 640 640", "F1 2");
    let mut output = String::from("// before\n");
    write_icon(&mut output, &icon, None);
    assert_eq!(
        output,
        "// before\n    /// HOUSE icon\n    pub const HOUSE: &Icon = &Icon {\n        cropped: CroppedIcon {\n            view_box: \"0 0 576 512\",\n            d: r#\"M1 2\"#,\n        },\n    };\n\n"
    );
    let mut output = String::new();
    write_icon(&mut output, &icon, Some(&full));
    assert_eq!(
        output,
        "    /// HOUSE icon\n    pub const HOUSE: &Icon = &Icon {\n        cropped: CroppedIcon {\n            view_box: \"0 0 576 512\",\n            d: r#\"M1 2\"#,\n        },\n        #[cfg(feature = \"full-svg\")]\n        full: FullIcon {\n            d: r#\"F1 2\"#,\n        },\n    };\n\n"
    );
}

#[test]
fn the_source_text_of_an_empty_catalog() {
    let text = generate_rust_module(&[], &[], "LICENSE");
    assert!(text.starts_with(
        "// This file is auto-generated. Do not edit manually.\n\n/// FontAwesome license comment shared by all icons\npub const FONTAWESOME_LICENSE: &str = r#\"LICENSE\"#;\n\n/// Represents a cropped FontAwesome icon with its SVG path data\n#[derive(Debug, Clone, Copy, PartialEq)]\npub struct CroppedIcon {\n"
    ));
    assert!(text.ends_with(
        "    pub full: FullIcon,\n}\n\n/// Module containing all FontAwesome icons organized by category\npub mod icons {\n}\n\n"
    ));
    assert!(parse_with_state_machine(&text).is_empty());
}

#[test]
fn the_source_text_declares_categories_and_icons_in_order() {
    let cropped = vec![
        data("USER", "solid", "0 0 448 512", "M3 4"),
        data("GITHUB", "brands", "0 0 512 512", "M5 6"),
        data("HOUSE", "solid", "0 0 576 512", "M1 2"),
    ];
    let full = vec![data("HOUSE", "solid", "0 0 640 640", "F1 2")];
    let text = generate_rust_module(&cropped, &full, "Free");
    let modules = "/// brands icons\npub mod brands {\n    use super::{Icon, CroppedIcon};\n    #[cfg(feature = \"full-svg\")]\n    use super::FullIcon;\n\n    /// GITHUB icon\n    pub const GITHUB: &Icon = &Icon {\n        cropped: CroppedIcon {\n            view_box: \"0 0 512 512\",\n            d: r#\"M5 6\"#,\n        },\n    };\n\n}\n\n/// solid icons\npub mod solid {\n    use super::{Icon, CroppedIcon};\n    #[cfg(feature = \"full-svg\")]\n    use super::FullIcon;\n\n    /// HOUSE icon\n    pub const HOUSE: &Icon = &Icon {\n        cropped: CroppedIcon {\n            view_box: \"0 0 576 512\",\n            d: r#\"M1 2\"#,\n        },\n        #[cfg(feature = \"full-svg\")]\n        full: FullIcon {\n            d: r#\"F1 2\"#,\n        },\n    };\n\n    /// USER icon\n    pub const USER: &Icon = &Icon {\n        cropped: CroppedIcon {\n            view_box: \"0 0 448 512\",\n            d: r#\"M3 4\"#,\n        },\n    };\n\n}\n\n/// Module containing all FontAwesome icons organized by category\npub mod icons {\n    pub use super::brands;\n    pub use super::solid;\n}\n\n";
    assert!(text.ends_with(modules), "{text}");
    assert!(text[..text.len() - modules.len()].ends_with("    pub full: FullIcon,\n}\n\n"));
}

#[test]
fn the_extractor_reads_back_what_the_generator_wrote() {
    let cropped = vec![
        data("USER", "solid", "0 0 448 512", "M3 4"),
        data("GITHUB", "brands", "0 0 512 512", "M5 6 \"quoted\""),
        data("HOUSE", "solid", "0 0 576 512", "M1 2"),
        data("ARROW_UP_9_1", "solid", "0 0 10 20", "M7 8"),
        data("STAR", "regular", "0 0 30 40", "M9"),
    ];
    let full = vec![
        data("HOUSE", "solid", "0 0 640 640", "F1 2"),
        data("STAR", "regular", "0 0 640 640", "F9"),
    ];
    let text = generate_rust_module(&cropped, &full, "Font Awesome Free");
    let icons = parse_with_state_machine(&text);
    let read: Vec<(&str, &str, &str, &str, &str, u32, u32)> = icons
        .iter()
        .map(|icon| {
            (
                icon.category.as_str(),
                icon.rust_name.as_str(),
                icon.name.as_str(),
                icon.view_box.as_str(),
                icon.path_data.as_str(),
                icon.width,
                icon.height,
            )
        })
        .collect();
    assert_eq!(
        read,
        vec![
            ("brands", "GITHUB", "github", "0 0 512 512", "M5 6 \"quoted\"", 512, 512),
            ("regular", "STAR", "star", "0 0 30 40", "M9", 30, 40),
            ("solid", "ARROW_UP_9_1", "arrow-up-9-1", "0 0 10 20", "M7 8", 10, 20),
            ("solid", "HOUSE", "house", "0 0 576 512", "M1 2", 576, 512),
            ("solid", "USER", "user", "0 0 448 512", "M3 4", 448, 512),
        ]
    );
}

#[test]
fn the_comment_stands_between_the_first_markers() {
    assert_eq!(comment_of("<!-- Font Awesome --><svg/>"), Ok("Font Awesome".to_string()));
    assert_eq!(comment_of("<svg><!--a--><!--b--></svg>"), Ok("a".to_string()));
    assert_eq!(comment_of("<!---->"), Ok(String::new()));
    assert_eq!(comment_of("<!--\n  two\n  lines \n-->"), Ok("two\n  lines".to_string()));
    assert_eq!(comment_of("<svg/>"), Ok(String::new()));
    assert_eq!(comment_of("<!-- open"), Ok(String::new()));
    assert_eq!(comment_of("close -->"), Ok(String::new()));
    assert_eq!(comment_of(""), Ok(String::new()));
}

#[test]
fn a_closer_before_the_opener_is_an_error() {
    assert_eq!(comment_of("--> <!-- late -->"), Err(SvgError::CommentMarkers));
    assert_eq!(comment_of("<!-->"), Err(SvgError::CommentMarkers));
    assert_eq!(comment_of("<!--->"), Err(SvgError::CommentMarkers));
}

#[test]
fn elements_and_attributes_are_found_in_document_order() {
    let elements = vec![
        element(0, "svg", &[("xmlns", "x"), ("viewBox", "0 0 1 1"), ("viewBox", "0 0 2 2")]),
        element(1, "g", &[]),
        element(2, "path", &[("fill", "none"), ("d", "M0")]),
        element(1, "path", &[("d", "M1")]),
    ];
    assert_eq!(find_element(&elements, "path", 0, 4), Some(2));
    assert_eq!(find_element(&elements, "path", 3, 4), Some(3));
    assert_eq!(find_element(&elements, "path", 0, 2), None);
    assert_eq!(find_element(&elements, "svg", 1, 4), None);
    assert_eq!(find_element(&elements, "svg", 0, 0), None);
    assert_eq!(find_subtree_end(&elements, 0), 4);
    assert_eq!(find_subtree_end(&elements, 1), 3);
    assert_eq!(find_subtree_end(&elements, 2), 3);
    assert_eq!(find_subtree_end(&elements, 3), 4);
    assert_eq!(find_attribute(&elements[0], "viewBox"), Some("0 0 1 1".to_string()));
    assert_eq!(find_attribute(&elements[0], "viewbox"), None);
    assert_eq!(find_attribute(&elements[1], "d"), None);
    assert_eq!(find_attribute(&elements[2], "d"), Some("M0".to_string()));
}

#[test]
fn the_shape_is_the_box_of_the_image_and_its_first_path() {
    let elements = vec![
        element(0, "svg", &[("viewBox", "0 0 576 512")]),
        element(1, "title", &[]),
        element(1, "path", &[("d", "M1 2")]),
        element(1, "path", &[("d", "M3 4")]),
    ];
    assert_eq!(find_shape(&elements), Ok(("0 0 576 512".to_string(), "M1 2".to_string())));
    let nested = vec![
        element(0, "html", &[]),
        element(1, "path", &[("d", "outside")]),
        element(1, "svg", &[("viewBox", "0 0 1 1")]),
        element(2, "g", &[]),
        element(3, "path", &[("d", "inside")]),
        element(1, "svg", &[("viewBox", "0 0 2 2")]),
    ];
    assert_eq!(find_shape(&nested), Ok(("0 0 1 1".to_string(), "inside".to_string())));
}

#[test]
fn an_image_without_a_shape_gives_the_reason() {
    assert_eq!(find_shape(&Vec::new()), Err(SvgError::NoSvgElement));
    assert_eq!(find_shape(&vec![element(0, "g", &[])]), Err(SvgError::NoSvgElement));
    assert_eq!(
        find_shape(&vec![element(0, "svg", &[("width", "1")]), element(1, "path", &[("d", "M")])]),
        Err(SvgError::NoViewBox)
    );
    assert_eq!(
        find_shape(&vec![element(0, "svg", &[("viewBox", "0 0 1 1")]), element(1, "g", &[])]),
        Err(SvgError::NoPathElement)
    );
    assert_eq!(
        find_shape(&vec![
            element(0, "root", &[]),
            element(1, "svg", &[("viewBox", "0 0 1 1")]),
            element(1, "path", &[("d", "M")]),
        ]),
        Err(SvgError::NoPathElement)
    );
    assert_eq!(
        find_shape(&vec![
            element(0, "svg", &[("viewBox", "0 0 1 1")]),
            element(1, "path", &[("fill", "x")]),
            element(1, "path", &[("d", "M")]),
        ]),
        Err(SvgError::NoPathData)
    );
}

#[test]
fn the_reasons_have_their_words() {
    assert_eq!(SvgError::NoSvgElement.message(), "No SVG element found");
    assert_eq!(SvgError::NoViewBox.message(), "No viewBox attribute");
    assert_eq!(SvgError::NoPathElement.message(), "No path element found");
    assert_eq!(SvgError::NoPathData.message(), "No d attribute in path");
    assert_eq!(SvgError::CommentMarkers.message(), "Comment markers out of order");
}

#[test]
fn an_image_gives_the_data_of_its_icon() {
    let elements = vec![
        element(0, "svg", &[("xmlns", "http://www.w3.org/2000/svg"), ("viewBox", "0 0 448 512")]),
        element(1, "path", &[("d", "M224 256z")]),
    ];
    let icon = read_icon(
        "<svg xmlns=\"http://www.w3.org/2000/svg\" viewBox=\"0 0 448 512\"><!--! Font Awesome Free --><path d=\"M224 256z\"/></svg>",
        &elements,
        "circle-user",
        "solid",
        "../svgs-7/solid/circle-user.svg",
    )
    .expect("a whole image");
    assert_eq!(icon.name, "CIRCLE_USER");
    assert_eq!(icon.category, "solid");
    assert_eq!(icon.view_box, "0 0 448 512");
    assert_eq!(icon.path_data, "M224 256z");
    assert_eq!(icon.comment, "! Font Awesome Free");
    assert_eq!(icon.file_path, "../svgs-7/solid/circle-user.svg");
    assert_eq!(
        read_icon("--><!--", &elements, "a", "solid", "a.svg").map(|icon| icon.name),
        Err(SvgError::CommentMarkers)
    );
    assert_eq!(
        read_icon("<svg/>", &Vec::new(), "a", "solid", "a.svg").map(|icon| icon.name),
        Err(SvgError::NoSvgElement)
    );
}

#[test]
fn the_license_is_the_comment_of_the_first_icon() {
    let mut icons = vec![
        data("A", "solid", "0 0 1 1", "M"),
        data("B", "solid", "0 0 1 1", "M"),
        data("C", "solid", "0 0 1 1", "M"),
        data("D", "solid", "0 0 1 1", "M"),
    ];
    icons[1].comment = "Other".to_string();
    icons[3].comment = String::new();
    assert_eq!(license_of(&icons), "Font Awesome Free");
    assert_eq!(odd_comments(&icons), vec![1, 3]);
    assert_eq!(license_of(&[]), "");
    assert_eq!(odd_comments(&[]), Vec::<usize>::new());
    assert_eq!(odd_comments(&icons[..1]), Vec::<usize>::new());
}
