//! The data model: icon records, the parameters and results of the four
//! catalog operations, and their mathematical views.

use vstd::prelude::*;
use vstd::string::StringExecFns;
use crate::text::{fields_of, u32_of_text};

verus! {

/// What separates the category from the identifier in a reference path.
pub const REFERENCE_SEPARATOR: &'static str = ".";

/// The lower-case form of an ASCII capital letter; any other character unchanged.
pub open spec fn ascii_lower(c: char) -> char {
    if 0x41 <= c as u32 <= 0x5a {
        ((c as u32 + 0x20) as u8) as char
    } else {
        c
    }
}

/// The character that stands in a lookup name for `c` of a declared
/// identifier: a hyphen for an underscore, otherwise `c` in ASCII lower case.
pub open spec fn kebab_char(c: char) -> char {
    if c == '_' {
        '-'
    } else {
        ascii_lower(c)
    }
}

/// The lookup name of a declared identifier: upper case with underscores
/// becomes lower case with hyphens, character by character.
pub open spec fn kebab_case(identifier: Seq<char>) -> Seq<char> {
    Seq::new(identifier.len(), |i: int| kebab_char(identifier[i]))
}

/// The path by which generated snippets refer to an icon: the category, a
/// dot and the identifier as declared.
pub open spec fn reference_path(category: Seq<char>, identifier: Seq<char>) -> Seq<char> {
    category + REFERENCE_SEPARATOR@ + identifier
}

/// Width and height of a box string: the string must consist of exactly four
/// fields, of which the third and the fourth are read as unsigned numbers.
pub open spec fn view_box_size(view_box: Seq<char>) -> Option<(u32, u32)> {
    let fields = fields_of(view_box);
    if fields.len() == 4 {
        match (u32_of_text(fields[2]), u32_of_text(fields[3])) {
            (Some(width), Some(height)) => Some((width, height)),
            _ => None,
        }
    } else {
        None
    }
}

/// An icon record as mathematical values.
pub struct IconInfoView {
    pub name: Seq<char>,
    pub rust_name: Seq<char>,
    pub category: Seq<char>,
    pub width: u32,
    pub height: u32,
    pub view_box: Seq<char>,
    pub path_data: Seq<char>,
    pub import_path: Seq<char>,
}

impl IconInfoView {
    /// The invariant of a record: name, category and path are not empty, and
    /// the box string gives the record's width and height, both positive.
    pub open spec fn wf(self) -> bool {
        &&& self.name.len() > 0
        &&& self.category.len() > 0
        &&& self.path_data.len() > 0
        &&& view_box_size(self.view_box) == Some((self.width, self.height))
        &&& self.width > 0
        &&& self.height > 0
    }

    /// Name and reference path are those that the declared identifier and the
    /// category give.
    pub open spec fn derived(self) -> bool {
        &&& self.name == kebab_case(self.rust_name)
        &&& self.import_path == reference_path(self.category, self.rust_name)
    }

    /// The record answers to the key `(name, category)`.
    pub open spec fn has_key(self, name: Seq<char>, category: Seq<char>) -> bool {
        self.name == name && self.category == category
    }

    /// The part of the record that a search result carries.
    pub open spec fn summary(self) -> SearchIconInfoView {
        SearchIconInfoView {
            name: self.name,
            rust_name: self.rust_name,
            category: self.category,
            import_path: self.import_path,
        }
    }
}

/// One icon of the catalog.
#[derive(Debug)]
pub struct IconInfo {
    /// The lookup name: lower case with hyphens.
    pub name: String,
    /// The identifier as declared: upper case with underscores.
    pub rust_name: String,
    /// The category under which the icon was declared.
    pub category: String,
    pub width: u32,
    pub height: u32,
    /// The box string as declared, four fields.
    pub view_box: String,
    /// The vector path, not interpreted.
    pub path_data: String,
    /// The reference path for generated snippets.
    pub import_path: String,
}

impl View for IconInfo {
    type V = IconInfoView;

    open spec fn view(&self) -> IconInfoView {
        IconInfoView {
            name: self.name@,
            rust_name: self.rust_name@,
            category: self.category@,
            width: self.width,
            height: self.height,
            view_box: self.view_box@,
            path_data: self.path_data@,
            import_path: self.import_path@,
        }
    }
}

impl Clone for IconInfo {
    fn clone(&self) -> (copy: Self)
        ensures
            copy == *self,
    {
        IconInfo {
            name: self.name.clone(),
            rust_name: self.rust_name.clone(),
            category: self.category.clone(),
            width: self.width,
            height: self.height,
            view_box: self.view_box.clone(),
            path_data: self.path_data.clone(),
            import_path: self.import_path.clone(),
        }
    }
}

/// The views of a sequence of records.
pub open spec fn records_of(icons: Seq<IconInfo>) -> Seq<IconInfoView> {
    Seq::new(icons.len(), |i: int| icons[i]@)
}

/// A search result entry as mathematical values.
pub struct SearchIconInfoView {
    pub name: Seq<char>,
    pub rust_name: Seq<char>,
    pub category: Seq<char>,
    pub import_path: Seq<char>,
}

/// What a search reports of one icon.
#[derive(Debug)]
pub struct SearchIconInfo {
    pub name: String,
    pub rust_name: String,
    pub category: String,
    pub import_path: String,
}

impl View for SearchIconInfo {
    type V = SearchIconInfoView;

    open spec fn view(&self) -> SearchIconInfoView {
        SearchIconInfoView {
            name: self.name@,
            rust_name: self.rust_name@,
            category: self.category@,
            import_path: self.import_path@,
        }
    }
}

impl Clone for SearchIconInfo {
    fn clone(&self) -> (copy: Self)
        ensures
            copy == *self,
    {
        SearchIconInfo {
            name: self.name.clone(),
            rust_name: self.rust_name.clone(),
            category: self.category.clone(),
            import_path: self.import_path.clone(),
        }
    }
}

/// The views of a sequence of search result entries.
pub open spec fn summaries_of(icons: Seq<SearchIconInfo>) -> Seq<SearchIconInfoView> {
    Seq::new(icons.len(), |i: int| icons[i]@)
}

/// The text of an optional string.
pub open spec fn text_of(s: Option<String>) -> Option<Seq<char>> {
    match s {
        Some(s) => Some(s@),
        None => None,
    }
}

/// A search request: the query, and the category to which it is confined, if any.
#[derive(Debug)]
pub struct SearchIconsParams {
    pub query: String,
    pub category: Option<String>,
}

/// The answer to a search: the matches, best first, and their number.
#[derive(Debug)]
pub struct SearchIconsResult {
    pub icons: Vec<SearchIconInfo>,
    pub total_matches: usize,
}

/// A request for the usage snippet of one icon.
#[derive(Debug)]
pub struct GetIconCodeParams {
    pub name: String,
    pub category: String,
}

/// One configurable property of the rendering component, as mathematical values.
pub struct PropInfoView {
    pub name: Seq<char>,
    pub prop_type: Seq<char>,
    pub required: bool,
    pub default_value: Option<Seq<char>>,
    pub description: Seq<char>,
}

/// One configurable property of the rendering component.
#[derive(Debug)]
pub struct PropInfo {
    pub name: String,
    pub prop_type: String,
    pub required: bool,
    pub default_value: Option<String>,
    pub description: String,
}

impl View for PropInfo {
    type V = PropInfoView;

    open spec fn view(&self) -> PropInfoView {
        PropInfoView {
            name: self.name@,
            prop_type: self.prop_type@,
            required: self.required,
            default_value: text_of(self.default_value),
            description: self.description@,
        }
    }
}

/// The views of a sequence of properties.
pub open spec fn props_of(props: Seq<PropInfo>) -> Seq<PropInfoView> {
    Seq::new(props.len(), |i: int| props[i]@)
}

/// The usage snippet of one icon.
#[derive(Debug)]
pub struct GetIconCodeResult {
    /// Example invocations of the rendering component, in both modes.
    pub code: String,
    /// The statement that brings component and icon into scope.
    pub import_statement: String,
    /// The icon's own box string.
    pub viewbox_default: String,
    /// The box string of the full rendering mode.
    pub viewbox_full: String,
    /// The properties that the rendering component takes.
    pub props: Vec<PropInfo>,
}

/// A request for the details of one icon.
#[derive(Debug)]
pub struct GetIconDetailsParams {
    pub name: String,
    pub category: String,
}

/// The details of one icon: the record, a component example and the bare vector image.
#[derive(Debug)]
pub struct GetIconDetailsResult {
    pub icon: IconInfo,
    pub yew_component_example: String,
    pub raw_svg: String,
}

/// The categories of the catalog with the number of records in each.
#[derive(Debug)]
pub struct ListCategoriesResult {
    pub categories: Vec<CategoryInfo>,
}

/// A category and the number of records declared under it.
#[derive(Debug)]
pub struct CategoryInfo {
    pub name: String,
    pub count: usize,
}

/// The categories and counts that a sequence of entries holds.
pub open spec fn category_counts_of(entries: Seq<CategoryInfo>) -> Seq<(Seq<char>, nat)> {
    Seq::new(entries.len(), |i: int| (entries[i].name@, entries[i].count as nat))
}

/// Why a lookup gave no record.
#[derive(Debug)]
pub enum IconError {
    /// The catalog holds no record with this name in this category.
    NotFound { name: String, category: String },
}

/// How the message of a lookup miss begins.
pub const NOT_FOUND_HEAD: &'static str = "Icon '";

/// What stands between name and category in the message of a lookup miss.
pub const NOT_FOUND_MIDDLE: &'static str = "' not found in category '";

/// How the message of a lookup miss ends.
pub const NOT_FOUND_TAIL: &'static str = "'";

/// The message of a lookup miss for the key `(name, category)`.
pub open spec fn not_found_message(name: Seq<char>, category: Seq<char>) -> Seq<char> {
    NOT_FOUND_HEAD@ + name + NOT_FOUND_MIDDLE@ + category + NOT_FOUND_TAIL@
}

impl IconError {
    /// The error is the lookup miss for the key `(name, category)`.
    pub open spec fn is_miss(self, name: Seq<char>, category: Seq<char>) -> bool {
        self matches IconError::NotFound { name: missed, category: under } && missed@ == name
            && under@ == category
    }

    /// The error in words.
    pub fn message(&self) -> (text: String)
        ensures
            self matches IconError::NotFound { name, category } ==> text@ == not_found_message(
                name@,
                category@,
            ),
    {
        match self {
            IconError::NotFound { name, category } => {
                let mut text = NOT_FOUND_HEAD.to_owned();
                text.append(name.as_str());
                text.append(NOT_FOUND_MIDDLE);
                text.append(category.as_str());
                text.append(NOT_FOUND_TAIL);
                text
            },
        }
    }
}

} // verus!
