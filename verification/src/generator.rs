//! The generator of the catalog's source text: from the data of the icons,
//! read from vector images, to the text that the record extractor scans.
//!
//! The text declares one module per category, the categories in the order of
//! their labels, and in each module one constant per icon, the icons in the
//! order of their names. An icon carries its cropped shape and, where the
//! full images hold an icon of the same category and name, its full shape.

use vstd::prelude::*;
use vstd::string::StringExecFns;
use crate::categories::{
    count_labels, label_order, label_table, labels_of, table_of, text_before, LabelOrder,
};
use crate::engines::{to_uppercase, uppercase_of};
use crate::text::{is_digit, push_char};

verus! {

/// The data of one icon as mathematical values.
pub struct IconDataView {
    pub name: Seq<char>,
    pub category: Seq<char>,
    pub view_box: Seq<char>,
    pub path_data: Seq<char>,
    pub comment: Seq<char>,
    pub file_path: Seq<char>,
}

/// The data of one icon, as read from its vector image.
#[derive(Debug)]
pub struct IconData {
    /// The identifier under which the icon is declared.
    pub name: String,
    /// The category: the directory that holds the image.
    pub category: String,
    pub view_box: String,
    pub path_data: String,
    /// The comment at the head of the image.
    pub comment: String,
    /// Where the image was read from.
    pub file_path: String,
}

impl View for IconData {
    type V = IconDataView;

    open spec fn view(&self) -> IconDataView {
        IconDataView {
            name: self.name@,
            category: self.category@,
            view_box: self.view_box@,
            path_data: self.path_data@,
            comment: self.comment@,
            file_path: self.file_path@,
        }
    }
}

impl Clone for IconData {
    fn clone(&self) -> (copy: Self)
        ensures
            copy == *self,
    {
        IconData {
            name: self.name.clone(),
            category: self.category.clone(),
            view_box: self.view_box.clone(),
            path_data: self.path_data.clone(),
            comment: self.comment.clone(),
            file_path: self.file_path.clone(),
        }
    }
}

/// The views of a sequence of icon data.
pub open spec fn data_of(icons: Seq<IconData>) -> Seq<IconDataView> {
    Seq::new(icons.len(), |i: int| icons[i]@)
}

/// The categories of a sequence of icon data, icon by icon.
pub open spec fn data_categories(icons: Seq<IconDataView>) -> Seq<Seq<char>> {
    Seq::new(icons.len(), |i: int| icons[i].category)
}

/// What is put before an identifier that would start with a digit.
pub const DIGIT_PREFIX: &'static str = "ICON_";

/// `text` with an underscore for each hyphen.
pub open spec fn underscored(text: Seq<char>) -> Seq<char> {
    Seq::new(
        text.len(),
        |i: int|
            if text[i] == '-' {
                '_'
            } else {
                text[i]
            },
    )
}

/// The identifier that an upper-case file name gives: underscores for
/// hyphens, and a prefix where the name starts with a digit.
pub open spec fn identifier_from_upper(upper: Seq<char>) -> Seq<char> {
    let plain = underscored(upper);
    if plain.len() > 0 && is_digit(plain[0]) {
        DIGIT_PREFIX@ + plain
    } else {
        plain
    }
}

/// The identifier under which the icon of the file `file_name` is declared.
pub open spec fn identifier_of(file_name: Seq<char>) -> Seq<char> {
    identifier_from_upper(uppercase_of(file_name))
}

/// The identifier that the upper-case file name `upper` gives.
pub fn finish_identifier(upper: &str) -> (identifier: String)
    ensures
        identifier@ == identifier_from_upper(upper@),
{
    let mut plain = String::new();
    let mut starts_with_digit = false;
    for c in it: upper.chars()
        invariant
            it.seq() == upper@,
            plain@.len() == it.index(),
            forall|j: int| 0 <= j < plain@.len() ==> plain@[j] == underscored(upper@)[j],
            starts_with_digit == (plain@.len() > 0 && is_digit(plain@[0])),
    {
        let code: u32 = c as u32;
        if plain.as_str().is_empty() {
            starts_with_digit = 0x30 <= code && code <= 0x39;
        }
        push_char(
            &mut plain,
            if c == '-' {
                '_'
            } else {
                c
            },
        );
    }
    assert(plain@ =~= underscored(upper@));
    if starts_with_digit {
        let mut identifier = DIGIT_PREFIX.to_owned();
        identifier.append(plain.as_str());
        identifier
    } else {
        plain
    }
}

/// The identifier under which the icon of the file `s` is declared: the
/// name in upper case with underscores for hyphens.
pub fn snake_case_to_upper(s: &str) -> (identifier: String)
    ensures
        identifier@ == identifier_of(s@),
{
    let upper = to_uppercase(s);
    finish_identifier(upper.as_str())
}

/// The place at which an icon with the name `name` enters `members`: behind
/// the last member whose name does not come after it.
pub open spec fn name_slot(members: Seq<int>, icons: Seq<IconDataView>, name: Seq<char>) -> int
    decreases members.len(),
{
    if members.len() == 0 {
        0
    } else if !text_before(name, icons[members.last()].name) {
        members.len() as int
    } else {
        name_slot(members.drop_last(), icons, name)
    }
}

/// The positions of the icons of `category` among the first `n` icons, in
/// the order of their names; icons of one name in the order of `icons`.
pub open spec fn members_of(icons: Seq<IconDataView>, category: Seq<char>, n: int) -> Seq<int>
    decreases n,
{
    if 0 < n <= icons.len() {
        let before = members_of(icons, category, n - 1);
        if icons[n - 1].category == category {
            before.insert(name_slot(before, icons, icons[n - 1].name), n - 1)
        } else {
            before
        }
    } else {
        Seq::empty()
    }
}

/// The position of the first icon of `full`, from `from` on, with the
/// category `category` and the name `name`.
pub open spec fn partner_from(
    full: Seq<IconDataView>,
    category: Seq<char>,
    name: Seq<char>,
    from: int,
) -> Option<int>
    decreases full.len() - from,
{
    if 0 <= from < full.len() {
        if full[from].category == category && full[from].name == name {
            Some(from)
        } else {
            partner_from(full, category, name, from + 1)
        }
    } else {
        None
    }
}

/// The full shape that belongs to `icon`, if `full` holds one.
pub open spec fn partner_of(full: Seq<IconDataView>, icon: IconDataView) -> Option<IconDataView> {
    match partner_from(full, icon.category, icon.name, 0) {
        Some(at) => Some(full[at]),
        None => None,
    }
}

/// The positions in `icons` as mathematical integers.
pub open spec fn positions_of(members: Seq<usize>) -> Seq<int> {
    Seq::new(members.len(), |i: int| members[i] as int)
}

/// The positions of the icons of `category`, in the order of their names.
pub fn sorted_members(icons: &[IconData], category: &str) -> (members: Vec<usize>)
    ensures
        positions_of(members@) == members_of(data_of(icons@), category@, icons@.len() as int),
        forall|i: int| 0 <= i < members.len() ==> (#[trigger] members[i]) < icons.len(),
{
    let ghost data = data_of(icons@);
    let wanted = category.to_owned();
    let mut members: Vec<usize> = Vec::new();
    let mut n: usize = 0;
    assert(positions_of(members@) =~= members_of(data, category@, 0));
    while n < icons.len()
        invariant
            n <= icons.len(),
            data == data_of(icons@),
            wanted@ == category@,
            positions_of(members@) == members_of(data, category@, n as int),
            forall|i: int| 0 <= i < members.len() ==> (#[trigger] members[i]) < n,
        decreases icons.len() - n,
    {
        assert(data[n as int] == icons[n as int]@);
        if icons[n].category == wanted {
            let ghost before = positions_of(members@);
            let mut at: usize = members.len();
            assert(before.take(at as int) =~= before);
            while at > 0 && label_order(
                icons[n].name.as_str(),
                icons[members[at - 1]].name.as_str(),
            ) == LabelOrder::Before
                invariant
                    at <= members.len(),
                    n < icons.len(),
                    data == data_of(icons@),
                    before == positions_of(members@),
                    forall|i: int| 0 <= i < members.len() ==> (#[trigger] members[i]) < n,
                    name_slot(before.take(at as int), data, data[n as int].name) == name_slot(
                        before,
                        data,
                        data[n as int].name,
                    ),
                decreases at,
            {
                proof {
                    assert(before.take(at as int).drop_last() =~= before.take(at - 1));
                    assert(before.take(at as int).last() == members[at - 1]);
                    assert(data[members[at - 1] as int] == icons[members[at - 1] as int]@);
                }
                at -= 1;
            }
            proof {
                if at > 0 {
                    assert(before.take(at as int).last() == members[at - 1]);
                    assert(data[members[at - 1] as int] == icons[members[at - 1] as int]@);
                }
                assert(name_slot(before, data, data[n as int].name) == at);
            }
            members.insert(at, n);
            assert(positions_of(members@) =~= before.insert(at as int, n as int));
        }
        n += 1;
    }
    members
}

/// The full shape that belongs to `icon`, if `full` holds one.
pub fn find_partner<'a>(full: &'a [IconData], icon: &IconData) -> (partner: Option<&'a IconData>)
    ensures
        match partner {
            Some(found) => partner_of(data_of(full@), icon@) == Some(found@),
            None => partner_of(data_of(full@), icon@) is None,
        },
{
    let ghost data = data_of(full@);
    let mut at: usize = 0;
    while at < full.len()
        invariant
            at <= full.len(),
            data == data_of(full@),
            partner_from(data, icon@.category, icon@.name, at as int) == partner_from(
                data,
                icon@.category,
                icon@.name,
                0,
            ),
        decreases full.len() - at,
    {
        assert(data[at as int] == full[at as int]@);
        if full[at].category == icon.category && full[at].name == icon.name {
            return Some(&full[at]);
        }
        at += 1;
    }
    None
}

/// The head of the generated text.
pub const HEADER: &'static str = "// This file is auto-generated. Do not edit manually.\n\n";

/// The declaration of the shared license comment up to the comment.
pub const LICENSE_HEAD: &'static str =
    "/// FontAwesome license comment shared by all icons\npub const FONTAWESOME_LICENSE: &str = r#\"";

/// The declaration of the shared license comment behind the comment.
pub const LICENSE_TAIL: &'static str = "\"#;\n\n";

/// The declarations of the types of the catalog.
pub const TYPES: &'static str =
    "/// Represents a cropped FontAwesome icon with its SVG path data\n#[derive(Debug, Clone, Copy, PartialEq)]\npub struct CroppedIcon {\n    /// The SVG viewBox attribute value\n    pub view_box: &'static str,\n    /// The SVG path data (d attribute)\n    pub d: &'static str,\n}\n\n/// Represents a full FontAwesome icon with standard viewBox\n#[cfg(feature = \"full-svg\")]\n#[derive(Debug, Clone, Copy, PartialEq)]\npub struct FullIcon {\n    /// The SVG path data (d attribute)\n    pub d: &'static str,\n}\n\n/// Standard viewBox for full SVG icons\n#[cfg(feature = \"full-svg\")]\npub const FULL_VIEW_BOX: &str = \"0 0 640 640\";\n\n/// Represents a FontAwesome icon that can have both cropped and full variants\n#[derive(Debug, Clone, Copy, PartialEq)]\npub struct Icon {\n    /// The cropped version of the icon\n    pub cropped: CroppedIcon,\n    /// The full version of the icon (when feature enabled)\n    #[cfg(feature = \"full-svg\")]\n    pub full: FullIcon,\n}\n\n";

/// The module of a category up to the category in its comment.
pub const MODULE_DOC: &'static str = "/// ";

/// The module of a category between the category in its comment and its name.
pub const MODULE_HEAD: &'static str = " icons\npub mod ";

/// The module of a category between its name and its icons.
pub const MODULE_OPEN: &'static str =
    " {\n    use super::{Icon, CroppedIcon};\n    #[cfg(feature = \"full-svg\")]\n    use super::FullIcon;\n\n";

/// The end of the module of a category.
pub const MODULE_CLOSE: &'static str = "}\n\n";

/// The declaration of an icon up to the name in its comment.
pub const ICON_DOC: &'static str = "    /// ";

/// The declaration of an icon between the name in its comment and its identifier.
pub const ICON_HEAD: &'static str = " icon\n    pub const ";

/// The declaration of an icon between its identifier and its box string.
pub const ICON_OPEN: &'static str =
    ": &Icon = &Icon {\n        cropped: CroppedIcon {\n            view_box: \"";

/// The declaration of an icon between its box string and its path.
pub const ICON_PATH: &'static str = "\",\n            d: r#\"";

/// The end of a shape.
pub const SHAPE_CLOSE: &'static str = "\"#,\n        },\n";

/// The full shape of an icon up to its path.
pub const FULL_OPEN: &'static str =
    "        #[cfg(feature = \"full-svg\")]\n        full: FullIcon {\n            d: r#\"";

/// The end of the declaration of an icon.
pub const ICON_CLOSE: &'static str = "    };\n\n";

/// The module that names all categories, up to the categories.
pub const INDEX_OPEN: &'static str =
    "/// Module containing all FontAwesome icons organized by category\npub mod icons {\n";

/// The line that names a category, up to the category.
pub const INDEX_ENTRY: &'static str = "    pub use super::";

/// The end of the line that names a category.
pub const INDEX_ENTRY_CLOSE: &'static str = ";\n";

/// The declaration of `icon` with the full shape `full`, if there is one.
pub open spec fn icon_text(icon: IconDataView, full: Option<IconDataView>) -> Seq<char> {
    ICON_DOC@ + icon.name + ICON_HEAD@ + icon.name + ICON_OPEN@ + icon.view_box + ICON_PATH@
        + icon.path_data + SHAPE_CLOSE@ + match full {
        Some(shape) => FULL_OPEN@ + shape.path_data + SHAPE_CLOSE@,
        None => Seq::empty(),
    } + ICON_CLOSE@
}

/// The declarations of the first `upto` icons of `members`.
pub open spec fn members_text(
    members: Seq<int>,
    cropped: Seq<IconDataView>,
    full: Seq<IconDataView>,
    upto: int,
) -> Seq<char>
    decreases upto,
{
    if 0 < upto <= members.len() {
        let icon = cropped[members[upto - 1]];
        members_text(members, cropped, full, upto - 1) + icon_text(icon, partner_of(full, icon))
    } else {
        Seq::empty()
    }
}

/// The module of the category `category`.
pub open spec fn category_text(
    category: Seq<char>,
    cropped: Seq<IconDataView>,
    full: Seq<IconDataView>,
) -> Seq<char> {
    let members = members_of(cropped, category, cropped.len() as int);
    MODULE_DOC@ + category + MODULE_HEAD@ + category + MODULE_OPEN@ + members_text(
        members,
        cropped,
        full,
        members.len() as int,
    ) + MODULE_CLOSE@
}

/// The modules of the first `upto` categories of `table`.
pub open spec fn categories_text(
    table: Seq<(Seq<char>, nat)>,
    cropped: Seq<IconDataView>,
    full: Seq<IconDataView>,
    upto: int,
) -> Seq<char>
    decreases upto,
{
    if 0 < upto <= table.len() {
        categories_text(table, cropped, full, upto - 1) + category_text(
            table[upto - 1].0,
            cropped,
            full,
        )
    } else {
        Seq::empty()
    }
}

/// The lines that name the first `upto` categories of `table`.
pub open spec fn index_text(table: Seq<(Seq<char>, nat)>, upto: int) -> Seq<char>
    decreases upto,
{
    if 0 < upto <= table.len() {
        index_text(table, upto - 1) + INDEX_ENTRY@ + table[upto - 1].0 + INDEX_ENTRY_CLOSE@
    } else {
        Seq::empty()
    }
}

/// The source text of the catalog of the icons `cropped`, with the full
/// shapes of `full` and the license comment `license`.
pub open spec fn module_source(
    cropped: Seq<IconDataView>,
    full: Seq<IconDataView>,
    license: Seq<char>,
) -> Seq<char> {
    let table = label_table(data_categories(cropped));
    HEADER@ + LICENSE_HEAD@ + license + LICENSE_TAIL@ + TYPES@ + categories_text(
        table,
        cropped,
        full,
        table.len() as int,
    ) + INDEX_OPEN@ + index_text(table, table.len() as int) + MODULE_CLOSE@
}

/// Appends the declaration of `icon` with the full shape `full` to `output`.
pub fn write_icon(output: &mut String, icon: &IconData, full: Option<&IconData>)
    ensures
        final(output)@ == old(output)@ + icon_text(
            icon@,
            match full {
                Some(shape) => Some(shape@),
                None => None,
            },
        ),
{
    output.append(ICON_DOC);
    output.append(icon.name.as_str());
    output.append(ICON_HEAD);
    output.append(icon.name.as_str());
    output.append(ICON_OPEN);
    output.append(icon.view_box.as_str());
    output.append(ICON_PATH);
    output.append(icon.path_data.as_str());
    output.append(SHAPE_CLOSE);
    let ghost shape_text: Seq<char> = Seq::empty();
    match full {
        Some(shape) => {
            output.append(FULL_OPEN);
            output.append(shape.path_data.as_str());
            output.append(SHAPE_CLOSE);
            proof {
                shape_text = FULL_OPEN@ + shape@.path_data + SHAPE_CLOSE@;
            }
        },
        None => {},
    }
    output.append(ICON_CLOSE);
    assert(output@ =~= old(output)@ + (ICON_DOC@ + icon@.name + ICON_HEAD@ + icon@.name + ICON_OPEN@
        + icon@.view_box + ICON_PATH@ + icon@.path_data + SHAPE_CLOSE@ + shape_text
        + ICON_CLOSE@));
}

/// Appends the module of the category `category` to `output`.
pub fn write_category(output: &mut String, category: &str, cropped: &[IconData], full: &[IconData])
    ensures
        final(output)@ == old(output)@ + category_text(category@, data_of(cropped@), data_of(full@)),
{
    let ghost data = data_of(cropped@);
    let ghost shapes = data_of(full@);
    output.append(MODULE_DOC);
    output.append(category);
    output.append(MODULE_HEAD);
    output.append(category);
    output.append(MODULE_OPEN);
    let ghost opened = output@;
    let members = sorted_members(cropped, category);
    let ghost positions = positions_of(members@);
    let mut at: usize = 0;
    assert(output@ =~= opened + members_text(positions, data, shapes, 0));
    while at < members.len()
        invariant
            at <= members.len(),
            data == data_of(cropped@),
            shapes == data_of(full@),
            positions == positions_of(members@),
            forall|i: int| 0 <= i < members.len() ==> (#[trigger] members[i]) < cropped.len(),
            output@ == opened + members_text(positions, data, shapes, at as int),
        decreases members.len() - at,
    {
        let icon = &cropped[members[at]];
        assert(data[positions[at as int]] == icon@);
        let partner = find_partner(full, icon);
        let ghost before = output@;
        write_icon(output, icon, partner);
        assert(output@ =~= opened + members_text(positions, data, shapes, at + 1));
        at += 1;
    }
    output.append(MODULE_CLOSE);
    assert(output@ =~= old(output)@ + (MODULE_DOC@ + category@ + MODULE_HEAD@ + category@
        + MODULE_OPEN@ + members_text(positions, data, shapes, positions.len() as int)
        + MODULE_CLOSE@));
}

/// The source text of the catalog of the icons `cropped_icons`, with the
/// full shapes of `full_icons` and the license comment `license`.
pub fn generate_rust_module(cropped_icons: &[IconData], full_icons: &[IconData], license: &str) -> (output:
    String)
    ensures
        output@ == module_source(data_of(cropped_icons@), data_of(full_icons@), license@),
{
    let ghost data = data_of(cropped_icons@);
    let ghost shapes = data_of(full_icons@);
    let mut labels: Vec<&str> = Vec::new();
    let mut i: usize = 0;
    while i < cropped_icons.len()
        invariant
            i <= cropped_icons.len(),
            labels.len() == i,
            forall|k: int|
                0 <= k < i ==> (#[trigger] labels[k])@ == cropped_icons[k].category@,
        decreases cropped_icons.len() - i,
    {
        labels.push(cropped_icons[i].category.as_str());
        i += 1;
    }
    assert(labels_of(labels@) =~= data_categories(data));
    let categories = count_labels(&labels);
    let ghost table = table_of(categories@);

    let mut output = HEADER.to_owned();
    output.append(LICENSE_HEAD);
    output.append(license);
    output.append(LICENSE_TAIL);
    output.append(TYPES);
    let ghost head = output@;
    let mut at: usize = 0;
    assert(output@ =~= head + categories_text(table, data, shapes, 0));
    while at < categories.len()
        invariant
            at <= categories.len(),
            data == data_of(cropped_icons@),
            shapes == data_of(full_icons@),
            table == table_of(categories@),
            output@ == head + categories_text(table, data, shapes, at as int),
        decreases categories.len() - at,
    {
        assert(table[at as int].0 == categories[at as int].0@);
        write_category(&mut output, categories[at].0, cropped_icons, full_icons);
        assert(output@ =~= head + categories_text(table, data, shapes, at + 1));
        at += 1;
    }
    output.append(INDEX_OPEN);
    let ghost opened = output@;
    let mut at: usize = 0;
    assert(output@ =~= opened + index_text(table, 0));
    while at < categories.len()
        invariant
            at <= categories.len(),
            table == table_of(categories@),
            output@ == opened + index_text(table, at as int),
        decreases categories.len() - at,
    {
        assert(table[at as int].0 == categories[at as int].0@);
        output.append(INDEX_ENTRY);
        output.append(categories[at].0);
        output.append(INDEX_ENTRY_CLOSE);
        assert(output@ =~= opened + index_text(table, at + 1));
        at += 1;
    }
    output.append(MODULE_CLOSE);
    assert(output@ =~= HEADER@ + LICENSE_HEAD@ + license@ + LICENSE_TAIL@ + TYPES@
        + categories_text(table, data, shapes, table.len() as int) + INDEX_OPEN@ + index_text(
        table,
        table.len() as int,
    ) + MODULE_CLOSE@);
    output
}

} // verus!
