//! The details of one icon: the record itself, a whole component that
//! renders the icon, and the bare vector image.

use vstd::prelude::*;
use vstd::string::StringExecFns;
use crate::icon_index::{lookup, IconIndex};
use crate::text::{contains_text, occurs_at};
use crate::types::{GetIconDetailsParams, GetIconDetailsResult, IconError, IconInfo};

verus! {

/// The component example up to the reference in the import.
pub const EXAMPLE_HEAD: &'static str =
    "use yew::prelude::*;\nuse yew_shortcuts::{FontAwesomeSvg, ";

/// The component example between the two references.
pub const EXAMPLE_MIDDLE: &'static str =
    "};\n\n#[function_component]\npub fn MyIconComponent() -> Html {\n    html! {\n        <div class=\"icon-container\">\n            <FontAwesomeSvg \n                icon={&";

/// The component example behind the reference in the invocation.
pub const EXAMPLE_TAIL: &'static str =
    "}\n                classes={classes!(\"text-blue-500\", \"w-6\", \"h-6\")}\n                style={\"color: currentColor\"}\n            />\n        </div>\n    }\n}";

/// The vector image up to the box string.
pub const SVG_HEAD: &'static str = "<svg xmlns=\"http://www.w3.org/2000/svg\" viewBox=\"";

/// The vector image between the box string and the path.
pub const SVG_MIDDLE: &'static str = "\">\n    <path fill=\"currentColor\" d=\"";

/// The vector image behind the path.
pub const SVG_TAIL: &'static str = "\" />\n</svg>";

/// A whole component that renders the icon at `path`.
pub open spec fn component_example_of(path: Seq<char>) -> Seq<char> {
    EXAMPLE_HEAD@ + path + EXAMPLE_MIDDLE@ + path + EXAMPLE_TAIL@
}

/// The bare vector image with the box string `view_box` and the path `path_data`.
pub open spec fn raw_svg_of(view_box: Seq<char>, path_data: Seq<char>) -> Seq<char> {
    SVG_HEAD@ + view_box + SVG_MIDDLE@ + path_data + SVG_TAIL@
}

/// The component example holds the reference path twice: once in the import
/// and once, behind it, in the invocation.
pub proof fn lemma_example_embeds_path(path: Seq<char>)
    ensures
        contains_text(component_example_of(path), path),
        occurs_at(component_example_of(path), path, EXAMPLE_HEAD@.len() as int),
        occurs_at(
            component_example_of(path),
            path,
            (EXAMPLE_HEAD@.len() + path.len() + EXAMPLE_MIDDLE@.len()) as int,
        ),
{
    let text = component_example_of(path);
    let first = EXAMPLE_HEAD@.len() as int;
    let second = (EXAMPLE_HEAD@.len() + path.len() + EXAMPLE_MIDDLE@.len()) as int;
    assert(text.subrange(first, first + path.len()) =~= path);
    assert(text.subrange(second, second + path.len()) =~= path);
    assert(occurs_at(text, path, first));
}

/// The vector image holds the box string and, behind it, the path.
pub proof fn lemma_svg_embeds_fields(view_box: Seq<char>, path_data: Seq<char>)
    ensures
        occurs_at(raw_svg_of(view_box, path_data), view_box, SVG_HEAD@.len() as int),
        occurs_at(
            raw_svg_of(view_box, path_data),
            path_data,
            (SVG_HEAD@.len() + view_box.len() + SVG_MIDDLE@.len()) as int,
        ),
{
    let text = raw_svg_of(view_box, path_data);
    let first = SVG_HEAD@.len() as int;
    let second = (SVG_HEAD@.len() + view_box.len() + SVG_MIDDLE@.len()) as int;
    assert(text.subrange(first, first + view_box.len()) =~= view_box);
    assert(text.subrange(second, second + path_data.len()) =~= path_data);
}

/// The details of `icon`.
pub fn describe(icon: &IconInfo) -> (details: GetIconDetailsResult)
    ensures
        details.icon@ == icon@,
        details.yew_component_example@ == component_example_of(icon@.import_path),
        details.raw_svg@ == raw_svg_of(icon@.view_box, icon@.path_data),
        contains_text(details.yew_component_example@, icon@.import_path),
        contains_text(details.raw_svg@, icon@.view_box),
        contains_text(details.raw_svg@, icon@.path_data),
{
    let path = icon.import_path.as_str();
    let mut yew_component_example = EXAMPLE_HEAD.to_owned();
    yew_component_example.append(path);
    yew_component_example.append(EXAMPLE_MIDDLE);
    yew_component_example.append(path);
    yew_component_example.append(EXAMPLE_TAIL);
    let mut raw_svg = SVG_HEAD.to_owned();
    raw_svg.append(icon.view_box.as_str());
    raw_svg.append(SVG_MIDDLE);
    raw_svg.append(icon.path_data.as_str());
    raw_svg.append(SVG_TAIL);
    proof {
        lemma_example_embeds_path(path@);
        lemma_svg_embeds_fields(icon@.view_box, icon@.path_data);
    }
    GetIconDetailsResult { icon: icon.clone(), yew_component_example, raw_svg }
}

/// The details of the icon with the name `params.name` in the category
/// `params.category`; the lookup miss for that key where the catalog holds no
/// such icon.
pub fn get_icon_details(index: &IconIndex, params: GetIconDetailsParams) -> (result: Result<
    GetIconDetailsResult,
    IconError,
>)
    ensures
        match result {
            Ok(details) => lookup(index@, params.name@, params.category@) == Some(details.icon@)
                && details.yew_component_example@ == component_example_of(
                details.icon@.import_path,
            ) && details.raw_svg@ == raw_svg_of(details.icon@.view_box, details.icon@.path_data)
                && contains_text(details.yew_component_example@, details.icon@.import_path),
            Err(error) => lookup(index@, params.name@, params.category@) is None && error.is_miss(
                params.name@,
                params.category@,
            ),
        },
{
    match index.find_icon(params.name.as_str(), params.category.as_str()) {
        Some(icon) => Ok(describe(icon)),
        None => Err(IconError::NotFound { name: params.name, category: params.category }),
    }
}

} // verus!
