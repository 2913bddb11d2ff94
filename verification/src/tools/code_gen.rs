//! The usage snippet of one icon: how to bring the rendering component and
//! the icon into scope, how to invoke the component in its two modes, and
//! which properties the component takes.

use vstd::prelude::*;
use vstd::string::StringExecFns;
use crate::icon_index::{lookup, IconIndex};
use crate::text::{contains_text, occurs_at};
use crate::types::{
    props_of, GetIconCodeParams, GetIconCodeResult, IconError, IconInfo, PropInfo, PropInfoView,
};

verus! {

/// How the import statement begins.
pub const IMPORT_HEAD: &'static str = "use yew_shortcuts::{FontAwesomeSvg, ";

/// How the import statement ends.
pub const IMPORT_TAIL: &'static str = "};";

/// The example up to the reference of the default mode.
pub const CODE_HEAD: &'static str =
    "// Default cropped version (always available):\nhtml! {\n    <FontAwesomeSvg icon={&";

/// The example between the two references.
pub const CODE_MIDDLE: &'static str =
    "} />\n}\n\n// Full SVG version (requires \"full-svg\" feature in Cargo.toml):\nhtml! {\n    <FontAwesomeSvg icon={&";

/// The example behind the reference of the full mode.
pub const CODE_TAIL: &'static str = "} full=true />\n}";

/// The box string of the full rendering mode.
pub const FULL_VIEW_BOX: &'static str = "0 0 640 640";

/// The statement that brings the component and the icon at `path` into scope.
pub open spec fn import_statement_of(path: Seq<char>) -> Seq<char> {
    IMPORT_HEAD@ + path + IMPORT_TAIL@
}

/// The example invocations for the icon at `path`: the default mode first,
/// then the full mode.
pub open spec fn usage_code_of(path: Seq<char>) -> Seq<char> {
    CODE_HEAD@ + path + CODE_MIDDLE@ + path + CODE_TAIL@
}

/// The properties of the rendering component. They describe the component
/// and are the same for every icon.
pub open spec fn component_props() -> Seq<PropInfoView> {
    seq![
        PropInfoView {
            name: "icon"@,
            prop_type: "&'static Icon"@,
            required: true,
            default_value: None,
            description: "The icon to render"@,
        },
        PropInfoView {
            name: "full"@,
            prop_type: "bool"@,
            required: false,
            default_value: Some("false"@),
            description: "Use full SVG with original viewBox (requires 'full-svg' feature)"@,
        },
        PropInfoView {
            name: "classes"@,
            prop_type: "Classes"@,
            required: false,
            default_value: Some("Classes::new()"@),
            description: "CSS classes to apply to the SVG element"@,
        },
        PropInfoView {
            name: "style"@,
            prop_type: "Option<String>"@,
            required: false,
            default_value: Some("None"@),
            description: "Inline style to apply to the SVG element"@,
        },
        PropInfoView {
            name: "onclick"@,
            prop_type: "Option<Callback<MouseEvent>>"@,
            required: false,
            default_value: Some("None"@),
            description: "Click event handler"@,
        },
    ]
}

/// The import statement holds the reference path.
pub proof fn lemma_import_embeds_path(path: Seq<char>)
    ensures
        contains_text(import_statement_of(path), path),
{
    let text = import_statement_of(path);
    let at = IMPORT_HEAD@.len() as int;
    assert(text.subrange(at, at + path.len()) =~= path);
    assert(occurs_at(text, path, at));
}

/// The example holds the reference path twice: once for the default mode
/// and once, behind it, for the full mode.
pub proof fn lemma_code_embeds_path(path: Seq<char>)
    ensures
        contains_text(usage_code_of(path), path),
        occurs_at(usage_code_of(path), path, CODE_HEAD@.len() as int),
        occurs_at(
            usage_code_of(path),
            path,
            (CODE_HEAD@.len() + path.len() + CODE_MIDDLE@.len()) as int,
        ),
{
    let text = usage_code_of(path);
    let first = CODE_HEAD@.len() as int;
    let second = (CODE_HEAD@.len() + path.len() + CODE_MIDDLE@.len()) as int;
    assert(text.subrange(first, first + path.len()) =~= path);
    assert(text.subrange(second, second + path.len()) =~= path);
    assert(occurs_at(text, path, first));
}

/// One property of the rendering component.
fn prop(
    name: &str,
    prop_type: &str,
    required: bool,
    default_value: Option<&str>,
    description: &str,
) -> (info: PropInfo)
    ensures
        info@ == (PropInfoView {
            name: name@,
            prop_type: prop_type@,
            required,
            default_value: match default_value {
                Some(value) => Some(value@),
                None => None,
            },
            description: description@,
        }),
{
    PropInfo {
        name: name.to_owned(),
        prop_type: prop_type.to_owned(),
        required,
        default_value: match default_value {
            Some(value) => Some(value.to_owned()),
            None => None,
        },
        description: description.to_owned(),
    }
}

/// The properties of the rendering component.
pub fn component_prop_list() -> (props: Vec<PropInfo>)
    ensures
        props_of(props@) == component_props(),
{
    let mut props: Vec<PropInfo> = Vec::new();
    props.push(prop("icon", "&'static Icon", true, None, "The icon to render"));
    props.push(
        prop(
            "full",
            "bool",
            false,
            Some("false"),
            "Use full SVG with original viewBox (requires 'full-svg' feature)",
        ),
    );
    props.push(
        prop(
            "classes",
            "Classes",
            false,
            Some("Classes::new()"),
            "CSS classes to apply to the SVG element",
        ),
    );
    props.push(
        prop(
            "style",
            "Option<String>",
            false,
            Some("None"),
            "Inline style to apply to the SVG element",
        ),
    );
    props.push(
        prop("onclick", "Option<Callback<MouseEvent>>", false, Some("None"), "Click event handler"),
    );
    assert(props_of(props@) =~= component_props());
    props
}

/// The usage snippet of `icon`.
pub fn generate(icon: &IconInfo) -> (snippet: GetIconCodeResult)
    ensures
        snippet.code@ == usage_code_of(icon@.import_path),
        snippet.import_statement@ == import_statement_of(icon@.import_path),
        snippet.viewbox_default@ == icon@.view_box,
        snippet.viewbox_full@ == FULL_VIEW_BOX@,
        props_of(snippet.props@) == component_props(),
        contains_text(snippet.code@, icon@.import_path),
        contains_text(snippet.import_statement@, icon@.import_path),
{
    let path = icon.import_path.as_str();
    let mut import_statement = IMPORT_HEAD.to_owned();
    import_statement.append(path);
    import_statement.append(IMPORT_TAIL);
    let mut code = CODE_HEAD.to_owned();
    code.append(path);
    code.append(CODE_MIDDLE);
    code.append(path);
    code.append(CODE_TAIL);
    proof {
        lemma_import_embeds_path(path@);
        lemma_code_embeds_path(path@);
    }
    GetIconCodeResult {
        code,
        import_statement,
        viewbox_default: icon.view_box.clone(),
        viewbox_full: FULL_VIEW_BOX.to_owned(),
        props: component_prop_list(),
    }
}

/// The usage snippet of the icon with the name `params.name` in the category
/// `params.category`; the lookup miss for that key where the catalog holds no
/// such icon.
pub fn get_icon_code(index: &IconIndex, params: GetIconCodeParams) -> (result: Result<
    GetIconCodeResult,
    IconError,
>)
    ensures
        match result {
            Ok(snippet) => lookup(index@, params.name@, params.category@) matches Some(icon)
                && snippet.code@ == usage_code_of(icon.import_path) && snippet.import_statement@
                == import_statement_of(icon.import_path) && snippet.viewbox_default@
                == icon.view_box && snippet.viewbox_full@ == FULL_VIEW_BOX@ && props_of(
                snippet.props@,
            ) == component_props() && contains_text(snippet.code@, icon.import_path)
                && contains_text(snippet.import_statement@, icon.import_path),
            Err(error) => lookup(index@, params.name@, params.category@) is None && error.is_miss(
                params.name@,
                params.category@,
            ),
        },
{
    match index.find_icon(params.name.as_str(), params.category.as_str()) {
        Some(icon) => Ok(generate(icon)),
        None => Err(IconError::NotFound { name: params.name, category: params.category }),
    }
}

} // verus!
