//! The four operations on a built index: search, usage snippet, details and
//! the list of categories.

pub mod code_gen;
pub mod details;
pub mod search;

use vstd::prelude::*;
use crate::categories::{
    categories_of, is_category_table, label_order, label_table, table_of, LabelOrder,
};
use crate::icon_index::IconIndex;
use crate::types::{category_counts_of, CategoryInfo, ListCategoriesResult};

verus! {

/// The name of the search operation.
pub const SEARCH_ICONS: &'static str = "search_icons";

/// The name of the snippet operation.
pub const GET_ICON_CODE: &'static str = "get_icon_code";

/// The name of the details operation.
pub const GET_ICON_DETAILS: &'static str = "get_icon_details";

/// The name of the categories operation.
pub const LIST_CATEGORIES: &'static str = "list_categories";

/// The four operations on the index.
#[derive(Debug, PartialEq, Eq, Structural, Clone, Copy)]
pub enum ToolKind {
    SearchIcons,
    GetIconCode,
    GetIconDetails,
    ListCategories,
}

/// The operation that goes by the name `name`, if there is one.
pub open spec fn tool_named(name: Seq<char>) -> Option<ToolKind> {
    if name == SEARCH_ICONS@ {
        Some(ToolKind::SearchIcons)
    } else if name == GET_ICON_CODE@ {
        Some(ToolKind::GetIconCode)
    } else if name == GET_ICON_DETAILS@ {
        Some(ToolKind::GetIconDetails)
    } else if name == LIST_CATEGORIES@ {
        Some(ToolKind::ListCategories)
    } else {
        None
    }
}

/// The operation that goes by the name `name`, if there is one.
pub fn tool_by_name(name: &str) -> (tool: Option<ToolKind>)
    ensures
        tool == tool_named(name@),
{
    if label_order(name, SEARCH_ICONS) == LabelOrder::Same {
        Some(ToolKind::SearchIcons)
    } else if label_order(name, GET_ICON_CODE) == LabelOrder::Same {
        Some(ToolKind::GetIconCode)
    } else if label_order(name, GET_ICON_DETAILS) == LabelOrder::Same {
        Some(ToolKind::GetIconDetails)
    } else if label_order(name, LIST_CATEGORIES) == LabelOrder::Same {
        Some(ToolKind::ListCategories)
    } else {
        None
    }
}

impl ToolKind {
    /// The name by which the operation goes.
    pub fn name(&self) -> (name: &'static str)
        ensures
            name@ == match *self {
                ToolKind::SearchIcons => SEARCH_ICONS@,
                ToolKind::GetIconCode => GET_ICON_CODE@,
                ToolKind::GetIconDetails => GET_ICON_DETAILS@,
                ToolKind::ListCategories => LIST_CATEGORIES@,
            },
    {
        match self {
            ToolKind::SearchIcons => SEARCH_ICONS,
            ToolKind::GetIconCode => GET_ICON_CODE,
            ToolKind::GetIconDetails => GET_ICON_DETAILS,
            ToolKind::ListCategories => LIST_CATEGORIES,
        }
    }

    /// What the operation does, in words.
    pub fn description(&self) -> (text: &'static str)
        ensures
            text@ == match *self {
                ToolKind::SearchIcons => "Search for FontAwesome icons by name or keyword"@,
                ToolKind::GetIconCode => "Get Yew component code for a specific icon"@,
                ToolKind::GetIconDetails => "Get detailed information about a specific icon"@,
                ToolKind::ListCategories => "List all available icon categories with counts"@,
            },
    {
        match self {
            ToolKind::SearchIcons => "Search for FontAwesome icons by name or keyword",
            ToolKind::GetIconCode => "Get Yew component code for a specific icon",
            ToolKind::GetIconDetails => "Get detailed information about a specific icon",
            ToolKind::ListCategories => "List all available icon categories with counts",
        }
    }
}

/// The categories of the catalog in the order of their labels, each with the
/// number of its records.
pub fn list_categories(index: &IconIndex) -> (result: ListCategoriesResult)
    ensures
        category_counts_of(result.categories@) == label_table(categories_of(index@)),
        is_category_table(category_counts_of(result.categories@), index@),
{
    let table = index.categories();
    let mut categories: Vec<CategoryInfo> = Vec::new();
    let mut i: usize = 0;
    while i < table.len()
        invariant
            i <= table.len(),
            categories.len() == i,
            forall|k: int|
                0 <= k < i ==> (#[trigger] categories[k]).name@ == table_of(table@)[k].0
                    && categories[k].count == table_of(table@)[k].1,
        decreases table.len() - i,
    {
        let (name, count) = table[i];
        categories.push(CategoryInfo { name: name.to_owned(), count });
        i += 1;
    }
    assert(category_counts_of(categories@) =~= table_of(table@));
    ListCategoriesResult { categories }
}

} // verus!
