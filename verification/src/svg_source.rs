//! Reading the data of an icon from its vector image.
//!
//! The image arrives as its text and as the sequence of its elements in
//! document order, each with its depth in the tree. The shape of the icon is
//! the box of the first `svg` element and the path data of the first `path`
//! element at or below it; the comment is what stands between the first
//! comment opener and the first comment closer of the text.

use vstd::prelude::*;
use crate::generator::{identifier_of, snake_case_to_upper, IconData, IconDataView};
use crate::text::{copy_range, find_text, first_occurrence, from_chars, to_chars, trim, trimmed};

verus! {

/// What opens a comment.
pub const COMMENT_OPEN: &'static str = "<!--";

/// What closes a comment.
pub const COMMENT_CLOSE: &'static str = "-->";

/// The tag of the element that holds the image.
pub const SVG_TAG: &'static str = "svg";

/// The tag of the element that holds the shape.
pub const PATH_TAG: &'static str = "path";

/// The attribute that holds the box string.
pub const VIEW_BOX_ATTRIBUTE: &'static str = "viewBox";

/// The attribute that holds the path data.
pub const PATH_ATTRIBUTE: &'static str = "d";

/// Why an image gives no icon.
#[derive(Debug, PartialEq, Eq, Structural, Clone, Copy)]
pub enum SvgError {
    /// The first comment closer stands before the end of the first comment opener.
    CommentMarkers,
    /// The image has no `svg` element.
    NoSvgElement,
    /// The `svg` element has no box attribute.
    NoViewBox,
    /// No `path` element stands at or below the `svg` element.
    NoPathElement,
    /// The `path` element has no path data.
    NoPathData,
}

impl SvgError {
    /// The error in words.
    pub fn message(&self) -> (text: &'static str)
        ensures
            text@ == match *self {
                SvgError::CommentMarkers => "Comment markers out of order"@,
                SvgError::NoSvgElement => "No SVG element found"@,
                SvgError::NoViewBox => "No viewBox attribute"@,
                SvgError::NoPathElement => "No path element found"@,
                SvgError::NoPathData => "No d attribute in path"@,
            },
    {
        match self {
            SvgError::CommentMarkers => "Comment markers out of order",
            SvgError::NoSvgElement => "No SVG element found",
            SvgError::NoViewBox => "No viewBox attribute",
            SvgError::NoPathElement => "No path element found",
            SvgError::NoPathData => "No d attribute in path",
        }
    }
}

/// One element of an image as mathematical values.
pub struct SvgElementView {
    pub depth: nat,
    pub tag: Seq<char>,
    pub attributes: Seq<(Seq<char>, Seq<char>)>,
}

/// One element of an image.
#[derive(Debug)]
pub struct SvgElement {
    /// The number of elements above this one in the tree.
    pub depth: usize,
    /// The local name of the element.
    pub tag: String,
    /// The attributes in the order of the text: local name and value.
    pub attributes: Vec<(String, String)>,
}

impl View for SvgElement {
    type V = SvgElementView;

    open spec fn view(&self) -> SvgElementView {
        SvgElementView {
            depth: self.depth as nat,
            tag: self.tag@,
            attributes: Seq::new(
                self.attributes@.len(),
                |i: int| (self.attributes@[i].0@, self.attributes@[i].1@),
            ),
        }
    }
}

/// The views of a sequence of elements.
pub open spec fn elements_of(elements: Seq<SvgElement>) -> Seq<SvgElementView> {
    Seq::new(elements.len(), |i: int| elements[i]@)
}

/// The comment of an image text: what stands between the first comment
/// opener and the first comment closer, trimmed; empty where one of the two
/// is missing; an error where the closer stands before the end of the opener.
pub open spec fn comment_in(content: Seq<char>) -> Result<Seq<char>, SvgError> {
    match first_occurrence(content, COMMENT_OPEN@) {
        Some(open) => match first_occurrence(content, COMMENT_CLOSE@) {
            Some(close) => if open + COMMENT_OPEN@.len() <= close {
                Ok(trimmed(content.subrange(open + COMMENT_OPEN@.len(), close)))
            } else {
                Err(SvgError::CommentMarkers)
            },
            None => Ok(Seq::empty()),
        },
        None => Ok(Seq::empty()),
    }
}

/// The comment of the image text `content`.
pub fn comment_of(content: &str) -> (comment: Result<String, SvgError>)
    ensures
        match comment {
            Ok(text) => comment_in(content@) == Ok::<Seq<char>, SvgError>(text@),
            Err(error) => comment_in(content@) == Err::<Seq<char>, SvgError>(error),
        },
{
    let chars = to_chars(content);
    let open_mark = to_chars(COMMENT_OPEN);
    let close_mark = to_chars(COMMENT_CLOSE);
    let open = match find_text(chars.as_slice(), open_mark.as_slice()) {
        Some(open) => open,
        None => {
            return Ok(String::new());
        },
    };
    let close = match find_text(chars.as_slice(), close_mark.as_slice()) {
        Some(close) => close,
        None => {
            return Ok(String::new());
        },
    };
    let length: usize = chars.len();
    assert(crate::text::occurs_at(chars@, COMMENT_OPEN@, open as int));
    assert(crate::text::occurs_at(chars@, COMMENT_CLOSE@, close as int));
    let from: usize = open + open_mark.len();
    if from <= close {
        let inside = copy_range(chars.as_slice(), from, close);
        let comment = trim(inside.as_slice());
        Ok(from_chars(comment.as_slice()))
    } else {
        Err(SvgError::CommentMarkers)
    }
}

/// The position of the first element from `from` up to `to` with the tag `tag`.
pub open spec fn first_with_tag(elements: Seq<SvgElementView>, tag: Seq<char>, from: int, to: int) -> Option<
    int,
>
    decreases to - from,
{
    if 0 <= from < to <= elements.len() {
        if elements[from].tag == tag {
            Some(from)
        } else {
            first_with_tag(elements, tag, from + 1, to)
        }
    } else {
        None
    }
}

/// The position behind the last element below the element at `at`: the
/// first later element that is not deeper than it, or the end.
pub open spec fn subtree_end(elements: Seq<SvgElementView>, at: int, from: int) -> int
    decreases elements.len() - from,
{
    if 0 <= at < from < elements.len() && elements[from].depth > elements[at].depth {
        subtree_end(elements, at, from + 1)
    } else {
        from
    }
}

/// The value of the first attribute from `from` on with the name `name`.
pub open spec fn attribute_from(
    attributes: Seq<(Seq<char>, Seq<char>)>,
    name: Seq<char>,
    from: int,
) -> Option<Seq<char>>
    decreases attributes.len() - from,
{
    if 0 <= from < attributes.len() {
        if attributes[from].0 == name {
            Some(attributes[from].1)
        } else {
            attribute_from(attributes, name, from + 1)
        }
    } else {
        None
    }
}

/// The shape that the elements of an image give: the box string of the first
/// `svg` element and the path data of the first `path` element at or below it.
pub open spec fn shape_in(elements: Seq<SvgElementView>) -> Result<(Seq<char>, Seq<char>), SvgError> {
    match first_with_tag(elements, SVG_TAG@, 0, elements.len() as int) {
        None => Err(SvgError::NoSvgElement),
        Some(svg) => match attribute_from(elements[svg].attributes, VIEW_BOX_ATTRIBUTE@, 0) {
            None => Err(SvgError::NoViewBox),
            Some(view_box) => match first_with_tag(
                elements,
                PATH_TAG@,
                svg,
                subtree_end(elements, svg, svg + 1),
            ) {
                None => Err(SvgError::NoPathElement),
                Some(path) => match attribute_from(elements[path].attributes, PATH_ATTRIBUTE@, 0) {
                    None => Err(SvgError::NoPathData),
                    Some(path_data) => Ok((view_box, path_data)),
                },
            },
        },
    }
}

/// The position of the first element from `from` up to `to` with the tag `tag`.
pub fn find_element(elements: &Vec<SvgElement>, tag: &str, from: usize, to: usize) -> (found: Option<
    usize,
>)
    requires
        from <= to <= elements.len(),
    ensures
        match found {
            Some(at) => first_with_tag(elements_of(elements@), tag@, from as int, to as int)
                == Some(at as int) && from <= at < to,
            None => first_with_tag(elements_of(elements@), tag@, from as int, to as int) is None,
        },
{
    let ghost views = elements_of(elements@);
    let wanted = tag.to_owned();
    let mut at: usize = from;
    while at < to
        invariant
            from <= at <= to <= elements.len(),
            views == elements_of(elements@),
            wanted@ == tag@,
            first_with_tag(views, tag@, at as int, to as int) == first_with_tag(
                views,
                tag@,
                from as int,
                to as int,
            ),
        decreases to - at,
    {
        assert(views[at as int] == elements[at as int]@);
        if elements[at].tag == wanted {
            return Some(at);
        }
        at += 1;
    }
    None
}

/// The position behind the last element below the element at `at`.
pub fn find_subtree_end(elements: &Vec<SvgElement>, at: usize) -> (end: usize)
    requires
        at < elements.len(),
    ensures
        end == subtree_end(elements_of(elements@), at as int, at + 1),
        at < end <= elements.len(),
{
    let ghost views = elements_of(elements@);
    let mut end: usize = at + 1;
    while end < elements.len() && elements[end].depth > elements[at].depth
        invariant
            at < end <= elements.len(),
            views == elements_of(elements@),
            subtree_end(views, at as int, end as int) == subtree_end(views, at as int, at + 1),
        decreases elements.len() - end,
    {
        assert(views[end as int] == elements[end as int]@);
        assert(views[at as int] == elements[at as int]@);
        end += 1;
    }
    proof {
        assert(views[at as int] == elements[at as int]@);
        if end < elements.len() {
            assert(views[end as int] == elements[end as int]@);
        }
    }
    end
}

/// The value of the first attribute of `element` with the name `name`.
pub fn find_attribute(element: &SvgElement, name: &str) -> (value: Option<String>)
    ensures
        match value {
            Some(text) => attribute_from(element@.attributes, name@, 0) == Some(text@),
            None => attribute_from(element@.attributes, name@, 0) is None,
        },
{
    let ghost attributes = element@.attributes;
    let wanted = name.to_owned();
    let mut at: usize = 0;
    while at < element.attributes.len()
        invariant
            at <= element.attributes.len(),
            attributes == element@.attributes,
            wanted@ == name@,
            attribute_from(attributes, name@, at as int) == attribute_from(attributes, name@, 0),
        decreases element.attributes.len() - at,
    {
        assert(attributes[at as int] == (
            element.attributes@[at as int].0@,
            element.attributes@[at as int].1@,
        ));
        if element.attributes[at].0 == wanted {
            return Some(element.attributes[at].1.clone());
        }
        at += 1;
    }
    None
}

/// The shape that the elements of an image give: box string and path data.
pub fn find_shape(elements: &Vec<SvgElement>) -> (shape: Result<(String, String), SvgError>)
    ensures
        match shape {
            Ok((view_box, path_data)) => shape_in(elements_of(elements@)) == Ok::<
                (Seq<char>, Seq<char>),
                SvgError,
            >((view_box@, path_data@)),
            Err(error) => shape_in(elements_of(elements@)) == Err::<
                (Seq<char>, Seq<char>),
                SvgError,
            >(error),
        },
{
    let ghost views = elements_of(elements@);
    let svg = match find_element(elements, SVG_TAG, 0, elements.len()) {
        Some(svg) => svg,
        None => {
            return Err(SvgError::NoSvgElement);
        },
    };
    assert(views[svg as int] == elements[svg as int]@);
    let view_box = match find_attribute(&elements[svg], VIEW_BOX_ATTRIBUTE) {
        Some(view_box) => view_box,
        None => {
            return Err(SvgError::NoViewBox);
        },
    };
    let end = find_subtree_end(elements, svg);
    let path = match find_element(elements, PATH_TAG, svg, end) {
        Some(path) => path,
        None => {
            return Err(SvgError::NoPathElement);
        },
    };
    assert(views[path as int] == elements[path as int]@);
    match find_attribute(&elements[path], PATH_ATTRIBUTE) {
        Some(path_data) => Ok((view_box, path_data)),
        None => Err(SvgError::NoPathData),
    }
}

/// The data of the icon that an image gives: the identifier from the name of
/// the file, the shape from the elements, the comment from the text.
pub open spec fn icon_data_in(
    content: Seq<char>,
    elements: Seq<SvgElementView>,
    file_name: Seq<char>,
    category: Seq<char>,
    file_path: Seq<char>,
) -> Result<IconDataView, SvgError> {
    match comment_in(content) {
        Err(error) => Err(error),
        Ok(comment) => match shape_in(elements) {
            Err(error) => Err(error),
            Ok((view_box, path_data)) => Ok(
                IconDataView {
                    name: identifier_of(file_name),
                    category,
                    view_box,
                    path_data,
                    comment,
                    file_path,
                },
            ),
        },
    }
}

/// The data of the icon that the image with the text `content` and the
/// elements `elements` gives, read from the file `file_path` with the name
/// `file_name` in the directory of the category `category`.
pub fn read_icon(
    content: &str,
    elements: &Vec<SvgElement>,
    file_name: &str,
    category: &str,
    file_path: &str,
) -> (icon: Result<IconData, SvgError>)
    ensures
        match icon {
            Ok(data) => icon_data_in(
                content@,
                elements_of(elements@),
                file_name@,
                category@,
                file_path@,
            ) == Ok::<IconDataView, SvgError>(data@),
            Err(error) => icon_data_in(
                content@,
                elements_of(elements@),
                file_name@,
                category@,
                file_path@,
            ) == Err::<IconDataView, SvgError>(error),
        },
{
    let comment = match comment_of(content) {
        Ok(comment) => comment,
        Err(error) => {
            return Err(error);
        },
    };
    let (view_box, path_data) = match find_shape(elements) {
        Ok(shape) => shape,
        Err(error) => {
            return Err(error);
        },
    };
    Ok(
        IconData {
            name: snake_case_to_upper(file_name),
            category: category.to_owned(),
            view_box,
            path_data,
            comment,
            file_path: file_path.to_owned(),
        },
    )
}

/// The license comment of a set of icons: the comment of the first icon;
/// empty where there is no icon.
pub open spec fn license_in(icons: Seq<IconDataView>) -> Seq<char> {
    if icons.len() > 0 {
        icons[0].comment
    } else {
        Seq::empty()
    }
}

/// The positions, among the first `n` icons, of the icons whose comment is
/// not the license comment.
pub open spec fn odd_comments_in(icons: Seq<IconDataView>, n: int) -> Seq<int>
    decreases n,
{
    if 0 < n <= icons.len() {
        let before = odd_comments_in(icons, n - 1);
        if icons[n - 1].comment != license_in(icons) {
            before.push(n - 1)
        } else {
            before
        }
    } else {
        Seq::empty()
    }
}

/// The license comment of `icons`.
pub fn license_of(icons: &[IconData]) -> (license: String)
    ensures
        license@ == license_in(crate::generator::data_of(icons@)),
{
    if icons.len() > 0 {
        icons[0].comment.clone()
    } else {
        String::new()
    }
}

/// The positions of the icons whose comment is not the license comment.
pub fn odd_comments(icons: &[IconData]) -> (odd: Vec<usize>)
    ensures
        crate::generator::positions_of(odd@) == odd_comments_in(
            crate::generator::data_of(icons@),
            icons@.len() as int,
        ),
        forall|i: int| 0 <= i < odd.len() ==> (#[trigger] odd[i]) < icons.len(),
{
    let ghost data = crate::generator::data_of(icons@);
    let mut odd: Vec<usize> = Vec::new();
    let mut n: usize = 0;
    assert(crate::generator::positions_of(odd@) =~= odd_comments_in(data, 0));
    while n < icons.len()
        invariant
            n <= icons.len(),
            data == crate::generator::data_of(icons@),
            crate::generator::positions_of(odd@) == odd_comments_in(data, n as int),
            forall|i: int| 0 <= i < odd.len() ==> (#[trigger] odd[i]) < n,
        decreases icons.len() - n,
    {
        assert(data[n as int] == icons[n as int]@);
        assert(data[0] == icons[0]@);
        if icons[n].comment != icons[0].comment {
            let ghost before = crate::generator::positions_of(odd@);
            odd.push(n);
            assert(crate::generator::positions_of(odd@) =~= before.push(n as int));
        }
        n += 1;
    }
    odd
}

} // verus!
