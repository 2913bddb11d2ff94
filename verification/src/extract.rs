//! The record extractor: a single forward scan over the lines of generated
//! source text that yields the icon records declared in it.
//!
//! The scan keeps one piece of state, the category in force. A line that opens
//! a category sets it. A line that declares a record starts a bounded look
//! ahead for the record's box string and path; the record is emitted where
//! both are found and the record's invariant holds, and dropped otherwise.
//!
//! Names, identifiers and box strings are captured by regular expressions.
//! What the expressions capture is settled for all lines before the scan
//! starts, so that each expression is compiled once. The scan itself takes
//! the captures as given: `scan_captured` reads lines and captures and is
//! specified over them alone.

use vstd::prelude::*;
use vstd::string::StringExecFns;
use crate::engines::{capture_each, first_capture};
use crate::text::{
    append_range, contains_text, copy_range, find_text, first_occurrence, from_chars, has_text,
    lines_of, parse_u32, push_char, split_fields, split_lines, texts_of, to_chars, trim, trimmed,
};
use crate::types::{
    kebab_case, kebab_char, reference_path, text_of, view_box_size, IconInfo, IconInfoView,
    REFERENCE_SEPARATOR,
};

verus! {

/// The keyword of a line that opens a category.
pub const CATEGORY_MARK: &'static str = "pub mod";

/// The marker that opens a block.
pub const BLOCK_OPEN: &'static str = "{";

/// The expression whose first group is the name of the category that a line opens.
pub const CATEGORY_PATTERN: &'static str = "pub mod (\\w+)";

/// The keyword of a line that declares a record.
pub const RECORD_MARK: &'static str = "pub const";

/// The type annotation of a line that declares a record.
pub const RECORD_TYPE_MARK: &'static str = ": &Icon";

/// The expression whose first group is the identifier that a line declares.
pub const RECORD_PATTERN: &'static str = "pub const (\\w+):";

/// The attribute that carries the box string.
pub const BOX_MARK: &'static str = "view_box:";

/// The expression whose first group is the box string of a line.
pub const BOX_PATTERN: &'static str = "view_box: \"([^\"]+)\"";

/// The attribute that carries the path.
pub const PATH_MARK: &'static str = "d: r#";

/// What opens the verbatim span of a path.
pub const PATH_OPEN: &'static str = "r#\"";

/// What closes the verbatim span of a path.
pub const PATH_CLOSE: &'static str = "\"#";

/// The number of lines, the declaration included, in which the fields of a
/// record are looked for.
pub const RECORD_WINDOW: usize = 20;

/// The number of lines, the first included, over which a path may run.
pub const PATH_WINDOW: usize = 10;

/// Why a box string gives no width and height.
#[derive(Debug, PartialEq, Eq, Structural, Clone, Copy)]
pub enum ViewBoxError {
    /// The string does not consist of four fields.
    FieldCount,
    /// The third field is no unsigned number.
    Width,
    /// The fourth field is no unsigned number.
    Height,
}

/// What reading a box string gives: width and height, or the first reason
/// that stands against them.
pub open spec fn view_box_outcome(view_box: Seq<char>) -> Result<(u32, u32), ViewBoxError> {
    let fields = crate::text::fields_of(view_box);
    if fields.len() != 4 {
        Err(ViewBoxError::FieldCount)
    } else {
        match crate::text::u32_of_text(fields[2]) {
            None => Err(ViewBoxError::Width),
            Some(width) => match crate::text::u32_of_text(fields[3]) {
                None => Err(ViewBoxError::Height),
                Some(height) => Ok((width, height)),
            },
        }
    }
}

/// Width and height of a box string.
pub fn parse_view_box(view_box: &str) -> (size: Result<(u32, u32), ViewBoxError>)
    ensures
        size == view_box_outcome(view_box@),
        size matches Ok(pair) ==> view_box_size(view_box@) == Some(pair),
        size is Err ==> view_box_size(view_box@) is None,
{
    let chars = to_chars(view_box);
    let fields = split_fields(chars.as_slice());
    assert(texts_of(fields@).len() == fields@.len());
    if fields.len() != 4 {
        return Err(ViewBoxError::FieldCount);
    }
    assert(texts_of(fields@)[2] == fields@[2]@);
    assert(texts_of(fields@)[3] == fields@[3]@);
    let width = match parse_u32(fields[2].as_slice()) {
        Some(width) => width,
        None => {
            return Err(ViewBoxError::Width);
        },
    };
    match parse_u32(fields[3].as_slice()) {
        Some(height) => Ok((width, height)),
        None => Err(ViewBoxError::Height),
    }
}

/// The character that stands in a lookup name for `c` of a declared identifier.
pub fn to_kebab_char(c: char) -> (r: char)
    ensures
        r == kebab_char(c),
{
    let code: u32 = c as u32;
    if c == '_' {
        '-'
    } else if 0x41 <= code && code <= 0x5a {
        ((code + 0x20) as u8) as char
    } else {
        c
    }
}

/// The lookup name of a declared identifier: lower case with hyphens for
/// upper case with underscores.
pub fn rust_name_to_kebab_case(rust_name: &str) -> (name: String)
    ensures
        name@ == kebab_case(rust_name@),
{
    let mut name = String::new();
    for c in it: rust_name.chars()
        invariant
            it.seq() == rust_name@,
            name@.len() == it.index(),
            forall|j: int| 0 <= j < name@.len() ==> name@[j] == kebab_char(rust_name@[j]),
    {
        push_char(&mut name, to_kebab_char(c));
    }
    assert(name@ =~= kebab_case(rust_name@));
    name
}

/// The record that a declaration gives: the four texts found for it must make
/// a record that meets the invariant, else there is none.
pub open spec fn record_of(
    category: Seq<char>,
    identifier: Seq<char>,
    view_box: Seq<char>,
    path_data: Seq<char>,
) -> Option<IconInfoView> {
    if category.len() > 0 && identifier.len() > 0 && path_data.len() > 0 {
        match view_box_size(view_box) {
            Some((width, height)) => if width > 0 && height > 0 {
                Some(
                    IconInfoView {
                        name: kebab_case(identifier),
                        rust_name: identifier,
                        category,
                        width,
                        height,
                        view_box,
                        path_data,
                        import_path: reference_path(category, identifier),
                    },
                )
            } else {
                None
            },
            None => None,
        }
    } else {
        None
    }
}

/// Builds the record of a declaration from the category in force, the
/// declared identifier, the box string and the path. Gives no record where
/// one of them is empty or the box string does not give a positive width and
/// height.
pub fn build_record(category: &str, identifier: String, view_box: String, path_data: String) -> (record:
    Option<IconInfo>)
    ensures
        match record {
            Some(icon) => record_of(category@, identifier@, view_box@, path_data@) == Some(icon@),
            None => record_of(category@, identifier@, view_box@, path_data@) is None,
        },
        record matches Some(icon) ==> icon@.wf() && icon@.derived(),
{
    if category.is_empty() || identifier.as_str().is_empty() || path_data.as_str().is_empty() {
        return None;
    }
    let (width, height) = match parse_view_box(view_box.as_str()) {
        Ok(size) => size,
        Err(_) => {
            return None;
        },
    };
    if width == 0 || height == 0 {
        return None;
    }
    let name = rust_name_to_kebab_case(identifier.as_str());
    let mut import_path = category.to_owned();
    import_path.append(REFERENCE_SEPARATOR);
    import_path.append(identifier.as_str());
    let icon = IconInfo {
        name,
        rust_name: identifier,
        category: category.to_owned(),
        width,
        height,
        view_box,
        path_data,
        import_path,
    };
    Some(icon)
}

/// The name of the category that `line` opens, if it opens one: the line must
/// hold the keyword and the block marker, and the name must be captured.
pub open spec fn category_capture(line: Seq<char>) -> Option<Seq<char>> {
    if contains_text(line, CATEGORY_MARK@) && contains_text(line, BLOCK_OPEN@) {
        first_capture(CATEGORY_PATTERN@, line)
    } else {
        None
    }
}

/// Whether `line` declares a record.
pub open spec fn declares_record(line: Seq<char>) -> bool {
    contains_text(line, RECORD_MARK@) && contains_text(line, RECORD_TYPE_MARK@)
}

/// The identifier that `line` declares, if it declares a record and the
/// identifier is captured.
pub open spec fn identifier_capture(line: Seq<char>) -> Option<Seq<char>> {
    if declares_record(line) {
        first_capture(RECORD_PATTERN@, line)
    } else {
        None
    }
}

/// The box string that `line` carries, if it holds the box attribute and the
/// string is captured.
pub open spec fn box_capture(line: Seq<char>) -> Option<Seq<char>> {
    if contains_text(line, BOX_MARK@) {
        first_capture(BOX_PATTERN@, line)
    } else {
        None
    }
}

/// A source text as the scan reads it: its lines, and for each line what was
/// captured of it as the name of a category, as a declared identifier and as
/// a box string.
pub struct SourceView {
    pub lines: Seq<Seq<char>>,
    pub categories: Seq<Option<Seq<char>>>,
    pub identifiers: Seq<Option<Seq<char>>>,
    pub boxes: Seq<Option<Seq<char>>>,
}

impl SourceView {
    /// There is one capture of each kind for each line.
    pub open spec fn wf(self) -> bool {
        &&& self.categories.len() == self.lines.len()
        &&& self.identifiers.len() == self.lines.len()
        &&& self.boxes.len() == self.lines.len()
    }
}

/// The lines `lines` with what the expressions of the grammar capture of them.
pub open spec fn captured_source(lines: Seq<Seq<char>>) -> SourceView {
    SourceView {
        lines,
        categories: Seq::new(lines.len(), |i: int| category_capture(lines[i])),
        identifiers: Seq::new(lines.len(), |i: int| identifier_capture(lines[i])),
        boxes: Seq::new(lines.len(), |i: int| box_capture(lines[i])),
    }
}

/// The category in force after a line, where `category` was in force before
/// it and `captured` is the name of the category that the line opens, if it
/// opens one.
pub open spec fn category_after(category: Seq<char>, captured: Option<Seq<char>>) -> Seq<char> {
    match captured {
        Some(name) => name,
        None => category,
    }
}

/// The box string held after a line, where `view_box` was held before it and
/// `captured` is the box string that the line carries, if it carries one.
pub open spec fn box_after(view_box: Seq<char>, captured: Option<Seq<char>>) -> Seq<char> {
    match captured {
        Some(found) => found,
        None => view_box,
    }
}

/// The line after the last one of a window of `window` lines that starts at
/// line `start`, cut off at the end of the text.
pub open spec fn window_end(count: int, start: int, window: int) -> int {
    if start + window < count {
        start + window
    } else {
        count
    }
}

/// A path that runs on from an earlier line: `so_far` is what the earlier
/// lines gave. Each line before `end` without the closing marker adds itself,
/// trimmed; the first line with the marker adds what stands before it and
/// ends the path. `None` where no line before `end` holds the marker.
pub open spec fn continued_path(lines: Seq<Seq<char>>, k: int, end: int, so_far: Seq<char>) -> Option<
    Seq<char>,
>
    decreases end - k,
{
    if 0 <= k < end <= lines.len() {
        match first_occurrence(lines[k], PATH_CLOSE@) {
            Some(close) => Some(so_far + lines[k].take(close)),
            None => continued_path(lines, k + 1, end, so_far + trimmed(lines[k])),
        }
    } else {
        None
    }
}

/// The path held after line `j`, where `path` was held before it. A line
/// with the path attribute and the opening marker starts a verbatim span
/// behind the marker. Closed on the same line, the span is the path. Else it
/// runs on over the following lines of its window; a span that is not closed
/// there leaves `path` as it was.
pub open spec fn path_after(path: Seq<char>, lines: Seq<Seq<char>>, j: int) -> Seq<char> {
    let line = lines[j];
    if contains_text(line, PATH_MARK@) {
        match first_occurrence(line, PATH_OPEN@) {
            Some(open) => {
                let rest = line.skip(open + PATH_OPEN@.len());
                match first_occurrence(rest, PATH_CLOSE@) {
                    Some(close) => rest.take(close),
                    None => match continued_path(
                        lines,
                        j + 1,
                        window_end(lines.len() as int, j, PATH_WINDOW as int),
                        rest,
                    ) {
                        Some(whole) => whole,
                        None => path,
                    },
                }
            },
            None => path,
        }
    } else {
        path
    }
}

/// What a look ahead found: the box string, the path, and the number of
/// lines that it read.
pub struct WindowView {
    pub view_box: Seq<char>,
    pub path_data: Seq<char>,
    pub consumed: int,
}

impl WindowView {
    /// Both fields of the record were found.
    pub open spec fn complete(self) -> bool {
        self.view_box.len() > 0 && self.path_data.len() > 0
    }
}

/// The look ahead from line `j` to line `end`, holding `view_box` and `path`
/// from the lines since `start`: it reads line after line and stops behind
/// the first line after which both fields are found.
pub open spec fn window_from(
    source: SourceView,
    start: int,
    j: int,
    end: int,
    view_box: Seq<char>,
    path: Seq<char>,
) -> WindowView
    decreases end - j,
{
    if 0 <= j < end <= source.lines.len() {
        let next_box = box_after(view_box, source.boxes[j]);
        let next_path = path_after(path, source.lines, j);
        if next_box.len() > 0 && next_path.len() > 0 {
            WindowView { view_box: next_box, path_data: next_path, consumed: j + 1 - start }
        } else {
            window_from(source, start, j + 1, end, next_box, next_path)
        }
    } else {
        WindowView { view_box, path_data: path, consumed: j - start }
    }
}

/// The look ahead for the fields of the record that line `start` declares.
pub open spec fn window_at(source: SourceView, start: int) -> WindowView {
    window_from(
        source,
        start,
        start,
        window_end(source.lines.len() as int, start, RECORD_WINDOW as int),
        Seq::empty(),
        Seq::empty(),
    )
}

/// The record that line `i` gives with `category` in force: a category must
/// be in force, an identifier must be captured of the line, and the look
/// ahead must find both fields.
pub open spec fn record_at(source: SourceView, i: int, category: Seq<char>) -> Option<IconInfoView> {
    if category.len() > 0 {
        match source.identifiers[i] {
            Some(identifier) => {
                let window = window_at(source, i);
                if window.complete() {
                    record_of(category, identifier, window.view_box, window.path_data)
                } else {
                    None
                }
            },
            None => None,
        }
    } else {
        None
    }
}

/// The category in force after the first `n` lines. None is in force at the start.
pub open spec fn category_at(source: SourceView, n: int) -> Seq<char>
    decreases n,
{
    if 0 < n <= source.lines.len() {
        category_after(category_at(source, n - 1), source.categories[n - 1])
    } else {
        Seq::empty()
    }
}

/// The records that the first `n` lines give, in the order of their declarations.
pub open spec fn records_through(source: SourceView, n: int) -> Seq<IconInfoView>
    decreases n,
{
    if 0 < n <= source.lines.len() {
        let before = records_through(source, n - 1);
        match record_at(source, n - 1, category_at(source, n)) {
            Some(record) => before.push(record),
            None => before,
        }
    } else {
        Seq::empty()
    }
}

/// The records that a source gives.
pub open spec fn records_of_source(source: SourceView) -> Seq<IconInfoView> {
    records_through(source, source.lines.len() as int)
}

/// The records that a text declares.
pub open spec fn records_in(text: Seq<char>) -> Seq<IconInfoView> {
    records_of_source(captured_source(lines_of(text)))
}

/// Every record among the first `n` lines meets the invariant of records.
pub proof fn lemma_records_through_wf(source: SourceView, n: int)
    ensures
        forall|k: int|
            0 <= k < records_through(source, n).len() ==> (#[trigger] records_through(
                source,
                n,
            )[k]).wf() && records_through(source, n)[k].derived(),
    decreases n,
{
    if 0 < n <= source.lines.len() {
        lemma_records_through_wf(source, n - 1);
        let before = records_through(source, n - 1);
        let all = records_through(source, n);
        assert forall|k: int| 0 <= k < all.len() implies (#[trigger] all[k]).wf()
            && all[k].derived() by {
            if k < before.len() {
                assert(all[k] == before[k]);
            }
        }
    }
}

/// Every record that a text declares meets the invariant of records:
/// name, category and path are not empty, and the box string gives a
/// positive width and height.
pub proof fn lemma_records_in_wf(text: Seq<char>)
    ensures
        forall|k: int|
            0 <= k < records_in(text).len() ==> (#[trigger] records_in(text)[k]).wf()
                && records_in(text)[k].derived(),
{
    let source = captured_source(lines_of(text));
    lemma_records_through_wf(source, source.lines.len() as int);
}

/// The state that the scan carries from line to line.
pub struct ScanState {
    /// The category in force; empty before the first category is opened.
    pub category: String,
}

/// What a look ahead found.
pub struct WindowScan {
    /// The box string and the path, where both were found.
    pub fields: Option<(String, String)>,
    /// The number of lines that the look ahead read.
    pub consumed: usize,
}

/// The line after the last one of a window of `window` lines that starts at
/// line `start`, among `count` lines.
pub fn window_limit(count: usize, start: usize, window: usize) -> (end: usize)
    requires
        start <= count,
    ensures
        end == window_end(count as int, start as int, window as int),
        start <= end <= count,
{
    if count - start > window {
        start + window
    } else {
        count
    }
}

/// The texts of a sequence of optional strings.
pub open spec fn texts_of_each(texts: Seq<Option<String>>) -> Seq<Option<Seq<char>>> {
    Seq::new(texts.len(), |i: int| text_of(texts[i]))
}

/// The lines of a text that are to be searched for a capture, line by line:
/// the lines that hold the markers of a category, of a record and of a box
/// string.
pub struct Candidates {
    pub category_lines: Vec<Option<String>>,
    pub record_lines: Vec<Option<String>>,
    pub box_lines: Vec<Option<String>>,
}

/// The lines that hold the markers of a category, of a record and of a box
/// string: for each line and each kind the line itself where it holds the
/// markers of that kind, else nothing.
pub fn choose_candidates(lines: &Vec<Vec<char>>) -> (chosen: Candidates)
    ensures
        chosen.category_lines.len() == lines.len(),
        chosen.record_lines.len() == lines.len(),
        chosen.box_lines.len() == lines.len(),
        forall|k: int|
            0 <= k < lines.len() ==> text_of(#[trigger] chosen.category_lines[k])
                == if contains_text(lines[k]@, CATEGORY_MARK@) && contains_text(
                lines[k]@,
                BLOCK_OPEN@,
            ) {
                Some(lines[k]@)
            } else {
                None
            },
        forall|k: int|
            0 <= k < lines.len() ==> text_of(#[trigger] chosen.record_lines[k])
                == if declares_record(lines[k]@) {
                Some(lines[k]@)
            } else {
                None
            },
        forall|k: int|
            0 <= k < lines.len() ==> text_of(#[trigger] chosen.box_lines[k]) == if contains_text(
                lines[k]@,
                BOX_MARK@,
            ) {
                Some(lines[k]@)
            } else {
                None
            },
{
    let category_mark = to_chars(CATEGORY_MARK);
    let block_open = to_chars(BLOCK_OPEN);
    let record_mark = to_chars(RECORD_MARK);
    let record_type_mark = to_chars(RECORD_TYPE_MARK);
    let box_mark = to_chars(BOX_MARK);
    let mut category_lines: Vec<Option<String>> = Vec::new();
    let mut record_lines: Vec<Option<String>> = Vec::new();
    let mut box_lines: Vec<Option<String>> = Vec::new();
    let mut i: usize = 0;
    while i < lines.len()
        invariant
            i <= lines.len(),
            category_mark@ == CATEGORY_MARK@,
            block_open@ == BLOCK_OPEN@,
            record_mark@ == RECORD_MARK@,
            record_type_mark@ == RECORD_TYPE_MARK@,
            box_mark@ == BOX_MARK@,
            category_lines.len() == i,
            record_lines.len() == i,
            box_lines.len() == i,
            forall|k: int|
                0 <= k < i ==> text_of(#[trigger] category_lines[k]) == if contains_text(
                    lines[k]@,
                    CATEGORY_MARK@,
                ) && contains_text(lines[k]@, BLOCK_OPEN@) {
                    Some(lines[k]@)
                } else {
                    None
                },
            forall|k: int|
                0 <= k < i ==> text_of(#[trigger] record_lines[k]) == if declares_record(
                    lines[k]@,
                ) {
                    Some(lines[k]@)
                } else {
                    None
                },
            forall|k: int|
                0 <= k < i ==> text_of(#[trigger] box_lines[k]) == if contains_text(
                    lines[k]@,
                    BOX_MARK@,
                ) {
                    Some(lines[k]@)
                } else {
                    None
                },
        decreases lines.len() - i,
    {
        let line = lines[i].as_slice();
        category_lines.push(
            if has_text(line, category_mark.as_slice()) && has_text(line, block_open.as_slice()) {
                Some(from_chars(line))
            } else {
                None
            },
        );
        record_lines.push(
            if has_text(line, record_mark.as_slice()) && has_text(
                line,
                record_type_mark.as_slice(),
            ) {
                Some(from_chars(line))
            } else {
                None
            },
        );
        box_lines.push(
            if has_text(line, box_mark.as_slice()) {
                Some(from_chars(line))
            } else {
                None
            },
        );
        i += 1;
    }
    Candidates { category_lines, record_lines, box_lines }
}

/// What was captured of each line of a text: the name of the category that
/// the line opens, the identifier that it declares and the box string that
/// it carries.
pub struct Captures {
    pub categories: Vec<Option<String>>,
    pub identifiers: Vec<Option<String>>,
    pub boxes: Vec<Option<String>>,
}

/// Captures what the scan needs of each line of `lines`. Each expression is
/// compiled once for all lines.
pub fn capture_lines(lines: &Vec<Vec<char>>) -> (captured: Captures)
    ensures
        captured.categories.len() == lines.len(),
        captured.identifiers.len() == lines.len(),
        captured.boxes.len() == lines.len(),
        texts_of_each(captured.categories@) == captured_source(texts_of(lines@)).categories,
        texts_of_each(captured.identifiers@) == captured_source(texts_of(lines@)).identifiers,
        texts_of_each(captured.boxes@) == captured_source(texts_of(lines@)).boxes,
{
    let chosen = choose_candidates(lines);
    let categories = capture_each(CATEGORY_PATTERN, &chosen.category_lines);
    let identifiers = capture_each(RECORD_PATTERN, &chosen.record_lines);
    let boxes = capture_each(BOX_PATTERN, &chosen.box_lines);
    proof {
        let texts = texts_of(lines@);
        let wanted = captured_source(texts);
        assert(texts_of_each(categories@) =~= wanted.categories) by {
            assert forall|i: int| 0 <= i < lines.len() implies text_of(#[trigger] categories[i])
                == category_capture(texts[i]) by {
                assert(text_of(chosen.category_lines[i]) is Some ==> text_of(
                    chosen.category_lines[i],
                ) == Some(lines[i]@));
            }
        }
        assert(texts_of_each(identifiers@) =~= wanted.identifiers) by {
            assert forall|i: int| 0 <= i < lines.len() implies text_of(
                #[trigger] identifiers[i],
            ) == identifier_capture(texts[i]) by {
                assert(text_of(chosen.record_lines[i]) is Some ==> text_of(
                    chosen.record_lines[i],
                ) == Some(lines[i]@));
            }
        }
        assert(texts_of_each(boxes@) =~= wanted.boxes) by {
            assert forall|i: int| 0 <= i < lines.len() implies text_of(#[trigger] boxes[i])
                == box_capture(texts[i]) by {
                assert(text_of(chosen.box_lines[i]) is Some ==> text_of(chosen.box_lines[i])
                    == Some(lines[i]@));
            }
        }
    }
    Captures { categories, identifiers, boxes }
}

/// A source text made ready for the scan: its lines, and for each line what
/// was captured of it as the name of a category, as a declared identifier and
/// as a box string.
pub struct Source {
    lines: Vec<Vec<char>>,
    categories: Vec<Option<String>>,
    identifiers: Vec<Option<String>>,
    boxes: Vec<Option<String>>,
    path_mark: Vec<char>,
    path_open: Vec<char>,
    path_close: Vec<char>,
}

impl View for Source {
    type V = SourceView;

    /// The lines and what was captured of them.
    closed spec fn view(&self) -> SourceView {
        SourceView {
            lines: texts_of(self.lines@),
            categories: texts_of_each(self.categories@),
            identifiers: texts_of_each(self.identifiers@),
            boxes: texts_of_each(self.boxes@),
        }
    }
}

impl Source {
    #[verifier::type_invariant]
    spec fn inv(&self) -> bool {
        &&& self.categories.len() == self.lines.len()
        &&& self.identifiers.len() == self.lines.len()
        &&& self.boxes.len() == self.lines.len()
        &&& self.path_mark@ == PATH_MARK@
        &&& self.path_open@ == PATH_OPEN@
        &&& self.path_close@ == PATH_CLOSE@
    }

    /// The source of the lines `lines` with the captures given line by line.
    pub fn from_captures(
        lines: Vec<Vec<char>>,
        categories: Vec<Option<String>>,
        identifiers: Vec<Option<String>>,
        boxes: Vec<Option<String>>,
    ) -> (source: Source)
        requires
            categories.len() == lines.len(),
            identifiers.len() == lines.len(),
            boxes.len() == lines.len(),
        ensures
            source@ == (SourceView {
                lines: texts_of(lines@),
                categories: texts_of_each(categories@),
                identifiers: texts_of_each(identifiers@),
                boxes: texts_of_each(boxes@),
            }),
            source@.wf(),
    {
        Source {
            lines,
            categories,
            identifiers,
            boxes,
            path_mark: to_chars(PATH_MARK),
            path_open: to_chars(PATH_OPEN),
            path_close: to_chars(PATH_CLOSE),
        }
    }

    /// Splits `blob` into lines and captures what the scan needs of each.
    pub fn new(blob: &str) -> (source: Source)
        ensures
            source@ == captured_source(lines_of(blob@)),
            source@.wf(),
    {
        let chars = to_chars(blob);
        let lines = split_lines(chars.as_slice());
        let captured = capture_lines(&lines);
        Source::from_captures(lines, captured.categories, captured.identifiers, captured.boxes)
    }

    /// The number of lines.
    pub fn len(&self) -> (count: usize)
        ensures
            count == self@.lines.len(),
            self@.wf(),
    {
        proof {
            use_type_invariant(self);
        }
        self.lines.len()
    }

    /// The category in force after line `i`, where `category` was in force
    /// before it.
    pub fn next_category(&self, category: String, i: usize) -> (next: String)
        requires
            i < self@.lines.len(),
        ensures
            next@ == category_after(category@, self@.categories[i as int]),
    {
        proof {
            use_type_invariant(self);
        }
        match &self.categories[i] {
            Some(name) => name.clone(),
            None => category,
        }
    }

    /// The box string held after line `j`, where `view_box` was held before it.
    pub fn next_box(&self, view_box: String, j: usize) -> (next: String)
        requires
            j < self@.lines.len(),
        ensures
            next@ == box_after(view_box@, self@.boxes[j as int]),
    {
        proof {
            use_type_invariant(self);
        }
        match &self.boxes[j] {
            Some(found) => found.clone(),
            None => view_box,
        }
    }

    /// The path that runs on from line `j`, whose verbatim span opened with `rest`.
    pub fn continue_path(&self, j: usize, rest: Vec<char>) -> (whole: Option<Vec<char>>)
        requires
            j < self@.lines.len(),
        ensures
            match whole {
                Some(path) => continued_path(
                    self@.lines,
                    j + 1,
                    window_end(self@.lines.len() as int, j as int, PATH_WINDOW as int),
                    rest@,
                ) == Some(path@),
                None => continued_path(
                    self@.lines,
                    j + 1,
                    window_end(self@.lines.len() as int, j as int, PATH_WINDOW as int),
                    rest@,
                ) is None,
            },
    {
        proof {
            use_type_invariant(self);
        }
        let end = window_limit(self.lines.len(), j, PATH_WINDOW);
        let ghost texts = texts_of(self.lines@);
        let ghost opening = rest@;
        let mut so_far = rest;
        let mut k: usize = j + 1;
        while k < end
            invariant
                self.path_close@ == PATH_CLOSE@,
                j < k,
                end <= self.lines.len(),
                end == window_end(self.lines.len() as int, j as int, PATH_WINDOW as int),
                texts == texts_of(self.lines@),
                opening == rest@,
                continued_path(texts, k as int, end as int, so_far@) == continued_path(
                    texts,
                    j + 1,
                    end as int,
                    opening,
                ),
            decreases end - k,
        {
            let line = self.lines[k].as_slice();
            assert(texts[k as int] == line@);
            match find_text(line, self.path_close.as_slice()) {
                Some(close) => {
                    append_range(&mut so_far, line, 0, close);
                    assert(line@.subrange(0, close as int) =~= line@.take(close as int));
                    return Some(so_far);
                },
                None => {
                    let middle = trim(line);
                    append_range(&mut so_far, middle.as_slice(), 0, middle.len());
                    assert(middle@.subrange(0, middle@.len() as int) =~= middle@);
                },
            }
            k += 1;
        }
        None
    }

    /// The path held after line `j`, where `path` was held before it.
    pub fn next_path(&self, path: Vec<char>, j: usize) -> (next: Vec<char>)
        requires
            j < self@.lines.len(),
        ensures
            next@ == path_after(path@, self@.lines, j as int),
    {
        proof {
            use_type_invariant(self);
        }
        let line = self.lines[j].as_slice();
        assert(texts_of(self.lines@)[j as int] == line@);
        if !has_text(line, self.path_mark.as_slice()) {
            return path;
        }
        match find_text(line, self.path_open.as_slice()) {
            None => path,
            Some(open) => {
                let length: usize = line.len();
                assert(crate::text::occurs_at(line@, PATH_OPEN@, open as int));
                let from: usize = open + self.path_open.len();
                let rest = copy_range(line, from, length);
                assert(rest@ =~= line@.skip(open + PATH_OPEN@.len()));
                match find_text(rest.as_slice(), self.path_close.as_slice()) {
                    Some(close) => {
                        let span = copy_range(rest.as_slice(), 0, close);
                        assert(span@ =~= rest@.take(close as int));
                        span
                    },
                    None => match self.continue_path(j, rest) {
                        Some(whole) => whole,
                        None => path,
                    },
                }
            },
        }
    }

    /// Looks ahead from line `start` for the box string and the path of the
    /// record declared there.
    pub fn scan_window(&self, start: usize) -> (scan: WindowScan)
        requires
            start < self@.lines.len(),
        ensures
            scan.consumed == window_at(self@, start as int).consumed,
            match scan.fields {
                Some((view_box, path_data)) => {
                    let window = window_at(self@, start as int);
                    window.complete() && view_box@ == window.view_box && path_data@
                        == window.path_data
                },
                None => !window_at(self@, start as int).complete(),
            },
    {
        let end = window_limit(self.lines.len(), start, RECORD_WINDOW);
        let ghost source = self@;
        let mut view_box = String::new();
        let mut path: Vec<char> = Vec::new();
        let mut j: usize = start;
        while j < end
            invariant
                start <= j <= end <= self.lines.len(),
                source == self@,
                source.lines.len() == self.lines.len(),
                !(view_box@.len() > 0 && path@.len() > 0),
                window_from(source, start as int, j as int, end as int, view_box@, path@)
                    == window_at(source, start as int),
            decreases end - j,
        {
            view_box = self.next_box(view_box, j);
            path = self.next_path(path, j);
            j += 1;
            if !view_box.as_str().is_empty() && path.len() > 0 {
                let path_data = from_chars(path.as_slice());
                return WindowScan { fields: Some((view_box, path_data)), consumed: j - start };
            }
        }
        WindowScan { fields: None, consumed: j - start }
    }

    /// One step of the scan: reads line `i` in the state left by the lines
    /// before it, and gives the state after the line and the record that the
    /// line gives, if it gives one.
    pub fn scan_line(&self, state: ScanState, i: usize) -> (step: (ScanState, Option<IconInfo>))
        requires
            i < self@.lines.len(),
        ensures
            step.0.category@ == category_after(state.category@, self@.categories[i as int]),
            match step.1 {
                Some(icon) => record_at(self@, i as int, step.0.category@) == Some(icon@),
                None => record_at(self@, i as int, step.0.category@) is None,
            },
            step.1 matches Some(icon) ==> icon@.wf() && icon@.derived(),
    {
        proof {
            use_type_invariant(self);
        }
        let category = self.next_category(state.category, i);
        if category.as_str().is_empty() {
            return (ScanState { category }, None);
        }
        let identifier = match &self.identifiers[i] {
            Some(identifier) => identifier.clone(),
            None => {
                return (ScanState { category }, None);
            },
        };
        let scan = self.scan_window(i);
        let record = match scan.fields {
            Some((view_box, path_data)) => build_record(
                category.as_str(),
                identifier,
                view_box,
                path_data,
            ),
            None => None,
        };
        (ScanState { category }, record)
    }

    /// The whole scan: the records that the source gives, in the order of
    /// their declarations.
    pub fn scan(&self) -> (icons: Vec<IconInfo>)
        ensures
            crate::types::records_of(icons@) == records_of_source(self@),
            forall|k: int|
                0 <= k < icons.len() ==> (#[trigger] icons[k]@).wf() && icons[k]@.derived(),
    {
        let ghost source = self@;
        let count = self.len();
        let mut icons: Vec<IconInfo> = Vec::new();
        let mut state = ScanState { category: String::new() };
        let mut i: usize = 0;
        while i < count
            invariant
                i <= count,
                count == source.lines.len(),
                source == self@,
                state.category@ == category_at(source, i as int),
                crate::types::records_of(icons@) == records_through(source, i as int),
                forall|k: int|
                    0 <= k < icons.len() ==> (#[trigger] icons[k]@).wf() && icons[k]@.derived(),
            decreases count - i,
        {
            let ghost before = crate::types::records_of(icons@);
            let (next, record) = self.scan_line(state, i);
            state = next;
            match record {
                Some(icon) => {
                    icons.push(icon);
                    assert(crate::types::records_of(icons@) =~= before.push(icon@));
                },
                None => {},
            }
            i += 1;
        }
        icons
    }
}

/// Extracts the records of the lines `lines`, given what was captured of each
/// line as the name of a category, as a declared identifier and as a box
/// string. The records come in the order of their declarations; declarations
/// that do not give a whole record are passed over.
pub fn scan_captured(
    lines: Vec<Vec<char>>,
    categories: Vec<Option<String>>,
    identifiers: Vec<Option<String>>,
    boxes: Vec<Option<String>>,
) -> (icons: Vec<IconInfo>)
    requires
        categories.len() == lines.len(),
        identifiers.len() == lines.len(),
        boxes.len() == lines.len(),
    ensures
        crate::types::records_of(icons@) == records_of_source(
            SourceView {
                lines: texts_of(lines@),
                categories: texts_of_each(categories@),
                identifiers: texts_of_each(identifiers@),
                boxes: texts_of_each(boxes@),
            },
        ),
        forall|k: int| 0 <= k < icons.len() ==> (#[trigger] icons[k]@).wf() && icons[k]@.derived(),
{
    Source::from_captures(lines, categories, identifiers, boxes).scan()
}

/// Extracts the records that `blob` declares, in the order of their
/// declarations. Declarations that do not give a whole record are passed over.
pub fn parse_with_state_machine(blob: &str) -> (icons: Vec<IconInfo>)
    ensures
        crate::types::records_of(icons@) == records_in(blob@),
        forall|k: int| 0 <= k < icons.len() ==> (#[trigger] icons[k]@).wf() && icons[k]@.derived(),
{
    let chars = to_chars(blob);
    let lines = split_lines(chars.as_slice());
    let captured = capture_lines(&lines);
    scan_captured(lines, captured.categories, captured.identifiers, captured.boxes)
}

/// Extracts the records that the generated source text `blob` declares.
pub fn parse_fontawesome_file(blob: &str) -> (icons: Vec<IconInfo>)
    ensures
        crate::types::records_of(icons@) == records_in(blob@),
        forall|k: int| 0 <= k < icons.len() ==> (#[trigger] icons[k]@).wf() && icons[k]@.derived(),
{
    parse_with_state_machine(blob)
}

} // verus!
