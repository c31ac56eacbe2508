//! What the finder's panes show, as plain values: the rows of the result
//! list, file names, icon colors, the prompt cursor and the preview's labels.

use vstd::prelude::*;

use crate::app::App;
use crate::text::{chars_of, char_code, decimal, push_decimal, push_str, string_from, string_of_range};

verus! {

/// The glyph and the hex color that `kamon` gives a file name.
pub uninterp spec fn kamon_icon_and_color(filename: Seq<char>) -> (Seq<char>, Seq<char>);

/// Calls `kamon::icon_and_color`, which looks the file name up in kamon's
/// icon tables; its glyph and color are named by `kamon_icon_and_color` and
/// nothing more is claimed of them.
#[verifier::external_body]
fn icon_and_color(filename: &str) -> (res: (String, String))
    ensures
        (res.0@, res.1@) == kamon_icon_and_color(filename@),
{
    let (icon, color) = kamon::icon_and_color(filename);
    (icon.to_string(), color.to_string())
}

/// Where the path component that ends at `end` starts.
pub open spec fn component_start(path: Seq<char>, end: int) -> int
    decreases end,
{
    if end <= 0 || end > path.len() {
        0
    } else if path[end - 1] == '/' {
        end
    } else {
        component_start(path, end - 1)
    }
}

proof fn lemma_component_start(path: Seq<char>, end: int)
    requires
        0 <= end <= path.len(),
    ensures
        0 <= component_start(path, end) <= end,
        component_start(path, end) > 0 ==> path[component_start(path, end) - 1] == '/',
        forall|k: int| component_start(path, end) <= k < end ==> path[k] != '/',
    decreases end,
{
    if end > 0 && path[end - 1] != '/' {
        lemma_component_start(path, end - 1);
    }
}

/// The last component of `path[..end]` that names something, skipping empty
/// and `.` components; `None` when there is none or it is `..`.
pub open spec fn file_name_before(path: Seq<char>, end: int) -> Option<Seq<char>>
    decreases end,
{
    if end <= 0 || end > path.len() {
        None
    } else if path[end - 1] == '/' {
        file_name_before(path, end - 1)
    } else {
        let start = component_start(path, end);
        let name = path.subrange(start, end);
        if name == seq!['.'] {
            if 0 <= start < end {
                file_name_before(path, start)
            } else {
                None
            }
        } else if name == seq!['.', '.'] {
            None
        } else {
            Some(name)
        }
    }
}

/// The name a result is listed under: the file name of its path, or the
/// whole path when that has none.
pub open spec fn display_name_of(path: Seq<char>) -> Seq<char> {
    match file_name_before(path, path.len() as int) {
        Some(name) => name,
        None => path,
    }
}

/// The name a result is listed under: the final component of `path` (as
/// `Path::file_name` gives it), or `path` itself when it ends in `..` or has
/// no component.
pub fn display_name(path: &str) -> (name: String)
    ensures
        name@ == display_name_of(path@),
{
    let chars = chars_of(path);
    let mut end = chars.len();
    loop
        invariant
            chars@ == path@,
            end <= chars@.len(),
            file_name_before(chars@, end as int) == file_name_before(chars@, chars@.len() as int),
        decreases end,
    {
        if end == 0 {
            return string_from(path);
        }
        if chars[end - 1] == '/' {
            end -= 1;
        } else {
            let mut start = end;
            proof {
                lemma_component_start(chars@, end as int);
            }
            while start > 0 && chars[start - 1] != '/'
                invariant
                    chars@ == path@,
                    start <= end <= chars@.len(),
                    component_start(chars@, start as int) == component_start(chars@, end as int),
                decreases start,
            {
                start -= 1;
            }
            let length = end - start;
            let ghost name = chars@.subrange(start as int, end as int);
            if length == 1 && chars[start] == '.' {
                assert(name =~= seq!['.']);
                end = start;
            } else if length == 2 && chars[start] == '.' && chars[start + 1] == '.' {
                assert(name =~= seq!['.', '.']);
                return string_from(path);
            } else {
                proof {
                    if name == seq!['.'] {
                        assert(name.len() == 1);
                        assert(name[0] == chars@[start as int]);
                        assert(seq!['.'][0] == '.');
                    }
                    if name == seq!['.', '.'] {
                        assert(name.len() == 2);
                        assert(name[0] == chars@[start as int]);
                        assert(name[1] == chars@[start + 1]);
                        assert(seq!['.', '.'][0] == '.');
                        assert(seq!['.', '.'][1] == '.');
                    }
                }
                return string_of_range(chars.as_slice(), start, end);
            }
        }
    }
}

/// The value of the hexadecimal digit `c`.
pub open spec fn hex_digit(c: char) -> Option<u8> {
    if '0' <= c <= '9' {
        Some((c as int - 48) as u8)
    } else if 'a' <= c <= 'f' {
        Some((c as int - 87) as u8)
    } else if 'A' <= c <= 'F' {
        Some((c as int - 55) as u8)
    } else {
        None
    }
}

/// The byte that two characters give read as a base-16 number, as
/// `u8::from_str_radix` reads it (a leading `+` is allowed).
pub open spec fn hex_byte(a: char, b: char) -> Option<u8> {
    if a == '+' {
        hex_digit(b)
    } else {
        match (hex_digit(a), hex_digit(b)) {
            (Some(x), Some(y)) => Some((16 * x + y) as u8),
            _ => None,
        }
    }
}

/// The color `#rrggbb` (only its first six characters after `#` are read).
pub open spec fn color_of_hex(value: Seq<char>) -> Option<(u8, u8, u8)> {
    if value.len() < 7 || value[0] != '#' {
        None
    } else {
        match (
            hex_byte(value[1], value[2]),
            hex_byte(value[3], value[4]),
            hex_byte(value[5], value[6]),
        ) {
            (Some(r), Some(g), Some(b)) => Some((r, g, b)),
            _ => None,
        }
    }
}

fn hex_digit_value(c: char) -> (res: Option<u8>)
    ensures
        res == hex_digit(c),
{
    let u = char_code(c);
    if 48 <= u && u <= 57 {
        Some((u - 48) as u8)
    } else if 97 <= u && u <= 102 {
        Some((u - 87) as u8)
    } else if 65 <= u && u <= 70 {
        Some((u - 55) as u8)
    } else {
        None
    }
}

fn hex_byte_value(a: char, b: char) -> (res: Option<u8>)
    ensures
        res == hex_byte(a, b),
{
    if a == '+' {
        hex_digit_value(b)
    } else {
        match (hex_digit_value(a), hex_digit_value(b)) {
            (Some(x), Some(y)) => Some(16 * x + y),
            _ => None,
        }
    }
}

/// The RGB color that the hex color `value` (`#rrggbb`) names, if it names
/// one.
pub fn color_from_hex(value: &str) -> (color: Option<(u8, u8, u8)>)
    ensures
        color == color_of_hex(value@),
{
    let v = chars_of(value);
    if v.len() < 7 || v[0] != '#' {
        return None;
    }
    match (hex_byte_value(v[1], v[2]), hex_byte_value(v[3], v[4]), hex_byte_value(v[5], v[6])) {
        (Some(r), Some(g), Some(b)) => Some((r, g, b)),
        _ => None,
    }
}

/// One row of the result list.
pub struct ResultRow {
    /// The selection marker.
    pub marker: String,
    /// The file type icon, followed by a space.
    pub icon: String,
    /// The icon's color, if kamon gives one that reads as `#rrggbb`.
    pub icon_color: Option<(u8, u8, u8)>,
    /// The file name.
    pub name: String,
}

/// The marker in front of the selected result, and in front of the others.
pub open spec fn row_marker(selected: bool) -> Seq<char> {
    if selected {
        "❯ "@
    } else {
        "  "@
    }
}

/// The row that lists match `index` of `app`.
pub fn result_row(app: &App, index: usize) -> (row: ResultRow)
    requires
        index < app.matches@.len(),
    ensures
        row.marker@ == row_marker(app.selected == Some(index)),
        row.icon@ == kamon_icon_and_color(app@.matches[index as int].path).0 + " "@,
        row.icon_color == color_of_hex(kamon_icon_and_color(app@.matches[index as int].path).1),
        row.name@ == display_name_of(app@.matches[index as int].path),
{
    let path = app.matches[index].path.as_str();
    let marker = match app.selected {
        Some(i) => if i == index {
            string_from("❯ ")
        } else {
            string_from("  ")
        },
        None => string_from("  "),
    };
    let (mut icon, color) = icon_and_color(path);
    push_str(&mut icon, " ");
    ResultRow {
        marker,
        icon,
        icon_color: color_from_hex(color.as_str()),
        name: display_name(path),
    }
}

/// Where the prompt's cursor goes: just after the query inside the prompt's
/// border, but not past the prompt's right edge.
pub open spec fn cursor_column_of(area_x: u16, area_right: u16, query_width: nat) -> u16 {
    let width: int = if query_width > u16::MAX {
        u16::MAX as int
    } else {
        query_width as int
    };
    let x = if area_x + 1 + width > u16::MAX {
        u16::MAX as int
    } else {
        area_x + 1 + width
    };
    let limit = if area_right < 2 {
        0
    } else {
        area_right - 2
    };
    (if x < limit {
        x
    } else {
        limit
    }) as u16
}

/// The cursor column for a query of `query` in a prompt spanning the columns
/// from `area_x` to `area_right`.
pub fn cursor_column(area_x: u16, area_right: u16, query: &str) -> (x: u16)
    ensures
        x == cursor_column_of(area_x, area_right, query@.len()),
{
    let count = chars_of(query).len();
    let width: u16 = if count > 65535 {
        65535
    } else {
        count as u16
    };
    let x = area_x.saturating_add(1).saturating_add(width);
    let limit = area_right.saturating_sub(2);
    if x < limit {
        x
    } else {
        limit
    }
}

/// The preview pane's title.
pub open spec fn preview_title_of(path: Seq<char>) -> Seq<char> {
    if path.len() == 0 {
        " preview "@
    } else {
        " preview · "@ + path + " "@
    }
}

/// The preview pane's title for the file `path`.
pub fn preview_title(path: &str) -> (title: String)
    ensures
        title@ == preview_title_of(path@),
{
    if path.is_empty() {
        string_from(" preview ")
    } else {
        let mut title = string_from(" preview · ");
        push_str(&mut title, path);
        push_str(&mut title, " ");
        title
    }
}

/// `n` spaces.
pub open spec fn spaces(n: nat) -> Seq<char> {
    Seq::new(n, |i: int| ' ')
}

/// The label in front of line `number` of the preview: the number right
/// aligned in five columns, then two spaces.
pub open spec fn line_label_of(number: u64) -> Seq<char> {
    let digits = decimal(number as nat);
    let pad: nat = if digits.len() < 5 {
        (5 - digits.len()) as nat
    } else {
        0
    };
    spaces(pad) + digits + "  "@
}

/// The label in front of line `number` of the preview.
pub fn line_label(number: u64) -> (label: String)
    ensures
        label@ == line_label_of(number),
{
    let mut digits = String::new();
    push_decimal(&mut digits, number);
    assert(digits@ == decimal(number as nat));
    let width = chars_of(digits.as_str()).len();
    let mut label = String::new();
    let mut i: usize = width;
    while i < 5
        invariant
            width <= i <= 5 || (width > 5 && i == width),
            width == decimal(number as nat).len(),
            label@ == spaces((i - width) as nat),
        decreases 5 - i,
    {
        label.push(' ');
        assert(spaces((i + 1 - width) as nat) =~= spaces((i - width) as nat).push(' '));
        i += 1;
    }
    assert(label@ =~= spaces(
        if width < 5 {
            (5 - width) as nat
        } else {
            0
        },
    ));
    push_str(&mut label, digits.as_str());
    push_str(&mut label, "  ");
    label
}

/// `source` with every tab replaced by two spaces.
pub open spec fn expand_tabs_of(source: Seq<char>) -> Seq<char>
    decreases source.len(),
{
    if source.len() == 0 {
        Seq::empty()
    } else if source.last() == '\t' {
        expand_tabs_of(source.drop_last()) + seq![' ', ' ']
    } else {
        expand_tabs_of(source.drop_last()).push(source.last())
    }
}

/// A preview line as shown: with every tab replaced by two spaces.
pub fn expand_tabs(source: &str) -> (shown: String)
    ensures
        shown@ == expand_tabs_of(source@),
{
    let chars = chars_of(source);
    let mut shown = String::new();
    let mut i: usize = 0;
    while i < chars.len()
        invariant
            i <= chars.len(),
            shown@ == expand_tabs_of(chars@.take(i as int)),
        decreases chars.len() - i,
    {
        assert(chars@.take(i + 1).drop_last() == chars@.take(i as int));
        if chars[i] == '\t' {
            shown.push(' ');
            shown.push(' ');
        } else {
            shown.push(chars[i]);
        }
        i += 1;
    }
    assert(chars@.take(chars.len() as int) == chars@);
    shown
}

proof fn lemma_file_name_has_no_slash(path: Seq<char>, end: int)
    requires
        0 <= end <= path.len(),
    ensures
        file_name_before(path, end) matches Some(name) ==> name.len() > 0 && !name.contains('/')
            && name != seq!['.'] && name != seq!['.', '.'],
    decreases end,
{
    if end > 0 {
        if path[end - 1] == '/' {
            lemma_file_name_has_no_slash(path, end - 1);
        } else {
            lemma_component_start(path, end);
            let start = component_start(path, end);
            let name = path.subrange(start, end);
            if name == seq!['.'] {
                lemma_file_name_has_no_slash(path, start);
            } else if name != seq!['.', '.'] {
                assert forall|k: int| 0 <= k < name.len() implies name[k] != '/' by {
                    assert(name[k] == path[start + k]);
                }
            }
        }
    }
}

/// A path with no `/` that is neither empty, `.` nor `..` is listed under
/// its own name; any other path is listed under a name without `/` that is
/// neither `.` nor `..`, or under the whole path when it has no file name.
pub proof fn law_display_name_is_a_final_component(path: Seq<char>)
    ensures
        display_name_of(path) == path || (display_name_of(path).len() > 0 && !display_name_of(
            path,
        ).contains('/') && display_name_of(path) != seq!['.'] && display_name_of(path) != seq![
            '.',
            '.',
        ]),
        path.len() > 0 && !path.contains('/') && path != seq!['.'] && path != seq!['.', '.']
            ==> display_name_of(path) == path,
{
    lemma_file_name_has_no_slash(path, path.len() as int);
    if path.len() > 0 && !path.contains('/') && path != seq!['.'] && path != seq!['.', '.'] {
        assert(path[path.len() - 1] != '/') by {
            if path[path.len() - 1] == '/' {
                assert(path.contains('/'));
            }
        }
        lemma_component_start(path, path.len() as int);
        let start = component_start(path, path.len() as int);
        if start > 0 {
            assert(path.contains('/'));
        }
        assert(path.subrange(start, path.len() as int) =~= path);
    }
}

} // verus!
