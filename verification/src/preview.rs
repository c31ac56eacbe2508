//! The preview pane: the lines around a match, read from its file.

use vstd::prelude::*;

use crate::search::{SearchMatch, SearchMatchView};
use crate::text::{push_str, string_from, string_views};

verus! {

/// How many lines around the focused line a preview shows on each side.
pub const PREVIEW_CONTEXT: u64 = 12;

/// What the preview pane shows.
pub struct Preview {
    pub path: String,
    pub first_line: u64,
    pub focused_line: u64,
    pub lines: Vec<String>,
    pub message: Option<String>,
}

pub ghost struct PreviewView {
    pub path: Seq<char>,
    pub first_line: u64,
    pub focused_line: u64,
    pub lines: Seq<Seq<char>>,
    pub message: Option<Seq<char>>,
}

impl View for Preview {
    type V = PreviewView;

    open spec fn view(&self) -> PreviewView {
        PreviewView {
            path: self.path@,
            first_line: self.first_line,
            focused_line: self.focused_line,
            lines: string_views(self.lines@),
            message: match self.message {
                Some(m) => Some(m@),
                None => None,
            },
        }
    }
}

/// The preview shown while no match is selected.
pub open spec fn empty_preview() -> PreviewView {
    PreviewView {
        path: Seq::empty(),
        first_line: 1,
        focused_line: 0,
        lines: Seq::empty(),
        message: Some("Select a match to preview its file"@),
    }
}

impl Default for Preview {
    fn default() -> (preview: Self)
        ensures
            preview@ == empty_preview(),
    {
        let preview = Preview {
            path: String::new(),
            first_line: 1,
            focused_line: 0,
            lines: Vec::new(),
            message: Some(string_from("Select a match to preview its file")),
        };
        assert(preview@.lines =~= Seq::<Seq<char>>::empty());
        preview
    }
}

/// The first line a preview of `line` shows.
pub open spec fn preview_first_line(line: u64) -> u64 {
    if line <= PREVIEW_CONTEXT + 1 {
        1
    } else {
        (line - PREVIEW_CONTEXT) as u64
    }
}

/// The last line a preview of `line` shows.
pub open spec fn preview_last_line(line: u64) -> u64 {
    if line > u64::MAX - PREVIEW_CONTEXT {
        u64::MAX
    } else {
        (line + PREVIEW_CONTEXT) as u64
    }
}

/// What a line of the file shows as: its text, or a marker where it could
/// not be read.
pub open spec fn shown_line(line: Option<String>) -> Seq<char> {
    match line {
        Some(l) => l@,
        None => "<unreadable line>"@,
    }
}

/// The lines numbered `first..=last` (counting from 1) of `file`.
pub open spec fn window(file: Seq<Option<String>>, first: u64, last: u64) -> Seq<Seq<char>> {
    let start = if first - 1 < file.len() {
        first - 1
    } else {
        file.len() as int
    };
    let end = if last < file.len() {
        last as int
    } else {
        file.len() as int
    };
    file.subrange(start, end).map_values(|l: Option<String>| shown_line(l))
}

/// The preview of the file of `m`, given its lines, or the reason it could
/// not be opened.
pub open spec fn preview_of(m: SearchMatchView, file: Result<Vec<Option<String>>, String>) -> PreviewView {
    let first = preview_first_line(m.line);
    let last = preview_last_line(m.line);
    match file {
        Ok(lines) => PreviewView {
            path: m.path,
            first_line: first,
            focused_line: m.line,
            lines: window(lines@, first, last),
            message: None,
        },
        Err(e) => PreviewView {
            path: m.path,
            first_line: first,
            focused_line: m.line,
            lines: Seq::empty(),
            message: Some("Could not read file: "@ + e@),
        },
    }
}

/// The preview of the file of `result`, given the file's lines (each `None`
/// where it could not be read), or the reason the file could not be opened.
/// Lines past those the preview shows may be left out of `file`.
pub fn load_preview(result: &SearchMatch, file: Result<Vec<Option<String>>, String>) -> (preview:
    Preview)
    ensures
        preview@ == preview_of(result@, file),
{
    let first_line = if result.line <= PREVIEW_CONTEXT + 1 {
        1
    } else {
        result.line - PREVIEW_CONTEXT
    };
    let last_line = result.line.saturating_add(PREVIEW_CONTEXT);
    let path = result.path.clone();
    match file {
        Err(e) => {
            let mut message = string_from("Could not read file: ");
            push_str(&mut message, e.as_str());
            let preview = Preview {
                path,
                first_line,
                focused_line: result.line,
                lines: Vec::new(),
                message: Some(message),
            };
            assert(preview@.lines =~= Seq::<Seq<char>>::empty());
            preview
        },
        Ok(file_lines) => {
            let ghost all = file_lines@;
            let mut lines: Vec<String> = Vec::new();
            let ghost start: int = if first_line - 1 < all.len() {
                first_line - 1
            } else {
                all.len() as int
            };
            let ghost end: int = if last_line < all.len() {
                last_line as int
            } else {
                all.len() as int
            };
            let mut k: usize = 0;
            while k < file_lines.len()
                invariant
                    file_lines@ == all,
                    k <= all.len(),
                    start == (if first_line - 1 < all.len() {
                        first_line - 1
                    } else {
                        all.len() as int
                    }),
                    end == (if last_line < all.len() {
                        last_line as int
                    } else {
                        all.len() as int
                    }),
                    1 <= first_line <= last_line,
                    string_views(lines@) == (if k <= start {
                        Seq::empty()
                    } else if k <= end {
                        all.subrange(start, k as int).map_values(
                            |l: Option<String>| shown_line(l),
                        )
                    } else {
                        all.subrange(start, end).map_values(|l: Option<String>| shown_line(l))
                    }),
                decreases all.len() - k,
            {
                let number = k as u64 + 1;
                if first_line <= number && number <= last_line {
                    let shown = match &file_lines[k] {
                        Some(l) => l.clone(),
                        None => string_from("<unreadable line>"),
                    };
                    let ghost before = lines@;
                    assert(shown@ == shown_line(all[k as int]));
                    assert(start == first_line - 1);
                    lines.push(shown);
                    assert(string_views(lines@) =~= string_views(before).push(shown@));
                    assert(k as int == start ==> string_views(before) =~= Seq::<Seq<char>>::empty());
                    assert(all.subrange(start, k + 1) =~= all.subrange(start, k as int).push(
                        all[k as int],
                    ));
                    assert(string_views(lines@) =~= all.subrange(start, k + 1).map_values(
                        |l: Option<String>| shown_line(l),
                    ));
                }
                k += 1;
            }
            let preview = Preview {
                path,
                first_line,
                focused_line: result.line,
                lines,
                message: None,
            };
            assert(preview@.lines =~= window(all, first_line, last_line));
            preview
        },
    }
}

/// A preview starts at line 1 or `PREVIEW_CONTEXT` lines above the focused
/// line, shows at most `2 * PREVIEW_CONTEXT + 1` lines, and shows line
/// `first_line + j` of the file as its `j`-th line.
pub proof fn law_preview_window(m: SearchMatchView, file: Result<Vec<Option<String>>, String>)
    requires
        m.line >= 1,
    ensures
        preview_of(m, file).first_line <= preview_of(m, file).focused_line,
        preview_of(m, file).focused_line <= preview_last_line(m.line),
        preview_of(m, file).lines.len() <= 2 * PREVIEW_CONTEXT + 1,
        m.line > PREVIEW_CONTEXT ==> preview_of(m, file).first_line + PREVIEW_CONTEXT == m.line,
        m.line <= u64::MAX - PREVIEW_CONTEXT ==> preview_last_line(m.line) == m.line
            + PREVIEW_CONTEXT,
        file matches Ok(lines) ==> forall|j: int|
            0 <= j < preview_of(m, file).lines.len() ==> #[trigger] preview_of(m, file).lines[j]
                == shown_line(lines@[preview_of(m, file).first_line - 1 + j]),
{
}

/// A preview of a readable file holds every file line from its first line
/// (`PREVIEW_CONTEXT` above the focused line, or line 1) to `PREVIEW_CONTEXT`
/// below the focused line or the end of the file, whichever comes first: the
/// focused line is among them whenever the file has it.
pub proof fn law_preview_holds_every_line_in_range(
    m: SearchMatchView,
    file: Result<Vec<Option<String>>, String>,
)
    requires
        m.line >= 1,
        file is Ok,
    ensures
        ({
            let lines = file->Ok_0@;
            let p = preview_of(m, file);
            let first: int = if m.line > PREVIEW_CONTEXT {
                m.line - PREVIEW_CONTEXT
            } else {
                1
            };
            let last: int = if m.line > u64::MAX - PREVIEW_CONTEXT {
                u64::MAX as int
            } else {
                m.line + PREVIEW_CONTEXT
            };
            let end: int = if last < lines.len() {
                last
            } else {
                lines.len() as int
            };
            &&& p.first_line == first
            &&& p.focused_line == m.line
            &&& p.message is None
            &&& first <= lines.len() ==> p.lines.len() == end - first + 1
            &&& first > lines.len() ==> p.lines.len() == 0
            &&& forall|j: int|
                0 <= j < p.lines.len() ==> #[trigger] p.lines[j] == shown_line(lines[first - 1 + j])
            &&& m.line <= lines.len() ==> p.lines[m.line - first] == shown_line(
                lines[m.line - 1],
            )
        }),
{
}

} // verus!
