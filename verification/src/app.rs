//! The finder's state: the query, the matches, the selection, the preview of
//! the selected match's file and the status line, and how each user action
//! and each finished piece of outside work changes them.
//!
//! Work outside the library (running ripgrep, reading a file, writing the
//! clipboard) is asked for by the `Effect` an operation returns; its outcome
//! comes back through one of the `finish_` operations.

use vstd::prelude::*;

use crate::config::SearchOptions;
use crate::keys::{command_of, key_command, Command, KeyInput};
use crate::preview::{
    empty_preview, load_preview, preview_last_line, preview_of, Preview, PreviewView,
    PREVIEW_CONTEXT,
};
use crate::query::{remove_previous_word, without_previous_word};
use crate::search::{
    arguments_of, location_of, match_views, search_arguments, SearchMatch, SearchMatchView,
    MAX_RESULTS,
};
use crate::text::{
    chars_of, decimal, push_decimal, push_str, string_from, string_views, trim, trim_bounds,
    CharClass,
};

verus! {

/// Work outside the library that an operation asks for. Its outcome comes
/// back through the `finish_` operation of the same name.
pub enum Effect {
    /// Nothing more is needed until the next key.
    Idle,
    /// The user asked to leave.
    Quit,
    /// Run ripgrep with these arguments in the workspace root, then call
    /// `finish_search`.
    Search { arguments: Vec<String> },
    /// Read the file at `path` (relative to the workspace root), at least up
    /// to line `last_line`, then call `finish_preview`.
    ReadPreview { path: String, last_line: u64 },
    /// Copy the absolute path of the workspace file `path` to the clipboard,
    /// then call `finish_copy_file`.
    CopyFile { path: String },
    /// Copy `location` to the clipboard, then call `finish_copy_location`.
    CopyLocation { location: String },
}

pub ghost enum EffectView {
    Idle,
    Quit,
    Search { arguments: Seq<Seq<char>> },
    ReadPreview { path: Seq<char>, last_line: u64 },
    CopyFile { path: Seq<char> },
    CopyLocation { location: Seq<char> },
}

impl View for Effect {
    type V = EffectView;

    open spec fn view(&self) -> EffectView {
        match self {
            Effect::Idle => EffectView::Idle,
            Effect::Quit => EffectView::Quit,
            Effect::Search { arguments } => EffectView::Search {
                arguments: string_views(arguments@),
            },
            Effect::ReadPreview { path, last_line } => EffectView::ReadPreview {
                path: path@,
                last_line: *last_line,
            },
            Effect::CopyFile { path } => EffectView::CopyFile { path: path@ },
            Effect::CopyLocation { location } => EffectView::CopyLocation { location: location@ },
        }
    }
}

/// The finder's state.
pub struct App {
    pub search_options: SearchOptions,
    pub query: String,
    pub matches: Vec<SearchMatch>,
    pub selected: Option<usize>,
    pub preview: Preview,
    pub status: String,
}

pub ghost struct AppView {
    pub globs: Seq<Seq<char>>,
    pub query: Seq<char>,
    pub matches: Seq<SearchMatchView>,
    pub selected: Option<usize>,
    pub preview: PreviewView,
    pub status: Seq<char>,
}

impl View for App {
    type V = AppView;

    open spec fn view(&self) -> AppView {
        AppView {
            globs: self.search_options@,
            query: self.query@,
            matches: match_views(self.matches@),
            selected: self.selected,
            preview: self.preview@,
            status: self.status@,
        }
    }
}

/// The selected match, if the selection points at one.
pub open spec fn selected_match_of(a: AppView) -> Option<SearchMatchView> {
    match a.selected {
        Some(i) => if i < a.matches.len() {
            Some(a.matches[i as int])
        } else {
            None
        },
        None => None,
    }
}

/// The selection holds an index of a match, and holds one whenever there are
/// matches.
pub open spec fn selection_valid(a: AppView) -> bool {
    match a.selected {
        Some(i) => i < a.matches.len(),
        None => a.matches.len() == 0,
    }
}

/// Brings the preview in line with the selection: with no match selected the
/// preview is the empty one; otherwise the selected match's file is read.
pub open spec fn update_preview_step(a: AppView) -> (AppView, EffectView) {
    match selected_match_of(a) {
        Some(m) => (a, EffectView::ReadPreview { path: m.path, last_line: preview_last_line(m.line) }),
        None => (AppView { preview: empty_preview(), ..a }, EffectView::Idle),
    }
}

/// The status line for `count` matches of `query`.
pub open spec fn results_status(query: Seq<char>, count: nat) -> Seq<char> {
    if trim(query).len() == 0 {
        "Type to search"@
    } else if count == MAX_RESULTS {
        "First "@ + decimal(MAX_RESULTS as nat) + " results shown"@
    } else {
        decimal(count) + " result(s)"@
    }
}

/// Shows `matches`: the selection stays where it was if that is still a
/// match, moves to the first match otherwise, and is cleared when there are
/// none.
pub open spec fn set_matches_step(a: AppView, matches: Seq<SearchMatchView>) -> (AppView, EffectView) {
    let selected = match a.selected {
        Some(i) => if i < matches.len() {
            Some(i)
        } else if matches.len() > 0 {
            Some(0usize)
        } else {
            None
        },
        None => if matches.len() > 0 {
            Some(0usize)
        } else {
            None
        },
    };
    let (b, effect) = update_preview_step(AppView { matches, selected, ..a });
    (AppView { status: results_status(a.query, matches.len()), ..b }, effect)
}

/// Searches again for the query: a blank query shows no matches without a
/// search.
pub open spec fn refresh_step(a: AppView) -> (AppView, EffectView) {
    if trim(a.query).len() == 0 {
        set_matches_step(a, Seq::empty())
    } else {
        (a, EffectView::Search { arguments: arguments_of(a.globs, a.query) })
    }
}

/// Takes in what a search gave: its matches, or why it failed.
pub open spec fn finish_search_step(a: AppView, outcome: Result<Vec<SearchMatch>, String>) -> (
    AppView,
    EffectView,
) {
    match outcome {
        Ok(matches) => set_matches_step(a, match_views(matches@)),
        Err(e) => {
            let (b, effect) = update_preview_step(
                AppView { matches: Seq::empty(), selected: None, ..a },
            );
            (AppView { status: "Search failed: "@ + e@, ..b }, effect)
        },
    }
}

pub open spec fn select_previous_step(a: AppView) -> (AppView, EffectView) {
    match a.selected {
        Some(i) => update_preview_step(
            AppView {
                selected: Some(
                    if i == 0 {
                        0usize
                    } else {
                        (i - 1) as usize
                    },
                ),
                ..a
            },
        ),
        None => (a, EffectView::Idle),
    }
}

pub open spec fn select_next_step(a: AppView) -> (AppView, EffectView) {
    match a.selected {
        Some(i) => if a.matches.len() == 0 {
            (a, EffectView::Idle)
        } else {
            let last = (a.matches.len() - 1) as usize;
            let next = if i == usize::MAX {
                usize::MAX
            } else {
                (i + 1) as usize
            };
            update_preview_step(
                AppView {
                    selected: Some(
                        if next < last {
                            next
                        } else {
                            last
                        },
                    ),
                    ..a
                },
            )
        },
        None => (a, EffectView::Idle),
    }
}

pub open spec fn finish_preview_step(a: AppView, file: Result<Vec<Option<String>>, String>) -> AppView {
    match selected_match_of(a) {
        Some(m) => AppView { preview: preview_of(m, file), ..a },
        None => a,
    }
}

pub open spec fn copy_file_step(a: AppView) -> EffectView {
    match selected_match_of(a) {
        Some(m) => EffectView::CopyFile { path: m.path },
        None => EffectView::Idle,
    }
}

pub open spec fn copy_location_step(a: AppView) -> EffectView {
    match selected_match_of(a) {
        Some(m) => EffectView::CopyLocation { location: location_of(m) },
        None => EffectView::Idle,
    }
}

pub open spec fn copy_status(done: Seq<char>, outcome: Result<(), String>) -> Seq<char> {
    match outcome {
        Ok(()) => done,
        Err(e) => "Clipboard unavailable: "@ + e@,
    }
}

impl App {
    /// A finder with an empty query, searching with `search_options`.
    pub fn new(search_options: SearchOptions) -> (app: Self)
        ensures
            app@ == (AppView {
                globs: search_options@,
                query: Seq::empty(),
                matches: Seq::empty(),
                selected: None,
                preview: empty_preview(),
                status: "Type to search"@,
            }),
    {
        let app = App {
            search_options,
            query: String::new(),
            matches: Vec::new(),
            selected: None,
            preview: Preview::default(),
            status: string_from("Type to search"),
        };
        assert(app@.matches =~= Seq::<SearchMatchView>::empty());
        app
    }

    /// The selected match, if the selection points at one.
    pub fn selected_match(&self) -> (m: Option<&SearchMatch>)
        ensures
            match m {
                Some(r) => selected_match_of(self@) == Some(r@),
                None => selected_match_of(self@) is None,
            },
    {
        match self.selected {
            Some(index) => if index < self.matches.len() {
                Some(&self.matches[index])
            } else {
                None
            },
            None => None,
        }
    }

    /// Brings the preview in line with the selection.
    pub fn update_preview(&mut self) -> (effect: Effect)
        ensures
            (final(self)@, effect@) == update_preview_step(old(self)@),
    {
        match self.selected_match() {
            Some(result) => {
                let path = result.path.clone();
                let last_line = result.line.saturating_add(PREVIEW_CONTEXT);
                Effect::ReadPreview { path, last_line }
            },
            None => {
                self.preview = Preview::default();
                Effect::Idle
            },
        }
    }

    /// Takes in the lines of the selected match's file, or why it could not
    /// be opened.
    pub fn finish_preview(&mut self, file: Result<Vec<Option<String>>, String>)
        ensures
            final(self)@ == finish_preview_step(old(self)@, file),
    {
        let preview = match self.selected_match() {
            Some(result) => Some(load_preview(result, file)),
            None => None,
        };
        if let Some(p) = preview {
            self.preview = p;
        }
    }

    /// Shows `matches` in place of the current ones.
    pub fn set_matches(&mut self, matches: Vec<SearchMatch>) -> (effect: Effect)
        ensures
            (final(self)@, effect@) == set_matches_step(old(self)@, match_views(matches@)),
    {
        let count = matches.len();
        self.selected = match self.selected {
            Some(index) => if index < count {
                Some(index)
            } else if count > 0 {
                Some(0)
            } else {
                None
            },
            None => if count > 0 {
                Some(0)
            } else {
                None
            },
        };
        self.matches = matches;
        let effect = self.update_preview();
        self.status = results_status_text(&self.query, count);
        effect
    }

    /// Searches again for the query.
    pub fn refresh(&mut self) -> (effect: Effect)
        ensures
            (final(self)@, effect@) == refresh_step(old(self)@),
    {
        match search_arguments(&self.search_options, self.query.as_str()) {
            Some(arguments) => Effect::Search { arguments },
            None => {
                let empty: Vec<SearchMatch> = Vec::new();
                assert(match_views(empty@) =~= Seq::<SearchMatchView>::empty());
                self.set_matches(empty)
            },
        }
    }

    /// Takes in the matches of the search that `refresh` asked for, or why it
    /// failed.
    pub fn finish_search(&mut self, outcome: Result<Vec<SearchMatch>, String>) -> (effect: Effect)
        ensures
            (final(self)@, effect@) == finish_search_step(old(self)@, outcome),
    {
        match outcome {
            Ok(matches) => {
                return self.set_matches(matches);
            },
            Err(error) => {
                self.matches = Vec::new();
                self.selected = None;
                assert(self@.matches =~= Seq::<SearchMatchView>::empty());
                let effect = self.update_preview();
                let mut status = string_from("Search failed: ");
                push_str(&mut status, error.as_str());
                self.status = status;
                effect
            },
        }
    }

    /// Types `character` at the end of the query and searches again.
    pub fn append_query(&mut self, character: char) -> (effect: Effect)
        ensures
            (final(self)@, effect@) == refresh_step(
                AppView { query: old(self)@.query.push(character), ..old(self)@ },
            ),
    {
        self.query.push(character);
        self.refresh()
    }

    /// Deletes the last character of the query and searches again.
    pub fn delete_last_character(&mut self) -> (effect: Effect)
        ensures
            (final(self)@, effect@) == refresh_step(
                AppView {
                    query: if old(self)@.query.len() == 0 {
                        old(self)@.query
                    } else {
                        old(self)@.query.drop_last()
                    },
                    ..old(self)@
                },
            ),
    {
        self.query.pop();
        self.refresh()
    }

    /// Deletes the last word of the query and searches again.
    pub fn delete_previous_word(&mut self) -> (effect: Effect)
        ensures
            (final(self)@, effect@) == refresh_step(
                AppView { query: without_previous_word(old(self)@.query), ..old(self)@ },
            ),
    {
        remove_previous_word(&mut self.query);
        self.refresh()
    }

    /// Moves the selection one match up, staying on the first.
    pub fn select_previous(&mut self) -> (effect: Effect)
        ensures
            (final(self)@, effect@) == select_previous_step(old(self)@),
    {
        match self.selected {
            Some(index) => {
                self.selected = Some(index.saturating_sub(1));
                self.update_preview()
            },
            None => Effect::Idle,
        }
    }

    /// Moves the selection one match down, staying on the last.
    pub fn select_next(&mut self) -> (effect: Effect)
        ensures
            (final(self)@, effect@) == select_next_step(old(self)@),
    {
        match self.selected {
            Some(index) => {
                if self.matches.len() == 0 {
                    return Effect::Idle;
                }
                let last_index = self.matches.len() - 1;
                let next = index.saturating_add(1);
                self.selected = Some(
                    if next < last_index {
                        next
                    } else {
                        last_index
                    },
                );
                self.update_preview()
            },
            None => Effect::Idle,
        }
    }

    /// Asks to copy the selected match's file path.
    pub fn copy_selected_file(&self) -> (effect: Effect)
        ensures
            effect@ == copy_file_step(self@),
    {
        match self.selected_match() {
            Some(result) => Effect::CopyFile { path: result.path.clone() },
            None => Effect::Idle,
        }
    }

    /// Asks to copy the selected match's `path:line:column`.
    pub fn copy_selected_location(&self) -> (effect: Effect)
        ensures
            effect@ == copy_location_step(self@),
    {
        match self.selected_match() {
            Some(result) => Effect::CopyLocation { location: result.location() },
            None => Effect::Idle,
        }
    }

    /// Reports how copying the file `path` went.
    pub fn finish_copy_file(&mut self, path: &str, outcome: Result<(), String>)
        ensures
            final(self)@ == (AppView {
                status: copy_status("Copied file: "@ + path@, outcome),
                ..old(self)@
            }),
    {
        let mut done = string_from("Copied file: ");
        push_str(&mut done, path);
        self.status = copy_status_text(done, outcome);
    }

    /// Reports how copying `location` went.
    pub fn finish_copy_location(&mut self, location: &str, outcome: Result<(), String>)
        ensures
            final(self)@ == (AppView {
                status: copy_status("Copied "@ + location@, outcome),
                ..old(self)@
            }),
    {
        let mut done = string_from("Copied ");
        push_str(&mut done, location);
        self.status = copy_status_text(done, outcome);
    }
}

fn copy_status_text(done: String, outcome: Result<(), String>) -> (status: String)
    ensures
        status@ == copy_status(done@, outcome),
{
    match outcome {
        Ok(()) => done,
        Err(e) => {
            let mut status = string_from("Clipboard unavailable: ");
            push_str(&mut status, e.as_str());
            status
        },
    }
}

/// The status line for `count` matches of `query`.
pub fn results_status_text(query: &String, count: usize) -> (status: String)
    ensures
        status@ == results_status(query@, count as nat),
{
    let chars = chars_of(query.as_str());
    let (s, e) = trim_bounds(chars.as_slice(), &CharClass::Whitespace);
    if s == e {
        string_from("Type to search")
    } else if count == MAX_RESULTS {
        let mut status = string_from("First ");
        push_decimal(&mut status, MAX_RESULTS as u64);
        push_str(&mut status, " results shown");
        status
    } else {
        let mut status = String::new();
        push_decimal(&mut status, count as u64);
        push_str(&mut status, " result(s)");
        assert(Seq::<char>::empty() + decimal(count as nat) == decimal(count as nat));
        status
    }
}

/// Something that happened to the finder: a key press, or the outcome of
/// outside work that an `Effect` asked for.
pub enum Event {
    Key(KeyInput),
    SearchFinished(Result<Vec<SearchMatch>, String>),
    PreviewRead(Result<Vec<Option<String>>, String>),
    FileCopied { path: String, outcome: Result<(), String> },
    LocationCopied { location: String, outcome: Result<(), String> },
}

/// The query without its last character, if it has one.
pub open spec fn without_last(query: Seq<char>) -> Seq<char> {
    if query.len() == 0 {
        query
    } else {
        query.drop_last()
    }
}

/// What a key press does to the finder.
pub open spec fn key_step(a: AppView, key: KeyInput) -> (AppView, EffectView) {
    match command_of(key) {
        Command::Quit => (a, EffectView::Quit),
        Command::SelectPrevious => select_previous_step(a),
        Command::SelectNext => select_next_step(a),
        Command::CopyFile => (a, copy_file_step(a)),
        Command::CopyLocation => (a, copy_location_step(a)),
        Command::DeleteCharacter => refresh_step(AppView { query: without_last(a.query), ..a }),
        Command::DeletePreviousWord => refresh_step(
            AppView { query: without_previous_word(a.query), ..a },
        ),
        Command::Append(c) => refresh_step(AppView { query: a.query.push(c), ..a }),
        Command::Nothing => (a, EffectView::Idle),
    }
}

/// What an event does to the finder, and what it asks for next.
pub open spec fn step(a: AppView, event: Event) -> (AppView, EffectView) {
    match event {
        Event::Key(key) => key_step(a, key),
        Event::SearchFinished(outcome) => finish_search_step(a, outcome),
        Event::PreviewRead(file) => (finish_preview_step(a, file), EffectView::Idle),
        Event::FileCopied { path, outcome } => (
            AppView { status: copy_status("Copied file: "@ + path@, outcome), ..a },
            EffectView::Idle,
        ),
        Event::LocationCopied { location, outcome } => (
            AppView { status: copy_status("Copied "@ + location@, outcome), ..a },
            EffectView::Idle,
        ),
    }
}

impl App {
    /// Handles the key press `key`.
    pub fn handle_key(&mut self, key: &KeyInput) -> (effect: Effect)
        ensures
            (final(self)@, effect@) == key_step(old(self)@, *key),
    {
        match key_command(key) {
            Command::Quit => Effect::Quit,
            Command::SelectPrevious => self.select_previous(),
            Command::SelectNext => self.select_next(),
            Command::CopyFile => self.copy_selected_file(),
            Command::CopyLocation => self.copy_selected_location(),
            Command::DeleteCharacter => self.delete_last_character(),
            Command::DeletePreviousWord => self.delete_previous_word(),
            Command::Append(c) => self.append_query(c),
            Command::Nothing => Effect::Idle,
        }
    }
}

/// Every event keeps the selection valid: it points at a match, and it is
/// there whenever there are matches.
pub proof fn law_step_keeps_selection_valid(a: AppView, event: Event)
    requires
        selection_valid(a),
    ensures
        selection_valid(step(a, event).0),
{
    match event {
        Event::SearchFinished(Ok(matches)) => {
            law_set_matches_makes_selection_valid(a, match_views(matches@));
        },
        Event::Key(key) => {
            match command_of(key) {
                Command::DeleteCharacter => lemma_refresh_keeps_selection_valid(
                    AppView { query: without_last(a.query), ..a },
                ),
                Command::DeletePreviousWord => lemma_refresh_keeps_selection_valid(
                    AppView { query: without_previous_word(a.query), ..a },
                ),
                Command::Append(c) => lemma_refresh_keeps_selection_valid(
                    AppView { query: a.query.push(c), ..a },
                ),
                _ => {},
            }
        },
        _ => {},
    }
}

proof fn lemma_refresh_keeps_selection_valid(a: AppView)
    requires
        selection_valid(a),
    ensures
        selection_valid(refresh_step(a).0),
{
    law_set_matches_makes_selection_valid(a, Seq::empty());
}

/// Showing new matches makes the selection valid, whatever it was before.
pub proof fn law_set_matches_makes_selection_valid(a: AppView, matches: Seq<SearchMatchView>)
    ensures
        selection_valid(set_matches_step(a, matches).0),
        set_matches_step(a, matches).0.matches == matches,
{
}

/// A request to read a file is always for the file of the match that is then
/// selected, so the preview that comes back belongs to that match.
pub proof fn law_preview_request_is_for_selection(a: AppView, event: Event)
    ensures
        step(a, event).1 matches EffectView::ReadPreview { path, last_line } ==> {
            &&& selected_match_of(step(a, event).0) matches Some(m)
            &&& m.path == path
            &&& last_line == preview_last_line(m.line)
        },
{
}

/// Typing a character and then pressing Backspace gives back the query that
/// was there before.
pub proof fn law_backspace_undoes_typing(a: AppView, key: KeyInput, backspace: KeyInput)
    requires
        command_of(key) is Append,
        command_of(backspace) == Command::DeleteCharacter,
    ensures
        step(step(a, Event::Key(key)).0, Event::Key(backspace)).0.query == a.query,
{
    let c = command_of(key)->Append_0;
    let typed = AppView { query: a.query.push(c), ..a };
    assert(refresh_step(typed).0.query == a.query.push(c));
    let b = step(a, Event::Key(key)).0;
    assert(without_last(b.query) == a.query) by {
        assert(a.query.push(c).drop_last() =~= a.query);
    }
}

/// Up moves the selection one match up (staying on the first match) and asks
/// for the preview of the newly selected match; with nothing selected it does
/// nothing.
pub proof fn law_select_previous_moves_up_one(a: AppView)
    ensures
        a.selected matches Some(i) ==> {
            let (b, effect) = select_previous_step(a);
            let j: int = if i > 0 {
                i - 1
            } else {
                0
            };
            &&& b.selected == Some(j as usize)
            &&& b.matches == a.matches
            &&& b.query == a.query
            &&& j < a.matches.len() ==> effect == EffectView::ReadPreview {
                path: a.matches[j].path,
                last_line: if a.matches[j].line > u64::MAX - PREVIEW_CONTEXT {
                    u64::MAX
                } else {
                    (a.matches[j].line + PREVIEW_CONTEXT) as u64
                },
            }
        },
        a.selected is None ==> select_previous_step(a) == (a, EffectView::Idle),
{
}

/// Down moves the selection one match down, staying on the last match, and
/// asks for the preview of the newly selected match.
pub proof fn law_select_next_moves_down_one(a: AppView)
    ensures
        a.selected matches Some(i) ==> 0 < a.matches.len() <= usize::MAX ==> {
            let (b, effect) = select_next_step(a);
            let j: int = if i + 1 < a.matches.len() {
                i + 1
            } else {
                a.matches.len() - 1
            };
            &&& b.selected == Some(j as usize)
            &&& b.matches == a.matches
            &&& b.query == a.query
            &&& effect == EffectView::ReadPreview {
                path: a.matches[j].path,
                last_line: if a.matches[j].line > u64::MAX - PREVIEW_CONTEXT {
                    u64::MAX
                } else {
                    (a.matches[j].line + PREVIEW_CONTEXT) as u64
                },
            }
        },
        a.selected is None ==> select_next_step(a) == (a, EffectView::Idle),
{
}

/// New matches keep the selection where it was when that is still a match,
/// move it to the first match otherwise, and clear it when there are none;
/// the query stays, and the preview asked for is that of the selected match.
pub proof fn law_set_matches_keeps_the_selection(a: AppView, matches: Seq<SearchMatchView>)
    ensures
        ({
            let (b, effect) = set_matches_step(a, matches);
            &&& b.matches == matches
            &&& b.query == a.query
            &&& (a.selected matches Some(i) && i < matches.len() ==> b.selected == a.selected)
            &&& (!(a.selected matches Some(i) && i < matches.len()) && matches.len() > 0
                ==> b.selected == Some(0usize))
            &&& (matches.len() == 0 ==> b.selected is None && effect == EffectView::Idle
                && b.preview == empty_preview())
            &&& (b.selected matches Some(j) ==> effect == EffectView::ReadPreview {
                path: matches[j as int].path,
                last_line: if matches[j as int].line > u64::MAX - PREVIEW_CONTEXT {
                    u64::MAX
                } else {
                    (matches[j as int].line + PREVIEW_CONTEXT) as u64
                },
            })
        }),
{
}

} // verus!
