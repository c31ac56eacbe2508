//! A finder for searching a workspace with ripgrep: its ignore rules, the
//! ripgrep invocation and output, and the state of its picker.

use vstd::prelude::*;

pub mod app;
pub mod config;
pub mod keys;
pub mod order;
pub mod preview;
pub mod query;
pub mod search;
pub mod text;
pub mod ui;

use crate::app::{step, App, Effect, Event};

verus! {

/// Runs the finder through one event: updates `app` and returns the outside
/// work needed next. A driver feeds it key presses and, for every effect it
/// returns, the outcome of that work, until it returns `Effect::Idle` (wait
/// for the next key) or `Effect::Quit`.
pub fn run(app: &mut App, event: Event) -> (effect: Effect)
    ensures
        (final(app)@, effect@) == step(old(app)@, event),
{
    match event {
        Event::Key(key) => app.handle_key(&key),
        Event::SearchFinished(outcome) => app.finish_search(outcome),
        Event::PreviewRead(file) => {
            app.finish_preview(file);
            Effect::Idle
        },
        Event::FileCopied { path, outcome } => {
            app.finish_copy_file(path.as_str(), outcome);
            Effect::Idle
        },
        Event::LocationCopied { location, outcome } => {
            app.finish_copy_location(location.as_str(), outcome);
            Effect::Idle
        },
    }
}

} // verus!
