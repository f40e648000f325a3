//! A terminal task tracker's core, verified: a tolerant natural-language
//! deadline parser ("tomorrow 3pm", "fri", "in 2 days", "12/25") and a
//! deadline formatter that renders a stored instant back as the shortest
//! unambiguous phrase ("today 3:00pm", "⚠ 2h ago", "wed 2:00pm"). Both are
//! pure
//! functions of an explicit "now" instant, modelled on the proleptic
//! Gregorian calendar. Around them: the task record, the in-memory store,
//! row selection and ordering, and plain-text row rendering.

pub mod cli;
pub mod digits;
pub mod display;
pub mod format;
pub mod instant;
pub mod listing;
pub mod parse;
pub mod store;
pub mod text;
pub mod todo;
