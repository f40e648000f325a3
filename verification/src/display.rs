//! Rendering task rows as plain fixed-width text. Color is an escape-code
//! dressing applied by the caller around these cells; it never changes what
//! the cells say.

use vstd::prelude::*;

use vstd::string::StringExecFns;

use crate::cli::join_spaces;
use crate::digits::{dec_str, push_dec};
use crate::format::{spec_format_completed, spec_format_deadline};
use crate::instant::Instant;
use crate::todo::{spec_priority_display, Todo};

verus! {

pub struct DisplayConfig {
    pub use_color: bool,
}

impl DisplayConfig {
    /// Decide whether to color output: an explicit choice wins, otherwise
    /// color exactly when standard output is a terminal.
    pub fn new(force_color: Option<bool>, stdout_is_terminal: bool) -> (r: DisplayConfig)
        ensures
            r.use_color == match force_color {
                Some(c) => c,
                None => stdout_is_terminal,
            },
    {
        let use_color = match force_color {
            Some(c) => c,
            None => stdout_is_terminal,
        };
        DisplayConfig { use_color }
    }
}

/// `n` spaces.
pub open spec fn spaces(n: int) -> Seq<char>
    decreases n,
{
    if n <= 0 {
        Seq::empty()
    } else {
        spaces(n - 1) + seq![' ']
    }
}

/// Text padded with trailing spaces to width `w`; longer text is kept whole.
pub open spec fn spec_pad_right(s: Seq<char>, w: int) -> Seq<char> {
    s + spaces(w - s.len())
}

/// Text padded with leading spaces to width `w`; longer text is kept whole.
pub open spec fn spec_pad_left(s: Seq<char>, w: int) -> Seq<char> {
    spaces(w - s.len()) + s
}

/// Text cut to `max` characters, the last one an ellipsis; shorter text is
/// kept whole.
pub open spec fn spec_truncate(s: Seq<char>, max: int) -> Seq<char> {
    if s.len() <= max {
        s
    } else {
        s.take(max - 1) + "…"@
    }
}

fn push_spaces(s: &mut String, n: usize)
    ensures
        final(s)@ == old(s)@ + spaces(n as int),
{
    let mut i: usize = 0;
    assert(s@ =~= old(s)@ + spaces(0));
    while i < n
        invariant
            i <= n,
            s@ == old(s)@ + spaces(i as int),
        decreases n - i,
    {
        proof {
            reveal_strlit(" ");
        }
        s.append(" ");
        assert(s@ =~= old(s)@ + spaces(i + 1));
        i = i + 1;
    }
}

/// Cut `s` to at most `max` characters, ending in an ellipsis when something
/// was cut.
pub fn truncate(s: &str, max_len: usize) -> (r: String)
    requires
        max_len >= 1,
    ensures
        r@ == spec_truncate(s@, max_len as int),
{
    let n = s.unicode_len();
    if n <= max_len {
        String::from_str(s)
    } else {
        let head = s.substring_char(0, max_len - 1);
        let mut r = head.to_owned();
        r.append("…");
        proof {
            assert(head@ =~= s@.take(max_len - 1));
            assert(r@ =~= spec_truncate(s@, max_len as int));
        }
        r
    }
}

/// What the deadline column of a row says: completion age for done tasks,
/// the deadline phrase for open ones, a dash for tasks without a deadline.
pub open spec fn spec_deadline_cell(t: Todo, now: Instant) -> Seq<char> {
    if t.done {
        match t.completed_at {
            Some(c) => spec_format_completed(c, now),
            None => "done"@,
        }
    } else {
        match t.deadline {
            Some(d) => spec_format_deadline(d, now, d.minute_index() < now.minute_index()),
            None => "—"@,
        }
    }
}

/// What the project-and-tags column of a row says.
pub open spec fn spec_metadata_cell(t: Todo) -> Seq<char> {
    let proj = match t.project {
        Some(p) => seq!['@'] + p@,
        None => Seq::<char>::empty(),
    };
    let tags = join_spaces(t.tags@.map_values(|s: String| seq!['+'] + s@));
    if proj.len() == 0 {
        tags
    } else if tags.len() == 0 {
        proj
    } else {
        proj + seq![' '] + tags
    }
}

/// A whole plain row.
pub open spec fn spec_format_todo(t: Todo, now: Instant) -> Seq<char> {
    (if t.done {
        "✓"@
    } else {
        " "@
    }) + " "@ + spec_pad_left(dec_str(t.id as int), 3) + " "@ + spec_priority_display(t.priority)
        + "  "@ + spec_pad_right(spec_truncate(t.text@, 35), 35) + "  "@ + spec_pad_right(
        spec_deadline_cell(t, now),
        18,
    ) + "  "@ + spec_metadata_cell(t)
}

fn deadline_cell(t: &Todo, now: &Instant) -> (r: String)
    requires
        t.wf(),
        now.wf(),
    ensures
        r@ == spec_deadline_cell(*t, *now),
{
    if t.done {
        match &t.completed_at {
            Some(c) => crate::format::format_completed_time(c, now),
            None => String::from_str("done"),
        }
    } else {
        match &t.deadline {
            Some(d) => {
                let overdue = d.minute_index_x() < now.minute_index_x();
                crate::format::format_deadline(d, now, overdue)
            },
            None => String::from_str("—"),
        }
    }
}

fn metadata_cell(t: &Todo) -> (r: String)
    ensures
        r@ == spec_metadata_cell(*t),
{
    let ghost plus_view = |s: String| seq!['+'] + s@;
    let mut tags = String::new();
    let n = t.tags.len();
    let ghost mapped = t.tags@.map_values(plus_view);
    let mut i: usize = 0;
    while i < n
        invariant
            i <= n == t.tags@.len(),
            plus_view == (|s: String| seq!['+'] + s@),
            mapped == t.tags@.map_values(plus_view),
            tags@ == join_spaces(mapped.take(i as int)),
            i > 0 ==> tags@.len() > 0,
        decreases n - i,
    {
        proof {
            assert(mapped[i as int] == seq!['+'] + t.tags@[i as int]@);
            assert(mapped.take(i + 1).drop_last() =~= mapped.take(i as int));
            assert(mapped.take(i + 1).last() == mapped[i as int]);
        }
        if i > 0 {
            proof {
                reveal_strlit(" ");
            }
            tags.append(" ");
        }
        proof {
            reveal_strlit("+");
        }
        tags.append("+");
        tags.append(t.tags[i].as_str());
        assert(tags@ =~= join_spaces(mapped.take(i + 1)));
        i = i + 1;
    }
    assert(mapped.take(n as int) =~= mapped);
    match &t.project {
        Some(p) => {
            let mut proj = String::new();
            proof {
                reveal_strlit("@");
            }
            proj.append("@");
            proj.append(p.as_str());
            assert(proj@ =~= seq!['@'] + p@);
            if tags.as_str().unicode_len() == 0 {
                proj
            } else {
                proof {
                    reveal_strlit(" ");
                }
                proj.append(" ");
                proj.concat(tags.as_str())
            }
        },
        None => tags,
    }
}

/// Text cut to `max` characters with a three-dot tail when something was
/// cut, as the project listing writes it.
pub open spec fn spec_truncate_dots(s: Seq<char>, max: int) -> Seq<char> {
    if s.len() <= max {
        s
    } else {
        s.take(max - 1) + "..."@
    }
}

/// Cut `s` to `max` characters, ending in three dots when something was cut.
pub fn truncate_dots(s: &str, max_len: usize) -> (r: String)
    requires
        max_len >= 1,
    ensures
        r@ == spec_truncate_dots(s@, max_len as int),
{
    let n = s.unicode_len();
    if n <= max_len {
        String::from_str(s)
    } else {
        let head = s.substring_char(0, max_len - 1);
        let mut r = head.to_owned();
        r.append("...");
        proof {
            assert(head@ =~= s@.take(max_len - 1));
            assert(r@ =~= spec_truncate_dots(s@, max_len as int));
        }
        r
    }
}

/// What the tag column of an indented row says.
pub open spec fn spec_tags_cell(t: Todo) -> Seq<char> {
    join_spaces(t.tags@.map_values(|s: String| seq!['+'] + s@))
}

/// An indented row without the completion mark or the project: id over four
/// columns, priority marker, text, deadline phrase, tags.
pub open spec fn spec_indented_row(t: Todo, now: Instant, text: Seq<char>) -> Seq<char> {
    "  "@ + spec_pad_left(dec_str(t.id as int), 4) + " "@ + spec_priority_display(t.priority)
        + "  "@ + spec_pad_right(text, 35) + "  "@ + spec_pad_right(spec_deadline_cell(t, now), 18)
        + "  "@ + spec_tags_cell(t)
}

fn tags_cell(t: &Todo) -> (r: String)
    ensures
        r@ == spec_tags_cell(*t),
{
    let ghost plus_view = |s: String| seq!['+'] + s@;
    let mut tags = String::new();
    let n = t.tags.len();
    let ghost mapped = t.tags@.map_values(plus_view);
    let mut i: usize = 0;
    while i < n
        invariant
            i <= n == t.tags@.len(),
            plus_view == (|s: String| seq!['+'] + s@),
            mapped == t.tags@.map_values(plus_view),
            tags@ == join_spaces(mapped.take(i as int)),
            i > 0 ==> tags@.len() > 0,
        decreases n - i,
    {
        proof {
            assert(mapped[i as int] == seq!['+'] + t.tags@[i as int]@);
            assert(mapped.take(i + 1).drop_last() =~= mapped.take(i as int));
            assert(mapped.take(i + 1).last() == mapped[i as int]);
        }
        if i > 0 {
            proof {
                reveal_strlit(" ");
            }
            tags.append(" ");
        }
        proof {
            reveal_strlit("+");
        }
        tags.append("+");
        tags.append(t.tags[i].as_str());
        assert(tags@ =~= join_spaces(mapped.take(i + 1)));
        i = i + 1;
    }
    assert(mapped.take(n as int) =~= mapped);
    tags
}

#[verifier::rlimit(50)]
fn indented_row(t: &Todo, now: &Instant, text: String) -> (r: String)
    requires
        t.wf(),
        now.wf(),
    ensures
        r@ == spec_indented_row(*t, *now, text@),
{
    let mut s = String::new();
    s.append("  ");
    let id_digits = {
        let mut d = String::new();
        push_dec(&mut d, t.id as u64);
        d
    };
    let id_len = id_digits.as_str().unicode_len();
    if id_len < 4 {
        push_spaces(&mut s, 4 - id_len);
    } else {
        push_spaces(&mut s, 0);
    }
    s.append(id_digits.as_str());
    s.append(" ");
    s.append(t.priority_display());
    s.append("  ");
    let text_len = text.as_str().unicode_len();
    s.append(text.as_str());
    if text_len < 35 {
        push_spaces(&mut s, 35 - text_len);
    } else {
        push_spaces(&mut s, 0);
    }
    s.append("  ");
    let dl = deadline_cell(t, now);
    let dl_len = dl.as_str().unicode_len();
    s.append(dl.as_str());
    if dl_len < 18 {
        push_spaces(&mut s, 18 - dl_len);
    } else {
        push_spaces(&mut s, 0);
    }
    s.append("  ");
    let tags = tags_cell(t);
    s.append(tags.as_str());
    assert(s@ =~= spec_indented_row(*t, *now, text@));
    s
}

/// Render one row of a project listing: dotted truncation, no project
/// column.
pub fn format_project_todo(t: &Todo, now: &Instant) -> (r: String)
    requires
        t.wf(),
        now.wf(),
    ensures
        r@ == spec_indented_row(*t, *now, spec_truncate_dots(t.text@, 35)),
{
    let text = truncate_dots(t.text.as_str(), 35);
    indented_row(t, now, text)
}

/// Render one row of the daily overview: ellipsis truncation, no project
/// column.
pub fn format_today_todo(t: &Todo, now: &Instant) -> (r: String)
    requires
        t.wf(),
        now.wf(),
    ensures
        r@ == spec_indented_row(*t, *now, spec_truncate(t.text@, 35)),
{
    let text = truncate(t.text.as_str(), 35);
    indented_row(t, now, text)
}

/// Render one task as a plain fixed-width row: completion mark, id, priority
/// marker, truncated text, deadline phrase, then project and tags.
#[verifier::rlimit(50)]
pub fn format_todo(t: &Todo, now: &Instant) -> (r: String)
    requires
        t.wf(),
        now.wf(),
    ensures
        r@ == spec_format_todo(*t, *now),
{
    let mut s = String::new();
    if t.done {
        s.append("✓");
    } else {
        s.append(" ");
    }
    s.append(" ");
    let id_digits = {
        let mut d = String::new();
        push_dec(&mut d, t.id as u64);
        d
    };
    let id_len = id_digits.as_str().unicode_len();
    if id_len < 3 {
        push_spaces(&mut s, 3 - id_len);
    } else {
        push_spaces(&mut s, 0);
    }
    s.append(id_digits.as_str());
    s.append(" ");
    s.append(t.priority_display());
    s.append("  ");
    let text = truncate(t.text.as_str(), 35);
    let text_len = text.as_str().unicode_len();
    s.append(text.as_str());
    if text_len < 35 {
        push_spaces(&mut s, 35 - text_len);
    } else {
        push_spaces(&mut s, 0);
    }
    s.append("  ");
    let dl = deadline_cell(t, now);
    let dl_len = dl.as_str().unicode_len();
    s.append(dl.as_str());
    if dl_len < 18 {
        push_spaces(&mut s, 18 - dl_len);
    } else {
        push_spaces(&mut s, 0);
    }
    s.append("  ");
    let meta = metadata_cell(t);
    s.append(meta.as_str());
    assert(s@ =~= spec_format_todo(*t, *now));
    s
}

} // verus!
