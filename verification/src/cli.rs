//! The command-line surface as data: the parsed argument structure, and the
//! little grammar of `+tag`, `-tag` and `@project` markers inside task text.

use vstd::prelude::*;

use vstd::string::StringExecFns;

verus! {

/// How task rows are ordered.
#[derive(Clone, Copy, PartialEq, Eq, Structural, Debug)]
pub enum SortBy {
    Priority,
    Time,
    Created,
}

/// One invocation's subcommand, with its arguments.
pub enum Command {
    Add { text: Vec<String>, p: Option<u8>, t: Option<String> },
    Ls,
    All,
    Done { ids: Vec<u32> },
    Delete { ids: Vec<u32> },
    Edit {
        id: u32,
        text: Vec<String>,
        p: Option<u8>,
        t: Option<String>,
        clear_time: bool,
        clear_priority: bool,
        clear_project: bool,
    },
    Clear,
    Stats,
    Today,
    Week,
    Overdue,
    Project { name: String },
    Projects,
}

/// The whole parsed command line.
pub struct Cli {
    pub command: Option<Command>,
    pub sort_by: Option<SortBy>,
    pub color: bool,
    pub no_color: bool,
    pub tags: Vec<String>,
    pub project: Option<String>,
}

impl Cli {
    /// The explicit color choice, if either flag was given; `--color` wins.
    pub fn get_color_mode(&self) -> (r: Option<bool>)
        ensures
            r == if self.color {
                Some(true)
            } else if self.no_color {
                Some(false)
            } else {
                None::<bool>
            },
    {
        if self.color {
            Some(true)
        } else if self.no_color {
            Some(false)
        } else {
            None
        }
    }
}

/// Whether a word is a marker: at least two characters behind the mark.
pub open spec fn is_marked(s: Seq<char>, mark: char) -> bool {
    s.len() > 1 && s[0] == mark
}

/// A word that carries no `+`, `-` or `@` marker and so stays task text.
pub open spec fn is_plain_part(s: Seq<char>) -> bool {
    !is_marked(s, '+') && !is_marked(s, '-') && !is_marked(s, '@')
}

/// Words joined by single spaces, as `[String]::join(" ")` builds them.
pub open spec fn join_spaces(parts: Seq<Seq<char>>) -> Seq<char>
    decreases parts.len(),
{
    if parts.len() == 0 {
        Seq::empty()
    } else if parts.len() == 1 {
        parts[0]
    } else {
        join_spaces(parts.drop_last()) + seq![' '] + parts.last()
    }
}

fn part_is_marked(part: &String, mark: char) -> (r: bool)
    ensures
        r == is_marked(part@, mark),
{
    part.as_str().unicode_len() > 1 && part.as_str().get_char(0) == mark
}

/// The marker's payload: everything behind the first character.
fn part_payload(part: &String) -> (r: String)
    requires
        part@.len() >= 1,
    ensures
        r@ == part@.skip(1),
{
    let len = part.as_str().unicode_len();
    let tail = part.as_str().substring_char(1, len);
    assert(tail@ =~= part@.skip(1));
    tail.to_owned()
}

/// Split the words of a task description into the text (plain words joined by
/// spaces, in order) and the tags (`+tag` payloads, in order). `-tag` and
/// `@project` markers belong to other grammars and are dropped here.
pub fn parse_tags_from_text(parts: &Vec<String>) -> (r: (String, Vec<String>))
    ensures
        r.0@ == join_spaces(
            parts@.map_values(|p: String| p@).filter(|s: Seq<char>| is_plain_part(s)),
        ),
        r.1@.map_values(|p: String| p@) == parts@.map_values(|p: String| p@).filter(
            |s: Seq<char>| is_marked(s, '+'),
        ).map_values(|s: Seq<char>| s.skip(1)),
{
    let ghost plain = |s: Seq<char>| is_plain_part(s);
    let ghost tagged = |s: Seq<char>| is_marked(s, '+');
    let ghost views = parts@.map_values(|p: String| p@);
    let n = parts.len();
    let mut text = String::new();
    let ghost mut text_parts: Seq<Seq<char>> = Seq::empty();
    let mut first = true;
    let mut tags: Vec<String> = Vec::new();
    proof {
        reveal(Seq::filter);
        assert(views.take(0) =~= Seq::<Seq<char>>::empty());
        assert(Seq::<Seq<char>>::empty().filter(plain) =~= Seq::<Seq<char>>::empty());
        assert(Seq::<Seq<char>>::empty().filter(tagged) =~= Seq::<Seq<char>>::empty());
        assert(tags@.map_values(|p: String| p@) =~= Seq::<Seq<char>>::empty());
        assert(Seq::<Seq<char>>::empty().map_values(|s: Seq<char>| s.skip(1)) =~= Seq::<
            Seq<char>,
        >::empty());
    }
    let mut i: usize = 0;
    while i < n
        invariant
            i <= n == parts@.len(),
            views == parts@.map_values(|p: String| p@),
            plain == (|s: Seq<char>| is_plain_part(s)),
            tagged == (|s: Seq<char>| is_marked(s, '+')),
            text_parts == views.take(i as int).filter(plain),
            text@ == join_spaces(text_parts),
            first <==> text_parts.len() == 0,
            tags@.map_values(|p: String| p@) == views.take(i as int).filter(tagged).map_values(
                |s: Seq<char>| s.skip(1),
            ),
        decreases n - i,
    {
        proof {
            reveal(Seq::filter);
            assert(views[i as int] == parts@[i as int]@);
            assert(views.take(i + 1).drop_last() =~= views.take(i as int));
            assert(views.take(i + 1).last() == views[i as int]);
            assert(views.take(i + 1).filter(plain) == if plain(views[i as int]) {
                views.take(i as int).filter(plain).push(views[i as int])
            } else {
                views.take(i as int).filter(plain)
            });
            assert(views.take(i + 1).filter(tagged) == if tagged(views[i as int]) {
                views.take(i as int).filter(tagged).push(views[i as int])
            } else {
                views.take(i as int).filter(tagged)
            });
        }
        let part = &parts[i];
        if part_is_marked(part, '+') {
            let ghost old_tags = tags@;
            let payload = part_payload(part);
            tags.push(payload);
            proof {
                assert(tags@.map_values(|p: String| p@) =~= old_tags.map_values(|p: String| p@)
                    .push(views[i as int].skip(1)));
                assert(views.take(i + 1).filter(tagged).map_values(|s: Seq<char>| s.skip(1))
                    =~= views.take(i as int).filter(tagged).map_values(
                    |s: Seq<char>| s.skip(1),
                ).push(views[i as int].skip(1)));
            }
        } else if part_is_marked(part, '-') || part_is_marked(part, '@') {
            // other grammars' markers: skipped here
        } else {
            if first {
                text.append(part.as_str());
                first = false;
            } else {
                text.append(" ");
                text.append(part.as_str());
                proof {
                    reveal_strlit(" ");
                }
            }
            proof {
                text_parts = text_parts.push(views[i as int]);
                assert(text_parts.drop_last() =~= views.take(i as int).filter(plain));
                assert(text@ =~= join_spaces(text_parts));
            }
        }
        i = i + 1;
    }
    assert(views.take(n as int) =~= views);
    (text, tags)
}

/// The project named by the last `@project` word, if any.
pub fn parse_project_from_text(parts: &Vec<String>) -> (r: Option<String>)
    ensures
        match r {
            Some(p) => exists|i: int|
                0 <= i < parts@.len() && is_marked(#[trigger] parts@[i]@, '@') && p@ == parts@[i]@.skip(
                    1,
                ) && forall|j: int| i < j < parts@.len() ==> !is_marked(#[trigger] parts@[j]@, '@'),
            None => forall|i: int| 0 <= i < parts@.len() ==> !is_marked(#[trigger] parts@[i]@, '@'),
        },
{
    let n = parts.len();
    let mut r: Option<String> = None;
    let ghost mut last: int = 0;
    let mut i: usize = 0;
    while i < n
        invariant
            i <= n == parts@.len(),
            match r {
                Some(p) => 0 <= last < i && is_marked(parts@[last]@, '@') && p@
                    == parts@[last]@.skip(1) && forall|j: int|
                    last < j < i ==> !is_marked(#[trigger] parts@[j]@, '@'),
                None => forall|j: int| 0 <= j < i ==> !is_marked(#[trigger] parts@[j]@, '@'),
            },
        decreases n - i,
    {
        let part = &parts[i];
        if part_is_marked(part, '@') {
            r = Some(part_payload(part));
            proof {
                last = i as int;
            }
        }
        i = i + 1;
    }
    r
}

/// The tag edits named by a task-edit word list: `+tag` payloads to add and
/// `-tag` payloads to remove, each in order.
pub fn parse_tag_modifications(parts: &Vec<String>) -> (r: (Vec<String>, Vec<String>))
    ensures
        r.0@.map_values(|p: String| p@) == parts@.map_values(|p: String| p@).filter(
            |s: Seq<char>| is_marked(s, '+'),
        ).map_values(|s: Seq<char>| s.skip(1)),
        r.1@.map_values(|p: String| p@) == parts@.map_values(|p: String| p@).filter(
            |s: Seq<char>| is_marked(s, '-'),
        ).map_values(|s: Seq<char>| s.skip(1)),
{
    let ghost add_pred = |s: Seq<char>| is_marked(s, '+');
    let ghost rem_pred = |s: Seq<char>| is_marked(s, '-');
    let ghost views = parts@.map_values(|p: String| p@);
    let n = parts.len();
    let mut add_tags: Vec<String> = Vec::new();
    let mut remove_tags: Vec<String> = Vec::new();
    proof {
        reveal(Seq::filter);
        assert(views.take(0) =~= Seq::<Seq<char>>::empty());
        assert(Seq::<Seq<char>>::empty().filter(add_pred) =~= Seq::<Seq<char>>::empty());
        assert(Seq::<Seq<char>>::empty().filter(rem_pred) =~= Seq::<Seq<char>>::empty());
        assert(add_tags@.map_values(|p: String| p@) =~= Seq::<Seq<char>>::empty());
        assert(Seq::<Seq<char>>::empty().map_values(|s: Seq<char>| s.skip(1)) =~= Seq::<
            Seq<char>,
        >::empty());
    }
    let mut i: usize = 0;
    while i < n
        invariant
            i <= n == parts@.len(),
            views == parts@.map_values(|p: String| p@),
            add_pred == (|s: Seq<char>| is_marked(s, '+')),
            rem_pred == (|s: Seq<char>| is_marked(s, '-')),
            add_tags@.map_values(|p: String| p@) == views.take(i as int).filter(
                add_pred,
            ).map_values(|s: Seq<char>| s.skip(1)),
            remove_tags@.map_values(|p: String| p@) == views.take(i as int).filter(
                rem_pred,
            ).map_values(|s: Seq<char>| s.skip(1)),
        decreases n - i,
    {
        proof {
            reveal(Seq::filter);
            assert(views[i as int] == parts@[i as int]@);
            assert(views.take(i + 1).drop_last() =~= views.take(i as int));
            assert(views.take(i + 1).last() == views[i as int]);
            assert(views.take(i + 1).filter(add_pred) == if add_pred(views[i as int]) {
                views.take(i as int).filter(add_pred).push(views[i as int])
            } else {
                views.take(i as int).filter(add_pred)
            });
            assert(views.take(i + 1).filter(rem_pred) == if rem_pred(views[i as int]) {
                views.take(i as int).filter(rem_pred).push(views[i as int])
            } else {
                views.take(i as int).filter(rem_pred)
            });
        }
        let part = &parts[i];
        if part_is_marked(part, '+') {
            let ghost old_tags = add_tags@;
            add_tags.push(part_payload(part));
            proof {
                assert(add_tags@.map_values(|p: String| p@) =~= old_tags.map_values(
                    |p: String| p@,
                ).push(views[i as int].skip(1)));
                assert(views.take(i + 1).filter(add_pred).map_values(|s: Seq<char>| s.skip(1))
                    =~= views.take(i as int).filter(add_pred).map_values(
                    |s: Seq<char>| s.skip(1),
                ).push(views[i as int].skip(1)));
            }
        } else if part_is_marked(part, '-') {
            let ghost old_tags = remove_tags@;
            remove_tags.push(part_payload(part));
            proof {
                assert(remove_tags@.map_values(|p: String| p@) =~= old_tags.map_values(
                    |p: String| p@,
                ).push(views[i as int].skip(1)));
                assert(views.take(i + 1).filter(rem_pred).map_values(|s: Seq<char>| s.skip(1))
                    =~= views.take(i as int).filter(rem_pred).map_values(
                    |s: Seq<char>| s.skip(1),
                ).push(views[i as int].skip(1)));
            }
        }
        i = i + 1;
    }
    assert(views.take(n as int) =~= views);
    (add_tags, remove_tags)
}

} // verus!
