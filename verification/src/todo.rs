//! A task record: text, completion state, and optional priority, deadline,
//! tags and project.

use vstd::prelude::*;

use crate::instant::Instant;
use crate::text::{eq_ignore_case, str_eq_ignore_case};

verus! {

#[derive(Clone, Debug)]
pub struct Todo {
    pub id: u32,
    pub text: String,
    pub done: bool,
    pub priority: Option<u8>,
    pub deadline: Option<Instant>,
    pub tags: Vec<String>,
    pub project: Option<String>,
    pub created_at: Instant,
    pub completed_at: Option<Instant>,
}

/// The priority marker column: three characters wide.
pub open spec fn spec_priority_display(p: Option<u8>) -> Seq<char> {
    match p {
        Some(1u8) => "!!!"@,
        Some(2u8) => "!! "@,
        Some(3u8) => "!  "@,
        _ => "   "@,
    }
}

/// Whether any of `tags` equals `tag` up to ASCII case.
pub open spec fn spec_has_tag(tags: Seq<String>, tag: Seq<char>) -> bool {
    exists|i: int| 0 <= i < tags.len() && eq_ignore_case(#[trigger] tags[i]@, tag)
}

impl Todo {
    /// Every instant the record carries is a real calendar point.
    pub open spec fn wf(self) -> bool {
        &&& self.created_at.wf()
        &&& match self.deadline {
            Some(d) => d.wf(),
            None => true,
        }
        &&& match self.completed_at {
            Some(c) => c.wf(),
            None => true,
        }
    }

    /// A fresh, open task created at `now`.
    pub fn new(id: u32, text: String, now: Instant) -> (r: Todo)
        requires
            now.wf(),
        ensures
            r.id == id,
            r.text == text,
            !r.done,
            r.priority is None,
            r.deadline is None,
            r.tags@ == Seq::<String>::empty(),
            r.project is None,
            r.created_at == now,
            r.completed_at is None,
            r.wf(),
    {
        let r = Todo {
            id,
            text,
            done: false,
            priority: None,
            deadline: None,
            tags: Vec::new(),
            project: None,
            created_at: now,
            completed_at: None,
        };
        assert(r.tags@ =~= Seq::<String>::empty());
        r
    }

    pub fn with_id(self, id: u32) -> (r: Todo)
        ensures
            r == (Todo { id, ..self }),
    {
        Todo { id, ..self }
    }

    pub fn with_priority(self, priority: Option<u8>) -> (r: Todo)
        ensures
            r == (Todo { priority, ..self }),
    {
        Todo { priority, ..self }
    }

    pub fn with_deadline(self, deadline: Option<Instant>) -> (r: Todo)
        ensures
            r == (Todo { deadline, ..self }),
    {
        Todo { deadline, ..self }
    }

    pub fn with_tags(self, tags: Vec<String>) -> (r: Todo)
        ensures
            r == (Todo { tags, ..self }),
    {
        Todo { tags, ..self }
    }

    pub fn with_project(self, project: Option<String>) -> (r: Todo)
        ensures
            r == (Todo { project, ..self }),
    {
        Todo { project, ..self }
    }

    /// Whether the task belongs to `project`, compared ignoring ASCII case.
    pub fn in_project(&self, project: &str) -> (r: bool)
        ensures
            r == match self.project {
                Some(p) => eq_ignore_case(p@, project@),
                None => false,
            },
    {
        match &self.project {
            Some(p) => str_eq_ignore_case(p.as_str(), project),
            None => false,
        }
    }

    /// Complete the task at `now`.
    pub fn mark_done(&mut self, now: Instant)
        requires
            now.wf(),
        ensures
            *final(self) == (Todo { done: true, completed_at: Some(now), ..*old(self) }),
    {
        self.done = true;
        self.completed_at = Some(now);
    }

    pub fn priority_display(&self) -> (r: &'static str)
        ensures
            r@ == spec_priority_display(self.priority),
    {
        match self.priority {
            Some(1u8) => "!!!",
            Some(2u8) => "!! ",
            Some(3u8) => "!  ",
            _ => "   ",
        }
    }

    /// Whether the task carries `tag`, compared ignoring ASCII case.
    pub fn has_tag(&self, tag: &str) -> (r: bool)
        ensures
            r == spec_has_tag(self.tags@, tag@),
    {
        let n = self.tags.len();
        let mut i: usize = 0;
        while i < n
            invariant
                i <= n == self.tags@.len(),
                forall|j: int| 0 <= j < i ==> !eq_ignore_case(#[trigger] self.tags@[j]@, tag@),
            decreases n - i,
        {
            if str_eq_ignore_case(self.tags[i].as_str(), tag) {
                return true;
            }
            i = i + 1;
        }
        false
    }

    /// Add a tag unless an ASCII-case variant of it is already there.
    pub fn add_tag(&mut self, tag: String)
        ensures
            spec_has_tag(old(self).tags@, tag@) ==> *final(self) == *old(self),
            !spec_has_tag(old(self).tags@, tag@) ==> final(self).tags@ == old(self).tags@.push(tag)
                && *final(self) == (Todo { tags: final(self).tags, ..*old(self) }),
    {
        if !self.has_tag(tag.as_str()) {
            self.tags.push(tag);
        }
    }

    /// Drop every tag equal to `tag` up to ASCII case, keeping the rest in
    /// order.
    pub fn remove_tag(&mut self, tag: &str)
        ensures
            final(self).tags@ == old(self).tags@.filter(
                |t: String| !eq_ignore_case(t@, tag@),
            ),
            *final(self) == (Todo { tags: final(self).tags, ..*old(self) }),
    {
        let ghost pred = |t: String| !eq_ignore_case(t@, tag@);
        let n = self.tags.len();
        let mut kept: Vec<String> = Vec::new();
        proof {
            reveal(Seq::filter);
            assert(self.tags@.take(0) =~= Seq::<String>::empty());
            assert(Seq::<String>::empty().filter(pred) =~= Seq::<String>::empty());
        }
        let mut i: usize = 0;
        while i < n
            invariant
                i <= n == self.tags@.len(),
                kept@ == self.tags@.take(i as int).filter(pred),
                pred == (|t: String| !eq_ignore_case(t@, tag@)),
            decreases n - i,
        {
            proof {
                reveal(Seq::filter);
                assert(self.tags@.take(i + 1).drop_last() =~= self.tags@.take(i as int));
                assert(self.tags@.take(i + 1).last() == self.tags@[i as int]);
                assert(self.tags@.take(i + 1).filter(pred) == if pred(self.tags@[i as int]) {
                    self.tags@.take(i as int).filter(pred).push(self.tags@[i as int])
                } else {
                    self.tags@.take(i as int).filter(pred)
                });
            }
            if !str_eq_ignore_case(self.tags[i].as_str(), tag) {
                kept.push(self.tags[i].clone());
            }
            i = i + 1;
        }
        assert(self.tags@.take(n as int) =~= self.tags@);
        self.tags = kept;
    }

    /// Whether the task is open and its deadline lies strictly before `now`.
    pub fn is_overdue(&self, now: &Instant) -> (r: bool)
        requires
            self.wf(),
            now.wf(),
        ensures
            r == match self.deadline {
                Some(d) => !self.done && d.minute_index() < now.minute_index(),
                None => false,
            },
    {
        match &self.deadline {
            Some(d) => !self.done && d.minute_index_x() < now.minute_index_x(),
            None => false,
        }
    }
}

} // verus!
