//! The in-memory task list: id assignment, lookup, removal, and the open /
//! completed partitions. Reading the list from disk and writing it back live
//! with the caller.

use vstd::prelude::*;

use crate::instant::Instant;
use crate::todo::Todo;

verus! {

/// How many open tasks name exactly the project written `x`.
pub open spec fn spec_project_count(todos: Seq<Todo>, x: Seq<char>) -> int
    decreases todos.len(),
{
    if todos.len() == 0 {
        0
    } else {
        spec_project_count(todos.drop_last(), x) + if !todos.last().done && match todos.last().project {
            Some(p) => p@ == x,
            None => false,
        } {
            1int
        } else {
            0int
        }
    }
}

/// A count of tasks is never negative.
pub proof fn lemma_project_count_nonneg(todos: Seq<Todo>)
    ensures
        forall|x: Seq<char>| #[trigger] spec_project_count(todos, x) >= 0,
    decreases todos.len(),
{
    if todos.len() > 0 {
        lemma_project_count_nonneg(todos.drop_last());
        assert forall|x: Seq<char>| #[trigger] spec_project_count(todos, x) >= 0 by {
            assert(spec_project_count(todos.drop_last(), x) >= 0);
        }
    }
}

/// A prefix never counts more than the whole, and never less than nothing.
pub proof fn lemma_project_count_prefix(todos: Seq<Todo>, i: int)
    requires
        0 <= i <= todos.len(),
    ensures
        forall|x: Seq<char>|
            0 <= #[trigger] spec_project_count(todos.take(i), x) <= spec_project_count(todos, x),
    decreases todos.len() - i,
{
    lemma_project_count_nonneg(todos.take(i));
    if i == todos.len() {
        assert(todos.take(i) =~= todos);
    } else {
        lemma_project_count_prefix(todos, i + 1);
        assert(todos.take(i + 1).drop_last() =~= todos.take(i));
        assert forall|x: Seq<char>|
            #[trigger] spec_project_count(todos.take(i), x) <= spec_project_count(todos, x) by {
            assert(spec_project_count(todos.take(i + 1), x) >= spec_project_count(
                todos.take(i),
                x,
            ));
            assert(spec_project_count(todos.take(i + 1), x) <= spec_project_count(todos, x));
        }
    }
}

/// One more task changes the count by exactly its own contribution.
pub proof fn lemma_project_count_step(todos: Seq<Todo>, i: int)
    requires
        0 <= i < todos.len(),
    ensures
        forall|x: Seq<char>|
            #[trigger] spec_project_count(todos.take(i + 1), x) == spec_project_count(
                todos.take(i),
                x,
            ) + if !todos[i].done && match todos[i].project {
                Some(p) => p@ == x,
                None => false,
            } {
                1int
            } else {
                0int
            },
{
    assert(todos.take(i + 1).drop_last() =~= todos.take(i));
    assert(todos.take(i + 1).last() == todos[i]);
}

/// How many entries of `tags` read exactly `x`.
pub open spec fn count_tag_in(tags: Seq<String>, x: Seq<char>) -> int
    decreases tags.len(),
{
    if tags.len() == 0 {
        0
    } else {
        count_tag_in(tags.drop_last(), x) + if tags.last()@ == x {
            1int
        } else {
            0int
        }
    }
}

/// How many times the tag written `x` occurs across the open tasks.
pub open spec fn spec_tag_count(todos: Seq<Todo>, x: Seq<char>) -> int
    decreases todos.len(),
{
    if todos.len() == 0 {
        0
    } else {
        spec_tag_count(todos.drop_last(), x) + if !todos.last().done {
            count_tag_in(todos.last().tags@, x)
        } else {
            0int
        }
    }
}

/// Occurrences already passed: whole tasks before `i`, and the first `j` tag
/// slots of task `i` when it is open.
pub open spec fn tag_count_upto(todos: Seq<Todo>, i: int, j: int, x: Seq<char>) -> int {
    spec_tag_count(todos.take(i), x) + if 0 <= i < todos.len() && !todos[i].done {
        count_tag_in(todos[i].tags@.take(j), x)
    } else {
        0int
    }
}

pub proof fn lemma_count_tag_in_bounds(tags: Seq<String>, j: int)
    requires
        0 <= j <= tags.len(),
    ensures
        forall|x: Seq<char>| 0 <= #[trigger] count_tag_in(tags.take(j), x) <= j,
    decreases j,
{
    if j == 0 {
        assert(tags.take(0) =~= Seq::<String>::empty());
    } else {
        lemma_count_tag_in_bounds(tags, j - 1);
        assert(tags.take(j).drop_last() =~= tags.take(j - 1));
        assert forall|x: Seq<char>| 0 <= #[trigger] count_tag_in(tags.take(j), x) <= j by {
            assert(0 <= count_tag_in(tags.take(j - 1), x) <= j - 1);
        }
    }
}

pub proof fn lemma_tag_count_nonneg(todos: Seq<Todo>)
    ensures
        forall|x: Seq<char>| #[trigger] spec_tag_count(todos, x) >= 0,
    decreases todos.len(),
{
    if todos.len() > 0 {
        lemma_tag_count_nonneg(todos.drop_last());
        assert forall|x: Seq<char>| #[trigger] spec_tag_count(todos, x) >= 0 by {
            assert(spec_tag_count(todos.drop_last(), x) >= 0);
            let tags = todos.last().tags@;
            lemma_count_tag_in_bounds(tags, tags.len() as int);
            assert(tags.take(tags.len() as int) =~= tags);
        }
    }
}

/// Over a prefix of `i` tasks the count stays between zero and
/// `i * usize::MAX`.
pub proof fn lemma_tag_count_bound(todos: Seq<Todo>, i: int)
    requires
        0 <= i <= todos.len(),
    ensures
        forall|x: Seq<char>|
            0 <= #[trigger] spec_tag_count(todos.take(i), x) <= i * (usize::MAX as int),
    decreases i,
{
    if i == 0 {
        assert(todos.take(0) =~= Seq::<Todo>::empty());
    } else {
        lemma_tag_count_bound(todos, i - 1);
        assert(todos.take(i).drop_last() =~= todos.take(i - 1));
        assert(todos.take(i).last() == todos[i - 1]);
        assert forall|x: Seq<char>|
            0 <= #[trigger] spec_tag_count(todos.take(i), x) <= i * (usize::MAX as int) by {
            assert(0 <= spec_tag_count(todos.take(i - 1), x) <= (i - 1) * (usize::MAX as int));
            let tags = todos[i - 1].tags@;
            vstd::std_specs::vec::axiom_spec_len(&todos[i - 1].tags);
            lemma_count_tag_in_bounds(tags, tags.len() as int);
            assert(tags.take(tags.len() as int) =~= tags);
            assert(0 <= count_tag_in(tags, x) <= usize::MAX as int);
            assert((i - 1) * (usize::MAX as int) + (usize::MAX as int) == i * (usize::MAX as int))
                by (nonlinear_arith);
        }
    }
}

/// One more tag slot changes the running count by exactly that slot's
/// contribution.
pub proof fn lemma_tag_count_upto_step(todos: Seq<Todo>, i: int, j: int)
    requires
        0 <= i < todos.len(),
        !todos[i].done,
        0 <= j < todos[i].tags@.len(),
    ensures
        forall|x: Seq<char>|
            #[trigger] tag_count_upto(todos, i, j + 1, x) == tag_count_upto(todos, i, j, x) + if todos[i].tags@[j]@
                == x {
                1int
            } else {
                0int
            },
{
    assert forall|x: Seq<char>|
        #[trigger] tag_count_upto(todos, i, j + 1, x) == tag_count_upto(todos, i, j, x) + if todos[i].tags@[j]@
            == x {
            1int
        } else {
            0int
        } by {
        let tags = todos[i].tags@;
        assert(tags.take(j + 1).drop_last() =~= tags.take(j));
        assert(tags.take(j + 1).last() == tags[j]);
    }
}

/// Finishing a task's tags moves the running count to the next task.
pub proof fn lemma_tag_count_upto_next(todos: Seq<Todo>, i: int)
    requires
        0 <= i < todos.len(),
    ensures
        forall|x: Seq<char>|
            #[trigger] tag_count_upto(todos, i + 1, 0, x) == if !todos[i].done {
                tag_count_upto(todos, i, todos[i].tags@.len() as int, x)
            } else {
                tag_count_upto(todos, i, 0, x)
            },
{
    assert forall|x: Seq<char>|
        #[trigger] tag_count_upto(todos, i + 1, 0, x) == if !todos[i].done {
            tag_count_upto(todos, i, todos[i].tags@.len() as int, x)
        } else {
            tag_count_upto(todos, i, 0, x)
        } by {
        assert(todos.take(i + 1).drop_last() =~= todos.take(i));
        assert(todos.take(i + 1).last() == todos[i]);
        let tags = todos[i].tags@;
        assert(tags.take(tags.len() as int) =~= tags);
        assert(tags.take(0) =~= Seq::<String>::empty());
        if 0 <= i + 1 < todos.len() && !todos[i + 1].done {
            assert(todos[i + 1].tags@.take(0) =~= Seq::<String>::empty());
        }
    }
}

/// Whether a completed task was finished on `now`'s date or later.
pub open spec fn spec_done_on_or_after_today(t: Todo, now: Instant) -> bool {
    t.done && match t.completed_at {
        Some(c) => c.day_index() >= now.day_index(),
        None => false,
    }
}

/// Whether a completed task was finished in the last seven days.
pub open spec fn spec_done_within_week(t: Todo, now: Instant) -> bool {
    t.done && match t.completed_at {
        Some(c) => c.minute_index() + 10080 >= now.minute_index(),
        None => false,
    }
}

pub struct Store {
    pub version: u32,
    pub next_id: u32,
    pub todos: Vec<Todo>,
}

impl Default for Store {
    /// An empty store, handing out ids from 1.
    fn default() -> (r: Store)
        ensures
            r.version == 1,
            r.next_id == 1,
            r.todos@ == Seq::<Todo>::empty(),
    {
        let r = Store { version: 1, next_id: 1, todos: Vec::new() };
        assert(r.todos@ =~= Seq::<Todo>::empty());
        r
    }
}

impl Store {
    /// Append a task under the next free id and hand that id back.
    pub fn add(&mut self, todo: Todo) -> (id: u32)
        requires
            old(self).next_id < u32::MAX,
        ensures
            id == old(self).next_id,
            final(self).next_id == old(self).next_id + 1,
            final(self).version == old(self).version,
            final(self).todos@ == old(self).todos@.push(Todo { id, ..todo }),
    {
        let id = self.next_id;
        let with_id = todo.with_id(id);
        self.next_id = self.next_id + 1;
        self.todos.push(with_id);
        id
    }

    /// Position of the first task with the given id.
    pub fn find_index(&self, id: u32) -> (r: Option<usize>)
        ensures
            match r {
                Some(i) => i < self.todos@.len() && self.todos@[i as int].id == id && forall|j: int|
                    0 <= j < i ==> self.todos@[j].id != id,
                None => forall|j: int| 0 <= j < self.todos@.len() ==> self.todos@[j].id != id,
            },
    {
        let n = self.todos.len();
        let mut i: usize = 0;
        while i < n
            invariant
                i <= n == self.todos@.len(),
                forall|j: int| 0 <= j < i ==> self.todos@[j].id != id,
            decreases n - i,
        {
            if self.todos[i].id == id {
                return Some(i);
            }
            i = i + 1;
        }
        None
    }

    /// Remove and return the first task with the given id, keeping the order
    /// of the rest; `None` leaves the store unchanged.
    pub fn remove(&mut self, id: u32) -> (r: Option<Todo>)
        ensures
            match r {
                Some(t) => exists|i: int|
                    0 <= i < old(self).todos@.len() && old(self).todos@[i].id == id && (forall|
                        j: int,
                    | 0 <= j < i ==> old(self).todos@[j].id != id) && t == old(self).todos@[i]
                        && final(self).todos@ == old(self).todos@.remove(i),
                None => *final(self) == *old(self) && forall|j: int|
                    0 <= j < old(self).todos@.len() ==> old(self).todos@[j].id != id,
            },
            final(self).version == old(self).version,
            final(self).next_id == old(self).next_id,
    {
        match self.find_index(id) {
            Some(i) => {
                let t = self.todos.remove(i);
                Some(t)
            },
            None => None,
        }
    }

    /// Drop every completed task, keeping open ones in order; returns how
    /// many were dropped.
    pub fn clear_completed(&mut self) -> (r: usize)
        ensures
            final(self).todos@ == old(self).todos@.filter(|t: Todo| !t.done),
            r == old(self).todos@.len() - final(self).todos@.len(),
            final(self).version == old(self).version,
            final(self).next_id == old(self).next_id,
    {
        let ghost pred = |t: Todo| !t.done;
        let ghost orig = self.todos@;
        let before = self.todos.len();
        let mut i: usize = 0;
        let ghost mut j: int = 0;
        proof {
            reveal(Seq::filter);
            assert(orig.take(0) =~= Seq::<Todo>::empty());
            assert(Seq::<Todo>::empty().filter(pred) =~= Seq::<Todo>::empty());
            assert(orig.skip(0) =~= orig);
        }
        while i < self.todos.len()
            invariant
                0 <= j <= orig.len(),
                orig == old(self).todos@,
                self.todos@ == orig.take(j).filter(pred) + orig.skip(j),
                i == orig.take(j).filter(pred).len(),
                pred == (|t: Todo| !t.done),
                self.version == old(self).version,
                self.next_id == old(self).next_id,
            decreases self.todos@.len() - i,
        {
            proof {
                reveal(Seq::filter);
                assert(orig.take(j + 1).drop_last() =~= orig.take(j));
                assert(orig.take(j + 1).last() == orig[j]);
                assert(orig.take(j + 1).filter(pred) == if pred(orig[j]) {
                    orig.take(j).filter(pred).push(orig[j])
                } else {
                    orig.take(j).filter(pred)
                });
                orig.take(j).lemma_filter_len(pred);
                assert(self.todos@[i as int] == orig.skip(j)[0]);
                assert(orig.skip(j)[0] == orig[j]);
            }
            if self.todos[i].done {
                self.todos.remove(i);
                proof {
                    assert(self.todos@ =~= orig.take(j + 1).filter(pred) + orig.skip(j + 1));
                    j = j + 1;
                }
            } else {
                i = i + 1;
                proof {
                    assert(self.todos@ =~= orig.take(j + 1).filter(pred) + orig.skip(j + 1));
                    j = j + 1;
                }
            }
        }
        proof {
            assert(orig.skip(j).len() == 0);
            assert(j == orig.len());
            assert(orig.take(j) =~= orig);
            assert(self.todos@ =~= orig.filter(pred));
        }
        before - self.todos.len()
    }

    /// Positions of the open tasks, in order.
    pub fn open_todos(&self) -> (r: Vec<usize>)
        ensures
            forall|k: int|
                0 <= k < r@.len() ==> #[trigger] r@[k] < self.todos@.len()
                    && !self.todos@[r@[k] as int].done,
            forall|k1: int, k2: int| 0 <= k1 < k2 < r@.len() ==> r@[k1] < r@[k2],
            forall|j: int|
                0 <= j < self.todos@.len() && !(#[trigger] self.todos@[j]).done ==> exists|k: int|
                    0 <= k < r@.len() && r@[k] == j,
    {
        self.indices_where(false)
    }

    /// Positions of the completed tasks, in order.
    pub fn completed_todos(&self) -> (r: Vec<usize>)
        ensures
            forall|k: int|
                0 <= k < r@.len() ==> #[trigger] r@[k] < self.todos@.len()
                    && self.todos@[r@[k] as int].done,
            forall|k1: int, k2: int| 0 <= k1 < k2 < r@.len() ==> r@[k1] < r@[k2],
            forall|j: int|
                0 <= j < self.todos@.len() && (#[trigger] self.todos@[j]).done ==> exists|k: int|
                    0 <= k < r@.len() && r@[k] == j,
    {
        self.indices_where(true)
    }

    /// How many completed tasks were finished on `now`'s date or later.
    pub fn done_today_count(&self, now: &Instant) -> (r: usize)
        requires
            now.wf(),
            forall|i: int| 0 <= i < self.todos@.len() ==> (#[trigger] self.todos@[i]).wf(),
        ensures
            r == self.todos@.filter(|t: Todo| spec_done_on_or_after_today(t, *now)).len(),
    {
        let ghost pred = |t: Todo| spec_done_on_or_after_today(t, *now);
        let n = self.todos.len();
        let mut count: usize = 0;
        proof {
            reveal(Seq::filter);
            assert(self.todos@.take(0) =~= Seq::<Todo>::empty());
        }
        let mut i: usize = 0;
        while i < n
            invariant
                i <= n == self.todos@.len(),
                now.wf(),
                forall|k: int| 0 <= k < self.todos@.len() ==> (#[trigger] self.todos@[k]).wf(),
                pred == (|t: Todo| spec_done_on_or_after_today(t, *now)),
                count == self.todos@.take(i as int).filter(pred).len(),
                count <= i,
            decreases n - i,
        {
            proof {
                reveal(Seq::filter);
                assert(self.todos@.take(i + 1).drop_last() =~= self.todos@.take(i as int));
                assert(self.todos@.take(i + 1).last() == self.todos@[i as int]);
            }
            let t = &self.todos[i];
            let hit = t.done && match &t.completed_at {
                Some(c) => {
                    let cd = crate::instant::date_to_days(c.year, c.month, c.day);
                    let nd = crate::instant::date_to_days(now.year, now.month, now.day);
                    cd >= nd
                },
                None => false,
            };
            if hit {
                count = count + 1;
            }
            i = i + 1;
        }
        assert(self.todos@.take(n as int) =~= self.todos@);
        count
    }

    /// How many completed tasks were finished within the last seven days.
    pub fn done_week_count(&self, now: &Instant) -> (r: usize)
        requires
            now.wf(),
            forall|i: int| 0 <= i < self.todos@.len() ==> (#[trigger] self.todos@[i]).wf(),
        ensures
            r == self.todos@.filter(|t: Todo| spec_done_within_week(t, *now)).len(),
    {
        let ghost pred = |t: Todo| spec_done_within_week(t, *now);
        let n = self.todos.len();
        let mut count: usize = 0;
        proof {
            reveal(Seq::filter);
            assert(self.todos@.take(0) =~= Seq::<Todo>::empty());
        }
        let mut i: usize = 0;
        while i < n
            invariant
                i <= n == self.todos@.len(),
                now.wf(),
                forall|k: int| 0 <= k < self.todos@.len() ==> (#[trigger] self.todos@[k]).wf(),
                pred == (|t: Todo| spec_done_within_week(t, *now)),
                count == self.todos@.take(i as int).filter(pred).len(),
                count <= i,
            decreases n - i,
        {
            proof {
                reveal(Seq::filter);
                assert(self.todos@.take(i + 1).drop_last() =~= self.todos@.take(i as int));
                assert(self.todos@.take(i + 1).last() == self.todos@[i as int]);
            }
            proof {
                crate::instant::lemma_days_before_year_bounds(10000);
            }
            let t = &self.todos[i];
            let hit = t.done && match &t.completed_at {
                Some(c) => c.minute_index_x() + 10080 >= now.minute_index_x(),
                None => false,
            };
            if hit {
                count = count + 1;
            }
            i = i + 1;
        }
        assert(self.todos@.take(n as int) =~= self.todos@);
        count
    }

    /// Position of the open task created earliest; the first of them when
    /// several share that moment.
    pub fn oldest_open(&self) -> (r: Option<usize>)
        requires
            forall|i: int| 0 <= i < self.todos@.len() ==> (#[trigger] self.todos@[i]).wf(),
        ensures
            match r {
                Some(i) => i < self.todos@.len() && !self.todos@[i as int].done && (forall|j: int|
                    0 <= j < self.todos@.len() && !(#[trigger] self.todos@[j]).done
                        ==> self.todos@[i as int].created_at.minute_index()
                        <= self.todos@[j].created_at.minute_index()) && (forall|j: int|
                    0 <= j < i && !(#[trigger] self.todos@[j]).done
                        ==> self.todos@[j].created_at.minute_index()
                        > self.todos@[i as int].created_at.minute_index()),
                None => forall|j: int| 0 <= j < self.todos@.len() ==> (#[trigger] self.todos@[j]).done,
            },
    {
        let n = self.todos.len();
        let mut best: Option<usize> = None;
        let mut i: usize = 0;
        while i < n
            invariant
                i <= n == self.todos@.len(),
                forall|k: int| 0 <= k < self.todos@.len() ==> (#[trigger] self.todos@[k]).wf(),
                match best {
                    Some(b) => b < i && !self.todos@[b as int].done && (forall|j: int|
                        0 <= j < i && !(#[trigger] self.todos@[j]).done
                            ==> self.todos@[b as int].created_at.minute_index()
                            <= self.todos@[j].created_at.minute_index()) && (forall|j: int|
                        0 <= j < b && !(#[trigger] self.todos@[j]).done
                            ==> self.todos@[j].created_at.minute_index()
                            > self.todos@[b as int].created_at.minute_index()),
                    None => forall|j: int| 0 <= j < i ==> (#[trigger] self.todos@[j]).done,
                },
            decreases n - i,
        {
            let t = &self.todos[i];
            if !t.done {
                let replace = match &best {
                    Some(b) => self.todos[*b].created_at.minute_index_x()
                        > t.created_at.minute_index_x(),
                    None => true,
                };
                if replace {
                    best = Some(i);
                }
            }
            i = i + 1;
        }
        best
    }

    /// The distinct project names of open tasks, each with how many open
    /// tasks carry it, in order of first appearance.
    pub fn project_counts(&self) -> (r: Vec<(String, usize)>)
        ensures
            forall|k1: int, k2: int| 0 <= k1 < k2 < r@.len() ==> (#[trigger] r@[k1]).0@ != (
            #[trigger] r@[k2]).0@,
            forall|k: int|
                0 <= k < r@.len() ==> (#[trigger] r@[k]).1 == spec_project_count(
                    self.todos@,
                    r@[k].0@,
                ) && r@[k].1 >= 1,
            forall|x: Seq<char>|
                #[trigger] spec_project_count(self.todos@, x) > 0 ==> exists|k: int|
                    0 <= k < r@.len() && (#[trigger] r@[k]).0@ == x,
    {
        let n = self.todos.len();
        let mut keys: Vec<String> = Vec::new();
        let mut i: usize = 0;
        proof {
            assert(self.todos@.take(0) =~= Seq::<Todo>::empty());
            lemma_project_count_prefix(self.todos@, 0);
        }
        while i < n
            invariant
                i <= n == self.todos@.len(),
                forall|k1: int, k2: int|
                    0 <= k1 < k2 < keys@.len() ==> (#[trigger] keys@[k1])@ != (
                    #[trigger] keys@[k2])@,
                forall|x: Seq<char>|
                    #[trigger] spec_project_count(self.todos@.take(i as int), x) > 0 <==> exists|
                        k: int,
                    | 0 <= k < keys@.len() && (#[trigger] keys@[k])@ == x,
                forall|x: Seq<char>|
                    0 <= #[trigger] spec_project_count(self.todos@.take(i as int), x)
                        <= spec_project_count(self.todos@, x),
            decreases n - i,
        {
            proof {
                lemma_project_count_step(self.todos@, i as int);
                lemma_project_count_prefix(self.todos@, i + 1);
            }
            let t = &self.todos[i];
            if !t.done {
                if let Some(p) = &t.project {
                    let mut seen = false;
                    let m = keys.len();
                    let mut k: usize = 0;
                    while k < m
                        invariant
                            k <= m == keys@.len(),
                            seen <==> exists|k2: int| 0 <= k2 < k && (#[trigger] keys@[k2])@ == p@,
                        decreases m - k,
                    {
                        if keys[k] == *p {
                            seen = true;
                            assert(keys@[k as int]@ == p@);
                        }
                        k = k + 1;
                    }
                    if !seen {
                        let ghost old_keys = keys@;
                        keys.push(p.clone());
                        proof {
                            assert(keys@[old_keys.len() as int]@ == p@);
                            assert forall|x: Seq<char>|
                                #[trigger] spec_project_count(self.todos@.take(i + 1), x)
                                    > 0 implies exists|k2: int|
                                0 <= k2 < keys@.len() && (#[trigger] keys@[k2])@ == x by {
                                if x == p@ {
                                    assert(keys@[old_keys.len() as int]@ == x);
                                } else {
                                    assert(spec_project_count(self.todos@.take(i as int), x) > 0);
                                    let k2 = choose|k2: int|
                                        0 <= k2 < old_keys.len() && (#[trigger] old_keys[k2])@
                                            == x;
                                    assert(keys@[k2]@ == x);
                                }
                            }
                        }
                    }
                }
            }
            i = i + 1;
        }
        assert(self.todos@.take(n as int) =~= self.todos@);
        proof {
            assert forall|k2: int| 0 <= k2 < keys@.len() implies spec_project_count(
                self.todos@,
                (#[trigger] keys@[k2])@,
            ) > 0 by {
                assert(0 <= k2 < keys@.len() && keys@[k2]@ == keys@[k2]@);
            }
        }
        let m = keys.len();
        let mut r: Vec<(String, usize)> = Vec::new();
        let mut k: usize = 0;
        while k < m
            invariant
                k <= m == keys@.len(),
                r@.len() == k,
                forall|k1: int, k2: int|
                    0 <= k1 < k2 < keys@.len() ==> (#[trigger] keys@[k1])@ != (
                    #[trigger] keys@[k2])@,
                forall|k2: int|
                    0 <= k2 < keys@.len() ==> spec_project_count(
                        self.todos@,
                        (#[trigger] keys@[k2])@,
                    ) > 0,
                forall|j: int| 0 <= j < k ==> (#[trigger] r@[j]).0@ == keys@[j]@,
                forall|j: int|
                    0 <= j < k ==> (#[trigger] r@[j]).1 == spec_project_count(
                        self.todos@,
                        r@[j].0@,
                    ) && r@[j].1 >= 1,
                forall|x: Seq<char>|
                    #[trigger] spec_project_count(self.todos@, x) > 0 ==> exists|k2: int|
                        0 <= k2 < keys@.len() && (#[trigger] keys@[k2])@ == x,
            decreases m - k,
        {
            let count = self.project_count_of(&keys[k]);
            assert(spec_project_count(self.todos@, keys@[k as int]@) > 0);
            let ghost old_r = r@;
            r.push((keys[k].clone(), count));
            proof {
                assert((r@[old_r.len() as int]).0@ == keys@[k as int]@);
            }
            k = k + 1;
        }
        proof {
            assert forall|x: Seq<char>| #[trigger] spec_project_count(self.todos@, x)
                > 0 implies exists|j: int| 0 <= j < r@.len() && (#[trigger] r@[j]).0@ == x by {
                let k2 = choose|k2: int|
                    0 <= k2 < keys@.len() && (#[trigger] keys@[k2])@ == x;
                assert((r@[k2]).0@ == x);
            }
        }
        r
    }

    /// How many open tasks name exactly the given project.
    fn project_count_of(&self, project: &String) -> (r: usize)
        ensures
            r == spec_project_count(self.todos@, project@),
    {
        let n = self.todos.len();
        let mut count: usize = 0;
        proof {
            assert(self.todos@.take(0) =~= Seq::<Todo>::empty());
        }
        let mut i: usize = 0;
        while i < n
            invariant
                i <= n == self.todos@.len(),
                count == spec_project_count(self.todos@.take(i as int), project@),
                count <= i,
            decreases n - i,
        {
            proof {
                lemma_project_count_step(self.todos@, i as int);
            }
            let t = &self.todos[i];
            if !t.done {
                if let Some(p) = &t.project {
                    if *p == *project {
                        count = count + 1;
                    }
                }
            }
            i = i + 1;
        }
        assert(self.todos@.take(n as int) =~= self.todos@);
        count
    }

    /// The distinct tags of open tasks, each with how often it occurs across
    /// them, in order of first appearance.
    pub fn tag_counts(&self) -> (r: Vec<(String, u128)>)
        ensures
            forall|k1: int, k2: int| 0 <= k1 < k2 < r@.len() ==> (#[trigger] r@[k1]).0@ != (
            #[trigger] r@[k2]).0@,
            forall|k: int|
                0 <= k < r@.len() ==> (#[trigger] r@[k]).1 == spec_tag_count(
                    self.todos@,
                    r@[k].0@,
                ) && r@[k].1 >= 1,
            forall|x: Seq<char>|
                #[trigger] spec_tag_count(self.todos@, x) > 0 ==> exists|k: int|
                    0 <= k < r@.len() && (#[trigger] r@[k]).0@ == x,
    {
        let n = self.todos.len();
        let mut keys: Vec<String> = Vec::new();
        proof {
            assert(self.todos@.take(0) =~= Seq::<Todo>::empty());
        }
        let mut i: usize = 0;
        while i < n
            invariant
                i <= n == self.todos@.len(),
                forall|k1: int, k2: int|
                    0 <= k1 < k2 < keys@.len() ==> (#[trigger] keys@[k1])@ != (
                    #[trigger] keys@[k2])@,
                forall|x: Seq<char>|
                    #[trigger] tag_count_upto(self.todos@, i as int, 0, x) > 0 <==> exists|k: int|
                        0 <= k < keys@.len() && (#[trigger] keys@[k])@ == x,
            decreases n - i,
        {
            let t = &self.todos[i];
            if !t.done {
                let m = t.tags.len();
                let mut j: usize = 0;
                while j < m
                    invariant
                        j <= m == self.todos@[i as int].tags@.len(),
                        i < self.todos@.len(),
                        !self.todos@[i as int].done,
                        *t == self.todos@[i as int],
                        forall|k1: int, k2: int|
                            0 <= k1 < k2 < keys@.len() ==> (#[trigger] keys@[k1])@ != (
                            #[trigger] keys@[k2])@,
                        forall|x: Seq<char>|
                            #[trigger] tag_count_upto(self.todos@, i as int, j as int, x) > 0
                                <==> exists|k: int|
                                0 <= k < keys@.len() && (#[trigger] keys@[k])@ == x,
                    decreases m - j,
                {
                    proof {
                        lemma_tag_count_upto_step(self.todos@, i as int, j as int);
                        lemma_tag_count_bound(self.todos@, i as int);
                        lemma_count_tag_in_bounds(self.todos@[i as int].tags@, j as int);
                    }
                    let p = &t.tags[j];
                    let mut seen = false;
                    let klen = keys.len();
                    let mut k: usize = 0;
                    while k < klen
                        invariant
                            k <= klen == keys@.len(),
                            seen <==> exists|k2: int| 0 <= k2 < k && (#[trigger] keys@[k2])@ == p@,
                        decreases klen - k,
                    {
                        if keys[k] == *p {
                            seen = true;
                            assert(keys@[k as int]@ == p@);
                        }
                        k = k + 1;
                    }
                    if !seen {
                        let ghost old_keys = keys@;
                        keys.push(p.clone());
                        proof {
                            assert(keys@[old_keys.len() as int]@ == p@);
                            assert forall|x: Seq<char>|
                                #[trigger] tag_count_upto(self.todos@, i as int, j + 1, x)
                                    > 0 implies exists|k2: int|
                                0 <= k2 < keys@.len() && (#[trigger] keys@[k2])@ == x by {
                                if x == p@ {
                                    assert(keys@[old_keys.len() as int]@ == x);
                                } else {
                                    assert(tag_count_upto(self.todos@, i as int, j as int, x) > 0);
                                    let k2 = choose|k2: int|
                                        0 <= k2 < old_keys.len() && (#[trigger] old_keys[k2])@
                                            == x;
                                    assert(keys@[k2]@ == x);
                                }
                            }
                        }
                    }
                    j = j + 1;
                }
                proof {
                    lemma_tag_count_upto_next(self.todos@, i as int);
                }
            } else {
                proof {
                    lemma_tag_count_upto_next(self.todos@, i as int);
                }
            }
            i = i + 1;
        }
        proof {
            assert(self.todos@.take(n as int) =~= self.todos@);
            assert forall|x: Seq<char>| #[trigger] spec_tag_count(self.todos@, x)
                == tag_count_upto(self.todos@, n as int, 0, x) by {}
            assert forall|k2: int| 0 <= k2 < keys@.len() implies spec_tag_count(
                self.todos@,
                (#[trigger] keys@[k2])@,
            ) > 0 by {
                assert(0 <= k2 < keys@.len() && keys@[k2]@ == keys@[k2]@);
                assert(tag_count_upto(self.todos@, n as int, 0, keys@[k2]@) > 0);
            }
        }
        let klen = keys.len();
        let mut r: Vec<(String, u128)> = Vec::new();
        let mut k: usize = 0;
        while k < klen
            invariant
                k <= klen == keys@.len(),
                r@.len() == k,
                forall|k1: int, k2: int|
                    0 <= k1 < k2 < keys@.len() ==> (#[trigger] keys@[k1])@ != (
                    #[trigger] keys@[k2])@,
                forall|k2: int|
                    0 <= k2 < keys@.len() ==> spec_tag_count(self.todos@, (#[trigger] keys@[k2])@)
                        > 0,
                forall|j: int| 0 <= j < k ==> (#[trigger] r@[j]).0@ == keys@[j]@,
                forall|j: int|
                    0 <= j < k ==> (#[trigger] r@[j]).1 == spec_tag_count(self.todos@, r@[j].0@)
                        && r@[j].1 >= 1,
                forall|x: Seq<char>|
                    #[trigger] spec_tag_count(self.todos@, x) > 0 ==> exists|k2: int|
                        0 <= k2 < keys@.len() && (#[trigger] keys@[k2])@ == x,
            decreases klen - k,
        {
            let count = self.tag_count_of(&keys[k]);
            assert(spec_tag_count(self.todos@, keys@[k as int]@) > 0);
            let ghost old_r = r@;
            r.push((keys[k].clone(), count));
            proof {
                assert((r@[old_r.len() as int]).0@ == keys@[k as int]@);
            }
            k = k + 1;
        }
        proof {
            assert forall|x: Seq<char>| #[trigger] spec_tag_count(self.todos@, x) > 0 implies exists|
                j: int,
            | 0 <= j < r@.len() && (#[trigger] r@[j]).0@ == x by {
                let k2 = choose|k2: int|
                    0 <= k2 < keys@.len() && (#[trigger] keys@[k2])@ == x;
                assert((r@[k2]).0@ == x);
            }
        }
        r
    }

    /// A most-used tag of the open tasks and how often it occurs, if any task
    /// carries tags: no tag anywhere occurs more often.
    pub fn top_tag(&self) -> (r: Option<(String, u128)>)
        ensures
            match r {
                Some(t) => t.1 == spec_tag_count(self.todos@, t.0@) && t.1 >= 1 && forall|
                    x: Seq<char>,
                |
                    #[trigger] spec_tag_count(self.todos@, x) <= t.1 as int,
                None => forall|x: Seq<char>| #[trigger] spec_tag_count(self.todos@, x) <= 0,
            },
    {
        let counts = self.tag_counts();
        let n = counts.len();
        if n == 0 {
            proof {
                assert forall|x: Seq<char>| #[trigger] spec_tag_count(self.todos@, x) <= 0 by {
                    if spec_tag_count(self.todos@, x) > 0 {
                        let k = choose|k: int|
                            0 <= k < counts@.len() && (#[trigger] counts@[k]).0@ == x;
                        assert(false);
                    }
                }
            }
            return None;
        }
        let mut best: usize = 0;
        let mut i: usize = 1;
        while i < n
            invariant
                best < i <= n == counts@.len(),
                forall|j: int| 0 <= j < i ==> (#[trigger] counts@[j]).1 <= counts@[best as int].1,
            decreases n - i,
        {
            if counts[i].1 > counts[best].1 {
                best = i;
            }
            i = i + 1;
        }
        proof {
            assert forall|x: Seq<char>| #[trigger] spec_tag_count(self.todos@, x)
                <= counts@[best as int].1 as int by {
                if spec_tag_count(self.todos@, x) > 0 {
                    let k = choose|k: int|
                        0 <= k < counts@.len() && (#[trigger] counts@[k]).0@ == x;
                    assert(counts@[k].1 == spec_tag_count(self.todos@, x));
                }
            }
        }
        let (tag, count) = &counts[best];
        Some((tag.clone(), *count))
    }

    /// Positions of the open tasks that belong to the given project, compared
    /// ignoring ASCII case, in store order.
    pub fn project_todos(&self, project: &str) -> (r: Vec<usize>)
        ensures
            forall|k: int|
                0 <= k < r@.len() ==> #[trigger] r@[k] < self.todos@.len()
                    && !self.todos@[r@[k] as int].done && match self.todos@[r@[k] as int].project {
                    Some(p) => crate::text::eq_ignore_case(p@, project@),
                    None => false,
                },
            forall|k1: int, k2: int| 0 <= k1 < k2 < r@.len() ==> r@[k1] < r@[k2],
            forall|j: int|
                0 <= j < self.todos@.len() && !(#[trigger] self.todos@[j]).done && match self.todos@[j].project {
                    Some(p) => crate::text::eq_ignore_case(p@, project@),
                    None => false,
                } ==> exists|k: int| 0 <= k < r@.len() && r@[k] == j,
    {
        let n = self.todos.len();
        let mut r: Vec<usize> = Vec::new();
        let mut i: usize = 0;
        while i < n
            invariant
                i <= n == self.todos@.len(),
                forall|k: int|
                    0 <= k < r@.len() ==> #[trigger] r@[k] < i && !self.todos@[r@[k] as int].done
                        && match self.todos@[r@[k] as int].project {
                        Some(p) => crate::text::eq_ignore_case(p@, project@),
                        None => false,
                    },
                forall|k1: int, k2: int| 0 <= k1 < k2 < r@.len() ==> r@[k1] < r@[k2],
                forall|j: int|
                    0 <= j < i && !(#[trigger] self.todos@[j]).done && match self.todos@[j].project {
                        Some(p) => crate::text::eq_ignore_case(p@, project@),
                        None => false,
                    } ==> exists|k: int| 0 <= k < r@.len() && r@[k] == j,
            decreases n - i,
        {
            if !self.todos[i].done && self.todos[i].in_project(project) {
                let ghost old_r = r@;
                r.push(i);
                proof {
                    assert forall|j: int|
                        0 <= j < i + 1 && !(#[trigger] self.todos@[j]).done
                            && match self.todos@[j].project {
                            Some(p) => crate::text::eq_ignore_case(p@, project@),
                            None => false,
                        } implies exists|k: int| 0 <= k < r@.len() && r@[k] == j by {
                        if j == i {
                            assert(r@[old_r.len() as int] == i);
                        } else {
                            let k = choose|k: int| 0 <= k < old_r.len() && old_r[k] == j;
                            assert(r@[k] == j);
                        }
                    }
                }
            }
            i = i + 1;
        }
        r
    }

    /// How often the given tag occurs across the open tasks.
    fn tag_count_of(&self, tag: &String) -> (r: u128)
        ensures
            r == spec_tag_count(self.todos@, tag@),
    {
        let n = self.todos.len();
        let mut count: u128 = 0;
        proof {
            assert(self.todos@.take(0) =~= Seq::<Todo>::empty());
        }
        let mut i: usize = 0;
        while i < n
            invariant
                i <= n == self.todos@.len(),
                count == tag_count_upto(self.todos@, i as int, 0, tag@),
                count <= (i as int) * (usize::MAX as int),
            decreases n - i,
        {
            let t = &self.todos[i];
            if !t.done {
                let m = t.tags.len();
                let mut j: usize = 0;
                while j < m
                    invariant
                        j <= m == self.todos@[i as int].tags@.len(),
                        i < n == self.todos@.len(),
                        !self.todos@[i as int].done,
                        *t == self.todos@[i as int],
                        count == tag_count_upto(self.todos@, i as int, j as int, tag@),
                        count <= (i as int) * (usize::MAX as int) + j,
                    decreases m - j,
                {
                    proof {
                        lemma_tag_count_upto_step(self.todos@, i as int, j as int);
                        assert((i as int) * (usize::MAX as int) <= (usize::MAX as int - 1) * (
                        usize::MAX as int)) by (nonlinear_arith)
                            requires
                                0 <= i < usize::MAX as int || i < n <= usize::MAX as int,
                        ;
                    }
                    if t.tags[j] == *tag {
                        count = count + 1;
                    }
                    j = j + 1;
                }
                proof {
                    lemma_tag_count_upto_next(self.todos@, i as int);
                    assert((i as int) * (usize::MAX as int) + (usize::MAX as int) == (i + 1) * (
                    usize::MAX as int)) by (nonlinear_arith);
                }
            } else {
                proof {
                    lemma_tag_count_upto_next(self.todos@, i as int);
                    assert((i as int) * (usize::MAX as int) + (usize::MAX as int) == (i + 1) * (
                    usize::MAX as int)) by (nonlinear_arith);
                }
            }
            i = i + 1;
        }
        proof {
            assert(self.todos@.take(n as int) =~= self.todos@);
        }
        count
    }

    /// Positions of the tasks whose `done` flag has the given value.
    fn indices_where(&self, done: bool) -> (r: Vec<usize>)
        ensures
            forall|k: int|
                0 <= k < r@.len() ==> #[trigger] r@[k] < self.todos@.len()
                    && self.todos@[r@[k] as int].done == done,
            forall|k1: int, k2: int| 0 <= k1 < k2 < r@.len() ==> r@[k1] < r@[k2],
            forall|j: int|
                0 <= j < self.todos@.len() && (#[trigger] self.todos@[j]).done == done ==> exists|
                    k: int,
                | 0 <= k < r@.len() && r@[k] == j,
    {
        let n = self.todos.len();
        let mut r: Vec<usize> = Vec::new();
        let mut i: usize = 0;
        while i < n
            invariant
                i <= n == self.todos@.len(),
                forall|k: int|
                    0 <= k < r@.len() ==> #[trigger] r@[k] < i && self.todos@[r@[k] as int].done
                        == done,
                forall|k1: int, k2: int| 0 <= k1 < k2 < r@.len() ==> r@[k1] < r@[k2],
                forall|j: int|
                    0 <= j < i && (#[trigger] self.todos@[j]).done == done ==> exists|k: int|
                        0 <= k < r@.len() && r@[k] == j,
            decreases n - i,
        {
            if self.todos[i].done == done {
                let ghost old_r = r@;
                r.push(i);
                proof {
                    assert forall|j: int|
                        0 <= j < i + 1 && (#[trigger] self.todos@[j]).done == done implies exists|
                        k: int,
                    | 0 <= k < r@.len() && r@[k] == j by {
                        if j == i {
                            assert(r@[old_r.len() as int] == i);
                        } else {
                            let k = choose|k: int| 0 <= k < old_r.len() && old_r[k] == j;
                            assert(r@[k] == j);
                        }
                    }
                }
            }
            i = i + 1;
        }
        r
    }
}

} // verus!
