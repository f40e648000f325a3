//! Selecting and ordering task rows: the list filters, the three sort keys,
//! and the buckets of the daily overview.

use vstd::prelude::*;

use crate::cli::SortBy;
use crate::instant::Instant;
use crate::store::Store;
use crate::todo::{spec_has_tag, Todo};

verus! {

/// Which tasks a listing shows.
#[derive(Clone, Copy, PartialEq, Eq, Structural, Debug)]
pub enum Filter {
    Open,
    All,
    Today,
    Week,
    Overdue,
}

/// Whether one task passes the filter against "now".
pub open spec fn spec_passes_filter(t: Todo, f: Filter, now: Instant) -> bool {
    match f {
        Filter::Open => !t.done,
        Filter::All => true,
        Filter::Today => !t.done && match t.deadline {
            Some(d) => d.same_date(now),
            None => false,
        },
        Filter::Week => !t.done && match t.deadline {
            Some(d) => 0 <= d.day_index() - now.day_index() <= 7,
            None => false,
        },
        Filter::Overdue => !t.done && match t.deadline {
            Some(d) => d.minute_index() < now.minute_index(),
            None => false,
        },
    }
}

/// Whether the task carries every tag in `tag_filters`, ignoring ASCII case.
pub open spec fn spec_has_all_tags(t: Todo, tag_filters: Seq<String>) -> bool {
    forall|k: int|
        0 <= k < tag_filters.len() ==> spec_has_tag(t.tags@, #[trigger] tag_filters[k]@)
}

fn passes_filter(t: &Todo, f: &Filter, now: &Instant) -> (r: bool)
    requires
        t.wf(),
        now.wf(),
    ensures
        r == spec_passes_filter(*t, *f, *now),
{
    match f {
        Filter::Open => !t.done,
        Filter::All => true,
        Filter::Today => !t.done && match &t.deadline {
            Some(d) => crate::format::is_due_today(d, now),
            None => false,
        },
        Filter::Week => !t.done && match &t.deadline {
            Some(d) => crate::format::is_due_this_week(d, now),
            None => false,
        },
        Filter::Overdue => t.is_overdue(now),
    }
}

fn has_all_tags(t: &Todo, tag_filters: &Vec<String>) -> (r: bool)
    ensures
        r == spec_has_all_tags(*t, tag_filters@),
{
    let n = tag_filters.len();
    let mut k: usize = 0;
    while k < n
        invariant
            k <= n == tag_filters@.len(),
            forall|j: int| 0 <= j < k ==> spec_has_tag(t.tags@, #[trigger] tag_filters@[j]@),
        decreases n - k,
    {
        if !t.has_tag(tag_filters[k].as_str()) {
            return false;
        }
        k = k + 1;
    }
    true
}

/// Positions of the tasks that pass the filter and carry every asked-for
/// tag, in store order.
pub fn filter_todos(store: &Store, f: &Filter, now: &Instant, tag_filters: &Vec<String>) -> (r: Vec<
    usize,
>)
    requires
        now.wf(),
        forall|i: int| 0 <= i < store.todos@.len() ==> (#[trigger] store.todos@[i]).wf(),
    ensures
        forall|k: int|
            0 <= k < r@.len() ==> #[trigger] r@[k] < store.todos@.len() && spec_passes_filter(
                store.todos@[r@[k] as int],
                *f,
                *now,
            ) && spec_has_all_tags(store.todos@[r@[k] as int], tag_filters@),
        forall|k1: int, k2: int| 0 <= k1 < k2 < r@.len() ==> r@[k1] < r@[k2],
        forall|j: int|
            0 <= j < store.todos@.len() && spec_passes_filter(
                #[trigger] store.todos@[j],
                *f,
                *now,
            ) && spec_has_all_tags(store.todos@[j], tag_filters@) ==> exists|k: int|
                0 <= k < r@.len() && r@[k] == j,
{
    let n = store.todos.len();
    let mut r: Vec<usize> = Vec::new();
    let mut i: usize = 0;
    while i < n
        invariant
            i <= n == store.todos@.len(),
            now.wf(),
            forall|t: int| 0 <= t < store.todos@.len() ==> (#[trigger] store.todos@[t]).wf(),
            forall|k: int|
                0 <= k < r@.len() ==> #[trigger] r@[k] < i && spec_passes_filter(
                    store.todos@[r@[k] as int],
                    *f,
                    *now,
                ) && spec_has_all_tags(store.todos@[r@[k] as int], tag_filters@),
            forall|k1: int, k2: int| 0 <= k1 < k2 < r@.len() ==> r@[k1] < r@[k2],
            forall|j: int|
                0 <= j < i && spec_passes_filter(#[trigger] store.todos@[j], *f, *now)
                    && spec_has_all_tags(store.todos@[j], tag_filters@) ==> exists|k: int|
                    0 <= k < r@.len() && r@[k] == j,
        decreases n - i,
    {
        if passes_filter(&store.todos[i], f, now) && has_all_tags(&store.todos[i], tag_filters) {
            let ghost old_r = r@;
            r.push(i);
            proof {
                assert forall|j: int|
                    0 <= j < i + 1 && spec_passes_filter(#[trigger] store.todos@[j], *f, *now)
                        && spec_has_all_tags(store.todos@[j], tag_filters@) implies exists|k: int|
                    0 <= k < r@.len() && r@[k] == j by {
                    if j == i {
                        assert(r@[old_r.len() as int] == i);
                    } else {
                        let k = choose|k: int| 0 <= k < old_r.len() && old_r[k] == j;
                        assert(r@[k] == j);
                    }
                }
            }
        }
        i = i + 1;
    }
    r
}

/// The rank a priority sorts under: explicit priorities first, none last.
pub open spec fn prio_rank(p: Option<u8>) -> int {
    match p {
        Some(v) => v as int,
        None => 99,
    }
}

/// The order rows are listed in, between store positions `a` and `b`: the
/// sort key, then task id or store position, so that equal keys keep store
/// order.
pub open spec fn sort_le(todos: Seq<Todo>, by: SortBy, a: int, b: int) -> bool {
    let ta = todos[a];
    let tb = todos[b];
    match by {
        SortBy::Priority => {
            let pa = prio_rank(ta.priority);
            let pb = prio_rank(tb.priority);
            pa < pb || (pa == pb && (ta.id < tb.id || (ta.id == tb.id && a <= b)))
        },
        SortBy::Time => match (ta.deadline, tb.deadline) {
            (Some(da), Some(db)) => da.minute_index() < db.minute_index() || (da.minute_index()
                == db.minute_index() && a <= b),
            (Some(_), None) => true,
            (None, Some(_)) => false,
            (None, None) => ta.id < tb.id || (ta.id == tb.id && a <= b),
        },
        SortBy::Created => ta.created_at.minute_index() < tb.created_at.minute_index() || (
        ta.created_at.minute_index() == tb.created_at.minute_index() && a <= b),
    }
}

/// `sort_le` relates every pair of positions, one way or the other.
pub proof fn lemma_sort_le_total(todos: Seq<Todo>, by: SortBy, a: int, b: int)
    ensures
        sort_le(todos, by, a, b) || sort_le(todos, by, b, a),
{
}

/// `sort_le` is transitive.
pub proof fn lemma_sort_le_trans(todos: Seq<Todo>, by: SortBy, a: int, b: int, c: int)
    requires
        sort_le(todos, by, a, b),
        sort_le(todos, by, b, c),
    ensures
        sort_le(todos, by, a, c),
{
}

fn le_x(store: &Store, by: &SortBy, a: usize, b: usize) -> (r: bool)
    requires
        a < store.todos@.len(),
        b < store.todos@.len(),
        store.todos@[a as int].wf(),
        store.todos@[b as int].wf(),
    ensures
        r == sort_le(store.todos@, *by, a as int, b as int),
{
    let ta = &store.todos[a];
    let tb = &store.todos[b];
    match by {
        SortBy::Priority => {
            let pa: u32 = match ta.priority {
                Some(v) => v as u32,
                None => 99,
            };
            let pb: u32 = match tb.priority {
                Some(v) => v as u32,
                None => 99,
            };
            pa < pb || (pa == pb && (ta.id < tb.id || (ta.id == tb.id && a <= b)))
        },
        SortBy::Time => match (&ta.deadline, &tb.deadline) {
            (Some(da), Some(db)) => {
                let ma = da.minute_index_x();
                let mb = db.minute_index_x();
                ma < mb || (ma == mb && a <= b)
            },
            (Some(_), None) => true,
            (None, Some(_)) => false,
            (None, None) => ta.id < tb.id || (ta.id == tb.id && a <= b),
        },
        SortBy::Created => {
            let ma = ta.created_at.minute_index_x();
            let mb = tb.created_at.minute_index_x();
            ma < mb || (ma == mb && a <= b)
        },
    }
}

/// Order the given store positions for listing: by the chosen key, equal
/// keys keeping store order. The result holds exactly the given positions.
pub fn sort_indices(store: &Store, idxs: &Vec<usize>, by: &SortBy) -> (r: Vec<usize>)
    requires
        forall|k: int| 0 <= k < idxs@.len() ==> #[trigger] idxs@[k] < store.todos@.len(),
        forall|i: int| 0 <= i < store.todos@.len() ==> (#[trigger] store.todos@[i]).wf(),
    ensures
        r@.to_multiset() == idxs@.to_multiset(),
        r@.len() == idxs@.len(),
        forall|k: int| 0 <= k < r@.len() ==> #[trigger] r@[k] < store.todos@.len(),
        forall|k1: int, k2: int|
            0 <= k1 < k2 < r@.len() ==> sort_le(store.todos@, *by, r@[k1] as int, r@[k2] as int),
{
    broadcast use vstd::seq_lib::group_to_multiset_ensures;

    let n = idxs.len();
    let mut r: Vec<usize> = Vec::new();
    proof {
        assert(idxs@.take(0) =~= Seq::<usize>::empty());
        assert(r@.to_multiset() =~= Seq::<usize>::empty().to_multiset());
    }
    let mut i: usize = 0;
    while i < n
        invariant
            i <= n == idxs@.len(),
            forall|k: int| 0 <= k < idxs@.len() ==> #[trigger] idxs@[k] < store.todos@.len(),
            forall|t: int| 0 <= t < store.todos@.len() ==> (#[trigger] store.todos@[t]).wf(),
            r@.to_multiset() == idxs@.take(i as int).to_multiset(),
            r@.len() == i,
            forall|k: int| 0 <= k < r@.len() ==> #[trigger] r@[k] < store.todos@.len(),
            forall|k1: int, k2: int|
                0 <= k1 < k2 < r@.len() ==> sort_le(
                    store.todos@,
                    *by,
                    r@[k1] as int,
                    r@[k2] as int,
                ),
        decreases n - i,
    {
        broadcast use vstd::seq_lib::group_to_multiset_ensures;

        let x = idxs[i];
        let mut j: usize = 0;
        while j < r.len() && le_x(store, by, r[j], x)
            invariant
                j <= r@.len(),
                x < store.todos@.len(),
                forall|k: int| 0 <= k < r@.len() ==> #[trigger] r@[k] < store.todos@.len(),
                forall|t: int| 0 <= t < store.todos@.len() ==> (#[trigger] store.todos@[t]).wf(),
                forall|k: int| 0 <= k < j ==> sort_le(store.todos@, *by, r@[k] as int, x as int),
            decreases r@.len() - j,
        {
            j = j + 1;
        }
        let ghost old_r = r@;
        proof {
            if j < r@.len() {
                lemma_sort_le_total(store.todos@, *by, r@[j as int] as int, x as int);
            }
        }
        r.insert(j, x);
        proof {
            vstd::seq_lib::to_multiset_insert(old_r, j as int, x);
            assert(idxs@.take(i + 1).drop_last() =~= idxs@.take(i as int));
            assert(idxs@.take(i + 1).last() == idxs@[i as int]);
            assert(idxs@.take(i + 1) == idxs@.take(i as int).push(idxs@[i as int]));
            assert forall|k1: int, k2: int| 0 <= k1 < k2 < r@.len() implies sort_le(
                store.todos@,
                *by,
                r@[k1] as int,
                r@[k2] as int,
            ) by {
                if k2 < j {
                } else if k1 < j && k2 == j {
                    assert(r@[k1] == old_r[k1]);
                } else if k1 < j && k2 > j {
                    assert(r@[k1] == old_r[k1] && r@[k2] == old_r[k2 - 1]);
                } else if k1 == j {
                    assert(r@[k2] == old_r[k2 - 1]);
                    lemma_sort_le_trans(
                        store.todos@,
                        *by,
                        x as int,
                        old_r[j as int] as int,
                        old_r[k2 - 1] as int,
                    );
                } else {
                    assert(r@[k1] == old_r[k1 - 1] && r@[k2] == old_r[k2 - 1]);
                }
            }
        }
        i = i + 1;
    }
    assert(idxs@.take(n as int) =~= idxs@);
    r
}

/// The order the project listing shows names in, between positions `a` and
/// `b` of the name list: lowercase lexicographic, names equal under
/// lowercasing keeping their given order.
pub open spec fn project_order_le(names: Seq<Seq<char>>, a: int, b: int) -> bool {
    let la = crate::text::lower_of(names[a]);
    let lb = crate::text::lower_of(names[b]);
    if crate::text::lex_le(la, lb) && !crate::text::lex_le(lb, la) {
        true
    } else if crate::text::lex_le(lb, la) && !crate::text::lex_le(la, lb) {
        false
    } else {
        a <= b
    }
}

pub proof fn lemma_project_order_total(names: Seq<Seq<char>>, a: int, b: int)
    ensures
        project_order_le(names, a, b) || project_order_le(names, b, a),
{
}

pub proof fn lemma_project_order_trans(names: Seq<Seq<char>>, a: int, b: int, c: int)
    requires
        project_order_le(names, a, b),
        project_order_le(names, b, c),
    ensures
        project_order_le(names, a, c),
{
    let la = crate::text::lower_of(names[a]);
    let lb = crate::text::lower_of(names[b]);
    let lc = crate::text::lower_of(names[c]);
    crate::text::lemma_lex_le_total(la, lb);
    crate::text::lemma_lex_le_total(lb, lc);
    crate::text::lemma_lex_le_total(la, lc);
    crate::text::lemma_lex_le_trans(la, lb, lc);
    crate::text::lemma_lex_le_trans(lc, lb, la);
    crate::text::lemma_lex_le_trans(lb, la, lc);
    crate::text::lemma_lex_le_trans(lc, la, lb);
    crate::text::lemma_lex_le_trans(la, lc, lb);
    crate::text::lemma_lex_le_trans(lb, lc, la);
}

fn project_order_le_x(counts: &Vec<(String, usize)>, a: usize, b: usize) -> (r: bool)
    requires
        a < counts@.len(),
        b < counts@.len(),
    ensures
        r == project_order_le(
            counts@.map_values(|p: (String, usize)| p.0@),
            a as int,
            b as int,
        ),
{
    proof {
        assert(counts@.map_values(|p: (String, usize)| p.0@)[a as int] == counts@[a as int].0@);
        assert(counts@.map_values(|p: (String, usize)| p.0@)[b as int] == counts@[b as int].0@);
    }
    let la = crate::text::lower_str(counts[a].0.as_str());
    let lb = crate::text::lower_str(counts[b].0.as_str());
    let ab = crate::text::lex_le_x(la.as_str(), lb.as_str());
    let ba = crate::text::lex_le_x(lb.as_str(), la.as_str());
    if ab && !ba {
        true
    } else if ba && !ab {
        false
    } else {
        a <= b
    }
}

/// The order to show the project listing in: positions into `counts`, sorted
/// by lowercase name, names equal under lowercasing keeping their given
/// order. Every position occurs exactly once.
pub fn sort_project_counts(counts: &Vec<(String, usize)>) -> (r: Vec<usize>)
    ensures
        r@.len() == counts@.len(),
        forall|k: int| 0 <= k < r@.len() ==> #[trigger] r@[k] < counts@.len(),
        forall|k1: int, k2: int| 0 <= k1 < k2 < r@.len() ==> r@[k1] != r@[k2],
        forall|j: int| 0 <= j < counts@.len() ==> r@.contains(#[trigger] (j as usize)),
        forall|k1: int, k2: int|
            0 <= k1 < k2 < r@.len() ==> project_order_le(
                counts@.map_values(|p: (String, usize)| p.0@),
                r@[k1] as int,
                r@[k2] as int,
            ),
{
    let ghost names = counts@.map_values(|p: (String, usize)| p.0@);
    let n = counts.len();
    let mut r: Vec<usize> = Vec::new();
    let mut i: usize = 0;
    while i < n
        invariant
            i <= n == counts@.len(),
            names == counts@.map_values(|p: (String, usize)| p.0@),
            r@.len() == i,
            forall|k: int| 0 <= k < r@.len() ==> #[trigger] r@[k] < i,
            forall|k1: int, k2: int| 0 <= k1 < k2 < r@.len() ==> r@[k1] != r@[k2],
            forall|j: int| 0 <= j < i ==> r@.contains(#[trigger] (j as usize)),
            forall|k1: int, k2: int|
                0 <= k1 < k2 < r@.len() ==> project_order_le(names, r@[k1] as int, r@[k2] as int),
        decreases n - i,
    {
        let mut j: usize = 0;
        while j < r.len() && project_order_le_x(counts, r[j], i)
            invariant
                j <= r@.len(),
                i < n == counts@.len(),
                names == counts@.map_values(|p: (String, usize)| p.0@),
                forall|k: int| 0 <= k < r@.len() ==> #[trigger] r@[k] < i,
                forall|k: int| 0 <= k < j ==> project_order_le(names, r@[k] as int, i as int),
            decreases r@.len() - j,
        {
            j = j + 1;
        }
        let ghost old_r = r@;
        proof {
            if j < r@.len() {
                lemma_project_order_total(names, r@[j as int] as int, i as int);
            }
        }
        r.insert(j, i);
        proof {
            assert forall|k1: int, k2: int| 0 <= k1 < k2 < r@.len() implies project_order_le(
                names,
                r@[k1] as int,
                r@[k2] as int,
            ) by {
                if k2 < j {
                } else if k1 < j && k2 == j {
                    assert(r@[k1] == old_r[k1]);
                } else if k1 < j && k2 > j {
                    assert(r@[k1] == old_r[k1] && r@[k2] == old_r[k2 - 1]);
                } else if k1 == j {
                    assert(r@[k2] == old_r[k2 - 1]);
                    lemma_project_order_trans(
                        names,
                        i as int,
                        old_r[j as int] as int,
                        old_r[k2 - 1] as int,
                    );
                } else {
                    assert(r@[k1] == old_r[k1 - 1] && r@[k2] == old_r[k2 - 1]);
                }
            }
            assert forall|j2: int| 0 <= j2 < i + 1 implies r@.contains(
                #[trigger] (j2 as usize),
            ) by {
                if j2 == i {
                    assert(r@[j as int] == j2 as usize);
                } else {
                    assert(old_r.contains(j2 as usize));
                    let k = choose|k: int| 0 <= k < old_r.len() && old_r[k] == j2 as usize;
                    if k < j {
                        assert(r@[k] == j2 as usize);
                    } else {
                        assert(r@[k + 1] == j2 as usize);
                    }
                }
            }
        }
        i = i + 1;
    }
    r
}

/// The bucket of the daily overview a task falls in: overdue; due today with
/// top priority; due today; top priority without any deadline; or none.
pub open spec fn spec_today_bucket(t: Todo, now: Instant) -> int {
    if t.done {
        -1
    } else if match t.deadline {
        Some(d) => d.minute_index() < now.minute_index(),
        None => false,
    } {
        0
    } else if match t.deadline {
        Some(d) => d.same_date(now),
        None => false,
    } {
        if t.priority == Some(1u8) {
            1
        } else {
            2
        }
    } else if t.priority == Some(1u8) && t.deadline is None {
        3
    } else {
        -1
    }
}

/// Positions of the open tasks in one bucket of the daily overview, in store
/// order.
pub fn today_bucket(store: &Store, now: &Instant, bucket: u8) -> (r: Vec<usize>)
    requires
        now.wf(),
        forall|i: int| 0 <= i < store.todos@.len() ==> (#[trigger] store.todos@[i]).wf(),
    ensures
        forall|k: int|
            0 <= k < r@.len() ==> #[trigger] r@[k] < store.todos@.len() && spec_today_bucket(
                store.todos@[r@[k] as int],
                *now,
            ) == bucket as int,
        forall|k1: int, k2: int| 0 <= k1 < k2 < r@.len() ==> r@[k1] < r@[k2],
        forall|j: int|
            0 <= j < store.todos@.len() && spec_today_bucket(#[trigger] store.todos@[j], *now)
                == bucket as int ==> exists|k: int| 0 <= k < r@.len() && r@[k] == j,
{
    let n = store.todos.len();
    let mut r: Vec<usize> = Vec::new();
    let mut i: usize = 0;
    while i < n
        invariant
            i <= n == store.todos@.len(),
            now.wf(),
            forall|t: int| 0 <= t < store.todos@.len() ==> (#[trigger] store.todos@[t]).wf(),
            forall|k: int|
                0 <= k < r@.len() ==> #[trigger] r@[k] < i && spec_today_bucket(
                    store.todos@[r@[k] as int],
                    *now,
                ) == bucket as int,
            forall|k1: int, k2: int| 0 <= k1 < k2 < r@.len() ==> r@[k1] < r@[k2],
            forall|j: int|
                0 <= j < i && spec_today_bucket(#[trigger] store.todos@[j], *now) == bucket as int
                    ==> exists|k: int| 0 <= k < r@.len() && r@[k] == j,
        decreases n - i,
    {
        let t = &store.todos[i];
        let b: i32 = if t.done {
            -1
        } else if t.is_overdue(now) {
            0
        } else if match &t.deadline {
            Some(d) => crate::format::is_due_today(d, now),
            None => false,
        } {
            if t.priority == Some(1u8) {
                1
            } else {
                2
            }
        } else if t.priority == Some(1u8) && t.deadline.is_none() {
            3
        } else {
            -1
        };
        assert(b as int == spec_today_bucket(store.todos@[i as int], *now));
        if b >= 0 && b as u8 == bucket {
            let ghost old_r = r@;
            r.push(i);
            proof {
                assert forall|j: int|
                    0 <= j < i + 1 && spec_today_bucket(#[trigger] store.todos@[j], *now)
                        == bucket as int implies exists|k: int| 0 <= k < r@.len() && r@[k] == j by {
                    if j == i {
                        assert(r@[old_r.len() as int] == i);
                    } else {
                        let k = choose|k: int| 0 <= k < old_r.len() && old_r[k] == j;
                        assert(r@[k] == j);
                    }
                }
            }
        }
        i = i + 1;
    }
    r
}

} // verus!
