use tsk::cli::{parse_project_from_text, parse_tag_modifications, parse_tags_from_text, Cli, SortBy};
use tsk::display::{format_project_todo, format_today_todo, format_todo, truncate, truncate_dots, DisplayConfig};
use tsk::instant::Instant;
use tsk::listing::{filter_todos, sort_indices, today_bucket, Filter};
use tsk::store::Store;
use tsk::todo::Todo;

fn at(year: u32, month: u32, day: u32, hour: u32, minute: u32) -> Instant {
    Instant { year, month, day, hour, minute }
}

fn words(parts: &[&str]) -> Vec<String> {
    parts.iter().map(|p| p.to_string()).collect()
}

#[test]
fn tags_from_text_splits_words() {
    let parts = words(&["buy", "milk", "+home", "-old", "@shop", "+urgent"]);
    let (text, tags) = parse_tags_from_text(&parts);
    assert_eq!(text, "buy milk");
    assert_eq!(tags, vec!["home".to_string(), "urgent".to_string()]);
}

#[test]
fn bare_markers_are_plain_text() {
    let parts = words(&["+", "-", "@", "note"]);
    let (text, tags) = parse_tags_from_text(&parts);
    assert_eq!(text, "+ - @ note");
    assert!(tags.is_empty());
}

#[test]
fn last_project_marker_wins() {
    let parts = words(&["fix", "@alpha", "roof", "@beta"]);
    assert_eq!(parse_project_from_text(&parts), Some("beta".to_string()));
    assert_eq!(parse_project_from_text(&words(&["no", "markers"])), None);
}

#[test]
fn tag_modifications_split_adds_and_removals() {
    let parts = words(&["+a", "-b", "words", "+c"]);
    let (add, remove) = parse_tag_modifications(&parts);
    assert_eq!(add, vec!["a".to_string(), "c".to_string()]);
    assert_eq!(remove, vec!["b".to_string()]);
}

#[test]
fn color_mode_flags() {
    let cli = Cli {
        command: None,
        sort_by: None,
        color: true,
        no_color: false,
        tags: Vec::new(),
        project: None,
    };
    assert_eq!(cli.get_color_mode(), Some(true));
    let cli = Cli { color: false, no_color: true, ..cli };
    assert_eq!(cli.get_color_mode(), Some(false));
    let cli = Cli { color: false, no_color: false, ..cli };
    assert_eq!(cli.get_color_mode(), None);
    let config = DisplayConfig::new(None, true);
    assert!(config.use_color);
    let config = DisplayConfig::new(Some(false), true);
    assert!(!config.use_color);
}

#[test]
fn store_assigns_ids_and_finds() {
    let mut store = Store::default();
    let now = at(2024, 6, 1, 8, 0);
    let id1 = store.add(Todo::new(0, "one".to_string(), now));
    let id2 = store.add(Todo::new(0, "two".to_string(), now));
    assert_eq!((id1, id2), (1, 2));
    assert_eq!(store.next_id, 3);
    assert_eq!(store.find_index(2), Some(1));
    assert_eq!(store.find_index(7), None);
}

#[test]
fn store_remove_keeps_order() {
    let mut store = Store::default();
    let now = at(2024, 6, 1, 8, 0);
    store.add(Todo::new(0, "one".to_string(), now));
    store.add(Todo::new(0, "two".to_string(), now));
    store.add(Todo::new(0, "three".to_string(), now));
    let removed = store.remove(2).unwrap();
    assert_eq!(removed.text, "two");
    assert_eq!(store.todos.len(), 2);
    assert_eq!(store.todos[0].text, "one");
    assert_eq!(store.todos[1].text, "three");
    assert!(store.remove(2).is_none());
}

#[test]
fn clear_completed_counts_and_keeps_open() {
    let mut store = Store::default();
    let now = at(2024, 6, 1, 8, 0);
    store.add(Todo::new(0, "a".to_string(), now));
    store.add(Todo::new(0, "b".to_string(), now));
    store.add(Todo::new(0, "c".to_string(), now));
    store.todos[0].mark_done(now);
    store.todos[2].mark_done(now);
    assert_eq!(store.clear_completed(), 2);
    assert_eq!(store.todos.len(), 1);
    assert_eq!(store.todos[0].text, "b");
    assert_eq!(store.clear_completed(), 0);
}

#[test]
fn open_and_completed_partitions() {
    let mut store = Store::default();
    let now = at(2024, 6, 1, 8, 0);
    store.add(Todo::new(0, "a".to_string(), now));
    store.add(Todo::new(0, "b".to_string(), now));
    store.todos[1].mark_done(now);
    assert_eq!(store.open_todos(), vec![0]);
    assert_eq!(store.completed_todos(), vec![1]);
}

#[test]
fn stats_counters() {
    let mut store = Store::default();
    let now = at(2024, 6, 10, 12, 0);
    store.add(Todo::new(0, "old done".to_string(), at(2024, 6, 1, 8, 0)));
    store.add(Todo::new(0, "fresh done".to_string(), at(2024, 6, 1, 8, 0)));
    store.add(Todo::new(0, "open early".to_string(), at(2024, 5, 1, 8, 0)));
    store.add(Todo::new(0, "open late".to_string(), at(2024, 5, 2, 8, 0)));
    store.todos[0].mark_done(at(2024, 6, 5, 9, 0));
    store.todos[1].mark_done(at(2024, 6, 10, 9, 0));
    assert_eq!(store.done_today_count(&now), 1);
    assert_eq!(store.done_week_count(&now), 2);
    assert_eq!(store.done_week_count(&at(2024, 6, 13, 12, 0)), 1);
    assert_eq!(store.oldest_open(), Some(2));
}

#[test]
fn tag_handling_ignores_ascii_case() {
    let now = at(2024, 6, 1, 8, 0);
    let mut t = Todo::new(1, "x".to_string(), now).with_tags(vec!["Home".to_string()]);
    assert!(t.has_tag("home"));
    assert!(t.has_tag("HOME"));
    assert!(!t.has_tag("work"));
    t.add_tag("hOmE".to_string());
    assert_eq!(t.tags.len(), 1);
    t.add_tag("work".to_string());
    assert_eq!(t.tags, vec!["Home".to_string(), "work".to_string()]);
    t.remove_tag("HOME");
    assert_eq!(t.tags, vec!["work".to_string()]);
}

#[test]
fn project_membership_ignores_ascii_case() {
    let now = at(2024, 6, 1, 8, 0);
    let t = Todo::new(1, "x".to_string(), now).with_project(Some("Work".to_string()));
    assert!(t.in_project("work"));
    assert!(!t.in_project("home"));
    let bare = Todo::new(2, "y".to_string(), now);
    assert!(!bare.in_project("work"));
}

#[test]
fn overdue_needs_open_task_and_past_deadline() {
    let now = at(2024, 6, 1, 12, 0);
    let t = Todo::new(1, "x".to_string(), now).with_deadline(Some(at(2024, 6, 1, 11, 0)));
    assert!(t.is_overdue(&now));
    let mut done = Todo::new(2, "y".to_string(), now).with_deadline(Some(at(2024, 6, 1, 11, 0)));
    done.mark_done(now);
    assert!(!done.is_overdue(&now));
    let future = Todo::new(3, "z".to_string(), now).with_deadline(Some(at(2024, 6, 1, 13, 0)));
    assert!(!future.is_overdue(&now));
    let none = Todo::new(4, "w".to_string(), now);
    assert!(!none.is_overdue(&now));
}

#[test]
fn priority_markers() {
    let now = at(2024, 6, 1, 8, 0);
    let t = Todo::new(1, "x".to_string(), now);
    assert_eq!(t.with_priority(Some(1)).priority_display(), "!!!");
    let t = Todo::new(1, "x".to_string(), now);
    assert_eq!(t.with_priority(Some(2)).priority_display(), "!! ");
    let t = Todo::new(1, "x".to_string(), now);
    assert_eq!(t.with_priority(Some(3)).priority_display(), "!  ");
    let t = Todo::new(1, "x".to_string(), now);
    assert_eq!(t.priority_display(), "   ");
}

fn sample_store(now: Instant) -> Store {
    let mut store = Store::default();
    store.add(
        Todo::new(0, "overdue".to_string(), now)
            .with_deadline(Some(at(2024, 6, 1, 9, 0)))
            .with_priority(Some(3)),
    );
    store.add(
        Todo::new(0, "today high".to_string(), now)
            .with_deadline(Some(at(2024, 6, 1, 18, 0)))
            .with_priority(Some(1)),
    );
    store.add(
        Todo::new(0, "today plain".to_string(), now).with_deadline(Some(at(2024, 6, 1, 20, 0))),
    );
    store.add(Todo::new(0, "high no deadline".to_string(), now).with_priority(Some(1)));
    store.add(
        Todo::new(0, "next week".to_string(), now).with_deadline(Some(at(2024, 6, 7, 9, 0))),
    );
    store.add(Todo::new(0, "tagged".to_string(), now).with_tags(vec!["home".to_string()]));
    store
}

#[test]
fn filters_select_the_right_rows() {
    let now = at(2024, 6, 1, 12, 0);
    let store = sample_store(now);
    let none: Vec<String> = Vec::new();
    assert_eq!(filter_todos(&store, &Filter::All, &now, &none), vec![0, 1, 2, 3, 4, 5]);
    assert_eq!(filter_todos(&store, &Filter::Open, &now, &none), vec![0, 1, 2, 3, 4, 5]);
    assert_eq!(filter_todos(&store, &Filter::Today, &now, &none), vec![0, 1, 2]);
    assert_eq!(filter_todos(&store, &Filter::Week, &now, &none), vec![0, 1, 2, 4]);
    assert_eq!(filter_todos(&store, &Filter::Overdue, &now, &none), vec![0]);
    let tags = vec!["HOME".to_string()];
    assert_eq!(filter_todos(&store, &Filter::Open, &now, &tags), vec![5]);
}

#[test]
fn sort_orders_rows() {
    let now = at(2024, 6, 1, 12, 0);
    let store = sample_store(now);
    let all: Vec<usize> = vec![0, 1, 2, 3, 4, 5];
    // priority: the two Some(1), then Some(3), then the unprioritized by id
    assert_eq!(sort_indices(&store, &all, &SortBy::Priority), vec![1, 3, 0, 2, 4, 5]);
    // time: deadlines ascending, tasks without a deadline last by id
    assert_eq!(sort_indices(&store, &all, &SortBy::Time), vec![0, 1, 2, 4, 3, 5]);
    // created: all equal here, store order kept
    assert_eq!(sort_indices(&store, &all, &SortBy::Created), vec![0, 1, 2, 3, 4, 5]);
}

#[test]
fn today_buckets_partition_the_overview() {
    let now = at(2024, 6, 1, 12, 0);
    let mut store = sample_store(now);
    store.todos[5].mark_done(now);
    assert_eq!(today_bucket(&store, &now, 0), vec![0]);
    assert_eq!(today_bucket(&store, &now, 1), vec![1]);
    assert_eq!(today_bucket(&store, &now, 2), vec![2]);
    assert_eq!(today_bucket(&store, &now, 3), vec![3]);
}

#[test]
fn project_counts_are_exact_and_distinct() {
    let now = at(2024, 6, 1, 8, 0);
    let mut store = Store::default();
    store.add(Todo::new(0, "a".to_string(), now).with_project(Some("work".to_string())));
    store.add(Todo::new(0, "b".to_string(), now).with_project(Some("home".to_string())));
    store.add(Todo::new(0, "c".to_string(), now).with_project(Some("work".to_string())));
    store.add(Todo::new(0, "d".to_string(), now));
    store.add(Todo::new(0, "e".to_string(), now).with_project(Some("work".to_string())));
    store.todos[4].mark_done(now);
    let counts = store.project_counts();
    assert_eq!(
        counts,
        vec![("work".to_string(), 2), ("home".to_string(), 1)]
    );
}

#[test]
fn tag_counts_count_occurrences_of_open_tasks() {
    let now = at(2024, 6, 1, 8, 0);
    let mut store = Store::default();
    store.add(
        Todo::new(0, "a".to_string(), now)
            .with_tags(vec!["home".to_string(), "urgent".to_string()]),
    );
    store.add(Todo::new(0, "b".to_string(), now).with_tags(vec!["home".to_string()]));
    store.add(Todo::new(0, "c".to_string(), now).with_tags(vec!["home".to_string()]));
    store.todos[2].mark_done(now);
    let counts = store.tag_counts();
    assert_eq!(
        counts,
        vec![("home".to_string(), 2u128), ("urgent".to_string(), 1u128)]
    );
}

#[test]
fn indented_rows_for_project_and_today_views() {
    let now = at(2024, 6, 1, 12, 0);
    let t = Todo::new(12, "water plants".to_string(), now)
        .with_priority(Some(1))
        .with_deadline(Some(at(2024, 6, 1, 18, 30)))
        .with_tags(vec!["garden".to_string()]);
    let expected = format!(
        "  {:>4} {}  {:<35}  {:<18}  {}",
        12, "!!!", "water plants", "today 6:30pm", "+garden"
    );
    assert_eq!(format_project_todo(&t, &now), expected);
    assert_eq!(format_today_todo(&t, &now), expected);
}

#[test]
fn top_tag_is_a_most_used_tag() {
    let now = at(2024, 6, 1, 8, 0);
    let mut store = Store::default();
    assert_eq!(store.top_tag(), None);
    store.add(
        Todo::new(0, "a".to_string(), now)
            .with_tags(vec!["home".to_string(), "urgent".to_string()]),
    );
    store.add(Todo::new(0, "b".to_string(), now).with_tags(vec!["home".to_string()]));
    assert_eq!(store.top_tag(), Some(("home".to_string(), 2u128)));
}

#[test]
fn project_todos_match_ignoring_ascii_case() {
    let now = at(2024, 6, 1, 8, 0);
    let mut store = Store::default();
    store.add(Todo::new(0, "a".to_string(), now).with_project(Some("Work".to_string())));
    store.add(Todo::new(0, "b".to_string(), now).with_project(Some("home".to_string())));
    store.add(Todo::new(0, "c".to_string(), now).with_project(Some("WORK".to_string())));
    store.todos[2].mark_done(now);
    assert_eq!(store.project_todos("work"), vec![0]);
    assert_eq!(store.project_todos("HOME"), vec![1]);
    assert_eq!(store.project_todos("none"), Vec::<usize>::new());
}

#[test]
fn project_listing_order_is_lowercase_alphabetical() {
    let counts: Vec<(String, usize)> = vec![
        ("zeta".to_string(), 1),
        ("Alpha".to_string(), 2),
        ("beta".to_string(), 3),
    ];
    assert_eq!(tsk::listing::sort_project_counts(&counts), vec![1, 2, 0]);
}

#[test]
fn age_phrases() {
    let now = at(2024, 6, 10, 12, 0);
    assert_eq!(tsk::format::format_age(&at(2024, 6, 1, 12, 0), &now), "9 days");
    assert_eq!(tsk::format::format_age(&at(2024, 6, 10, 9, 0), &now), "3 hours");
    assert_eq!(tsk::format::format_age(&at(2024, 6, 10, 11, 30), &now), "just now");
}

#[test]
fn truncate_keeps_short_text_and_cuts_long() {
    assert_eq!(truncate("hello", 35), "hello");
    let long = "abcdefghijklmnopqrstuvwxyz0123456789";
    assert_eq!(truncate(long, 35), format!("{}…", &long[..34]));
    assert_eq!(truncate_dots(long, 35), format!("{}...", &long[..34]));
}

#[test]
fn format_todo_builds_the_plain_row() {
    let now = at(2024, 6, 1, 12, 0);
    let t = Todo::new(1, "buy milk".to_string(), now)
        .with_priority(Some(2))
        .with_deadline(Some(at(2024, 6, 1, 15, 0)))
        .with_tags(vec!["home".to_string()])
        .with_project(Some("shop".to_string()));
    let row = format_todo(&t, &now);
    let expected = format!(
        "{} {:>3} {}  {:<35}  {:<18}  {}",
        " ", 1, "!! ", "buy milk", "today 3:00pm", "@shop +home"
    );
    assert_eq!(row, expected);
}

#[test]
fn format_todo_marks_done_rows() {
    let now = at(2024, 6, 1, 12, 0);
    let mut t = Todo::new(7, "ship".to_string(), now);
    t.mark_done(at(2024, 6, 1, 9, 0));
    let row = format_todo(&t, &now);
    let expected = format!(
        "{} {:>3} {}  {:<35}  {:<18}  {}",
        "✓", 7, "   ", "ship", "done 3h ago", ""
    );
    assert_eq!(row, expected);
}
