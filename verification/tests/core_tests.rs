use later::date::{DateMaybeTime, Moment, SimpleDate, SimpleTime, Urgency, parse_date, parse_time};
use later::lists::{Lists, ListsError, confirm_accepts};
use later::tree::{IndexError, ListItem, MoveError, TodoEntry, TodoList};
use later::DEFAULT_LIST;

fn d(year: i32, month: u8, day: u8) -> SimpleDate {
    SimpleDate { year, month, day }
}

fn entry(title: &str, date: Option<DateMaybeTime>) -> ListItem {
    ListItem::Entry(TodoEntry { title: title.to_string(), date })
}

fn titles(list: &TodoList) -> Vec<String> {
    let mut out = Vec::new();
    for i in 0..list.child_count() {
        out.push(match list.child_at(i) {
            ListItem::Entry(e) => e.title.clone(),
            ListItem::List(l) => l.title.clone(),
        });
    }
    out
}

fn assert_item_eq(a: &ListItem, b: &ListItem) {
    match (a, b) {
        (ListItem::Entry(x), ListItem::Entry(y)) => {
            assert_eq!(x.title, y.title);
            assert_eq!(x.date, y.date);
        }
        (ListItem::List(x), ListItem::List(y)) => assert_list_eq(x, y),
        _ => panic!("tree shapes differ"),
    }
}

fn assert_list_eq(a: &TodoList, b: &TodoList) {
    assert_eq!(a.title, b.title);
    assert_eq!(a.date, b.date);
    assert_eq!(a.child_count(), b.child_count());
    for i in 0..a.child_count() {
        assert_item_eq(a.child_at(i), b.child_at(i));
    }
}

fn sample_tree() -> TodoList {
    // to-do
    //   0) alpha
    //   1---> beta (promoted when "gamma" was added below it)
    //         0) gamma
    //         1) delta
    let mut root = TodoList::from_info("to-do".to_string(), None);
    root.add_item(entry("alpha", None), &[]).unwrap();
    root.add_item(entry("beta", None), &[]).unwrap();
    root.add_item(entry("gamma", None), &[1]).unwrap();
    root.add_item(entry("delta", None), &[1]).unwrap();
    root
}

#[test]
fn add_appends_at_empty_path() {
    let mut root = TodoList::from_info("t".to_string(), None);
    root.add_item(entry("a", None), &[]).unwrap();
    root.add_item(entry("b", None), &[]).unwrap();
    assert_eq!(titles(&root), vec!["a".to_string(), "b".to_string()]);
}

#[test]
fn add_too_big_fails() {
    let mut root = TodoList::from_info("t".to_string(), None);
    root.add_item(entry("a", None), &[]).unwrap();
    assert_eq!(root.add_item(entry("b", None), &[1]), Err(IndexError::TooBig));
    assert_eq!(titles(&root), vec!["a".to_string()]);
}

#[test]
fn add_through_entry_with_deep_path_fails() {
    let mut root = TodoList::from_info("t".to_string(), None);
    root.add_item(entry("a", None), &[]).unwrap();
    assert_eq!(
        root.add_item(entry("b", None), &[0, 0]),
        Err(IndexError::NotAList)
    );
}

#[test]
fn insert_at_level_length_appends() {
    // Inserting at path [2] into a 2-child level succeeds and the new
    // item comes last; an out-of-range explicit position fails.
    let mut root = TodoList::from_info("t".to_string(), None);
    root.add_item(entry("a", None), &[]).unwrap();
    root.add_item(entry("b", None), &[]).unwrap();
    assert_eq!(root.insert_item(entry("c", None), &[2]), Ok(()));
    assert_eq!(
        titles(&root),
        vec!["a".to_string(), "b".to_string(), "c".to_string()]
    );
    assert_eq!(
        root.insert_item(entry("d", None), &[4]),
        Err(IndexError::TooBig)
    );
    assert_eq!(root.child_count(), 3);
}

#[test]
fn insert_promotes_entry_to_sublist() {
    // Entry at [0]; inserting at [0, 0] promotes it to a sublist whose
    // sole child is the new item.
    let date = Some(DateMaybeTime::Date(d(2026, 10, 9)));
    let mut root = TodoList::from_info("t".to_string(), None);
    root.add_item(entry("leaf", date), &[]).unwrap();
    root.insert_item(entry("sub", None), &[0, 0]).unwrap();
    match root.child_at(0) {
        ListItem::List(l) => {
            assert_eq!(l.title, "leaf");
            assert_eq!(l.date, date);
            assert_eq!(l.child_count(), 1);
            match l.child_at(0) {
                ListItem::Entry(e) => assert_eq!(e.title, "sub"),
                _ => panic!("expected the inserted entry"),
            }
        }
        _ => panic!("expected a promoted sublist"),
    }
}

#[test]
fn remove_last_child_demotes_sublist() {
    // Sublist at [1] with exactly one child: removing [1, 0] returns
    // the child and demotes node [1] to an entry with the sublist's
    // title and date.
    let mut root = TodoList::from_info("t".to_string(), None);
    root.add_item(entry("a", None), &[]).unwrap();
    root.add_item(entry("holder", None), &[]).unwrap();
    root.add_item(entry("only", None), &[1]).unwrap();
    let removed = root.remove_item(&[1, 0]).unwrap();
    match &removed {
        ListItem::Entry(e) => assert_eq!(e.title, "only"),
        _ => panic!("expected the removed entry"),
    }
    match root.child_at(1) {
        ListItem::Entry(e) => {
            assert_eq!(e.title, "holder");
            assert_eq!(e.date, None);
        }
        _ => panic!("expected a demoted entry"),
    }
}

#[test]
fn remove_keeps_sublist_with_remaining_children() {
    let mut root = TodoList::from_info("t".to_string(), None);
    root.add_item(entry("holder", None), &[]).unwrap();
    root.add_item(entry("x", None), &[0]).unwrap();
    root.add_item(entry("y", None), &[0]).unwrap();
    root.remove_item(&[0, 0]).unwrap();
    match root.child_at(0) {
        ListItem::List(l) => {
            assert_eq!(l.child_count(), 1);
        }
        _ => panic!("sublist with one child left must stay a sublist"),
    }
}

#[test]
fn remove_errors() {
    let mut root = TodoList::from_info("t".to_string(), None);
    root.add_item(entry("a", None), &[]).unwrap();
    assert_eq!(root.remove_item(&[3]).unwrap_err(), IndexError::TooBig);
    assert_eq!(root.remove_item(&[0, 0]).unwrap_err(), IndexError::NotAList);
}

#[test]
fn remove_then_insert_restores_tree() {
    // The round trip at every path of a nested tree, demotion and
    // promotion included.
    for path in [vec![0], vec![1], vec![1, 0], vec![1, 1]] {
        let mut root = sample_tree();
        let expected = sample_tree();
        let removed = root.remove_item(&path).unwrap();
        root.insert_item(removed, &path).unwrap();
        assert_list_eq(&root, &expected);
    }
}

#[test]
fn move_item_moves() {
    let mut root = TodoList::from_info("t".to_string(), None);
    root.add_item(entry("a", None), &[]).unwrap();
    root.add_item(entry("b", None), &[]).unwrap();
    root.move_item(&[0], &[1]).unwrap();
    assert_eq!(titles(&root), vec!["b".to_string(), "a".to_string()]);
}

#[test]
fn move_item_restores_on_bad_destination() {
    let mut root = sample_tree();
    let expected = sample_tree();
    assert_eq!(root.move_item(&[1, 0], &[9]), Err(MoveError::MoveFailed));
    assert_list_eq(&root, &expected);
    assert_eq!(
        root.move_item(&[7], &[0]),
        Err(MoveError::BadSource(IndexError::TooBig))
    );
    assert_list_eq(&root, &expected);
}

#[test]
fn sort_orders_by_date_undated_last() {
    let day = |n: u8| Some(DateMaybeTime::Date(d(2026, 10, n)));
    let mut root = TodoList::from_info("t".to_string(), None);
    root.add_item(entry("undated-1", None), &[]).unwrap();
    root.add_item(entry("late", day(20)), &[]).unwrap();
    root.add_item(entry("undated-2", None), &[]).unwrap();
    root.add_item(entry("early", day(3)), &[]).unwrap();
    root.sort();
    assert_eq!(
        titles(&root),
        vec![
            "early".to_string(),
            "late".to_string(),
            "undated-1".to_string(),
            "undated-2".to_string(),
        ]
    );
}

#[test]
fn sort_is_stable_and_idempotent() {
    let day = |n: u8| Some(DateMaybeTime::Date(d(2026, 10, n)));
    let mut root = TodoList::from_info("t".to_string(), None);
    root.add_item(entry("tie-1", day(5)), &[]).unwrap();
    root.add_item(entry("first", day(1)), &[]).unwrap();
    root.add_item(entry("tie-2", day(5)), &[]).unwrap();
    root.sort();
    let once = titles(&root);
    assert_eq!(
        once,
        vec!["first".to_string(), "tie-1".to_string(), "tie-2".to_string()]
    );
    root.sort();
    assert_eq!(titles(&root), once);
}

#[test]
fn sort_recurses_into_sublists() {
    let day = |n: u8| Some(DateMaybeTime::Date(d(2026, 10, n)));
    let mut root = TodoList::from_info("t".to_string(), None);
    root.add_item(entry("holder", None), &[]).unwrap();
    root.add_item(entry("z", day(9)), &[0]).unwrap();
    root.add_item(entry("a", day(2)), &[0]).unwrap();
    root.sort();
    match root.child_at(0) {
        ListItem::List(l) => {
            assert_eq!(titles(l), vec!["a".to_string(), "z".to_string()]);
        }
        _ => panic!("expected the sublist"),
    }
}

#[test]
fn date_time_ordering_in_sort() {
    let mut root = TodoList::from_info("t".to_string(), None);
    let plain = Some(DateMaybeTime::Date(d(2026, 10, 9)));
    let with_time = Some(DateMaybeTime::DateTime(
        d(2026, 10, 9),
        SimpleTime { hour: 8, minute: 0 },
    ));
    root.add_item(entry("timed", with_time), &[]).unwrap();
    root.add_item(entry("plain", plain), &[]).unwrap();
    root.sort();
    // a plain date sorts before a date-time of the same day
    assert_eq!(titles(&root), vec!["plain".to_string(), "timed".to_string()]);
}

#[test]
fn describe_adjacent_days() {
    let today = d(2026, 10, 9);
    assert_eq!(
        DateMaybeTime::Date(d(2026, 10, 10)).describe(&today),
        "Tomorrow"
    );
    assert_eq!(DateMaybeTime::Date(d(2026, 10, 9)).describe(&today), "Today");
    assert_eq!(
        DateMaybeTime::Date(d(2026, 10, 8)).describe(&today),
        "Yesterday"
    );
}

#[test]
fn describe_within_a_week_uses_weekday() {
    // 2026-10-09 is a Friday; three days on is a Monday.
    let today = d(2026, 10, 9);
    assert_eq!(
        DateMaybeTime::Date(d(2026, 10, 12)).describe(&today),
        "upcoming Monday"
    );
    assert_eq!(
        DateMaybeTime::Date(d(2026, 10, 6)).describe(&today),
        "recent Tuesday"
    );
}

#[test]
fn describe_beyond_a_week_uses_month_and_day() {
    let today = d(2026, 10, 9);
    // ten days on is beyond the weekday window, under two weeks
    assert_eq!(
        DateMaybeTime::Date(d(2026, 10, 19)).describe(&today),
        "October 19; in 10 days"
    );
    // twenty days on switches to week granularity
    assert_eq!(
        DateMaybeTime::Date(d(2026, 10, 29)).describe(&today),
        "October 29; in 2 weeks"
    );
    assert_eq!(
        DateMaybeTime::Date(d(2026, 8, 30)).describe(&today),
        "August 30; 5 weeks ago"
    );
    // another year appends it
    assert_eq!(
        DateMaybeTime::Date(d(2027, 1, 5)).describe(&today),
        "January 05 2027; in 12 weeks"
    );
}

#[test]
fn describe_with_time_of_day() {
    let today = d(2026, 10, 9);
    assert_eq!(
        DateMaybeTime::DateTime(d(2026, 10, 10), SimpleTime { hour: 13, minute: 45 })
            .describe(&today),
        "Tomorrow, 13:45pm"
    );
    assert_eq!(
        DateMaybeTime::DateTime(d(2026, 10, 19), SimpleTime { hour: 9, minute: 5 })
            .describe(&today),
        "October 19, 09:05am; in 10 days"
    );
}

#[test]
fn date_and_time_strings() {
    let v = DateMaybeTime::DateTime(d(2026, 10, 9), SimpleTime { hour: 7, minute: 5 });
    assert_eq!(v.date_string(), "2026/10/09");
    assert_eq!(v.time_string(), "07:05");
    let p = DateMaybeTime::Date(d(987, 1, 31));
    assert_eq!(p.date_string(), "0987/01/31");
    assert_eq!(p.time_string(), "");
}

#[test]
fn printed_dates_parse_back() {
    for date in [d(2026, 10, 9), d(2024, 2, 29), d(0, 1, 1), d(9999, 12, 31)] {
        let printed = DateMaybeTime::Date(date).date_string();
        assert_eq!(parse_date(&printed), Some(date));
    }
}

#[test]
fn parse_date_accepts_and_rejects() {
    assert_eq!(parse_date("2026/10/09"), Some(d(2026, 10, 9)));
    assert_eq!(parse_date("2024/02/29"), Some(d(2024, 2, 29)));
    assert_eq!(parse_date("2023/02/29"), None);
    assert_eq!(parse_date("2026/13/01"), None);
    assert_eq!(parse_date("2026/00/10"), None);
    assert_eq!(parse_date("2026-10-09"), None);
    assert_eq!(parse_date("26/10/09"), None);
    assert_eq!(parse_date(""), None);
}

#[test]
fn parse_time_accepts_and_rejects() {
    assert_eq!(parse_time("00:00"), Some(SimpleTime { hour: 0, minute: 0 }));
    assert_eq!(parse_time("23:59"), Some(SimpleTime { hour: 23, minute: 59 }));
    assert_eq!(parse_time("24:00"), None);
    assert_eq!(parse_time("12:60"), None);
    assert_eq!(parse_time("1200"), None);
    assert_eq!(parse_time(""), None);
}

#[test]
fn from_parts_combines() {
    let day = d(2026, 10, 9);
    let t = SimpleTime { hour: 6, minute: 30 };
    assert_eq!(DateMaybeTime::from_parts(None, None), None);
    assert_eq!(
        DateMaybeTime::from_parts(Some(day), None),
        Some(DateMaybeTime::Date(day))
    );
    assert_eq!(
        DateMaybeTime::from_parts(Some(day), Some(t)),
        Some(DateMaybeTime::DateTime(day, t))
    );
    match DateMaybeTime::from_parts(None, Some(t)) {
        Some(DateMaybeTime::DateTime(_, got)) => assert_eq!(got, t),
        other => panic!("expected a date-time, got {:?}", other),
    }
}

#[test]
fn urgency_classification() {
    let now = Moment { date: d(2026, 10, 9), secs: 12 * 3600 };
    assert_eq!(
        DateMaybeTime::Date(d(2026, 10, 8)).urgency_at(&now),
        Urgency::Overdue
    );
    assert_eq!(
        DateMaybeTime::Date(d(2026, 10, 9)).urgency_at(&now),
        Urgency::DueSoon
    );
    assert_eq!(
        DateMaybeTime::Date(d(2026, 10, 10)).urgency_at(&now),
        Urgency::Upcoming
    );
    // a deadline earlier the same day is overdue, one within a day is
    // due soon, a later one upcoming
    let hm = |hour, minute| SimpleTime { hour, minute };
    assert_eq!(
        DateMaybeTime::DateTime(d(2026, 10, 9), hm(11, 0)).urgency_at(&now),
        Urgency::Overdue
    );
    assert_eq!(
        DateMaybeTime::DateTime(d(2026, 10, 9), hm(13, 0)).urgency_at(&now),
        Urgency::DueSoon
    );
    assert_eq!(
        DateMaybeTime::DateTime(d(2026, 10, 10), hm(13, 0)).urgency_at(&now),
        Urgency::Upcoming
    );
}

#[test]
fn default_list_has_greeting() {
    let list = TodoList::default();
    assert_eq!(list.title, DEFAULT_LIST);
    assert_eq!(list.date, None);
    assert_eq!(list.child_count(), 1);
    match list.child_at(0) {
        ListItem::Entry(e) => {
            assert_eq!(e.title, "Hello, world!");
            assert!(matches!(e.date, Some(DateMaybeTime::DateTime(_, _))));
        }
        _ => panic!("expected the greeting entry"),
    }
}

#[test]
fn lists_add_remove_and_default_protection() {
    let mut lists = Lists::new();
    lists.ensure_default();
    assert_eq!(lists.len(), 1);
    lists.ensure_default();
    assert_eq!(lists.len(), 1);
    assert_eq!(lists.add_list("work".to_string(), None), Ok(()));
    assert_eq!(
        lists.add_list("work".to_string(), None),
        Err(ListsError::DuplicateName)
    );
    assert_eq!(
        lists.remove_list(DEFAULT_LIST).unwrap_err(),
        ListsError::ReservedName
    );
    assert_eq!(lists.remove_list("home").unwrap_err(), ListsError::NotFound);
    let removed = lists.remove_list("work").unwrap();
    assert_eq!(removed.title, "work");
    assert_eq!(lists.len(), 1);
    assert!(lists.find("work").is_none());
    assert!(lists.find(DEFAULT_LIST).is_some());
}

#[test]
fn clock_based_entry_points_produce_output() {
    // these run against the real clock, so only shape is checked
    let v = DateMaybeTime::Date(d(2026, 10, 9));
    assert!(!v.to_string().is_empty());
    v.urgency();
    let mut out = String::new();
    TodoEntry { title: "x".to_string(), date: Some(v) }.write_to(&mut out);
    assert!(out.starts_with('x'));
    let list = TodoList::default();
    let mut shown = String::new();
    list.write_to(&mut shown, 0);
    assert!(shown.contains("to-do"));
    assert!(shown.contains("Hello, world!"));
    let mut header = String::new();
    list.write_header(&mut header);
    assert!(header.contains("to-do"));
}

#[test]
fn rename_list_keeps_place_and_children() {
    let mut lists = Lists::new();
    lists.ensure_default();
    lists.add_list("a".to_string(), None).unwrap();
    lists.add_list("b".to_string(), None).unwrap();
    let i = lists.find("a").unwrap();
    let mut tree = TodoList::from_info("a".to_string(), None);
    tree.add_item(entry("kept", None), &[]).unwrap();
    lists.set_list(i, tree);

    let date = Some(DateMaybeTime::Date(d(2026, 11, 1)));
    lists.rename_list("a", "c".to_string(), date).unwrap();
    let j = lists.find("c").unwrap();
    assert_eq!(i, j);
    let renamed = lists.at(j);
    assert_eq!(renamed.list.title, "c");
    assert_eq!(renamed.list.date, date);
    assert_eq!(titles(&renamed.list), vec!["kept".to_string()]);

    assert_eq!(
        lists.rename_list("c", "b".to_string(), None),
        Err(ListsError::DuplicateName)
    );
    assert_eq!(
        lists.rename_list("zz", "yy".to_string(), None),
        Err(ListsError::NotFound)
    );
    // only removal of the reserved list is protected; renaming works
    lists.rename_list(DEFAULT_LIST, "home".to_string(), None).unwrap();
    assert!(lists.find(DEFAULT_LIST).is_none());
    assert!(lists.find("home").is_some());
}

#[test]
fn remove_list_leaves_the_others_in_order() {
    let mut lists = Lists::new();
    lists.ensure_default();
    lists.add_list("a".to_string(), None).unwrap();
    lists.add_list("b".to_string(), None).unwrap();
    lists.add_list("c".to_string(), None).unwrap();
    lists.remove_list("b").unwrap();
    assert_eq!(lists.len(), 3);
    assert_eq!(lists.at(0).name, DEFAULT_LIST);
    assert_eq!(lists.at(1).name, "a");
    assert_eq!(lists.at(2).name, "c");
}

#[test]
fn lists_set_and_read_back() {
    let mut lists = Lists::new();
    lists.ensure_default();
    lists.add_list("work".to_string(), None).unwrap();
    let i = lists.find("work").unwrap();
    let mut tree = TodoList::from_info("work".to_string(), None);
    tree.add_item(entry("ship it", None), &[]).unwrap();
    lists.set_list(i, tree);
    let named = lists.at(i);
    assert_eq!(named.name, "work");
    assert_eq!(titles(&named.list), vec!["ship it".to_string()]);
}

#[test]
fn confirmation_rule() {
    assert!(confirm_accepts("y", false));
    assert!(confirm_accepts("Y", false));
    assert!(!confirm_accepts("n", false));
    assert!(!confirm_accepts("yes", false));
    assert!(!confirm_accepts("", false));
    assert!(confirm_accepts("", true));
    assert!(!confirm_accepts("no", true));
}
