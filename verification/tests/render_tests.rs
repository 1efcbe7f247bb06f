use later::date::{DateMaybeTime, Moment, SimpleDate};
use later::tree::{ListItem, TodoEntry, TodoList};

fn noon() -> Moment {
    Moment {
        date: SimpleDate { year: 2026, month: 10, day: 9 },
        secs: 12 * 3600,
    }
}

fn entry(title: &str, date: Option<DateMaybeTime>) -> ListItem {
    ListItem::Entry(TodoEntry { title: title.to_string(), date })
}

#[test]
fn entry_renders_title_only_without_date() {
    let e = TodoEntry { title: "plain".to_string(), date: None };
    let mut out = String::new();
    e.render_at(&mut out, &noon());
    assert_eq!(out, "plain");
}

#[test]
fn entry_renders_colored_relative_date() {
    // tomorrow is upcoming, so the tag is green
    let e = TodoEntry {
        title: "soon".to_string(),
        date: Some(DateMaybeTime::Date(SimpleDate { year: 2026, month: 10, day: 10 })),
    };
    let mut out = String::new();
    e.render_at(&mut out, &noon());
    assert_eq!(out, "soon \u{1b}[32m(Tomorrow)\u{1b}[0m");
}

#[test]
fn overdue_and_due_soon_colors() {
    let mut out = String::new();
    TodoEntry {
        title: "late".to_string(),
        date: Some(DateMaybeTime::Date(SimpleDate { year: 2026, month: 10, day: 8 })),
    }
    .render_at(&mut out, &noon());
    assert_eq!(out, "late \u{1b}[31m(Yesterday)\u{1b}[0m");
    let mut out = String::new();
    TodoEntry {
        title: "today".to_string(),
        date: Some(DateMaybeTime::Date(SimpleDate { year: 2026, month: 10, day: 9 })),
    }
    .render_at(&mut out, &noon());
    assert_eq!(out, "today \u{1b}[33m(Today)\u{1b}[0m");
}

#[test]
fn list_renders_markers_indentation_and_newlines() {
    let mut root = TodoList::from_info("work".to_string(), None);
    root.add_item(entry("a", None), &[]).unwrap();
    root.add_item(entry("b", None), &[]).unwrap();
    root.add_item(entry("c", None), &[1]).unwrap();
    let mut out = String::new();
    root.render_at(&mut out, 0, &noon());
    let expected = "   \u{1b}[4mwork\u{1b}[0m \n\u{1b}[36m0)\u{1b}[0m a\n\u{1b}[34m1--->\u{1b}[0m \u{1b}[4mb\u{1b}[0m \n   \u{1b}[36m0)\u{1b}[0m c\n";
    assert_eq!(out, expected);
}

#[test]
fn header_renders_arrow_title_and_tag() {
    let undated = TodoList::from_info("work".to_string(), None);
    let mut out = String::new();
    undated.write_header_at(&mut out, &noon());
    assert_eq!(out, "\u{1b}[34m->\u{1b}[0m work \n");

    let dated = TodoList::from_info(
        "trip".to_string(),
        Some(DateMaybeTime::Date(SimpleDate { year: 2026, month: 10, day: 10 })),
    );
    let mut out = String::new();
    dated.write_header_at(&mut out, &noon());
    assert_eq!(out, "\u{1b}[34m->\u{1b}[0m trip \u{1b}[32m(Tomorrow)\u{1b}[0m\n");
}
