use later::date::{DateMaybeTime, SimpleDate, SimpleTime};
use later::tree::{ListItem, TodoEntry, TodoList};
use later::DEFAULT_LIST;
use serde_json::Value;

fn date_value(v: &DateMaybeTime) -> Value {
    let simple = |d: &SimpleDate| {
        let mut m = serde_json::Map::new();
        m.insert("year".to_string(), Value::from(d.year));
        m.insert("month".to_string(), Value::from(d.month));
        m.insert("day".to_string(), Value::from(d.day));
        Value::Object(m)
    };
    let mut tag = serde_json::Map::new();
    match v {
        DateMaybeTime::Date(d) => {
            tag.insert("Date".to_string(), simple(d));
        }
        DateMaybeTime::DateTime(d, t) => {
            let mut m = serde_json::Map::new();
            m.insert("date".to_string(), simple(d));
            m.insert("hour".to_string(), Value::from(t.hour));
            m.insert("minute".to_string(), Value::from(t.minute));
            tag.insert("DateTime".to_string(), Value::Object(m));
        }
    }
    Value::Object(tag)
}

fn date_of_value(v: &Value) -> DateMaybeTime {
    let simple = |d: &Value| SimpleDate {
        year: d["year"].as_i64().unwrap() as i32,
        month: d["month"].as_u64().unwrap() as u8,
        day: d["day"].as_u64().unwrap() as u8,
    };
    let obj = v.as_object().unwrap();
    if let Some(d) = obj.get("Date") {
        DateMaybeTime::Date(simple(d))
    } else {
        let m = &obj["DateTime"];
        DateMaybeTime::DateTime(
            simple(&m["date"]),
            SimpleTime {
                hour: m["hour"].as_u64().unwrap() as u8,
                minute: m["minute"].as_u64().unwrap() as u8,
            },
        )
    }
}

fn tree_value(l: &TodoList) -> Value {
    let mut m = serde_json::Map::new();
    m.insert("title".to_string(), Value::from(l.title.clone()));
    m.insert(
        "date".to_string(),
        l.date.as_ref().map_or(Value::Null, date_value),
    );
    let mut children = Vec::new();
    for i in 0..l.child_count() {
        let mut tag = serde_json::Map::new();
        match l.child_at(i) {
            ListItem::Entry(e) => {
                let mut em = serde_json::Map::new();
                em.insert("title".to_string(), Value::from(e.title.clone()));
                em.insert(
                    "date".to_string(),
                    e.date.as_ref().map_or(Value::Null, date_value),
                );
                tag.insert("Entry".to_string(), Value::Object(em));
            }
            ListItem::List(sub) => {
                tag.insert("List".to_string(), tree_value(sub));
            }
        }
        children.push(Value::Object(tag));
    }
    m.insert("list".to_string(), Value::Array(children));
    Value::Object(m)
}

fn tree_of_value(v: &Value) -> TodoList {
    let obj = v.as_object().unwrap();
    let title = obj["title"].as_str().unwrap().to_string();
    let date = match &obj["date"] {
        Value::Null => None,
        d => Some(date_of_value(d)),
    };
    let mut list = Vec::new();
    for item in obj["list"].as_array().unwrap() {
        let tag = item.as_object().unwrap();
        if let Some(e) = tag.get("Entry") {
            let em = e.as_object().unwrap();
            list.push(ListItem::Entry(TodoEntry {
                title: em["title"].as_str().unwrap().to_string(),
                date: match &em["date"] {
                    Value::Null => None,
                    d => Some(date_of_value(d)),
                },
            }));
        } else {
            list.push(ListItem::List(tree_of_value(&tag["List"])));
        }
    }
    TodoList { title, date, list }
}

fn same_list(a: &TodoList, b: &TodoList) {
    assert_eq!(a.title, b.title);
    assert_eq!(a.date, b.date);
    assert_eq!(a.child_count(), b.child_count());
    for i in 0..a.child_count() {
        match (a.child_at(i), b.child_at(i)) {
            (ListItem::Entry(x), ListItem::Entry(y)) => {
                assert_eq!(x.title, y.title);
                assert_eq!(x.date, y.date);
            }
            (ListItem::List(x), ListItem::List(y)) => same_list(x, y),
            _ => panic!("tree shapes differ"),
        }
    }
}

#[test]
fn saved_document_loads_back_identically() {
    // a tree with nested sublists, entries with and without dates
    let dated = Some(DateMaybeTime::Date(SimpleDate { year: 2026, month: 10, day: 20 }));
    let timed = Some(DateMaybeTime::DateTime(
        SimpleDate { year: 2026, month: 12, day: 1 },
        SimpleTime { hour: 8, minute: 30 },
    ));
    let mut work = TodoList::from_info("work".to_string(), dated);
    work.add_item(
        ListItem::Entry(TodoEntry { title: "undated".to_string(), date: None }),
        &[],
    )
    .unwrap();
    work.add_item(
        ListItem::Entry(TodoEntry { title: "outer".to_string(), date: timed }),
        &[],
    )
    .unwrap();
    work.add_item(
        ListItem::Entry(TodoEntry { title: "inner".to_string(), date: dated }),
        &[1],
    )
    .unwrap();
    work.add_item(
        ListItem::Entry(TodoEntry { title: "deep".to_string(), date: None }),
        &[1, 0],
    )
    .unwrap();

    // the whole document: the default list and the nested one
    let default_list = TodoList::default();
    let mut doc = serde_json::Map::new();
    doc.insert(DEFAULT_LIST.to_string(), tree_value(&default_list));
    doc.insert("work".to_string(), tree_value(&work));
    let saved = serde_json::to_string_pretty(&Value::Object(doc)).unwrap();

    let loaded: Value = serde_json::from_str(&saved).unwrap();
    let obj = loaded.as_object().unwrap();
    same_list(&tree_of_value(&obj["work"]), &work);
    same_list(&tree_of_value(&obj[DEFAULT_LIST]), &default_list);
}
