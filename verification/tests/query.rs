use savko::entry::{Entry, History, ImageEntry, ImageHistory};

fn history_of(messages: &[&str]) -> History {
    History {
        items: messages
            .iter()
            .map(|m| Entry {
                message: (*m).to_owned(),
                description: "Copied to clipboard".to_owned(),
            })
            .collect(),
    }
}

#[test]
fn last_n_returns_tail_reversed() {
    let h = history_of(&["e1", "e2", "e3", "e4", "e5"]);
    let r = h.last_n(2);
    assert_eq!(r.len(), 2);
    assert_eq!(r[0].message, "e5");
    assert_eq!(r[1].message, "e4");
}

#[test]
fn last_n_zero_is_empty() {
    let h = history_of(&["a", "b"]);
    assert_eq!(h.last_n(0).len(), 0);
}

#[test]
fn last_n_larger_than_history_returns_whole_history_reversed() {
    let h = history_of(&["a", "b", "c"]);
    let r = h.last_n(10);
    assert_eq!(r.len(), 3);
    assert_eq!(r[0].message, "c");
    assert_eq!(r[1].message, "b");
    assert_eq!(r[2].message, "a");
}

#[test]
fn last_n_on_empty_history_is_empty() {
    let h = history_of(&[]);
    assert_eq!(h.last_n(3).len(), 0);
}

#[test]
fn last_n_images_returns_tail_reversed() {
    let h = ImageHistory {
        items: (0u8..5)
            .map(|k| ImageEntry { width: k as u32, height: 1, bytes: vec![k] })
            .collect(),
    };
    let r = h.last_n(2);
    assert_eq!(r.len(), 2);
    assert_eq!(r[0].width, 4);
    assert_eq!(r[1].width, 3);
}

#[test]
fn append_keeps_insertion_order_and_label() {
    let mut h = history_of(&[]);
    h.append("one".to_owned());
    h.append("two".to_owned());
    assert_eq!(h.items.len(), 2);
    assert_eq!(h.items[0].message, "one");
    assert_eq!(h.items[1].message, "two");
    assert_eq!(h.items[0].description, "Copied to clipboard");
    assert_eq!(h.items[1].description, "Copied to clipboard");
}
