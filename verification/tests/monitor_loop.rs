use savko::entry::{History, ImageEntry, ImageHistory};
use savko::monitor::MonitorState;
use savko::store::TextStore;

fn image(width: u32, height: u32, bytes: Vec<u8>) -> ImageEntry {
    ImageEntry { width, height, bytes }
}

#[test]
fn first_poll_captures_value_already_on_clipboard() {
    let mut state = MonitorState::new();
    let mut texts = History { items: vec![] };
    let mut images = ImageHistory { items: vec![] };
    let notify = state.poll(Some("boot".to_owned()), None, &mut texts, &mut images);
    assert_eq!(notify.as_deref(), Some("boot"));
    assert_eq!(texts.items.len(), 1);
    assert_eq!(texts.items[0].message, "boot");
    assert_eq!(texts.items[0].description, "Copied to clipboard");
}

#[test]
fn same_value_on_many_polls_is_stored_once() {
    let mut state = MonitorState::new();
    let mut texts = History { items: vec![] };
    let mut images = ImageHistory { items: vec![] };
    for _ in 0..10 {
        state.poll(Some("same".to_owned()), None, &mut texts, &mut images);
    }
    assert_eq!(texts.items.len(), 1);
    assert_eq!(texts.items[0].message, "same");
}

#[test]
fn change_detection_records_each_change_in_order() {
    let mut state = MonitorState::new();
    let mut texts = History { items: vec![] };
    let mut images = ImageHistory { items: vec![] };
    for value in ["a", "a", "b", "b", "a"] {
        state.poll(Some(value.to_owned()), None, &mut texts, &mut images);
    }
    assert_eq!(texts.items.len(), 3);
    assert_eq!(texts.items[0].message, "a");
    assert_eq!(texts.items[1].message, "b");
    assert_eq!(texts.items[2].message, "a");
}

#[test]
fn empty_string_is_a_distinct_value() {
    let mut state = MonitorState::new();
    let mut texts = History { items: vec![] };
    let mut images = ImageHistory { items: vec![] };
    state.poll(Some("a".to_owned()), None, &mut texts, &mut images);
    let notify = state.poll(Some(String::new()), None, &mut texts, &mut images);
    assert_eq!(notify.as_deref(), Some(""));
    assert_eq!(texts.items.len(), 2);
    assert_eq!(texts.items[1].message, "");
}

#[test]
fn unavailable_clipboard_records_nothing() {
    let mut state = MonitorState::new();
    let mut texts = History { items: vec![] };
    let mut images = ImageHistory { items: vec![] };
    let notify = state.poll(None, None, &mut texts, &mut images);
    assert!(notify.is_none());
    assert_eq!(texts.items.len(), 0);
    assert_eq!(images.items.len(), 0);
}

#[test]
fn text_takes_precedence_over_image() {
    let mut state = MonitorState::new();
    let mut texts = History { items: vec![] };
    let mut images = ImageHistory { items: vec![] };
    let notify = state.poll(
        Some("text wins".to_owned()),
        Some(image(1, 1, vec![1, 2, 3, 4])),
        &mut texts,
        &mut images,
    );
    assert_eq!(notify.as_deref(), Some("text wins"));
    assert_eq!(texts.items.len(), 1);
    assert_eq!(images.items.len(), 0);
}

#[test]
fn equal_image_is_skipped_and_changed_image_is_captured() {
    let mut state = MonitorState::new();
    let mut texts = History { items: vec![] };
    let mut images = ImageHistory { items: vec![] };
    state.poll(None, Some(image(2, 2, vec![9; 16])), &mut texts, &mut images);
    assert_eq!(images.items.len(), 1);
    // the same image again: skipped
    state.poll(None, Some(image(2, 2, vec![9; 16])), &mut texts, &mut images);
    assert_eq!(images.items.len(), 1);
    // a different image: captured
    state.poll(None, Some(image(2, 2, vec![8; 16])), &mut texts, &mut images);
    assert_eq!(images.items.len(), 2);
    assert_eq!(images.items[1].bytes, vec![8; 16]);
    assert_eq!(texts.items.len(), 0);
}

#[test]
fn image_dimensions_distinguish_images() {
    let mut state = MonitorState::new();
    let mut texts = History { items: vec![] };
    let mut images = ImageHistory { items: vec![] };
    state.poll(None, Some(image(2, 1, vec![0; 8])), &mut texts, &mut images);
    state.poll(None, Some(image(1, 2, vec![0; 8])), &mut texts, &mut images);
    assert_eq!(images.items.len(), 2);
}

#[test]
fn monitor_scenario_against_store() {
    // start with no files
    let mut store = TextStore::missing();
    let mut state = MonitorState::new();
    let mut images = ImageHistory { items: vec![] };

    // the loop observes "hello"
    let mut history = store.load();
    let notify = state.poll(Some("hello".to_owned()), None, &mut history, &mut images);
    assert_eq!(notify.as_deref(), Some("hello"));
    store.save(&history);
    assert_eq!(
        store.file.as_deref(),
        Some("{\"items\":[{\"message\":\"hello\",\"description\":\"Copied to clipboard\"}]}")
    );

    // observes "hello" again: the file is unchanged
    let before = store.file.clone();
    let mut history = store.load();
    let notify = state.poll(Some("hello".to_owned()), None, &mut history, &mut images);
    assert!(notify.is_none());
    if notify.is_some() {
        store.save(&history);
    }
    assert_eq!(store.file, before);

    // observes "world": the file gains a second entry
    let mut history = store.load();
    let notify = state.poll(Some("world".to_owned()), None, &mut history, &mut images);
    assert_eq!(notify.as_deref(), Some("world"));
    store.save(&history);
    let loaded = store.load();
    assert_eq!(loaded.items.len(), 2);
    assert_eq!(loaded.items[1].message, "world");

    // the tail query returns the most recent entry first
    let last = loaded.last_n(1);
    assert_eq!(last.len(), 1);
    assert_eq!(last[0].message, "world");
}
