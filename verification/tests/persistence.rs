use savko::codec::{parse_history, parse_image_history, render_history, render_image_history};
use savko::entry::{Entry, History, ImageEntry, ImageHistory};
use savko::store::{ImageStore, TextStore};

fn entry(message: &str, description: &str) -> Entry {
    Entry { message: message.to_owned(), description: description.to_owned() }
}

#[test]
fn render_one_entry_canonical_document() {
    let h = History { items: vec![entry("hello", "Copied to clipboard")] };
    let doc = render_history(&h);
    assert_eq!(doc, "{\"items\":[{\"message\":\"hello\",\"description\":\"Copied to clipboard\"}]}");
}

#[test]
fn render_empty_history() {
    let h = History { items: vec![] };
    assert_eq!(render_history(&h), "{\"items\":[]}");
}

#[test]
fn save_then_load_yields_equal_entries() {
    let h = History {
        items: vec![
            entry("plain", "Copied to clipboard"),
            entry("with \"quotes\" and \\backslash\\", "Copied to clipboard"),
            entry("line\nbreak\tand tab", "Copied to clipboard"),
            entry("", "Copied to clipboard"),
            entry("unicode \u{e9}\u{4e16}\u{754c}", "Copied to clipboard"),
        ],
    };
    let doc = render_history(&h);
    let back = parse_history(&doc).expect("canonical document must parse");
    assert_eq!(back.items.len(), h.items.len());
    for (a, b) in h.items.iter().zip(back.items.iter()) {
        assert_eq!(a.message, b.message);
        assert_eq!(a.description, b.description);
    }
}

#[test]
fn control_characters_survive_round_trip() {
    let h = History { items: vec![entry("\u{0}\u{1}\u{1f}\u{8}\u{c}", "x")] };
    let doc = render_history(&h);
    let back = parse_history(&doc).expect("must parse");
    assert_eq!(back.items[0].message, "\u{0}\u{1}\u{1f}\u{8}\u{c}");
}

#[test]
fn parser_accepts_whitespace_between_tokens() {
    let doc = "{\n  \"items\": [\n    {\n      \"message\": \"hi\",\n      \"description\": \"Copied to clipboard\"\n    }\n  ]\n}";
    let h = parse_history(doc).expect("pretty document must parse");
    assert_eq!(h.items.len(), 1);
    assert_eq!(h.items[0].message, "hi");
}

#[test]
fn parser_accepts_short_escapes() {
    let doc = "{\"items\":[{\"message\":\"a\\n\\t\\\"b\\\\c\\/d\",\"description\":\"e\"}]}";
    let h = parse_history(doc).expect("short escapes must parse");
    assert_eq!(h.items[0].message, "a\n\t\"b\\c/d");
}

#[test]
fn parser_accepts_unicode_escape_below_256() {
    let doc = "{\"items\":[{\"message\":\"\\u0041\\u000a\",\"description\":\"e\"}]}";
    let h = parse_history(doc).expect("unicode escapes must parse");
    assert_eq!(h.items[0].message, "A\n");
}

#[test]
fn malformed_documents_are_rejected() {
    assert!(parse_history("").is_none());
    assert!(parse_history("{").is_none());
    assert!(parse_history("not json").is_none());
    assert!(parse_history("{\"items\":}").is_none());
    assert!(parse_history("{\"items\":[").is_none());
    assert!(parse_history("{\"items\":[{\"message\":\"a\"}]}").is_none());
    assert!(parse_history("{\"items\":[]} trailing").is_none());
    assert!(parse_history("{\"items\":[{\"message\":\"\\").is_none());
}

#[test]
fn missing_or_malformed_file_loads_as_empty() {
    let absent = TextStore::missing();
    assert_eq!(absent.load().items.len(), 0);
    let corrupt = TextStore::with_contents("garbage".to_owned());
    assert_eq!(corrupt.load().items.len(), 0);
}

#[test]
fn wipe_destructive_and_idempotent() {
    let mut store = TextStore::missing();
    let mut h = store.load();
    h.append("something".to_owned());
    store.save(&h);
    assert!(store.file.is_some());
    assert_eq!(store.load().items.len(), 1);
    store.wipe();
    assert!(store.file.is_none());
    assert_eq!(store.load().items.len(), 0);
    store.wipe();
    assert!(store.file.is_none());
    assert_eq!(store.load().items.len(), 0);
}

#[test]
fn image_wipe_destructive_and_idempotent() {
    let mut store = ImageStore::missing();
    let mut h = store.load();
    h.append(ImageEntry { width: 1, height: 1, bytes: vec![0, 0, 0, 255] });
    store.save(&h);
    assert_eq!(store.load().items.len(), 1);
    store.wipe();
    assert!(store.file.is_none());
    assert_eq!(store.load().items.len(), 0);
    store.wipe();
    assert_eq!(store.load().items.len(), 0);
}

#[test]
fn image_round_trip() {
    let h = ImageHistory {
        items: vec![
            ImageEntry { width: 2, height: 1, bytes: vec![255, 0, 128, 7, 0, 1, 2, 3] },
            ImageEntry { width: 0, height: 0, bytes: vec![] },
            ImageEntry { width: 4294967295, height: 1, bytes: vec![0] },
        ],
    };
    let doc = render_image_history(&h);
    let back = parse_image_history(&doc).expect("canonical image document must parse");
    assert_eq!(back.items.len(), 3);
    assert_eq!(back.items[0].width, 2);
    assert_eq!(back.items[0].height, 1);
    assert_eq!(back.items[0].bytes, vec![255, 0, 128, 7, 0, 1, 2, 3]);
    assert_eq!(back.items[2].width, 4294967295);
}

#[test]
fn image_document_canonical_text() {
    let h = ImageHistory { items: vec![ImageEntry { width: 2, height: 1, bytes: vec![9, 200] }] };
    assert_eq!(
        render_image_history(&h),
        "{\"items\":[{\"width\":2,\"height\":1,\"bytes\":[9,200]}]}"
    );
}

#[test]
fn image_parser_rejects_out_of_range_numbers() {
    assert!(parse_image_history("{\"items\":[{\"width\":1,\"height\":1,\"bytes\":[256]}]}")
        .is_none());
    assert!(parse_image_history("{\"items\":[{\"width\":4294967296,\"height\":1,\"bytes\":[]}]}")
        .is_none());
    assert!(parse_image_history(
        "{\"items\":[{\"width\":999999999999,\"height\":1,\"bytes\":[]}]}"
    )
    .is_none());
}

#[test]
fn save_overwrites_previous_contents() {
    let mut store = TextStore::with_contents("{\"items\":[]}".to_owned());
    let mut h = store.load();
    assert_eq!(h.items.len(), 0);
    h.append("first".to_owned());
    store.save(&h);
    let mut h2 = store.load();
    assert_eq!(h2.items.len(), 1);
    h2.append("second".to_owned());
    store.save(&h2);
    let h3 = store.load();
    assert_eq!(h3.items.len(), 2);
    assert_eq!(h3.items[0].message, "first");
    assert_eq!(h3.items[1].message, "second");
}
