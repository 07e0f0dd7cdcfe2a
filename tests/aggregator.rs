use mybar::i3::{header, Bar, Item};

fn item(name: &str, text: &str, color: &str) -> Item {
    Item { name: name.to_string(), full_text: text.to_string(), color: color.to_string() }
}

fn rec(name: &str, text: &str, color: &str) -> String {
    format!("{{\"name\":\"{}\",\"full_text\":\"{}\",\"color\":\"{}\"}}", name, text, color)
}

#[test]
fn order_is_first_seen() {
    let mut bar = Bar::new();
    bar.submit(item("b", "1", "#FFFFFF"));
    bar.submit(item("a", "2", "#FFFFFF"));
    bar.submit(item("b", "3", "#FFFFFF"));
    bar.submit(item("c", "4", "#FFFFFF"));
    bar.submit(item("a", "5", "#FFFFFF"));
    let expected = format!(
        "[{},{},{}]",
        rec("b", "3", "#FFFFFF"),
        rec("a", "5", "#FFFFFF"),
        rec("c", "4", "#FFFFFF")
    );
    assert_eq!(bar.frame(), expected);
}

#[test]
fn resubmit_replaces_in_place() {
    let mut bar = Bar::new();
    bar.submit(item("INet", "up", "#00FF00"));
    bar.submit(item("Memory", "mem 1.0/2.0", "#FFFFFF"));
    bar.submit(item("INet", "down", "#FF0000"));
    let expected = format!(
        "[{},{}]",
        rec("INet", "down", "#FF0000"),
        rec("Memory", "mem 1.0/2.0", "#FFFFFF")
    );
    assert_eq!(bar.frame(), expected);
}

#[test]
fn empty_frame() {
    let bar = Bar::new();
    assert_eq!(bar.frame(), "[]");
}

#[test]
fn stream_opens_once_then_appends() {
    let mut bar = Bar::new();
    bar.submit(item("x", "1", "#FFFFFF"));
    let first = bar.render();
    assert_eq!(first, format!("[[{}]\n", rec("x", "1", "#FFFFFF")));
    bar.submit(item("x", "2", "#FFFFFF"));
    let second = bar.render();
    assert_eq!(second, format!(",[{}]\n", rec("x", "2", "#FFFFFF")));
}

#[test]
fn header_line() {
    assert_eq!(header(), "{\"version\":\"1\"}\n");
}

#[test]
fn frame_escapes_quotes() {
    let mut bar = Bar::new();
    bar.submit(item("q", "say \"hi\"\\", "#FFFFFF"));
    assert_eq!(bar.frame(), "[{\"name\":\"q\",\"full_text\":\"say \\\"hi\\\"\\\\\",\"color\":\"#FFFFFF\"}]");
}

#[test]
fn frame_escapes_controls() {
    let mut bar = Bar::new();
    bar.submit(item("c", "a\tb\nc\u{1}\u{1f}\u{8}\u{c}\r/\u{263C}", "#FFFFFF"));
    assert_eq!(
        bar.frame(),
        "[{\"name\":\"c\",\"full_text\":\"a\\tb\\nc\\u0001\\u001f\\b\\f\\r/\u{263C}\",\"color\":\"#FFFFFF\"}]"
    );
}

#[test]
fn last_writer_in_batch_wins() {
    let mut bar = Bar::new();
    bar.submit(item("a", "1", "#FFFFFF"));
    bar.submit(item("b", "1", "#FFFFFF"));
    bar.submit(item("a", "2", "#FF0000"));
    bar.submit(item("a", "3", "#00FF00"));
    let expected = format!("[{},{}]", rec("a", "3", "#00FF00"), rec("b", "1", "#FFFFFF"));
    assert_eq!(bar.frame(), expected);
}

#[test]
fn batch_drain_matches_one_by_one() {
    let mut bar = Bar::new();
    bar.submit_all(vec![item("a", "1", "#FFFFFF"), item("b", "1", "#FFFFFF"), item("a", "2", "#FF0000")]);
    bar.submit_all(vec![item("c", "1", "#FFFFFF"), item("b", "3", "#00FF00")]);
    bar.submit_all(vec![]);
    let expected = format!(
        "[{},{},{}]",
        rec("a", "2", "#FF0000"),
        rec("b", "3", "#00FF00"),
        rec("c", "1", "#FFFFFF")
    );
    assert_eq!(bar.frame(), expected);
}
