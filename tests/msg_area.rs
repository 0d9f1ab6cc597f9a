use tiny::exit_dialogue::{ExitDialogue, Key, WidgetRet};
use tiny::msg_area::{DrawLine, Line, MsgArea, SegStyle};
use tiny::notifier::{mentions, Notifier};
use tiny::utils::str_eq;
use tiny::target::MsgTarget;

#[test]
fn newline_scrolling() {
    let mut msg_area = MsgArea::new(100, 1);
    // Adding a new line when scroll is 0 should not change it
    assert_eq!(msg_area.scroll(), 0);
    msg_area.add_text("line1");
    msg_area.flush_line();
    assert_eq!(msg_area.scroll(), 0);

    msg_area.add_text("line2");
    msg_area.flush_line();
    assert_eq!(msg_area.scroll(), 0);

    msg_area.scroll_up();
    assert_eq!(msg_area.scroll(), 1);
    msg_area.add_text("line3");
    msg_area.flush_line();
    assert_eq!(msg_area.scroll(), 2);
}

fn area_with(lines: &[&str], width: i32, height: i32) -> MsgArea {
    let mut a = MsgArea::new(width, height);
    for l in lines {
        a.add_text(l);
        a.flush_line();
    }
    a
}

#[test]
fn scrolling_bounds() {
    let mut a = area_with(&["a", "b", "c"], 10, 2);
    a.scroll_down();
    assert_eq!(a.scroll(), 0);
    a.scroll_up();
    a.scroll_up();
    a.scroll_up();
    assert_eq!(a.scroll(), 2);
    a.page_down();
    assert_eq!(a.scroll(), 0);
    a.page_up();
    assert_eq!(a.scroll(), 2);
    a.scroll_bottom();
    assert_eq!(a.scroll(), 0);
}

#[test]
fn scroll_top_counts_wrapped_rows() {
    // widths 10: "0123456789ab" takes 2 rows, the others 1
    let mut a = area_with(&["0123456789ab", "x", "y", "z"], 10, 3);
    a.scroll_top();
    // the first two lines fill 3 rows
    assert_eq!(a.scroll(), 2);
}

#[test]
fn flush_line_returns_index() {
    let mut a = MsgArea::new(10, 5);
    a.add_char('x');
    assert_eq!(a.flush_line(), 0);
    a.set_style(SegStyle { fg: 1, bg: 2 });
    a.add_text("y");
    assert_eq!(a.flush_line(), 1);
    assert_eq!(a.num_lines(), 2);
}

#[test]
fn rendered_height_wraps() {
    let mut l = Line::new();
    assert_eq!(l.rendered_height(10), 1);
    l.add_text("abcdefghijk");
    assert_eq!(l.rendered_height(10), 2);
    assert_eq!(l.rendered_height(11), 1);
    assert_eq!(l.rendered_height(0), 11);
}

#[test]
fn exit_dialogue_keys_and_cells() {
    let mut d = ExitDialogue::new(15);
    assert_eq!(d.keypressed(Key::Char('y')), WidgetRet::Abort);
    assert_eq!(d.keypressed(Key::Enter), WidgetRet::Abort);
    assert_eq!(d.keypressed(Key::Char('n')), WidgetRet::Remove);
    assert_eq!(d.event(), WidgetRet::KeyIgnored);
    let cells: String = d.cells().into_iter().collect();
    assert_eq!(cells, "Really quit?   ");
    d.resize(4, 1);
    let cells: String = d.cells().into_iter().collect();
    assert_eq!(cells, "Really quit?");
}

fn chan() -> MsgTarget {
    MsgTarget::Chan { serv_name: "irc.x".to_string(), chan_name: "#rust".to_string() }
}

fn user() -> MsgTarget {
    MsgTarget::User { serv_name: "irc.x".to_string(), nick: "bob".to_string() }
}

#[test]
fn notifier_modes() {
    let mut off = Notifier::Off;
    let mut mentions = Notifier::Mentions;
    let mut all = Notifier::Messages;
    assert!(off.notify_privmsg("bob", "hi", &chan(), "me", true).is_none());
    assert!(mentions.notify_privmsg("bob", "hi", &chan(), "me", false).is_none());
    let n = mentions.notify_privmsg("bob", "hi", &chan(), "me", true).unwrap();
    assert_eq!(n.summary, "bob in #rust");
    assert_eq!(n.body, "hi");
    let n = all.notify_privmsg("bob", "yo", &user(), "me", false).unwrap();
    assert_eq!(n.summary, "bob sent a private message");
    assert_eq!(n.body, "yo");
    assert!(off.notify_privmsg("bob", "yo", &user(), "me", false).is_none());
    // our own messages never notify
    assert!(all.notify_privmsg("me", "yo", &chan(), "me", true).is_none());
    assert!(str_eq("abc", "abc"));
    assert!(!str_eq("abc", "abd"));
}

#[test]
fn draw_plan_stacks_lines_from_bottom() {
    // heights at width 4: "abcdefgh" 2 rows, "x" 1, "yz" 1
    let mut a = area_with(&["abcdefgh", "x", "yz"], 4, 3);
    assert_eq!(
        a.draw_plan(10),
        vec![
            DrawLine { line: 2, row: 12, skip: 0 },
            DrawLine { line: 1, row: 11, skip: 0 },
            DrawLine { line: 0, row: 10, skip: 1 },
        ]
    );
    a.scroll_up();
    assert_eq!(
        a.draw_plan(0),
        vec![DrawLine { line: 1, row: 2, skip: 0 }, DrawLine { line: 0, row: 0, skip: 0 }]
    );
}

#[test]
fn modify_line_replaces_one_line() {
    let mut a = area_with(&["a", "b"], 10, 5);
    a.modify_line(0, |mut l: Line| {
        l.add_text("bcdefghijkl");
        l
    });
    // line 0 now wraps over two rows at width 10
    assert_eq!(a.draw_plan(0)[1].row, 2);
    assert_eq!(a.num_lines(), 2);
}

#[test]
fn mention_detection() {
    assert!(mentions("hey me, look", "me"));
    assert!(mentions("me", "me"));
    assert!(!mentions("m", "me"));
    assert!(!mentions("hello there", "bob"));
}
