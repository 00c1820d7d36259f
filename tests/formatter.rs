use pkit::formatter::{
    box_bottom, box_line, box_top, capitalize_first, colorize, message_text, render_box, shorten_path,
    table_footer, table_header, table_row, visible_length, BoxAlignment, BoxOptions, MessageType,
};

#[test]
fn colorize_codes() {
    assert_eq!(colorize("&aok&r"), "\x1b[92mok\x1b[0m\x1b[0m");
    assert_eq!(colorize("a&zb"), "a&zb\x1b[0m");
    assert_eq!(colorize("end&"), "end&\x1b[0m");
    assert_eq!(colorize(""), "\x1b[0m");
    assert_eq!(colorize("&0&1&2&3&4&5&6&7&8&9&b&c&d&e&f"), "\x1b[30m\x1b[34m\x1b[32m\x1b[36m\x1b[31m\x1b[35m\x1b[33m\x1b[37m\x1b[90m\x1b[94m\x1b[96m\x1b[91m\x1b[95m\x1b[93m\x1b[97m\x1b[0m");
}

#[test]
fn visible_lengths() {
    assert_eq!(visible_length("&ahello&r"), 5);
    assert_eq!(visible_length("a&zb"), 4);
    assert_eq!(visible_length("&"), 1);
    assert_eq!(visible_length("héllo"), 5);
}

#[test]
fn capitalize() {
    assert_eq!(capitalize_first("python"), "Python");
    assert_eq!(capitalize_first(""), "");
    assert_eq!(capitalize_first("ßa"), "SSa");
    assert_eq!(capitalize_first("Go"), "Go");
}

#[test]
fn messages() {
    assert_eq!(message_text(&MessageType::Success(String::from("done"))), "\x1b[92mSuccess: done\x1b[0m\x1b[0m");
    assert_eq!(message_text(&MessageType::Error(String::from("x"))), "\x1b[91mError: x\x1b[0m\x1b[0m");
    assert_eq!(message_text(&MessageType::Info(String::from("i"))), "\x1b[96mInfo: i\x1b[0m\x1b[0m");
    assert_eq!(message_text(&MessageType::Warning(String::from("w"))), "\x1b[93mWarning: w\x1b[0m\x1b[0m");
    assert_eq!(message_text(&MessageType::Plain(String::from("p"))), "p\x1b[0m");
}

#[test]
fn box_parts() {
    let o = BoxOptions::default();
    assert_eq!(o.title_color, '3');
    assert_eq!(o.border_color, 'f');
    let top = box_top(&o);
    assert_eq!(top, format!("\x1b[97m┌{}┐\x1b[0m\x1b[0m", "─".repeat(85)));
    assert_eq!(box_bottom(&o), format!("\x1b[97m└{}┘\x1b[0m\x1b[0m", "─".repeat(85)));
    let line = box_line("hi", BoxAlignment::Left, 'f');
    assert_eq!(line, format!("\x1b[97m│ hi{}\x1b[97m│\x1b[0m\x1b[0m", " ".repeat(82)));
    let centered = box_line("&ahi&r", BoxAlignment::Center, 'c');
    assert_eq!(centered, format!("\x1b[91m│{}\x1b[92mhi\x1b[0m{}\x1b[91m│\x1b[0m\x1b[0m", " ".repeat(41), " ".repeat(42)));
    let titled = BoxOptions { title: Some(String::from("Usage")), title_color: '3', border_color: 'f' };
    assert_eq!(box_top(&titled), format!("\x1b[97m┌─ \x1b[36mUsage\x1b[0m \x1b[97m─{}┐\x1b[0m\x1b[0m", "─".repeat(76)));
    let full = render_box(&vec![(String::from("a"), BoxAlignment::Left), (String::from("b"), BoxAlignment::Center)], &o);
    assert_eq!(full.len(), 4);
    assert_eq!(full[0], top);
}

#[test]
fn long_line_gets_no_padding() {
    let long = "x".repeat(90);
    assert_eq!(box_line(&long, BoxAlignment::Left, 'f'), format!("\x1b[97m│{}\x1b[97m│\x1b[0m\x1b[0m", long));
}

#[test]
fn shorten() {
    assert_eq!(shorten_path("/short", 60), "/short");
    assert_eq!(shorten_path("abcdefghij", 7), "ab...ij");
    assert_eq!(shorten_path("abcdefghij", 8), "ab...hij");
    assert_eq!(shorten_path("abcdef", 2), "...");
}

#[test]
fn tables() {
    let cols = vec![(String::from("Name"), 6usize), (String::from("Path"), 4usize)];
    assert_eq!(
        table_header(&cols),
        colorize("&8  ┌ &fName&r &8──&8─┬─&fPath&r &8─&8┐&r")
    );
    assert_eq!(
        table_row(&cols, &vec![String::from("&aab&r"), String::from("xy")]),
        colorize("&8  │&r &aab&r      &8│&r xy   &8│&r")
    );
    assert_eq!(table_footer(&cols), colorize("&8  └─────────┴──────&8┘&r"));
}
