//! Terminal text: `&`-codes turned into ANSI colours, and boxes drawn
//! around lines of text.
use vstd::prelude::*;
use vstd::string::*;
use crate::text::{chars_of, push_char};

verus! {

/// The ANSI escape for a colour code character, if it is one.
pub open spec fn escape_of(c: char) -> Option<Seq<char>> {
    if c == '0' { Some("\x1b[30m"@) }
    else if c == '1' { Some("\x1b[34m"@) }
    else if c == '2' { Some("\x1b[32m"@) }
    else if c == '3' { Some("\x1b[36m"@) }
    else if c == '4' { Some("\x1b[31m"@) }
    else if c == '5' { Some("\x1b[35m"@) }
    else if c == '6' { Some("\x1b[33m"@) }
    else if c == '7' { Some("\x1b[37m"@) }
    else if c == '8' { Some("\x1b[90m"@) }
    else if c == '9' { Some("\x1b[94m"@) }
    else if c == 'a' { Some("\x1b[92m"@) }
    else if c == 'b' { Some("\x1b[96m"@) }
    else if c == 'c' { Some("\x1b[91m"@) }
    else if c == 'd' { Some("\x1b[95m"@) }
    else if c == 'e' { Some("\x1b[93m"@) }
    else if c == 'f' { Some("\x1b[97m"@) }
    else if c == 'r' { Some("\x1b[0m"@) }
    else { None }
}

fn escape_exec(c: char) -> (r: Option<&'static str>)
    ensures
        r is None <==> escape_of(c) is None,
        r matches Some(e) ==> escape_of(c) == Some(e@),
{
    match c {
        '0' => Some("\x1b[30m"),
        '1' => Some("\x1b[34m"),
        '2' => Some("\x1b[32m"),
        '3' => Some("\x1b[36m"),
        '4' => Some("\x1b[31m"),
        '5' => Some("\x1b[35m"),
        '6' => Some("\x1b[33m"),
        '7' => Some("\x1b[37m"),
        '8' => Some("\x1b[90m"),
        '9' => Some("\x1b[94m"),
        'a' => Some("\x1b[92m"),
        'b' => Some("\x1b[96m"),
        'c' => Some("\x1b[91m"),
        'd' => Some("\x1b[95m"),
        'e' => Some("\x1b[93m"),
        'f' => Some("\x1b[97m"),
        'r' => Some("\x1b[0m"),
        _ => None,
    }
}

/// `s` with each `&` followed by a colour code replaced by its escape.
pub open spec fn colorize_body(s: Seq<char>) -> Seq<char>
    decreases s.len(),
{
    if s.len() == 0 {
        Seq::empty()
    } else if s[0] == '&' && s.len() >= 2 {
        match escape_of(s[1]) {
            Some(e) => e + colorize_body(s.subrange(2, s.len() as int)),
            None => seq!['&', s[1]] + colorize_body(s.subrange(2, s.len() as int)),
        }
    } else {
        seq![s[0]] + colorize_body(s.drop_first())
    }
}

/// The coloured text, ended by a reset.
pub open spec fn colorized(s: Seq<char>) -> Seq<char> {
    colorize_body(s) + "\x1b[0m"@
}

/// `input` with its `&`-codes turned into ANSI colours, ended by a reset.
pub fn colorize(input: &str) -> (r: String)
    ensures
        r@ == colorized(input@),
{
    let s = chars_of(input);
    let n = s.len();
    let mut out = String::new();
    let mut i: usize = 0;
    assert(s@.subrange(0, n as int) =~= s@);
    while i < n
        invariant
            n == s@.len(),
            i <= n,
            colorize_body(s@) == out@ + colorize_body(s@.subrange(i as int, n as int)),
        decreases n - i,
    {
        let ghost rest = s@.subrange(i as int, n as int);
        if s[i] == '&' && i + 1 < n {
            let c = s[i + 1];
            assert(rest.subrange(2, rest.len() as int) =~= s@.subrange(i + 2, n as int));
            match escape_exec(c) {
                Some(e) => {
                    out.append(e);
                },
                None => {
                    push_char(&mut out, '&');
                    push_char(&mut out, c);
                    assert(seq!['&', c] =~= seq!['&'].push(c));
                },
            }
            i += 2;
        } else {
            push_char(&mut out, s[i]);
            assert(rest.drop_first() =~= s@.subrange(i + 1, n as int));
            i += 1;
        }
    }
    assert(s@.subrange(n as int, n as int) =~= Seq::<char>::empty());
    out.append("\x1b[0m");
    out
}

/// The number of characters shown once `&`-codes are taken out.
pub open spec fn visible_len(s: Seq<char>) -> nat
    decreases s.len(),
{
    if s.len() == 0 {
        0
    } else if s[0] == '&' && s.len() >= 2 && escape_of(s[1]) is Some {
        visible_len(s.subrange(2, s.len() as int))
    } else {
        1 + visible_len(s.drop_first())
    }
}

/// The number of characters `text` shows once its `&`-codes are taken out.
pub fn visible_length(text: &str) -> (r: usize)
    ensures
        r == visible_len(text@),
{
    let s = chars_of(text);
    let n = s.len();
    let mut len: usize = 0;
    let mut i: usize = 0;
    assert(s@.subrange(0, n as int) =~= s@);
    while i < n
        invariant
            n == s@.len(),
            i <= n,
            len + visible_len(s@.subrange(i as int, n as int)) == visible_len(s@),
            len <= i,
        decreases n - i,
    {
        let ghost rest = s@.subrange(i as int, n as int);
        if s[i] == '&' && i + 1 < n && escape_exec(s[i + 1]).is_some() {
            assert(rest.subrange(2, rest.len() as int) =~= s@.subrange(i + 2, n as int));
            i += 2;
        } else {
            assert(rest.drop_first() =~= s@.subrange(i + 1, n as int));
            len += 1;
            i += 1;
        }
    }
    assert(s@.subrange(n as int, n as int) =~= Seq::<char>::empty());
    len
}

/// What `char::to_uppercase` yields for `c`.
pub uninterp spec fn uppercase_of(c: char) -> Seq<char>;

/// Relies on `char::to_uppercase`: the upper-case mapping of one character,
/// which depends on that character alone.
#[verifier::external_body]
fn uppercase(c: char) -> (r: String)
    ensures
        r@ == uppercase_of(c),
{
    c.to_uppercase().collect::<String>()
}

pub open spec fn capitalized(s: Seq<char>) -> Seq<char> {
    if s.len() == 0 {
        Seq::empty()
    } else {
        uppercase_of(s[0]) + s.drop_first()
    }
}

/// `input` with its first character in upper case.
pub fn capitalize_first(input: &str) -> (r: String)
    ensures
        r@ == capitalized(input@),
{
    let s = chars_of(input);
    if s.len() == 0 {
        return String::new();
    }
    let mut r = uppercase(s[0]);
    let mut i: usize = 1;
    let ghost head = r@;
    while i < s.len()
        invariant
            1 <= i <= s@.len(),
            r@ == head + s@.subrange(1, i as int),
        decreases s@.len() - i,
    {
        push_char(&mut r, s[i]);
        assert(s@.subrange(1, i + 1) =~= s@.subrange(1, i as int).push(s@[i as int]));
        i += 1;
    }
    assert(s@.subrange(1, s@.len() as int) =~= s@.drop_first());
    r
}

/// The kinds of one-line messages, each with its text.
#[derive(Debug)]
pub enum MessageType {
    Success(String),
    Error(String),
    Info(String),
    Warning(String),
    Plain(String),
}

/// The text of a message before colouring: a coloured prefix naming its
/// kind, or the bare text for `Plain`.
pub open spec fn message_source(m: MessageType) -> Seq<char> {
    match m {
        MessageType::Success(t) => "&aSuccess: "@ + t@ + "&r"@,
        MessageType::Error(t) => "&cError: "@ + t@ + "&r"@,
        MessageType::Info(t) => "&bInfo: "@ + t@ + "&r"@,
        MessageType::Warning(t) => "&eWarning: "@ + t@ + "&r"@,
        MessageType::Plain(t) => t@,
    }
}

/// The coloured line a message prints as.
pub fn message_text(message_type: &MessageType) -> (r: String)
    ensures
        r@ == colorized(message_source(*message_type)),
{
    let mut src: String;
    match message_type {
        MessageType::Success(t) => {
            src = String::from_str("&aSuccess: ");
            src.append(t.as_str());
            src.append("&r");
        },
        MessageType::Error(t) => {
            src = String::from_str("&cError: ");
            src.append(t.as_str());
            src.append("&r");
        },
        MessageType::Info(t) => {
            src = String::from_str("&bInfo: ");
            src.append(t.as_str());
            src.append("&r");
        },
        MessageType::Warning(t) => {
            src = String::from_str("&eWarning: ");
            src.append(t.as_str());
            src.append("&r");
        },
        MessageType::Plain(t) => {
            src = t.clone();
        },
    }
    colorize(src.as_str())
}

/// The inner width of a box, in visible characters.
pub const BOX_WIDTH: usize = 85;

/// How a line sits inside a box.
#[derive(Debug, Clone, Copy, PartialEq, Eq, Structural)]
pub enum BoxAlignment {
    Left,
    Center,
}

/// A box's title and colour codes.
#[derive(Debug)]
pub struct BoxOptions {
    pub title: Option<String>,
    pub title_color: char,
    pub border_color: char,
}

impl Default for BoxOptions {
    fn default() -> (r: BoxOptions)
        ensures
            r.title is None,
            r.title_color == '3',
            r.border_color == 'f',
    {
        BoxOptions { title: None, title_color: '3', border_color: 'f' }
    }
}

/// `n` copies of `c`.
pub open spec fn repeat(c: char, n: nat) -> Seq<char>
    decreases n,
{
    if n == 0 {
        Seq::empty()
    } else {
        repeat(c, (n - 1) as nat).push(c)
    }
}

fn push_repeat(out: &mut String, c: char, n: usize)
    ensures
        final(out)@ == old(out)@ + repeat(c, n as nat),
{
    let ghost start = out@;
    let mut i: usize = 0;
    while i < n
        invariant
            i <= n,
            out@ == start + repeat(c, i as nat),
        decreases n - i,
    {
        push_char(out, c);
        assert(start + repeat(c, (i + 1) as nat) =~= (start + repeat(c, i as nat)).push(c));
        i += 1;
    }
}

pub open spec fn sat_sub(a: nat, b: nat) -> nat {
    if a >= b {
        (a - b) as nat
    } else {
        0
    }
}

/// The box's top border, with the title when there is one.
pub open spec fn box_top_source(title: Option<Seq<char>>, title_color: char, border_color: char) -> Seq<char> {
    match title {
        Some(t) => seq!['&', border_color] + "┌─ "@ + seq!['&', title_color] + t + "&r "@ + seq!['&', border_color]
            + "─"@ + repeat('─', sat_sub(BOX_WIDTH as nat, visible_len(t) + 4)) + "┐&r"@,
        None => seq!['&', border_color] + "┌"@ + repeat('─', BOX_WIDTH as nat) + "┐&r"@,
    }
}

pub open spec fn box_bottom_source(border_color: char) -> Seq<char> {
    seq!['&', border_color] + "└"@ + repeat('─', BOX_WIDTH as nat) + "┘&r"@
}

/// The padding left and right of a line of `len` visible characters.
pub open spec fn padding(len: nat, alignment: BoxAlignment) -> (nat, nat) {
    let total = sat_sub(BOX_WIDTH as nat, len);
    match alignment {
        BoxAlignment::Left => if total == 0 {
            (0, 0)
        } else {
            (1, (total - 1) as nat)
        },
        BoxAlignment::Center => ((total / 2) as nat, (total - total / 2) as nat),
    }
}

pub open spec fn box_line_source(content: Seq<char>, alignment: BoxAlignment, border_color: char) -> Seq<char> {
    let (l, r) = padding(visible_len(content), alignment);
    seq!['&', border_color] + "│"@ + repeat(' ', l) + content + repeat(' ', r) + seq!['&', border_color] + "│&r"@
}

fn push_code(out: &mut String, code: char)
    ensures
        final(out)@ == old(out)@ + seq!['&', code],
{
    push_char(out, '&');
    push_char(out, code);
    assert(old(out)@.push('&').push(code) =~= old(out)@ + seq!['&', code]);
}

/// The top border of a box, coloured.
pub fn box_top(options: &BoxOptions) -> (r: String)
    ensures
        r@ == colorized(
            box_top_source(
                match options.title {
                    Some(t) => Some(t@),
                    None => None,
                },
                options.title_color,
                options.border_color,
            ),
        ),
{
    let mut src = String::new();
    push_code(&mut src, options.border_color);
    match &options.title {
        Some(t) => {
            src.append("┌─ ");
            push_code(&mut src, options.title_color);
            src.append(t.as_str());
            src.append("&r ");
            push_code(&mut src, options.border_color);
            src.append("─");
            let len = visible_length(t.as_str());
            let remaining = if len <= BOX_WIDTH - 4 { BOX_WIDTH - 4 - len } else { 0 };
            push_repeat(&mut src, '─', remaining);
            src.append("┐&r");
        },
        None => {
            src.append("┌");
            push_repeat(&mut src, '─', BOX_WIDTH);
            src.append("┐&r");
        },
    }
    colorize(src.as_str())
}

/// The bottom border of a box, coloured.
pub fn box_bottom(options: &BoxOptions) -> (r: String)
    ensures
        r@ == colorized(box_bottom_source(options.border_color)),
{
    let mut src = String::new();
    push_code(&mut src, options.border_color);
    src.append("└");
    push_repeat(&mut src, '─', BOX_WIDTH);
    src.append("┘&r");
    colorize(src.as_str())
}

/// One line of a box, padded to the box's width, coloured.
pub fn box_line(content: &str, alignment: BoxAlignment, border_color: char) -> (r: String)
    ensures
        r@ == colorized(box_line_source(content@, alignment, border_color)),
{
    let len = visible_length(content);
    let total = if BOX_WIDTH >= len { BOX_WIDTH - len } else { 0 };
    let (left, right) = match alignment {
        BoxAlignment::Left => if total == 0 {
            (0, 0)
        } else {
            (1, total - 1)
        },
        BoxAlignment::Center => (total / 2, total - total / 2),
    };
    let mut src = String::new();
    push_code(&mut src, border_color);
    src.append("│");
    push_repeat(&mut src, ' ', left);
    src.append(content);
    push_repeat(&mut src, ' ', right);
    push_code(&mut src, border_color);
    src.append("│&r");
    colorize(src.as_str())
}

/// The lines of a box around `lines`: top border, one line each, bottom border.
pub fn render_box(lines: &Vec<(String, BoxAlignment)>, options: &BoxOptions) -> (r: Vec<String>)
    ensures
        r@.len() == lines@.len() + 2,
        r@[0]@ == colorized(
            box_top_source(
                match options.title {
                    Some(t) => Some(t@),
                    None => None,
                },
                options.title_color,
                options.border_color,
            ),
        ),
        forall|i: int|
            0 <= i < lines@.len() ==> (#[trigger] r@[i + 1])@ == colorized(
                box_line_source(lines@[i].0@, lines@[i].1, options.border_color),
            ),
        r@[lines@.len() as int + 1]@ == colorized(box_bottom_source(options.border_color)),
{
    let mut r: Vec<String> = Vec::new();
    r.push(box_top(options));
    let mut i: usize = 0;
    while i < lines.len()
        invariant
            i <= lines@.len(),
            r@.len() == i + 1,
            r@[0]@ == colorized(
                box_top_source(
                    match options.title {
                        Some(t) => Some(t@),
                        None => None,
                    },
                    options.title_color,
                    options.border_color,
                ),
            ),
            forall|k: int|
                0 <= k < i ==> (#[trigger] r@[k + 1])@ == colorized(
                    box_line_source(lines@[k].0@, lines@[k].1, options.border_color),
                ),
        decreases lines@.len() - i,
    {
        r.push(box_line(lines[i].0.as_str(), lines[i].1, options.border_color));
        i += 1;
    }
    r.push(box_bottom(options));
    r
}

/// `path` cut to at most `max_len` characters: its start and its end
/// around an ellipsis.
pub open spec fn shortened(path: Seq<char>, max_len: nat) -> Seq<char> {
    if path.len() <= max_len {
        path
    } else {
        let keep = sat_sub(max_len, 3);
        let start = keep / 2;
        let end = (keep - start) as nat;
        path.subrange(0, start as int) + "..."@ + path.subrange(path.len() - end, path.len() as int)
    }
}

/// `path` cut to at most `max_len` characters, keeping its start and its end.
pub fn shorten_path(path: &str, max_len: usize) -> (r: String)
    ensures
        r@ == shortened(path@, max_len as nat),
{
    let s = chars_of(path);
    let n = s.len();
    if n <= max_len {
        return String::from_str(path);
    }
    let keep = if max_len >= 3 { max_len - 3 } else { 0 };
    let start = keep / 2;
    let end = keep - start;
    let mut r = crate::text::string_of(&crate::text::slice_chars(&s, 0, start));
    r.append("...");
    let tail = crate::text::string_of(&crate::text::slice_chars(&s, n - end, n));
    r.append(tail.as_str());
    r
}

pub open spec fn columns_view(v: Seq<(String, usize)>) -> Seq<(Seq<char>, nat)> {
    v.map_values(|c: (String, usize)| (c.0@, c.1 as nat))
}

/// The header cells of the first `k` columns.
pub open spec fn header_cells(cols: Seq<(Seq<char>, nat)>, k: int) -> Seq<char>
    decreases k,
{
    if k <= 0 {
        Seq::empty()
    } else {
        let (title, width) = cols[k - 1];
        header_cells(cols, k - 1) + (if k - 1 > 0 {
            "&8─┬─"@
        } else {
            Seq::empty()
        }) + "&f"@ + title + "&r &8─"@ + repeat('─', sat_sub(width, title.len() + 1))
    }
}

/// The row cells of the first `k` columns; the last column gets no extra space.
pub open spec fn row_cells(cols: Seq<(Seq<char>, nat)>, values: Seq<Seq<char>>, k: int) -> Seq<char>
    decreases k,
{
    if k <= 0 {
        Seq::empty()
    } else {
        let width = cols[k - 1].1;
        let value = values[k - 1];
        let pad = if k - 1 < cols.len() - 1 {
            sat_sub(width + 1, visible_len(value))
        } else {
            sat_sub(width, visible_len(value))
        };
        row_cells(cols, values, k - 1) + (if k - 1 > 0 {
            " &8│&r "@
        } else {
            Seq::empty()
        }) + value + repeat(' ', pad)
    }
}

/// The footer cells of the first `k` columns.
pub open spec fn footer_cells(cols: Seq<(Seq<char>, nat)>, k: int) -> Seq<char>
    decreases k,
{
    if k <= 0 {
        Seq::empty()
    } else {
        footer_cells(cols, k - 1) + (if k - 1 > 0 {
            "─┴─"@
        } else {
            Seq::empty()
        }) + repeat('─', cols[k - 1].1 + 1)
    }
}

/// The header line of a table with the given (title, width) columns, coloured.
pub fn table_header(columns: &Vec<(String, usize)>) -> (r: String)
    ensures
        r@ == colorized("&8  ┌ "@ + header_cells(columns_view(columns@), columns@.len() as int) + "&8┐&r"@),
{
    let ghost cv = columns_view(columns@);
    let mut body = String::new();
    let mut i: usize = 0;
    while i < columns.len()
        invariant
            cv == columns_view(columns@),
            i <= columns@.len(),
            body@ == header_cells(cv, i as int),
        decreases columns@.len() - i,
    {
        let title = &columns[i].0;
        let width = columns[i].1;
        if i > 0 {
            body.append("&8─┬─");
        }
        body.append("&f");
        body.append(title.as_str());
        body.append("&r &8─");
        let tl = title.as_str().unicode_len();
        let pad = if tl < width { width - tl - 1 } else { 0 };
        push_repeat(&mut body, '─', pad);
        assert(body@ =~= header_cells(cv, i + 1));
        i += 1;
    }
    let mut src = String::from_str("&8  ┌ ");
    src.append(body.as_str());
    src.append("&8┐&r");
    colorize(src.as_str())
}

/// One row of a table: each value padded to its column's width, coloured.
pub fn table_row(columns: &Vec<(String, usize)>, values: &Vec<String>) -> (r: String)
    requires
        forall|i: int| 0 <= i < columns@.len() ==> (#[trigger] columns@[i]).1 < usize::MAX,
    ensures
        r@ == colorized(
            "&8  │&r "@ + row_cells(
                columns_view(columns@),
                values@.map_values(|v: String| v@),
                if columns@.len() <= values@.len() {
                    columns@.len() as int
                } else {
                    values@.len() as int
                },
            ) + " &8│&r"@,
        ),
{
    let ghost cv = columns_view(columns@);
    let ghost vv = values@.map_values(|v: String| v@);
    let n = if columns.len() <= values.len() { columns.len() } else { values.len() };
    let mut body = String::new();
    let mut i: usize = 0;
    while i < n
        invariant
            cv == columns_view(columns@),
            vv == values@.map_values(|v: String| v@),
            n <= columns@.len(),
            n <= values@.len(),
            forall|k: int| 0 <= k < columns@.len() ==> (#[trigger] columns@[k]).1 < usize::MAX,
            i <= n,
            body@ == row_cells(cv, vv, i as int),
        decreases n - i,
    {
        let width = columns[i].1;
        let value = &values[i];
        if i > 0 {
            body.append(" &8│&r ");
        }
        body.append(value.as_str());
        let vl = visible_length(value.as_str());
        let full = if i < columns.len() - 1 { width + 1 } else { width };
        let pad = if vl < full { full - vl } else { 0 };
        push_repeat(&mut body, ' ', pad);
        assert(body@ =~= row_cells(cv, vv, i + 1));
        i += 1;
    }
    let mut src = String::from_str("&8  │&r ");
    src.append(body.as_str());
    src.append(" &8│&r");
    colorize(src.as_str())
}

/// The footer line of a table, coloured.
pub fn table_footer(columns: &Vec<(String, usize)>) -> (r: String)
    requires
        forall|i: int| 0 <= i < columns@.len() ==> (#[trigger] columns@[i]).1 < usize::MAX,
    ensures
        r@ == colorized("&8  └─"@ + footer_cells(columns_view(columns@), columns@.len() as int) + "&8┘&r"@),
{
    let ghost cv = columns_view(columns@);
    let mut body = String::new();
    let mut i: usize = 0;
    while i < columns.len()
        invariant
            cv == columns_view(columns@),
            forall|k: int| 0 <= k < columns@.len() ==> (#[trigger] columns@[k]).1 < usize::MAX,
            i <= columns@.len(),
            body@ == footer_cells(cv, i as int),
        decreases columns@.len() - i,
    {
        if i > 0 {
            body.append("─┴─");
        }
        push_repeat(&mut body, '─', columns[i].1 + 1);
        assert(body@ =~= footer_cells(cv, i + 1));
        i += 1;
    }
    let mut src = String::from_str("&8  └─");
    src.append(body.as_str());
    src.append("&8┘&r");
    colorize(src.as_str())
}

} // verus!
