//! What a renderer draws: the lines of the rows with their indentation and
//! icons, the part of the row list that fits the screen, and the status
//! line.

use crate::nav::App;
use crate::tree::{flatten_from, next_depth, Dir, EntryKind, Row};
use vstd::prelude::*;
use vstd::string::*;

verus! {

/// Background colour of an icon.
#[derive(Clone, Copy, Debug, PartialEq, Eq, Structural)]
pub enum IconColor {
    Red,
    Blue,
    Grey,
    Yellow,
    Magenta,
    White,
}

/// The glyph (followed by a space) and the colour shown for a file
/// extension.
pub open spec fn icon_of(ext: Seq<char>) -> (Seq<char>, IconColor) {
    if ext == "png"@ {
        ("\u{e2a6} "@, IconColor::Red)
    } else if ext == "rs"@ {
        ("\u{e7a8} "@, IconColor::Red)
    } else if ext == "go"@ {
        ("\u{e627} "@, IconColor::Blue)
    } else if ext == "toml|conf"@ {
        ("\u{e615} "@, IconColor::Grey)
    } else if ext == "ts"@ {
        ("\u{e628} "@, IconColor::Blue)
    } else if ext == "js"@ {
        ("\u{e60c} "@, IconColor::Yellow)
    } else if ext == "java"@ {
        ("\u{e738} "@, IconColor::Red)
    } else if ext == "zip"@ {
        ("\u{f06eb} "@, IconColor::Magenta)
    } else {
        ("\u{f4a5} "@, IconColor::White)
    }
}

fn is_text(s: &String, text: &str) -> (b: bool)
    ensures
        b == (s@ == text@),
{
    *s == String::from_str(text)
}

/// The icon of a file with the extension `ext`.
pub fn get_icon(ext: String) -> (icon: (String, IconColor))
    ensures
        (icon.0@, icon.1) == icon_of(ext@),
{
    if is_text(&ext, "png") {
        (String::from_str("\u{e2a6} "), IconColor::Red)
    } else if is_text(&ext, "rs") {
        (String::from_str("\u{e7a8} "), IconColor::Red)
    } else if is_text(&ext, "go") {
        (String::from_str("\u{e627} "), IconColor::Blue)
    } else if is_text(&ext, "toml|conf") {
        (String::from_str("\u{e615} "), IconColor::Grey)
    } else if is_text(&ext, "ts") {
        (String::from_str("\u{e628} "), IconColor::Blue)
    } else if is_text(&ext, "js") {
        (String::from_str("\u{e60c} "), IconColor::Yellow)
    } else if is_text(&ext, "java") {
        (String::from_str("\u{e738} "), IconColor::Red)
    } else if is_text(&ext, "zip") {
        (String::from_str("\u{f06eb} "), IconColor::Magenta)
    } else {
        (String::from_str("\u{f4a5} "), IconColor::White)
    }
}

/// Position of the last dot among the first `n` characters of `name`, or -1
/// if there is none.
pub open spec fn last_dot(name: Seq<char>, n: int) -> int
    decreases n,
{
    if n <= 0 {
        -1
    } else if name[n - 1] == '.' {
        n - 1
    } else {
        last_dot(name, n - 1)
    }
}

/// The extension of a file name: what follows its last dot, unless that dot
/// opens the name or the name has none.
pub open spec fn extension_of(name: Seq<char>) -> Seq<char> {
    let dot = last_dot(name, name.len() as int);
    if dot > 0 {
        name.subrange(dot + 1, name.len() as int)
    } else {
        Seq::empty()
    }
}

/// The extension of the file name `name`, empty if it has none.
pub fn extension(name: &str) -> (ext: &str)
    ensures
        ext@ == extension_of(name@),
{
    let n = name.unicode_len();
    let mut dot: usize = 0;
    let mut found = false;
    let mut i: usize = 0;
    while i < n
        invariant
            i <= n,
            n == name@.len(),
            found ==> dot < i && last_dot(name@, i as int) == dot,
            !found ==> last_dot(name@, i as int) == -1,
        decreases n - i,
    {
        if name.get_char(i) == '.' {
            dot = i;
            found = true;
        }
        i += 1;
    }
    if found && dot > 0 {
        name.substring_char(dot + 1, n)
    } else {
        proof {
            reveal_strlit("");
        }
        let none = "";
        assert(none@ =~= Seq::<char>::empty());
        none
    }
}

/// One row as it is drawn: `indent` units of indentation, a corner mark if
/// `corner`, the icon on its background colour (none for a directory), and
/// the name.
#[derive(Debug)]
pub struct Line {
    pub indent: usize,
    pub corner: bool,
    pub icon: String,
    pub color: Option<IconColor>,
    pub name: String,
}

/// Row `i` is the first subdirectory of a directory below the top level: it
/// gets the corner mark.
pub open spec fn first_below(rows: Seq<Row>, i: int) -> bool {
    rows[i].kind == EntryKind::Directory && rows[i].depth > 0 && (i == 0 || rows[i - 1].depth
        < rows[i].depth)
}

/// Units of indentation of row `i`: one more than its depth, but the depth
/// itself where the corner mark follows, and none for a directory of the top
/// level.
pub open spec fn indent_of(rows: Seq<Row>, i: int) -> usize {
    if rows[i].kind == EntryKind::Directory && (rows[i].depth == 0 || first_below(rows, i)) {
        rows[i].depth
    } else {
        next_depth(rows[i].depth)
    }
}

/// `line` is row `i` of `rows` as drawn.
pub open spec fn draws(line: Line, rows: Seq<Row>, i: int) -> bool {
    &&& line.indent == indent_of(rows, i)
    &&& line.corner == first_below(rows, i)
    &&& line.name == rows[i].name
    &&& if rows[i].kind == EntryKind::Directory {
        line.icon@ == "\u{f024b} "@ && line.color.is_none()
    } else {
        line.color.is_some() && (line.icon@, line.color.unwrap()) == icon_of(
            extension_of(rows[i].name@),
        )
    }
}

/// `lines` are the rows `rows` as drawn, one line for each row.
pub open spec fn drawn(lines: Seq<Line>, rows: Seq<Row>) -> bool {
    &&& lines.len() == rows.len()
    &&& forall|i: int| 0 <= i < rows.len() ==> draws(#[trigger] lines[i], rows, i)
}

/// Lays out `rows` for drawing.
pub fn render_rows(rows: &Vec<Row>) -> (lines: Vec<Line>)
    ensures
        drawn(lines@, rows@),
{
    let mut lines: Vec<Line> = Vec::new();
    let mut i: usize = 0;
    while i < rows.len()
        invariant
            i <= rows.len(),
            lines.len() == i,
            forall|j: int| 0 <= j < i ==> draws(#[trigger] lines[j], rows@, j),
        decreases rows.len() - i,
    {
        let row = &rows[i];
        let deeper = if row.depth < usize::MAX {
            row.depth + 1
        } else {
            row.depth
        };
        let line = if row.kind == EntryKind::Directory {
            let corner = row.depth > 0 && (i == 0 || rows[i - 1].depth < row.depth);
            Line {
                indent: if row.depth == 0 || corner {
                    row.depth
                } else {
                    deeper
                },
                corner,
                icon: String::from_str("\u{f024b} "),
                color: None,
                name: row.name.clone(),
            }
        } else {
            let icon = get_icon(String::from_str(extension(row.name.as_str())));
            Line { indent: deeper, corner: false, icon: icon.0, color: Some(icon.1), name: row.name.clone() }
        };
        lines.push(line);
        i += 1;
    }
    lines
}

/// The lines drawn for what is visible below `dir`, where the children of
/// `dir` are at depth `level`.
pub fn render_dir(dir: &Dir, level: usize) -> (lines: Vec<Line>)
    ensures
        drawn(lines@, dir.rows(level, false)),
{
    let rows = flatten_from(dir, level);
    render_rows(&rows)
}

/// No more rows than this are drawn at once.
pub const MAX_LINES: usize = 50;

/// The rows to draw: `count` rows from row `first` on, of which the one at
/// offset `highlighted` (if that is below `count`) is the selection.
#[derive(Clone, Copy, Debug, PartialEq, Eq, Structural)]
pub struct Window {
    pub first: usize,
    pub count: usize,
    pub highlighted: usize,
}

/// The window on the rows of `app`: from the scroll offset on, `MAX_LINES`
/// rows at most; the selection is highlighted at its offset from the scroll
/// offset, or at its own index where it lies above the window.
pub open spec fn window_of(app: App) -> Window {
    let rest: int = if app.scroll <= app.len() {
        app.len() - app.scroll
    } else {
        0
    };
    Window {
        first: app.scroll,
        count: if rest < MAX_LINES {
            rest as usize
        } else {
            MAX_LINES
        },
        highlighted: if app.selected_index < app.scroll {
            app.selected_index
        } else {
            (app.selected_index - app.scroll) as usize
        },
    }
}

/// Clips the row list to what is drawn: everything from the scroll offset
/// on, `MAX_LINES` rows at most, with the selection's offset among them.
pub fn draw_dir(app: &App) -> (w: Window)
    ensures
        w == window_of(*app),
{
    let n = app.selectable_items.len();
    let rest: usize = if app.scroll <= n {
        n - app.scroll
    } else {
        0
    };
    Window {
        first: app.scroll,
        count: if rest < MAX_LINES {
            rest
        } else {
            MAX_LINES
        },
        highlighted: if app.selected_index < app.scroll {
            app.selected_index
        } else {
            app.selected_index - app.scroll
        },
    }
}

/// The character of the decimal digit `d`.
pub open spec fn digit(d: nat) -> char {
    if d == 0 {
        '0'
    } else if d == 1 {
        '1'
    } else if d == 2 {
        '2'
    } else if d == 3 {
        '3'
    } else if d == 4 {
        '4'
    } else if d == 5 {
        '5'
    } else if d == 6 {
        '6'
    } else if d == 7 {
        '7'
    } else if d == 8 {
        '8'
    } else {
        '9'
    }
}

/// `n` in decimal, without leading zeros.
pub open spec fn decimal(n: nat) -> Seq<char>
    decreases n,
{
    if n < 10 {
        seq![digit(n)]
    } else {
        decimal(n / 10).push(digit(n % 10))
    }
}

fn digit_text(d: usize) -> (s: &'static str)
    requires
        d < 10,
    ensures
        s@ == seq![digit(d as nat)],
{
    proof {
        reveal_strlit("0");
        reveal_strlit("1");
        reveal_strlit("2");
        reveal_strlit("3");
        reveal_strlit("4");
        reveal_strlit("5");
        reveal_strlit("6");
        reveal_strlit("7");
        reveal_strlit("8");
        reveal_strlit("9");
    }
    let s = if d == 0 {
        "0"
    } else if d == 1 {
        "1"
    } else if d == 2 {
        "2"
    } else if d == 3 {
        "3"
    } else if d == 4 {
        "4"
    } else if d == 5 {
        "5"
    } else if d == 6 {
        "6"
    } else if d == 7 {
        "7"
    } else if d == 8 {
        "8"
    } else {
        "9"
    };
    assert(s@ =~= seq![digit(d as nat)]);
    s
}

/// Writes `n` in decimal.
pub fn decimal_text(n: usize) -> (s: String)
    ensures
        s@ == decimal(n as nat),
    decreases n,
{
    if n < 10 {
        String::from_str(digit_text(n))
    } else {
        let s = decimal_text(n / 10).concat(digit_text(n % 10));
        assert(s@ =~= decimal(n as nat));
        s
    }
}

/// The letter shown for the kind of the selected entity.
pub open spec fn kind_letter(e: Option<Row>) -> Seq<char> {
    match e {
        Some(row) => if row.kind == EntryKind::Directory {
            "d"@
        } else {
            "f"@
        },
        None => ""@,
    }
}

/// The name shown for the selected entity, empty if there is none.
pub open spec fn name_of(e: Option<Row>) -> Seq<char> {
    match e {
        Some(row) => row.name@,
        None => ""@,
    }
}

/// The text of the status line: the root's path, `user@host`, the screen
/// size, scroll offset, selection and row count, and kind and name of the
/// selected entity.
pub open spec fn status_of(
    app: App,
    e: Option<Row>,
    user: Seq<char>,
    host: Seq<char>,
    width: u16,
    height: u16,
) -> Seq<char> {
    app.main_dir.full_path@ + " "@ + user + "@"@ + host + " "@ + decimal(width as nat) + "x"@
        + decimal(height as nat) + " /"@ + decimal(app.scroll as nat) + " @"@ + decimal(
        app.selected_index as nat,
    ) + " #"@ + decimal(app.len()) + " "@ + kind_letter(e) + " { "@ + name_of(e) + " } "@
}

/// Composes the status line for the selected entity `e`.
pub fn status_line(
    app: &App,
    e: Option<&Row>,
    user: &str,
    host: &str,
    width: u16,
    height: u16,
) -> (text: String)
    ensures
        text@ == status_of(
            *app,
            match e {
                Some(row) => Some(*row),
                None => None,
            },
            user@,
            host@,
            width,
            height,
        ),
{
    let mut text = app.main_dir.full_path.clone();
    text.append(" ");
    text.append(user);
    text.append("@");
    text.append(host);
    text.append(" ");
    text.append(decimal_text(width as usize).as_str());
    text.append("x");
    text.append(decimal_text(height as usize).as_str());
    text.append(" /");
    text.append(decimal_text(app.scroll).as_str());
    text.append(" @");
    text.append(decimal_text(app.selected_index).as_str());
    text.append(" #");
    text.append(decimal_text(app.selectable_items.len()).as_str());
    text.append(" ");
    match e {
        Some(row) => {
            if row.kind == EntryKind::Directory {
                text.append("d");
            } else {
                text.append("f");
            }
            text.append(" { ");
            text.append(row.name.as_str());
        },
        None => {
            text.append("");
            text.append(" { ");
            text.append("");
        },
    }
    text.append(" } ");
    text
}

/// The name of the user who runs the process, from
/// `users::get_current_username`: `None` where the system knows no such user,
/// `Some(None)` where the name is not valid text. It is read from the system,
/// so nothing is stated of it.
#[verifier::external_body]
fn current_username() -> (name: Option<Option<String>>) {
    users::get_current_username().map(|n| n.into_string().ok())
}

/// The name of the host, from `sysinfo::System::host_name`: `None` where it
/// cannot be had. It is read from the system, so nothing is stated of it.
#[verifier::external_body]
fn host_name() -> (name: Option<String>) {
    sysinfo::System::host_name()
}

/// The user name to show: `user` where none is known, nothing where the
/// name is not valid text.
pub open spec fn user_of(name: Option<Option<String>>) -> Seq<char> {
    match name {
        None => "user"@,
        Some(None) => ""@,
        Some(Some(s)) => s@,
    }
}

/// The user name to show for what the system reported.
pub fn user_text(name: Option<Option<String>>) -> (s: String)
    ensures
        s@ == user_of(name),
{
    match name {
        None => String::from_str("user"),
        Some(None) => String::from_str(""),
        Some(Some(s)) => s,
    }
}

/// The host name to show: nothing where none is known.
pub open spec fn host_of(name: Option<String>) -> Seq<char> {
    match name {
        None => ""@,
        Some(s) => s@,
    }
}

/// The host name to show for what the system reported.
pub fn host_text(name: Option<String>) -> (s: String)
    ensures
        s@ == host_of(name),
{
    match name {
        None => String::from_str(""),
        Some(s) => s,
    }
}

/// `text` is the status line of `app` for what its selection resolves to
/// and for some user and host name.
pub open spec fn is_status(app: App, text: Seq<char>, width: u16, height: u16) -> bool {
    exists|e: Option<Row>, user: Option<Option<String>>, host: Option<String>|
        app.resolves_to(e) && text == #[trigger] status_of(
            app,
            e,
            user_of(user),
            host_of(host),
            width,
            height,
        )
}

/// The status line of `app`, with the names of the current user and of the
/// host as the system reports them.
pub fn status_bar(app: &App, width: u16, height: u16) -> (text: String)
    requires
        app.wf(),
    ensures
        is_status(*app, text@, width, height),
{
    let found_user = current_username();
    let found_host = host_name();
    let ghost names = (found_user, found_host);
    let user = user_text(found_user);
    let host = host_text(found_host);
    let e = app.selected_entity();
    let ghost shown: Option<Row> = match e {
        Some(row) => Some(*row),
        None => None,
    };
    let text = status_line(app, e, user.as_str(), host.as_str(), width, height);
    assert(app.resolves_to(shown));
    assert(text@ == status_of(*app, shown, user_of(names.0), host_of(names.1), width, height));
    text
}

/// All that is drawn for one frame: the status line for the first screen
/// row, the lines of all rows, and the window that says which of them are
/// shown below it.
#[derive(Debug)]
pub struct Screen {
    pub status: String,
    pub lines: Vec<Line>,
    pub window: Window,
}

/// Composes the frame of `app` for a screen of `width` by `height`.
pub fn ui(app: &App, width: u16, height: u16) -> (screen: Screen)
    requires
        app.wf(),
    ensures
        is_status(*app, screen.status@, width, height),
        drawn(screen.lines@, app.selectable_items@),
        screen.window == window_of(*app),
{
    Screen {
        status: status_bar(app, width, height),
        lines: render_rows(&app.selectable_items),
        window: draw_dir(app),
    }
}

} // verus!
