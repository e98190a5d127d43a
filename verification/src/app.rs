//! The state of the interactive helper: the list of detected IDEs with their
//! check boxes, the focus, the notification bar and the multi-line option
//! editor, together with every operation that the user's keys and clicks
//! trigger on it.
use vstd::prelude::*;

use crate::editor::column_in;
use crate::registry::{collect_apps, found_view, registry_of, strings_view};
use crate::text::{
    byte_len, byte_length, char_index, char_width, chars_of, lemma_boundary_of_index,
    lemma_byte_pos_full, lemma_lines_from_len, lines_from, lines_of, on_boundary, push_all,
    split_lines, string_of, trim, trim_chars,
};

verus! {

/// At most this many notifications are kept.
pub const MAX_NOTIFICATIONS: usize = 5;

/// The notification bar shows at most this many notifications.
pub const NOTIFICATIONS_SHOWN: usize = 3;

/// A notification is shown for this many nanoseconds.
pub const NOTIFICATION_LIFETIME_NANOS: u64 = 4_000_000_000;

/// Which part of the screen receives the keys.
#[derive(Debug, Clone, Copy, PartialEq, Eq, Structural)]
pub enum Focus {
    AppList,
    Buttons,
    Input,
}

/// Which of the two buttons is highlighted.
#[derive(Debug, Clone, Copy, PartialEq, Eq, Structural)]
pub enum ButtonFocus {
    Apply,
    Quit,
}

/// How a notification is coloured.
#[derive(Debug, Clone, Copy, PartialEq, Eq, Structural)]
pub enum Severity {
    Info,
    Warning,
    Error,
}

/// A message in the notification bar; `born` is the time at which it was
/// posted, in nanoseconds on the caller's monotonic clock.
pub struct Notification {
    pub message: String,
    pub severity: Severity,
    pub born: u64,
}

/// A rectangle of terminal cells.
#[derive(Debug, Clone, Copy, PartialEq, Eq, Structural)]
pub struct Rect {
    pub x: u16,
    pub y: u16,
    pub width: u16,
    pub height: u16,
}

/// Where the last frame drew each widget.
#[derive(Debug, Clone, Copy, PartialEq, Eq, Structural)]
pub struct AppLayout {
    pub list_area: Rect,
    pub apply_area: Rect,
    pub quit_area: Rect,
    pub preview_area: Rect,
    pub input_area: Rect,
}

impl Rect {
    /// The empty rectangle at the origin.
    pub fn zero() -> (r: Rect)
        ensures
            r.x == 0 && r.y == 0 && r.width == 0 && r.height == 0,
    {
        Rect { x: 0, y: 0, width: 0, height: 0 }
    }
}

impl AppLayout {
    /// The layout before anything was drawn: every area is empty.
    pub fn empty() -> (l: AppLayout)
        ensures
            l.list_area == Rect::zero_spec(),
            l.apply_area == Rect::zero_spec(),
            l.quit_area == Rect::zero_spec(),
            l.preview_area == Rect::zero_spec(),
            l.input_area == Rect::zero_spec(),
    {
        AppLayout {
            list_area: Rect::zero(),
            apply_area: Rect::zero(),
            quit_area: Rect::zero(),
            preview_area: Rect::zero(),
            input_area: Rect::zero(),
        }
    }
}

/// The check boxes after toggling entry `i`: the entry flips; "All apps"
/// (entry 0) sets every entry to its new value; clearing an app clears
/// "All apps"; checking an app checks "All apps" exactly when every app is
/// then checked.
pub open spec fn toggled(cs: Seq<bool>, i: int) -> Seq<bool> {
    let v = !cs[i];
    if i == 0 {
        Seq::new(cs.len(), |j: int| v)
    } else if !v {
        cs.update(i, false).update(0, false)
    } else {
        let c = cs.update(i, true);
        c.update(0, all_apps_checked(c))
    }
}

/// Every app entry (all but entry 0) is checked.
pub open spec fn all_apps_checked(cs: Seq<bool>) -> bool {
    forall|j: int| 1 <= j < cs.len() ==> #[trigger] cs[j]
}

/// A notification as plain values: message, severity, time posted.
pub open spec fn note_view(n: Notification) -> (Seq<char>, Severity, u64) {
    (n.message@, n.severity, n.born)
}

/// The message and severity of the `count` latest notifications of `s` (or
/// all of them, if fewer), newest first.
pub open spec fn latest(s: Seq<(Seq<char>, Severity, u64)>, count: int) -> Seq<(Seq<char>, Severity)> {
    let n = if count < s.len() {
        count
    } else {
        s.len() as int
    };
    Seq::new(n as nat, |i: int| (s[s.len() - 1 - i].0, s[s.len() - 1 - i].1))
}

/// At most `MAX_NOTIFICATIONS` of the latest notifications.
pub open spec fn capped(s: Seq<(Seq<char>, Severity, u64)>) -> Seq<(Seq<char>, Severity, u64)> {
    if s.len() > MAX_NOTIFICATIONS {
        s.drop_first()
    } else {
        s
    }
}

/// A notification posted at `born` is still shown at time `now`.
pub open spec fn still_shown(born: u64, now: u64) -> bool {
    (if now >= born {
        now - born
    } else {
        0
    }) < NOTIFICATION_LIFETIME_NANOS
}

/// The notifications of `s` that are still shown at `now`, in order.
pub open spec fn shown_at(s: Seq<(Seq<char>, Severity, u64)>, now: u64) -> Seq<
    (Seq<char>, Severity, u64),
>
    decreases s.len(),
{
    if s.len() == 0 {
        s
    } else {
        let p = shown_at(s.drop_last(), now);
        if still_shown(s.last().2, now) {
            p.push(s.last())
        } else {
            p
        }
    }
}

/// The trimmed lines of `t` that are not empty, in order.
pub open spec fn options_of(t: Seq<Seq<char>>) -> Seq<Seq<char>>
    decreases t.len(),
{
    if t.len() == 0 {
        Seq::empty()
    } else {
        let p = options_of(t.drop_last());
        if trim(t.last()).len() > 0 {
            p.push(trim(t.last()))
        } else {
            p
        }
    }
}

/// Index into `t` wrapped around its length (Euclidean remainder).
pub open spec fn wrap_index(current: int, delta: int, len: int) -> int {
    (current + delta) % len
}

/// How adding one option to an options file went.
pub enum AppendResult {
    /// The option was added.
    Appended,
    /// The option was already in the file.
    AlreadySet,
    /// The file could not be read or written; the text says why.
    Failed(String),
}

/// How an apply went for one app: its name, whether its options file was
/// found, and how adding each option went.
pub struct AppReport {
    pub name: String,
    pub resolved: bool,
    pub results: Vec<AppendResult>,
}

/// The notifications of `notes` after posting each of `msgs` in turn at `now`.
pub open spec fn post_all(
    notes: Seq<(Seq<char>, Severity, u64)>,
    msgs: Seq<(Seq<char>, Severity)>,
    now: u64,
) -> Seq<(Seq<char>, Severity, u64)>
    decreases msgs.len(),
{
    if msgs.len() == 0 {
        notes
    } else {
        capped(post_all(notes, msgs.drop_last(), now).push((msgs.last().0, msgs.last().1, now)))
    }
}

/// Some option was added.
pub open spec fn appended_any(rs: Seq<AppendResult>) -> bool {
    exists|i: int| 0 <= i < rs.len() && #[trigger] rs[i] is Appended
}

/// One error message for each failed option of app `name`, in order.
pub open spec fn failure_messages(name: Seq<char>, rs: Seq<AppendResult>) -> Seq<
    (Seq<char>, Severity),
>
    decreases rs.len(),
{
    if rs.len() == 0 {
        Seq::empty()
    } else {
        let p = failure_messages(name, rs.drop_last());
        match rs.last() {
            AppendResult::Failed(e) => p.push((name + ": error \u{2013} "@ + e@, Severity::Error)),
            _ => p,
        }
    }
}

/// What an apply reports about app `name`: that its options file was not
/// found; or the failures, then whether any option was added.
pub open spec fn app_messages(name: Seq<char>, resolved: bool, rs: Seq<AppendResult>) -> Seq<
    (Seq<char>, Severity),
> {
    if !resolved {
        seq![(name + ": vmoptions not found"@, Severity::Error)]
    } else {
        failure_messages(name, rs).push(
            if appended_any(rs) {
                (name + ": updated"@, Severity::Info)
            } else {
                (name + ": already set"@, Severity::Warning)
            },
        )
    }
}

/// What an apply reports about each app of `reports`, in order.
pub open spec fn report_messages(reports: Seq<AppReport>) -> Seq<(Seq<char>, Severity)>
    decreases reports.len(),
{
    if reports.len() == 0 {
        Seq::empty()
    } else {
        report_messages(reports.drop_last()) + app_messages(
            reports.last().name@,
            reports.last().resolved,
            reports.last().results@,
        )
    }
}

/// Posting `m1` then `m2` is posting `m1 + m2`.
pub proof fn lemma_post_all_concat(
    notes: Seq<(Seq<char>, Severity, u64)>,
    m1: Seq<(Seq<char>, Severity)>,
    m2: Seq<(Seq<char>, Severity)>,
    now: u64,
)
    ensures
        post_all(post_all(notes, m1, now), m2, now) == post_all(notes, m1 + m2, now),
    decreases m2.len(),
{
    if m2.len() == 0 {
        assert(m1 + m2 =~= m1);
    } else {
        lemma_post_all_concat(notes, m1, m2.drop_last(), now);
        assert((m1 + m2).drop_last() =~= m1 + m2.drop_last());
        assert((m1 + m2).last() == m2.last());
    }
}

/// The preview of one app: its name, its program and its options file.
pub open spec fn preview_entry(name: Seq<char>, binary: Seq<char>, path: Option<Seq<char>>) -> Seq<
    char,
> {
    name + "\n  "@ + binary + "\n  \u{2192} "@ + (match path {
        Some(p) => p,
        None => "NOT FOUND"@,
    }) + "\n"@
}

/// The parts joined by line breaks.
pub open spec fn join_lines(parts: Seq<Seq<char>>) -> Seq<char>
    decreases parts.len(),
{
    if parts.len() == 0 {
        Seq::empty()
    } else if parts.len() == 1 {
        parts[0]
    } else {
        join_lines(parts.drop_last()) + "\n"@ + parts.last()
    }
}

/// The characters of an optional string.
pub open spec fn opt_view(o: Option<String>) -> Option<Seq<char>> {
    match o {
        Some(s) => Some(s@),
        None => None,
    }
}

/// The editor's lines at start: those of the initial text, or one empty line.
pub open spec fn initial_lines(initial: Option<Seq<char>>) -> Seq<Seq<char>> {
    match initial {
        Some(s) => if lines_of(s).len() > 0 {
            lines_of(s)
        } else {
            seq![Seq::empty()]
        },
        None => seq![Seq::empty()],
    }
}

impl Rect {
    pub open spec fn zero_spec() -> Rect {
        Rect { x: 0, y: 0, width: 0, height: 0 }
    }

    /// The rectangle ends inside the coordinate range.
    pub open spec fn fits(self) -> bool {
        self.x + self.width <= u16::MAX && self.y + self.height <= u16::MAX
    }

    /// The cell (`col`, `row`) lies in the rectangle.
    pub open spec fn has(self, col: u16, row: u16) -> bool {
        self.x <= col < self.x + self.width && self.y <= row < self.y + self.height
    }
}

impl AppLayout {
    pub open spec fn empty_spec() -> AppLayout {
        AppLayout {
            list_area: Rect::zero_spec(),
            apply_area: Rect::zero_spec(),
            quit_area: Rect::zero_spec(),
            preview_area: Rect::zero_spec(),
            input_area: Rect::zero_spec(),
        }
    }

    /// Every area ends inside the coordinate range.
    pub open spec fn fits(self) -> bool {
        &&& self.list_area.fits()
        &&& self.apply_area.fits()
        &&& self.quit_area.fits()
        &&& self.preview_area.fits()
        &&& self.input_area.fits()
    }
}

/// Whether the cell (`col`, `row`) lies in `r`.
pub fn rect_contains(r: Rect, col: u16, row: u16) -> (b: bool)
    requires
        r.fits(),
    ensures
        b == r.has(col, row),
{
    col >= r.x && col < r.x + r.width && row >= r.y && row < r.y + r.height
}

/// `v - 1`, or 0 for 0.
pub open spec fn minus_one(v: u16) -> int {
    if v >= 1 {
        v - 1
    } else {
        0
    }
}

/// `a - b`, or 0 when `b > a`.
pub open spec fn sub_or_zero(a: int, b: int) -> int {
    if a >= b {
        a - b
    } else {
        0
    }
}

/// A mouse event, as far as the helper tells them apart.
#[derive(Debug, Clone, Copy, PartialEq, Eq, Structural)]
pub enum MouseKind {
    LeftDown,
    ScrollUp,
    ScrollDown,
    Other,
}

/// A key as the helper sees it.
#[derive(Debug, Clone, Copy, PartialEq, Eq, Structural)]
pub enum KeyCode {
    Char(char),
    Esc,
    Tab,
    Enter,
    Backspace,
    Delete,
    Left,
    Right,
    Up,
    Down,
    Home,
    End,
    PageUp,
    PageDown,
    Other,
}

/// A key event: the key, whether Control was held, and whether the key was
/// released (rather than pressed or repeated).
#[derive(Debug, Clone, Copy, PartialEq, Eq, Structural)]
pub struct KeyInput {
    pub code: KeyCode,
    pub ctrl: bool,
    pub release: bool,
}

/// What the event loop does after an event.
#[derive(Debug, Clone, Copy, PartialEq, Eq, Structural)]
pub enum Outcome {
    /// Keep running.
    Continue,
    /// Apply the entered options to the selected apps, then keep running.
    Apply,
    /// Leave.
    Quit,
}

/// What a key asks of the state.
#[derive(Debug, Clone, Copy, PartialEq, Eq, Structural)]
pub enum Command {
    Nothing,
    Quit,
    Apply,
    FocusOn(Focus),
    PickButton(ButtonFocus),
    Insert(char),
    Newline,
    Backspace,
    Delete,
    Left,
    Right,
    Up,
    Down,
    Home,
    End,
    ListUp,
    ListDown,
    Toggle,
    PreviewUp,
    PreviewDown,
}

/// The command of `key` when `focus` has the keys and `button` is the
/// highlighted button.
pub open spec fn key_command_spec(focus: Focus, button: ButtonFocus, key: KeyInput) -> Command {
    if key.release {
        Command::Nothing
    } else if key.code == KeyCode::Char('c') && key.ctrl {
        Command::Quit
    } else {
        match focus {
            Focus::Input => match key.code {
                KeyCode::Esc => Command::FocusOn(Focus::AppList),
                KeyCode::Tab => Command::FocusOn(Focus::AppList),
                KeyCode::Enter => if key.ctrl {
                    Command::Apply
                } else {
                    Command::Newline
                },
                KeyCode::Char(ch) => Command::Insert(ch),
                KeyCode::Backspace => Command::Backspace,
                KeyCode::Delete => Command::Delete,
                KeyCode::Left => Command::Left,
                KeyCode::Right => Command::Right,
                KeyCode::Up => Command::Up,
                KeyCode::Down => Command::Down,
                KeyCode::Home => Command::Home,
                KeyCode::End => Command::End,
                _ => Command::Nothing,
            },
            Focus::AppList => match key.code {
                KeyCode::Char('q') => Command::Quit,
                KeyCode::Up => Command::ListUp,
                KeyCode::Char('k') => Command::ListUp,
                KeyCode::Down => Command::ListDown,
                KeyCode::Char('j') => Command::ListDown,
                KeyCode::Char(' ') => Command::Toggle,
                KeyCode::Enter => Command::Toggle,
                KeyCode::Tab => Command::FocusOn(Focus::Buttons),
                KeyCode::PageUp => Command::PreviewUp,
                KeyCode::PageDown => Command::PreviewDown,
                _ => Command::Nothing,
            },
            Focus::Buttons => match key.code {
                KeyCode::Char('q') => Command::Quit,
                KeyCode::Left => Command::PickButton(ButtonFocus::Apply),
                KeyCode::Char('h') => Command::PickButton(ButtonFocus::Apply),
                KeyCode::Right => Command::PickButton(ButtonFocus::Quit),
                KeyCode::Char('l') => Command::PickButton(ButtonFocus::Quit),
                KeyCode::Enter | KeyCode::Char(' ') => match button {
                    ButtonFocus::Apply => Command::Apply,
                    ButtonFocus::Quit => Command::Quit,
                },
                KeyCode::Tab => Command::FocusOn(Focus::Input),
                KeyCode::Esc => Command::FocusOn(Focus::AppList),
                _ => Command::Nothing,
            },
        }
    }
}

/// The command of `key` (see `key_command_spec`).
pub fn key_command(focus: Focus, button: ButtonFocus, key: KeyInput) -> (c: Command)
    ensures
        c == key_command_spec(focus, button, key),
{
    if key.release {
        return Command::Nothing;
    }
    if key.ctrl {
        if let KeyCode::Char(ch) = key.code {
            if ch == 'c' {
                return Command::Quit;
            }
        }
    }
    match focus {
        Focus::Input => match key.code {
            KeyCode::Esc => Command::FocusOn(Focus::AppList),
            KeyCode::Tab => Command::FocusOn(Focus::AppList),
            KeyCode::Enter => if key.ctrl {
                Command::Apply
            } else {
                Command::Newline
            },
            KeyCode::Char(ch) => Command::Insert(ch),
            KeyCode::Backspace => Command::Backspace,
            KeyCode::Delete => Command::Delete,
            KeyCode::Left => Command::Left,
            KeyCode::Right => Command::Right,
            KeyCode::Up => Command::Up,
            KeyCode::Down => Command::Down,
            KeyCode::Home => Command::Home,
            KeyCode::End => Command::End,
            _ => Command::Nothing,
        },
        Focus::AppList => match key.code {
            KeyCode::Char(ch) => if ch == 'q' {
                Command::Quit
            } else if ch == 'k' {
                Command::ListUp
            } else if ch == 'j' {
                Command::ListDown
            } else if ch == ' ' {
                Command::Toggle
            } else {
                Command::Nothing
            },
            KeyCode::Up => Command::ListUp,
            KeyCode::Down => Command::ListDown,
            KeyCode::Enter => Command::Toggle,
            KeyCode::Tab => Command::FocusOn(Focus::Buttons),
            KeyCode::PageUp => Command::PreviewUp,
            KeyCode::PageDown => Command::PreviewDown,
            _ => Command::Nothing,
        },
        Focus::Buttons => match key.code {
            KeyCode::Char(ch) => if ch == 'q' {
                Command::Quit
            } else if ch == 'h' {
                Command::PickButton(ButtonFocus::Apply)
            } else if ch == 'l' {
                Command::PickButton(ButtonFocus::Quit)
            } else if ch == ' ' {
                match button {
                    ButtonFocus::Apply => Command::Apply,
                    ButtonFocus::Quit => Command::Quit,
                }
            } else {
                Command::Nothing
            },
            KeyCode::Left => Command::PickButton(ButtonFocus::Apply),
            KeyCode::Right => Command::PickButton(ButtonFocus::Quit),
            KeyCode::Enter => match button {
                ButtonFocus::Apply => Command::Apply,
                ButtonFocus::Quit => Command::Quit,
            },
            KeyCode::Tab => Command::FocusOn(Focus::Input),
            KeyCode::Esc => Command::FocusOn(Focus::AppList),
            _ => Command::Nothing,
        },
    }
}

/// The notifications of `v` as plain values.
pub open spec fn notes_of(v: Seq<Notification>) -> Seq<(Seq<char>, Severity, u64)> {
    Seq::new(v.len(), |i: int| note_view(v[i]))
}

/// The notifications of `all` that are still shown at `now`, in order.
fn keep_shown(all: Vec<Notification>, now: u64) -> (r: Vec<Notification>)
    ensures
        notes_of(r@) == shown_at(notes_of(all@), now),
        r@.len() <= all@.len(),
{
    let ghost old_notes = notes_of(all@);
    let ghost whole = all@;
    let mut rest = all;
    let mut r: Vec<Notification> = Vec::new();
    let ghost mut i: int = 0;
    while rest.len() > 0
        invariant
            0 <= i <= whole.len(),
            i + rest@.len() == whole.len(),
            rest@ == whole.skip(i),
            old_notes == notes_of(whole),
            notes_of(r@) == shown_at(old_notes.take(i), now),
            r@.len() <= i,
        decreases rest@.len(),
    {
        let n = rest.remove(0);
        proof {
            assert(old_notes.take(i + 1).drop_last() =~= old_notes.take(i));
            assert(whole[i] == n);
            assert(old_notes.take(i + 1).last() == note_view(n));
            assert(rest@ =~= whole.skip(i + 1));
        }
        let elapsed = if now >= n.born {
            now - n.born
        } else {
            0
        };
        if elapsed < NOTIFICATION_LIFETIME_NANOS {
            let ghost before = notes_of(r@);
            r.push(n);
            proof {
                assert(notes_of(r@) =~= before.push(note_view(n)));
            }
        }
        proof {
            i = i + 1;
        }
    }
    proof {
        assert(old_notes.take(i) =~= old_notes);
    }
    r
}

/// Toggles check box `i` of `cs` (see `toggled`).
fn toggle_states(cs: &mut Vec<bool>, i: usize)
    requires
        i < old(cs)@.len(),
    ensures
        final(cs)@ == toggled(old(cs)@, i as int),
{
    let ghost c0 = cs@;
    let new_val = !cs[i];
    cs.set(i, new_val);
    if i == 0 {
        let mut j: usize = 0;
        while j < cs.len()
            invariant
                cs@.len() == c0.len(),
                j <= c0.len(),
                forall|m: int| 0 <= m < j ==> cs@[m] == new_val,
            decreases c0.len() - j,
        {
            cs.set(j, new_val);
            j = j + 1;
        }
        assert(cs@ =~= toggled(c0, 0));
    } else if !new_val {
        cs.set(0, false);
        assert(cs@ =~= toggled(c0, i as int));
    } else {
        let mut all = true;
        let mut j: usize = 1;
        let ghost c = cs@;
        while j < cs.len()
            invariant
                cs@ == c,
                1 <= j <= c.len(),
                all == (forall|m: int| 1 <= m < j ==> #[trigger] c[m]),
            decreases c.len() - j,
        {
            if !cs[j] {
                all = false;
            }
            j = j + 1;
        }
        assert(all == all_apps_checked(c));
        cs.set(0, all);
        assert(cs@ =~= toggled(c0, i as int));
    }
}

/// The whole state of the interactive helper.
pub struct App {
    /// Names of the detected IDEs, in increasing order.
    pub app_names: Vec<String>,
    /// `binaries[i]` is the launcher target of `app_names[i]`.
    pub binaries: Vec<String>,
    /// `check_states[0]` is the "All apps" entry, `check_states[i + 1]` that
    /// of `app_names[i]`.
    pub check_states: Vec<bool>,
    /// The highlighted entry of the list (0 is "All apps").
    pub selected: Option<usize>,
    pub focus: Focus,
    pub button_focus: ButtonFocus,
    pub notifications: Vec<Notification>,
    pub preview_scroll: u16,
    pub layout: AppLayout,
    /// The lines of the option editor.
    pub lines: Vec<String>,
    pub cursor_row: usize,
    /// Byte offset of the cursor in `lines[cursor_row]`.
    pub cursor_col: usize,
    /// First byte offset shown of each editor line.
    pub input_scroll: usize,
}

impl App {
    /// The editor's lines as character sequences.
    pub open spec fn text(&self) -> Seq<Seq<char>> {
        Seq::new(self.lines@.len(), |i: int| self.lines@[i]@)
    }

    /// The line that holds the cursor.
    pub open spec fn cur_line(&self) -> Seq<char> {
        self.text()[self.cursor_row as int]
    }

    /// Character index of the cursor in its line.
    pub open spec fn cursor_index(&self) -> int {
        char_index(self.cur_line(), self.cursor_col as int)
    }

    /// The editor holds at least one line, the cursor is on a line and on a
    /// character boundary of it, and every line fits in a `String`.
    pub open spec fn input_wf(&self) -> bool {
        &&& self.lines@.len() >= 1
        &&& self.cursor_row < self.lines@.len()
        &&& on_boundary(self.cur_line(), self.cursor_col as int)
        &&& forall|i: int| 0 <= i < self.lines@.len() ==> byte_len(#[trigger] self.text()[i]) <= isize::MAX
    }

    /// Well-formedness of the whole state.
    pub open spec fn wf(&self) -> bool {
        &&& self.check_states@.len() == self.app_names@.len() + 1
        &&& self.binaries@.len() == self.app_names@.len()
        &&& (self.selected matches Some(i) ==> i < self.check_states@.len())
        &&& self.notifications@.len() <= MAX_NOTIFICATIONS
        &&& self.input_wf()
    }

    /// Everything but the editor is as in `other`.
    pub open spec fn same_outside_input(&self, other: &App) -> bool {
        &&& self.app_names@ == other.app_names@
        &&& self.binaries@ == other.binaries@
        &&& self.check_states@ == other.check_states@
        &&& self.selected == other.selected
        &&& self.focus == other.focus
        &&& self.button_focus == other.button_focus
        &&& self.notifications@ == other.notifications@
        &&& self.preview_scroll == other.preview_scroll
        &&& self.layout == other.layout
    }

    /// Everything but the notifications is as in `other`.
    pub open spec fn same_outside_notifications(&self, other: &App) -> bool {
        &&& self.app_names@ == other.app_names@
        &&& self.binaries@ == other.binaries@
        &&& self.check_states@ == other.check_states@
        &&& self.selected == other.selected
        &&& self.focus == other.focus
        &&& self.button_focus == other.button_focus
        &&& self.preview_scroll == other.preview_scroll
        &&& self.layout == other.layout
        &&& self.same_input(other)
    }

    /// The editor is as in `other`.
    pub open spec fn same_input(&self, other: &App) -> bool {
        &&& self.lines@ == other.lines@
        &&& self.cursor_row == other.cursor_row
        &&& self.cursor_col == other.cursor_col
        &&& self.input_scroll == other.input_scroll
    }

    /// The notifications as plain values.
    pub open spec fn notes(&self) -> Seq<(Seq<char>, Severity, u64)> {
        notes_of(self.notifications@)
    }

    /// The pairs of name and launcher target of the apps that an apply
    /// touches: all of them when "All apps" is checked, else the checked ones,
    /// in list order; `n` apps considered.
    pub open spec fn selection_upto(&self, n: int) -> Seq<(Seq<char>, Seq<char>)>
        decreases n,
    {
        if n <= 0 {
            Seq::empty()
        } else {
            let p = self.selection_upto(n - 1);
            if self.check_states@[0] || self.check_states@[n] {
                p.push((self.app_names@[n - 1]@, self.binaries@[n - 1]@))
            } else {
                p
            }
        }
    }

    /// The apps that an apply touches.
    pub open spec fn selection(&self) -> Seq<(Seq<char>, Seq<char>)> {
        self.selection_upto(self.app_names@.len() as int)
    }

    /// Everything but the list state (check boxes and highlight) is as in `other`.
    pub open spec fn same_outside_list(&self, other: &App) -> bool {
        &&& self.app_names@ == other.app_names@
        &&& self.binaries@ == other.binaries@
        &&& self.focus == other.focus
        &&& self.button_focus == other.button_focus
        &&& self.notifications@ == other.notifications@
        &&& self.preview_scroll == other.preview_scroll
        &&& self.layout == other.layout
        &&& self.same_input(other)
    }

    /// The options entered in the editor: its trimmed lines that are not empty.
    pub fn options(&self) -> (r: Vec<String>)
        ensures
            r@.len() == options_of(self.text()).len(),
            forall|i: int| 0 <= i < r@.len() ==> #[trigger] r@[i]@ == options_of(self.text())[i],
    {
        let mut r: Vec<String> = Vec::new();
        let mut i: usize = 0;
        while i < self.lines.len()
            invariant
                i <= self.lines@.len(),
                r@.len() == options_of(self.text().take(i as int)).len(),
                forall|j: int| 0 <= j < r@.len() ==> #[trigger] r@[j]@ == options_of(
                    self.text().take(i as int),
                )[j],
            decreases self.lines@.len() - i,
        {
            let line = chars_of(self.lines[i].as_str());
            let t = trim_chars(&line);
            proof {
                assert(self.text().take(i + 1).drop_last() =~= self.text().take(i as int));
                assert(self.text().take(i + 1).last() == line@);
            }
            if t.len() > 0 {
                r.push(string_of(&t));
            }
            i = i + 1;
        }
        proof {
            assert(self.text().take(self.lines@.len() as int) =~= self.text());
        }
        r
    }

    /// Posts a notification at time `now`; only the latest
    /// `MAX_NOTIFICATIONS` are kept.
    pub fn notify(&mut self, message: &str, severity: Severity, now: u64)
        requires
            old(self).wf(),
        ensures
            final(self).wf(),
            final(self).same_outside_notifications(old(self)),
            final(self).notes() == capped(old(self).notes().push((message@, severity, now))),
    {
        let ghost old_notes = self.notes();
        let mut m = String::new();
        push_all(&mut m, message);
        self.notifications.push(Notification { message: m, severity, born: now });
        proof {
            assert(self.notes() =~= old_notes.push((message@, severity, now)));
        }
        if self.notifications.len() > MAX_NOTIFICATIONS {
            let ghost pushed = self.notes();
            self.notifications.remove(0);
            proof {
                assert(self.notes() =~= pushed.drop_first());
            }
        }
    }

    /// Drops the notifications that were posted `NOTIFICATION_LIFETIME_NANOS`
    /// or more before `now`.
    pub fn prune_notifications(&mut self, now: u64)
        requires
            old(self).wf(),
        ensures
            final(self).wf(),
            final(self).same_outside_notifications(old(self)),
            final(self).notes() == shown_at(old(self).notes(), now),
    {
        let mut all: Vec<Notification> = Vec::new();
        std::mem::swap(&mut all, &mut self.notifications);
        self.notifications = keep_shown(all, now);
    }

    /// Moves the highlight in the list by `delta` entries, wrapping around.
    pub fn move_list(&mut self, delta: i32)
        requires
            old(self).wf(),
            old(self).check_states@.len() <= i32::MAX,
            i32::MIN <= (match old(self).selected {
                Some(i) => i as int,
                None => 0,
            }) + delta <= i32::MAX,
        ensures
            final(self).wf(),
            final(self).same_outside_list(old(self)),
            final(self).check_states@ == old(self).check_states@,
            final(self).selected == Some(
                wrap_index(
                    match old(self).selected {
                        Some(i) => i as int,
                        None => 0,
                    },
                    delta as int,
                    old(self).check_states@.len() as int,
                ) as usize,
            ),
    {
        let len = self.check_states.len();
        let current: usize = match self.selected {
            Some(i) => i,
            None => 0,
        };
        let len32 = len as i32;
        let cur32 = current as i32;
        let next = match (cur32 + delta).checked_rem_euclid(len32) {
            Some(v) => v,
            None => {
                proof {
                    assert(false);
                }
                0
            },
        };
        self.selected = Some(next as usize);
    }

    /// Toggles the check box of list entry `i` (entry 0 is "All apps"); an
    /// index past the list changes nothing.
    pub fn toggle_item(&mut self, i: usize)
        requires
            old(self).wf(),
        ensures
            final(self).wf(),
            final(self).same_outside_list(old(self)),
            final(self).selected == old(self).selected,
            i >= old(self).check_states@.len() ==> final(self).check_states@ == old(
                self,
            ).check_states@,
            i < old(self).check_states@.len() ==> final(self).check_states@ == toggled(
                old(self).check_states@,
                i as int,
            ),
    {
        if i >= self.check_states.len() {
            return;
        }
        toggle_states(&mut self.check_states, i);
    }

    /// Toggles the highlighted list entry, if any.
    pub fn toggle_selected(&mut self)
        requires
            old(self).wf(),
        ensures
            final(self).wf(),
            final(self).same_outside_list(old(self)),
            final(self).selected == old(self).selected,
            old(self).selected matches Some(i) ==> final(self).check_states@ == toggled(
                old(self).check_states@,
                i as int,
            ),
            old(self).selected is None ==> final(self).check_states@ == old(self).check_states@,
    {
        if let Some(i) = self.selected {
            self.toggle_item(i);
        }
    }

    /// The name and launcher target of each app that an apply touches.
    pub fn selected_apps(&self) -> (r: Vec<(String, String)>)
        requires
            self.wf(),
        ensures
            r@.len() == self.selection().len(),
            forall|k: int|
                0 <= k < r@.len() ==> (#[trigger] r@[k]).0@ == self.selection()[k].0 && r@[k].1@
                    == self.selection()[k].1,
    {
        let all = self.check_states[0];
        let mut r: Vec<(String, String)> = Vec::new();
        let mut i: usize = 0;
        while i < self.app_names.len()
            invariant
                self.wf(),
                all == self.check_states@[0],
                i <= self.app_names@.len(),
                r@.len() == self.selection_upto(i as int).len(),
                forall|k: int|
                    0 <= k < r@.len() ==> (#[trigger] r@[k]).0@ == self.selection_upto(
                        i as int,
                    )[k].0 && r@[k].1@ == self.selection_upto(i as int)[k].1,
            decreases self.app_names@.len() - i,
        {
            if all || self.check_states[i + 1] {
                r.push((self.app_names[i].clone(), self.binaries[i].clone()));
            }
            i = i + 1;
        }
        r
    }

    /// The highlighted list entry, 0 when none is.
    pub open spec fn current_entry(&self) -> int {
        match self.selected {
            Some(i) => i as int,
            None => 0,
        }
    }

    /// `b` differs from `a` at most in the parts whose flag is set: the list
    /// state (check boxes and highlight), the focus, the highlighted button,
    /// the preview scroll and the editor.
    pub open spec fn unchanged_except(
        a: &App,
        b: &App,
        list: bool,
        focus: bool,
        button: bool,
        preview: bool,
        input: bool,
    ) -> bool {
        &&& b.app_names@ == a.app_names@
        &&& b.binaries@ == a.binaries@
        &&& b.notifications@ == a.notifications@
        &&& b.layout == a.layout
        &&& (!list ==> b.check_states@ == a.check_states@ && b.selected == a.selected)
        &&& (!focus ==> b.focus == a.focus)
        &&& (!button ==> b.button_focus == a.button_focus)
        &&& (!preview ==> b.preview_scroll == a.preview_scroll)
        &&& (!input ==> b.same_input(a))
    }

    /// The list entry under the cell (`col`, `row`), inside the list's border.
    pub open spec fn list_index_spec(&self, col: u16, row: u16) -> Option<usize> {
        let a = self.layout.list_area;
        if col < a.x + 1 || col >= a.x + minus_one(a.width) || row < a.y + 1 || row >= a.y
            + minus_one(a.height) {
            None
        } else if row - (a.y + 1) < self.check_states@.len() {
            Some((row - (a.y + 1)) as usize)
        } else {
            None
        }
    }

    /// The editor row that a click on screen row `row` of the input area lands on.
    pub open spec fn clicked_row(&self, row: u16) -> int {
        let inner_y = sub_or_zero(row as int, self.layout.input_area.y + 1);
        if inner_y < self.lines@.len() - 1 {
            inner_y
        } else {
            self.lines@.len() - 1
        }
    }

    /// The byte offset that a click on screen column `col` of the input area aims at.
    pub open spec fn clicked_target(&self, col: u16) -> int {
        sub_or_zero(col as int, self.layout.input_area.x + 1) + self.input_scroll
    }

    /// A mouse event can be handled without overflow.
    /// Each area that the event is tested against ends inside the coordinate
    /// range, in the order the tests are made.
    pub open spec fn mouse_allowed(&self, col: u16, row: u16, kind: MouseKind) -> bool {
        let l = self.layout;
        match kind {
            MouseKind::LeftDown => {
                &&& l.list_area.fits()
                &&& self.list_index_spec(col, row) is None ==> {
                    &&& l.apply_area.fits()
                    &&& !l.apply_area.has(col, row) ==> {
                        &&& l.quit_area.fits()
                        &&& !l.quit_area.has(col, row) ==> {
                            &&& l.input_area.fits()
                            &&& l.input_area.has(col, row) ==> self.input_scroll + u16::MAX
                                <= usize::MAX
                        }
                    }
                }
            },
            MouseKind::ScrollUp | MouseKind::ScrollDown => {
                &&& l.list_area.fits()
                &&& l.list_area.has(col, row) ==> self.check_states@.len() <= i32::MAX
                &&& !l.list_area.has(col, row) ==> {
                    &&& l.preview_area.fits()
                    &&& (kind == MouseKind::ScrollDown && l.preview_area.has(col, row))
                        ==> self.preview_scroll < u16::MAX
                }
            },
            MouseKind::Other => true,
        }
    }

    /// `b` is `a` after a mouse event `kind` at (`col`, `row`) that gave `out`:
    /// a left click on a list entry highlights and toggles it; on the Apply
    /// button it focuses the buttons and asks for an apply; on the Quit
    /// button it asks to quit; in the input area it focuses the editor and
    /// puts the cursor at the clicked place; elsewhere it leaves the editor.
    /// Scrolling over the list moves the highlight, over the preview scrolls it.
    pub open spec fn mouse_done(
        a: &App,
        b: &App,
        col: u16,
        row: u16,
        kind: MouseKind,
        out: Outcome,
    ) -> bool {
        match kind {
            MouseKind::LeftDown => match a.list_index_spec(col, row) {
                Some(idx) => {
                    &&& Self::unchanged_except(a, b, true, true, false, false, false)
                    &&& b.focus == Focus::AppList
                    &&& b.selected == Some(idx)
                    &&& b.check_states@ == toggled(a.check_states@, idx as int)
                    &&& out == Outcome::Continue
                },
                None => if a.layout.apply_area.has(col, row) {
                    &&& Self::unchanged_except(a, b, false, true, true, false, false)
                    &&& b.focus == Focus::Buttons
                    &&& b.button_focus == ButtonFocus::Apply
                    &&& out == Outcome::Apply
                } else if a.layout.quit_area.has(col, row) {
                    &&& Self::unchanged_except(a, b, false, false, false, false, false)
                    &&& out == Outcome::Quit
                } else if a.layout.input_area.has(col, row) {
                    &&& Self::unchanged_except(a, b, false, true, false, false, true)
                    &&& b.focus == Focus::Input
                    &&& b.lines@ == a.lines@
                    &&& b.input_scroll == a.input_scroll
                    &&& b.cursor_row == a.clicked_row(row)
                    &&& b.cursor_col == column_in(
                        a.text()[a.clicked_row(row)],
                        a.clicked_target(col),
                    )
                    &&& out == Outcome::Continue
                } else {
                    &&& Self::unchanged_except(a, b, false, true, false, false, false)
                    &&& b.focus == (if a.focus == Focus::Input {
                        Focus::AppList
                    } else {
                        a.focus
                    })
                    &&& out == Outcome::Continue
                },
            },
            MouseKind::ScrollUp => {
                &&& out == Outcome::Continue
                &&& if a.layout.list_area.has(col, row) {
                    &&& Self::unchanged_except(a, b, true, false, false, false, false)
                    &&& b.check_states@ == a.check_states@
                    &&& b.selected == Some(
                        wrap_index(a.current_entry(), -1, a.check_states@.len() as int) as usize,
                    )
                } else if a.layout.preview_area.has(col, row) {
                    &&& Self::unchanged_except(a, b, false, false, false, true, false)
                    &&& b.preview_scroll == sub_or_zero(a.preview_scroll as int, 1)
                } else {
                    Self::unchanged_except(a, b, false, false, false, false, false)
                }
            },
            MouseKind::ScrollDown => {
                &&& out == Outcome::Continue
                &&& if a.layout.list_area.has(col, row) {
                    &&& Self::unchanged_except(a, b, true, false, false, false, false)
                    &&& b.check_states@ == a.check_states@
                    &&& b.selected == Some(
                        wrap_index(a.current_entry(), 1, a.check_states@.len() as int) as usize,
                    )
                } else if a.layout.preview_area.has(col, row) {
                    &&& Self::unchanged_except(a, b, false, false, false, true, false)
                    &&& b.preview_scroll == a.preview_scroll + 1
                } else {
                    Self::unchanged_except(a, b, false, false, false, false, false)
                }
            },
            MouseKind::Other => {
                &&& Self::unchanged_except(a, b, false, false, false, false, false)
                &&& out == Outcome::Continue
            },
        }
    }

    /// The list entry under the cell (`col`, `row`), if any.
    pub fn list_index_at(&self, col: u16, row: u16) -> (r: Option<usize>)
        requires
            self.wf(),
            self.layout.list_area.fits(),
        ensures
            r == self.list_index_spec(col, row),
    {
        let a = self.layout.list_area;
        if col <= a.x || col >= a.x + a.width.saturating_sub(1) {
            return None;
        }
        if row <= a.y || row >= a.y + a.height.saturating_sub(1) {
            return None;
        }
        let inner_row = (row - a.y - 1) as usize;
        let total = self.check_states.len();
        if inner_row < total {
            Some(inner_row)
        } else {
            None
        }
    }

    /// Handles a mouse event at (`col`, `row`) (see `mouse_done`).
    pub fn handle_mouse(&mut self, col: u16, row: u16, kind: MouseKind) -> (out: Outcome)
        requires
            old(self).wf(),
            old(self).mouse_allowed(col, row, kind),
        ensures
            final(self).wf(),
            Self::mouse_done(old(self), final(self), col, row, kind, out),
    {
        match kind {
            MouseKind::LeftDown => {
                if let Some(idx) = self.list_index_at(col, row) {
                    self.focus = Focus::AppList;
                    self.selected = Some(idx);
                    self.toggle_item(idx);
                    return Outcome::Continue;
                }
                if rect_contains(self.layout.apply_area, col, row) {
                    self.focus = Focus::Buttons;
                    self.button_focus = ButtonFocus::Apply;
                    return Outcome::Apply;
                }
                if rect_contains(self.layout.quit_area, col, row) {
                    return Outcome::Quit;
                }
                if rect_contains(self.layout.input_area, col, row) {
                    self.focus = Focus::Input;
                    let ia = self.layout.input_area;
                    let inner_y = row.saturating_sub(ia.y + 1) as usize;
                    let last = self.lines.len() - 1;
                    let clicked_row = if inner_y < last {
                        inner_y
                    } else {
                        last
                    };
                    let inner_x = col.saturating_sub(ia.x + 1) as usize;
                    let target = inner_x + self.input_scroll;
                    self.move_to_row(clicked_row, target);
                    return Outcome::Continue;
                }
                if self.focus == Focus::Input {
                    self.focus = Focus::AppList;
                }
                Outcome::Continue
            },
            MouseKind::ScrollUp => {
                if rect_contains(self.layout.list_area, col, row) {
                    self.move_list(-1);
                } else if rect_contains(self.layout.preview_area, col, row) {
                    self.preview_scroll = self.preview_scroll.saturating_sub(1);
                }
                Outcome::Continue
            },
            MouseKind::ScrollDown => {
                if rect_contains(self.layout.list_area, col, row) {
                    self.move_list(1);
                } else if rect_contains(self.layout.preview_area, col, row) {
                    self.preview_scroll = self.preview_scroll + 1;
                }
                Outcome::Continue
            },
            MouseKind::Other => Outcome::Continue,
        }
    }

    /// `cmd` can be carried out without exceeding a machine limit.
    pub open spec fn command_allowed(&self, cmd: Command) -> bool {
        match cmd {
            Command::Insert(ch) => byte_len(self.cur_line()) + char_width(ch) <= isize::MAX,
            Command::Backspace => self.cursor_col == 0 && self.cursor_row > 0 ==> byte_len(
                self.text()[self.cursor_row - 1],
            ) + byte_len(self.cur_line()) <= isize::MAX,
            Command::Delete => self.cursor_col >= byte_len(self.cur_line()) && self.cursor_row + 1
                < self.lines@.len() ==> byte_len(self.cur_line()) + byte_len(
                self.text()[self.cursor_row + 1],
            ) <= isize::MAX,
            Command::ListUp => self.check_states@.len() <= i32::MAX,
            Command::ListDown => self.check_states@.len() <= i32::MAX,
            Command::PreviewDown => self.preview_scroll + 5 <= u16::MAX,
            _ => true,
        }
    }

    /// `b` is `a` after carrying out `cmd`, which gave `out`.
    pub open spec fn command_done(a: &App, b: &App, cmd: Command, out: Outcome) -> bool {
        &&& out == (match cmd {
            Command::Quit => Outcome::Quit,
            Command::Apply => Outcome::Apply,
            _ => Outcome::Continue,
        })
        &&& match cmd {
            Command::Nothing | Command::Quit | Command::Apply => Self::unchanged_except(
                a,
                b,
                false,
                false,
                false,
                false,
                false,
            ),
            Command::FocusOn(f) => {
                &&& Self::unchanged_except(a, b, false, true, false, false, false)
                &&& b.focus == f
            },
            Command::PickButton(bf) => {
                &&& Self::unchanged_except(a, b, false, false, true, false, false)
                &&& b.button_focus == bf
            },
            Command::Insert(ch) => Self::inserted(a, b, ch),
            Command::Newline => Self::newline_done(a, b),
            Command::Backspace => Self::backspaced(a, b),
            Command::Delete => Self::deleted(a, b),
            Command::Left => Self::moved_left(a, b),
            Command::Right => Self::moved_right(a, b),
            Command::Up => Self::moved_up(a, b),
            Command::Down => Self::moved_down(a, b),
            Command::Home => Self::moved_home(a, b),
            Command::End => Self::moved_end(a, b),
            Command::ListUp => {
                &&& Self::unchanged_except(a, b, true, false, false, false, false)
                &&& b.check_states@ == a.check_states@
                &&& b.selected == Some(
                    wrap_index(a.current_entry(), -1, a.check_states@.len() as int) as usize,
                )
            },
            Command::ListDown => {
                &&& Self::unchanged_except(a, b, true, false, false, false, false)
                &&& b.check_states@ == a.check_states@
                &&& b.selected == Some(
                    wrap_index(a.current_entry(), 1, a.check_states@.len() as int) as usize,
                )
            },
            Command::Toggle => {
                &&& Self::unchanged_except(a, b, true, false, false, false, false)
                &&& b.selected == a.selected
                &&& (a.selected matches Some(i) ==> b.check_states@ == toggled(
                    a.check_states@,
                    i as int,
                ))
                &&& (a.selected is None ==> b.check_states@ == a.check_states@)
            },
            Command::PreviewUp => {
                &&& Self::unchanged_except(a, b, false, false, false, true, false)
                &&& b.preview_scroll == sub_or_zero(a.preview_scroll as int, 5)
            },
            Command::PreviewDown => {
                &&& Self::unchanged_except(a, b, false, false, false, true, false)
                &&& b.preview_scroll == a.preview_scroll + 5
            },
        }
    }

    /// Carries out `cmd` (see `command_done`).
    pub fn run_command(&mut self, cmd: Command) -> (out: Outcome)
        requires
            old(self).wf(),
            old(self).command_allowed(cmd),
        ensures
            final(self).wf(),
            Self::command_done(old(self), final(self), cmd, out),
    {
        match cmd {
            Command::Nothing => Outcome::Continue,
            Command::Quit => Outcome::Quit,
            Command::Apply => Outcome::Apply,
            Command::FocusOn(f) => {
                self.focus = f;
                Outcome::Continue
            },
            Command::PickButton(bf) => {
                self.button_focus = bf;
                Outcome::Continue
            },
            Command::Insert(ch) => {
                self.input_insert(ch);
                Outcome::Continue
            },
            Command::Newline => {
                self.input_newline();
                Outcome::Continue
            },
            Command::Backspace => {
                self.input_backspace();
                Outcome::Continue
            },
            Command::Delete => {
                self.input_delete();
                Outcome::Continue
            },
            Command::Left => {
                self.input_move_left();
                Outcome::Continue
            },
            Command::Right => {
                self.input_move_right();
                Outcome::Continue
            },
            Command::Up => {
                self.input_move_up();
                Outcome::Continue
            },
            Command::Down => {
                self.input_move_down();
                Outcome::Continue
            },
            Command::Home => {
                self.input_home();
                Outcome::Continue
            },
            Command::End => {
                self.input_end();
                Outcome::Continue
            },
            Command::ListUp => {
                self.move_list(-1);
                Outcome::Continue
            },
            Command::ListDown => {
                self.move_list(1);
                Outcome::Continue
            },
            Command::Toggle => {
                self.toggle_selected();
                Outcome::Continue
            },
            Command::PreviewUp => {
                self.preview_scroll = self.preview_scroll.saturating_sub(5);
                Outcome::Continue
            },
            Command::PreviewDown => {
                self.preview_scroll = self.preview_scroll + 5;
                Outcome::Continue
            },
        }
    }

    /// Handles a key: the command that `key_command_spec` gives for the current
    /// focus is carried out.
    pub fn handle_key(&mut self, key: KeyInput) -> (out: Outcome)
        requires
            old(self).wf(),
            old(self).command_allowed(
                key_command_spec(old(self).focus, old(self).button_focus, key),
            ),
        ensures
            final(self).wf(),
            Self::command_done(
                old(self),
                final(self),
                key_command_spec(old(self).focus, old(self).button_focus, key),
                out,
            ),
    {
        let cmd = key_command(self.focus, self.button_focus, key);
        self.run_command(cmd)
    }

    /// The state at start: `found` holds the launchers found on the search
    /// path (name and target, in the order found), `initial` the text that
    /// the editor starts with. Nothing is checked, the first entry ("All
    /// apps") is highlighted, the app list has the keys, and the cursor is at
    /// the end of the text.
    pub fn new(found: &Vec<(String, String)>, initial: Option<String>) -> (app: App)
        requires
            initial matches Some(s) ==> byte_len(s@) <= isize::MAX,
        ensures
            app.wf(),
            registry_of(
                found_view(found@),
                strings_view(app.app_names@),
                strings_view(app.binaries@),
            ),
            app.check_states@ == Seq::new(app.app_names@.len() + 1, |i: int| false),
            app.selected == Some(0usize),
            app.focus == Focus::AppList,
            app.button_focus == ButtonFocus::Apply,
            app.notifications@.len() == 0,
            app.preview_scroll == 0,
            app.layout == AppLayout::empty_spec(),
            app.text() == initial_lines(opt_view(initial)),
            app.cursor_row == app.lines@.len() - 1,
            app.cursor_col == byte_len(app.text()[app.lines@.len() - 1]),
            app.input_scroll == 0,
    {
        let (app_names, binaries) = collect_apps(found);
        let mut check_states: Vec<bool> = Vec::new();
        check_states.push(false);
        let mut i: usize = 0;
        while i < app_names.len()
            invariant
                i <= app_names@.len(),
                check_states@ == Seq::new((i + 1) as nat, |k: int| false),
            decreases app_names@.len() - i,
        {
            check_states.push(false);
            assert(check_states@ =~= Seq::new((i + 2) as nat, |k: int| false));
            i = i + 1;
        }
        assert(check_states@ =~= Seq::new(app_names@.len() + 1, |k: int| false));
        let ghost want = initial_lines(opt_view(initial));
        let mut lines: Vec<String> = Vec::new();
        match initial {
            Some(s) => {
                let parts = split_lines(s.as_str());
                proof {
                    lemma_lines_from_len(Seq::empty(), s@);
                    assert(byte_len(Seq::<char>::empty()) == 0);
                }
                let mut k: usize = 0;
                while k < parts.len()
                    invariant
                        k <= parts@.len(),
                        parts@.len() == lines_of(s@).len(),
                        forall|m: int| 0 <= m < parts@.len() ==> #[trigger] parts@[m]@ == lines_of(s@)[m],
                        lines@.len() == k,
                        forall|m: int| 0 <= m < k ==> #[trigger] lines@[m]@ == lines_of(s@)[m],
                    decreases parts@.len() - k,
                {
                    lines.push(string_of(&parts[k]));
                    k = k + 1;
                }
            },
            None => {},
        }
        if lines.len() == 0 {
            lines.push(String::new());
        }
        let last = lines.len() - 1;
        let line = chars_of(lines[last].as_str());
        let ghost text = Seq::new(lines@.len(), |m: int| lines@[m]@);
        proof {
            assert(text =~= want);
            assert forall|m: int| 0 <= m < lines@.len() implies byte_len(#[trigger] text[m])
                <= isize::MAX by {
                match initial {
                    Some(s) => {
                        if lines_of(s@).len() > 0 {
                            assert(text[m] == lines_of(s@)[m]);
                            assert(lines_from(Seq::empty(), s@)[m] == text[m]);
                        } else {
                            assert(byte_len(text[m]) == 0);
                        }
                    },
                    None => {
                        assert(byte_len(text[m]) == 0);
                    },
                }
            }
            assert(line@ == text[last as int]);
            lemma_byte_pos_full(line@);
            lemma_boundary_of_index(line@, line@.len() as int);
        }
        let col = byte_length(&line);
        App {
            app_names,
            binaries,
            check_states,
            selected: Some(0),
            focus: Focus::AppList,
            button_focus: ButtonFocus::Apply,
            notifications: Vec::new(),
            preview_scroll: 0,
            layout: AppLayout::empty(),
            lines,
            cursor_row: last,
            cursor_col: col,
            input_scroll: 0,
        }
    }

    /// First step of an apply: posts a warning and gives `None` when no
    /// option is entered or no app is selected; else gives the options and
    /// the selected apps, and changes nothing.
    pub fn begin_apply(&mut self, now: u64) -> (r: Option<(Vec<String>, Vec<(String, String)>)>)
        requires
            old(self).wf(),
        ensures
            final(self).wf(),
            final(self).same_outside_notifications(old(self)),
            options_of(old(self).text()).len() == 0 ==> r is None && final(self).notes() == capped(
                old(self).notes().push(("No options entered"@, Severity::Warning, now)),
            ),
            options_of(old(self).text()).len() > 0 && old(self).selection().len() == 0 ==> r is None
                && final(self).notes() == capped(
                old(self).notes().push(("No apps selected"@, Severity::Warning, now)),
            ),
            options_of(old(self).text()).len() > 0 && old(self).selection().len() > 0 ==> (r matches Some(
                (opts, apps),
            ) && final(self).notes() == old(self).notes() && opts@.len() == options_of(
                old(self).text(),
            ).len() && (forall|i: int|
                0 <= i < opts@.len() ==> #[trigger] opts@[i]@ == options_of(old(self).text())[i])
                && apps@.len() == old(self).selection().len() && (forall|k: int|
                0 <= k < apps@.len() ==> (#[trigger] apps@[k]).0@ == old(self).selection()[k].0
                    && apps@[k].1@ == old(self).selection()[k].1)),
    {
        let options = self.options();
        if options.len() == 0 {
            self.notify("No options entered", Severity::Warning, now);
            return None;
        }
        let selected = self.selected_apps();
        if selected.len() == 0 {
            self.notify("No apps selected", Severity::Warning, now);
            return None;
        }
        Some((options, selected))
    }

    /// Reports how the apply went for app `name`: whether its options file
    /// was found (`resolved`), and how adding each option went (`results`).
    pub fn report_app(&mut self, name: &str, resolved: bool, results: &Vec<AppendResult>, now: u64)
        requires
            old(self).wf(),
        ensures
            final(self).wf(),
            final(self).same_outside_notifications(old(self)),
            final(self).notes() == post_all(
                old(self).notes(),
                app_messages(name@, resolved, results@),
                now,
            ),
    {
        let ghost notes0 = self.notes();
        if !resolved {
            let mut m = String::new();
            push_all(&mut m, name);
            push_all(&mut m, ": vmoptions not found");
            self.notify(m.as_str(), Severity::Error, now);
            proof {
                let msgs = app_messages(name@, resolved, results@);
                assert(msgs.drop_last() =~= Seq::<(Seq<char>, Severity)>::empty());
                assert(post_all(notes0, msgs.drop_last(), now) == notes0);
                assert(msgs.last() == (m@, Severity::Error));
            }
            return;
        }
        let ghost old_self = *self;
        let mut any = false;
        let mut i: usize = 0;
        while i < results.len()
            invariant
                self.wf(),
                self.same_outside_notifications(&old_self),
                i <= results@.len(),
                any == appended_any(results@.take(i as int)),
                self.notes() == post_all(notes0, failure_messages(name@, results@.take(i as int)), now),
            decreases results@.len() - i,
        {
            let ghost pre = results@.take(i as int);
            assert(results@.take(i + 1).drop_last() =~= pre);
            assert(results@.take(i + 1).last() == results@[i as int]);
            match &results[i] {
                AppendResult::Appended => {
                    any = true;
                    assert(results@.take(i + 1)[i as int] is Appended);
                },
                AppendResult::AlreadySet => {
                    proof {
                        if appended_any(results@.take(i + 1)) {
                            let w = choose|w: int| 0 <= w < i + 1 && #[trigger] results@.take(i + 1)[w] is Appended;
                            assert(pre[w] is Appended);
                        }
                    }
                },
                AppendResult::Failed(e) => {
                    let mut m = String::new();
                    push_all(&mut m, name);
                    push_all(&mut m, ": error \u{2013} ");
                    push_all(&mut m, e.as_str());
                    let ghost before = self.notes();
                    self.notify(m.as_str(), Severity::Error, now);
                    proof {
                        let fm = failure_messages(name@, results@.take(i + 1));
                        assert(fm.drop_last() == failure_messages(name@, pre));
                        assert(fm.last() == (m@, Severity::Error));
                        if appended_any(results@.take(i + 1)) {
                            let w = choose|w: int| 0 <= w < i + 1 && #[trigger] results@.take(i + 1)[w] is Appended;
                            assert(pre[w] is Appended);
                        }
                    }
                },
            }
            i = i + 1;
        }
        proof {
            assert(results@.take(results@.len() as int) =~= results@);
        }
        let ghost fm = failure_messages(name@, results@);
        let mut m = String::new();
        push_all(&mut m, name);
        if any {
            push_all(&mut m, ": updated");
            self.notify(m.as_str(), Severity::Info, now);
        } else {
            push_all(&mut m, ": already set");
            self.notify(m.as_str(), Severity::Warning, now);
        }
        proof {
            let msgs = app_messages(name@, resolved, results@);
            assert(msgs.drop_last() =~= fm);
        }
    }

    /// Last step of an apply: posts "Done".
    pub fn finish_apply(&mut self, now: u64)
        requires
            old(self).wf(),
        ensures
            final(self).wf(),
            final(self).same_outside_notifications(old(self)),
            final(self).notes() == capped(old(self).notes().push(("Done"@, Severity::Info, now))),
    {
        self.notify("Done", Severity::Info, now);
    }

    /// The message and severity of the `count` latest notifications, newest
    /// first, as the notification bar shows them.
    pub fn latest_notifications(&self, count: usize) -> (r: Vec<(String, Severity)>)
        ensures
            r@.len() == latest(self.notes(), count as int).len(),
            forall|i: int|
                0 <= i < r@.len() ==> ((#[trigger] r@[i]).0@, r@[i].1) == latest(
                    self.notes(),
                    count as int,
                )[i],
    {
        let len = self.notifications.len();
        let mut r: Vec<(String, Severity)> = Vec::new();
        let mut i: usize = 0;
        while i < count && i < len
            invariant
                len == self.notifications@.len(),
                i <= len,
                i <= count,
                r@.len() == i,
                forall|j: int|
                    0 <= j < i ==> ((#[trigger] r@[j]).0@, r@[j].1) == (
                        self.notes()[len - 1 - j].0,
                        self.notes()[len - 1 - j].1,
                    ),
            decreases len - i,
        {
            let n = &self.notifications[len - 1 - i];
            r.push((n.message.clone(), n.severity));
            i = i + 1;
        }
        proof {
            let want = latest(self.notes(), count as int);
            assert(self.notes().len() == len);
            assert(want.len() == i);
            assert forall|j: int| 0 <= j < r@.len() implies ((#[trigger] r@[j]).0@, r@[j].1)
                == want[j] by {}
        }
        r
    }

    /// Second step of an apply, once the file work is done: reports how it
    /// went for each app (see `report_app`), in order, then posts "Done".
    pub fn complete_apply(&mut self, reports: &Vec<AppReport>, now: u64)
        requires
            old(self).wf(),
        ensures
            final(self).wf(),
            final(self).same_outside_notifications(old(self)),
            final(self).notes() == post_all(
                old(self).notes(),
                report_messages(reports@).push(("Done"@, Severity::Info)),
                now,
            ),
    {
        let ghost old_self = *self;
        let ghost notes0 = self.notes();
        let mut i: usize = 0;
        while i < reports.len()
            invariant
                self.wf(),
                self.same_outside_notifications(&old_self),
                old_self.notes() == notes0,
                i <= reports@.len(),
                self.notes() == post_all(notes0, report_messages(reports@.take(i as int)), now),
            decreases reports@.len() - i,
        {
            let ghost before = self.notes();
            let r = &reports[i];
            self.report_app(r.name.as_str(), r.resolved, &r.results, now);
            proof {
                let t = reports@.take(i + 1);
                assert(t.drop_last() =~= reports@.take(i as int));
                assert(t.last() == reports@[i as int]);
                lemma_post_all_concat(
                    notes0,
                    report_messages(reports@.take(i as int)),
                    app_messages(r.name@, r.resolved, r.results@),
                    now,
                );
            }
            i = i + 1;
        }
        let ghost mid = self.notes();
        self.finish_apply(now);
        proof {
            assert(reports@.take(reports@.len() as int) =~= reports@);
            let done = seq![("Done"@, Severity::Info)];
            assert(done.drop_last() =~= Seq::<(Seq<char>, Severity)>::empty());
            assert(post_all(mid, done.drop_last(), now) == mid);
            assert(done.len() == 1 && done.last() == ("Done"@, Severity::Info));
            assert(post_all(mid, done, now) == capped(mid.push(("Done"@, Severity::Info, now))));
            lemma_post_all_concat(notes0, report_messages(reports@), done, now);
            assert(report_messages(reports@) + done =~= report_messages(reports@).push(
                ("Done"@, Severity::Info),
            ));
        }
    }

    /// The preview text: for each app that an apply touches, its name, its
    /// program and its options file (`resolved[k]`, found for the `k`-th such
    /// app, or "NOT FOUND"), separated by line breaks.
    pub fn preview_text(&self, resolved: &Vec<Option<String>>) -> (r: String)
        requires
            self.wf(),
            resolved@.len() == self.selection().len(),
        ensures
            self.selection().len() == 0 ==> r@ == "No apps selected"@,
            self.selection().len() > 0 ==> r@ == join_lines(
                Seq::new(
                    self.selection().len(),
                    |k: int|
                        preview_entry(
                            self.selection()[k].0,
                            self.selection()[k].1,
                            opt_view(resolved@[k]),
                        ),
                ),
            ),
    {
        let selected = self.selected_apps();
        if selected.len() == 0 {
            let mut r = String::new();
            push_all(&mut r, "No apps selected");
            return r;
        }
        let ghost sel = self.selection();
        let ghost parts = Seq::new(
            sel.len(),
            |k: int| preview_entry(sel[k].0, sel[k].1, opt_view(resolved@[k])),
        );
        let mut r = String::new();
        let mut k: usize = 0;
        while k < selected.len()
            invariant
                k <= selected@.len(),
                selected@.len() == sel.len(),
                resolved@.len() == sel.len(),
                forall|j: int|
                    0 <= j < selected@.len() ==> (#[trigger] selected@[j]).0@ == sel[j].0
                        && selected@[j].1@ == sel[j].1,
                parts == Seq::new(
                    sel.len(),
                    |j: int| preview_entry(sel[j].0, sel[j].1, opt_view(resolved@[j])),
                ),
                r@ == join_lines(parts.take(k as int)),
            decreases selected@.len() - k,
        {
            let ghost before = r@;
            if k > 0 {
                push_all(&mut r, "\n");
            }
            push_all(&mut r, selected[k].0.as_str());
            push_all(&mut r, "\n  ");
            push_all(&mut r, selected[k].1.as_str());
            push_all(&mut r, "\n  \u{2192} ");
            match &resolved[k] {
                Some(p) => push_all(&mut r, p.as_str()),
                None => push_all(&mut r, "NOT FOUND"),
            }
            push_all(&mut r, "\n");
            proof {
                let t = parts.take(k + 1);
                assert(t.drop_last() =~= parts.take(k as int));
                assert(t.last() == parts[k as int]);
                if k == 0 {
                    assert(r@ =~= parts[0]);
                } else {
                    assert(r@ =~= before + "\n"@ + parts[k as int]);
                }
            }
            k = k + 1;
        }
        proof {
            assert(parts.take(sel.len() as int) =~= parts);
        }
        r
    }
}

} // verus!
