//! What the keys, the clicks, the selection and the launcher scan do, stated
//! over the states before and after and over the inputs themselves.
use vstd::prelude::*;

use crate::app::{key_command_spec, App, Focus, KeyCode, KeyInput, MouseKind, Outcome};
use crate::text::{
    byte_len, byte_pos, floor_index, lemma_byte_pos_full, lemma_byte_pos_mono, on_boundary, trim,
};
use crate::vmoptions::{first_target, line_target};

verus! {

/// A pressed key (not a release) with `code`.
pub open spec fn pressed(code: KeyCode, ctrl: bool) -> KeyInput {
    KeyInput { code, ctrl, release: false }
}

/// In the app list, Down and `j` move the highlight one entry forward,
/// wrapping from the last entry to the first; the check boxes stay.
pub proof fn law_list_down_keys(a: &App, b: &App, ctrl: bool, down_j: bool, out: Outcome)
    requires
        a.wf(),
        a.focus == Focus::AppList,
        App::command_done(
            a,
            b,
            key_command_spec(
                a.focus,
                a.button_focus,
                pressed(if down_j { KeyCode::Down } else { KeyCode::Char('j') }, ctrl),
            ),
            out,
        ),
    ensures
        out == Outcome::Continue,
        b.check_states@ == a.check_states@,
        b.same_input(a),
        b.selected == Some(
            (if a.current_entry() + 1 < a.check_states@.len() {
                a.current_entry() + 1
            } else {
                0
            }) as usize,
        ),
{
    let len = a.check_states@.len() as int;
    let c = a.current_entry();
    assert(0 <= c < len);
    if c + 1 < len {
        vstd::arithmetic::div_mod::lemma_small_mod((c + 1) as nat, len as nat);
    } else {
        vstd::arithmetic::div_mod::lemma_mod_self_0(len);
    }
}

/// In the app list, Up and `k` move the highlight one entry back, wrapping
/// from the first entry to the last; the check boxes stay.
pub proof fn law_list_up_keys(a: &App, b: &App, ctrl: bool, up_k: bool, out: Outcome)
    requires
        a.wf(),
        a.focus == Focus::AppList,
        App::command_done(
            a,
            b,
            key_command_spec(
                a.focus,
                a.button_focus,
                pressed(if up_k { KeyCode::Up } else { KeyCode::Char('k') }, ctrl),
            ),
            out,
        ),
    ensures
        out == Outcome::Continue,
        b.check_states@ == a.check_states@,
        b.same_input(a),
        b.selected == Some(
            (if a.current_entry() > 0 {
                a.current_entry() - 1
            } else {
                a.check_states@.len() - 1
            }) as usize,
        ),
{
    let len = a.check_states@.len() as int;
    let c = a.current_entry();
    assert(0 <= c < len);
    if c > 0 {
        vstd::arithmetic::div_mod::lemma_small_mod((c - 1) as nat, len as nat);
    } else {
        vstd::arithmetic::div_mod::lemma_mod_add_multiples_vanish(-1, len);
        vstd::arithmetic::div_mod::lemma_small_mod((len - 1) as nat, len as nat);
    }
}

/// In the editor, End puts the cursor at the end of its line, and Home at its
/// start with the scroll reset; the text stays.
pub proof fn law_home_end_keys(a: &App, b: &App, ctrl: bool, end: bool, out: Outcome)
    requires
        a.wf(),
        a.focus == Focus::Input,
        App::command_done(
            a,
            b,
            key_command_spec(
                a.focus,
                a.button_focus,
                pressed(if end { KeyCode::End } else { KeyCode::Home }, ctrl),
            ),
            out,
        ),
    ensures
        out == Outcome::Continue,
        b.lines@ == a.lines@,
        b.cursor_row == a.cursor_row,
        end ==> b.cursor_col == byte_len(a.text()[a.cursor_row as int]),
        !end ==> b.cursor_col == 0 && b.input_scroll == 0,
{
}

/// The last character boundary of `s` at or before `min(m, byte_len(s))`
/// is one: it is a boundary, it is not past that bound, and no boundary
/// between it and the bound exists.
proof fn lemma_floor_boundary(s: Seq<char>, m: int)
    requires
        0 <= m <= byte_len(s),
    ensures
        on_boundary(s, byte_pos(s, floor_index(s, m)) as int),
        byte_pos(s, floor_index(s, m)) <= m,
        forall|p: int| on_boundary(s, p) && p <= m ==> p <= byte_pos(s, floor_index(s, m)),
{
    lemma_byte_pos_full(s);
    lemma_floor_witness(s, m, 0);
    let f = floor_index(s, m);
    assert(0 <= f <= s.len() && byte_pos(s, f) <= m && (f == s.len() || byte_pos(s, f + 1) > m));
    assert forall|p: int| on_boundary(s, p) && p <= m implies p <= byte_pos(s, f) by {
        let q = choose|q: int| 0 <= q <= s.len() && #[trigger] byte_pos(s, q) == p;
        if q > f {
            lemma_byte_pos_mono(s, f + 1, q);
        } else {
            lemma_byte_pos_mono(s, q, f);
        }
    }
}

/// Some index is the last whose offset is at most `m`, searching from `k`.
proof fn lemma_floor_witness(s: Seq<char>, m: int, k: int)
    requires
        0 <= k <= s.len(),
        byte_pos(s, k) <= m,
    ensures
        exists|j: int|
            0 <= j <= s.len() && #[trigger] byte_pos(s, j) <= m && (j == s.len() || byte_pos(
                s,
                j + 1,
            ) > m),
    decreases s.len() - k,
{
    if k < s.len() && byte_pos(s, k + 1) <= m {
        lemma_floor_witness(s, m, k + 1);
    } else {
        assert(0 <= k <= s.len() && byte_pos(s, k) <= m && (k == s.len() || byte_pos(s, k + 1)
            > m));
    }
}

/// A left click inside the editor (not on the list, the Apply or the Quit
/// button) focuses the editor and puts the cursor on the clicked line (the
/// last one below the text), at the last character boundary at or before
/// the clicked column plus the horizontal scroll, and at most at the end of
/// the line. The text and the scroll stay.
pub proof fn law_click_in_editor(a: &App, b: &App, col: u16, row: u16, out: Outcome)
    requires
        a.wf(),
        a.list_index_spec(col, row) is None,
        !a.layout.apply_area.has(col, row),
        !a.layout.quit_area.has(col, row),
        a.layout.input_area.has(col, row),
        App::mouse_done(a, b, col, row, MouseKind::LeftDown, out),
    ensures
        out == Outcome::Continue,
        b.focus == Focus::Input,
        b.lines@ == a.lines@,
        b.input_scroll == a.input_scroll,
        b.cursor_row == ({
            let y = row - a.layout.input_area.y - 1;
            if y < 0 {
                0
            } else if y < a.lines@.len() - 1 {
                y
            } else {
                a.lines@.len() - 1
            }
        }),
        ({
            let line = a.text()[b.cursor_row as int];
            let x = col - a.layout.input_area.x - 1;
            let target = (if x < 0 {
                0
            } else {
                x
            }) + a.input_scroll;
            let bound = if target < byte_len(line) {
                target
            } else {
                byte_len(line) as int
            };
            &&& on_boundary(line, b.cursor_col as int)
            &&& b.cursor_col <= bound
            &&& forall|p: int| on_boundary(line, p) && p <= bound ==> p <= b.cursor_col
        }),
{
    let r = a.clicked_row(row);
    let line = a.text()[r];
    let t = a.clicked_target(col);
    let bound = if t < byte_len(line) {
        t
    } else {
        byte_len(line) as int
    };
    lemma_floor_boundary(line, bound);
}

/// Whether app `j` is touched by an apply: "All apps" or its own box is
/// checked.
pub open spec fn touched(cs: Seq<bool>, j: int) -> bool {
    cs[0] || cs[j + 1]
}

/// How many of the first `k` apps an apply touches.
pub open spec fn touched_before(cs: Seq<bool>, k: int) -> int
    decreases k,
{
    if k <= 0 {
        0
    } else {
        touched_before(cs, k - 1) + if touched(cs, k - 1) {
            1int
        } else {
            0int
        }
    }
}

proof fn lemma_touched_before_mono(cs: Seq<bool>, j: int, k: int)
    requires
        0 <= j <= k,
    ensures
        touched_before(cs, j) <= touched_before(cs, k),
        j < k && touched(cs, j) ==> touched_before(cs, j) < touched_before(cs, k),
    decreases k - j,
{
    if j < k {
        lemma_touched_before_mono(cs, j, k - 1);
    }
}

/// An apply touches exactly the apps whose box, or the "All apps" box, is
/// checked, each once and in list order: the selection has one entry per such
/// app, and the `i`-th such app is the selection's `i`-th entry.
pub proof fn law_selection_is_checked_apps(a: &App, n: int)
    requires
        a.wf(),
        0 <= n <= a.app_names@.len(),
    ensures
        a.selection_upto(n).len() == touched_before(a.check_states@, n),
        forall|k: int|
            0 <= k < n && touched(a.check_states@, k) ==> #[trigger] a.selection_upto(n)[touched_before(
                a.check_states@,
                k,
            )] == (a.app_names@[k]@, a.binaries@[k]@),
    decreases n,
{
    let cs = a.check_states@;
    if n > 0 {
        law_selection_is_checked_apps(a, n - 1);
        let p = a.selection_upto(n - 1);
        assert forall|k: int|
            0 <= k < n && touched(cs, k) implies #[trigger] a.selection_upto(n)[touched_before(
            cs,
            k,
        )] == (a.app_names@[k]@, a.binaries@[k]@) by {
            lemma_touched_before_mono(cs, 0, k);
            if k < n - 1 {
                lemma_touched_before_mono(cs, k, n - 1);
                assert(0 <= touched_before(cs, k) < p.len());
                assert(a.selection_upto(n)[touched_before(cs, k)] == p[touched_before(cs, k)]);
            }
        }
    }
}

/// A launcher script starts the program of the first of its lines that,
/// trimmed, is a launcher line; lines before it that are not (blank or not)
/// do not stop the search; with no such line it starts none.
pub proof fn law_first_launcher_line(lines: Seq<Seq<char>>)
    ensures
        first_target(lines) is None <==> forall|j: int|
            0 <= j < lines.len() ==> line_target(trim(#[trigger] lines[j])) is None,
        first_target(lines) is Some ==> exists|i: int|
            0 <= i < lines.len() && line_target(trim(lines[i])) == first_target(lines) && forall|
                j: int,
            |
                0 <= j < i ==> line_target(trim(#[trigger] lines[j])) is None,
    decreases lines.len(),
{
    if lines.len() > 0 {
        let rest = lines.drop_first();
        law_first_launcher_line(rest);
        if line_target(trim(lines[0])) is None {
            assert forall|j: int| 0 <= j < rest.len() implies rest[j] == lines[j + 1] by {}
            if first_target(rest) is Some {
                let i = choose|i: int|
                    0 <= i < rest.len() && line_target(trim(rest[i])) == first_target(rest)
                        && forall|j: int|
                        0 <= j < i ==> line_target(trim(#[trigger] rest[j])) is None;
                assert(lines[i + 1] == rest[i]);
                assert forall|j: int| 0 <= j < i + 1 implies line_target(
                    trim(#[trigger] lines[j]),
                ) is None by {
                    if j > 0 {
                        assert(lines[j] == rest[j - 1]);
                    }
                }
            } else {
                assert forall|j: int| 0 <= j < lines.len() implies line_target(
                    trim(#[trigger] lines[j]),
                ) is None by {
                    if j > 0 {
                        assert(lines[j] == rest[j - 1]);
                    }
                }
            }
        } else {
            assert(line_target(trim(lines[0])) == first_target(lines));
        }
    }
}

} // verus!
