//! Properties that relate several operations of the helper.
use vstd::prelude::*;

use crate::app::{
    all_apps_checked, post_all, report_messages, AppReport, Severity, key_command_spec, options_of, toggled, wrap_index, App, ButtonFocus,
    Command, Focus, KeyCode, KeyInput,
};
use crate::editor::{join_with_next, split_line};
use crate::text::{
    byte_len, contains_seq, is_whitespace, lemma_boundary_of_index, lemma_byte_len_push,
    lemma_byte_pos_full, lemma_byte_pos_mono, lemma_char_index, occurs_at, on_boundary, trim, trim_end,
    trim_start,
};
use crate::vmoptions::{
    candidates_spec, first_existing, options_file, path_join, path_parent, updated_content,
};
use vstd::arithmetic::div_mod::{lemma_mod_add_multiples_vanish, lemma_mod_self_0, lemma_small_mod};

verus! {

/// Backspace right after typing a character removes it again: the text and
/// the cursor are as before.
pub proof fn law_backspace_undoes_insert(a: &App, b: &App, c: &App, ch: char)
    requires
        a.cursor_row < a.lines@.len(),
        on_boundary(a.cur_line(), a.cursor_col as int),
        App::inserted(a, b, ch),
        App::backspaced(b, c),
    ensures
        c.text() == a.text(),
        c.cursor_row == a.cursor_row,
        c.cursor_col == a.cursor_col,
        c.input_scroll == a.input_scroll,
        c.same_outside_input(a),
{
    let line = a.cur_line();
    let k = a.cursor_index();
    lemma_char_index(line, a.cursor_col as int);
    let nl = line.insert(k, ch);
    assert(b.cur_line() == nl);
    assert(nl.take(k + 1) =~= line.take(k).push(ch));
    lemma_byte_len_push(line.take(k), ch);
    lemma_boundary_of_index(nl, k + 1);
    assert(b.cursor_index() == k + 1);
    assert(nl.remove(k) =~= line);
    assert(nl.take(k) =~= line.take(k));
    assert(c.text() =~= a.text().update(a.cursor_row as int, line));
    assert(a.text().update(a.cursor_row as int, line) =~= a.text());
}

/// Backspace at the start of the line that a line break just made joins the
/// two halves again: the text and the cursor are as before the break.
pub proof fn law_backspace_undoes_newline(a: &App, b: &App, c: &App)
    requires
        a.cursor_row < a.lines@.len(),
        on_boundary(a.cur_line(), a.cursor_col as int),
        App::newline_done(a, b),
        App::backspaced(b, c),
    ensures
        c.text() == a.text(),
        c.cursor_row == a.cursor_row,
        c.cursor_col == a.cursor_col,
        c.same_outside_input(a),
{
    let r = a.cursor_row as int;
    let line = a.cur_line();
    let k = a.cursor_index();
    lemma_char_index(line, a.cursor_col as int);
    let t = a.text();
    let bt = split_line(t, r, k);
    assert(bt[r] == line.take(k));
    assert(bt[r + 1] == line.skip(k));
    assert(line.take(k) + line.skip(k) =~= line);
    assert(join_with_next(bt, r) =~= t);
}

/// Moving right then left comes back to the same place, unless the cursor is
/// at the very end of the text.
pub proof fn law_left_undoes_right(a: &App, b: &App, c: &App)
    requires
        a.cursor_row < a.lines@.len(),
        on_boundary(a.cur_line(), a.cursor_col as int),
        App::moved_right(a, b),
        App::moved_left(b, c),
        a.cursor_col < byte_len(a.cur_line()) || a.cursor_row + 1 < a.lines@.len(),
    ensures
        c.lines@ == a.lines@,
        c.cursor_row == a.cursor_row,
        c.cursor_col == a.cursor_col,
{
    let line = a.cur_line();
    let k = a.cursor_index();
    lemma_char_index(line, a.cursor_col as int);
    lemma_byte_pos_full(line);
    if a.cursor_col < byte_len(line) {
        if k == line.len() {
            assert(false);
        }
        lemma_byte_pos_mono(line, k, k + 1);
        lemma_boundary_of_index(line, k + 1);
        assert(b.cursor_index() == k + 1);
    } else {
        if k < line.len() {
            lemma_byte_pos_mono(line, k, line.len() as int);
        }
        assert(b.text() == a.text());
    }
}

proof fn lemma_all_apps_same(a: Seq<bool>, b: Seq<bool>)
    requires
        a.len() == b.len(),
        forall|j: int| 1 <= j < a.len() ==> a[j] == b[j],
    ensures
        all_apps_checked(a) == all_apps_checked(b),
{
    if all_apps_checked(a) {
        assert forall|j: int| 1 <= j < b.len() implies #[trigger] b[j] by {
            assert(a[j]);
        }
    }
    if all_apps_checked(b) {
        assert forall|j: int| 1 <= j < a.len() implies #[trigger] a[j] by {
            assert(b[j]);
        }
    }
}

/// After any toggle of a list with at least one app, the "All apps" entry is
/// checked exactly when every app is checked.
pub proof fn law_toggle_keeps_all_apps_entry(cs: Seq<bool>, i: int)
    requires
        cs.len() >= 2,
        0 <= i < cs.len(),
    ensures
        toggled(cs, i)[0] == all_apps_checked(toggled(cs, i)),
{
    let t = toggled(cs, i);
    if i == 0 {
        if !t[0] {
            assert(!t[1]);
        }
    } else if cs[i] {
        assert(!t[i]);
    } else {
        let c = cs.update(i, true);
        lemma_all_apps_same(t, c);
    }
}

/// Toggling the same app twice restores the check boxes, when the "All apps"
/// entry agreed with the apps before.
pub proof fn law_toggle_app_twice(cs: Seq<bool>, i: int)
    requires
        1 <= i < cs.len(),
        cs[0] == all_apps_checked(cs),
    ensures
        toggled(toggled(cs, i), i) == cs,
{
    let t = toggled(cs, i);
    let u = toggled(t, i);
    if cs[i] {
        assert(t[i] == false);
        let c = t.update(i, true);
        lemma_all_apps_same(c, cs);
        assert(u =~= cs);
    } else {
        assert(!all_apps_checked(cs));
        assert(t[i]);
        assert(u =~= cs);
    }
}

/// Moving the highlight down then up comes back to the same entry.
pub proof fn law_list_down_then_up(current: int, len: int)
    requires
        0 <= current < len,
    ensures
        wrap_index(wrap_index(current, 1, len), -1, len) == current,
{
    let d = wrap_index(current, 1, len);
    if current + 1 < len {
        lemma_small_mod((current + 1) as nat, len as nat);
        assert(d == current + 1);
        lemma_small_mod(current as nat, len as nat);
    } else {
        lemma_mod_self_0(len);
        assert(d == 0);
        lemma_mod_add_multiples_vanish(-1, len);
        lemma_small_mod((len - 1) as nat, len as nat);
    }
}

/// Control-C quits whatever has the keys.
pub proof fn law_ctrl_c_quits(focus: Focus, button: ButtonFocus)
    ensures
        key_command_spec(focus, button, KeyInput { code: KeyCode::Char('c'), ctrl: true, release: false })
            == Command::Quit,
{
}

/// Released keys do nothing.
pub proof fn law_release_ignored(focus: Focus, button: ButtonFocus, code: KeyCode, ctrl: bool)
    ensures
        key_command_spec(focus, button, KeyInput { code, ctrl, release: true }) == Command::Nothing,
{
}

/// An option is never added twice: once added, it is in the file, and adding
/// it again leaves the file unchanged.
pub proof fn law_update_idempotent(content: Seq<char>, text: Seq<char>)
    ensures
        updated_content(content, text) matches Some(n) ==> contains_seq(n, text) && updated_content(
            n,
            text,
        ) is None,
{
    if let Some(n) = updated_content(content, text) {
        let start: int = trim_end(content).len() + 1int;
        assert(n.subrange(start, start + text.len()) =~= text);
        assert(occurs_at(n, text, start));
    }
}

proof fn lemma_trim_start_head(s: Seq<char>)
    ensures
        trim_start(s).len() > 0 ==> !is_whitespace(trim_start(s)[0]),
        trim_start(s).len() <= s.len(),
    decreases s.len(),
{
    if s.len() > 0 && is_whitespace(s[0]) {
        lemma_trim_start_head(s.drop_first());
    }
}

proof fn lemma_trim_end_prefix(s: Seq<char>)
    ensures
        trim_end(s).len() <= s.len(),
        trim_end(s) == s.take(trim_end(s).len() as int),
        trim_end(s).len() > 0 ==> !is_whitespace(trim_end(s).last()),
        forall|j: int| trim_end(s).len() <= j < s.len() ==> is_whitespace(#[trigger] s[j]),
    decreases s.len(),
{
    if s.len() > 0 && is_whitespace(s.last()) {
        lemma_trim_end_prefix(s.drop_last());
        assert(s.drop_last().take(trim_end(s).len() as int) =~= s.take(trim_end(s).len() as int));
        assert forall|j: int| trim_end(s).len() <= j < s.len() implies is_whitespace(
            #[trigger] s[j],
        ) by {
            if j < s.len() - 1 {
                assert(s[j] == s.drop_last()[j]);
            }
        }
    } else {
        assert(s.take(s.len() as int) =~= s);
    }
}

/// Trimming twice is trimming once.
pub proof fn law_trim_idempotent(s: Seq<char>)
    ensures
        trim(trim(s)) == trim(s),
{
    let y = trim_start(s);
    let x = trim_end(y);
    lemma_trim_start_head(s);
    lemma_trim_end_prefix(y);
    if x.len() > 0 {
        assert(x[0] == y[0]);
    }
    assert(trim_start(x) == x);
    assert(trim_end(x) == x);
}

/// Every option that the editor yields is non-empty and has no surrounding
/// whitespace.
pub proof fn law_options_trimmed(t: Seq<Seq<char>>)
    ensures
        forall|i: int|
            0 <= i < options_of(t).len() ==> (#[trigger] options_of(t)[i]).len() > 0 && trim(
                options_of(t)[i],
            ) == options_of(t)[i],
    decreases t.len(),
{
    if t.len() > 0 {
        let p = options_of(t.drop_last());
        law_options_trimmed(t.drop_last());
        law_trim_idempotent(t.last());
        let o = options_of(t);
        assert forall|i: int| 0 <= i < o.len() implies (#[trigger] o[i]).len() > 0 && trim(o[i])
            == o[i] by {
            if i < p.len() {
                assert(o[i] == p[i]);
            }
        }
    }
}

/// With "All apps" checked, an apply touches every app, in list order.
pub proof fn law_all_apps_selects_every_app(app: &App, n: int)
    requires
        app.wf(),
        app.check_states@[0],
        0 <= n <= app.app_names@.len(),
    ensures
        app.selection_upto(n).len() == n,
        forall|k: int|
            0 <= k < n ==> #[trigger] app.selection_upto(n)[k] == (
                app.app_names@[k]@,
                app.binaries@[k]@,
            ),
    decreases n,
{
    if n > 0 {
        law_all_apps_selects_every_app(app, n - 1);
    }
}

/// The options file chosen among the candidates is the first of them, in
/// order of preference, that exists.
pub proof fn law_first_existing_candidate(cands: Seq<Seq<char>>, existing: Seq<Seq<char>>)
    ensures
        match first_existing(cands, existing) {
            Some(i) => {
                &&& 0 <= i < cands.len()
                &&& existing.contains(cands[i])
                &&& forall|j: int| 0 <= j < i ==> !existing.contains(#[trigger] cands[j])
            },
            None => forall|j: int| 0 <= j < cands.len() ==> !existing.contains(#[trigger] cands[j]),
        },
    decreases cands.len(),
{
    if cands.len() > 0 && !existing.contains(cands[0]) {
        let rest = cands.drop_first();
        law_first_existing_candidate(rest, existing);
        match first_existing(rest, existing) {
            Some(i) => {
                assert forall|j: int| 0 <= j < i + 1 implies !existing.contains(
                    #[trigger] cands[j],
                ) by {
                    if j > 0 {
                        assert(cands[j] == rest[j - 1]);
                    }
                }
            },
            None => {
                assert forall|j: int| 0 <= j < cands.len() implies !existing.contains(
                    #[trigger] cands[j],
                ) by {
                    if j > 0 {
                        assert(cands[j] == rest[j - 1]);
                    }
                }
            },
        }
    }
}

/// `s` ends with `suffix`.
pub open spec fn ends_with(s: Seq<char>, suffix: Seq<char>) -> bool {
    suffix.len() <= s.len() && s.skip(s.len() - suffix.len()) == suffix
}

/// The options file of a program (found or to be created) lies in the
/// program's directory and its name ends in `.vmoptions`; there is one for
/// every program path with a directory and a file name, and it is an existing
/// candidate whenever one exists.
pub proof fn law_options_file_beside_binary(binary: Seq<char>, existing: Seq<Seq<char>>)
    ensures
        options_file(binary, existing) is Some <==> candidates_spec(binary) is Some,
        options_file(binary, existing) matches Some(p) ==> exists|f: Seq<char>|
            p == path_join(path_parent(binary)->0, f) && #[trigger] ends_with(f, ".vmoptions"@),
        candidates_spec(binary) matches Some(c) ==> ((exists|j: int|
            0 <= j < c.len() && existing.contains(#[trigger] c[j])) ==> existing.contains(
            options_file(binary, existing)->0,
        )),
{
    if let Some(c) = candidates_spec(binary) {
        law_first_existing_candidate(c, existing);
        let i: int = match first_existing(c, existing) {
            Some(k) => k,
            None => 4,
        };
        assert(options_file(binary, existing) == Some(c[i]));
        reveal_strlit(".vmoptions");
        reveal_strlit("64.exe.vmoptions");
        reveal_strlit(".exe.vmoptions");
        reveal_strlit("64.vmoptions");
        let dir = path_parent(binary)->0;
        let name = crate::vmoptions::path_file_name(binary)->0;
        let product = crate::vmoptions::product_of(crate::vmoptions::path_file_stem(binary), name);
        let f = if i == 0 {
            name + ".vmoptions"@
        } else if i == 1 {
            product + "64.exe.vmoptions"@
        } else if i == 2 {
            product + ".exe.vmoptions"@
        } else if i == 3 {
            product + "64.vmoptions"@
        } else {
            product + ".vmoptions"@
        };
        assert(c[i] == path_join(dir, f));
        assert(f.skip(f.len() - 10) =~= ".vmoptions"@);
        assert(ends_with(f, ".vmoptions"@));
    }
}

/// An apply changes nothing but the notifications: once `begin_apply` has
/// handed out the options and the selected apps (`a` to `b`, posting
/// nothing) and `complete_apply` has reported on the file work (`b` to `c`),
/// the state differs from `a` only in the notifications, which have gained
/// each app's report, in order, then "Done".
pub proof fn law_apply_changes_only_notifications(
    a: &App,
    b: &App,
    c: &App,
    reports: Seq<AppReport>,
    now: u64,
)
    requires
        b.same_outside_notifications(a),
        b.notes() == a.notes(),
        c.same_outside_notifications(b),
        c.notes() == post_all(
            b.notes(),
            report_messages(reports).push(("Done"@, Severity::Info)),
            now,
        ),
    ensures
        c.same_outside_notifications(a),
        c.notes() == post_all(
            a.notes(),
            report_messages(reports).push(("Done"@, Severity::Info)),
            now,
        ),
{
}

/// The text of an options file after adding `text`: the new text, or the
/// old one when the option was already there.
pub open spec fn update_or_keep(content: Seq<char>, text: Seq<char>) -> Seq<char> {
    match updated_content(content, text) {
        Some(n) => n,
        None => content,
    }
}

/// The text of an options file after adding each of `opts` in turn.
pub open spec fn apply_options(content: Seq<char>, opts: Seq<Seq<char>>) -> Seq<char>
    decreases opts.len(),
{
    if opts.len() == 0 {
        content
    } else {
        update_or_keep(apply_options(content, opts.drop_last()), opts.last())
    }
}

/// Adding an option keeps every option already in the file, when that option
/// is not empty and does not end in whitespace (as every entered option is
/// trimmed and non-empty).
pub proof fn law_update_keeps_options(content: Seq<char>, old_opt: Seq<char>, text: Seq<char>)
    requires
        contains_seq(content, old_opt),
        old_opt.len() > 0,
        !is_whitespace(old_opt.last()),
    ensures
        contains_seq(update_or_keep(content, text), old_opt),
{
    if let Some(n) = updated_content(content, text) {
        let i = choose|i: int| #[trigger] occurs_at(content, old_opt, i);
        let h = trim_end(content);
        lemma_trim_end_prefix(content);
        let e = i + old_opt.len() - 1;
        assert(content[e] == old_opt.last());
        assert(e < h.len());
        assert(n == h + seq!['\n'] + text + seq!['\n']);
        assert forall|k: int| 0 <= k < old_opt.len() implies n.subrange(i, i + old_opt.len())[k]
            == old_opt[k] by {
            assert(n[i + k] == h[i + k]);
            assert(h[i + k] == content[i + k]);
            assert(content.subrange(i, i + old_opt.len())[k] == content[i + k]);
        }
        assert(n.subrange(i, i + old_opt.len()) =~= old_opt);
        assert(occurs_at(n, old_opt, i));
    }
}

/// After adding each of `opts` in turn, the file contains every one of them,
/// when each is non-empty and does not end in whitespace (as every entered
/// option is).
pub proof fn law_apply_keeps_every_option(content: Seq<char>, opts: Seq<Seq<char>>)
    requires
        forall|k: int|
            0 <= k < opts.len() ==> (#[trigger] opts[k]).len() > 0 && !is_whitespace(
                opts[k].last(),
            ),
    ensures
        forall|k: int|
            0 <= k < opts.len() ==> contains_seq(apply_options(content, opts), #[trigger] opts[k]),
    decreases opts.len(),
{
    if opts.len() > 0 {
        let p = opts.drop_last();
        let t = opts.last();
        assert forall|k: int| 0 <= k < p.len() implies (#[trigger] p[k]).len() > 0
            && !is_whitespace(p[k].last()) by {
            assert(p[k] == opts[k]);
        }
        law_apply_keeps_every_option(content, p);
        let prev = apply_options(content, p);
        let now = apply_options(content, opts);
        assert(now == update_or_keep(prev, t));
        lemma_added_is_there(prev, t);
        assert forall|k: int| 0 <= k < opts.len() implies contains_seq(now, #[trigger] opts[k]) by {
            if k < opts.len() - 1 {
                assert(opts[k] == p[k]);
                law_update_keeps_options(prev, p[k], t);
            }
        }
    }
}

/// Applying the options entered in the editor (with text `t`) to a file
/// leaves every one of them in it.
pub proof fn law_entered_options_all_kept(content: Seq<char>, t: Seq<Seq<char>>)
    ensures
        forall|k: int|
            0 <= k < options_of(t).len() ==> contains_seq(
                apply_options(content, options_of(t)),
                #[trigger] options_of(t)[k],
            ),
{
    let opts = options_of(t);
    law_options_trimmed(t);
    assert forall|k: int| 0 <= k < opts.len() implies (#[trigger] opts[k]).len() > 0
        && !is_whitespace(opts[k].last()) by {
        let o = opts[k];
        assert(o.len() > 0 && trim(o) == o);
        lemma_trim_end_prefix(trim_start(o));
    }
    law_apply_keeps_every_option(content, opts);
}

proof fn lemma_added_is_there(content: Seq<char>, text: Seq<char>)
    ensures
        contains_seq(update_or_keep(content, text), text),
{
    law_update_idempotent(content, text);
}

} // verus!
