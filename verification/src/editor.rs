//! The multi-line option editor: the cursor is a line and a UTF-8 byte
//! offset on a character boundary of it; every key that edits or moves
//! changes the lines and the cursor as stated here.
use vstd::prelude::*;

use crate::app::{sub_or_zero, App};
use crate::text::{
    byte_len, byte_length, byte_pos, char_index, char_index_at, char_width, chars_of,
    floor_char_index, floor_index, lemma_boundary_of_index, lemma_byte_len_concat,
    lemma_byte_len_push, lemma_byte_pos_full, lemma_byte_pos_mono, lemma_byte_pos_skip,
    on_boundary, push_all, string_of, string_of_range, utf8_width,
};

verus! {

/// `t` with line `r + 1` appended to line `r`.
pub open spec fn join_with_next(t: Seq<Seq<char>>, r: int) -> Seq<Seq<char>> {
    t.update(r, t[r] + t[r + 1]).remove(r + 1)
}

/// `t` with line `r` split at character index `k`.
pub open spec fn split_line(t: Seq<Seq<char>>, r: int, k: int) -> Seq<Seq<char>> {
    t.update(r, t[r].take(k)).insert(r + 1, t[r].skip(k))
}

/// The byte offset of the last character boundary of `s` at or before
/// `min(b, byte_len(s))`.
pub open spec fn column_in(s: Seq<char>, b: int) -> int {
    let m = if b < byte_len(s) {
        b
    } else {
        byte_len(s) as int
    };
    byte_pos(s, floor_index(s, m)) as int
}

/// The part of `line` shown when the editor is scrolled to byte offset
/// `scroll`: from that offset on, or nothing when the line is shorter.
pub open spec fn visible_from(line: Seq<char>, scroll: int) -> Seq<char> {
    if scroll < byte_len(line) {
        line.skip(char_index(line, scroll))
    } else {
        Seq::empty()
    }
}

/// The cursor's line as drawn: the shown text before the cursor, the
/// character under the cursor (a space at the end of the line) and the shown
/// text after it.
pub struct CursorLine {
    pub before: String,
    pub cursor: char,
    pub after: String,
}

/// The byte offset of the character before index `k` (`k > 0`).
fn byte_offset_before(line: &Vec<char>, k: usize) -> (r: usize)
    requires
        0 < k <= line.len(),
        byte_len(line@) <= isize::MAX,
    ensures
        r == byte_pos(line@, k - 1),
{
    crate::text::byte_offset(line, k - 1)
}

impl App {
    /// `b` is `a` after `input_insert(ch)`.
    pub open spec fn inserted(a: &App, b: &App, ch: char) -> bool {
        &&& b.same_outside_input(a)
        &&& b.text() == a.text().update(
            a.cursor_row as int,
            a.cur_line().insert(a.cursor_index(), ch),
        )
        &&& b.cursor_row == a.cursor_row
        &&& b.cursor_col == a.cursor_col + char_width(ch)
        &&& b.input_scroll == a.input_scroll
    }

    /// `b` is `a` after `input_newline()`.
    pub open spec fn newline_done(a: &App, b: &App) -> bool {
        &&& b.same_outside_input(a)
        &&& b.text() == split_line(
            a.text(),
            a.cursor_row as int,
            a.cursor_index(),
        )
        &&& b.cursor_row == a.cursor_row + 1
        &&& b.cursor_col == 0
        &&& b.input_scroll == 0
    }

    /// `b` is `a` after `input_delete()`.
    pub open spec fn deleted(a: &App, b: &App) -> bool {
        &&& b.same_outside_input(a)
        &&& b.cursor_row == a.cursor_row
        &&& b.cursor_col == a.cursor_col
        &&& b.input_scroll == a.input_scroll
        &&& a.cursor_col >= byte_len(a.cur_line()) ==> {
            if a.cursor_row + 1 < a.lines@.len() {
                b.text() == join_with_next(
                    a.text(),
                    a.cursor_row as int,
                )
            } else {
                b.text() == a.text()
            }
        }
        &&& a.cursor_col < byte_len(a.cur_line()) ==> b.text()
            == a.text().update(
            a.cursor_row as int,
            a.cur_line().remove(a.cursor_index()),
        )
    }

    /// `b` is `a` after `input_move_left()`.
    pub open spec fn moved_left(a: &App, b: &App) -> bool {
        &&& b.same_outside_input(a)
        &&& b.lines@ == a.lines@
        &&& b.input_scroll == a.input_scroll
        &&& a.cursor_col == 0 && a.cursor_row == 0 ==> b.same_input(
            a,
        )
        &&& a.cursor_col == 0 && a.cursor_row > 0 ==> {
            &&& b.cursor_row == a.cursor_row - 1
            &&& b.cursor_col == byte_len(a.text()[a.cursor_row - 1])
        }
        &&& a.cursor_col != 0 ==> {
            &&& b.cursor_row == a.cursor_row
            &&& b.cursor_col == byte_pos(
                a.cur_line(),
                a.cursor_index() - 1,
            )
        }
    }

    /// `b` is `a` after `input_move_right()`.
    pub open spec fn moved_right(a: &App, b: &App) -> bool {
        &&& b.same_outside_input(a)
        &&& b.lines@ == a.lines@
        &&& a.cursor_col >= byte_len(a.cur_line()) ==> {
            if a.cursor_row + 1 < a.lines@.len() {
                &&& b.cursor_row == a.cursor_row + 1
                &&& b.cursor_col == 0
                &&& b.input_scroll == 0
            } else {
                b.same_input(a)
            }
        }
        &&& a.cursor_col < byte_len(a.cur_line()) ==> {
            &&& b.cursor_row == a.cursor_row
            &&& b.cursor_col == byte_pos(
                a.cur_line(),
                a.cursor_index() + 1,
            )
            &&& b.input_scroll == a.input_scroll
        }
    }

    /// `b` is `a` after `input_move_up()`.
    pub open spec fn moved_up(a: &App, b: &App) -> bool {
        &&& b.same_outside_input(a)
        &&& b.lines@ == a.lines@
        &&& b.input_scroll == a.input_scroll
        &&& a.cursor_row == 0 ==> b.same_input(a)
        &&& a.cursor_row > 0 ==> {
            &&& b.cursor_row == a.cursor_row - 1
            &&& b.cursor_col == column_in(
                a.text()[a.cursor_row - 1],
                a.cursor_col as int,
            )
        }
    }

    /// `b` is `a` after `input_move_down()`.
    pub open spec fn moved_down(a: &App, b: &App) -> bool {
        &&& b.same_outside_input(a)
        &&& b.lines@ == a.lines@
        &&& b.input_scroll == a.input_scroll
        &&& a.cursor_row + 1 >= a.lines@.len() ==> b.same_input(
            a,
        )
        &&& a.cursor_row + 1 < a.lines@.len() ==> {
            &&& b.cursor_row == a.cursor_row + 1
            &&& b.cursor_col == column_in(
                a.text()[a.cursor_row + 1],
                a.cursor_col as int,
            )
        }
    }

    /// `b` is `a` after `input_home()`.
    pub open spec fn moved_home(a: &App, b: &App) -> bool {
        &&& b.same_outside_input(a)
        &&& b.lines@ == a.lines@
        &&& b.cursor_row == a.cursor_row
        &&& b.cursor_col == 0
        &&& b.input_scroll == 0
    }

    /// `b` is `a` after `input_end()`.
    pub open spec fn moved_end(a: &App, b: &App) -> bool {
        &&& b.same_outside_input(a)
        &&& b.lines@ == a.lines@
        &&& b.cursor_row == a.cursor_row
        &&& b.cursor_col == byte_len(a.cur_line())
        &&& b.input_scroll == a.input_scroll
    }

    /// `b` is `a` after `input_backspace()`.
    pub open spec fn backspaced(a: &App, b: &App) -> bool {
        &&& b.same_outside_input(a)
        &&& b.input_scroll == a.input_scroll
        &&& a.cursor_col == 0 && a.cursor_row == 0 ==> b.same_input(
            a,
        )
        &&& a.cursor_col == 0 && a.cursor_row > 0 ==> {
            &&& b.text() == join_with_next(
                a.text(),
                a.cursor_row - 1,
            )
            &&& b.cursor_row == a.cursor_row - 1
            &&& b.cursor_col == byte_len(a.text()[a.cursor_row - 1])
        }
        &&& a.cursor_col != 0 ==> {
            &&& b.text() == a.text().update(
                a.cursor_row as int,
                a.cur_line().remove(a.cursor_index() - 1),
            )
            &&& b.cursor_row == a.cursor_row
            &&& b.cursor_col == byte_pos(
                a.cur_line(),
                a.cursor_index() - 1,
            )
        }
    }

    /// The editor can draw line `row` from its scroll offset: the offset is on
    /// a character boundary of the line, or past its end.
    pub open spec fn scroll_fits(&self, row: int) -> bool {
        self.input_scroll < byte_len(self.text()[row]) ==> on_boundary(
            self.text()[row],
            self.input_scroll as int,
        )
    }

    /// The shown part of the cursor's line (see `visible_from`) and the
    /// cursor's offset in it.
    pub open spec fn cursor_view(&self) -> (Seq<char>, int) {
        let vis = visible_from(self.cur_line(), self.input_scroll as int);
        (vis, char_index(vis, sub_or_zero(self.cursor_col as int, self.input_scroll as int)))
    }

    /// The part of line `row` that the editor shows.
    pub fn visible_text(&self, row: usize) -> (r: String)
        requires
            self.wf(),
            row < self.lines@.len(),
            self.scroll_fits(row as int),
        ensures
            r@ == visible_from(self.text()[row as int], self.input_scroll as int),
    {
        let line = self.line_chars(row);
        proof {
            assert(byte_len(self.text()[row as int]) <= isize::MAX);
        }
        let len = byte_length(&line);
        if self.input_scroll < len {
            match char_index_at(&line, self.input_scroll) {
                Some(k) => {
                    let r = string_of_range(&line, k, line.len());
                    assert(line@.subrange(k as int, line@.len() as int) =~= line@.skip(k as int));
                    r
                },
                None => {
                    proof {
                        assert(false);
                    }
                    String::new()
                },
            }
        } else {
            String::new()
        }
    }

    /// The cursor's line as drawn (see `cursor_view`).
    pub fn cursor_line(&self) -> (r: CursorLine)
        requires
            self.wf(),
            self.scroll_fits(self.cursor_row as int),
        ensures
            r.before@ == self.cursor_view().0.take(self.cursor_view().1),
            self.cursor_view().1 < self.cursor_view().0.len() ==> {
                &&& r.cursor == self.cursor_view().0[self.cursor_view().1]
                &&& r.after@ == self.cursor_view().0.skip(self.cursor_view().1 + 1)
            },
            self.cursor_view().1 >= self.cursor_view().0.len() ==> r.cursor == ' ' && r.after@
                == Seq::<char>::empty(),
    {
        let row = self.cursor_row;
        let line = self.line_chars(row);
        proof {
            assert(byte_len(self.text()[row as int]) <= isize::MAX);
        }
        let len = byte_length(&line);
        let kcol = self.cursor_index_of(&line);
        let scroll = self.input_scroll;
        let ks: usize = if scroll < len {
            match char_index_at(&line, scroll) {
                Some(k) => k,
                None => {
                    proof {
                        assert(false);
                    }
                    0
                },
            }
        } else {
            line.len()
        };
        let cur = self.cursor_col.saturating_sub(scroll);
        // the cursor's index among the shown characters
        let kc: usize = if self.cursor_col >= scroll && ks <= kcol {
            kcol - ks
        } else {
            0
        };
        proof {
            lemma_byte_pos_full(line@);
            let vis = visible_from(line@, scroll as int);
            if scroll < len {
                assert(vis == line@.skip(ks as int));
                if self.cursor_col >= scroll {
                    if kcol < ks {
                        lemma_byte_pos_mono(line@, kcol as int, ks as int);
                    }
                    assert(ks <= kcol);
                    lemma_byte_pos_skip(line@, ks as int, kcol as int);
                    lemma_boundary_of_index(vis, (kcol - ks) as int);
                } else {
                    lemma_byte_pos_full(vis);
                    lemma_boundary_of_index(vis, 0);
                }
            } else {
                assert(vis =~= Seq::<char>::empty());
                if self.cursor_col > scroll {
                    lemma_byte_pos_mono(line@, kcol as int, line@.len() as int);
                }
                assert(cur == 0);
                lemma_byte_pos_full(vis);
                lemma_boundary_of_index(vis, 0);
                if self.cursor_col >= scroll && ks <= kcol {
                    assert(kcol == line@.len()) by {
                        if kcol < line@.len() {
                            lemma_byte_pos_mono(line@, kcol as int, line@.len() as int);
                        }
                    }
                }
            }
            assert(self.cursor_view().1 == kc);
            assert(self.cursor_view().0 == vis);
        }
        let ghost vis = visible_from(line@, scroll as int);
        let vlen = line.len() - ks;
        let before = string_of_range(&line, ks, ks + kc);
        proof {
            assert(line@.subrange(ks as int, ks + kc) =~= vis.take(kc as int));
        }
        if kc < vlen {
            let c = line[ks + kc];
            let after = string_of_range(&line, ks + kc + 1, line.len());
            proof {
                assert(line@.subrange(ks + kc + 1, line@.len() as int) =~= vis.skip(kc + 1));
            }
            CursorLine { before, cursor: c, after }
        } else {
            CursorLine { before, cursor: ' ', after: String::new() }
        }
    }

    /// The characters of line `row`.
    fn line_chars(&self, row: usize) -> (v: Vec<char>)
        requires
            row < self.lines@.len(),
        ensures
            v@ == self.text()[row as int],
    {
        chars_of(self.lines[row].as_str())
    }

    /// Character index of the cursor, given the characters of its line.
    fn cursor_index_of(&self, line: &Vec<char>) -> (k: usize)
        requires
            self.input_wf(),
            line@ == self.cur_line(),
        ensures
            k == self.cursor_index(),
            k <= line.len(),
            byte_pos(line@, k as int) == self.cursor_col,
    {
        proof {
            assert(byte_len(self.text()[self.cursor_row as int]) <= isize::MAX);
        }
        match char_index_at(line, self.cursor_col) {
            Some(k) => k,
            None => {
                proof {
                    assert(false);
                }
                0
            },
        }
    }

    /// Inserts `ch` at the cursor, which moves past it.
    pub fn input_insert(&mut self, ch: char)
        requires
            old(self).wf(),
            byte_len(old(self).cur_line()) + char_width(ch) <= isize::MAX,
        ensures
            final(self).wf(),
            Self::inserted(old(self), final(self), ch),
    {
        let ghost old_text = self.text();
        let row = self.cursor_row;
        let mut line = self.line_chars(row);
        let ghost old_line = line@;
        let k = self.cursor_index_of(&line);
        line.insert(k, ch);
        let ghost new_line = line@;
        proof {
            assert(new_line.take(k + 1) =~= old_line.take(k as int).push(ch));
            lemma_byte_len_push(old_line.take(k as int), ch);
            assert(new_line =~= old_line.take(k as int).push(ch) + old_line.skip(k as int));
            assert(old_line =~= old_line.take(k as int) + old_line.skip(k as int));
            lemma_byte_len_concat(old_line.take(k as int).push(ch), old_line.skip(k as int));
            lemma_byte_len_concat(old_line.take(k as int), old_line.skip(k as int));
            lemma_boundary_of_index(new_line, k + 1);
        }
        let s = string_of(&line);
        self.lines.set(row, s);
        self.cursor_col = self.cursor_col + utf8_width(ch);
        proof {
            assert(self.text() =~= old_text.update(row as int, new_line));
            assert(self.cur_line() == new_line);
        }
    }

    /// Splits the cursor's line at the cursor; the cursor moves to the start
    /// of the new line.
    pub fn input_newline(&mut self)
        requires
            old(self).wf(),
        ensures
            final(self).wf(),
            Self::newline_done(old(self), final(self)),
    {
        let ghost old_text = self.text();
        let row = self.cursor_row;
        let mut line = self.line_chars(row);
        let ghost old_line = line@;
        let k = self.cursor_index_of(&line);
        let rest = line.split_off(k);
        let head = string_of(&line);
        let tail = string_of(&rest);
        let n = self.lines.len();
        assert(row < n);
        self.lines.set(row, head);
        self.cursor_row = row + 1;
        self.lines.insert(row + 1, tail);
        self.cursor_col = 0;
        self.input_scroll = 0;
        proof {
            assert(old_line.take(k as int) =~= line@);
            assert(old_line.skip(k as int) =~= rest@);
            assert(old_line =~= old_line.take(k as int) + old_line.skip(k as int));
            lemma_byte_len_concat(old_line.take(k as int), old_line.skip(k as int));
            let nt = split_line(old_text, row as int, k as int);
            assert(self.text() =~= nt);
            lemma_byte_pos_full(rest@);
            assert(byte_pos(self.cur_line(), 0) == 0);
            assert forall|i: int| 0 <= i < self.lines@.len() implies byte_len(
                #[trigger] self.text()[i],
            ) <= isize::MAX by {
                if i < row {
                    assert(self.text()[i] == old_text[i]);
                } else if i > row + 1 {
                    assert(self.text()[i] == old_text[i - 1]);
                }
            }
        }
    }

    /// Deletes the character at the cursor; at the end of a line, joins the
    /// next line to it.
    pub fn input_delete(&mut self)
        requires
            old(self).wf(),
            old(self).cursor_col >= byte_len(old(self).cur_line()) && old(self).cursor_row + 1
                < old(self).lines@.len() ==> byte_len(old(self).cur_line()) + byte_len(
                old(self).text()[old(self).cursor_row + 1],
            ) <= isize::MAX,
        ensures
            final(self).wf(),
            Self::deleted(old(self), final(self)),
    {
        let ghost old_text = self.text();
        let row = self.cursor_row;
        let mut line = self.line_chars(row);
        let ghost old_line = line@;
        proof {
            assert(byte_len(old_text[row as int]) <= isize::MAX);
        }
        let line_len = byte_length(&line);
        let k = self.cursor_index_of(&line);
        proof {
            lemma_byte_pos_full(old_line);
            if k < line.len() {
                lemma_byte_pos_mono(old_line, k as int, line.len() as int);
            }
        }
        if self.cursor_col >= line_len {
            assert(k == line.len()) by {
                if k < line.len() {
                    lemma_byte_pos_mono(old_line, k as int, line.len() as int);
                }
            }
            let n = self.lines.len();
            if row + 1 < n {
                let next = self.lines.remove(row + 1);
                let mut merged = self.lines[row].clone();
                push_all(&mut merged, next.as_str());
                self.lines.set(row, merged);
                proof {
                    let nt = join_with_next(old_text, row as int);
                    assert(self.text() =~= nt);
                    let a = old_text[row as int];
                    let b = old_text[row + 1];
                    assert(self.cur_line() == a + b);
                    lemma_byte_len_concat(a, b);
                    assert((a + b).take(a.len() as int) =~= a);
                    lemma_boundary_of_index(a + b, a.len() as int);
                    assert forall|i: int| 0 <= i < self.lines@.len() implies byte_len(
                        #[trigger] self.text()[i],
                    ) <= isize::MAX by {
                        if i < row {
                            assert(self.text()[i] == old_text[i]);
                        } else if i > row {
                            assert(self.text()[i] == old_text[i + 1]);
                        }
                    }
                }
            } else {
                assert(self.text() =~= old_text);
            }
        } else {
            assert(k < line.len()) by {
                if k == line.len() {
                    lemma_byte_pos_full(old_line);
                }
            }
            line.remove(k);
            let s = string_of(&line);
            self.lines.set(row, s);
            proof {
                let nl = old_line.remove(k as int);
                assert(line@ == nl);
                assert(self.text() =~= old_text.update(row as int, nl));
                assert(nl.take(k as int) =~= old_line.take(k as int));
                lemma_boundary_of_index(nl, k as int);
                assert(old_line =~= old_line.take(k as int) + (seq![old_line[k as int]]
                    + old_line.skip(k + 1)));
                assert(nl =~= old_line.take(k as int) + old_line.skip(k + 1));
                lemma_byte_len_concat(
                    old_line.take(k as int),
                    seq![old_line[k as int]] + old_line.skip(k + 1),
                );
                lemma_byte_len_concat(seq![old_line[k as int]], old_line.skip(k + 1));
                lemma_byte_len_concat(old_line.take(k as int), old_line.skip(k + 1));
                assert forall|i: int| 0 <= i < self.lines@.len() implies byte_len(
                    #[trigger] self.text()[i],
                ) <= isize::MAX by {
                    if i != row {
                        assert(self.text()[i] == old_text[i]);
                    }
                }
            }
        }
    }

    /// Moves the cursor one character left, or to the end of the previous
    /// line from the start of a line.
    pub fn input_move_left(&mut self)
        requires
            old(self).wf(),
        ensures
            final(self).wf(),
            Self::moved_left(old(self), final(self)),
    {
        let row = self.cursor_row;
        if self.cursor_col == 0 {
            if row > 0 {
                let prev = self.line_chars(row - 1);
                proof {
                    assert(byte_len(self.text()[row - 1]) <= isize::MAX);
                    lemma_byte_pos_full(prev@);
                    lemma_boundary_of_index(prev@, prev@.len() as int);
                }
                let c = byte_length(&prev);
                self.cursor_row = row - 1;
                self.cursor_col = c;
            }
        } else {
            let line = self.line_chars(row);
            let k = self.cursor_index_of(&line);
            proof {
                lemma_byte_pos_full(line@);
                lemma_boundary_of_index(line@, k - 1);
            }
            self.cursor_col = byte_offset_before(&line, k);
        }
    }

    /// Moves the cursor one character right, or to the start of the next
    /// line from the end of a line.
    pub fn input_move_right(&mut self)
        requires
            old(self).wf(),
        ensures
            final(self).wf(),
            Self::moved_right(old(self), final(self)),
    {
        let row = self.cursor_row;
        let line = self.line_chars(row);
        proof {
            assert(byte_len(self.text()[row as int]) <= isize::MAX);
        }
        let line_len = byte_length(&line);
        let k = self.cursor_index_of(&line);
        proof {
            lemma_byte_pos_full(line@);
            if k < line.len() {
                lemma_byte_pos_mono(line@, k as int, line.len() as int);
            }
        }
        if self.cursor_col >= line_len {
            let n = self.lines.len();
            if row + 1 < n {
                self.cursor_row = row + 1;
                self.cursor_col = 0;
                self.input_scroll = 0;
                proof {
                    lemma_byte_pos_full(self.cur_line());
                }
            }
        } else {
            proof {
                lemma_boundary_of_index(line@, k + 1);
            }
            self.cursor_col = crate::text::byte_offset(&line, k + 1);
        }
    }

    /// Moves the cursor to `row`, at the last character boundary at or before
    /// byte offset `want` (or the end of the line).
    pub(crate) fn move_to_row(&mut self, row: usize, want: usize)
        requires
            old(self).wf(),
            row < old(self).lines@.len(),
        ensures
            final(self).wf(),
            final(self).same_outside_input(old(self)),
            final(self).lines@ == old(self).lines@,
            final(self).input_scroll == old(self).input_scroll,
            final(self).cursor_row == row,
            final(self).cursor_col == column_in(old(self).text()[row as int], want as int),
    {
        let line = self.line_chars(row);
        proof {
            assert(byte_len(self.text()[row as int]) <= isize::MAX);
        }
        let len = byte_length(&line);
        let m = if want < len {
            want
        } else {
            len
        };
        let j = floor_char_index(&line, m);
        proof {
            lemma_boundary_of_index(line@, j as int);
        }
        let c = crate::text::byte_offset(&line, j);
        self.cursor_row = row;
        self.cursor_col = c;
    }

    /// Moves the cursor to the line above.
    pub fn input_move_up(&mut self)
        requires
            old(self).wf(),
        ensures
            final(self).wf(),
            Self::moved_up(old(self), final(self)),
    {
        if self.cursor_row == 0 {
            return;
        }
        let row = self.cursor_row - 1;
        self.move_to_row(row, self.cursor_col);
    }

    /// Moves the cursor to the line below.
    pub fn input_move_down(&mut self)
        requires
            old(self).wf(),
        ensures
            final(self).wf(),
            Self::moved_down(old(self), final(self)),
    {
        let n = self.lines.len();
        if self.cursor_row + 1 >= n {
            return;
        }
        let row = self.cursor_row + 1;
        self.move_to_row(row, self.cursor_col);
    }

    /// Moves the cursor to the start of its line and scrolls to the left edge.
    pub fn input_home(&mut self)
        requires
            old(self).wf(),
        ensures
            final(self).wf(),
            Self::moved_home(old(self), final(self)),
    {
        self.cursor_col = 0;
        self.input_scroll = 0;
        proof {
            lemma_byte_pos_full(self.cur_line());
        }
    }

    /// Moves the cursor to the end of its line.
    pub fn input_end(&mut self)
        requires
            old(self).wf(),
        ensures
            final(self).wf(),
            Self::moved_end(old(self), final(self)),
    {
        let line = self.line_chars(self.cursor_row);
        proof {
            assert(byte_len(self.text()[self.cursor_row as int]) <= isize::MAX);
            lemma_byte_pos_full(line@);
            lemma_boundary_of_index(line@, line@.len() as int);
        }
        self.cursor_col = byte_length(&line);
    }

    /// Scrolls the editor horizontally so that the cursor is among the
    /// `inner_width` columns shown.
    pub fn ensure_cursor_visible(&mut self, inner_width: usize)
        requires
            old(self).wf(),
            old(self).input_scroll + inner_width <= usize::MAX,
        ensures
            final(self).wf(),
            final(self).same_outside_input(old(self)),
            final(self).lines@ == old(self).lines@,
            final(self).cursor_row == old(self).cursor_row,
            final(self).cursor_col == old(self).cursor_col,
            final(self).input_scroll == (if inner_width == 0 {
                old(self).input_scroll as int
            } else if old(self).cursor_col < old(self).input_scroll {
                old(self).cursor_col as int
            } else if old(self).cursor_col >= old(self).input_scroll + inner_width {
                old(self).cursor_col - inner_width + 1
            } else {
                old(self).input_scroll as int
            }),
            inner_width > 0 ==> final(self).input_scroll <= final(self).cursor_col
                < final(self).input_scroll + inner_width,
    {
        if inner_width == 0 {
            return;
        }
        let col = self.cursor_col;
        if col < self.input_scroll {
            self.input_scroll = col;
        } else if col >= self.input_scroll + inner_width {
            self.input_scroll = col - inner_width + 1;
        }
    }

    /// Deletes the character before the cursor; at the start of a line, joins
    /// the line to the previous one.
    pub fn input_backspace(&mut self)
        requires
            old(self).wf(),
            old(self).cursor_col == 0 && old(self).cursor_row > 0 ==> byte_len(
                old(self).text()[old(self).cursor_row - 1],
            ) + byte_len(old(self).cur_line()) <= isize::MAX,
        ensures
            final(self).wf(),
            Self::backspaced(old(self), final(self)),
    {
        let ghost old_text = self.text();
        let row = self.cursor_row;
        if self.cursor_col == 0 {
            if row == 0 {
                return;
            }
            let prev = self.line_chars(row - 1);
            proof {
                assert(byte_len(old_text[row - 1]) <= isize::MAX);
            }
            let prev_len = byte_length(&prev);
            let current = self.lines.remove(row);
            let mut merged = self.lines[row - 1].clone();
            push_all(&mut merged, current.as_str());
            self.lines.set(row - 1, merged);
            self.cursor_row = row - 1;
            self.cursor_col = prev_len;
            proof {
                let nt = join_with_next(old_text, row - 1);
                assert(self.text() =~= nt);
                let a = old_text[row - 1];
                let b = old_text[row as int];
                assert(self.cur_line() == a + b);
                lemma_byte_len_concat(a, b);
                assert((a + b).take(a.len() as int) =~= a);
                lemma_byte_pos_full(a);
                lemma_boundary_of_index(a + b, a.len() as int);
                assert forall|i: int| 0 <= i < self.lines@.len() implies byte_len(
                    #[trigger] self.text()[i],
                ) <= isize::MAX by {
                    if i < row - 1 {
                        assert(self.text()[i] == old_text[i]);
                    } else if i > row - 1 {
                        assert(self.text()[i] == old_text[i + 1]);
                    }
                }
            }
        } else {
            let mut line = self.line_chars(row);
            let ghost old_line = line@;
            let k = self.cursor_index_of(&line);
            proof {
                lemma_byte_pos_full(old_line);
            }
            let new_col = byte_offset_before(&line, k);
            line.remove(k - 1);
            let s = string_of(&line);
            self.lines.set(row, s);
            self.cursor_col = new_col;
            proof {
                let nl = old_line.remove(k - 1);
                assert(line@ == nl);
                assert(self.text() =~= old_text.update(row as int, nl));
                assert(nl.take(k - 1) =~= old_line.take(k - 1));
                lemma_boundary_of_index(nl, k - 1);
                assert(old_line =~= old_line.take(k - 1) + (seq![old_line[k - 1]] + old_line.skip(
                    k as int,
                )));
                assert(nl =~= old_line.take(k - 1) + old_line.skip(k as int));
                lemma_byte_len_concat(old_line.take(k - 1), seq![old_line[k - 1]] + old_line.skip(
                    k as int,
                ));
                lemma_byte_len_concat(seq![old_line[k - 1]], old_line.skip(k as int));
                lemma_byte_len_concat(old_line.take(k - 1), old_line.skip(k as int));
                assert forall|i: int| 0 <= i < self.lines@.len() implies byte_len(
                    #[trigger] self.text()[i],
                ) <= isize::MAX by {
                    if i != row {
                        assert(self.text()[i] == old_text[i]);
                    }
                }
            }
        }
    }
}

} // verus!
