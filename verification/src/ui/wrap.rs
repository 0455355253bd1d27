//! Word-wrapping.

use vstd::prelude::*;

use super::width::{all_printable, cells_or, char_cells, printable, text_width, width};
use crate::geometry::max;
use crate::text::{chars_of, split_words, string_of, texts, white_space, words};

verus! {

/// The rows of a text that is being wrapped, and the cells that are used of them. The cells of a
/// word are counted as a whole, those of a word that is split by its characters.
pub ghost struct Wrap {
    pub rows: Seq<Seq<char>>,
    /// The cells that are used of the rows before the last one.
    pub full: Seq<nat>,
    /// The cells that are used of the last row.
    pub used: nat,
}

impl Wrap {
    /// The cells that are used of a row.
    pub open spec fn cells(self, k: int) -> nat {
        if k < self.full.len() {
            self.full[k]
        } else {
            self.used
        }
    }
}

pub open spec fn next_row(wrap: Wrap) -> Wrap {
    Wrap { rows: wrap.rows.push(Seq::empty()), full: wrap.full.push(wrap.used), used: 0 }
}

/// `text` added to the last row, of which it uses `cells` more.
pub open spec fn add_text(wrap: Wrap, text: Seq<char>, cells: nat) -> Wrap {
    Wrap {
        rows: wrap.rows.drop_last().push(wrap.rows.last() + text),
        full: wrap.full,
        used: wrap.used + cells,
    }
}

/// A character goes into the last row if it fits or the row is empty, or else into a new row.
pub open spec fn put_char(wrap: Wrap, c: char, columns: nat) -> Wrap {
    let cells = cells_or(c, 0);
    let wrap = if wrap.used > 0 && wrap.used + cells > columns {
        next_row(wrap)
    } else {
        wrap
    };
    add_text(wrap, seq![c], cells)
}

pub open spec fn put_chars(wrap: Wrap, chars: Seq<char>, columns: nat) -> Wrap
    decreases chars.len(),
{
    if chars.len() == 0 {
        wrap
    } else {
        put_char(put_chars(wrap, chars.drop_last(), columns), chars.last(), columns)
    }
}

/// A word goes into the last row behind a blank if it fits, or else into a new row. A word that is
/// wider than a full row is split.
pub open spec fn put_word(wrap: Wrap, word: Seq<char>, columns: nat) -> Wrap {
    let cells = text_width(word);
    let wrap = if wrap.used > 0 && wrap.used + 1 + cells > columns {
        next_row(wrap)
    } else {
        wrap
    };
    if cells > columns {
        put_chars(wrap, word, columns)
    } else if wrap.used > 0 {
        add_text(add_text(wrap, " "@, 1), word, cells)
    } else {
        add_text(wrap, word, cells)
    }
}

pub open spec fn put_words(words: Seq<Seq<char>>, columns: nat) -> Wrap
    decreases words.len(),
{
    if words.len() == 0 {
        Wrap { rows: seq![Seq::empty()], full: Seq::empty(), used: 0 }
    } else {
        put_word(put_words(words.drop_last(), columns), words.last(), columns)
    }
}

/// A line that is wrapped: its words one by one, each in the row of the one before it if it fits
/// there.
pub open spec fn wrapping(line: Seq<char>, columns: int) -> Wrap {
    put_words(words(line), max(columns, 1) as nat)
}

/// The rows into which a line is wrapped.
pub open spec fn wrapped(line: Seq<char>, columns: int) -> Seq<Seq<char>> {
    wrapping(line, columns).rows
}

/// Whether a row of which so many cells are used keeps to the width: there are no more of them
/// than there are columns, unless the last character of the row is wider than the row, and nothing
/// before it counts.
pub open spec fn keeps_to(row: Seq<char>, cells: nat, columns: nat) -> bool {
    ||| cells <= columns
    ||| row.len() > 0 && cells == cells_or(row.last(), 0)
}

/// Whether all rows keep to the width.
pub open spec fn within(wrap: Wrap, columns: nat) -> bool {
    &&& wrap.rows.len() == wrap.full.len() + 1
    &&& forall|k: int|
        0 <= k < wrap.rows.len() ==> keeps_to(#[trigger] wrap.rows[k], wrap.cells(k), columns)
}

/// The rows, the last of them apart from the others, and the cells that are used of them.
spec fn wrap_of(done: Seq<String>, row: Seq<char>, full: Seq<nat>, used: usize) -> Wrap {
    Wrap { rows: texts(done).push(row), full, used: used as nat }
}

/// Whether a line is made of printable ASCII characters and white space.
pub open spec fn is_plain(line: Seq<char>) -> bool {
    forall|i: int| 0 <= i < line.len() ==> white_space(#[trigger] line[i]) || printable(line[i])
}

proof fn lemma_words_are_printable(line: Seq<char>)
    requires
        is_plain(line),
    ensures
        forall|k: int| 0 <= k < words(line).len() ==> all_printable(#[trigger] words(line)[k]),
    decreases line.len(),
{
    let t = crate::text::trim_start(line);
    let n = crate::text::word_len(t);
    crate::text::lemma_trim_start(line);
    crate::text::lemma_word_len(t);
    if 0 < n <= t.len() <= line.len() {
        let rest = t.skip(n);
        assert forall|i: int| 0 <= i < t.len() implies white_space(#[trigger] t[i]) || printable(
            t[i],
        ) by {
            assert(t[i] == line[line.len() - t.len() + i]);
        }
        assert forall|i: int| 0 <= i < rest.len() implies white_space(#[trigger] rest[i])
            || printable(rest[i]) by {
            assert(rest[i] == t[n + i]);
        }
        lemma_words_are_printable(rest);
        assert forall|k: int| 0 <= k < words(line).len() implies all_printable(
            #[trigger] words(line)[k],
        ) by {
            if k == 0 {
                assert forall|i: int| 0 <= i < n implies printable(#[trigger] t.take(n)[i]) by {
                    assert(t.take(n)[i] == t[i]);
                }
            } else {
                assert(words(line)[k] == words(rest)[k - 1]);
            }
        }
    }
}

/// Greedily word-wraps `line` to rows of at most `columns` cells, hard-splitting words that are
/// wider than a full row. Empty lines yield one empty row.
pub fn wrap_line(line: &str, columns: usize) -> (rows: Vec<String>)
    ensures
        texts(rows@) == wrapped(line@, columns as int),
        rows@.len() > 0,
        within(wrapping(line@, columns as int), max(columns as int, 1) as nat),
        is_plain(line@) ==> forall|i: int|
            0 <= i < rows@.len() ==> (#[trigger] rows@[i])@.len() <= max(columns as int, 1),
{
    let ghost plain = is_plain(line@);
    proof {
        lemma_rows_keep_to_the_width(line@, columns as int);
    }
    let columns: usize = if columns >= 1 {
        columns
    } else {
        1
    };
    let all = split_words(chars_of(line).as_slice());
    let ghost view = |w: Vec<char>| w@;
    let ghost all_words = all@.map_values(view);
    let mut done: Vec<String> = Vec::new();
    let mut row = String::new();
    let mut used: usize = 0;
    let ghost mut full = Seq::<nat>::empty();
    let mut i: usize = 0;
    assert(all_words.take(0) =~= Seq::<Seq<char>>::empty());
    assert(row@ =~= Seq::<char>::empty());
    assert(wrap_of(done@, row@, full, used).rows =~= seq![Seq::<char>::empty()]);
    proof {
        if plain {
            lemma_words_are_printable(line@);
        }
    }
    while i < all.len()
        invariant
            i <= all@.len(),
            view == (|w: Vec<char>| w@),
            all_words == all@.map_values(view),
            columns >= 1,
            wrap_of(done@, row@, full, used) == put_words(all_words.take(i as int), columns as nat),
            plain ==> forall|k: int|
                0 <= k < all_words.len() ==> all_printable(#[trigger] all_words[k]),
            plain ==> row@.len() == used <= columns,
            plain ==> forall|k: int| 0 <= k < done@.len() ==> (#[trigger] done@[k])@.len() <= columns,
        decreases all@.len() - i,
    {
        let ghost head = all_words.take(i + 1);
        let ghost before = put_words(all_words.take(i as int), columns as nat);
        assert(head.drop_last() =~= all_words.take(i as int));
        assert(head.last() == all@[i as int]@);
        let word = string_of(all[i].as_slice());
        assert(all_words[i as int] == word@);
        let cells: usize = width(word.as_str());
        let ghost mut now = before;
        if used > 0 && (used >= columns || cells > columns - used - 1) {
            done.push(row);
            row = String::new();
            proof {
                full = full.push(used as nat);
            }
            used = 0;
            assert(row@ =~= Seq::<char>::empty());
            assert(wrap_of(done@, row@, full, used).rows =~= next_row(before).rows);
            proof {
                now = next_row(before);
            }
        }
        assert(wrap_of(done@, row@, full, used) == now);
        if cells > columns {
            let mut j: usize = 0;
            assert(word@.take(0) =~= Seq::<char>::empty());
            while j < all[i].len()
                invariant
                    i < all@.len(),
                    j <= all@[i as int]@.len(),
                    word@ == all@[i as int]@,
                    columns >= 1,
                    plain ==> all_printable(word@),
                    plain ==> row@.len() == used <= columns,
                    plain ==> forall|k: int|
                        0 <= k < done@.len() ==> (#[trigger] done@[k])@.len() <= columns,
                    wrap_of(done@, row@, full, used) == put_chars(
                        now,
                        word@.take(j as int),
                        columns as nat,
                    ),
                decreases all@[i as int]@.len() - j,
            {
                let c = all[i][j];
                assert(word@[j as int] == c);
                let taken: usize = char_cells(c, 0);
                let ghost longer = word@.take(j + 1);
                assert(longer.drop_last() =~= word@.take(j as int));
                assert(longer.last() == c);
                let ghost was = put_chars(now, word@.take(j as int), columns as nat);
                let ghost mut there = was;
                if used > 0 && (used > columns || taken > columns - used) {
                    done.push(row);
                    row = String::new();
                    proof {
                        full = full.push(used as nat);
                    }
                    used = 0;
                    assert(row@ =~= Seq::<char>::empty());
                    assert(wrap_of(done@, row@, full, used).rows =~= next_row(was).rows);
                    proof {
                        there = next_row(was);
                    }
                }
                assert(wrap_of(done@, row@, full, used) == there);
                let ghost old_row = row@;
                row.push(c);
                used = used + taken;
                assert(there.rows.drop_last() =~= texts(done@));
                assert(row@ =~= old_row + seq![c]);
                assert(wrap_of(done@, row@, full, used).rows =~= add_text(
                    there,
                    seq![c],
                    taken as nat,
                ).rows);
                j += 1;
            }
            assert(word@.take(j as int) =~= word@);
        } else {
            if used > 0 {
                let ghost old_row = row@;
                row.append(" ");
                used = used + 1;
                proof {
                    reveal_strlit(" ");
                }
                assert(now.rows.drop_last() =~= texts(done@));
                assert(wrap_of(done@, row@, full, used).rows =~= add_text(now, " "@, 1).rows);
                proof {
                    now = add_text(now, " "@, 1);
                }
            }
            assert(wrap_of(done@, row@, full, used) == now);
            row.append(word.as_str());
            used = used + cells;
            assert(now.rows.drop_last() =~= texts(done@));
            assert(wrap_of(done@, row@, full, used).rows =~= add_text(now, word@, cells as nat).rows);
        }
        i += 1;
    }
    assert(all_words.take(i as int) =~= all_words);
    let ghost last = row@;
    let ghost firsts = texts(done@);
    done.push(row);
    assert(texts(done@) =~= firsts.push(last));
    done
}

// What wrapping keeps

/// The characters of all rows, one row after the other.
pub open spec fn flat(rows: Seq<Seq<char>>) -> Seq<char>
    decreases rows.len(),
{
    if rows.len() == 0 {
        Seq::empty()
    } else {
        flat(rows.drop_last()) + rows.last()
    }
}

/// A text without its white space.
pub open spec fn solid(text: Seq<char>) -> Seq<char> {
    text.filter(|c: char| !white_space(c))
}

proof fn lemma_solid_adds(a: Seq<char>, b: Seq<char>)
    ensures
        solid(a + b) == solid(a) + solid(b),
{
    Seq::filter_distributes_over_add(a, b, |c: char| !white_space(c));
}

proof fn lemma_flat_push(rows: Seq<Seq<char>>, row: Seq<char>)
    ensures
        flat(rows.push(row)) == flat(rows) + row,
{
    assert(rows.push(row).drop_last() =~= rows);
}

proof fn lemma_next_row_keeps(wrap: Wrap)
    ensures
        flat(next_row(wrap).rows) == flat(wrap.rows),
        next_row(wrap).rows.len() > 0,
{
    lemma_flat_push(wrap.rows, Seq::empty());
    assert(flat(wrap.rows) + Seq::<char>::empty() =~= flat(wrap.rows));
}

proof fn lemma_add_text_adds(wrap: Wrap, text: Seq<char>, cells: nat)
    requires
        wrap.rows.len() > 0,
    ensures
        flat(add_text(wrap, text, cells).rows) == flat(wrap.rows) + text,
        add_text(wrap, text, cells).rows.len() > 0,
{
    lemma_flat_push(wrap.rows.drop_last(), wrap.rows.last() + text);
    assert(flat(wrap.rows.drop_last()) + (wrap.rows.last() + text) =~= flat(wrap.rows) + text);
}

proof fn lemma_put_chars_adds(wrap: Wrap, chars: Seq<char>, columns: nat)
    requires
        wrap.rows.len() > 0,
    ensures
        flat(put_chars(wrap, chars, columns).rows) == flat(wrap.rows) + chars,
        put_chars(wrap, chars, columns).rows.len() > 0,
    decreases chars.len(),
{
    if chars.len() == 0 {
        assert(flat(wrap.rows) + chars =~= flat(wrap.rows));
    } else {
        let before = put_chars(wrap, chars.drop_last(), columns);
        lemma_put_chars_adds(wrap, chars.drop_last(), columns);
        let c = chars.last();
        let cells = cells_or(c, 0);
        lemma_next_row_keeps(before);
        lemma_add_text_adds(before, seq![c], cells);
        lemma_add_text_adds(next_row(before), seq![c], cells);
        assert(flat(wrap.rows) + chars.drop_last() + seq![c] =~= flat(wrap.rows) + chars);
    }
}

proof fn lemma_put_word_adds(wrap: Wrap, word: Seq<char>, columns: nat)
    requires
        wrap.rows.len() > 0,
    ensures
        solid(flat(put_word(wrap, word, columns).rows)) == solid(flat(wrap.rows)) + solid(word),
        put_word(wrap, word, columns).rows.len() > 0,
{
    let cells = text_width(word);
    lemma_next_row_keeps(wrap);
    let now = if wrap.used > 0 && wrap.used + 1 + cells > columns {
        next_row(wrap)
    } else {
        wrap
    };
    if cells > columns {
        lemma_put_chars_adds(now, word, columns);
        lemma_solid_adds(flat(now.rows), word);
    } else if now.used > 0 {
        lemma_add_text_adds(now, " "@, 1);
        let spaced = add_text(now, " "@, 1);
        lemma_add_text_adds(spaced, word, cells);
        lemma_solid_adds(flat(spaced.rows), word);
        lemma_solid_adds(flat(now.rows), " "@);
        assert(solid(" "@) =~= Seq::<char>::empty()) by {
            reveal_strlit(" ");
            reveal(Seq::filter);
            assert(" "@.drop_last() =~= Seq::<char>::empty());
            assert(solid(Seq::<char>::empty()) =~= Seq::<char>::empty());
            assert(" "@.last() == ' ');
        }
        assert(solid(flat(now.rows)) + Seq::<char>::empty() =~= solid(flat(now.rows)));
    } else {
        lemma_add_text_adds(now, word, cells);
        lemma_solid_adds(flat(now.rows), word);
    }
}

proof fn lemma_put_words_keeps(all: Seq<Seq<char>>, columns: nat)
    ensures
        solid(flat(put_words(all, columns).rows)) == solid(flat(all)),
        put_words(all, columns).rows.len() > 0,
    decreases all.len(),
{
    if all.len() == 0 {
        let rows = put_words(all, columns).rows;
        assert(rows.drop_last() =~= Seq::<Seq<char>>::empty());
        assert(flat(rows.drop_last()) =~= Seq::<char>::empty());
        assert(flat(rows) =~= flat(all));
    } else {
        lemma_put_words_keeps(all.drop_last(), columns);
        lemma_put_word_adds(put_words(all.drop_last(), columns), all.last(), columns);
        lemma_solid_adds(flat(all.drop_last()), all.last());
    }
}

proof fn lemma_trim_start_keeps(s: Seq<char>)
    ensures
        solid(crate::text::trim_start(s)) == solid(s),
    decreases s.len(),
{
    if s.len() > 0 && white_space(s[0]) {
        lemma_trim_start_keeps(s.skip(1));
        lemma_solid_adds(seq![s[0]], s.skip(1));
        assert(s =~= seq![s[0]] + s.skip(1));
        assert(solid(seq![s[0]]) =~= Seq::<char>::empty()) by {
            reveal(Seq::filter);
            assert(seq![s[0]].drop_last() =~= Seq::<char>::empty());
            assert(solid(Seq::<char>::empty()) =~= Seq::<char>::empty());
        }
        assert(Seq::<char>::empty() + solid(s.skip(1)) =~= solid(s.skip(1)));
    }
}

proof fn lemma_words_keep(s: Seq<char>)
    ensures
        solid(flat(words(s))) == solid(s),
    decreases s.len(),
{
    let t = crate::text::trim_start(s);
    let n = crate::text::word_len(t);
    crate::text::lemma_trim_start(s);
    crate::text::lemma_word_len(t);
    lemma_trim_start_keeps(s);
    if t.len() == 0 {
        assert(words(s) =~= Seq::<Seq<char>>::empty());
        assert(solid(flat(words(s))) =~= solid(t));
    } else {
        lemma_words_keep(t.skip(n));
        let rest = words(t.skip(n));
        lemma_flat_front(t.take(n), rest);
        lemma_solid_adds(t.take(n), flat(rest));
        lemma_solid_adds(t.take(n), t.skip(n));
        assert(t =~= t.take(n) + t.skip(n));
    }
}

proof fn lemma_flat_front(first: Seq<char>, rest: Seq<Seq<char>>)
    ensures
        flat(seq![first] + rest) == first + flat(rest),
    decreases rest.len(),
{
    let all = seq![first] + rest;
    if rest.len() == 0 {
        assert(all.drop_last() =~= Seq::<Seq<char>>::empty());
        assert(all.last() == first);
        assert(flat(all.drop_last()) =~= Seq::<char>::empty());
        assert(Seq::<char>::empty() + first =~= first + flat(rest));
    } else {
        lemma_flat_front(first, rest.drop_last());
        assert(all.drop_last() =~= seq![first] + rest.drop_last());
        assert(first + flat(rest.drop_last()) + rest.last() =~= first + flat(rest));
    }
}

/// Wrapping loses no character and adds none, but for white space.
pub proof fn lemma_wrapping_keeps_the_text(line: Seq<char>, columns: int)
    ensures
        solid(flat(wrapped(line, columns))) == solid(line),
{
    let n: nat = if columns >= 1 {
        columns as nat
    } else {
        1
    };
    lemma_put_words_keeps(words(line), n);
    lemma_words_keep(line);
}

/// A line always takes up at least one row, and a line without words takes up one empty row.
pub proof fn lemma_wrapping_gives_rows(line: Seq<char>, columns: int)
    ensures
        wrapped(line, columns).len() > 0,
        words(line).len() == 0 ==> wrapped(line, columns) == seq![Seq::<char>::empty()],
{
    let n: nat = if columns >= 1 {
        columns as nat
    } else {
        1
    };
    lemma_put_words_keeps(words(line), n);
}

proof fn lemma_put_char_within(wrap: Wrap, c: char, columns: nat)
    requires
        within(wrap, columns),
    ensures
        within(put_char(wrap, c, columns), columns),
{
    let after = put_char(wrap, c, columns);
    assert forall|k: int| 0 <= k < after.rows.len() implies keeps_to(
        #[trigger] after.rows[k],
        after.cells(k),
        columns,
    ) by {
        if k < after.rows.len() - 1 {
            assert(after.rows[k] == wrap.rows[k]);
        } else {
            assert(after.rows[k].last() == c);
        }
    }
}

proof fn lemma_put_chars_within(wrap: Wrap, chars: Seq<char>, columns: nat)
    requires
        within(wrap, columns),
    ensures
        within(put_chars(wrap, chars, columns), columns),
    decreases chars.len(),
{
    if chars.len() > 0 {
        lemma_put_chars_within(wrap, chars.drop_last(), columns);
        lemma_put_char_within(
            put_chars(wrap, chars.drop_last(), columns),
            chars.last(),
            columns,
        );
    }
}

proof fn lemma_next_row_within(wrap: Wrap, columns: nat)
    requires
        within(wrap, columns),
    ensures
        within(next_row(wrap), columns),
{
    let after = next_row(wrap);
    assert forall|k: int| 0 <= k < after.rows.len() implies keeps_to(
        #[trigger] after.rows[k],
        after.cells(k),
        columns,
    ) by {
        if k < wrap.rows.len() {
            assert(after.rows[k] == wrap.rows[k]);
        }
    }
}

proof fn lemma_add_text_within(wrap: Wrap, text: Seq<char>, cells: nat, columns: nat)
    requires
        within(wrap, columns),
        wrap.used + cells <= columns,
    ensures
        within(add_text(wrap, text, cells), columns),
{
    let after = add_text(wrap, text, cells);
    assert forall|k: int| 0 <= k < after.rows.len() implies keeps_to(
        #[trigger] after.rows[k],
        after.cells(k),
        columns,
    ) by {
        if k < after.rows.len() - 1 {
            assert(after.rows[k] == wrap.rows[k]);
        }
    }
}

proof fn lemma_put_words_within(all: Seq<Seq<char>>, columns: nat)
    ensures
        within(put_words(all, columns), columns),
    decreases all.len(),
{
    if all.len() > 0 {
        let before = put_words(all.drop_last(), columns);
        let word = all.last();
        let cells = text_width(word);
        lemma_put_words_within(all.drop_last(), columns);
        lemma_next_row_within(before, columns);
        let now = if before.used > 0 && before.used + 1 + cells > columns {
            next_row(before)
        } else {
            before
        };
        if cells > columns {
            lemma_put_chars_within(now, word, columns);
        } else if now.used > 0 {
            lemma_add_text_within(now, " "@, 1, columns);
            lemma_add_text_within(add_text(now, " "@, 1), word, cells, columns);
        } else {
            lemma_add_text_within(now, word, cells, columns);
        }
    }
}

/// No row uses more cells than there are columns, but for a row that ends in a character that is
/// wider than a row.
pub proof fn lemma_rows_keep_to_the_width(line: Seq<char>, columns: int)
    ensures
        within(wrapping(line, columns), max(columns, 1) as nat),
        wrapping(line, columns).rows == wrapped(line, columns),
{
    lemma_put_words_within(words(line), max(columns, 1) as nat);
}

/// A word is not empty, and holds no white space.
pub open spec fn is_word(word: Seq<char>) -> bool {
    &&& word.len() > 0
    &&& forall|i: int| 0 <= i < word.len() ==> !white_space(#[trigger] word[i])
}

proof fn lemma_words_are_words(line: Seq<char>)
    ensures
        forall|k: int| 0 <= k < words(line).len() ==> is_word(#[trigger] words(line)[k]),
    decreases line.len(),
{
    let t = crate::text::trim_start(line);
    let n = crate::text::word_len(t);
    crate::text::lemma_trim_start(line);
    crate::text::lemma_word_len(t);
    if 0 < n <= t.len() <= line.len() {
        let rest = t.skip(n);
        lemma_words_are_words(rest);
        assert forall|k: int| 0 <= k < words(line).len() implies is_word(
            #[trigger] words(line)[k],
        ) by {
            if k == 0 {
                assert forall|i: int| 0 <= i < n implies !white_space(#[trigger] t.take(n)[i]) by {
                    assert(t.take(n)[i] == t[i]);
                }
            } else {
                assert(words(line)[k] == words(rest)[k - 1]);
            }
        }
    }
}

/// A row that is not empty and has no white space at its ends.
pub open spec fn is_neat(row: Seq<char>) -> bool {
    row.len() > 0 && !white_space(row[0]) && !white_space(row.last())
}

/// The rows are neat, but for a last one that is still empty, of which no cells are used.
spec fn neat_so_far(wrap: Wrap) -> bool {
    &&& wrap.rows.len() > 0
    &&& forall|k: int| 0 <= k < wrap.rows.len() - 1 ==> is_neat(#[trigger] wrap.rows[k])
    &&& is_neat(wrap.rows.last()) || (wrap.rows.last().len() == 0 && wrap.used == 0)
}

/// `text` is added to the last row, behind a blank where the row has been used.
proof fn lemma_add_text_is_neat(wrap: Wrap, text: Seq<char>, cells: nat)
    requires
        neat_so_far(wrap),
        is_word(text),
    ensures
        neat_so_far(add_text(wrap, text, cells)),
        is_neat(add_text(wrap, text, cells).rows.last()),
        is_neat(wrap.rows.last()) ==> neat_so_far(
            add_text(add_text(wrap, " "@, 1), text, cells),
        ) && is_neat(add_text(add_text(wrap, " "@, 1), text, cells).rows.last()),
{
    let after = add_text(wrap, text, cells);
    let row = wrap.rows.last();
    assert((row + text).last() == text.last());
    assert(row.len() > 0 ==> (row + text)[0] == row[0]);
    assert(row.len() == 0 ==> (row + text)[0] == text[0]);
    assert forall|k: int| 0 <= k < after.rows.len() - 1 implies is_neat(
        #[trigger] after.rows[k],
    ) by {
        assert(after.rows[k] == wrap.rows[k]);
    }
    if is_neat(row) {
        let spaced = add_text(wrap, " "@, 1);
        let last = add_text(spaced, text, cells);
        assert(last.rows.last() == row + " "@ + text);
        assert((row + " "@ + text).last() == text.last());
        assert((row + " "@ + text)[0] == row[0]);
        assert forall|k: int| 0 <= k < last.rows.len() - 1 implies is_neat(
            #[trigger] last.rows[k],
        ) by {
            assert(last.rows[k] == wrap.rows[k]);
        }
    }
}

proof fn lemma_next_row_is_neat(wrap: Wrap)
    requires
        neat_so_far(wrap),
        wrap.used > 0,
    ensures
        neat_so_far(next_row(wrap)),
{
    let after = next_row(wrap);
    assert forall|k: int| 0 <= k < after.rows.len() - 1 implies is_neat(
        #[trigger] after.rows[k],
    ) by {
        assert(after.rows[k] == wrap.rows[k]);
    }
}

proof fn lemma_put_chars_is_neat(wrap: Wrap, chars: Seq<char>, columns: nat)
    requires
        neat_so_far(wrap),
        forall|i: int| 0 <= i < chars.len() ==> !white_space(#[trigger] chars[i]),
    ensures
        neat_so_far(put_chars(wrap, chars, columns)),
        chars.len() > 0 ==> is_neat(put_chars(wrap, chars, columns).rows.last()),
    decreases chars.len(),
{
    if chars.len() > 0 {
        let before = put_chars(wrap, chars.drop_last(), columns);
        let c = chars.last();
        let cells = cells_or(c, 0);
        lemma_put_chars_is_neat(wrap, chars.drop_last(), columns);
        assert(is_word(seq![c]));
        if before.used > 0 && before.used + cells > columns {
            lemma_next_row_is_neat(before);
            lemma_add_text_is_neat(next_row(before), seq![c], cells);
        } else {
            lemma_add_text_is_neat(before, seq![c], cells);
        }
    }
}

proof fn lemma_put_words_is_neat(all: Seq<Seq<char>>, columns: nat)
    requires
        forall|k: int| 0 <= k < all.len() ==> is_word(#[trigger] all[k]),
    ensures
        neat_so_far(put_words(all, columns)),
        all.len() > 0 ==> is_neat(put_words(all, columns).rows.last()),
    decreases all.len(),
{
    if all.len() > 0 {
        let before = put_words(all.drop_last(), columns);
        let word = all.last();
        let cells = text_width(word);
        assert forall|k: int| 0 <= k < all.len() - 1 implies is_word(
            #[trigger] all.drop_last()[k],
        ) by {
            assert(is_word(all[k]));
        }
        lemma_put_words_is_neat(all.drop_last(), columns);
        let fresh = before.used > 0 && before.used + 1 + cells > columns;
        if fresh {
            lemma_next_row_is_neat(before);
        }
        let now = if fresh {
            next_row(before)
        } else {
            before
        };
        assert(is_word(word));
        if cells > columns {
            lemma_put_chars_is_neat(now, word, columns);
        } else {
            lemma_add_text_is_neat(now, word, cells);
        }
    }
}

/// No row of a line with words is empty, and none has white space at an end.
pub proof fn lemma_rows_are_neat(line: Seq<char>, columns: int)
    requires
        words(line).len() > 0,
    ensures
        forall|k: int|
            0 <= k < wrapped(line, columns).len() ==> is_neat(#[trigger] wrapped(line, columns)[k]),
{
    let wrap = wrapping(line, columns);
    lemma_words_are_words(line);
    lemma_put_words_is_neat(words(line), max(columns, 1) as nat);
    assert forall|k: int| 0 <= k < wrap.rows.len() implies is_neat(#[trigger] wrap.rows[k]) by {
        if k == wrap.rows.len() - 1 {
            assert(wrap.rows[k] == wrap.rows.last());
        }
    }
}

/// Whether a row opens with a word that did not fit into the row before it, of which so many cells
/// are used. A word that is wider than a row goes on in the next one.
pub open spec fn opens_with(row: Seq<char>, word: Seq<char>, used: nat, columns: nat) -> bool {
    &&& word.is_prefix_of(row) || row.is_prefix_of(word)
    &&& used + 1 + text_width(word) > columns
}

/// Whether a row opens with a character that did not fit into the row before it.
pub open spec fn goes_on(row: Seq<char>, used: nat, columns: nat) -> bool {
    row.len() > 0 && used + cells_or(row[0], 0) > columns
}

/// Whether a row is filled: what the next row opens with, a word or a part of one that was split,
/// does not fit into it.
pub open spec fn is_filled(wrap: Wrap, all: Seq<Seq<char>>, k: int, columns: nat) -> bool {
    ||| exists|i: int|
        0 <= i < all.len() && #[trigger] opens_with(wrap.rows[k + 1], all[i], wrap.full[k], columns)
    ||| goes_on(wrap.rows[k + 1], wrap.full[k], columns)
}

/// The last row opens with a whole word, or with a character, so that it stays so whatever is added
/// to it.
spec fn is_settled(wrap: Wrap, all: Seq<Seq<char>>, columns: nat) -> bool {
    let used = wrap.full.last();
    let row = wrap.rows.last();
    ||| exists|i: int|
        0 <= i < all.len() && #[trigger] opens_with(row, all[i], used, columns)
            && all[i].is_prefix_of(row)
    ||| goes_on(row, used, columns)
}

/// All rows but the last are filled.
spec fn filled_so_far(wrap: Wrap, all: Seq<Seq<char>>, columns: nat) -> bool {
    &&& wrap.rows.len() == wrap.full.len() + 1
    &&& forall|k: int| 0 <= k < wrap.full.len() - 1 ==> #[trigger] is_filled(wrap, all, k, columns)
}

proof fn lemma_settled_is_filled(wrap: Wrap, all: Seq<Seq<char>>, columns: nat)
    requires
        wrap.rows.len() == wrap.full.len() + 1,
        wrap.full.len() > 0,
        is_settled(wrap, all, columns),
    ensures
        is_filled(wrap, all, wrap.full.len() - 1, columns),
{
    assert(wrap.rows[wrap.full.len() as int] == wrap.rows.last());
    assert(wrap.full[wrap.full.len() - 1] == wrap.full.last());
    if !goes_on(wrap.rows.last(), wrap.full.last(), columns) {
        let i = choose|i: int|
            0 <= i < all.len() && #[trigger] opens_with(
                wrap.rows.last(),
                all[i],
                wrap.full.last(),
                columns,
            ) && all[i].is_prefix_of(wrap.rows.last());
        assert(opens_with(
            wrap.rows[wrap.full.len() - 1 + 1],
            all[i],
            wrap.full[wrap.full.len() - 1],
            columns,
        ));
    }
}

/// A new row leaves those before it as they were.
proof fn lemma_next_row_is_filled(wrap: Wrap, all: Seq<Seq<char>>, columns: nat)
    requires
        filled_so_far(wrap, all, columns),
        wrap.full.len() > 0 ==> is_filled(wrap, all, wrap.full.len() - 1, columns),
    ensures
        filled_so_far(next_row(wrap), all, columns),
{
    let after = next_row(wrap);
    assert forall|k: int| 0 <= k < after.full.len() - 1 implies #[trigger] is_filled(
        after,
        all,
        k,
        columns,
    ) by {
        assert(is_filled(wrap, all, k, columns));
        assert(after.rows[k + 1] == wrap.rows[k + 1]);
        assert(after.full[k] == wrap.full[k]);
        lemma_same_row_is_filled(wrap, after, all, k, columns);
    }
}

proof fn lemma_same_row_is_filled(
    before: Wrap,
    after: Wrap,
    all: Seq<Seq<char>>,
    k: int,
    columns: nat,
)
    requires
        is_filled(before, all, k, columns),
        after.rows[k + 1] == before.rows[k + 1],
        after.full[k] == before.full[k],
    ensures
        is_filled(after, all, k, columns),
{
    if !goes_on(before.rows[k + 1], before.full[k], columns) {
        let i = choose|i: int|
            0 <= i < all.len() && #[trigger] opens_with(
                before.rows[k + 1],
                all[i],
                before.full[k],
                columns,
            );
        assert(opens_with(after.rows[k + 1], all[i], after.full[k], columns));
    }
}

/// Text that is added to the last row leaves those before it as they were, and a settled row
/// settled.
proof fn lemma_add_text_is_filled(
    wrap: Wrap,
    text: Seq<char>,
    cells: nat,
    all: Seq<Seq<char>>,
    columns: nat,
)
    requires
        filled_so_far(wrap, all, columns),
    ensures
        filled_so_far(add_text(wrap, text, cells), all, columns),
        wrap.full.len() > 0 && is_settled(wrap, all, columns) ==> is_settled(
            add_text(wrap, text, cells),
            all,
            columns,
        ),
{
    let after = add_text(wrap, text, cells);
    assert forall|k: int| 0 <= k < after.full.len() - 1 implies #[trigger] is_filled(
        after,
        all,
        k,
        columns,
    ) by {
        assert(is_filled(wrap, all, k, columns));
        assert(after.rows[k + 1] == wrap.rows[k + 1]);
        lemma_same_row_is_filled(wrap, after, all, k, columns);
    }
    let row = wrap.rows.last();
    assert(after.rows.last() == row + text);
    if wrap.full.len() > 0 && is_settled(wrap, all, columns) {
        let used = wrap.full.last();
        if goes_on(row, used, columns) {
            assert((row + text)[0] == row[0]);
        } else {
            let i = choose|i: int|
                0 <= i < all.len() && #[trigger] opens_with(row, all[i], used, columns)
                    && all[i].is_prefix_of(row);
            assert(all[i] =~= (row + text).take(all[i].len() as int));
            assert(all[i].is_prefix_of(row + text));
            assert(opens_with(row + text, all[i], used, columns));
        }
    }
}

/// The characters of the last word are added one by one. The last row is settled, or it was opened
/// for the word and holds what there is of it.
proof fn lemma_put_chars_is_filled(
    wrap: Wrap,
    chars: Seq<char>,
    all: Seq<Seq<char>>,
    columns: nat,
)
    requires
        filled_so_far(wrap, all, columns),
        all.len() > 0,
        chars.is_prefix_of(all.last()),
        wrap.full.len() > 0 ==> is_settled(wrap, all, columns) || (wrap.rows.last().len() == 0
            && wrap.full.last() + 1 + text_width(all.last()) > columns),
    ensures
        ({
            let after = put_chars(wrap, chars, columns);
            &&& filled_so_far(after, all, columns)
            &&& after.full.len() > 0 ==> is_settled(after, all, columns) || (after.rows.last()
                == chars && after.full.last() + 1 + text_width(all.last()) > columns)
        }),
    decreases chars.len(),
{
    if chars.len() == 0 {
        if wrap.full.len() > 0 && !is_settled(wrap, all, columns) {
            assert(wrap.rows.last() =~= chars);
        }
    } else {
        let shorter = chars.drop_last();
        let before = put_chars(wrap, shorter, columns);
        let c = chars.last();
        let cells = cells_or(c, 0);
        let word = all.last();
        assert(chars =~= word.take(chars.len() as int));
        assert(shorter =~= word.take(shorter.len() as int));
        lemma_put_chars_is_filled(wrap, shorter, all, columns);
        if before.used > 0 && before.used + cells > columns {
            if before.full.len() > 0 {
                if is_settled(before, all, columns) {
                    lemma_settled_is_filled(before, all, columns);
                } else {
                    let k = before.full.len() - 1;
                    assert(before.rows[k + 1] == before.rows.last());
                    assert(shorter.is_prefix_of(word));
                    assert(opens_with(
                        before.rows[k + 1],
                        all[all.len() - 1],
                        before.full[k],
                        columns,
                    ));
                    assert(is_filled(before, all, k, columns));
                }
            }
            lemma_next_row_is_filled(before, all, columns);
            let now = next_row(before);
            lemma_add_text_is_filled(now, seq![c], cells, all, columns);
            let after = add_text(now, seq![c], cells);
            assert(after.rows.last() =~= seq![c]);
            assert(goes_on(after.rows.last(), after.full.last(), columns));
        } else {
            lemma_add_text_is_filled(before, seq![c], cells, all, columns);
            let after = add_text(before, seq![c], cells);
            if before.full.len() > 0 && !is_settled(before, all, columns) {
                assert(after.rows.last() =~= chars);
            }
        }
    }
}

proof fn lemma_more_words_are_filled(
    wrap: Wrap,
    all: Seq<Seq<char>>,
    more: Seq<Seq<char>>,
    columns: nat,
)
    requires
        filled_so_far(wrap, all, columns),
        all == more.drop_last(),
        more.len() > 0,
    ensures
        filled_so_far(wrap, more, columns),
        is_settled(wrap, all, columns) ==> is_settled(wrap, more, columns),
{
    assert forall|k: int| 0 <= k < wrap.full.len() - 1 implies #[trigger] is_filled(
        wrap,
        more,
        k,
        columns,
    ) by {
        assert(is_filled(wrap, all, k, columns));
        if !goes_on(wrap.rows[k + 1], wrap.full[k], columns) {
            let i = choose|i: int|
                0 <= i < all.len() && #[trigger] opens_with(
                    wrap.rows[k + 1],
                    all[i],
                    wrap.full[k],
                    columns,
                );
            assert(more[i] == all[i]);
            assert(opens_with(wrap.rows[k + 1], more[i], wrap.full[k], columns));
        }
    }
    let row = wrap.rows.last();
    let used = wrap.full.last();
    if is_settled(wrap, all, columns) && !goes_on(row, used, columns) {
        let i = choose|i: int|
            0 <= i < all.len() && #[trigger] opens_with(row, all[i], used, columns)
                && all[i].is_prefix_of(row);
        assert(more[i] == all[i]);
        assert(opens_with(row, more[i], used, columns));
    }
}

proof fn lemma_put_words_is_filled(all: Seq<Seq<char>>, columns: nat)
    ensures
        ({
            let wrap = put_words(all, columns);
            &&& filled_so_far(wrap, all, columns)
            &&& wrap.full.len() > 0 ==> is_settled(wrap, all, columns)
        }),
    decreases all.len(),
{
    if all.len() > 0 {
        let before = put_words(all.drop_last(), columns);
        let word = all.last();
        let cells = text_width(word);
        lemma_put_words_is_filled(all.drop_last(), columns);
        lemma_more_words_are_filled(before, all.drop_last(), all, columns);
        let fresh = before.used > 0 && before.used + 1 + cells > columns;
        if fresh {
            if before.full.len() > 0 {
                lemma_settled_is_filled(before, all, columns);
            }
            lemma_next_row_is_filled(before, all, columns);
        }
        let now = if fresh {
            next_row(before)
        } else {
            before
        };
        if cells > columns {
            assert(word =~= word.take(word.len() as int));
            lemma_put_chars_is_filled(now, word, all, columns);
            let after = put_chars(now, word, columns);
            if after.full.len() > 0 && !is_settled(after, all, columns) {
                assert(word.is_prefix_of(after.rows.last()));
                assert(opens_with(
                    after.rows.last(),
                    all[all.len() - 1],
                    after.full.last(),
                    columns,
                ));
            }
        } else {
            let spaced = if now.used > 0 {
                add_text(now, " "@, 1)
            } else {
                now
            };
            lemma_add_text_is_filled(now, " "@, 1, all, columns);
            lemma_add_text_is_filled(spaced, word, cells, all, columns);
            let after = add_text(spaced, word, cells);
            if fresh {
                assert(after.rows.last() =~= word);
                assert(word =~= word.take(word.len() as int));
                assert(word.is_prefix_of(after.rows.last()));
                assert(opens_with(
                    after.rows.last(),
                    all[all.len() - 1],
                    after.full.last(),
                    columns,
                ));
            }
        }
    }
}

/// Rows are filled greedily: what a row opens with, a word of the line or a part of a word that was
/// split, did not fit into the row before it.
pub proof fn lemma_rows_are_filled(line: Seq<char>, columns: int)
    ensures
        ({
            let wrap = wrapping(line, columns);
            &&& wrap.rows.len() == wrap.full.len() + 1
            &&& forall|k: int|
                0 <= k < wrap.full.len() ==> #[trigger] is_filled(
                    wrap,
                    words(line),
                    k,
                    max(columns, 1) as nat,
                )
        }),
{
    let wrap = wrapping(line, columns);
    let n = max(columns, 1) as nat;
    lemma_put_words_is_filled(words(line), n);
    if wrap.full.len() > 0 {
        lemma_settled_is_filled(wrap, words(line), n);
    }
}

} // verus!
