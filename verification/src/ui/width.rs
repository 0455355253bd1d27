//! How many cells of the terminal texts and characters take up.

use unicode_width::{UnicodeWidthChar, UnicodeWidthStr};
use vstd::prelude::*;

use crate::geometry::{less, monus};
use crate::text::{chars_of, string_of};

verus! {

/// The number of cells that a text takes up: `UnicodeWidthStr::width`.
pub uninterp spec fn text_width(text: Seq<char>) -> nat;

/// The number of cells that a character takes up by itself, or None for a control character:
/// `UnicodeWidthChar::width`.
pub uninterp spec fn char_width(c: char) -> Option<nat>;

/// Whether a character is one of the printable ASCII characters.
pub open spec fn printable(c: char) -> bool {
    ' ' <= c <= '~'
}

/// Whether a text is made of printable ASCII characters.
pub open spec fn all_printable(text: Seq<char>) -> bool {
    forall|i: int| 0 <= i < text.len() ==> printable(#[trigger] text[i])
}

/// `UnicodeWidthStr::width` is a function of the text. A text of printable ASCII characters takes
/// up one cell for each of them.
#[verifier::external_body]
pub(crate) fn width(text: &str) -> (cells: usize)
    ensures
        cells == text_width(text@),
        all_printable(text@) ==> cells == text@.len(),
{
    UnicodeWidthStr::width(text)
}

/// `UnicodeWidthChar::width` is a function of the character. The printable ASCII characters take
/// up one cell each.
#[verifier::external_body]
pub(crate) fn width_of_char(c: char) -> (cells: Option<usize>)
    ensures
        cells is Some == char_width(c) is Some,
        cells is Some ==> cells->0 == char_width(c)->0,
        printable(c) ==> cells == Some(1usize),
{
    UnicodeWidthChar::width(c)
}

/// The cells of a character, or `control` for a control character.
pub open spec fn cells_or(c: char, control: nat) -> nat {
    match char_width(c) {
        Some(cells) => cells,
        None => control,
    }
}

pub(crate) fn char_cells(c: char, control: usize) -> (cells: usize)
    ensures
        cells == cells_or(c, control as nat),
        printable(c) ==> cells == 1,
{
    match width_of_char(c) {
        Some(cells) => cells,
        None => control,
    }
}

/// `text` without as many characters at its end as it takes for the rest to fit into `cells`.
pub open spec fn cut_to(text: Seq<char>, cells: int) -> Seq<char>
    decreases text.len(),
{
    if text.len() > 0 && text_width(text) > cells {
        cut_to(text.drop_last(), cells)
    } else {
        text
    }
}

/// Cuts a text from its end until it fits into `cells`.
pub(crate) fn cut(text: &str, cells: usize) -> (fitting: String)
    ensures
        fitting@ == cut_to(text@, cells as int),
{
    let chars = chars_of(text);
    let mut n: usize = chars.len();
    assert(chars@.take(n as int) =~= text@);
    let mut fitting = text.to_owned();
    while n > 0 && width(fitting.as_str()) > cells
        invariant
            n <= chars@.len(),
            chars@ == text@,
            fitting@ == chars@.take(n as int),
            cut_to(fitting@, cells as int) == cut_to(text@, cells as int),
        decreases n,
    {
        assert(chars@.take(n as int).drop_last() =~= chars@.take(n - 1));
        n -= 1;
        assert(chars@.take(n as int) =~= chars@.subrange(0, n as int));
        fitting = string_of(&chars.as_slice()[0..n]);
    }
    fitting
}

/// A text that was cut fits, unless nothing is left of it.
pub proof fn lemma_cut_fits(text: Seq<char>, cells: int)
    ensures
        cut_to(text, cells).len() == 0 || text_width(cut_to(text, cells)) <= cells,
        cut_to(text, cells).len() <= text.len(),
        cut_to(text, cells) == text.take(cut_to(text, cells).len() as int),
    decreases text.len(),
{
    if text.len() > 0 && text_width(text) > cells {
        lemma_cut_fits(text.drop_last(), cells);
        assert(text.drop_last().take(cut_to(text, cells).len() as int) =~= text.take(
            cut_to(text, cells).len() as int,
        ));
    } else {
        assert(text.take(text.len() as int) =~= text);
    }
}

/// How many characters at the start of `text` fit into `cells`, counted one by one; control
/// characters take up none.
pub open spec fn fitting_chars(text: Seq<char>, cells: int) -> int
    decreases text.len(),
{
    if text.len() > 0 && cells_or(text[0], 0) <= cells {
        1 + fitting_chars(text.skip(1), cells - cells_or(text[0], 0))
    } else {
        0
    }
}

/// The longest start of a text whose characters fit into `cells`.
pub(crate) fn start_that_fits(text: &str, cells: usize) -> (start: String)
    ensures
        start@ == text@.take(fitting_chars(text@, cells as int)),
{
    let chars = chars_of(text);
    let mut n: usize = 0;
    let mut left: usize = cells;
    assert(chars@.skip(0) =~= text@);
    while n < chars.len()
        invariant_except_break
            n <= chars@.len(),
            chars@ == text@,
            fitting_chars(text@, cells as int) == n + fitting_chars(
                chars@.skip(n as int),
                left as int,
            ),
        ensures
            n <= chars@.len(),
            fitting_chars(text@, cells as int) == n,
        decreases chars@.len() - n,
    {
        let taken: usize = char_cells(chars[n], 0);
        assert(chars@.skip(n as int)[0] == chars@[n as int]);
        if taken > left {
            break;
        }
        assert(chars@.skip(n as int).skip(1) =~= chars@.skip(n + 1));
        left -= taken;
        n += 1;
        if n == chars.len() {
            assert(chars@.skip(n as int) =~= Seq::<char>::empty());
        }
    }
    assert(text@.take(n as int) =~= chars@.subrange(0, n as int));
    string_of(&chars.as_slice()[0..n])
}

/// The width of `text` with `margin` cells more, taken off `cells`, but no less than 0.
pub(crate) fn cells_left(cells: usize, text: &str, margin: usize) -> (left: usize)
    ensures
        left == monus(cells as int, text_width(text@) + margin),
{
    less(less(cells, width(text)), margin)
}

/// A text is cut no shorter than it takes: what is one character or more longer does not fit.
pub proof fn lemma_cut_keeps_what_fits(text: Seq<char>, cells: int, n: int)
    requires
        cut_to(text, cells).len() < n <= text.len(),
    ensures
        text_width(text.take(n)) > cells,
    decreases text.len(),
{
    if n == text.len() {
        assert(text.take(n) =~= text);
    } else {
        assert(text.drop_last().take(n) =~= text.take(n));
        lemma_cut_keeps_what_fits(text.drop_last(), cells, n);
    }
}

/// The cells of the first `n` characters, counted one by one; control characters take up none.
pub open spec fn cells_of(text: Seq<char>, n: nat) -> nat
    decreases n,
{
    if n == 0 {
        0
    } else {
        cells_of(text, (n - 1) as nat) + cells_or(text[n - 1], 0)
    }
}

proof fn lemma_cells_of_the_rest(text: Seq<char>, n: nat)
    requires
        0 < n <= text.len(),
    ensures
        cells_of(text, n) == cells_or(text[0], 0) + cells_of(text.skip(1), (n - 1) as nat),
    decreases n,
{
    if n > 1 {
        lemma_cells_of_the_rest(text, (n - 1) as nat);
        assert(text.skip(1)[n - 2] == text[n - 1]);
    } else {
        assert(cells_of(text, 0) == 0);
        assert(cells_of(text.skip(1), 0) == 0);
    }
}

/// The characters that fit do so together, and one more does not fit.
pub proof fn lemma_as_many_characters_as_fit(text: Seq<char>, cells: int)
    requires
        cells >= 0,
    ensures
        ({
            let n = fitting_chars(text, cells);
            &&& 0 <= n <= text.len()
            &&& cells_of(text, n as nat) <= cells
            &&& n < text.len() ==> cells_of(text, (n + 1) as nat) > cells
        }),
    decreases text.len(),
{
    let n = fitting_chars(text, cells);
    if text.len() > 0 && cells_or(text[0], 0) <= cells {
        let rest = text.skip(1);
        lemma_as_many_characters_as_fit(rest, cells - cells_or(text[0], 0));
        lemma_cells_of_the_rest(text, n as nat);
        if n < text.len() {
            lemma_cells_of_the_rest(text, (n + 1) as nat);
        }
    } else if text.len() > 0 {
        lemma_cells_of_the_rest(text, 1);
        assert(cells_of(text.skip(1), 0) == 0);
    }
}

} // verus!
