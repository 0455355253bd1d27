//! Text: characters, white space, lines, words and decimal numbers.
//!
//! A text is modelled as the sequence of its characters.

use vstd::prelude::*;

verus! {

/// `String::push` appends one character to the end of the string.
pub assume_specification[ String::push ](text: &mut String, c: char)
    ensures
        final(text)@ == old(text)@.push(c),
;

/// The texts behind a sequence of strings.
pub open spec fn texts(strings: Seq<String>) -> Seq<Seq<char>> {
    strings.map_values(|s: String| s@)
}

/// The text behind an optional string.
pub open spec fn maybe_text(string: Option<String>) -> Option<Seq<char>> {
    match string {
        Some(s) => Some(s@),
        None => None,
    }
}

/// The characters of a string.
pub fn chars_of(s: &str) -> (chars: Vec<char>)
    ensures
        chars@ == s@,
{
    let mut chars: Vec<char> = Vec::new();
    for c in it: s.chars()
        invariant
            chars@ == it.seq().take(it.index() as int),
    {
        chars.push(c);
    }
    chars
}

/// The string made of the given characters.
pub fn string_of(chars: &[char]) -> (s: String)
    ensures
        s@ == chars@,
{
    let mut s = String::new();
    let mut i: usize = 0;
    while i < chars.len()
        invariant
            i <= chars.len(),
            s@ == chars@.take(i as int),
        decreases chars.len() - i,
    {
        s.push(chars[i]);
        i += 1;
    }
    assert(chars@.take(chars.len() as int) == chars@);
    s
}

/// Whether two strings hold the same text.
pub fn same_text(a: &str, b: &str) -> (same: bool)
    ensures
        same == (a@ == b@),
{
    same_chars(chars_of(a).as_slice(), chars_of(b).as_slice())
}

/// Whether two runs of characters are equal.
pub fn same_chars(a: &[char], b: &[char]) -> (same: bool)
    ensures
        same == (a@ == b@),
{
    if a.len() != b.len() {
        return false;
    }
    let mut i: usize = 0;
    while i < a.len()
        invariant
            a.len() == b.len(),
            i <= a.len(),
            forall|j: int| 0 <= j < i ==> a@[j] == b@[j],
        decreases a.len() - i,
    {
        if a[i] != b[i] {
            assert(a@[i as int] != b@[i as int]);
            return false;
        }
        i += 1;
    }
    assert(a@ =~= b@);
    true
}

/// `a` followed by `b`.
pub fn concat(a: &str, b: &str) -> (joined: String)
    ensures
        joined@ == a@ + b@,
{
    let mut joined = a.to_owned();
    joined.append(b);
    joined
}

/// A run of `n` times the character `c`.
pub fn repeat(c: char, n: usize) -> (run: String)
    ensures
        run@ == Seq::new(n as nat, |i: int| c),
{
    let mut run = String::new();
    let mut i: usize = 0;
    while i < n
        invariant
            i <= n,
            run@ == Seq::new(i as nat, |j: int| c),
        decreases n - i,
    {
        run.push(c);
        i += 1;
        assert(run@ =~= Seq::new(i as nat, |j: int| c));
    }
    run
}

// White space

/// Whether `c` has the Unicode property White_Space.
pub open spec fn white_space(c: char) -> bool {
    ||| '\u{9}' <= c <= '\u{d}'
    ||| c == ' '
    ||| c == '\u{85}'
    ||| c == '\u{a0}'
    ||| c == '\u{1680}'
    ||| '\u{2000}' <= c <= '\u{200a}'
    ||| c == '\u{2028}'
    ||| c == '\u{2029}'
    ||| c == '\u{202f}'
    ||| c == '\u{205f}'
    ||| c == '\u{3000}'
}

pub fn is_white_space(c: char) -> (yes: bool)
    ensures
        yes == white_space(c),
{
    ('\u{9}' <= c && c <= '\u{d}') || c == ' ' || c == '\u{85}' || c == '\u{a0}' || c == '\u{1680}'
        || ('\u{2000}' <= c && c <= '\u{200a}') || c == '\u{2028}' || c == '\u{2029}'
        || c == '\u{202f}' || c == '\u{205f}' || c == '\u{3000}'
}

/// `s` without the white space at its start.
pub open spec fn trim_start(s: Seq<char>) -> Seq<char>
    decreases s.len(),
{
    if s.len() > 0 && white_space(s[0]) {
        trim_start(s.skip(1))
    } else {
        s
    }
}

/// `s` without the white space at its end.
pub open spec fn trim_end(s: Seq<char>) -> Seq<char>
    decreases s.len(),
{
    if s.len() > 0 && white_space(s.last()) {
        trim_end(s.drop_last())
    } else {
        s
    }
}

/// `s` without the white space at both ends.
pub open spec fn trim(s: Seq<char>) -> Seq<char> {
    trim_end(trim_start(s))
}

pub fn trimmed_start(s: &[char]) -> (t: &[char])
    ensures
        t@ == trim_start(s@),
        t@.len() <= s@.len(),
{
    let mut i: usize = 0;
    assert(s@.skip(0) == s@);
    while i < s.len() && is_white_space(s[i])
        invariant
            i <= s.len(),
            trim_start(s@.skip(i as int)) == trim_start(s@),
        decreases s.len() - i,
    {
        assert(s@.skip(i as int).skip(1) == s@.skip(i + 1));
        i += 1;
    }
    assert(s@.skip(i as int) == s@.subrange(i as int, s@.len() as int));
    &s[i..s.len()]
}

pub fn trimmed_end(s: &[char]) -> (t: &[char])
    ensures
        t@ == trim_end(s@),
        t@.len() <= s@.len(),
{
    let mut n: usize = s.len();
    assert(s@.take(n as int) == s@);
    while n > 0 && is_white_space(s[n - 1])
        invariant
            n <= s.len(),
            trim_end(s@.take(n as int)) == trim_end(s@),
        decreases n,
    {
        assert(s@.take(n as int).drop_last() == s@.take(n - 1));
        n -= 1;
    }
    assert(s@.take(n as int) == s@.subrange(0, n as int));
    &s[0..n]
}

pub fn trimmed(s: &[char]) -> (t: &[char])
    ensures
        t@ == trim(s@),
        t@.len() <= s@.len(),
{
    trimmed_end(trimmed_start(s))
}

// Positions and parts

/// The position of the first `c` in `s`, or the length of `s` where there is none.
pub open spec fn position(s: Seq<char>, c: char) -> int
    decreases s.len(),
{
    if s.len() == 0 || s[0] == c {
        0
    } else {
        1 + position(s.skip(1), c)
    }
}

/// The first occurrence is in range, is an occurrence, and has none before it.
pub proof fn lemma_position(s: Seq<char>, c: char)
    ensures
        0 <= position(s, c) <= s.len(),
        position(s, c) < s.len() ==> s[position(s, c)] == c,
        forall|j: int| 0 <= j < position(s, c) ==> s[j] != c,
    decreases s.len(),
{
    if s.len() > 0 && s[0] != c {
        lemma_position(s.skip(1), c);
        assert forall|j: int| 0 <= j < position(s, c) implies s[j] != c by {
            if j > 0 {
                assert(s.skip(1)[j - 1] == s[j]);
            }
        }
    }
}

/// A position with the properties of the first occurrence is the first occurrence.
pub proof fn lemma_position_unique(s: Seq<char>, c: char, i: int)
    requires
        0 <= i <= s.len(),
        i < s.len() ==> s[i] == c,
        forall|j: int| 0 <= j < i ==> s[j] != c,
    ensures
        position(s, c) == i,
{
    lemma_position(s, c);
    let p = position(s, c);
    if p < i {
        assert(s[p] != c);
    }
    if i < p {
        assert(s[i] != c);
    }
}

pub fn find(s: &[char], c: char) -> (i: usize)
    ensures
        i == position(s@, c),
        i <= s@.len(),
        i < s@.len() ==> s@[i as int] == c,
{
    let mut i: usize = 0;
    while i < s.len() && s[i] != c
        invariant
            i <= s.len(),
            forall|j: int| 0 <= j < i ==> s@[j] != c,
        decreases s.len() - i,
    {
        i += 1;
    }
    proof {
        lemma_position_unique(s@, c, i as int);
    }
    i
}

/// The part of `s` behind its last `c`, or all of `s` where there is none.
pub open spec fn after_last(s: Seq<char>, c: char) -> Seq<char>
    decreases s.len(),
{
    let i = position(s, c);
    if 0 <= i < s.len() {
        after_last(s.skip(i + 1), c)
    } else {
        s
    }
}

pub fn part_after_last(s: &[char], c: char) -> (part: &[char])
    ensures
        part@ == after_last(s@, c),
{
    let mut from: usize = 0;
    assert(s@.skip(0) == s@);
    loop
        invariant
            from <= s.len(),
            after_last(s@.skip(from as int), c) == after_last(s@, c),
        decreases s.len() - from,
    {
        assert(s@.skip(from as int) == s@.subrange(from as int, s@.len() as int));
        let rest = &s[from..s.len()];
        let i: usize = find(rest, c);
        if i < rest.len() {
            assert(s@.skip(from as int).skip(i + 1) == s@.skip(from + i + 1));
            from = from + i + 1;
        } else {
            return rest;
        }
    }
}

/// Whether `needle` stands in `hay` at position `at`.
pub open spec fn stands_at(hay: Seq<char>, needle: Seq<char>, at: int) -> bool {
    &&& 0 <= at
    &&& at + needle.len() <= hay.len()
    &&& hay.subrange(at, at + needle.len()) == needle
}

/// Whether `needle` stands anywhere in `hay`.
pub open spec fn contains(hay: Seq<char>, needle: Seq<char>) -> bool {
    exists|at: int| stands_at(hay, needle, at)
}

pub fn is_at(hay: &[char], needle: &[char], at: usize) -> (yes: bool)
    ensures
        yes == stands_at(hay@, needle@, at as int),
{
    if at > hay.len() || needle.len() > hay.len() - at {
        return false;
    }
    same_chars(&hay[at..at + needle.len()], needle)
}

pub fn has_part(hay: &[char], needle: &[char]) -> (yes: bool)
    ensures
        yes == contains(hay@, needle@),
{
    let mut at: usize = 0;
    while at < hay.len()
        invariant
            at <= hay.len(),
            forall|j: int| 0 <= j < at ==> !stands_at(hay@, needle@, j),
        decreases hay.len() - at,
    {
        if is_at(hay, needle, at) {
            return true;
        }
        at += 1;
    }
    is_at(hay, needle, at)
}

// Lines and words

/// `s` without the carriage return at its end, where it has one.
pub open spec fn without_return(s: Seq<char>) -> Seq<char> {
    if s.len() > 0 && s.last() == '\r' {
        s.drop_last()
    } else {
        s
    }
}

/// The lines of a text. A line ends in a line feed, which may have a carriage return before it;
/// neither belongs to the line. The end of the last line may be missing.
pub open spec fn lines(s: Seq<char>) -> Seq<Seq<char>>
    decreases s.len(),
{
    let i = position(s, '\n');
    if s.len() == 0 {
        Seq::empty()
    } else if 0 <= i < s.len() {
        seq![without_return(s.take(i))] + lines(s.skip(i + 1))
    } else {
        seq![s]
    }
}

pub fn split_lines(s: &[char]) -> (split: Vec<String>)
    ensures
        texts(split@) == lines(s@),
{
    let mut split: Vec<String> = Vec::new();
    let mut from: usize = 0;
    assert(s@.skip(0) == s@);
    assert(texts(split@) =~= Seq::<Seq<char>>::empty());
    while from < s.len()
        invariant
            from <= s.len(),
            texts(split@) + lines(s@.skip(from as int)) == lines(s@),
        decreases s.len() - from,
    {
        let ghost before = texts(split@);
        assert(s@.skip(from as int) == s@.subrange(from as int, s@.len() as int));
        let rest = &s[from..s.len()];
        let i: usize = find(rest, '\n');
        if i < rest.len() {
            let mut n: usize = i;
            if n > 0 && rest[n - 1] == '\r' {
                n -= 1;
            }
            let line = string_of(&rest[0..n]);
            assert(line@ =~= without_return(rest@.take(i as int)));
            split.push(line);
            assert(rest@.skip(i + 1) =~= s@.skip(from + i + 1));
            assert(texts(split@) =~= before.push(line@));
            assert(before.push(line@) + lines(s@.skip(from + i + 1)) =~= before + (seq![line@]
                + lines(s@.skip(from + i + 1))));
            from = from + i + 1;
        } else {
            let line = string_of(rest);
            split.push(line);
            assert(texts(split@) =~= before.push(line@));
            assert(before.push(line@) =~= before + seq![line@]);
            assert(lines(s@) =~= texts(split@));
            from = s.len();
            assert(s@.skip(from as int) =~= Seq::<char>::empty());
        }
    }
    assert(lines(s@.skip(from as int)) =~= Seq::<Seq<char>>::empty());
    split
}

/// The length of the run at the start of `s` that holds no white space.
pub open spec fn word_len(s: Seq<char>) -> int
    decreases s.len(),
{
    if s.len() == 0 || white_space(s[0]) {
        0
    } else {
        1 + word_len(s.skip(1))
    }
}

pub proof fn lemma_word_len(s: Seq<char>)
    ensures
        0 <= word_len(s) <= s.len(),
        forall|j: int| 0 <= j < word_len(s) ==> !white_space(#[trigger] s[j]),
        word_len(s) < s.len() ==> white_space(s[word_len(s)]),
    decreases s.len(),
{
    if s.len() > 0 && !white_space(s[0]) {
        lemma_word_len(s.skip(1));
        assert forall|j: int| 0 <= j < word_len(s) implies !white_space(#[trigger] s[j]) by {
            if j > 0 {
                assert(s.skip(1)[j - 1] == s[j]);
            }
        }
    }
}

pub proof fn lemma_trim_start(s: Seq<char>)
    ensures
        trim_start(s).len() <= s.len(),
        trim_start(s).len() > 0 ==> !white_space(trim_start(s)[0]),
        trim_start(s) == s.skip(s.len() - trim_start(s).len()),
    decreases s.len(),
{
    if s.len() > 0 && white_space(s[0]) {
        lemma_trim_start(s.skip(1));
        assert(s.skip(1).skip(s.len() - 1 - trim_start(s).len()) =~= s.skip(s.len()
            - trim_start(s).len()));
    } else {
        assert(s.skip(0) =~= s);
    }
}

/// The words of a text: its longest parts without white space.
pub open spec fn words(s: Seq<char>) -> Seq<Seq<char>>
    decreases s.len(),
{
    let t = trim_start(s);
    let n = word_len(t);
    if 0 < n <= t.len() <= s.len() {
        seq![t.take(n)] + words(t.skip(n))
    } else {
        Seq::empty()
    }
}

pub fn split_words(s: &[char]) -> (split: Vec<Vec<char>>)
    ensures
        split@.map_values(|w: Vec<char>| w@) == words(s@),
{
    let mut split: Vec<Vec<char>> = Vec::new();
    let mut i: usize = 0;
    let ghost view = |w: Vec<char>| w@;
    assert(s@.skip(0) == s@);
    assert(split@.map_values(view) =~= Seq::<Seq<char>>::empty());
    while i < s.len()
        invariant
            i <= s.len(),
            view == (|w: Vec<char>| w@),
            split@.map_values(view) + words(s@.skip(i as int)) == words(s@),
        decreases s.len() - i,
    {
        let ghost before = split@.map_values(view);
        let ghost rest = s@.skip(i as int);
        if is_white_space(s[i]) {
            assert(rest.skip(1) =~= s@.skip(i + 1));
            assert(trim_start(rest) == trim_start(rest.skip(1)));
            proof {
                lemma_trim_start(rest.skip(1));
            }
            assert(words(rest) == words(rest.skip(1)));
            i += 1;
        } else {
            let mut word: Vec<char> = Vec::new();
            let start: usize = i;
            while i < s.len() && !is_white_space(s[i])
                invariant
                    start <= i <= s.len(),
                    word@ == s@.subrange(start as int, i as int),
                    rest == s@.skip(start as int),
                    word_len(rest) == i - start + word_len(s@.skip(i as int)),
                decreases s.len() - i,
            {
                word.push(s[i]);
                assert(s@.skip(i as int).skip(1) =~= s@.skip(i + 1));
                i += 1;
            }
            proof {
                lemma_word_len(rest);
            }
            assert(word@ =~= rest.take(word_len(rest)));
            assert(rest.skip(word_len(rest)) =~= s@.skip(i as int));
            split.push(word);
            assert(split@.map_values(view) =~= before.push(word@));
            assert(words(rest) == seq![word@] + words(s@.skip(i as int)));
            assert(before.push(word@) + words(s@.skip(i as int)) =~= before + (seq![word@] + words(
                s@.skip(i as int),
            )));
        }
    }
    assert(words(s@.skip(i as int)) =~= Seq::<Seq<char>>::empty());
    assert(split@.map_values(view) =~= words(s@));
    split
}

/// The parts one after the other, with `between` between each two of them.
pub open spec fn join(parts: Seq<Seq<char>>, between: Seq<char>) -> Seq<char>
    decreases parts.len(),
{
    if parts.len() == 0 {
        Seq::empty()
    } else if parts.len() == 1 {
        parts[0]
    } else {
        join(parts.drop_last(), between) + between + parts.last()
    }
}

pub fn joined(parts: &[String], between: &str) -> (text: String)
    ensures
        text@ == join(texts(parts@), between@),
{
    let mut text = String::new();
    let mut i: usize = 0;
    assert(texts(parts@).take(0) =~= Seq::<Seq<char>>::empty());
    while i < parts.len()
        invariant
            i <= parts.len(),
            text@ == join(texts(parts@).take(i as int), between@),
        decreases parts.len() - i,
    {
        let ghost head = texts(parts@).take(i + 1);
        assert(head.drop_last() =~= texts(parts@).take(i as int));
        if i > 0 {
            text.append(between);
        }
        text.append(parts[i].as_str());
        if i == 0 {
            assert(text@ =~= head[0]);
        }
        i += 1;
    }
    assert(texts(parts@).take(i as int) =~= texts(parts@));
    text
}

// Decimal numbers

pub open spec fn is_digit(c: char) -> bool {
    '0' <= c <= '9'
}

pub open spec fn digit_value(c: char) -> nat {
    (c as int - '0' as int) as nat
}

/// The character of a digit.
pub open spec fn digit_char(d: nat) -> char {
    if d == 0 {
        '0'
    } else if d == 1 {
        '1'
    } else if d == 2 {
        '2'
    } else if d == 3 {
        '3'
    } else if d == 4 {
        '4'
    } else if d == 5 {
        '5'
    } else if d == 6 {
        '6'
    } else if d == 7 {
        '7'
    } else if d == 8 {
        '8'
    } else {
        '9'
    }
}

fn digit(d: u64) -> (c: char)
    requires
        d < 10,
    ensures
        c == digit_char(d as nat),
{
    if d == 0 {
        '0'
    } else if d == 1 {
        '1'
    } else if d == 2 {
        '2'
    } else if d == 3 {
        '3'
    } else if d == 4 {
        '4'
    } else if d == 5 {
        '5'
    } else if d == 6 {
        '6'
    } else if d == 7 {
        '7'
    } else if d == 8 {
        '8'
    } else {
        '9'
    }
}

/// `n` in decimal digits, without leading zeros.
pub open spec fn decimal(n: nat) -> Seq<char>
    decreases n,
{
    if n < 10 {
        seq![digit_char(n)]
    } else {
        decimal(n / 10).push(digit_char(n % 10))
    }
}

pub fn decimal_text(n: u64) -> (text: String)
    ensures
        text@ == decimal(n as nat),
    decreases n,
{
    let mut text = if n < 10 {
        String::new()
    } else {
        decimal_text(n / 10)
    };
    text.push(digit(n % 10));
    assert(n < 10 ==> text@ =~= seq![digit_char(n as nat)]);
    text
}

pub open spec fn all_digits(s: Seq<char>) -> bool {
    forall|i: int| 0 <= i < s.len() ==> is_digit(#[trigger] s[i])
}

/// The number that a run of digits stands for.
pub open spec fn digits_value(s: Seq<char>) -> nat
    decreases s.len(),
{
    if s.len() == 0 {
        0
    } else {
        digits_value(s.drop_last()) * 10 + digit_value(s.last())
    }
}

/// The unsigned number of 32 bits that `s` spells: digits, with an optional plus sign before them.
pub open spec fn parse_u32(s: Seq<char>) -> Option<u32> {
    let digits = if s.len() > 0 && s[0] == '+' {
        s.skip(1)
    } else {
        s
    };
    if digits.len() > 0 && all_digits(digits) && digits_value(digits) <= u32::MAX {
        Some(digits_value(digits) as u32)
    } else {
        None
    }
}

/// A longer run of digits stands for no smaller a number.
pub proof fn lemma_digits_value_grows(s: Seq<char>, i: int)
    requires
        0 <= i <= s.len(),
    ensures
        digits_value(s.take(i)) <= digits_value(s),
    decreases s.len(),
{
    if i < s.len() {
        lemma_digits_value_grows(s.drop_last(), i);
        assert(s.drop_last().take(i) =~= s.take(i));
    } else {
        assert(s.take(i) =~= s);
    }
}

pub fn read_u32(s: &[char]) -> (value: Option<u32>)
    ensures
        value == parse_u32(s@),
{
    let start: usize = if s.len() > 0 && s[0] == '+' {
        1
    } else {
        0
    };
    let ghost digits = s@.skip(start as int);
    assert(start == 0 ==> digits =~= s@);
    if start == s.len() {
        return None;
    }
    let mut i: usize = start;
    let mut value: u64 = 0;
    let mut fits = true;
    assert(digits.take(0) =~= Seq::<char>::empty());
    while i < s.len()
        invariant
            start <= i <= s.len(),
            start <= 1,
            digits == s@.skip(start as int),
            digits == if s@.len() > 0 && s@[0] == '+' { s@.skip(1) } else { s@ },
            digits.len() > 0,
            forall|j: int| 0 <= j < i - start ==> is_digit(#[trigger] digits[j]),
            fits ==> value == digits_value(digits.take(i - start)) && value <= u32::MAX,
            !fits ==> digits_value(digits.take(i - start)) > u32::MAX,
        decreases s.len() - i,
    {
        let c = s[i];
        assert(digits[i - start] == c);
        if c < '0' || c > '9' {
            assert(!is_digit(digits[i - start]));
            return None;
        }
        let ghost longer = digits.take(i + 1 - start);
        assert(longer.drop_last() =~= digits.take(i - start));
        if fits {
            value = value * 10 + (c as u64 - '0' as u64);
            if value > 0xffff_ffff {
                fits = false;
            }
        }
        i += 1;
    }
    assert(digits.take(i - start) =~= digits);
    if fits {
        Some(value as u32)
    } else {
        None
    }
}

// Searching

/// The lower-case equivalent of a text: `str::to_lowercase`.
pub uninterp spec fn lowercase(text: Seq<char>) -> Seq<char>;

/// `str::to_lowercase` is a function of the text.
pub assume_specification[ str::to_lowercase ](text: &str) -> (lower: String)
    ensures
        lower@ == lowercase(text@),
;

/// The number of bytes of a character in UTF-8.
pub open spec fn utf8_len(c: char) -> int {
    if (c as int) < 0x80 {
        1
    } else if (c as int) < 0x800 {
        2
    } else if (c as int) < 0x10000 {
        3
    } else {
        4
    }
}

pub fn bytes_of_char(c: char) -> (n: usize)
    ensures
        n == utf8_len(c),
{
    if (c as u32) < 0x80 {
        1
    } else if (c as u32) < 0x800 {
        2
    } else if (c as u32) < 0x10000 {
        3
    } else {
        4
    }
}

/// The number of bytes of a text in UTF-8.
pub open spec fn byte_len(s: Seq<char>) -> int
    decreases s.len(),
{
    if s.len() == 0 {
        0
    } else {
        byte_len(s.drop_last()) + utf8_len(s.last())
    }
}

/// The position of the character of `s` that starts at byte `at`; the end of the text counts as a
/// position too.
pub open spec fn char_at_byte(s: Seq<char>, at: int) -> Option<int>
    decreases s.len(),
{
    if byte_len(s) == at {
        Some(s.len() as int)
    } else if s.len() > 0 {
        char_at_byte(s.drop_last(), at)
    } else {
        None
    }
}

pub proof fn lemma_char_at_byte(s: Seq<char>, at: int)
    ensures
        match char_at_byte(s, at) {
            Some(i) => 0 <= i <= s.len() && byte_len(s.take(i)) == at,
            None => true,
        },
    decreases s.len(),
{
    if byte_len(s) == at {
        assert(s.take(s.len() as int) =~= s);
    } else if s.len() > 0 {
        lemma_char_at_byte(s.drop_last(), at);
        if char_at_byte(s, at) is Some {
            let i = char_at_byte(s, at)->0;
            assert(s.drop_last().take(i) =~= s.take(i));
        }
    }
}

/// A longer start of a text has more bytes.
pub proof fn lemma_byte_len_grows(s: Seq<char>, i: int, j: int)
    requires
        0 <= i <= j <= s.len(),
    ensures
        byte_len(s.take(i)) + (j - i) <= byte_len(s.take(j)),
    decreases j - i,
{
    if i < j {
        lemma_byte_len_grows(s, i, j - 1);
        assert(s.take(j).drop_last() =~= s.take(j - 1));
    }
}

/// The positions at which `needle` stands in `hay` from position `from` on, without those that
/// overlap one before. An empty `needle` stands nowhere.
pub open spec fn occurrences(hay: Seq<char>, needle: Seq<char>, from: int) -> Seq<int>
    decreases hay.len() - from,
{
    if needle.len() == 0 || from < 0 || from + needle.len() > hay.len() {
        Seq::empty()
    } else if stands_at(hay, needle, from) {
        seq![from] + occurrences(hay, needle, from + needle.len())
    } else {
        occurrences(hay, needle, from + 1)
    }
}

pub fn find_all(hay: &[char], needle: &[char]) -> (positions: Vec<usize>)
    ensures
        positions@.map_values(|p: usize| p as int) == occurrences(hay@, needle@, 0),
        forall|i: int|
            0 <= i < positions@.len() ==> (#[trigger] positions@[i]) + needle@.len() <= hay@.len(),
{
    let ghost view = |p: usize| p as int;
    let mut positions: Vec<usize> = Vec::new();
    let mut from: usize = 0;
    assert(positions@.map_values(view) + occurrences(hay@, needle@, 0) =~= occurrences(
        hay@,
        needle@,
        0,
    ));
    if needle.len() == 0 {
        assert(positions@.map_values(view) =~= occurrences(hay@, needle@, 0));
        return positions;
    }
    while from <= hay.len() && needle.len() <= hay.len() - from
        invariant
            from <= hay@.len(),
            needle@.len() > 0,
            view == (|p: usize| p as int),
            positions@.map_values(view) + occurrences(hay@, needle@, from as int) == occurrences(
                hay@,
                needle@,
                0,
            ),
            forall|i: int|
                0 <= i < positions@.len() ==> (#[trigger] positions@[i]) + needle@.len()
                    <= hay@.len(),
        decreases hay@.len() - from,
    {
        if is_at(hay, needle, from) {
            let ghost before = positions@.map_values(view);
            let ghost rest = occurrences(hay@, needle@, from + needle@.len());
            positions.push(from);
            assert(positions@.map_values(view) =~= before.push(from as int));
            assert(before.push(from as int) + rest =~= before + (seq![from as int] + rest));
            from = from + needle.len();
        } else {
            from = from + 1;
        }
    }
    assert(positions@.map_values(view) =~= occurrences(hay@, needle@, 0));
    positions
}

/// The byte at which the character at each position of a text starts, the end of the text
/// included.
pub fn byte_starts(s: &[char]) -> (starts: Vec<u128>)
    ensures
        starts@.len() == s@.len() + 1,
        forall|i: int| 0 <= i <= s@.len() ==> #[trigger] starts@[i] == byte_len(s@.take(i)),
        forall|i: int| 0 <= i <= s@.len() ==> #[trigger] starts@[i] <= 4 * usize::MAX,
{
    let mut starts: Vec<u128> = Vec::new();
    let mut bytes: u128 = 0;
    starts.push(0);
    let len: usize = s.len();
    let mut i: usize = 0;
    assert(s@.take(0) =~= Seq::<char>::empty());
    while i < len
        invariant
            i <= len,
            len == s@.len(),
            starts@.len() == i + 1,
            bytes == byte_len(s@.take(i as int)),
            bytes <= 4 * i,
            forall|j: int| 0 <= j <= i ==> #[trigger] starts@[j] == byte_len(s@.take(j)),
            forall|j: int| 0 <= j <= i ==> #[trigger] starts@[j] <= 4 * usize::MAX,
        decreases s@.len() - i,
    {
        assert(s@.take(i + 1).drop_last() =~= s@.take(i as int));
        bytes = bytes + bytes_of_char(s[i]) as u128;
        starts.push(bytes);
        i += 1;
    }
    starts
}

/// The last position among `starts` that is byte `at`.
pub fn position_of_byte(s: &[char], starts: &[u128], at: u128) -> (position: Option<usize>)
    requires
        starts@.len() == s@.len() + 1,
        forall|i: int| 0 <= i <= s@.len() ==> #[trigger] starts@[i] == byte_len(s@.take(i)),
    ensures
        match position {
            Some(i) => char_at_byte(s@, at as int) == Some(i as int) && i <= s@.len(),
            None => char_at_byte(s@, at as int) is None,
        },
{
    let mut n: usize = s.len();
    assert(s@.take(n as int) =~= s@);
    loop
        invariant
            n <= s@.len(),
            starts@.len() == s@.len() + 1,
            forall|i: int| 0 <= i <= s@.len() ==> #[trigger] starts@[i] == byte_len(s@.take(i)),
            char_at_byte(s@.take(n as int), at as int) == char_at_byte(s@, at as int),
        decreases n,
    {
        if starts[n] == at {
            return Some(n);
        }
        if n == 0 {
            return None;
        }
        assert(s@.take(n as int).drop_last() =~= s@.take(n - 1));
        n -= 1;
    }
}

// The order of texts

/// Whether `a` comes before `b` or is the same, by the first character in which they differ; a
/// text comes before those that it starts.
pub open spec fn in_order(a: Seq<char>, b: Seq<char>) -> bool
    decreases a.len(),
{
    if a.len() == 0 {
        true
    } else if b.len() == 0 {
        false
    } else if a[0] == b[0] {
        in_order(a.skip(1), b.skip(1))
    } else {
        (a[0] as int) < (b[0] as int)
    }
}

fn is_less(a: char, b: char) -> (yes: bool)
    ensures
        yes == ((a as int) < (b as int)),
{
    (a as u32) < (b as u32)
}

pub fn are_in_order(a: &[char], b: &[char]) -> (yes: bool)
    ensures
        yes == in_order(a@, b@),
{
    let mut i: usize = 0;
    assert(a@.skip(0) =~= a@);
    assert(b@.skip(0) =~= b@);
    while i < a.len()
        invariant
            i <= a@.len(),
            i <= b@.len(),
            in_order(a@.skip(i as int), b@.skip(i as int)) == in_order(a@, b@),
        decreases a@.len() - i,
    {
        if i >= b.len() {
            return false;
        }
        assert(a@.skip(i as int)[0] == a@[i as int]);
        assert(b@.skip(i as int)[0] == b@[i as int]);
        if a[i] != b[i] {
            return is_less(a[i], b[i]);
        }
        assert(a@.skip(i as int).skip(1) =~= a@.skip(i + 1));
        assert(b@.skip(i as int).skip(1) =~= b@.skip(i + 1));
        i += 1;
    }
    true
}

/// Of every two texts one comes before the other or is the same.
pub proof fn lemma_in_order_is_total(a: Seq<char>, b: Seq<char>)
    ensures
        in_order(a, b) || in_order(b, a),
    decreases a.len(),
{
    if a.len() > 0 && b.len() > 0 {
        let first_a: char = a[0];
        let first_b: char = b[0];
        if first_a as int == first_b as int {
            assert(first_a == first_b);
            lemma_in_order_is_total(a.skip(1), b.skip(1));
        }
    }
}

pub proof fn lemma_in_order_is_transitive(a: Seq<char>, b: Seq<char>, c: Seq<char>)
    requires
        in_order(a, b),
        in_order(b, c),
    ensures
        in_order(a, c),
    decreases a.len(),
{
    if a.len() > 0 && b.len() > 0 && c.len() > 0 && a[0] == b[0] && b[0] == c[0] {
        lemma_in_order_is_transitive(a.skip(1), b.skip(1), c.skip(1));
    }
}

// What the parts of a text are

/// A trimmed text has no white space at its ends, and nothing but white space was taken away.
pub proof fn lemma_trim_takes_away_white_space(s: Seq<char>) -> (cut: (int, int))
    ensures
        0 <= cut.0 <= cut.1 <= s.len(),
        trim(s) == s.subrange(cut.0, cut.1),
        forall|i: int| 0 <= i < cut.0 ==> white_space(#[trigger] s[i]),
        forall|i: int| cut.1 <= i < s.len() ==> white_space(#[trigger] s[i]),
        trim(s).len() > 0 ==> !white_space(trim(s)[0]) && !white_space(trim(s).last()),
{
    let from = lemma_trim_start_takes_away(s);
    let t = trim_start(s);
    let n = lemma_trim_end_takes_away(t);
    assert(trim(s) =~= s.subrange(from, from + n));
    assert forall|i: int| from + n <= i < s.len() implies white_space(#[trigger] s[i]) by {
        assert(t[i - from] == s[i]);
    }
    lemma_trim_start(s);
    (from, from + n)
}

proof fn lemma_trim_start_takes_away(s: Seq<char>) -> (from: int)
    ensures
        0 <= from <= s.len(),
        trim_start(s) == s.skip(from),
        forall|i: int| 0 <= i < from ==> white_space(#[trigger] s[i]),
    decreases s.len(),
{
    if s.len() > 0 && white_space(s[0]) {
        let from = lemma_trim_start_takes_away(s.skip(1));
        assert(s.skip(1).skip(from) =~= s.skip(from + 1));
        assert forall|i: int| 0 <= i < from + 1 implies white_space(#[trigger] s[i]) by {
            if i > 0 {
                assert(s.skip(1)[i - 1] == s[i]);
            }
        }
        from + 1
    } else {
        assert(s.skip(0) =~= s);
        0
    }
}

proof fn lemma_trim_end_takes_away(s: Seq<char>) -> (n: int)
    ensures
        0 <= n <= s.len(),
        trim_end(s) == s.take(n),
        forall|i: int| n <= i < s.len() ==> white_space(#[trigger] s[i]),
        trim_end(s).len() > 0 ==> !white_space(trim_end(s).last()),
    decreases s.len(),
{
    if s.len() > 0 && white_space(s.last()) {
        let n = lemma_trim_end_takes_away(s.drop_last());
        assert(s.drop_last().take(n) =~= s.take(n));
        assert forall|i: int| n <= i < s.len() implies white_space(#[trigger] s[i]) by {
            if i < s.len() - 1 {
                assert(s.drop_last()[i] == s[i]);
            }
        }
        n
    } else {
        assert(s.take(s.len() as int) =~= s);
        s.len() as int
    }
}

/// A text without white space at its ends stays as it is.
pub proof fn lemma_trimmed_stays(s: Seq<char>)
    requires
        s.len() > 0 ==> !white_space(s[0]) && !white_space(s.last()),
    ensures
        trim(s) == s,
        trim_start(s) == s,
{
}

/// A number that is written down reads as that number, and has no zero before it.
pub proof fn lemma_decimal_reads_back(n: nat)
    ensures
        digits_value(decimal(n)) == n,
        all_digits(decimal(n)),
        decimal(n).len() > 0,
        decimal(n).len() > 1 ==> decimal(n)[0] != '0',
        n <= u32::MAX ==> parse_u32(decimal(n)) == Some(n as u32),
    decreases n,
{
    if n < 10 {
        let s = seq![digit_char(n)];
        assert(s.drop_last() =~= Seq::<char>::empty());
        assert(digits_value(Seq::<char>::empty()) == 0);
        assert(digits_value(s) == digit_value(digit_char(n)));
    } else {
        lemma_decimal_reads_back(n / 10);
        let before = decimal(n / 10);
        let s = before.push(digit_char(n % 10));
        assert(s.drop_last() =~= before);
        assert(digit_value(digit_char(n % 10)) == n % 10);
        assert forall|i: int| 0 <= i < s.len() implies is_digit(#[trigger] s[i]) by {
            if i < before.len() {
                assert(is_digit(before[i]));
            }
        }
        if before.len() == 1 {
            assert(digits_value(before) == n / 10);
            assert(before.drop_last() =~= Seq::<char>::empty());
            assert(digits_value(before.drop_last()) == 0);
            assert(s[0] == before[0]);
            assert(digit_value(before[0]) == n / 10);
        }
    }
    assert(is_digit(decimal(n)[0]));
}

/// Different numbers are written differently.
pub proof fn lemma_decimals_differ(a: nat, b: nat)
    requires
        decimal(a) == decimal(b),
    ensures
        a == b,
{
    lemma_decimal_reads_back(a);
    lemma_decimal_reads_back(b);
}

/// A line feed ends a line: what stands before it is the first line, and what stands behind it has
/// the other lines. A carriage return before the line feed belongs to neither.
pub proof fn lemma_line_feeds_end_lines(line: Seq<char>, rest: Seq<char>)
    requires
        forall|i: int| 0 <= i < line.len() ==> (#[trigger] line[i]) != '\n',
        line.len() > 0 ==> line.last() != '\r',
    ensures
        lines(line + seq!['\n'] + rest) == seq![line] + lines(rest),
        lines(line + seq!['\r', '\n'] + rest) == seq![line] + lines(rest),
        line.len() > 0 ==> lines(line) == seq![line],
        lines(Seq::empty()).len() == 0,
{
    let a = line + seq!['\n'] + rest;
    lemma_position_unique(a, '\n', line.len() as int);
    assert(a.take(line.len() as int) =~= line);
    assert(a.skip(line.len() + 1int) =~= rest);
    let b = line + seq!['\r', '\n'] + rest;
    lemma_position_unique(b, '\n', line.len() + 1int);
    assert(b.take(line.len() + 1int) =~= line.push('\r'));
    assert(without_return(line.push('\r')) =~= line);
    assert(b.skip(line.len() + 2int) =~= rest);
    lemma_position_unique(line, '\n', line.len() as int);
}

/// Joined parts stand one behind the other, each with `between` before it but the first.
pub proof fn lemma_join_adds(parts: Seq<Seq<char>>, part: Seq<char>, between: Seq<char>)
    ensures
        parts.len() > 0 ==> join(parts.push(part), between) == join(parts, between) + between
            + part,
        parts.len() == 0 ==> join(parts.push(part), between) == part,
        join(Seq::empty(), between).len() == 0,
{
    assert(parts.push(part).drop_last() =~= parts);
}

/// The first word of a text is its longest part without white space behind the white space at its
/// start, and the other words are those of what is left.
pub proof fn lemma_words_are_apart(before: Seq<char>, word: Seq<char>, rest: Seq<char>)
    requires
        forall|i: int| 0 <= i < before.len() ==> white_space(#[trigger] before[i]),
        word.len() > 0,
        forall|i: int| 0 <= i < word.len() ==> !white_space(#[trigger] word[i]),
        rest.len() > 0 ==> white_space(rest[0]),
    ensures
        words(before + word + rest) == seq![word] + words(rest),
        words(before).len() == 0,
{
    let s = before + word + rest;
    let from = lemma_trim_start_takes_away(s);
    lemma_trim_start(s);
    if from > before.len() {
        assert(s[before.len() as int] == word[0]);
    }
    if from < before.len() {
        assert(trim_start(s)[0] == s[from]);
        assert(s[from] == before[from]);
    }
    let t = trim_start(s);
    assert(t =~= word + rest);
    lemma_word_len(t);
    let n = word_len(t);
    if n > word.len() {
        assert(t[word.len() as int] == rest[0]);
    }
    if n < word.len() {
        assert(t[n] == word[n]);
    }
    assert(t.take(n) =~= word);
    assert(t.skip(n) =~= rest);
    let all = lemma_trim_start_takes_away(before);
    lemma_trim_start(before);
    if all < before.len() {
        assert(trim_start(before)[0] == before[all]);
    }
}

/// The part behind the last `c` holds no `c`, and all of the text where there is none.
pub proof fn lemma_after_last_is_the_end(s: Seq<char>, c: char)
    ensures
        forall|i: int| 0 <= i < after_last(s, c).len() ==> (#[trigger] after_last(s, c)[i]) != c,
        after_last(s, c).len() <= s.len(),
        after_last(s, c) == s.skip(s.len() - after_last(s, c).len()),
        after_last(s, c).len() < s.len() ==> s[s.len() - after_last(s, c).len() - 1] == c,
    decreases s.len(),
{
    let i = position(s, c);
    lemma_position(s, c);
    if i < s.len() {
        let rest = s.skip(i + 1);
        lemma_after_last_is_the_end(rest, c);
        let n = after_last(rest, c).len();
        assert(rest.skip(rest.len() - n) =~= s.skip(s.len() - n));
        if n < rest.len() {
            assert(rest[rest.len() - n - 1] == s[s.len() - n - 1]);
        }
    } else {
        assert(s.skip(0) =~= s);
    }
}

/// A text holds another just if the other stands between two parts of it.
pub proof fn lemma_parts_are_held(before: Seq<char>, needle: Seq<char>, after: Seq<char>)
    ensures
        contains(before + needle + after, needle),
        contains(needle, needle),
{
    let hay = before + needle + after;
    assert(hay.subrange(before.len() as int, (before.len() + needle.len()) as int) =~= needle);
    assert(stands_at(hay, needle, before.len() as int));
    assert(needle.subrange(0, needle.len() as int) =~= needle);
    assert(stands_at(needle, needle, 0));
}

/// Letters, digits and signs are no white space; blanks, tabulators and line feeds are.
pub proof fn lemma_white_space_of_ascii(c: char)
    requires
        (c as int) < 0x80,
    ensures
        white_space(c) <==> c == ' ' || c == '\t' || c == '\n' || c == '\r' || c == '\u{b}' || c
            == '\u{c}',
{
}

/// Texts are in the order of the first characters in which they differ; one that another starts
/// with comes before it.
pub proof fn lemma_first_difference_decides(
    common: Seq<char>,
    a: char,
    b: char,
    rest_a: Seq<char>,
    rest_b: Seq<char>,
)
    ensures
        in_order(common, common + rest_b),
        rest_b.len() > 0 ==> !in_order(common + rest_b, common),
        (a as int) < (b as int) ==> in_order(common.push(a) + rest_a, common.push(b) + rest_b),
        (a as int) > (b as int) ==> !in_order(common.push(a) + rest_a, common.push(b) + rest_b),
    decreases common.len(),
{
    let x = common.push(a) + rest_a;
    let y = common.push(b) + rest_b;
    if common.len() == 0 {
        assert(x[0] == a && y[0] == b);
        assert(common + rest_b =~= rest_b);
    } else {
        let less = common.skip(1);
        lemma_first_difference_decides(less, a, b, rest_a, rest_b);
        assert(x.skip(1) =~= less.push(a) + rest_a);
        assert(y.skip(1) =~= less.push(b) + rest_b);
        assert((common + rest_b).skip(1) =~= less + rest_b);
    }
}

/// A text stands at each of the positions that are found, these are apart, and the text stands
/// nowhere before the first of them, nor between two of them without overlapping the first.
pub proof fn lemma_all_occurrences_are_found(
    hay: Seq<char>,
    needle: Seq<char>,
    from: int,
    i: int,
    at: int,
)
    requires
        needle.len() > 0,
        0 <= from,
    ensures
        ({
            let found = occurrences(hay, needle, from);
            &&& 0 <= i < found.len() ==> stands_at(hay, needle, found[i]) && found[i] >= from
            &&& 0 <= i < found.len() - 1 ==> found[i] + needle.len() <= found[i + 1]
            &&& stands_at(hay, needle, at) && at >= from ==> found.len() > 0 && found[0] <= at
            &&& 0 <= i < found.len() && stands_at(hay, needle, at) && at >= found[i] + needle.len()
                ==> i + 1 < found.len() && found[i + 1] <= at
        }),
    decreases hay.len() - from,
{
    let found = occurrences(hay, needle, from);
    if from + needle.len() > hay.len() {
    } else if stands_at(hay, needle, from) {
        let rest = occurrences(hay, needle, from + needle.len());
        assert(found =~= seq![from] + rest);
        lemma_all_occurrences_are_found(hay, needle, from + needle.len(), i - 1, at);
        lemma_all_occurrences_are_found(hay, needle, from + needle.len(), 0, at);
    } else {
        lemma_all_occurrences_are_found(hay, needle, from + 1, i, at);
    }
}

/// Each character starts at the byte that follows those of the characters before it, and every such
/// byte is found to be its start.
pub proof fn lemma_characters_start_at_their_byte(s: Seq<char>, i: int)
    requires
        0 <= i <= s.len(),
    ensures
        char_at_byte(s, byte_len(s.take(i))) == Some(i),
    decreases s.len(),
{
    if i == s.len() {
        assert(s.take(i) =~= s);
    } else {
        lemma_characters_start_at_their_byte(s.drop_last(), i);
        assert(s.drop_last().take(i) =~= s.take(i));
        lemma_byte_len_grows(s, i, s.len() as int);
        assert(s.take(s.len() as int) =~= s);
    }
}

/// The bytes of two texts add up, and a character takes up one to four bytes: one if it is an ASCII
/// character, and no fewer than any character before it.
pub proof fn lemma_bytes_add_up(a: Seq<char>, b: Seq<char>, c: char, d: char)
    ensures
        byte_len(a + b) == byte_len(a) + byte_len(b),
        byte_len(a.push(c)) > byte_len(a),
        1 <= utf8_len(c) <= 4,
        utf8_len(c) == 1 <==> (c as int) < 128,
        (c as int) <= (d as int) ==> utf8_len(c) <= utf8_len(d),
    decreases b.len(),
{
    assert(a.push(c).drop_last() =~= a);
    if b.len() == 0 {
        assert(a + b =~= a);
    } else {
        lemma_bytes_add_up(a, b.drop_last(), c, d);
        assert((a + b).drop_last() =~= a + b.drop_last());
    }
}

} // verus!
