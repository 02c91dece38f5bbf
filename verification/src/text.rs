//! Character-level text utilities shared by the parser and the renderer.
//!
//! All scanning specs are written over `Seq<char>` with an explicit cursor,
//! so that executable loops can mirror them index by index.

use vstd::prelude::*;

verus! {

/// Appends one character to a string.
/// Relies on `String::push`: appends the given `char` to the end of the string.
pub assume_specification[ String::push ](s: &mut String, ch: char)
    ensures
        final(s)@ == old(s)@.push(ch),
;

/// The whitespace characters this crate recognises: the ASCII whitespace set.
pub open spec fn is_ws_char(c: char) -> bool {
    c == ' ' || c == '\t' || c == '\n' || c == '\r' || c == '\u{b}' || c == '\u{c}'
}

/// Executable test matching `is_ws_char`.
pub fn is_ws(c: char) -> (r: bool)
    ensures
        r == is_ws_char(c),
{
    c == ' ' || c == '\t' || c == '\n' || c == '\r' || c == '\u{b}' || c == '\u{c}'
}

/// Index of the first non-whitespace character at or after `i`, or `s.len()`.
pub open spec fn solid_from(s: Seq<char>, i: int) -> int
    decreases s.len() - i,
{
    if i < 0 || i >= s.len() {
        s.len() as int
    } else if !is_ws_char(s[i]) {
        i
    } else {
        solid_from(s, i + 1)
    }
}

pub proof fn lemma_solid_from_bounds(s: Seq<char>, i: int)
    requires
        0 <= i <= s.len(),
    ensures
        i <= solid_from(s, i) <= s.len(),
        forall|j: int| i <= j < solid_from(s, i) ==> is_ws_char(s[j]),
        solid_from(s, i) < s.len() ==> !is_ws_char(s[solid_from(s, i)]),
    decreases s.len() - i,
{
    if i < s.len() && is_ws_char(s[i]) {
        lemma_solid_from_bounds(s, i + 1);
    }
}

/// End of the trimmed region: one past the last non-whitespace character
/// strictly before `i`, or 0 if there is none.
pub open spec fn solid_end(s: Seq<char>, i: int) -> int
    decreases i,
{
    if i <= 0 || i > s.len() {
        0
    } else if !is_ws_char(s[i - 1]) {
        i
    } else {
        solid_end(s, i - 1)
    }
}

pub proof fn lemma_solid_end_bounds(s: Seq<char>, i: int)
    requires
        0 <= i <= s.len(),
    ensures
        0 <= solid_end(s, i) <= i,
        forall|j: int| solid_end(s, i) <= j < i ==> is_ws_char(s[j]),
        solid_end(s, i) > 0 ==> !is_ws_char(s[solid_end(s, i) - 1]),
    decreases i,
{
    if i > 0 && is_ws_char(s[i - 1]) {
        lemma_solid_end_bounds(s, i - 1);
    }
}

/// The sequence with leading and trailing whitespace removed.
pub open spec fn trim_spec(s: Seq<char>) -> Seq<char> {
    if solid_from(s, 0) >= solid_end(s, s.len() as int) {
        Seq::empty()
    } else {
        s.subrange(solid_from(s, 0), solid_end(s, s.len() as int))
    }
}

/// A sequence without leading or trailing whitespace trims to itself.
pub proof fn lemma_trim_solid(s: Seq<char>)
    requires
        s.len() > 0,
        !is_ws_char(s[0]),
        !is_ws_char(s[s.len() - 1]),
    ensures
        trim_spec(s) == s,
{
    assert(solid_from(s, 0) == 0);
    assert(solid_end(s, s.len() as int) == s.len());
    assert(s.subrange(0, s.len() as int) =~= s);
}

/// Trimming is idempotent: a trimmed sequence has nothing more to trim.
pub proof fn lemma_trim_idempotent(s: Seq<char>)
    ensures
        trim_spec(trim_spec(s)) == trim_spec(s),
{
    lemma_solid_from_bounds(s, 0);
    lemma_solid_end_bounds(s, s.len() as int);
    let t = trim_spec(s);
    lemma_solid_from_bounds(t, 0);
    lemma_solid_end_bounds(t, t.len() as int);
    if t.len() > 0 {
        assert(!is_ws_char(t[0]));
        assert(!is_ws_char(t[t.len() - 1]));
        assert(solid_from(t, 0) == 0);
        assert(solid_end(t, t.len() as int) == t.len() as int);
        assert(trim_spec(t) =~= t);
    } else {
        assert(trim_spec(t) =~= t);
    }
}

/// Blankness persists into any suffix.
pub proof fn lemma_blank_suffix(s: Seq<char>, i: int, j: int)
    requires
        0 <= i <= j <= s.len(),
        solid_from(s, i) == s.len(),
    ensures
        solid_from(s, j) == s.len(),
{
    lemma_solid_from_bounds(s, i);
    lemma_solid_from_bounds(s, j);
    if solid_from(s, j) < s.len() {
        assert(is_ws_char(s[solid_from(s, j)]));
    }
}

/// Finds the first non-whitespace index at or after `from`.
pub fn scan_solid(s: &Vec<char>, from: usize) -> (r: usize)
    requires
        from <= s@.len(),
    ensures
        r == solid_from(s@, from as int),
        from <= r <= s@.len(),
{
    let mut i: usize = from;
    while i < s.len() && is_ws(s[i])
        invariant
            from <= i <= s@.len(),
            solid_from(s@, from as int) == solid_from(s@, i as int),
        decreases s@.len() - i,
    {
        i = i + 1;
    }
    i
}

/// Copies `s[from..to]`.
pub fn subrange_chars(s: &Vec<char>, from: usize, to: usize) -> (r: Vec<char>)
    requires
        from <= to <= s@.len(),
    ensures
        r@ == s@.subrange(from as int, to as int),
{
    let mut r: Vec<char> = Vec::new();
    let mut i: usize = from;
    while i < to
        invariant
            from <= i <= to <= s@.len(),
            r@ == s@.subrange(from as int, i as int),
        decreases to - i,
    {
        r.push(s[i]);
        assert(r@ =~= s@.subrange(from as int, i + 1 as int));
        i = i + 1;
    }
    r
}

/// Removes leading and trailing whitespace from a character vector.
pub fn trim_chars(s: &Vec<char>) -> (r: Vec<char>)
    ensures
        r@ == trim_spec(s@),
{
    proof {
        lemma_solid_from_bounds(s@, 0);
        lemma_solid_end_bounds(s@, s@.len() as int);
    }
    let start = scan_solid(s, 0);
    let mut end: usize = s.len();
    while end > 0 && is_ws(s[end - 1])
        invariant
            0 <= end <= s@.len(),
            solid_end(s@, s@.len() as int) == solid_end(s@, end as int),
        decreases end,
    {
        end = end - 1;
    }
    if start >= end {
        proof {
            assert(trim_spec(s@) =~= Seq::<char>::empty());
        }
        Vec::new()
    } else {
        subrange_chars(s, start, end)
    }
}

/// Collects the characters of a string slice.
pub fn chars_of(s: &str) -> (r: Vec<char>)
    ensures
        r@ == s@,
{
    let n = s.unicode_len();
    let mut r: Vec<char> = Vec::new();
    let mut i: usize = 0;
    while i < n
        invariant
            n == s@.len(),
            i <= n,
            r@ == s@.subrange(0, i as int),
        decreases n - i,
    {
        r.push(s.get_char(i));
        assert(r@ =~= s@.subrange(0, i + 1 as int));
        i = i + 1;
    }
    proof {
        assert(r@ =~= s@);
    }
    r
}

/// Builds a string from a character vector.
pub fn string_from(v: &Vec<char>) -> (r: String)
    ensures
        r@ == v@,
{
    let mut r = String::new();
    let mut i: usize = 0;
    while i < v.len()
        invariant
            i <= v@.len(),
            r@ == v@.subrange(0, i as int),
        decreases v@.len() - i,
    {
        r.push(v[i]);
        assert(r@ =~= v@.subrange(0, i + 1 as int));
        i = i + 1;
    }
    proof {
        assert(r@ =~= v@);
    }
    r
}

/// Builds a string directly from a character range of `s`.
pub fn string_range(s: &Vec<char>, from: usize, to: usize) -> (r: String)
    requires
        from <= to <= s@.len(),
    ensures
        r@ == s@.subrange(from as int, to as int),
{
    let v = subrange_chars(s, from, to);
    string_from(&v)
}

/// Trims a string, leaving no boundary whitespace to trim again.
pub fn trim_string(s: &str) -> (r: String)
    ensures
        r@ == trim_spec(s@),
        r@ == trim_spec(r@),
{
    proof {
        lemma_trim_idempotent(s@);
    }
    let v = chars_of(s);
    let t = trim_chars(&v);
    string_from(&t)
}

/// A string made of only whitespace (or nothing).
pub fn chars_blank(s: &Vec<char>, from: usize) -> (r: bool)
    requires
        from <= s@.len(),
    ensures
        r == (solid_from(s@, from as int) == s@.len()),
{
    let i = scan_solid(s, from);
    i == s.len()
}

/// ASCII lower-casing of one character; other characters are unchanged.
pub open spec fn lower_char(c: char) -> char {
    match c {
        'A' => 'a',
        'B' => 'b',
        'C' => 'c',
        'D' => 'd',
        'E' => 'e',
        'F' => 'f',
        'G' => 'g',
        'H' => 'h',
        'I' => 'i',
        'J' => 'j',
        'K' => 'k',
        'L' => 'l',
        'M' => 'm',
        'N' => 'n',
        'O' => 'o',
        'P' => 'p',
        'Q' => 'q',
        'R' => 'r',
        'S' => 's',
        'T' => 't',
        'U' => 'u',
        'V' => 'v',
        'W' => 'w',
        'X' => 'x',
        'Y' => 'y',
        'Z' => 'z',
        _ => c,
    }
}

/// ASCII upper-casing of one character; other characters are unchanged.
pub open spec fn upper_char(c: char) -> char {
    match c {
        'a' => 'A',
        'b' => 'B',
        'c' => 'C',
        'd' => 'D',
        'e' => 'E',
        'f' => 'F',
        'g' => 'G',
        'h' => 'H',
        'i' => 'I',
        'j' => 'J',
        'k' => 'K',
        'l' => 'L',
        'm' => 'M',
        'n' => 'N',
        'o' => 'O',
        'p' => 'P',
        'q' => 'Q',
        'r' => 'R',
        's' => 'S',
        't' => 'T',
        'u' => 'U',
        'v' => 'V',
        'w' => 'W',
        'x' => 'X',
        'y' => 'Y',
        'z' => 'Z',
        _ => c,
    }
}

pub fn to_lower(c: char) -> (r: char)
    ensures
        r == lower_char(c),
{
    match c {
        'A' => 'a',
        'B' => 'b',
        'C' => 'c',
        'D' => 'd',
        'E' => 'e',
        'F' => 'f',
        'G' => 'g',
        'H' => 'h',
        'I' => 'i',
        'J' => 'j',
        'K' => 'k',
        'L' => 'l',
        'M' => 'm',
        'N' => 'n',
        'O' => 'o',
        'P' => 'p',
        'Q' => 'q',
        'R' => 'r',
        'S' => 's',
        'T' => 't',
        'U' => 'u',
        'V' => 'v',
        'W' => 'w',
        'X' => 'x',
        'Y' => 'y',
        'Z' => 'z',
        _ => c,
    }
}

pub fn to_upper(c: char) -> (r: char)
    ensures
        r == upper_char(c),
{
    match c {
        'a' => 'A',
        'b' => 'B',
        'c' => 'C',
        'd' => 'D',
        'e' => 'E',
        'f' => 'F',
        'g' => 'G',
        'h' => 'H',
        'i' => 'I',
        'j' => 'J',
        'k' => 'K',
        'l' => 'L',
        'm' => 'M',
        'n' => 'N',
        'o' => 'O',
        'p' => 'P',
        'q' => 'Q',
        'r' => 'R',
        's' => 'S',
        't' => 'T',
        'u' => 'U',
        'v' => 'V',
        'w' => 'W',
        'x' => 'X',
        'y' => 'Y',
        'z' => 'Z',
        _ => c,
    }
}

/// Case-insensitive (ASCII) equality of two character sequences.
pub open spec fn eq_ignore_case(a: Seq<char>, b: Seq<char>) -> bool {
    a.len() == b.len() && forall|i: int|
        0 <= i < a.len() ==> lower_char(#[trigger] a[i]) == lower_char(b[i])
}

/// Executable case-insensitive comparison matching `eq_ignore_case`.
pub fn chars_eq_ignore_case(a: &Vec<char>, b: &Vec<char>) -> (r: bool)
    ensures
        r == eq_ignore_case(a@, b@),
{
    if a.len() != b.len() {
        return false;
    }
    let mut i: usize = 0;
    while i < a.len()
        invariant
            a@.len() == b@.len(),
            i <= a@.len(),
            forall|j: int| 0 <= j < i ==> lower_char(#[trigger] a@[j]) == lower_char(b@[j]),
        decreases a@.len() - i,
    {
        if to_lower(a[i]) != to_lower(b[i]) {
            return false;
        }
        i = i + 1;
    }
    true
}

/// Every character replaced through `f`-like single substitution: occurrences
/// of `from` become `to`.
pub open spec fn replace_char_spec(s: Seq<char>, from: char, to: char) -> Seq<char> {
    Seq::new(s.len(), |i: int| if s[i] == from {
        to
    } else {
        s[i]
    })
}

/// Replaces every occurrence of one character by another.
pub fn replace_char(s: &Vec<char>, from: char, to: char) -> (r: Vec<char>)
    ensures
        r@ == replace_char_spec(s@, from, to),
{
    let mut r: Vec<char> = Vec::new();
    let mut i: usize = 0;
    while i < s.len()
        invariant
            i <= s@.len(),
            r@.len() == i,
            forall|j: int| 0 <= j < i ==> r@[j] == replace_char_spec(s@, from, to)[j],
        decreases s@.len() - i,
    {
        if s[i] == from {
            r.push(to);
        } else {
            r.push(s[i]);
        }
        i = i + 1;
    }
    proof {
        assert(r@ =~= replace_char_spec(s@, from, to));
    }
    r
}

/// Word separators recognised by `capitalise`.
pub open spec fn is_sep_char(c: char) -> bool {
    c == ' ' || c == '-' || c == '_'
}

pub fn is_sep(c: char) -> (r: bool)
    ensures
        r == is_sep_char(c),
{
    c == ' ' || c == '-' || c == '_'
}

/// End of the word starting at or containing position `i`: the next
/// separator position, or the end of the sequence.
pub open spec fn word_end(s: Seq<char>, i: int) -> int
    decreases s.len() - i,
{
    if i < 0 || i >= s.len() {
        s.len() as int
    } else if is_sep_char(s[i]) {
        i
    } else {
        word_end(s, i + 1)
    }
}

/// Short words that `capitalise` leaves in lower case.
pub open spec fn keep_word(w: Seq<char>) -> bool {
    ||| (w.len() == 1 && w[0] == 'a')
    ||| (w.len() == 3 && w[0] == 'a' && w[1] == 'n' && w[2] == 'd')
    ||| (w.len() == 2 && w[0] == 'a' && w[1] == 't')
    ||| (w.len() == 2 && w[0] == 'i' && w[1] == 's')
    ||| (w.len() == 2 && w[0] == 'o' && w[1] == 'f')
    ||| (w.len() == 2 && w[0] == 't' && w[1] == 'o')
}

/// What `capitalise` makes of the character at position `i`: separators
/// become spaces; the first character of a word outside the keep list is
/// upper-cased; everything else is kept.
pub open spec fn cap_char_at(s: Seq<char>, i: int) -> char {
    if is_sep_char(s[i]) {
        ' '
    } else if (i == 0 || is_sep_char(s[i - 1])) && !keep_word(s.subrange(i, word_end(s, i))) {
        upper_char(s[i])
    } else {
        s[i]
    }
}

/// Title-casing of a phrase, separator by separator and word by word.
pub open spec fn spec_capitalise(s: Seq<char>) -> Seq<char> {
    Seq::new(s.len(), |i: int| cap_char_at(s, i))
}

fn scan_word_end(s: &Vec<char>, from: usize) -> (r: usize)
    requires
        from <= s@.len(),
    ensures
        r == word_end(s@, from as int),
        from <= r <= s@.len(),
    decreases s@.len() - from,
{
    let mut i: usize = from;
    while i < s.len() && !is_sep(s[i])
        invariant
            from <= i <= s@.len(),
            word_end(s@, from as int) == word_end(s@, i as int),
        decreases s@.len() - i,
    {
        i = i + 1;
    }
    i
}

fn is_keep_word_range(s: &Vec<char>, from: usize, to: usize) -> (r: bool)
    requires
        from <= to <= s@.len(),
    ensures
        r == keep_word(s@.subrange(from as int, to as int)),
{
    let n = to - from;
    let ghost w = s@.subrange(from as int, to as int);
    if n == 1 {
        s[from] == 'a'
    } else if n == 2 {
        (s[from] == 'a' && s[from + 1] == 't') || (s[from] == 'i' && s[from + 1] == 's') || (s[from]
            == 'o' && s[from + 1] == 'f') || (s[from] == 't' && s[from + 1] == 'o')
    } else if n == 3 {
        s[from] == 'a' && s[from + 1] == 'n' && s[from + 2] == 'd'
    } else {
        false
    }
}

/// Title-cases a phrase: separators become single spaces and each word
/// outside a small keep list gets an upper-case initial.
pub fn capitalise(title: &str) -> (r: String)
    ensures
        r@ == spec_capitalise(title@),
{
    let v = chars_of(title);
    let mut out: Vec<char> = Vec::new();
    let mut i: usize = 0;
    while i < v.len()
        invariant
            v@ == title@,
            i <= v@.len(),
            out@.len() == i,
            forall|j: int| 0 <= j < i ==> out@[j] == cap_char_at(v@, j),
        decreases v@.len() - i,
    {
        let c = v[i];
        if is_sep(c) {
            out.push(' ');
        } else if i == 0 || is_sep(v[i - 1]) {
            let e = scan_word_end(&v, i);
            if is_keep_word_range(&v, i, e) {
                out.push(c);
            } else {
                out.push(to_upper(c));
            }
        } else {
            out.push(c);
        }
        i = i + 1;
    }
    proof {
        assert(out@ =~= spec_capitalise(title@));
    }
    string_from(&out)
}

} // verus!
