//! Text as sequences of characters: trimming, splitting, searching, decimal
//! numbers, and the case mappings that the rest of the library relies on.

use vstd::prelude::*;

verus! {

// ---------------------------------------------------------------------------
// Characters and strings
// ---------------------------------------------------------------------------

/// `String::push` appends the given character at the end of the string.
pub assume_specification[ String::push ](s: &mut String, c: char)
    ensures
        final(s)@ == old(s)@.push(c),
;

/// The characters of a string, in order.
pub fn to_chars(s: &str) -> (v: Vec<char>)
    ensures
        v@ == s@,
{
    let mut v: Vec<char> = Vec::new();
    for c in it: s.chars()
        invariant
            v@ == it.seq().take(it.index() as int),
            it.seq() == s@,
    {
        v.push(c);
    }
    v
}

/// The string made of the given characters.
pub fn to_text(v: &[char]) -> (s: String)
    ensures
        s@ == v@,
{
    let mut s: String = String::new();
    let n: usize = v.len();
    let mut i: usize = 0;
    while i < n
        invariant
            i <= n,
            n == v@.len(),
            s@ == v@.take(i as int),
        decreases n - i,
    {
        s.push(v[i]);
        i += 1;
        assert(v@.take(i as int) =~= v@.take(i - 1).push(v@[i - 1]));
    }
    assert(v@.take(n as int) =~= v@);
    s
}

/// Whether every character is an ASCII character.
pub open spec fn all_ascii(s: Seq<char>) -> bool {
    forall|i: int| 0 <= i < s.len() ==> (#[trigger] s[i] as u32) < 0x80
}

/// Name for the result of `str::to_lowercase` on a string.
pub uninterp spec fn lowercase(s: Seq<char>) -> Seq<char>;

/// Calls `str::to_lowercase`: the Unicode lower-case mapping of the whole
/// string, which depends on the string alone. Of a string of ASCII characters
/// only the letters change, to their ASCII lower case.
#[verifier::external_body]
pub(crate) fn to_lowercase(s: &str) -> (r: String)
    ensures
        r@ == lowercase(s@),
        all_ascii(s@) ==> r@ == ascii_lower_all(s@),
{
    s.to_lowercase()
}

/// Name for the characters that `char::to_lowercase` yields.
pub uninterp spec fn char_lowercase(c: char) -> Seq<char>;

/// Calls `char::to_lowercase` and gathers what it yields: the Unicode
/// lower-case mapping of one character, which depends on the character alone.
/// Of an ASCII character this is its ASCII lower case.
#[verifier::external_body]
pub(crate) fn char_to_lowercase(c: char) -> (r: Vec<char>)
    ensures
        r@ == char_lowercase(c),
        (c as u32) < 0x80 ==> r@ == seq![ascii_lower(c)],
{
    c.to_lowercase().collect()
}

/// ASCII upper-case of one character; others stay as they are.
pub open spec fn ascii_upper(c: char) -> char {
    if 'a' <= c && c <= 'z' {
        (c as u32 - 32) as char
    } else {
        c
    }
}

/// ASCII lower-case of one character; others stay as they are.
pub open spec fn ascii_lower(c: char) -> char {
    if 'A' <= c && c <= 'Z' {
        (c as u32 + 32) as char
    } else {
        c
    }
}

/// ASCII lower-case of every character.
pub open spec fn ascii_lower_all(s: Seq<char>) -> Seq<char> {
    s.map_values(|c: char| ascii_lower(c))
}

/// ASCII upper-case of every character.
pub open spec fn ascii_upper_all(s: Seq<char>) -> Seq<char> {
    s.map_values(|c: char| ascii_upper(c))
}

fn ascii_upper_char(c: char) -> (r: char)
    ensures
        r == ascii_upper(c),
{
    if 'a' <= c && c <= 'z' {
        ((c as u8) - 32) as char
    } else {
        c
    }
}

fn ascii_lower_char(c: char) -> (r: char)
    ensures
        r == ascii_lower(c),
{
    if 'A' <= c && c <= 'Z' {
        ((c as u8) + 32) as char
    } else {
        c
    }
}

/// Lower-cases the ASCII letters of a text.
pub fn to_ascii_lower(v: &[char]) -> (r: Vec<char>)
    ensures
        r@ == ascii_lower_all(v@),
{
    let mut r: Vec<char> = Vec::new();
    let n: usize = v.len();
    let mut i: usize = 0;
    while i < n
        invariant
            i <= n,
            n == v@.len(),
            r@ == ascii_lower_all(v@.take(i as int)),
        decreases n - i,
    {
        r.push(ascii_lower_char(v[i]));
        i += 1;
        assert(ascii_lower_all(v@.take(i as int)) =~= ascii_lower_all(v@.take(i - 1)).push(
            ascii_lower(v@[i - 1]),
        ));
    }
    assert(v@.take(n as int) =~= v@);
    r
}

/// Upper-cases the ASCII letters of a text.
pub fn to_ascii_upper(v: &[char]) -> (r: Vec<char>)
    ensures
        r@ == ascii_upper_all(v@),
{
    let mut r: Vec<char> = Vec::new();
    let n: usize = v.len();
    let mut i: usize = 0;
    while i < n
        invariant
            i <= n,
            n == v@.len(),
            r@ == ascii_upper_all(v@.take(i as int)),
        decreases n - i,
    {
        r.push(ascii_upper_char(v[i]));
        i += 1;
        assert(ascii_upper_all(v@.take(i as int)) =~= ascii_upper_all(v@.take(i - 1)).push(
            ascii_upper(v@[i - 1]),
        ));
    }
    assert(v@.take(n as int) =~= v@);
    r
}

// ---------------------------------------------------------------------------
// Comparing
// ---------------------------------------------------------------------------

/// Whether two texts are equal.
pub fn same(a: &[char], b: &[char]) -> (r: bool)
    ensures
        r == (a@ == b@),
{
    let n: usize = a.len();
    if n != b.len() {
        return false;
    }
    let mut i: usize = 0;
    while i < n
        invariant
            i <= n,
            n == a@.len(),
            n == b@.len(),
            forall|k: int| 0 <= k < i ==> a@[k] == b@[k],
        decreases n - i,
    {
        if a[i] != b[i] {
            assert(a@[i as int] != b@[i as int]);
            return false;
        }
        i += 1;
    }
    assert(a@ =~= b@);
    true
}

/// Whether a text equals a literal.
pub fn is_literal(a: &[char], literal: &str) -> (r: bool)
    ensures
        r == (a@ == literal@),
{
    let b: Vec<char> = to_chars(literal);
    same(a, b.as_slice())
}

/// Whether `part` stands in `s` at position `at`.
pub open spec fn occurs_at(s: Seq<char>, part: Seq<char>, at: int) -> bool {
    0 <= at && at + part.len() <= s.len() && s.subrange(at, at + part.len()) == part
}

/// Whether `s` begins with `part`.
pub open spec fn begins_with(s: Seq<char>, part: Seq<char>) -> bool {
    occurs_at(s, part, 0)
}

/// Whether `s` ends with `part`.
pub open spec fn finishes_with(s: Seq<char>, part: Seq<char>) -> bool {
    occurs_at(s, part, s.len() - part.len())
}

/// Whether `part` occurs somewhere in `s`.
pub open spec fn contains_text(s: Seq<char>, part: Seq<char>) -> bool {
    exists|at: int| occurs_at(s, part, at)
}

/// Tests for `part` at position `at`.
pub fn text_occurs_at(s: &[char], part: &[char], at: usize) -> (r: bool)
    ensures
        r == occurs_at(s@, part@, at as int),
{
    let n: usize = part.len();
    if at > s.len() || s.len() - at < n {
        return false;
    }
    let mut i: usize = 0;
    while i < n
        invariant
            i <= n,
            n == part@.len(),
            at + n <= s.len(),
            forall|k: int| 0 <= k < i ==> s@[at + k] == part@[k],
        decreases n - i,
    {
        if s[at + i] != part[i] {
            assert(s@.subrange(at as int, at + part@.len())[i as int] != part@[i as int]);
            return false;
        }
        i += 1;
    }
    assert(s@.subrange(at as int, at + part@.len()) =~= part@);
    true
}

/// Tests whether a text begins with a literal.
pub fn starts_with(s: &[char], literal: &str) -> (r: bool)
    ensures
        r == begins_with(s@, literal@),
{
    let part: Vec<char> = to_chars(literal);
    text_occurs_at(s, part.as_slice(), 0)
}

/// Tests whether a text ends with a literal.
pub fn ends_with(s: &[char], literal: &str) -> (r: bool)
    ensures
        r == finishes_with(s@, literal@),
{
    let part: Vec<char> = to_chars(literal);
    if s.len() < part.len() {
        return false;
    }
    text_occurs_at(s, part.as_slice(), s.len() - part.len())
}

/// Tests whether a literal occurs in a text.
pub fn contains_literal(s: &[char], literal: &str) -> (r: bool)
    ensures
        r == contains_text(s@, literal@),
{
    let part: Vec<char> = to_chars(literal);
    let n: usize = s.len();
    let mut at: usize = 0;
    while at < n
        invariant
            at <= n,
            n == s@.len(),
            part@ == literal@,
            forall|k: int| 0 <= k < at ==> !occurs_at(s@, literal@, k),
        decreases n - at,
    {
        if text_occurs_at(s, part.as_slice(), at) {
            return true;
        }
        at += 1;
    }
    text_occurs_at(s, part.as_slice(), n)
}

// ---------------------------------------------------------------------------
// Classes of characters, trimming, searching, splitting
// ---------------------------------------------------------------------------

/// The characters with the Unicode property White_Space.
pub open spec fn is_whitespace(c: char) -> bool {
    let u = c as u32;
    ||| 0x09 <= u <= 0x0d
    ||| u == 0x20
    ||| u == 0x85
    ||| u == 0xa0
    ||| u == 0x1680
    ||| 0x2000 <= u <= 0x200a
    ||| u == 0x2028
    ||| u == 0x2029
    ||| u == 0x202f
    ||| u == 0x205f
    ||| u == 0x3000
}

/// A class of characters to trim off, look for or split at.
#[derive(Clone, Copy)]
pub enum CharClass {
    /// White space.
    Whitespace,
    /// One character.
    Only(char),
    /// What stands between a track number and a title in a file name.
    TitleSeparator,
}

impl CharClass {
    /// Whether the character belongs to the class.
    pub open spec fn has(self, c: char) -> bool {
        match self {
            CharClass::Whitespace => is_whitespace(c),
            CharClass::Only(x) => c == x,
            CharClass::TitleSeparator => c == '.' || c == '_' || c == '-' || c == ' ' || c == '、',
        }
    }

    /// Tests a character for membership.
    pub fn contains(self, c: char) -> (r: bool)
        ensures
            r == self.has(c),
    {
        match self {
            CharClass::Whitespace => {
                let u: u32 = c as u32;
                (0x09 <= u && u <= 0x0d) || u == 0x20 || u == 0x85 || u == 0xa0 || u == 0x1680 || (
                0x2000 <= u && u <= 0x200a) || u == 0x2028 || u == 0x2029 || u == 0x202f || u
                    == 0x205f || u == 0x3000
            },
            CharClass::Only(x) => c == x,
            CharClass::TitleSeparator => c == '.' || c == '_' || c == '-' || c == ' ' || c == '、',
        }
    }
}

/// `s` without the leading characters of the class.
pub open spec fn trim_start(s: Seq<char>, class: CharClass) -> Seq<char>
    decreases s.len(),
{
    if s.len() > 0 && class.has(s[0]) {
        trim_start(s.drop_first(), class)
    } else {
        s
    }
}

/// `s` without the trailing characters of the class.
pub open spec fn trim_end(s: Seq<char>, class: CharClass) -> Seq<char>
    decreases s.len(),
{
    if s.len() > 0 && class.has(s.last()) {
        trim_end(s.drop_last(), class)
    } else {
        s
    }
}

/// `s` without the leading and trailing characters of the class.
pub open spec fn trim(s: Seq<char>, class: CharClass) -> Seq<char> {
    trim_end(trim_start(s, class), class)
}

/// `s` without the white space around it.
pub open spec fn trim_ws(s: Seq<char>) -> Seq<char> {
    trim(s, CharClass::Whitespace)
}

/// The part of a text from `from` up to `to`.
pub fn part(s: &[char], from: usize, to: usize) -> (r: Vec<char>)
    requires
        from <= to <= s@.len(),
    ensures
        r@ == s@.subrange(from as int, to as int),
{
    let mut r: Vec<char> = Vec::new();
    let mut i: usize = from;
    while i < to
        invariant
            from <= i <= to <= s@.len(),
            r@ == s@.subrange(from as int, i as int),
        decreases to - i,
    {
        r.push(s[i]);
        i += 1;
        assert(s@.subrange(from as int, i as int) =~= s@.subrange(from as int, i - 1).push(
            s@[i - 1],
        ));
    }
    r
}

/// Drops the leading characters of the class.
pub fn trimmed_start(s: &[char], class: CharClass) -> (r: Vec<char>)
    ensures
        r@ == trim_start(s@, class),
{
    let n: usize = s.len();
    let mut from: usize = 0;
    assert(s@.skip(0) =~= s@);
    while from < n && class.contains(s[from])
        invariant
            from <= n,
            n == s@.len(),
            trim_start(s@, class) == trim_start(s@.skip(from as int), class),
        decreases n - from,
    {
        assert(s@.skip(from as int).drop_first() =~= s@.skip(from + 1));
        from += 1;
    }
    assert(s@.subrange(from as int, n as int) =~= s@.skip(from as int));
    part(s, from, n)
}

/// Drops the leading and trailing characters of the class.
pub fn trimmed(s: &[char], class: CharClass) -> (r: Vec<char>)
    ensures
        r@ == trim(s@, class),
{
    let n: usize = s.len();
    let mut from: usize = 0;
    assert(s@.skip(0) =~= s@);
    while from < n && class.contains(s[from])
        invariant
            from <= n,
            n == s@.len(),
            trim_start(s@, class) == trim_start(s@.skip(from as int), class),
        decreases n - from,
    {
        assert(s@.skip(from as int).drop_first() =~= s@.skip(from + 1));
        from += 1;
    }
    let mut to: usize = n;
    assert(s@.subrange(from as int, n as int) =~= s@.skip(from as int));
    while from < to && class.contains(s[to - 1])
        invariant
            from <= to <= n,
            n == s@.len(),
            trim(s@, class) == trim_end(s@.subrange(from as int, to as int), class),
        decreases to,
    {
        assert(s@.subrange(from as int, to as int).drop_last() =~= s@.subrange(
            from as int,
            to - 1,
        ));
        to -= 1;
    }
    part(s, from, to)
}

/// Position of the first character of the class at or after `from`, or the
/// length of the text where there is none.
pub open spec fn next_in_class(s: Seq<char>, class: CharClass, from: int) -> int
    decreases s.len() - from,
{
    if 0 <= from < s.len() {
        if class.has(s[from]) {
            from
        } else {
            next_in_class(s, class, from + 1)
        }
    } else {
        s.len() as int
    }
}

/// Looks for the first character of the class at or after `from`.
pub fn find_in_class(s: &[char], class: CharClass, from: usize) -> (r: usize)
    requires
        from <= s@.len(),
    ensures
        r == next_in_class(s@, class, from as int),
        from <= r <= s@.len(),
        r < s@.len() ==> class.has(s@[r as int]),
        forall|k: int| from <= k < r ==> !class.has(s@[k]),
{
    let n: usize = s.len();
    let mut i: usize = from;
    while i < n && !class.contains(s[i])
        invariant
            from <= i <= n,
            n == s@.len(),
            next_in_class(s@, class, from as int) == next_in_class(s@, class, i as int),
            forall|k: int| from <= k < i ==> !class.has(s@[k]),
        decreases n - i,
    {
        i += 1;
    }
    i
}

/// Position of the last character of the class, if there is one.
pub open spec fn last_in_class(s: Seq<char>, class: CharClass) -> Option<int>
    decreases s.len(),
{
    if s.len() == 0 {
        None
    } else if class.has(s.last()) {
        Some(s.len() - 1)
    } else {
        last_in_class(s.drop_last(), class)
    }
}

/// Looks for the last character of the class.
pub fn rfind_in_class(s: &[char], class: CharClass) -> (r: Option<usize>)
    ensures
        match r {
            Some(i) => i < s@.len() && last_in_class(s@, class) == Some(i as int),
            None => last_in_class(s@, class) is None,
        },
{
    let mut i: usize = s.len();
    assert(s@.take(i as int) =~= s@);
    while i > 0
        invariant
            i <= s@.len(),
            last_in_class(s@, class) == last_in_class(s@.take(i as int), class),
        decreases i,
    {
        assert(s@.take(i as int).drop_last() =~= s@.take(i - 1));
        if class.contains(s[i - 1]) {
            return Some(i - 1);
        }
        i -= 1;
    }
    None
}

/// The pieces of `s` between the occurrences of a character, from `from` on.
pub open spec fn split_from(s: Seq<char>, at: char, from: int) -> Seq<Seq<char>>
    decreases s.len() - from,
{
    let stop = next_in_class(s, CharClass::Only(at), from);
    if 0 <= from <= stop < s.len() {
        seq![s.subrange(from, stop)] + split_from(s, at, stop + 1)
    } else {
        seq![s.subrange(from, s.len() as int)]
    }
}

/// The pieces of `s` between the occurrences of a character.
pub open spec fn split(s: Seq<char>, at: char) -> Seq<Seq<char>> {
    split_from(s, at, 0)
}

/// The texts that a vector of texts holds.
pub open spec fn texts(v: Seq<Vec<char>>) -> Seq<Seq<char>> {
    v.map_values(|t: Vec<char>| t@)
}

/// Splits a text at every occurrence of a character.
pub fn split_at_char(s: &[char], at: char) -> (r: Vec<Vec<char>>)
    ensures
        texts(r@) == split(s@, at),
        r@.len() >= 1,
{
    let mut r: Vec<Vec<char>> = Vec::new();
    let n: usize = s.len();
    let mut from: usize = 0;
    assert(texts(r@) + split_from(s@, at, 0) =~= split(s@, at));
    loop
        invariant
            from <= n,
            n == s@.len(),
            texts(r@) + split_from(s@, at, from as int) == split(s@, at),
        decreases n - from,
    {
        let stop: usize = find_in_class(s, CharClass::Only(at), from);
        let piece: Vec<char> = part(s, from, stop);
        let ghost before = texts(r@);
        r.push(piece);
        assert(texts(r@) =~= before.push(piece@));
        if stop == n {
            assert(texts(r@) =~= split(s@, at));
            return r;
        }
        proof {
            assert(split_from(s@, at, from as int) == seq![piece@] + split_from(
                s@,
                at,
                stop + 1,
            ));
            assert(before + (seq![piece@] + split_from(s@, at, stop + 1)) =~= texts(r@)
                + split_from(s@, at, stop + 1));
        }
        from = stop + 1;
    }
}

/// Whether `c` occurs in `s`: the parts before and after its first occurrence.
pub open spec fn split_once(s: Seq<char>, c: char) -> Option<(Seq<char>, Seq<char>)> {
    let stop = next_in_class(s, CharClass::Only(c), 0);
    if stop < s.len() {
        Some((s.subrange(0, stop), s.subrange(stop + 1, s.len() as int)))
    } else {
        None
    }
}

/// Splits a text at the first occurrence of a character.
pub fn split_once_at(s: &[char], c: char) -> (r: Option<(Vec<char>, Vec<char>)>)
    ensures
        match r {
            Some((a, b)) => split_once(s@, c) == Some((a@, b@)),
            None => split_once(s@, c) is None,
        },
{
    let stop: usize = find_in_class(s, CharClass::Only(c), 0);
    if stop < s.len() {
        Some((part(s, 0, stop), part(s, stop + 1, s.len())))
    } else {
        None
    }
}

/// The words of `s`: its longest pieces without white space, from `from` on.
pub open spec fn words_from(s: Seq<char>, from: int) -> Seq<Seq<char>>
    decreases s.len() - from,
{
    if 0 <= from < s.len() {
        if is_whitespace(s[from]) {
            words_from(s, from + 1)
        } else {
            let stop = next_in_class(s, CharClass::Whitespace, from);
            if from < stop <= s.len() {
                seq![s.subrange(from, stop)] + words_from(s, stop)
            } else {
                Seq::empty()
            }
        }
    } else {
        Seq::empty()
    }
}

/// The words of `s`.
pub open spec fn words(s: Seq<char>) -> Seq<Seq<char>> {
    words_from(s, 0)
}

/// Splits a text into its words.
pub fn split_words(s: &[char]) -> (r: Vec<Vec<char>>)
    ensures
        texts(r@) == words(s@),
{
    let mut r: Vec<Vec<char>> = Vec::new();
    let n: usize = s.len();
    let mut from: usize = 0;
    assert(texts(r@) + words_from(s@, 0) =~= words(s@));
    while from < n
        invariant
            from <= n,
            n == s@.len(),
            texts(r@) + words_from(s@, from as int) == words(s@),
        decreases n - from,
    {
        if CharClass::Whitespace.contains(s[from]) {
            from += 1;
        } else {
            let stop: usize = find_in_class(s, CharClass::Whitespace, from);
            let piece: Vec<char> = part(s, from, stop);
            let ghost before = texts(r@);
            r.push(piece);
            assert(texts(r@) =~= before.push(piece@));
            assert(before + (seq![piece@] + words_from(s@, stop as int)) =~= texts(r@)
                + words_from(s@, stop as int));
            from = stop;
        }
    }
    assert(texts(r@) + words_from(s@, n as int) =~= texts(r@));
    r
}

/// `s` with every occurrence of one character replaced by another.
pub open spec fn replace_char(s: Seq<char>, from: char, to: char) -> Seq<char> {
    s.map_values(|c: char| if c == from { to } else { c })
}

/// Replaces every occurrence of one character by another.
pub fn replaced(s: &[char], from: char, to: char) -> (r: Vec<char>)
    ensures
        r@ == replace_char(s@, from, to),
{
    let mut r: Vec<char> = Vec::new();
    let n: usize = s.len();
    let mut i: usize = 0;
    while i < n
        invariant
            i <= n,
            n == s@.len(),
            r@ == replace_char(s@.take(i as int), from, to),
        decreases n - i,
    {
        let c: char = s[i];
        r.push(if c == from { to } else { c });
        i += 1;
        assert(replace_char(s@.take(i as int), from, to) =~= replace_char(
            s@.take(i - 1),
            from,
            to,
        ).push(if s@[i - 1] == from { to } else { s@[i - 1] }));
    }
    assert(s@.take(n as int) =~= s@);
    r
}

/// Appends a text to another.
pub fn append(to: &mut Vec<char>, more: &[char])
    ensures
        final(to)@ == old(to)@ + more@,
{
    let n: usize = more.len();
    let mut i: usize = 0;
    let ghost start = to@;
    while i < n
        invariant
            i <= n,
            n == more@.len(),
            to@ == start + more@.take(i as int),
        decreases n - i,
    {
        to.push(more[i]);
        i += 1;
        assert(start + more@.take(i as int) =~= (start + more@.take(i - 1)).push(more@[i - 1]));
    }
    assert(more@.take(n as int) =~= more@);
    assert(start + more@.take(0) =~= start);
}

/// Appends a literal to a text.
pub fn append_literal(to: &mut Vec<char>, literal: &str)
    ensures
        final(to)@ == old(to)@ + literal@,
{
    let more: Vec<char> = to_chars(literal);
    append(to, more.as_slice());
}

/// A copy of a text.
pub fn copied(s: &str) -> (r: String)
    ensures
        r@ == s@,
{
    let chars: Vec<char> = to_chars(s);
    to_text(chars.as_slice())
}

// ---------------------------------------------------------------------------
// Laws
// ---------------------------------------------------------------------------

/// A search ends at the first character of the class, or at the end of the text.
pub proof fn law_search_ends_at_the_first(s: Seq<char>, class: CharClass, from: int)
    requires
        0 <= from <= s.len(),
    ensures
        from <= next_in_class(s, class, from) <= s.len(),
        next_in_class(s, class, from) < s.len() ==> class.has(s[next_in_class(s, class, from)]),
        forall|k: int| from <= k < next_in_class(s, class, from) ==> !class.has(#[trigger] s[k]),
    decreases s.len() - from,
{
    if from < s.len() && !class.has(s[from]) {
        law_search_ends_at_the_first(s, class, from + 1);
    }
}

/// A place with no character of the class before it, and one at it or the end of
/// the text, is where a search ends.
pub proof fn lemma_search_ends(s: Seq<char>, class: CharClass, from: int, stop: int)
    requires
        0 <= from <= stop <= s.len(),
        forall|k: int| from <= k < stop ==> !class.has(#[trigger] s[k]),
        stop < s.len() ==> class.has(s[stop]),
    ensures
        next_in_class(s, class, from) == stop,
    decreases stop - from,
{
    if from < stop {
        assert(!class.has(s[from]));
        lemma_search_ends(s, class, from + 1, stop);
    }
}

/// A search from the back ends at the last character of the class; there is none
/// where the text holds none.
pub proof fn law_search_back_ends_at_the_last(s: Seq<char>, class: CharClass)
    ensures
        match last_in_class(s, class) {
            Some(i) => {
                &&& 0 <= i < s.len()
                &&& class.has(s[i])
                &&& forall|k: int| i < k < s.len() ==> !class.has(#[trigger] s[k])
            },
            None => forall|k: int| 0 <= k < s.len() ==> !class.has(#[trigger] s[k]),
        },
    decreases s.len(),
{
    if s.len() > 0 && !class.has(s.last()) {
        law_search_back_ends_at_the_last(s.drop_last(), class);
        assert forall|k: int| 0 <= k < s.len() - 1 implies s.drop_last()[k] == #[trigger] s[k] by {}
    }
}

/// Trimming leaves the longest piece of a text that neither begins nor ends with a
/// character of the class: what is taken off on both sides is of the class.
pub proof fn law_trimming_takes_off_the_ends(s: Seq<char>, class: CharClass) -> (at: int)
    ensures
        0 <= at,
        at + trim(s, class).len() <= s.len(),
        trim(s, class) == s.subrange(at, at + trim(s, class).len()),
        forall|k: int| 0 <= k < at ==> class.has(#[trigger] s[k]),
        forall|k: int| at + trim(s, class).len() <= k < s.len() ==> class.has(#[trigger] s[k]),
        trim(s, class).len() > 0 ==> !class.has(trim(s, class)[0]) && !class.has(
            trim(s, class).last(),
        ),
    decreases s.len(),
{
    if s.len() > 0 && class.has(s[0]) {
        let rest = s.drop_first();
        let at = law_trimming_takes_off_the_ends(rest, class);
        let t = trim(s, class);
        assert forall|k: int| 0 <= k < at + 1 implies class.has(#[trigger] s[k]) by {
            if k > 0 {
                assert(class.has(rest[k - 1]));
            }
        }
        assert forall|k: int| at + 1 + t.len() <= k < s.len() implies class.has(#[trigger] s[k]) by {
            assert(class.has(rest[k - 1]));
        }
        assert(t =~= s.subrange(at + 1, at + 1 + t.len()));
        at + 1
    } else {
        lemma_trim_end_prefix(s, class);
        0
    }
}

proof fn lemma_trim_end_prefix(s: Seq<char>, class: CharClass)
    ensures
        trim_end(s, class).len() <= s.len(),
        trim_end(s, class) == s.subrange(0, trim_end(s, class).len() as int),
        forall|k: int| trim_end(s, class).len() <= k < s.len() ==> class.has(#[trigger] s[k]),
        trim_end(s, class).len() > 0 ==> !class.has(trim_end(s, class).last()),
    decreases s.len(),
{
    if s.len() > 0 && class.has(s.last()) {
        let rest = s.drop_last();
        lemma_trim_end_prefix(rest, class);
        let t = trim_end(s, class);
        assert forall|k: int| t.len() <= k < s.len() implies class.has(#[trigger] s[k]) by {
            if k < s.len() - 1 {
                assert(class.has(rest[k]));
            }
        }
        assert(t =~= s.subrange(0, t.len() as int));
    } else {
        assert(s =~= s.subrange(0, s.len() as int));
    }
}

/// What stands between characters of the class, and neither begins nor ends with
/// one, is what trimming leaves.
pub proof fn law_trimming_leaves_the_core(
    before: Seq<char>,
    core: Seq<char>,
    after: Seq<char>,
    class: CharClass,
)
    requires
        forall|k: int| 0 <= k < before.len() ==> class.has(#[trigger] before[k]),
        forall|k: int| 0 <= k < after.len() ==> class.has(#[trigger] after[k]),
        core.len() > 0 ==> !class.has(core[0]) && !class.has(core.last()),
    ensures
        trim(before + core + after, class) == core,
{
    let s = before + core + after;
    let at = law_trimming_takes_off_the_ends(s, class);
    let t = trim(s, class);
    let b = before.len() as int;
    let n = core.len() as int;
    if n > 0 {
        assert(s[b] == core[0] && s[b + n - 1] == core.last());
        if t.len() == 0 {
            assert(class.has(s[b]));
        }
        assert(t[0] == s[at] && t.last() == s[at + t.len() - 1]);
        if at < b {
            assert(s[at] == before[at]);
        }
        if at + t.len() > b + n {
            assert(s[at + t.len() - 1] == after[at + t.len() - 1 - b - n]);
        }
        assert(at == b && at + t.len() == b + n);
        assert(t =~= core);
    } else {
        if t.len() > 0 {
            assert(t[0] == s[at]);
            if at < b {
                assert(s[at] == before[at]);
            } else {
                assert(s[at] == after[at - b]);
            }
        }
        assert(t =~= core);
    }
}

/// Pieces with a character between each two.
pub open spec fn glued(pieces: Seq<Seq<char>>, with: char) -> Seq<char>
    decreases pieces.len(),
{
    if pieces.len() == 0 {
        Seq::empty()
    } else if pieces.len() == 1 {
        pieces[0]
    } else {
        pieces[0] + seq![with] + glued(pieces.drop_first(), with)
    }
}

/// Splitting takes the separators away and nothing else: with them between, the
/// pieces are the text again, and no piece holds one.
pub proof fn law_split_pieces_make_the_text(s: Seq<char>, at: char)
    ensures
        split(s, at).len() >= 1,
        glued(split(s, at), at) == s,
        forall|i: int, k: int|
            0 <= i < split(s, at).len() && 0 <= k < split(s, at)[i].len()
                ==> #[trigger] split(s, at)[i][k] != at,
{
    lemma_split_from_makes(s, at, 0);
    assert(s.skip(0) =~= s);
}

proof fn lemma_split_from_makes(s: Seq<char>, at: char, from: int)
    requires
        0 <= from <= s.len(),
    ensures
        split_from(s, at, from).len() >= 1,
        glued(split_from(s, at, from), at) == s.skip(from),
        forall|i: int, k: int|
            0 <= i < split_from(s, at, from).len() && 0 <= k < split_from(s, at, from)[i].len()
                ==> #[trigger] split_from(s, at, from)[i][k] != at,
    decreases s.len() - from,
{
    let class = CharClass::Only(at);
    law_search_ends_at_the_first(s, class, from);
    let stop = next_in_class(s, class, from);
    let pieces = split_from(s, at, from);
    if stop < s.len() {
        lemma_split_from_makes(s, at, stop + 1);
        let rest = split_from(s, at, stop + 1);
        assert(pieces.drop_first() =~= rest);
        assert(glued(pieces, at) =~= s.skip(from));
        assert forall|i: int, k: int|
            0 <= i < pieces.len() && 0 <= k < pieces[i].len() implies #[trigger] pieces[i][k] != at by {
            if i == 0 {
                assert(!class.has(s[from + k]));
            } else {
                assert(pieces[i] == rest[i - 1]);
                assert(rest[i - 1][k] != at);
            }
        }
    } else {
        assert(pieces[0] =~= s.skip(from));
        assert forall|i: int, k: int|
            0 <= i < pieces.len() && 0 <= k < pieces[i].len() implies #[trigger] pieces[i][k] != at by {
            assert(!class.has(s[from + k]));
        }
    }
}

/// What stands before the first separator is the first piece, and the others are
/// those of the rest.
pub proof fn law_split_takes_off_the_first_piece(head: Seq<char>, rest: Seq<char>, at: char)
    requires
        forall|k: int| 0 <= k < head.len() ==> #[trigger] head[k] != at,
    ensures
        split(head + seq![at] + rest, at) == seq![head] + split(rest, at),
        split(head, at) == seq![head],
{
    let class = CharClass::Only(at);
    let all = head + seq![at] + rest;
    let n = head.len() as int;
    assert forall|k: int| 0 <= k < n implies !class.has(#[trigger] all[k]) by {
        assert(all[k] == head[k]);
    }
    lemma_search_ends(all, class, 0, n);
    assert(all.subrange(0, n) =~= head);
    lemma_split_shifts(all, rest, at, n + 1, 0);
    lemma_search_ends(head, class, 0, n);
    assert(head.subrange(0, n) =~= head);
}

proof fn lemma_split_shifts(all: Seq<char>, rest: Seq<char>, at: char, by: int, from: int)
    requires
        0 <= by,
        0 <= from <= rest.len(),
        all.len() == by + rest.len(),
        forall|i: int| 0 <= i < rest.len() ==> all[by + i] == #[trigger] rest[i],
    ensures
        split_from(all, at, by + from) == split_from(rest, at, from),
    decreases rest.len() - from,
{
    let class = CharClass::Only(at);
    lemma_search_shifts(all, rest, class, by, from);
    law_search_ends_at_the_first(rest, class, from);
    let stop = next_in_class(rest, class, from);
    if stop < rest.len() {
        assert(all.subrange(by + from, by + stop) =~= rest.subrange(from, stop));
        lemma_split_shifts(all, rest, at, by, stop + 1);
    } else {
        assert(all.subrange(by + from, all.len() as int) =~= rest.subrange(
            from,
            rest.len() as int,
        ));
    }
}

/// A search in the end of a text is a search in the text from there on.
pub proof fn lemma_search_shifts(
    all: Seq<char>,
    rest: Seq<char>,
    class: CharClass,
    by: int,
    from: int,
)
    requires
        0 <= by,
        0 <= from <= rest.len(),
        all.len() == by + rest.len(),
        forall|i: int| 0 <= i < rest.len() ==> all[by + i] == #[trigger] rest[i],
    ensures
        next_in_class(all, class, by + from) == by + next_in_class(rest, class, from),
    decreases rest.len() - from,
{
    if from < rest.len() {
        assert(all[by + from] == rest[from]);
        if !class.has(rest[from]) {
            lemma_search_shifts(all, rest, class, by, from + 1);
        }
    }
}

/// What stands behind the last separator is the last piece, and the others are
/// those of what stands before it.
pub proof fn law_split_takes_off_the_last_piece(front: Seq<char>, last: Seq<char>, at: char)
    requires
        forall|k: int| 0 <= k < last.len() ==> #[trigger] last[k] != at,
    ensures
        split(front + seq![at] + last, at) == split(front, at).push(last),
    decreases front.len(),
{
    let class = CharClass::Only(at);
    law_search_ends_at_the_first(front, class, 0);
    let stop = next_in_class(front, class, 0);
    if stop < front.len() {
        let head = front.take(stop);
        let rest = front.skip(stop + 1);
        assert forall|k: int| 0 <= k < head.len() implies #[trigger] head[k] != at by {
            assert(!class.has(front[k]));
        }
        assert(front =~= head + seq![at] + rest);
        law_split_takes_off_the_first_piece(head, rest, at);
        law_split_takes_off_the_first_piece(head, rest + seq![at] + last, at);
        law_split_takes_off_the_last_piece(rest, last, at);
        assert(front + seq![at] + last =~= head + seq![at] + (rest + seq![at] + last));
        assert(seq![head] + split(rest, at).push(last) =~= (seq![head] + split(rest, at)).push(
            last,
        ));
    } else {
        assert forall|k: int| 0 <= k < front.len() implies #[trigger] front[k] != at by {
            assert(!class.has(front[k]));
        }
        law_split_takes_off_the_first_piece(front, last, at);
        law_split_takes_off_the_first_piece(last, last, at);
        assert(seq![front] + seq![last] =~= seq![front].push(last));
    }
}

/// A text that is cut once is cut at the first separator, and not at all where it
/// has none.
pub proof fn law_cut_is_at_the_first(head: Seq<char>, rest: Seq<char>, at: char)
    requires
        forall|k: int| 0 <= k < head.len() ==> #[trigger] head[k] != at,
    ensures
        split_once(head + seq![at] + rest, at) == Some((head, rest)),
        split_once(head, at) is None,
{
    let class = CharClass::Only(at);
    let all = head + seq![at] + rest;
    let n = head.len() as int;
    assert forall|k: int| 0 <= k < n implies !class.has(#[trigger] all[k]) by {
        assert(all[k] == head[k]);
    }
    lemma_search_ends(all, class, 0, n);
    lemma_search_ends(head, class, 0, n);
    assert(all.subrange(0, n) =~= head);
    assert(all.subrange(n + 1, all.len() as int) =~= rest);
}

/// A text is found where it stands: whatever is around it, it occurs; at the
/// front of a text that text begins with it, at the back it ends with it.
pub proof fn law_a_text_is_found_where_it_stands(
    before: Seq<char>,
    part: Seq<char>,
    after: Seq<char>,
)
    ensures
        contains_text(before + part + after, part),
        occurs_at(before + part + after, part, before.len() as int),
        begins_with(part + after, part),
        finishes_with(before + part, part),
{
    let all = before + part + after;
    let b = before.len() as int;
    assert(all.subrange(b, b + part.len()) =~= part);
    assert(occurs_at(all, part, b));
    assert((part + after).subrange(0, part.len() as int) =~= part);
    assert((before + part).subrange(b, b + part.len()) =~= part);
}

/// What is found in a text is a part of it.
pub proof fn law_a_found_text_is_a_part(s: Seq<char>, part: Seq<char>)
    requires
        contains_text(s, part),
    ensures
        exists|before: Seq<char>, after: Seq<char>| s == #[trigger] (before + part + after),
{
    let at = choose|at: int| occurs_at(s, part, at);
    let before = s.take(at);
    let after = s.skip(at + part.len());
    assert(s =~= before + part + after);
}

/// Replacing a character changes no other and leaves none of it.
pub proof fn law_replacing_changes_one_character(s: Seq<char>, from: char, to: char)
    ensures
        replace_char(s, from, to).len() == s.len(),
        forall|i: int|
            0 <= i < s.len() && s[i] != from ==> #[trigger] replace_char(s, from, to)[i] == s[i],
        forall|i: int|
            0 <= i < s.len() && s[i] == from ==> #[trigger] replace_char(s, from, to)[i] == to,
{
}

/// The first word of a text ends at the first white space behind it; the others
/// are the words of the rest. White space alone holds no word.
pub proof fn law_words_take_off_the_first_word(
    gap: Seq<char>,
    word: Seq<char>,
    rest: Seq<char>,
)
    requires
        forall|k: int| 0 <= k < gap.len() ==> is_whitespace(#[trigger] gap[k]),
        forall|k: int| 0 <= k < word.len() ==> !is_whitespace(#[trigger] word[k]),
        word.len() > 0,
        rest.len() > 0 ==> is_whitespace(rest[0]),
    ensures
        words(gap + word + rest) == seq![word] + words(rest),
        words(gap) == Seq::<Seq<char>>::empty(),
{
    let all = gap + word + rest;
    let g = gap.len() as int;
    let w = word.len() as int;
    assert forall|k: int| 0 <= k < g implies is_whitespace(#[trigger] all[k]) by {
        assert(all[k] == gap[k]);
    }
    lemma_words_skip(all, 0, g);
    lemma_words_skip(gap, 0, g);
    let class = CharClass::Whitespace;
    assert forall|k: int| g <= k < g + w implies !class.has(#[trigger] all[k]) by {
        assert(all[k] == word[k - g]);
    }
    if rest.len() > 0 {
        assert(all[g + w] == rest[0]);
    }
    lemma_search_ends(all, class, g, g + w);
    assert(!class.has(all[g]));
    assert(all.subrange(g, g + w) =~= word);
    lemma_words_shift(all, rest, g + w, 0);
}

proof fn lemma_words_skip(s: Seq<char>, from: int, to: int)
    requires
        0 <= from <= to <= s.len(),
        forall|k: int| from <= k < to ==> is_whitespace(#[trigger] s[k]),
    ensures
        words_from(s, from) == words_from(s, to),
    decreases to - from,
{
    if from < to {
        assert(is_whitespace(s[from]));
        lemma_words_skip(s, from + 1, to);
    }
}

proof fn lemma_words_shift(all: Seq<char>, rest: Seq<char>, by: int, from: int)
    requires
        0 <= by,
        0 <= from <= rest.len(),
        all.len() == by + rest.len(),
        forall|i: int| 0 <= i < rest.len() ==> all[by + i] == #[trigger] rest[i],
    ensures
        words_from(all, by + from) == words_from(rest, from),
    decreases rest.len() - from,
{
    let class = CharClass::Whitespace;
    if from < rest.len() {
        assert(all[by + from] == rest[from]);
        if is_whitespace(rest[from]) {
            lemma_words_shift(all, rest, by, from + 1);
        } else {
            lemma_search_shifts(all, rest, class, by, from);
            law_search_ends_at_the_first(rest, class, from);
            let stop = next_in_class(rest, class, from);
            assert(all.subrange(by + from, by + stop) =~= rest.subrange(from, stop));
            assert(from < stop) by {
                if from == stop {
                    assert(class.has(rest[from]));
                }
            }
            lemma_words_shift(all, rest, by, stop);
        }
    }
}

/// Upper and lower case of letters undo each other, and other characters stay as
/// they are.
pub proof fn law_case_of_letters(c: char)
    ensures
        'a' <= c && c <= 'z' ==> 'A' <= ascii_upper(c) && ascii_upper(c) <= 'Z' && ascii_lower(
            ascii_upper(c),
        ) == c && ascii_upper(c) as int + 32 == c as int,
        'A' <= c && c <= 'Z' ==> 'a' <= ascii_lower(c) && ascii_lower(c) <= 'z' && ascii_upper(
            ascii_lower(c),
        ) == c && ascii_lower(c) as int == c as int + 32,
        !('a' <= c && c <= 'z') ==> ascii_upper(c) == c,
        !('A' <= c && c <= 'Z') ==> ascii_lower(c) == c,
{
}

/// Taking off a front of a class leaves what stands behind it.
pub proof fn law_a_front_is_taken_off(front: Seq<char>, core: Seq<char>, class: CharClass)
    requires
        forall|k: int| 0 <= k < front.len() ==> class.has(#[trigger] front[k]),
        core.len() == 0 || !class.has(core[0]),
    ensures
        trim_start(front + core, class) == core,
    decreases front.len(),
{
    let s = front + core;
    if front.len() > 0 {
        assert(class.has(front[0]) && s[0] == front[0]);
        assert forall|k: int| 0 <= k < front.len() - 1 implies class.has(
            #[trigger] front.drop_first()[k],
        ) by {
            assert(front.drop_first()[k] == front[k + 1]);
        }
        law_a_front_is_taken_off(front.drop_first(), core, class);
        assert(s.drop_first() =~= front.drop_first() + core);
    } else {
        assert(s =~= core);
    }
}

/// White space is the characters that Unicode calls so; a title is set off from its
/// number by a dot, a line, a blank or an enumeration comma.
pub proof fn law_classes_have_their_characters(c: char)
    ensures
        CharClass::Whitespace.has(c) <==> {
            ||| c == ' ' || c == '\t' || c == '\n' || c == '\r'
            ||| c == '\u{b}' || c == '\u{c}' || c == '\u{85}' || c == '\u{a0}'
            ||| c == '\u{1680}' || c == '\u{2028}' || c == '\u{2029}' || c == '\u{202f}'
            ||| c == '\u{205f}' || c == '\u{3000}'
            ||| '\u{2000}' <= c && c <= '\u{200a}'
        },
        CharClass::TitleSeparator.has(c) <==> c == '.' || c == '_' || c == '-' || c == ' ' || c
            == '\u{3001}',
{
}

} // verus!
