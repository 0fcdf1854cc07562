//! Characters and texts: the classes of characters that the grammars of this
//! library speak of, and a text as the sequence of its characters.

use vstd::prelude::*;

verus! {

/// Whether `c` is white space: a character with the Unicode property
/// `White_Space`.
pub open spec fn is_white_space(c: char) -> bool {
    let u = c as u32;
    ||| 0x09 <= u <= 0x0D
    ||| u == 0x20
    ||| u == 0x85
    ||| u == 0xA0
    ||| u == 0x1680
    ||| 0x2000 <= u <= 0x200A
    ||| u == 0x2028
    ||| u == 0x2029
    ||| u == 0x202F
    ||| u == 0x205F
    ||| u == 0x3000
}

/// Whether `c` is one of the ten digits `0` to `9`.
pub open spec fn is_digit(c: char) -> bool {
    '0' <= c <= '9'
}

/// Whether `c` is an ASCII letter, of either case.
pub open spec fn is_letter(c: char) -> bool {
    'a' <= c <= 'z' || 'A' <= c <= 'Z'
}

/// Whether `c` may stand in a label of a host name: an ASCII letter, a digit,
/// `-` or `_`.
pub open spec fn is_label_char(c: char) -> bool {
    is_letter(c) || is_digit(c) || c == '-' || c == '_'
}

/// Whether `c` may follow a directive without changing it: white space or `;`.
pub open spec fn is_padding(c: char) -> bool {
    is_white_space(c) || c == ';'
}

/// The code of `c` with an ASCII capital letter replaced by its small letter.
pub open spec fn ascii_lower(c: char) -> int {
    if 'A' <= c <= 'Z' {
        c as u32 + 32
    } else {
        c as u32 as int
    }
}

/// Whether `a` and `b` are the same character once the case of ASCII letters
/// is set aside.
pub open spec fn same_ignoring_ascii_case(a: char, b: char) -> bool {
    ascii_lower(a) == ascii_lower(b)
}

/// A class of characters that a scanner can run over.
#[derive(Clone, Copy, Debug, PartialEq, Eq)]
pub enum CharClass {
    /// White space.
    Whitespace,
    /// The digits `0` to `9`.
    Digit,
    /// The characters of a host name's label.
    Label,
}

impl CharClass {
    /// Whether `c` belongs to the class.
    pub open spec fn holds(self, c: char) -> bool {
        match self {
            CharClass::Whitespace => is_white_space(c),
            CharClass::Digit => is_digit(c),
            CharClass::Label => is_label_char(c),
        }
    }

    /// Whether `c` belongs to the class.
    pub fn contains(&self, c: char) -> (b: bool)
        ensures
            b == self.holds(c),
    {
        match self {
            CharClass::Whitespace => is_whitespace(c),
            CharClass::Digit => is_ascii_digit(c),
            CharClass::Label => is_alnum_or_hyphen(c),
        }
    }
}

/// Whether `c` is white space.
pub fn is_whitespace(c: char) -> (b: bool)
    ensures
        b == is_white_space(c),
{
    let u: u32 = c as u32;
    (0x09 <= u && u <= 0x0D) || u == 0x20 || u == 0x85 || u == 0xA0 || u == 0x1680 || (0x2000 <= u
        && u <= 0x200A) || u == 0x2028 || u == 0x2029 || u == 0x202F || u == 0x205F || u == 0x3000
}

/// Whether `c` is a digit.
pub fn is_ascii_digit(c: char) -> (b: bool)
    ensures
        b == is_digit(c),
{
    '0' <= c && c <= '9'
}

/// Whether `c` is an ASCII letter, a digit, `-` or `_`.
pub fn is_alnum_or_hyphen(c: char) -> (b: bool)
    ensures
        b == is_label_char(c),
{
    ('a' <= c && c <= 'z') || ('A' <= c && c <= 'Z') || ('0' <= c && c <= '9') || c == '-' || c
        == '_'
}

/// Whether `c` is white space or `;`.
pub fn is_padding_char(c: char) -> (b: bool)
    ensures
        b == is_padding(c),
{
    is_whitespace(c) || c == ';'
}

/// Whether `a` and `b` differ at most in the case of an ASCII letter.
pub fn eq_ignore_ascii_case(a: char, b: char) -> (same: bool)
    ensures
        same == same_ignoring_ascii_case(a, b),
{
    let x: u32 = a as u32;
    let y: u32 = b as u32;
    let lx: u32 = if 'A' <= a && a <= 'Z' {
        x + 32
    } else {
        x
    };
    let ly: u32 = if 'A' <= b && b <= 'Z' {
        y + 32
    } else {
        y
    };
    lx == ly
}

/// The characters of `s`, in order.
pub fn chars_of(s: &str) -> (v: Vec<char>)
    ensures
        v@ == s@,
{
    let mut v: Vec<char> = Vec::new();
    for c in it: s.chars()
        invariant
            it.seq() == s@,
            v@ == it.seq().take(it.index() as int),
    {
        v.push(c);
        assert(it.seq().take(it.index() + 1) =~= it.seq().take(it.index() as int).push(c));
    }
    assert(v@ =~= s@);
    v
}

/// Where the run of characters of `class` that begins at `i` ends: the first
/// position from `i` on that holds no character of the class, or the end of
/// the text.
pub open spec fn scan_while(s: Seq<char>, i: int, class: CharClass) -> int
    decreases s.len() - i,
{
    if 0 <= i < s.len() && class.holds(s[i]) {
        scan_while(s, i + 1, class)
    } else {
        i
    }
}

/// A run ends at or after its start and within the text; it holds characters
/// of the class only, and the character after it, if there is one, is not of
/// the class.
pub proof fn lemma_scan_while(s: Seq<char>, i: int, class: CharClass)
    requires
        0 <= i <= s.len(),
    ensures
        i <= scan_while(s, i, class) <= s.len(),
        forall|k: int| i <= k < scan_while(s, i, class) ==> class.holds(#[trigger] s[k]),
        scan_while(s, i, class) < s.len() ==> !class.holds(s[scan_while(s, i, class)]),
    decreases s.len() - i,
{
    if i < s.len() && class.holds(s[i]) {
        lemma_scan_while(s, i + 1, class);
    }
}

/// A position `j` from `i` on is where the run from `i` ends as soon as
/// everything before it is of the class and what stands at it is not.
pub proof fn lemma_scan_while_is(s: Seq<char>, i: int, class: CharClass, j: int)
    requires
        0 <= i <= j <= s.len(),
        forall|k: int| i <= k < j ==> class.holds(#[trigger] s[k]),
        j < s.len() ==> !class.holds(s[j]),
    ensures
        scan_while(s, i, class) == j,
    decreases j - i,
{
    if i < j {
        lemma_scan_while_is(s, i + 1, class, j);
    }
}

/// Whether `expected` stands in `s` at position `i`.
pub open spec fn starts_at(s: Seq<char>, i: int, expected: Seq<char>) -> bool {
    &&& 0 <= i
    &&& i + expected.len() <= s.len()
    &&& s.subrange(i, i + expected.len()) == expected
}

/// Whether `expected` stands in `s` at position `i`, the case of ASCII
/// letters set aside.
pub open spec fn starts_at_ignoring_case(s: Seq<char>, i: int, expected: Seq<char>) -> bool {
    &&& 0 <= i
    &&& i + expected.len() <= s.len()
    &&& forall|k: int|
        0 <= k < expected.len() ==> same_ignoring_ascii_case(#[trigger] s[i + k], expected[k])
}

/// Whether everything in `s` from `i` on is white space or `;`.
pub open spec fn all_padding(s: Seq<char>, i: int) -> bool {
    forall|k: int| i <= k < s.len() ==> is_padding(#[trigger] s[k])
}

/// `s` without the white space and the `;` at its end.
pub open spec fn trim_end_padding(s: Seq<char>) -> Seq<char>
    decreases s.len(),
{
    if s.len() > 0 && is_padding(s.last()) {
        trim_end_padding(s.drop_last())
    } else {
        s
    }
}

/// Trimming leaves the first `n` characters of `s` when everything from `n`
/// on is white space or `;` and the character before `n`, if there is one, is
/// neither.
pub proof fn lemma_trim_end_padding(s: Seq<char>, n: int)
    requires
        0 <= n <= s.len(),
        forall|k: int| n <= k < s.len() ==> is_padding(#[trigger] s[k]),
        n > 0 ==> !is_padding(s[n - 1]),
    ensures
        trim_end_padding(s) == s.take(n),
    decreases s.len() - n,
{
    if n < s.len() {
        assert(is_padding(s[s.len() - 1]));
        lemma_trim_end_padding(s.drop_last(), n);
        assert(s.drop_last().take(n) =~= s.take(n));
    } else {
        assert(s.take(n) =~= s);
    }
}

/// Nothing but white space and `;` is left from `i` on exactly if nothing
/// else is left after the white space that begins at `i`.
pub proof fn lemma_all_padding_after_white_space(s: Seq<char>, i: int)
    requires
        0 <= i <= s.len(),
    ensures
        all_padding(s, i) == all_padding(s, scan_while(s, i, CharClass::Whitespace)),
{
    lemma_scan_while(s, i, CharClass::Whitespace);
    let j = scan_while(s, i, CharClass::Whitespace);
    assert forall|k: int| i <= k < j implies is_padding(#[trigger] s[k]) by {
        assert(CharClass::Whitespace.holds(s[k]));
    }
}

/// The first position from `from` on at which `c` stands in `s`, or the
/// length of `s` if it stands at none.
pub open spec fn next_index_of(s: Seq<char>, from: int, c: char) -> int
    decreases s.len() - from,
{
    if 0 <= from < s.len() && s[from] != c {
        next_index_of(s, from + 1, c)
    } else {
        from
    }
}

/// The position that `next_index_of` gives lies between `from` and the end of
/// the text, nothing before it is `c`, and `c` stands at it unless it is the
/// end.
pub proof fn lemma_next_index_of(s: Seq<char>, from: int, c: char)
    requires
        0 <= from <= s.len(),
    ensures
        from <= next_index_of(s, from, c) <= s.len(),
        forall|k: int| from <= k < next_index_of(s, from, c) ==> #[trigger] s[k] != c,
        next_index_of(s, from, c) < s.len() ==> s[next_index_of(s, from, c)] == c,
    decreases s.len() - from,
{
    if from < s.len() && s[from] != c {
        lemma_next_index_of(s, from + 1, c);
    }
}

/// A position `at` from `from` on is the one that `next_index_of` gives as
/// soon as nothing before it is `c` and `c` stands at it, or the text ends
/// there.
pub proof fn lemma_next_index_of_is(s: Seq<char>, from: int, c: char, at: int)
    requires
        0 <= from <= at <= s.len(),
        forall|k: int| from <= k < at ==> #[trigger] s[k] != c,
        at < s.len() ==> s[at] == c,
    ensures
        next_index_of(s, from, c) == at,
    decreases at - from,
{
    if from < at {
        lemma_next_index_of_is(s, from + 1, c, at);
    }
}

/// The first position from `from` on at which `c` stands in `text`, or the
/// length of `text` if it stands at none.
pub fn find_char(text: &Vec<char>, from: usize, c: char) -> (at: usize)
    requires
        from <= text@.len(),
    ensures
        at == next_index_of(text@, from as int, c),
        from <= at <= text@.len(),
{
    let mut at: usize = from;
    while at < text.len() && text[at] != c
        invariant
            from <= at <= text@.len(),
            next_index_of(text@, from as int, c) == next_index_of(text@, at as int, c),
        decreases text@.len() - at,
    {
        at += 1;
    }
    at
}

/// The pieces into which the occurrences of `sep` cut what `s` holds from
/// `from` on. A text without `sep` is one piece; a `sep` at the end leaves an
/// empty piece after it.
pub open spec fn split_from(s: Seq<char>, from: int, sep: char) -> Seq<Seq<char>>
    decreases s.len() - from,
{
    let end = next_index_of(s, from, sep);
    if 0 <= from <= end < s.len() {
        seq![s.subrange(from, end)] + split_from(s, end + 1, sep)
    } else {
        seq![s.subrange(from, s.len() as int)]
    }
}

/// The pieces into which the occurrences of `sep` cut `s`.
pub open spec fn split_on(s: Seq<char>, sep: char) -> Seq<Seq<char>> {
    split_from(s, 0, sep)
}

/// The pieces from `from` on are at least one, and the first of them ends
/// at the first `sep` or with the text.
pub proof fn lemma_split_from_len(s: Seq<char>, from: int, sep: char)
    requires
        0 <= from <= s.len(),
    ensures
        split_from(s, from, sep).len() >= 1,
        split_from(s, from, sep).len() == 1 <==> next_index_of(s, from, sep) >= s.len(),
        split_from(s, from, sep)[0] == s.subrange(from, next_index_of(s, from, sep)),
    decreases s.len() - from,
{
    lemma_next_index_of(s, from, sep);
    let end = next_index_of(s, from, sep);
    if end < s.len() {
        lemma_split_from_len(s, end + 1, sep);
    }
}

/// What a list of texts holds, each text taken as its characters.
pub open spec fn texts_of(list: Seq<String>) -> Seq<Seq<char>> {
    Seq::new(list.len(), |i: int| list[i]@)
}

/// Whether `part` stands in `text` at position `at`.
pub fn has_at(text: &Vec<char>, at: usize, part: &Vec<char>) -> (found: bool)
    ensures
        found == starts_at(text@, at as int, part@),
{
    let n = part.len();
    if at > text.len() || n > text.len() - at {
        return false;
    }
    let mut k: usize = 0;
    while k < n
        invariant
            k <= n,
            n == part@.len(),
            at + n <= text.len(),
            forall|x: int| 0 <= x < k ==> text@[at + x] == part@[x],
        decreases n - k,
    {
        if text[at + k] != part[k] {
            proof {
                let sub = text@.subrange(at as int, at + n);
                assert(sub[k as int] != part@[k as int]);
            }
            return false;
        }
        k += 1;
    }
    assert(text@.subrange(at as int, at + n) =~= part@);
    true
}

/// Whether the two texts hold the same characters.
pub fn same_text(a: &str, b: &str) -> (same: bool)
    ensures
        same == (a@ == b@),
{
    let x = chars_of(a);
    let y = chars_of(b);
    if x.len() != y.len() {
        return false;
    }
    let found = has_at(&x, 0, &y);
    proof {
        assert(x@.subrange(0, y@.len() as int) =~= x@);
    }
    found
}

} // verus!
