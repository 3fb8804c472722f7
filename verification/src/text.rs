//! Character-level primitives shared by the rest of the library.
//!
//! Texts are handled as sequences of Unicode scalar values (`char`).
//! Whitespace (the code points of Unicode `White_Space`) is stated and
//! decided here.  Letter classes and case mappings are stated exactly for
//! ASCII; beyond ASCII they are std's answers from its Unicode tables, named
//! here and reached through small trusted wrappers.  Everything built on them
//! (trimming, word splitting, conversions between `&str`, `String` and
//! `Vec<char>`) is verified.

use vstd::prelude::*;

verus! {

// ---------------------------------------------------------------------------
// Unicode character classes
// ---------------------------------------------------------------------------

/// Whether `c` has the Unicode `White_Space` property (`char::is_whitespace`):
/// tab through carriage return, space, next line, no-break space, ogham
/// space mark, en quad through hair space, line and paragraph separators,
/// narrow no-break space, medium mathematical space and ideographic space.
pub open spec fn is_white_space(c: char) -> bool {
    ||| '\t' <= c <= '\r'
    ||| c == ' '
    ||| c == '\u{85}'
    ||| c == '\u{a0}'
    ||| c == '\u{1680}'
    ||| '\u{2000}' <= c <= '\u{200a}'
    ||| c == '\u{2028}'
    ||| c == '\u{2029}'
    ||| c == '\u{202f}'
    ||| c == '\u{205f}'
    ||| c == '\u{3000}'
}

/// `c` is an ASCII character.
pub open spec fn is_ascii_char(c: char) -> bool {
    c <= '\u{7f}'
}

/// Every character of `s` is ASCII.
pub open spec fn all_ascii(s: Seq<char>) -> bool {
    forall|i: int| 0 <= i < s.len() ==> is_ascii_char(#[trigger] s[i])
}

/// The ASCII lowercase of `c`: `A`..=`Z` become `a`..=`z`, the rest stays.
pub open spec fn ascii_lower(c: char) -> char {
    if 'A' <= c <= 'Z' {
        ((c as u32) + 32) as char
    } else {
        c
    }
}

/// The ASCII uppercase of `c`: `a`..=`z` become `A`..=`Z`, the rest stays.
pub open spec fn ascii_upper(c: char) -> char {
    if 'a' <= c <= 'z' {
        ((c as u32) - 32) as char
    } else {
        c
    }
}

/// Whether `c`, outside ASCII, has the Unicode `Alphabetic` property
/// (`char::is_alphabetic`).
pub uninterp spec fn alphabetic_beyond_ascii(c: char) -> bool;

/// Whether `c`, outside ASCII, is in a Unicode numeric category (`char::is_numeric`).
pub uninterp spec fn numeric_beyond_ascii(c: char) -> bool;

/// Whether `c`, outside ASCII, has the Unicode `Lowercase` property (`char::is_lowercase`).
pub uninterp spec fn lowercase_beyond_ascii(c: char) -> bool;

/// Whether `c`, outside ASCII, has the Unicode `Uppercase` property (`char::is_uppercase`).
pub uninterp spec fn uppercase_beyond_ascii(c: char) -> bool;

/// The first character of the lowercase mapping of `c`, outside ASCII.
pub uninterp spec fn lower_first_beyond_ascii(c: char) -> char;

/// The first character of the uppercase mapping of `c`, outside ASCII.
pub uninterp spec fn upper_first_beyond_ascii(c: char) -> char;

/// The full lowercase mapping of `c`, outside ASCII, as a string.
pub uninterp spec fn lowercase_mapping_beyond_ascii(c: char) -> Seq<char>;

/// The lowercase form of a string that holds a character outside ASCII.
pub uninterp spec fn lowercase_beyond_ascii_text(s: Seq<char>) -> Seq<char>;

/// The uppercase form of a string that holds a character outside ASCII.
pub uninterp spec fn uppercase_beyond_ascii_text(s: Seq<char>) -> Seq<char>;

/// `char::is_alphabetic`: in ASCII exactly the letters.
pub open spec fn is_alphabetic_char(c: char) -> bool {
    if is_ascii_char(c) {
        ('a' <= c <= 'z') || ('A' <= c <= 'Z')
    } else {
        alphabetic_beyond_ascii(c)
    }
}

/// `char::is_numeric`: in ASCII exactly the digits.
pub open spec fn is_numeric_char(c: char) -> bool {
    if is_ascii_char(c) {
        '0' <= c <= '9'
    } else {
        numeric_beyond_ascii(c)
    }
}

/// `char::is_lowercase`: in ASCII exactly `a`..=`z`.
pub open spec fn is_lowercase_char(c: char) -> bool {
    if is_ascii_char(c) {
        'a' <= c <= 'z'
    } else {
        lowercase_beyond_ascii(c)
    }
}

/// `char::is_uppercase`: in ASCII exactly `A`..=`Z`.
pub open spec fn is_uppercase_char(c: char) -> bool {
    if is_ascii_char(c) {
        'A' <= c <= 'Z'
    } else {
        uppercase_beyond_ascii(c)
    }
}

/// The first character of the lowercase mapping of `c` (`char::to_lowercase`).
pub open spec fn lower_first(c: char) -> char {
    if is_ascii_char(c) {
        ascii_lower(c)
    } else {
        lower_first_beyond_ascii(c)
    }
}

/// The first character of the uppercase mapping of `c` (`char::to_uppercase`).
pub open spec fn upper_first(c: char) -> char {
    if is_ascii_char(c) {
        ascii_upper(c)
    } else {
        upper_first_beyond_ascii(c)
    }
}

/// The full lowercase mapping of `c` (`char::to_lowercase`), as a string.
pub open spec fn char_lowercase(c: char) -> Seq<char> {
    if is_ascii_char(c) {
        seq![ascii_lower(c)]
    } else {
        lowercase_mapping_beyond_ascii(c)
    }
}

/// The lowercase form of a whole string (`str::to_lowercase`).
pub open spec fn str_lowercase(s: Seq<char>) -> Seq<char> {
    if all_ascii(s) {
        s.map_values(|c: char| ascii_lower(c))
    } else {
        lowercase_beyond_ascii_text(s)
    }
}

/// The uppercase form of a whole string (`str::to_uppercase`).
pub open spec fn str_uppercase(s: Seq<char>) -> Seq<char> {
    if all_ascii(s) {
        s.map_values(|c: char| ascii_upper(c))
    } else {
        uppercase_beyond_ascii_text(s)
    }
}

/// Alphanumeric in the sense of `char::is_alphanumeric`.
pub open spec fn is_alphanumeric_char(c: char) -> bool {
    is_alphabetic_char(c) || is_numeric_char(c)
}

/// Whether `c` is whitespace in the sense of `char::is_whitespace`.
pub fn char_is_whitespace(c: char) -> (r: bool)
    ensures
        r == is_white_space(c),
{
    ('\t' <= c && c <= '\r') || c == ' ' || c == '\u{85}' || c == '\u{a0}' || c == '\u{1680}'
        || ('\u{2000}' <= c && c <= '\u{200a}') || c == '\u{2028}' || c == '\u{2029}' || c
        == '\u{202f}' || c == '\u{205f}' || c == '\u{3000}'
}

/// `char::is_alphabetic`: among ASCII characters exactly the letters are
/// alphabetic; beyond ASCII the answer is std's `Alphabetic` classification.
#[verifier::external_body]
pub(crate) fn char_is_alphabetic(c: char) -> (r: bool)
    ensures
        is_ascii_char(c) ==> (r <==> ('a' <= c <= 'z') || ('A' <= c <= 'Z')),
        !is_ascii_char(c) ==> r == alphabetic_beyond_ascii(c),
{
    c.is_alphabetic()
}

/// `char::is_numeric`: among ASCII characters exactly the digits are
/// numeric; beyond ASCII the answer is std's numeric classification.
#[verifier::external_body]
pub(crate) fn char_is_numeric(c: char) -> (r: bool)
    ensures
        is_ascii_char(c) ==> (r <==> '0' <= c <= '9'),
        !is_ascii_char(c) ==> r == numeric_beyond_ascii(c),
{
    c.is_numeric()
}

/// Whether `c` is alphanumeric in the sense of `char::is_alphanumeric`,
/// which std defines as `is_alphabetic() || is_numeric()`.
pub fn char_is_alphanumeric(c: char) -> (r: bool)
    ensures
        r == is_alphanumeric_char(c),
{
    char_is_alphabetic(c) || char_is_numeric(c)
}

/// `char::is_lowercase`: among ASCII characters exactly `a`..=`z`; beyond
/// ASCII the answer is std's `Lowercase` classification.
#[verifier::external_body]
pub(crate) fn char_is_lowercase(c: char) -> (r: bool)
    ensures
        is_ascii_char(c) ==> (r <==> 'a' <= c <= 'z'),
        !is_ascii_char(c) ==> r == lowercase_beyond_ascii(c),
{
    c.is_lowercase()
}

/// `char::is_uppercase`: among ASCII characters exactly `A`..=`Z`; beyond
/// ASCII the answer is std's `Uppercase` classification.
#[verifier::external_body]
pub(crate) fn char_is_uppercase(c: char) -> (r: bool)
    ensures
        is_ascii_char(c) ==> (r <==> 'A' <= c <= 'Z'),
        !is_ascii_char(c) ==> r == uppercase_beyond_ascii(c),
{
    c.is_uppercase()
}

/// The first character that `char::to_lowercase` yields for `c` (std
/// documents that it yields at least one): the ASCII lowercase for an ASCII
/// character.
#[verifier::external_body]
pub(crate) fn char_lower_first(c: char) -> (r: char)
    ensures
        is_ascii_char(c) ==> r == ascii_lower(c),
        !is_ascii_char(c) ==> r == lower_first_beyond_ascii(c),
{
    c.to_lowercase().next().unwrap_or(c)
}

/// The first character that `char::to_uppercase` yields for `c` (std
/// documents that it yields at least one): the ASCII uppercase for an ASCII
/// character.
#[verifier::external_body]
pub(crate) fn char_upper_first(c: char) -> (r: char)
    ensures
        is_ascii_char(c) ==> r == ascii_upper(c),
        !is_ascii_char(c) ==> r == upper_first_beyond_ascii(c),
{
    c.to_uppercase().next().unwrap_or(c)
}

/// All the characters that `char::to_lowercase` yields for `c`, collected:
/// the ASCII lowercase alone for an ASCII character.
#[verifier::external_body]
pub(crate) fn char_to_lowercase(c: char) -> (r: String)
    ensures
        is_ascii_char(c) ==> r@ == seq![ascii_lower(c)],
        !is_ascii_char(c) ==> r@ == lowercase_mapping_beyond_ascii(c),
{
    c.to_lowercase().collect()
}

/// `str::to_lowercase`: for an ASCII string each character's ASCII
/// lowercase; otherwise std's lowercase form of `s`.
#[verifier::external_body]
pub(crate) fn string_to_lowercase(s: &str) -> (r: String)
    ensures
        all_ascii(s@) ==> r@ == s@.map_values(|c: char| ascii_lower(c)),
        !all_ascii(s@) ==> r@ == lowercase_beyond_ascii_text(s@),
{
    s.to_lowercase()
}

/// `str::to_uppercase`: for an ASCII string each character's ASCII
/// uppercase; otherwise std's uppercase form of `s`.
#[verifier::external_body]
pub(crate) fn string_to_uppercase(s: &str) -> (r: String)
    ensures
        all_ascii(s@) ==> r@ == s@.map_values(|c: char| ascii_upper(c)),
        !all_ascii(s@) ==> r@ == uppercase_beyond_ascii_text(s@),
{
    s.to_uppercase()
}

/// `String::push` appends one character.
pub assume_specification[ String::push ](s: &mut String, ch: char)
    ensures
        final(s)@ == old(s)@.push(ch),
;

// ---------------------------------------------------------------------------
// Conversions
// ---------------------------------------------------------------------------

/// The views of a sequence of strings.
pub open spec fn string_views(v: Seq<String>) -> Seq<Seq<char>> {
    v.map_values(|s: String| s@)
}

/// The views of a sequence of character vectors.
pub open spec fn char_views(v: Seq<Vec<char>>) -> Seq<Seq<char>> {
    v.map_values(|s: Vec<char>| s@)
}

/// The characters of `s`, in order.
pub fn chars_of(s: &str) -> (r: Vec<char>)
    ensures
        r@ == s@,
{
    let mut r: Vec<char> = Vec::new();
    for c in it: s.chars()
        invariant
            r@ == it.seq().take(it.index() as int),
    {
        r.push(c);
    }
    r
}

/// A string holding exactly the characters of `v`.
pub fn string_of(v: &[char]) -> (r: String)
    ensures
        r@ == v@,
{
    let mut r = String::new();
    let mut i: usize = 0;
    while i < v.len()
        invariant
            i <= v@.len(),
            r@ == v@.take(i as int),
        decreases v@.len() - i,
    {
        r.push(v[i]);
        i = i + 1;
        assert(v@.take(i as int) =~= v@.take(i - 1).push(v@[i - 1]));
    }
    assert(v@.take(v@.len() as int) =~= v@);
    r
}

/// One string per character vector, in order.
pub fn strings_of(v: &Vec<Vec<char>>) -> (r: Vec<String>)
    ensures
        string_views(r@) == char_views(v@),
{
    let mut r: Vec<String> = Vec::new();
    let mut i: usize = 0;
    while i < v.len()
        invariant
            i <= v@.len(),
            r@.len() == i,
            forall|k: int| 0 <= k < i ==> #[trigger] r@[k]@ == v@[k]@,
        decreases v@.len() - i,
    {
        let s = string_of(v[i].as_slice());
        r.push(s);
        i = i + 1;
    }
    assert(string_views(r@) =~= char_views(v@));
    r
}

/// A copy of `v[lo..hi]`.
pub fn copy_range(v: &Vec<char>, lo: usize, hi: usize) -> (r: Vec<char>)
    requires
        lo <= hi <= v@.len(),
    ensures
        r@ == v@.subrange(lo as int, hi as int),
{
    let mut r: Vec<char> = Vec::new();
    let mut i: usize = lo;
    while i < hi
        invariant
            lo <= i <= hi,
            hi <= v@.len(),
            r@ == v@.subrange(lo as int, i as int),
        decreases hi - i,
    {
        r.push(v[i]);
        i = i + 1;
        assert(v@.subrange(lo as int, i as int) =~= v@.subrange(lo as int, i - 1).push(v@[i - 1]));
    }
    r
}

/// `a` followed by `b`, with `a` extended in place.
pub fn append_chars(a: &mut Vec<char>, b: &Vec<char>)
    ensures
        final(a)@ == old(a)@ + b@,
{
    let mut i: usize = 0;
    while i < b.len()
        invariant
            i <= b@.len(),
            a@ == old(a)@ + b@.take(i as int),
        decreases b@.len() - i,
    {
        a.push(b[i]);
        i = i + 1;
        assert(b@.take(i as int) =~= b@.take(i - 1).push(b@[i - 1]));
    }
    assert(b@.take(b@.len() as int) =~= b@);
}

/// Whether two character sequences are equal.
pub fn chars_equal(a: &[char], b: &[char]) -> (r: bool)
    ensures
        r == (a@ == b@),
{
    if a.len() != b.len() {
        return false;
    }
    let mut i: usize = 0;
    while i < a.len()
        invariant
            a@.len() == b@.len(),
            i <= a@.len(),
            forall|k: int| 0 <= k < i ==> a@[k] == b@[k],
        decreases a@.len() - i,
    {
        if a[i] != b[i] {
            return false;
        }
        i = i + 1;
    }
    assert(a@ =~= b@);
    true
}

/// Whether two strings are equal.
pub fn str_eq(a: &str, b: &str) -> (r: bool)
    ensures
        r == (a@ == b@),
{
    let av = chars_of(a);
    let bv = chars_of(b);
    chars_equal(av.as_slice(), bv.as_slice())
}

/// The concatenation of three strings.
pub fn concat3(a: &str, b: &str, c: &str) -> (r: String)
    ensures
        r@ == a@ + b@ + c@,
{
    let mut r = String::from_str(a);
    r.append(b);
    r.append(c);
    r
}

/// `needle` occurs in `hay` at position `i`.
pub open spec fn occurs_at(hay: Seq<char>, needle: Seq<char>, i: int) -> bool {
    0 <= i && i + needle.len() <= hay.len() && hay.subrange(i, i + needle.len()) == needle
}

/// `needle` occurs somewhere in `hay` (`str::contains`).
pub open spec fn contains_seq(hay: Seq<char>, needle: Seq<char>) -> bool {
    exists|i: int| #[trigger] occurs_at(hay, needle, i)
}

/// Whether `needle` occurs in `hay` at position `i`.
pub fn occurs_at_exec(hay: &Vec<char>, needle: &Vec<char>, i: usize) -> (r: bool)
    ensures
        r == occurs_at(hay@, needle@, i as int),
{
    if needle.len() > hay.len() || i > hay.len() - needle.len() {
        return false;
    }
    let mut k: usize = 0;
    while k < needle.len()
        invariant
            i + needle@.len() <= hay@.len(),
            hay@.len() == hay.len(),
            needle@.len() == needle.len(),
            k <= needle@.len(),
            forall|j: int| 0 <= j < k ==> hay@[i + j] == needle@[j],
        decreases needle@.len() - k,
    {
        if hay[i + k] != needle[k] {
            assert(hay@.subrange(i as int, i + needle@.len())[k as int] != needle@[k as int]);
            return false;
        }
        k = k + 1;
    }
    assert(hay@.subrange(i as int, i + needle@.len()) =~= needle@);
    true
}

/// Whether `needle` occurs in `hay` (`str::contains`).
pub fn contains_text(hay: &str, needle: &str) -> (r: bool)
    ensures
        r == contains_seq(hay@, needle@),
{
    let h = chars_of(hay);
    let nd = chars_of(needle);
    if nd.len() > h.len() {
        assert forall|i: int| !occurs_at(hay@, needle@, i) by {}
        return false;
    }
    let last = h.len() - nd.len();
    let mut i: usize = 0;
    loop
        invariant
            h@ == hay@,
            nd@ == needle@,
            last + nd@.len() == h@.len(),
            i <= last,
            forall|j: int| 0 <= j < i ==> !occurs_at(hay@, needle@, j),
        decreases last - i,
    {
        if occurs_at_exec(&h, &nd, i) {
            assert(occurs_at(hay@, needle@, i as int));
            return true;
        }
        if i == last {
            assert forall|j: int| !occurs_at(hay@, needle@, j) by {
                if 0 <= j && j + needle@.len() <= hay@.len() {
                    assert(j <= last);
                }
            }
            return false;
        }
        i = i + 1;
    }
}

/// The pieces joined with `sep` between them.
pub open spec fn join_with(ps: Seq<Seq<char>>, sep: Seq<char>) -> Seq<char>
    decreases ps.len(),
{
    if ps.len() == 0 {
        seq![]
    } else if ps.len() == 1 {
        ps[0]
    } else {
        join_with(ps.drop_last(), sep) + sep + ps.last()
    }
}

/// The number of entries of `s` equal to `b`.
pub open spec fn count_of(s: Seq<bool>, b: bool) -> nat
    decreases s.len(),
{
    if s.len() == 0 {
        0
    } else {
        count_of(s.drop_last(), b) + if s.last() == b {
            1nat
        } else {
            0nat
        }
    }
}

// ---------------------------------------------------------------------------
// Trimming
// ---------------------------------------------------------------------------

/// `s` without its leading whitespace.
pub open spec fn trim_start(s: Seq<char>) -> Seq<char>
    decreases s.len(),
{
    if s.len() > 0 && is_white_space(s[0]) {
        trim_start(s.drop_first())
    } else {
        s
    }
}

/// `s` without its trailing whitespace.
pub open spec fn trim_end(s: Seq<char>) -> Seq<char>
    decreases s.len(),
{
    if s.len() > 0 && is_white_space(s.last()) {
        trim_end(s.drop_last())
    } else {
        s
    }
}

/// `s` without leading and trailing whitespace (`str::trim`).
pub open spec fn trim(s: Seq<char>) -> Seq<char> {
    trim_end(trim_start(s))
}

/// `s` with `trim` applied only when whitespace is not to be preserved.
pub open spec fn prepare(s: Seq<char>, preserve_whitespace: bool) -> Seq<char> {
    if preserve_whitespace {
        s
    } else {
        trim(s)
    }
}

/// Leading whitespace up to `i` does not change what `trim_start` yields.
proof fn lemma_trim_start_skip(s: Seq<char>, i: int)
    requires
        0 <= i < s.len(),
        is_white_space(s[i]),
    ensures
        trim_start(s.skip(i)) == trim_start(s.skip(i + 1)),
{
    assert(s.skip(i).drop_first() =~= s.skip(i + 1));
}

/// Trailing whitespace does not change what `trim_end` yields.
proof fn lemma_trim_end_take(s: Seq<char>, j: int)
    requires
        0 < j <= s.len(),
        is_white_space(s[j - 1]),
    ensures
        trim_end(s.take(j)) == trim_end(s.take(j - 1)),
{
    assert(s.take(j).drop_last() =~= s.take(j - 1));
}

/// A copy of `v` without leading and trailing whitespace.
pub fn trim_chars(v: &Vec<char>) -> (r: Vec<char>)
    ensures
        r@ == trim(v@),
{
    let n = v.len();
    let mut i: usize = 0;
    assert(v@.skip(0) =~= v@);
    while i < n && char_is_whitespace(v[i])
        invariant
            n == v@.len(),
            i <= n,
            trim_start(v@) == trim_start(v@.skip(i as int)),
        decreases n - i,
    {
        proof {
            lemma_trim_start_skip(v@, i as int);
        }
        i = i + 1;
    }
    let ghost rest = v@.skip(i as int);
    assert(trim_start(rest) == rest);
    assert(rest.take(n - i) =~= rest);
    let mut j: usize = n;
    while j > i && char_is_whitespace(v[j - 1])
        invariant
            n == v@.len(),
            i <= j <= n,
            rest == v@.skip(i as int),
            trim_end(rest) == trim_end(rest.take(j - i)),
        decreases j,
    {
        proof {
            lemma_trim_end_take(rest, (j - i) as int);
        }
        j = j - 1;
    }
    let r = copy_range(v, i, j);
    assert(r@ =~= rest.take(j - i));
    r
}

// ---------------------------------------------------------------------------
// Words
// ---------------------------------------------------------------------------

/// The word being collected, as a one-element sequence, or nothing when it is empty.
pub open spec fn flush(cur: Seq<char>) -> Seq<Seq<char>> {
    if cur.len() > 0 {
        seq![cur]
    } else {
        seq![]
    }
}

/// The words of `s` (maximal runs of non-whitespace characters), where the
/// run `cur` was already collected before `s`.
pub open spec fn words_from(s: Seq<char>, cur: Seq<char>) -> Seq<Seq<char>>
    decreases s.len(),
{
    if s.len() == 0 {
        flush(cur)
    } else if is_white_space(s[0]) {
        flush(cur) + words_from(s.drop_first(), seq![])
    } else {
        words_from(s.drop_first(), cur.push(s[0]))
    }
}

/// The words of `s` in order, as `str::split_whitespace` yields them.
pub open spec fn words(s: Seq<char>) -> Seq<Seq<char>> {
    words_from(s, seq![])
}

/// No character of `s` is whitespace.
pub open spec fn no_white_space(s: Seq<char>) -> bool {
    forall|k: int| 0 <= k < s.len() ==> !is_white_space(#[trigger] s[k])
}

/// Every word is non-empty and holds no whitespace.
pub proof fn lemma_words_from_shape(s: Seq<char>, cur: Seq<char>)
    requires
        no_white_space(cur),
    ensures
        forall|k: int|
            0 <= k < words_from(s, cur).len() ==> #[trigger] words_from(s, cur)[k].len() > 0
                && no_white_space(words_from(s, cur)[k]),
    decreases s.len(),
{
    if s.len() == 0 {
    } else if is_white_space(s[0]) {
        lemma_words_from_shape(s.drop_first(), seq![]);
        let a = flush(cur);
        let b = words_from(s.drop_first(), seq![]);
        assert forall|k: int| 0 <= k < (a + b).len() implies #[trigger] (a + b)[k].len() > 0
            && no_white_space((a + b)[k]) by {
            if k >= a.len() {
                assert((a + b)[k] == b[k - a.len()]);
            }
        }
    } else {
        let c2 = cur.push(s[0]);
        assert forall|k: int| 0 <= k < c2.len() implies !is_white_space(#[trigger] c2[k]) by {
            if k < cur.len() {
                assert(c2[k] == cur[k]);
            }
        }
        lemma_words_from_shape(s.drop_first(), c2);
        assert(words_from(s, cur) == words_from(s.drop_first(), c2));
    }
}

/// The words of `v` (`str::split_whitespace`).
pub fn split_words(v: &Vec<char>) -> (r: Vec<Vec<char>>)
    ensures
        char_views(r@) == words(v@),
{
    let n = v.len();
    let mut r: Vec<Vec<char>> = Vec::new();
    let mut cur: Vec<char> = Vec::new();
    let mut i: usize = 0;
    assert(v@.skip(0) =~= v@);
    while i < n
        invariant
            n == v@.len(),
            i <= n,
            char_views(r@) + words_from(v@.skip(i as int), cur@) == words(v@),
        decreases n - i,
    {
        let ghost before = char_views(r@);
        let ghost cur_before = cur@;
        let ghost s = v@.skip(i as int);
        assert(s.drop_first() =~= v@.skip(i + 1));
        let c = v[i];
        if char_is_whitespace(c) {
            if cur.len() > 0 {
                r.push(cur);
                cur = Vec::new();
            }
            assert(char_views(r@) =~= before + flush(cur_before));
            assert(cur@ =~= Seq::<char>::empty());
            assert(char_views(r@) + words_from(v@.skip(i + 1), cur@) =~= before + (flush(
                cur_before,
            ) + words_from(s.drop_first(), seq![])));
        } else {
            cur.push(c);
        }
        i = i + 1;
    }
    assert(v@.skip(n as int) =~= Seq::<char>::empty());
    let ghost before = char_views(r@);
    let ghost last = cur@;
    if cur.len() > 0 {
        r.push(cur);
    }
    assert(char_views(r@) =~= before + flush(last));
    r
}

// ---------------------------------------------------------------------------
// Lines
// ---------------------------------------------------------------------------

/// `cur` without one trailing carriage return.
pub open spec fn strip_cr(cur: Seq<char>) -> Seq<char> {
    if cur.len() > 0 && cur.last() == '\r' {
        cur.drop_last()
    } else {
        cur
    }
}

/// The lines of `s`, where `cur` was read before `s` since the last line feed.
pub open spec fn lines_from(s: Seq<char>, cur: Seq<char>) -> Seq<Seq<char>>
    decreases s.len(),
{
    if s.len() == 0 {
        flush(cur)
    } else if s[0] == '\n' {
        seq![strip_cr(cur)] + lines_from(s.drop_first(), seq![])
    } else {
        lines_from(s.drop_first(), cur.push(s[0]))
    }
}

/// The lines of `s` (`str::lines`): split at `\n`, a `\r` before a `\n`
/// removed, and no empty last line after a final line feed.
pub open spec fn lines(s: Seq<char>) -> Seq<Seq<char>> {
    lines_from(s, seq![])
}

/// A copy of `v` without one trailing carriage return.
fn strip_cr_exec(v: Vec<char>) -> (r: Vec<char>)
    ensures
        r@ == strip_cr(v@),
{
    let mut v = v;
    if v.len() > 0 && v[v.len() - 1] == '\r' {
        v.pop();
    }
    v
}

/// The lines of `s` (`str::lines`).
pub fn split_lines(s: &str) -> (r: Vec<Vec<char>>)
    ensures
        char_views(r@) == lines(s@),
{
    let v = chars_of(s);
    let n = v.len();
    let mut r: Vec<Vec<char>> = Vec::new();
    let mut cur: Vec<char> = Vec::new();
    let mut i: usize = 0;
    assert(v@.skip(0) =~= v@);
    while i < n
        invariant
            n == v@.len(),
            v@ == s@,
            i <= n,
            char_views(r@) + lines_from(v@.skip(i as int), cur@) == lines(s@),
        decreases n - i,
    {
        let ghost before = char_views(r@);
        let ghost cur_before = cur@;
        let ghost t = v@.skip(i as int);
        assert(t.drop_first() =~= v@.skip(i + 1));
        let c = v[i];
        if c == '\n' {
            let line = strip_cr_exec(cur);
            r.push(line);
            cur = Vec::new();
            assert(char_views(r@) + lines_from(v@.skip(i + 1), cur@) =~= before + (seq![
                strip_cr(cur_before),
            ] + lines_from(t.drop_first(), seq![])));
        } else {
            cur.push(c);
        }
        i = i + 1;
    }
    assert(v@.skip(n as int) =~= Seq::<char>::empty());
    let ghost before = char_views(r@);
    let ghost last = cur@;
    if cur.len() > 0 {
        r.push(cur);
    }
    assert(char_views(r@) =~= before + flush(last));
    r
}

} // verus!
