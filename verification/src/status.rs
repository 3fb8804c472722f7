//! Reading the answers of the system status checks: the version in an API
//! reply, whether the embedding API answered with an embedding, whether a
//! model is listed, how many vector stores a registry names, and how full
//! the disk is according to `df`.

use vstd::prelude::*;
use crate::text;
use crate::text::{char_views, chars_of, copy_range, occurs_at_exec, split_lines, split_words};

verus! {

/// The model that the system needs.
pub const REQUIRED_MODEL: &'static str = "harald-phi4";

/// How full the disk is.
#[derive(Debug, Clone, Copy, PartialEq, Eq, Structural)]
pub enum DiskLevel {
    /// More than 90% used.
    Critical,
    /// More than 80% used.
    High,
    /// At most 80% used.
    Normal,
}

/// The disk usage reported on the second line of `df -h .`.
#[derive(Debug, Clone)]
pub struct DiskUsage {
    /// The "Use%" column as printed.
    pub used_percent: String,
    /// That column as a number (0 when it does not read as one).
    pub used_value: u32,
    /// The "Avail" column as printed.
    pub available: String,
}

// ---------------------------------------------------------------------------
// Specification
// ---------------------------------------------------------------------------

/// The first position at or after `i` where `needle` occurs in `hay`.
pub open spec fn find_from(hay: Seq<char>, needle: Seq<char>, i: int) -> Option<int>
    decreases hay.len() + 1 - i,
{
    if i < 0 || i + needle.len() > hay.len() {
        None
    } else if text::occurs_at(hay, needle, i) {
        Some(i)
    } else {
        find_from(hay, needle, i + 1)
    }
}

/// The first position where `needle` occurs in `hay`.
pub open spec fn find(hay: Seq<char>, needle: Seq<char>) -> Option<int> {
    find_from(hay, needle, 0)
}

/// The number of occurrences of `needle` in `hay` at or after `i`, counted
/// from the left without overlap (`str::matches(..).count()`).
pub open spec fn count_from(hay: Seq<char>, needle: Seq<char>, i: int) -> nat
    decreases hay.len() - i,
{
    if i < 0 || i + needle.len() > hay.len() || needle.len() == 0 {
        0
    } else if text::occurs_at(hay, needle, i) {
        1 + count_from(hay, needle, i + needle.len())
    } else {
        count_from(hay, needle, i + 1)
    }
}

/// The key that precedes a version in an API reply.
pub open spec fn version_key() -> Seq<char> {
    "\"version\":"@
}

/// Whitespace between JSON tokens.
pub open spec fn is_json_space(c: char) -> bool {
    c == ' ' || c == '\t' || c == '\n' || c == '\r'
}

/// `s` without its leading JSON whitespace.
pub open spec fn skip_json_space(s: Seq<char>) -> Seq<char>
    decreases s.len(),
{
    if s.len() > 0 && is_json_space(s[0]) {
        skip_json_space(s.drop_first())
    } else {
        s
    }
}

/// The text of the JSON string at the start of `s` (after its opening
/// quote, up to the next quote), when `s` starts with one and that text is
/// not empty.
pub open spec fn leading_string(s: Seq<char>) -> Option<Seq<char>> {
    if s.len() > 0 && s[0] == '"' {
        let body = s.drop_first();
        match find(body, "\""@) {
            Some(q) => if q > 0 {
                Some(body.take(q))
            } else {
                None
            },
            None => None,
        }
    } else {
        None
    }
}

/// What `extract_version` yields: the string value that follows the first
/// `"version":` key of the reply, when it is a non-empty string.
pub open spec fn version_of(response: Seq<char>) -> Option<Seq<char>> {
    match find(response, version_key()) {
        None => None,
        Some(k) => leading_string(skip_json_space(response.skip(k + version_key().len()))),
    }
}

/// A decimal digit.
pub open spec fn is_digit(c: char) -> bool {
    '0' <= c && c <= '9'
}

/// The value of a string of decimal digits.
pub open spec fn decimal_value(ds: Seq<char>) -> nat
    decreases ds.len(),
{
    if ds.len() == 0 {
        0
    } else {
        decimal_value(ds.drop_last()) * 10 + (ds.last() as nat - '0' as nat) as nat
    }
}

/// `s` without one leading `+`.
pub open spec fn unsigned_digits(s: Seq<char>) -> Seq<char> {
    if s.len() > 0 && s[0] == '+' {
        s.drop_first()
    } else {
        s
    }
}

/// Every character of `ds` is a decimal digit.
pub open spec fn all_digits(ds: Seq<char>) -> bool {
    forall|i: int| 0 <= i < ds.len() ==> is_digit(#[trigger] ds[i])
}

/// What `u32::from_str` yields: an optional `+` followed by at least one
/// decimal digit and nothing else, whose value fits in a `u32`.
pub open spec fn parse_u32_spec(s: Seq<char>) -> Option<u32> {
    let ds = unsigned_digits(s);
    if ds.len() > 0 && all_digits(ds) && decimal_value(ds) <= u32::MAX {
        Some(decimal_value(ds) as u32)
    } else {
        None
    }
}

/// `s` without its trailing `%` characters.
pub open spec fn strip_percent(s: Seq<char>) -> Seq<char>
    decreases s.len(),
{
    if s.len() > 0 && s.last() == '%' {
        strip_percent(s.drop_last())
    } else {
        s
    }
}

/// The disk level of a usage percentage.
pub open spec fn level_of(used: u32) -> DiskLevel {
    if used > 90 {
        DiskLevel::Critical
    } else if used > 80 {
        DiskLevel::High
    } else {
        DiskLevel::Normal
    }
}

/// The columns of the second line of `df` output, when there are enough.
pub open spec fn df_columns(output: Seq<char>) -> Option<Seq<Seq<char>>> {
    let ls = text::lines(output);
    if ls.len() < 2 {
        None
    } else {
        let parts = text::words(ls[1]);
        if parts.len() < 5 {
            None
        } else {
            Some(parts)
        }
    }
}

// ---------------------------------------------------------------------------
// Implementation
// ---------------------------------------------------------------------------

/// The first position at or after `start` where `needle` occurs in `hay`.
fn find_exec(hay: &Vec<char>, needle: &Vec<char>, start: usize) -> (r: Option<usize>)
    requires
        start <= hay@.len(),
    ensures
        match r {
            Some(i) => find_from(hay@, needle@, start as int) == Some(i as int) && i + needle@.len()
                <= hay@.len(),
            None => find_from(hay@, needle@, start as int) is None,
        },
{
    let mut i = start;
    loop
        invariant
            start <= i <= hay@.len(),
            find_from(hay@, needle@, start as int) == find_from(hay@, needle@, i as int),
        decreases hay@.len() - i,
    {
        if needle.len() > hay.len() || i > hay.len() - needle.len() {
            return None;
        }
        if occurs_at_exec(hay, needle, i) {
            return Some(i);
        }
        if needle.len() == 0 {
            assert(hay@.subrange(i as int, i as int) =~= needle@);
            assert(false);
        }
        i = i + 1;
    }
}

/// Extracts the version from an API reply: the string value of its first
/// `"version":` key (`{"version":"0.1.32"}` gives `0.1.32`), when there is
/// one and it is not empty.
pub fn extract_version(response: &str) -> (r: Option<String>)
    ensures
        match r {
            Some(v) => version_of(response@) == Some(v@),
            None => version_of(response@) is None,
        },
{
    let s = chars_of(response);
    let key = chars_of("\"version\":");
    let k = match find_exec(&s, &key, 0) {
        Some(k) => k,
        None => {
            return None;
        },
    };
    assert(k + key@.len() <= s@.len());
    assert(s@.len() == s.len());
    let mut i = k + key.len();
    let ghost after = s@.skip(i as int);
    assert(after.skip(0) =~= after);
    while i < s.len() && (s[i] == ' ' || s[i] == '\t' || s[i] == '\n' || s[i] == '\r')
        invariant
            k + key@.len() <= i <= s@.len(),
            after == s@.skip(k + key@.len()),
            skip_json_space(after) == skip_json_space(s@.skip(i as int)),
        decreases s@.len() - i,
    {
        assert(s@.skip(i as int).drop_first() =~= s@.skip(i + 1));
        i = i + 1;
    }
    let t = copy_range(&s, i, s.len());
    assert(t@ =~= s@.skip(i as int));
    assert(skip_json_space(t@) == t@);
    if t.len() == 0 || t[0] != '"' {
        return None;
    }
    let body = copy_range(&t, 1, t.len());
    assert(body@ =~= t@.drop_first());
    let quote = chars_of("\"");
    match find_exec(&body, &quote, 0) {
        Some(q) => {
            if q > 0 {
                let v = copy_range(&body, 0, q);
                Some(text::string_of(v.as_slice()))
            } else {
                None
            }
        },
        None => None,
    }
}

/// Whether the embedding API reply mentions an embedding.
pub fn embedding_reply_ok(response: &str) -> (r: bool)
    ensures
        r == text::contains_seq(response@, "embedding"@),
{
    text::contains_text(response, "embedding")
}

/// Whether `model` occurs in the model listing.
pub fn model_listed(models: &str, model: &str) -> (r: bool)
    ensures
        r == text::contains_seq(models@, model@),
{
    text::contains_text(models, model)
}

/// The number of `"name":` keys in a vector store registry.
pub fn count_registered_stores(registry: &str) -> (r: usize)
    ensures
        r == count_from(registry@, "\"name\":"@, 0),
{
    let s = chars_of(registry);
    let key = chars_of("\"name\":");
    proof {
        reveal_strlit("\"name\":");
    }
    let mut count: usize = 0;
    let mut i: usize = 0;
    loop
        invariant
            s@ == registry@,
            key@ == "\"name\":"@,
            key@.len() > 0,
            count <= i,
            count + count_from(s@, key@, i as int) == count_from(s@, key@, 0),
        decreases s@.len() - i,
    {
        if key.len() > s.len() || i > s.len() - key.len() {
            return count;
        }
        if occurs_at_exec(&s, &key, i) {
            count = count + 1;
            i = i + key.len();
        } else {
            i = i + 1;
        }
    }
}

/// Reads a `u32` as `u32::from_str` does.
pub fn parse_u32(s: &str) -> (r: Option<u32>)
    ensures
        r == parse_u32_spec(s@),
{
    let v = chars_of(s);
    let start: usize = if v.len() > 0 && v[0] == '+' {
        1
    } else {
        0
    };
    let ghost ds = unsigned_digits(s@);
    assert(ds =~= v@.skip(start as int));
    if start >= v.len() {
        return None;
    }
    let mut value: u64 = 0;
    let mut i: usize = start;
    while i < v.len()
        invariant
            v@ == s@,
            start <= i <= v@.len(),
            ds == v@.skip(start as int),
            ds == unsigned_digits(s@),
            forall|k: int| 0 <= k < i - start ==> is_digit(#[trigger] ds[k]),
            value == decimal_value(ds.take(i - start)),
            value <= u32::MAX,
        decreases v@.len() - i,
    {
        let c = v[i];
        assert(c == ds[i - start]);
        if !('0' <= c && c <= '9') {
            assert(!is_digit(ds[i - start]));
            assert(!all_digits(ds));
            return None;
        }
        let d = (c as u32 - '0' as u32) as u64;
        assert(ds.take(i + 1 - start).drop_last() =~= ds.take(i - start));
        assert(ds.take(i + 1 - start).last() == c);
        assert(d == (c as nat - '0' as nat) as nat);
        let next = value * 10 + d;
        assert(next == decimal_value(ds.take(i + 1 - start)));
        if next > u32::MAX as u64 {
            proof {
                lemma_decimal_prefix_bound(ds, i + 1 - start);
            }
            return None;
        }
        value = next;
        i = i + 1;
    }
    assert(ds.take(v@.len() - start) =~= ds);
    Some(value as u32)
}

/// A digit string's value is at least the value of each of its prefixes.
proof fn lemma_decimal_prefix_bound(ds: Seq<char>, n: int)
    requires
        0 <= n <= ds.len(),
    ensures
        decimal_value(ds.take(n)) <= decimal_value(ds),
    decreases ds.len() - n,
{
    if n < ds.len() {
        lemma_decimal_prefix_bound(ds, n + 1);
        assert(ds.take(n + 1).drop_last() =~= ds.take(n));
    } else {
        assert(ds.take(n) =~= ds);
    }
}

/// A copy of `v` without its trailing `%` characters.
fn strip_percent_exec(v: &Vec<char>) -> (r: Vec<char>)
    ensures
        r@ == strip_percent(v@),
{
    let mut j: usize = v.len();
    assert(v@.take(j as int) =~= v@);
    while j > 0 && v[j - 1] == '%'
        invariant
            j <= v@.len(),
            strip_percent(v@) == strip_percent(v@.take(j as int)),
        decreases j,
    {
        assert(v@.take(j as int).drop_last() =~= v@.take(j - 1));
        j = j - 1;
    }
    copy_range(v, 0, j)
}

/// Reads the disk usage from `df -h .` output: the fifth and fourth columns
/// of its second line, when it has them.
pub fn parse_disk_usage(df_output: &str) -> (r: Option<DiskUsage>)
    ensures
        r is Some <==> df_columns(df_output@) is Some,
        r matches Some(u) ==> {
            let parts = df_columns(df_output@)->Some_0;
            &&& u.used_percent@ == parts[4]
            &&& u.available@ == parts[3]
            &&& u.used_value == match parse_u32_spec(strip_percent(parts[4])) {
                Some(x) => x,
                None => 0u32,
            }
        },
{
    let ls = split_lines(df_output);
    if ls.len() < 2 {
        return None;
    }
    let parts = split_words(&ls[1]);
    assert(char_views(ls@)[1] == ls@[1]@);
    if parts.len() < 5 {
        return None;
    }
    assert(char_views(parts@)[4] == parts@[4]@);
    assert(char_views(parts@)[3] == parts@[3]@);
    let stripped = strip_percent_exec(&parts[4]);
    let stripped_string = text::string_of(stripped.as_slice());
    let used_value = match parse_u32(stripped_string.as_str()) {
        Some(x) => x,
        None => 0,
    };
    Some(
        DiskUsage {
            used_percent: text::string_of(parts[4].as_slice()),
            used_value,
            available: text::string_of(parts[3].as_slice()),
        },
    )
}

/// How full the disk is for a usage percentage.
pub fn disk_level(used: u32) -> (r: DiskLevel)
    ensures
        r == level_of(used),
{
    if used > 90 {
        DiskLevel::Critical
    } else if used > 80 {
        DiskLevel::High
    } else {
        DiskLevel::Normal
    }
}

} // verus!
