//! Text chunking.
//!
//! Three strategies split a text into chunks:
//! 1. size-based: consecutive pieces of a fixed number of characters;
//! 2. character-based: words packed greedily into chunks of a target size;
//! 3. semantic: paragraphs, else sentences, else character-based chunks.
//!
//! Lengths are counted in `char`s.  Unless whitespace is preserved, the text
//! is trimmed first.

use vstd::prelude::*;
use vstd::seq_lib::lemma_flatten_concat;
use crate::text::{
    append_chars, char_is_whitespace, chars_of, copy_range, split_words, strings_of, trim_chars,
};
use crate::text::{self, char_views, string_views};

verus! {

/// Target size of the character-based fallback of the semantic strategy.
pub const SEMANTIC_FALLBACK_SIZE: usize = 250;

/// Defines different strategies for text chunking.
#[derive(Debug, Clone)]
pub enum ChunkingStrategy {
    /// Splits text at exact character positions, regardless of word boundaries.
    /// The parameter is the maximum size of each chunk.
    Size(usize),
    /// Splits text at word boundaries to preserve meaning.
    /// The parameter is the target size of each chunk.
    Character(usize),
    /// Splits text at natural semantic boundaries like sentences and paragraphs.
    Semantic,
}

/// Configuration options for the text chunker.
#[derive(Debug, Clone)]
pub struct ChunkerOptions {
    /// The strategy to use for chunking.
    pub strategy: ChunkingStrategy,
    /// Whether to preserve whitespace in the chunks.
    pub preserve_whitespace: bool,
    /// Optional delimiter to use between chunks (for display purposes).
    pub delimiter: Option<String>,
    /// Whether to output debug information.
    pub debug: bool,
}

impl Default for ChunkerOptions {
    fn default() -> (r: Self)
        ensures
            r.strategy == ChunkingStrategy::Size(250),
            !r.preserve_whitespace,
            r.delimiter is None,
            !r.debug,
    {
        ChunkerOptions {
            strategy: ChunkingStrategy::Size(250),
            preserve_whitespace: false,
            delimiter: None,
            debug: false,
        }
    }
}

// ---------------------------------------------------------------------------
// Specification
// ---------------------------------------------------------------------------

/// `s` cut into consecutive pieces of `n` characters; the last piece may be shorter.
pub open spec fn split_every(s: Seq<char>, n: nat) -> Seq<Seq<char>>
    decreases s.len(),
{
    if s.len() == 0 {
        seq![]
    } else if n == 0 || s.len() <= n {
        seq![s]
    } else {
        seq![s.take(n as int)] + split_every(s.skip(n as int), n)
    }
}

/// A last piece shorter than half of `n` is appended to the piece before it.
pub open spec fn merge_short_tail(parts: Seq<Seq<char>>, n: nat) -> Seq<Seq<char>> {
    if parts.len() > 1 && parts.last().len() < n / 2 {
        parts.drop_last().drop_last().push(parts[parts.len() - 2] + parts.last())
    } else {
        parts
    }
}

/// The size-based pieces of `s`, with a short tail merged into the piece before it.
pub open spec fn size_chunks(s: Seq<char>, n: nat) -> Seq<Seq<char>> {
    merge_short_tail(split_every(s, n), n)
}

/// What size-based chunking yields for an already prepared text.
pub open spec fn size_chunks_of_text(t: Seq<char>, max_size: nat) -> Seq<Seq<char>> {
    if t.len() <= max_size {
        seq![t]
    } else {
        size_chunks(t, max_size)
    }
}

/// What `size_based_chunking(text, max_size, preserve_whitespace)` yields.
pub open spec fn size_based(text: Seq<char>, max_size: nat, preserve_whitespace: bool) -> Seq<
    Seq<char>,
> {
    size_chunks_of_text(text::prepare(text, preserve_whitespace), max_size)
}

/// Greedy packing of `ws` into chunks of at most `target` characters, words
/// separated by one space, where `cur` is the chunk being filled.  A word
/// longer than `target` ends the current chunk and is cut by size.
pub open spec fn pack(ws: Seq<Seq<char>>, target: nat, cur: Seq<char>) -> Seq<Seq<char>>
    decreases ws.len(),
{
    if ws.len() == 0 {
        text::flush(cur)
    } else {
        let w = ws[0];
        let rest = ws.drop_first();
        if w.len() > target {
            text::flush(cur) + size_chunks(w, target) + pack(rest, target, seq![])
        } else if cur.len() > 0 && cur.len() + w.len() + 1 > target {
            seq![cur] + pack(rest, target, w)
        } else if cur.len() > 0 {
            pack(rest, target, cur.push(' ') + w)
        } else {
            pack(rest, target, w)
        }
    }
}

/// What character-based chunking yields for an already prepared text.
pub open spec fn character_chunks(t: Seq<char>, target: nat) -> Seq<Seq<char>> {
    if t.len() <= target {
        seq![t]
    } else {
        pack(text::words(t), target, seq![])
    }
}

/// What `character_based_chunking(text, target_size, preserve_whitespace)` yields.
pub open spec fn character_based(text: Seq<char>, target: nat, preserve_whitespace: bool) -> Seq<
    Seq<char>,
> {
    character_chunks(text::prepare(text, preserve_whitespace), target)
}

/// The pieces of `s` between occurrences of a blank line ("\n\n"), taken
/// from the left without overlap, where `cur` was collected before `s`.
pub open spec fn paragraphs_from(s: Seq<char>, cur: Seq<char>) -> Seq<Seq<char>>
    decreases s.len(),
{
    if s.len() == 0 {
        seq![cur]
    } else if s.len() >= 2 && s[0] == '\n' && s[1] == '\n' {
        seq![cur] + paragraphs_from(s.skip(2), seq![])
    } else {
        paragraphs_from(s.drop_first(), cur.push(s[0]))
    }
}

/// `s.split("\n\n")`.
pub open spec fn paragraphs(s: Seq<char>) -> Seq<Seq<char>> {
    paragraphs_from(s, seq![])
}

/// Sentence terminators.
pub open spec fn is_terminator(c: char) -> bool {
    c == '.' || c == '!' || c == '?'
}

/// `s` without its trailing terminators.
pub open spec fn strip_terminators(s: Seq<char>) -> Seq<char>
    decreases s.len(),
{
    if s.len() > 0 && is_terminator(s.last()) {
        strip_terminators(s.drop_last())
    } else {
        s
    }
}

/// The sentences of `s`, where `cur` is the sentence begun before `s`.  A
/// sentence ends at a terminator followed by whitespace; it is trimmed and
/// loses its trailing terminators.  The text after the last such end, if
/// there is any, is the last sentence, trimmed only.
pub open spec fn sentences_from(s: Seq<char>, cur: Seq<char>) -> Seq<Seq<char>>
    decreases s.len(),
{
    if s.len() == 0 {
        if cur.len() > 0 {
            seq![text::trim(cur)]
        } else {
            seq![]
        }
    } else {
        let c2 = cur.push(s[0]);
        if is_terminator(s[0]) && s.len() > 1 && text::is_white_space(s[1]) {
            seq![strip_terminators(text::trim(c2))] + sentences_from(s.drop_first(), seq![])
        } else {
            sentences_from(s.drop_first(), c2)
        }
    }
}

/// The sentences of `s`.
pub open spec fn sentences(s: Seq<char>) -> Seq<Seq<char>> {
    sentences_from(s, seq![])
}

/// What `semantic_chunking(text, preserve_whitespace)` yields: the paragraphs
/// when there are several, else the sentences when there are several, else
/// character-based chunks of the fallback size.
pub open spec fn semantic(text: Seq<char>, preserve_whitespace: bool) -> Seq<Seq<char>> {
    let t = text::prepare(text, preserve_whitespace);
    let ps = paragraphs(t);
    if ps.len() > 1 {
        ps
    } else {
        let ss = sentences(t);
        if ss.len() <= 1 {
            character_chunks(text::prepare(t, preserve_whitespace), SEMANTIC_FALLBACK_SIZE as nat)
        } else {
            ss
        }
    }
}

/// What `chunk_text(text, options)` yields.
pub open spec fn chunks(text: Seq<char>, options: ChunkerOptions) -> Seq<Seq<char>> {
    match options.strategy {
        ChunkingStrategy::Size(n) => size_based(text, n as nat, options.preserve_whitespace),
        ChunkingStrategy::Character(n) => character_based(
            text,
            n as nat,
            options.preserve_whitespace,
        ),
        ChunkingStrategy::Semantic => semantic(text, options.preserve_whitespace),
    }
}

/// The inputs on which chunking finishes: a size of zero only on a text
/// that, once prepared, is empty (size) or has no word (character).
pub open spec fn chunking_terminates(text: Seq<char>, options: ChunkerOptions) -> bool {
    match options.strategy {
        ChunkingStrategy::Size(n) => n > 0 || text::prepare(text, options.preserve_whitespace).len()
            == 0,
        ChunkingStrategy::Character(n) => n > 0 || text::words(
            text::prepare(text, options.preserve_whitespace),
        ).len() == 0,
        ChunkingStrategy::Semantic => true,
    }
}

// ---------------------------------------------------------------------------
// Implementation on character vectors
// ---------------------------------------------------------------------------

/// `v`, trimmed unless whitespace is preserved.
fn prepare_chars(v: &Vec<char>, preserve_whitespace: bool) -> (r: Vec<char>)
    ensures
        r@ == text::prepare(v@, preserve_whitespace),
{
    if preserve_whitespace {
        v.clone()
    } else {
        trim_chars(v)
    }
}

/// The size-based pieces of `t` with a short tail merged.
fn size_chunks_exec(t: &Vec<char>, n: usize) -> (r: Vec<Vec<char>>)
    requires
        n > 0,
    ensures
        char_views(r@) == size_chunks(t@, n as nat),
{
    let len = t.len();
    let mut r: Vec<Vec<char>> = Vec::new();
    let mut start: usize = 0;
    assert(t@.skip(0) =~= t@);
    while start < len
        invariant
            n > 0,
            len == t@.len(),
            start <= len,
            char_views(r@) + split_every(t@.skip(start as int), n as nat) == split_every(
                t@,
                n as nat,
            ),
        decreases len - start,
    {
        let ghost before = char_views(r@);
        let ghost s = t@.skip(start as int);
        let end = if len - start <= n {
            len
        } else {
            start + n
        };
        let piece = copy_range(t, start, end);
        r.push(piece);
        if len - start <= n {
            assert(piece@ =~= s);
            assert(t@.skip(end as int) =~= Seq::<char>::empty());
            assert(char_views(r@) =~= before + seq![s]);
            assert(split_every(s, n as nat) == seq![s]);
            assert(char_views(r@) + split_every(t@.skip(end as int), n as nat) =~= before
                + split_every(s, n as nat));
        } else {
            assert(piece@ =~= s.take(n as int));
            assert(s.skip(n as int) =~= t@.skip(end as int));
            assert(char_views(r@) =~= before + seq![s.take(n as int)]);
            assert(char_views(r@) + split_every(t@.skip(end as int), n as nat) =~= before + (seq![
                s.take(n as int),
            ] + split_every(s.skip(n as int), n as nat)));
        }
        start = end;
    }
    assert(t@.skip(len as int) =~= Seq::<char>::empty());
    assert(char_views(r@) =~= split_every(t@, n as nat));
    let count = r.len();
    if count > 1 && r[count - 1].len() < n / 2 {
        let ghost parts = char_views(r@);
        let tail = r.pop().unwrap();
        let mut prev = r.pop().unwrap();
        append_chars(&mut prev, &tail);
        r.push(prev);
        assert(char_views(r@) =~= parts.drop_last().drop_last().push(
            parts[parts.len() - 2] + parts.last(),
        ));
    }
    r
}

/// Size-based chunking of an already prepared text.
fn size_chunks_of_text_exec(t: &Vec<char>, max_size: usize) -> (r: Vec<Vec<char>>)
    requires
        max_size > 0 || t@.len() == 0,
    ensures
        char_views(r@) == size_chunks_of_text(t@, max_size as nat),
{
    if t.len() <= max_size {
        let mut r: Vec<Vec<char>> = Vec::new();
        r.push(t.clone());
        assert(char_views(r@) =~= seq![t@]);
        r
    } else {
        size_chunks_exec(t, max_size)
    }
}

/// Appends the views of `b` to `a`.
fn extend_chunks(a: &mut Vec<Vec<char>>, b: Vec<Vec<char>>)
    ensures
        char_views(final(a)@) == char_views(old(a)@) + char_views(b@),
{
    let mut b = b;
    let ghost bv = b@;
    a.append(&mut b);
    assert(char_views(a@) =~= char_views(old(a)@) + char_views(bv));
}

/// Greedy packing of the words of an already prepared text.
fn character_chunks_exec(t: &Vec<char>, target: usize) -> (r: Vec<Vec<char>>)
    requires
        target > 0 || text::words(t@).len() == 0,
    ensures
        char_views(r@) == character_chunks(t@, target as nat),
{
    if t.len() <= target {
        let mut r: Vec<Vec<char>> = Vec::new();
        r.push(t.clone());
        assert(char_views(r@) =~= seq![t@]);
        return r;
    }
    let ws = split_words(t);
    let ghost wv = char_views(ws@);
    let mut r: Vec<Vec<char>> = Vec::new();
    let mut cur: Vec<char> = Vec::new();
    let mut k: usize = 0;
    assert(wv.skip(0) =~= wv);
    while k < ws.len()
        invariant
            wv == char_views(ws@),
            wv == text::words(t@),
            target > 0 || wv.len() == 0,
            k <= ws@.len(),
            cur@.len() <= target,
            char_views(r@) + pack(wv.skip(k as int), target as nat, cur@) == pack(
                wv,
                target as nat,
                seq![],
            ),
        decreases ws@.len() - k,
    {
        let ghost before = char_views(r@);
        let ghost cur_before = cur@;
        let ghost rest = wv.skip(k as int);
        assert(rest.drop_first() =~= wv.skip(k + 1));
        assert(rest[0] == ws@[k as int]@);
        let w = &ws[k];
        let wlen = w.len();
        let clen = cur.len();
        if wlen > target {
            if clen > 0 {
                r.push(cur);
            }
            assert(char_views(r@) =~= before + text::flush(cur_before));
            cur = Vec::new();
            let pieces = size_chunks_exec(w, target);
            let ghost mid = char_views(r@);
            extend_chunks(&mut r, pieces);
            assert(char_views(r@) + pack(wv.skip(k + 1), target as nat, cur@) =~= before + (
            text::flush(cur_before) + size_chunks(w@, target as nat) + pack(
                rest.drop_first(),
                target as nat,
                seq![],
            )));
        } else if clen > 0 && wlen >= target - clen {
            r.push(cur);
            cur = w.clone();
            assert(char_views(r@) + pack(wv.skip(k + 1), target as nat, cur@) =~= before + (seq![
                cur_before,
            ] + pack(rest.drop_first(), target as nat, w@)));
        } else if clen > 0 {
            cur.push(' ');
            append_chars(&mut cur, w);
        } else {
            cur = w.clone();
        }
        k = k + 1;
    }
    assert(wv.skip(ws@.len() as int) =~= Seq::<Seq<char>>::empty());
    let ghost before = char_views(r@);
    let ghost last = cur@;
    if cur.len() > 0 {
        r.push(cur);
    }
    assert(char_views(r@) =~= before + text::flush(last));
    r
}

/// The pieces of `t` between blank lines.
fn paragraphs_exec(t: &Vec<char>) -> (r: Vec<Vec<char>>)
    ensures
        char_views(r@) == paragraphs(t@),
{
    let n = t.len();
    let mut r: Vec<Vec<char>> = Vec::new();
    let mut cur: Vec<char> = Vec::new();
    let mut i: usize = 0;
    assert(t@.skip(0) =~= t@);
    while i < n
        invariant
            n == t@.len(),
            i <= n,
            char_views(r@) + paragraphs_from(t@.skip(i as int), cur@) == paragraphs(t@),
        decreases n - i,
    {
        let ghost before = char_views(r@);
        let ghost cur_before = cur@;
        let ghost s = t@.skip(i as int);
        if i + 1 < n && t[i] == '\n' && t[i + 1] == '\n' {
            r.push(cur);
            cur = Vec::new();
            assert(s.skip(2) =~= t@.skip(i + 2));
            assert(char_views(r@) + paragraphs_from(t@.skip(i + 2), cur@) =~= before + (seq![
                cur_before,
            ] + paragraphs_from(s.skip(2), seq![])));
            i = i + 2;
        } else {
            assert(s.drop_first() =~= t@.skip(i + 1));
            cur.push(t[i]);
            i = i + 1;
        }
    }
    assert(t@.skip(n as int) =~= Seq::<char>::empty());
    let ghost before = char_views(r@);
    let ghost last = cur@;
    r.push(cur);
    assert(char_views(r@) =~= before + seq![last]);
    r
}

/// A copy of `v` without its trailing terminators.
fn strip_terminators_exec(v: &Vec<char>) -> (r: Vec<char>)
    ensures
        r@ == strip_terminators(v@),
{
    let mut j: usize = v.len();
    assert(v@.take(j as int) =~= v@);
    while j > 0 && (v[j - 1] == '.' || v[j - 1] == '!' || v[j - 1] == '?')
        invariant
            j <= v@.len(),
            strip_terminators(v@) == strip_terminators(v@.take(j as int)),
        decreases j,
    {
        assert(v@.take(j as int).drop_last() =~= v@.take(j - 1));
        j = j - 1;
    }
    copy_range(v, 0, j)
}

/// The sentences of `t`.
fn sentences_exec(t: &Vec<char>) -> (r: Vec<Vec<char>>)
    ensures
        char_views(r@) == sentences(t@),
{
    let n = t.len();
    let mut r: Vec<Vec<char>> = Vec::new();
    let mut cur: Vec<char> = Vec::new();
    let mut i: usize = 0;
    assert(t@.skip(0) =~= t@);
    while i < n
        invariant
            n == t@.len(),
            i <= n,
            char_views(r@) + sentences_from(t@.skip(i as int), cur@) == sentences(t@),
        decreases n - i,
    {
        let ghost before = char_views(r@);
        let ghost s = t@.skip(i as int);
        assert(s.drop_first() =~= t@.skip(i + 1));
        let c = t[i];
        cur.push(c);
        let ghost c2 = cur@;
        if (c == '.' || c == '!' || c == '?') && i + 1 < n && char_is_whitespace(t[i + 1]) {
            let trimmed = trim_chars(&cur);
            let sentence = strip_terminators_exec(&trimmed);
            r.push(sentence);
            cur = Vec::new();
            assert(char_views(r@) + sentences_from(t@.skip(i + 1), cur@) =~= before + (seq![
                strip_terminators(text::trim(c2)),
            ] + sentences_from(s.drop_first(), seq![])));
        }
        i = i + 1;
    }
    assert(t@.skip(n as int) =~= Seq::<char>::empty());
    let ghost before = char_views(r@);
    if cur.len() > 0 {
        let last = trim_chars(&cur);
        r.push(last);
        assert(char_views(r@) =~= before + seq![text::trim(cur@)]);
    } else {
        assert(char_views(r@) =~= before);
    }
    r
}

/// Semantic chunking of `v`.
fn semantic_exec(v: &Vec<char>, preserve_whitespace: bool) -> (r: Vec<Vec<char>>)
    ensures
        char_views(r@) == semantic(v@, preserve_whitespace),
{
    let t = prepare_chars(v, preserve_whitespace);
    let ps = paragraphs_exec(&t);
    if ps.len() > 1 {
        return ps;
    }
    let ss = sentences_exec(&t);
    if ss.len() <= 1 {
        let t2 = prepare_chars(&t, preserve_whitespace);
        character_chunks_exec(&t2, SEMANTIC_FALLBACK_SIZE)
    } else {
        ss
    }
}

// ---------------------------------------------------------------------------
// Public API
// ---------------------------------------------------------------------------

/// Splits text at exact character positions, regardless of word boundaries.
/// A last chunk shorter than half of `max_size` is merged into the one before it.
pub fn size_based_chunking(text: &str, max_size: usize, preserve_whitespace: bool) -> (r: Vec<
    String,
>)
    requires
        max_size > 0 || text::prepare(text@, preserve_whitespace).len() == 0,
    ensures
        string_views(r@) == size_based(text@, max_size as nat, preserve_whitespace),
{
    let v = chars_of(text);
    let t = prepare_chars(&v, preserve_whitespace);
    let pieces = size_chunks_of_text_exec(&t, max_size);
    strings_of(&pieces)
}

/// Splits text at word boundaries to preserve semantic units.
pub fn character_based_chunking(text: &str, target_size: usize, preserve_whitespace: bool) -> (r:
    Vec<String>)
    requires
        target_size > 0 || text::words(text::prepare(text@, preserve_whitespace)).len() == 0,
    ensures
        string_views(r@) == character_based(text@, target_size as nat, preserve_whitespace),
{
    let v = chars_of(text);
    let t = prepare_chars(&v, preserve_whitespace);
    let pieces = character_chunks_exec(&t, target_size);
    strings_of(&pieces)
}

/// Splits text at natural semantic boundaries like sentences and paragraphs.
pub fn semantic_chunking(text: &str, preserve_whitespace: bool) -> (r: Vec<String>)
    ensures
        string_views(r@) == semantic(text@, preserve_whitespace),
{
    let v = chars_of(text);
    let pieces = semantic_exec(&v, preserve_whitespace);
    strings_of(&pieces)
}

/// Chunks text based on the provided chunking strategy.
pub fn chunk_text(text: &str, options: ChunkerOptions) -> (r: Vec<String>)
    requires
        chunking_terminates(text@, options),
    ensures
        string_views(r@) == chunks(text@, options),
{
    match options.strategy {
        ChunkingStrategy::Size(max_size) => size_based_chunking(
            text,
            max_size,
            options.preserve_whitespace,
        ),
        ChunkingStrategy::Character(target_size) => character_based_chunking(
            text,
            target_size,
            options.preserve_whitespace,
        ),
        ChunkingStrategy::Semantic => semantic_chunking(text, options.preserve_whitespace),
    }
}

/// Chunks text when chunking finishes on it, and answers `None` on the
/// inputs on which it would not (a size of zero on a text with content).
pub fn try_chunk_text(text: &str, options: ChunkerOptions) -> (r: Option<Vec<String>>)
    ensures
        r is Some <==> chunking_terminates(text@, options),
        r matches Some(v) ==> string_views(v@) == chunks(text@, options),
{
    let ok = match options.strategy {
        ChunkingStrategy::Size(n) => {
            if n > 0 {
                true
            } else {
                let v = chars_of(text);
                let t = prepare_chars(&v, options.preserve_whitespace);
                t.len() == 0
            }
        },
        ChunkingStrategy::Character(n) => {
            if n > 0 {
                true
            } else {
                let v = chars_of(text);
                let t = prepare_chars(&v, options.preserve_whitespace);
                let ws = split_words(&t);
                ws.len() == 0
            }
        },
        ChunkingStrategy::Semantic => true,
    };
    if ok {
        Some(chunk_text(text, options))
    } else {
        None
    }
}

// ---------------------------------------------------------------------------
// Output of the command line
// ---------------------------------------------------------------------------

/// The JSON text of an array of strings, as `serde_json::to_string` writes
/// it, or `None` when serialisation fails.
pub uninterp spec fn json_array_of_strings(items: Seq<Seq<char>>) -> Option<Seq<char>>;

/// `serde_json::to_string` on a list of strings; an error becomes `None`.
#[verifier::external_body]
fn strings_to_json(items: &Vec<String>) -> (r: Option<String>)
    ensures
        match r {
            Some(t) => json_array_of_strings(string_views(items@)) == Some(t@),
            None => json_array_of_strings(string_views(items@)) is None,
        },
{
    serde_json::to_string(items).ok()
}

/// The decimal digit of `d` (`0 <= d < 10`).
pub open spec fn digit_char(d: int) -> char {
    (d + 48) as char
}

/// The decimal notation of `n`, without leading zeros.
pub open spec fn decimal_text(n: nat) -> Seq<char>
    decreases n,
{
    if n < 10 {
        seq![digit_char(n as int)]
    } else {
        decimal_text(n / 10).push(digit_char((n % 10) as int))
    }
}

/// The chunks, each preceded by its number from 1 and `": "`.
pub open spec fn numbered_lines(cs: Seq<Seq<char>>) -> Seq<Seq<char>> {
    Seq::new(cs.len(), |i: int| decimal_text((i + 1) as nat) + seq![':', ' '] + cs[i])
}

/// The decimal notation of `n`.
fn decimal_chars(n: usize) -> (r: Vec<char>)
    ensures
        r@ == decimal_text(n as nat),
    decreases n,
{
    if n < 10 {
        let d = (n as u8 + 48u8) as char;
        vec![d]
    } else {
        let mut v = decimal_chars(n / 10);
        let d = ((n % 10) as u8 + 48u8) as char;
        v.push(d);
        v
    }
}

/// The lines the chunking command prints for `chunks`: one line holding
/// the chunks as a JSON array when `json` is set, else each chunk numbered
/// from 1 when `numbered` is set, else each chunk as it is.  `None` when the
/// JSON could not be written.
pub fn format_chunks(chunks: &Vec<String>, json: bool, numbered: bool) -> (r: Option<Vec<String>>)
    ensures
        json ==> match json_array_of_strings(string_views(chunks@)) {
            Some(t) => r matches Some(lines) && string_views(lines@) == seq![t],
            None => r is None,
        },
        !json && numbered ==> (r matches Some(lines) && string_views(lines@) == numbered_lines(
            string_views(chunks@),
        )),
        !json && !numbered ==> (r matches Some(lines) && string_views(lines@) == string_views(
            chunks@,
        )),
{
    if json {
        match strings_to_json(chunks) {
            Some(t) => {
                let ghost tv = t@;
                let mut lines: Vec<String> = Vec::new();
                lines.push(t);
                assert(string_views(lines@) =~= seq![tv]);
                Some(lines)
            },
            None => None,
        }
    } else if numbered {
        let ghost cv = string_views(chunks@);
        let mut lines: Vec<String> = Vec::new();
        let mut i: usize = 0;
        while i < chunks.len()
            invariant
                cv == string_views(chunks@),
                i <= chunks@.len(),
                string_views(lines@) == numbered_lines(cv).take(i as int),
            decreases chunks@.len() - i,
        {
            let mut line = decimal_chars(i + 1);
            line.push(':');
            line.push(' ');
            let body = chars_of(chunks[i].as_str());
            append_chars(&mut line, &body);
            let ghost before = string_views(lines@);
            lines.push(text::string_of(line.as_slice()));
            assert(line@ =~= numbered_lines(cv)[i as int]);
            assert(string_views(lines@) =~= before.push(line@));
            assert(numbered_lines(cv).take(i + 1) =~= numbered_lines(cv).take(i as int).push(
                numbered_lines(cv)[i as int],
            ));
            i = i + 1;
        }
        assert(numbered_lines(cv).take(chunks@.len() as int) =~= numbered_lines(cv));
        Some(lines)
    } else {
        let ghost cv = string_views(chunks@);
        let mut lines: Vec<String> = Vec::new();
        let mut i: usize = 0;
        while i < chunks.len()
            invariant
                cv == string_views(chunks@),
                i <= chunks@.len(),
                string_views(lines@) == cv.take(i as int),
            decreases chunks@.len() - i,
        {
            let ghost before = string_views(lines@);
            lines.push(text::string_of(chars_of(chunks[i].as_str()).as_slice()));
            assert(string_views(lines@) =~= before.push(cv[i as int]));
            assert(cv.take(i + 1) =~= cv.take(i as int).push(cv[i as int]));
            i = i + 1;
        }
        assert(cv.take(chunks@.len() as int) =~= cv);
        Some(lines)
    }
}

// ---------------------------------------------------------------------------
// Laws
// ---------------------------------------------------------------------------

/// Every piece in `ps` has at most `m` characters.
pub open spec fn all_at_most(ps: Seq<Seq<char>>, m: int) -> bool {
    forall|i: int| 0 <= i < ps.len() ==> (#[trigger] ps[i]).len() <= m
}

/// A character that is not whitespace.
pub open spec fn visible_char(c: char) -> bool {
    !text::is_white_space(c)
}

/// The characters of `s` other than whitespace, in order.
pub open spec fn visible(s: Seq<char>) -> Seq<char>
    decreases s.len(),
{
    if s.len() == 0 {
        seq![]
    } else {
        visible(s.drop_last()) + if visible_char(s.last()) {
            seq![s.last()]
        } else {
            seq![]
        }
    }
}

proof fn lemma_all_at_most_concat(a: Seq<Seq<char>>, b: Seq<Seq<char>>, m: int)
    requires
        all_at_most(a, m),
        all_at_most(b, m),
    ensures
        all_at_most(a + b, m),
{
    assert forall|i: int| 0 <= i < (a + b).len() implies (#[trigger] (a + b)[i]).len() <= m by {
        if i >= a.len() {
            assert((a + b)[i] == b[i - a.len()]);
        }
    }
}

/// The pieces of `split_every`, concatenated, are the sequence.
pub proof fn lemma_split_every_flatten(s: Seq<char>, n: nat)
    ensures
        split_every(s, n).flatten() == s,
    decreases s.len(),
{
    if s.len() == 0 {
    } else if n == 0 || s.len() <= n {
        seq![s].lemma_flatten_singleton();
    } else {
        lemma_split_every_flatten(s.skip(n as int), n);
        let ps = seq![s.take(n as int)] + split_every(s.skip(n as int), n);
        assert(ps.drop_first() =~= split_every(s.skip(n as int), n));
        assert(s.take(n as int) + s.skip(n as int) =~= s);
    }
}

proof fn lemma_merge_flatten(parts: Seq<Seq<char>>, n: nat)
    ensures
        merge_short_tail(parts, n).flatten() == parts.flatten(),
{
    if parts.len() > 1 && parts.last().len() < n / 2 {
        let a = parts.drop_last().drop_last();
        let p = parts[parts.len() - 2];
        let q = parts.last();
        assert(parts =~= a.push(p).push(q));
        a.lemma_flatten_push(p);
        a.push(p).lemma_flatten_push(q);
        a.lemma_flatten_push(p + q);
        assert(a.flatten() + p + q =~= a.flatten() + (p + q));
    }
}

proof fn lemma_size_chunks_flatten(s: Seq<char>, n: nat)
    ensures
        size_chunks(s, n).flatten() == s,
{
    lemma_split_every_flatten(s, n);
    lemma_merge_flatten(split_every(s, n), n);
}

/// Pieces of `split_every` are non-empty, at most `n` long, and all but the
/// last exactly `n` long.
proof fn lemma_split_every_lengths(s: Seq<char>, n: nat)
    requires
        n > 0,
    ensures
        all_at_most(split_every(s, n), n as int),
        forall|i: int|
            0 <= i < split_every(s, n).len() - 1 ==> (#[trigger] split_every(s, n)[i]).len() == n,
    decreases s.len(),
{
    if s.len() == 0 || s.len() <= n {
    } else {
        let rest = split_every(s.skip(n as int), n);
        lemma_split_every_lengths(s.skip(n as int), n);
        let ps = seq![s.take(n as int)] + rest;
        assert forall|i: int| 0 <= i < ps.len() implies (#[trigger] ps[i]).len() <= n by {
            if i > 0 {
                assert(ps[i] == rest[i - 1]);
            }
        }
        assert forall|i: int| 0 <= i < ps.len() - 1 implies (#[trigger] ps[i]).len() == n by {
            if i > 0 {
                assert(ps[i] == rest[i - 1]);
            }
        }
    }
}

/// Size-based pieces have at most `n + n / 2` characters, and all but the
/// last exactly `n`.
proof fn lemma_size_chunks_lengths(s: Seq<char>, n: nat)
    requires
        n > 0,
    ensures
        all_at_most(size_chunks(s, n), (n + n / 2) as int),
        forall|i: int|
            0 <= i < size_chunks(s, n).len() - 1 ==> (#[trigger] size_chunks(s, n)[i]).len() == n,
{
    let parts = split_every(s, n);
    lemma_split_every_lengths(s, n);
    if parts.len() > 1 && parts.last().len() < n / 2 {
        let a = parts.drop_last().drop_last();
        let m = size_chunks(s, n);
        assert(m =~= a.push(parts[parts.len() - 2] + parts.last()));
        assert forall|i: int| 0 <= i < m.len() implies (#[trigger] m[i]).len() <= n + n / 2 by {
            if i < a.len() {
                assert(m[i] == parts[i]);
            }
        }
        assert forall|i: int| 0 <= i < m.len() - 1 implies (#[trigger] m[i]).len() == n by {
            assert(m[i] == parts[i]);
        }
    }
}

/// Size-based chunking loses nothing: its chunks, concatenated, are the
/// (trimmed, unless whitespace is preserved) text.
pub proof fn law_size_chunks_concatenate_to_text(
    text: Seq<char>,
    max_size: nat,
    preserve_whitespace: bool,
)
    ensures
        size_based(text, max_size, preserve_whitespace).flatten() == text::prepare(
            text,
            preserve_whitespace,
        ),
{
    let t = text::prepare(text, preserve_whitespace);
    if t.len() <= max_size {
        seq![t].lemma_flatten_singleton();
    } else {
        lemma_size_chunks_flatten(t, max_size);
    }
}

/// Size-based chunks have at most `max_size + max_size / 2` characters; when
/// the text is longer than `max_size`, every chunk but the last has exactly
/// `max_size` characters.
pub proof fn law_size_chunk_lengths(text: Seq<char>, max_size: nat, preserve_whitespace: bool)
    requires
        max_size > 0,
    ensures
        all_at_most(
            size_based(text, max_size, preserve_whitespace),
            (max_size + max_size / 2) as int,
        ),
        text::prepare(text, preserve_whitespace).len() > max_size ==> forall|i: int|
            0 <= i < size_based(text, max_size, preserve_whitespace).len() - 1
                ==> (#[trigger] size_based(text, max_size, preserve_whitespace)[i]).len()
                == max_size,
{
    let t = text::prepare(text, preserve_whitespace);
    if t.len() > max_size {
        lemma_size_chunks_lengths(t, max_size);
    }
}

proof fn lemma_visible_concat(a: Seq<char>, b: Seq<char>)
    ensures
        visible(a + b) == visible(a) + visible(b),
    decreases b.len(),
{
    if b.len() == 0 {
        assert(a + b =~= a);
    } else {
        lemma_visible_concat(a, b.drop_last());
        assert((a + b).drop_last() =~= a + b.drop_last());
        assert((a + b).last() == b.last());
    }
}

proof fn lemma_visible_white_space(c: char, s: Seq<char>)
    requires
        !visible_char(c),
    ensures
        visible(seq![c] + s) == visible(s),
{
    lemma_visible_concat(seq![c], s);
    assert(seq![c].drop_last() =~= Seq::<char>::empty());
    assert(seq![c].last() == c);
    assert(visible(Seq::<char>::empty()) =~= Seq::<char>::empty());
    assert(visible(seq![c]) =~= Seq::<char>::empty());
    assert(Seq::<char>::empty() + visible(s) =~= visible(s));
}

proof fn lemma_visible_trim_start(s: Seq<char>)
    ensures
        visible(text::trim_start(s)) == visible(s),
    decreases s.len(),
{
    if s.len() > 0 && text::is_white_space(s[0]) {
        lemma_visible_trim_start(s.drop_first());
        assert(s =~= seq![s[0]] + s.drop_first());
        lemma_visible_white_space(s[0], s.drop_first());
    }
}

proof fn lemma_visible_trim_end(s: Seq<char>)
    ensures
        visible(text::trim_end(s)) == visible(s),
    decreases s.len(),
{
    if s.len() > 0 && text::is_white_space(s.last()) {
        lemma_visible_trim_end(s.drop_last());
    }
}

proof fn lemma_visible_prepare(s: Seq<char>, preserve_whitespace: bool)
    ensures
        visible(text::prepare(s, preserve_whitespace)) == visible(s),
{
    lemma_visible_trim_start(s);
    lemma_visible_trim_end(text::trim_start(s));
}

proof fn lemma_flatten_flush(cur: Seq<char>)
    ensures
        text::flush(cur).flatten() == (if cur.len() > 0 {
            cur
        } else {
            Seq::<char>::empty()
        }),
{
    if cur.len() > 0 {
        seq![cur].lemma_flatten_singleton();
    }
}

proof fn lemma_words_visible(s: Seq<char>, cur: Seq<char>)
    ensures
        visible(text::words_from(s, cur).flatten()) == visible(cur + s),
    decreases s.len(),
{
    lemma_flatten_flush(cur);
    if s.len() == 0 {
        assert(cur + s =~= cur);
    } else if text::is_white_space(s[0]) {
        lemma_words_visible(s.drop_first(), seq![]);
        lemma_flatten_concat(text::flush(cur), text::words_from(s.drop_first(), seq![]));
        assert(Seq::<char>::empty() + s.drop_first() =~= s.drop_first());
        lemma_visible_concat(text::flush(cur).flatten(), text::words_from(s.drop_first(), seq![]).flatten());
        assert(s =~= seq![s[0]] + s.drop_first());
        lemma_visible_white_space(s[0], s.drop_first());
        lemma_visible_concat(cur, s);
        if cur.len() == 0 {
            assert(Seq::<char>::empty() + s =~= s);
            lemma_visible_concat(Seq::<char>::empty(), s);
        }
    } else {
        lemma_words_visible(s.drop_first(), cur.push(s[0]));
        assert(cur.push(s[0]) + s.drop_first() =~= cur + s);
    }
}

proof fn lemma_pack_visible(ws: Seq<Seq<char>>, target: nat, cur: Seq<char>)
    ensures
        visible(pack(ws, target, cur).flatten()) == visible(cur + ws.flatten()),
    decreases ws.len(),
{
    lemma_flatten_flush(cur);
    if ws.len() == 0 {
        assert(cur + ws.flatten() =~= cur);
        if cur.len() == 0 {
            assert(visible(Seq::<char>::empty()) == Seq::<char>::empty());
        }
    } else {
        let w = ws[0];
        let rest = ws.drop_first();
        assert(ws.flatten() == w + rest.flatten());
        if w.len() > target {
            lemma_pack_visible(rest, target, seq![]);
            lemma_size_chunks_flatten(w, target);
            let a = text::flush(cur);
            let b = size_chunks(w, target);
            let c = pack(rest, target, seq![]);
            lemma_flatten_concat(a + b, c);
            lemma_flatten_concat(a, b);
            lemma_visible_concat(a.flatten() + b.flatten(), c.flatten());
            lemma_visible_concat(a.flatten(), b.flatten());
            assert(Seq::<char>::empty() + rest.flatten() =~= rest.flatten());
            lemma_visible_concat(cur, w + rest.flatten());
            lemma_visible_concat(w, rest.flatten());
            if cur.len() == 0 {
                lemma_visible_concat(Seq::<char>::empty(), Seq::<char>::empty());
            }
        } else if cur.len() > 0 && cur.len() + w.len() + 1 > target {
            lemma_pack_visible(rest, target, w);
            let c = pack(rest, target, w);
            lemma_flatten_concat(seq![cur], c);
            seq![cur].lemma_flatten_singleton();
            lemma_visible_concat(cur, c.flatten());
            lemma_visible_concat(cur, w + rest.flatten());
            assert(cur + (w + rest.flatten()) =~= cur + w + rest.flatten());
        } else if cur.len() > 0 {
            lemma_pack_visible(rest, target, cur.push(' ') + w);
            let x = cur.push(' ') + w + rest.flatten();
            assert(x =~= cur + (seq![' '] + (w + rest.flatten())));
            lemma_visible_concat(cur, seq![' '] + (w + rest.flatten()));
            lemma_visible_white_space(' ', w + rest.flatten());
            lemma_visible_concat(cur, w + rest.flatten());
        } else {
            lemma_pack_visible(rest, target, w);
            assert(cur + ws.flatten() =~= w + rest.flatten());
        }
    }
}

/// Character-based chunking keeps every character of the text other than
/// whitespace, in order: removing whitespace from the chunks,
/// concatenated, gives the text with its whitespace removed.
pub proof fn law_character_chunks_keep_content(
    text: Seq<char>,
    target: nat,
    preserve_whitespace: bool,
)
    ensures
        visible(character_based(text, target, preserve_whitespace).flatten()) == visible(text),
{
    let t = text::prepare(text, preserve_whitespace);
    lemma_visible_prepare(text, preserve_whitespace);
    if t.len() <= target {
        seq![t].lemma_flatten_singleton();
    } else {
        lemma_pack_visible(text::words(t), target, seq![]);
        lemma_words_visible(t, seq![]);
        assert(Seq::<char>::empty() + t =~= t);
        assert(Seq::<char>::empty() + text::words(t).flatten() =~= text::words(t).flatten());
    }
}

proof fn lemma_pack_lengths(ws: Seq<Seq<char>>, target: nat, cur: Seq<char>)
    requires
        target > 0,
        cur.len() <= target,
    ensures
        all_at_most(pack(ws, target, cur), (target + target / 2) as int),
    decreases ws.len(),
{
    let m = (target + target / 2) as int;
    if ws.len() == 0 {
    } else {
        let w = ws[0];
        let rest = ws.drop_first();
        if w.len() > target {
            lemma_pack_lengths(rest, target, seq![]);
            lemma_size_chunks_lengths(w, target);
            lemma_all_at_most_concat(text::flush(cur), size_chunks(w, target), m);
            lemma_all_at_most_concat(
                text::flush(cur) + size_chunks(w, target),
                pack(rest, target, seq![]),
                m,
            );
        } else if cur.len() > 0 && cur.len() + w.len() + 1 > target {
            lemma_pack_lengths(rest, target, w);
            lemma_all_at_most_concat(seq![cur], pack(rest, target, w), m);
        } else if cur.len() > 0 {
            lemma_pack_lengths(rest, target, cur.push(' ') + w);
        } else {
            lemma_pack_lengths(rest, target, w);
        }
    }
}

/// Character-based chunks have at most `target + target / 2` characters
/// (only a word longer than the target, cut by size, can exceed it).
pub proof fn law_character_chunk_lengths(text: Seq<char>, target: nat, preserve_whitespace: bool)
    requires
        target > 0,
    ensures
        all_at_most(
            character_based(text, target, preserve_whitespace),
            (target + target / 2) as int,
        ),
{
    let t = text::prepare(text, preserve_whitespace);
    if t.len() > target {
        lemma_pack_lengths(text::words(t), target, seq![]);
    }
}

proof fn lemma_join_with_prepend(a: Seq<char>, ps: Seq<Seq<char>>, sep: Seq<char>)
    requires
        ps.len() > 0,
    ensures
        text::join_with(seq![a] + ps, sep) == a + sep + text::join_with(ps, sep),
    decreases ps.len(),
{
    let all = seq![a] + ps;
    if ps.len() == 1 {
        assert(all.drop_last() =~= seq![a]);
        assert(all.last() == ps[0]);
        assert(text::join_with(seq![a], sep) == a);
    } else {
        lemma_join_with_prepend(a, ps.drop_last(), sep);
        assert(all.drop_last() =~= seq![a] + ps.drop_last());
        assert(all.last() == ps.last());
        assert(text::join_with(ps, sep) == text::join_with(ps.drop_last(), sep) + sep + ps.last());
        assert(a + sep + text::join_with(ps.drop_last(), sep) + sep + ps.last() =~= a + sep + (
        text::join_with(ps.drop_last(), sep) + sep + ps.last()));
    }
}

proof fn lemma_paragraphs_rejoin(s: Seq<char>, cur: Seq<char>)
    ensures
        paragraphs_from(s, cur).len() > 0,
        text::join_with(paragraphs_from(s, cur), seq!['\n', '\n']) == cur + s,
    decreases s.len(),
{
    let sep = seq!['\n', '\n'];
    if s.len() == 0 {
        assert(cur + s =~= cur);
    } else if s.len() >= 2 && s[0] == '\n' && s[1] == '\n' {
        lemma_paragraphs_rejoin(s.skip(2), seq![]);
        lemma_join_with_prepend(cur, paragraphs_from(s.skip(2), seq![]), sep);
        assert(cur + sep + (Seq::<char>::empty() + s.skip(2)) =~= cur + s);
    } else {
        lemma_paragraphs_rejoin(s.drop_first(), cur.push(s[0]));
        assert(cur.push(s[0]) + s.drop_first() =~= cur + s);
    }
}

/// When the prepared text holds a blank line, semantic chunks are its
/// paragraphs: joined again with blank lines they give the text back.
pub proof fn law_semantic_paragraphs_rejoin(text: Seq<char>, preserve_whitespace: bool)
    ensures
        paragraphs(text::prepare(text, preserve_whitespace)).len() > 1 ==> text::join_with(
            semantic(text, preserve_whitespace),
            seq!['\n', '\n'],
        ) == text::prepare(text, preserve_whitespace),
{
    let t = text::prepare(text, preserve_whitespace);
    lemma_paragraphs_rejoin(t, seq![]);
    assert(Seq::<char>::empty() + t =~= t);
}

/// `s` is empty, or starts and ends with a character that is not whitespace.
pub open spec fn edges_not_white(s: Seq<char>) -> bool {
    s.len() == 0 || (!text::is_white_space(s[0]) && !text::is_white_space(s.last()))
}

proof fn lemma_trim_fixed(s: Seq<char>)
    requires
        edges_not_white(s),
    ensures
        text::trim(s) == s,
{
}

proof fn lemma_no_white_space_edges(s: Seq<char>)
    requires
        text::no_white_space(s),
    ensures
        edges_not_white(s),
{
    if s.len() > 0 {
        assert(!text::is_white_space(s[0]));
        assert(!text::is_white_space(s[s.len() - 1]));
    }
}

proof fn lemma_split_every_no_white_space(s: Seq<char>, n: nat)
    requires
        text::no_white_space(s),
    ensures
        forall|i: int|
            0 <= i < split_every(s, n).len() ==> text::no_white_space(
                #[trigger] split_every(s, n)[i],
            ),
    decreases s.len(),
{
    if s.len() > 0 && !(n == 0 || s.len() <= n) {
        let a = s.take(n as int);
        let b = s.skip(n as int);
        assert forall|k: int| 0 <= k < a.len() implies !text::is_white_space(#[trigger] a[k]) by {
            assert(a[k] == s[k]);
        }
        assert forall|k: int| 0 <= k < b.len() implies !text::is_white_space(#[trigger] b[k]) by {
            assert(b[k] == s[k + n]);
        }
        lemma_split_every_no_white_space(b, n);
        let ps = seq![a] + split_every(b, n);
        assert forall|i: int| 0 <= i < ps.len() implies text::no_white_space(#[trigger] ps[i]) by {
            if i > 0 {
                assert(ps[i] == split_every(b, n)[i - 1]);
            }
        }
    }
}

proof fn lemma_size_chunks_no_white_space(s: Seq<char>, n: nat)
    requires
        text::no_white_space(s),
    ensures
        forall|i: int|
            0 <= i < size_chunks(s, n).len() ==> text::no_white_space(
                #[trigger] size_chunks(s, n)[i],
            ),
{
    let parts = split_every(s, n);
    lemma_split_every_no_white_space(s, n);
    if parts.len() > 1 && parts.last().len() < n / 2 {
        let m = size_chunks(s, n);
        let p = parts[parts.len() - 2];
        let q = parts.last();
        assert(text::no_white_space(p + q)) by {
            assert(text::no_white_space(p));
            assert(text::no_white_space(q));
            assert forall|k: int| 0 <= k < (p + q).len() implies !text::is_white_space(
                #[trigger] (p + q)[k],
            ) by {
                if k >= p.len() {
                    assert((p + q)[k] == q[k - p.len()]);
                }
            }
        }
        assert forall|i: int| 0 <= i < m.len() implies text::no_white_space(#[trigger] m[i]) by {
            if i < m.len() - 1 {
                assert(m[i] == parts[i]);
            }
        }
    }
}

proof fn lemma_pack_edges(ws: Seq<Seq<char>>, target: nat, cur: Seq<char>)
    requires
        forall|k: int|
            0 <= k < ws.len() ==> (#[trigger] ws[k]).len() > 0 && text::no_white_space(ws[k]),
        edges_not_white(cur),
    ensures
        forall|i: int|
            0 <= i < pack(ws, target, cur).len() ==> edges_not_white(
                #[trigger] pack(ws, target, cur)[i],
            ),
    decreases ws.len(),
{
    if ws.len() > 0 {
        let w = ws[0];
        let rest = ws.drop_first();
        assert forall|k: int| 0 <= k < rest.len() implies (#[trigger] rest[k]).len() > 0
            && text::no_white_space(rest[k]) by {
            assert(rest[k] == ws[k + 1]);
        }
        assert(w.len() > 0 && text::no_white_space(w));
        lemma_no_white_space_edges(w);
        if w.len() > target {
            lemma_pack_edges(rest, target, seq![]);
            lemma_size_chunks_no_white_space(w, target);
            let a = text::flush(cur);
            let b = size_chunks(w, target);
            let c = pack(rest, target, seq![]);
            assert(pack(ws, target, cur) == a + b + c);
            assert forall|i: int| 0 <= i < (a + b + c).len() implies edges_not_white(
                #[trigger] (a + b + c)[i],
            ) by {
                if i < a.len() {
                    assert((a + b + c)[i] == cur);
                } else if i < a.len() + b.len() {
                    assert((a + b + c)[i] == b[i - a.len()]);
                    lemma_no_white_space_edges(b[i - a.len()]);
                } else {
                    assert((a + b + c)[i] == c[i - a.len() - b.len()]);
                }
            }
        } else if cur.len() > 0 && cur.len() + w.len() + 1 > target {
            lemma_pack_edges(rest, target, w);
            let c = pack(rest, target, w);
            assert(pack(ws, target, cur) == seq![cur] + c);
            assert forall|i: int| 0 <= i < (seq![cur] + c).len() implies edges_not_white(
                #[trigger] (seq![cur] + c)[i],
            ) by {
                if i > 0 {
                    assert((seq![cur] + c)[i] == c[i - 1]);
                }
            }
        } else if cur.len() > 0 {
            let joined = cur.push(' ') + w;
            assert(joined[0] == cur[0]);
            assert(joined.last() == w.last());
            lemma_pack_edges(rest, target, joined);
            assert(pack(ws, target, cur) == pack(rest, target, joined));
        } else {
            lemma_pack_edges(rest, target, w);
            assert(pack(ws, target, cur) == pack(rest, target, w));
        }
    }
}

/// When the text is longer than the target, character-based chunks start
/// and end with a word: trimming a chunk changes nothing.
pub proof fn law_character_chunks_are_trimmed(
    text: Seq<char>,
    target: nat,
    preserve_whitespace: bool,
)
    requires
        text::prepare(text, preserve_whitespace).len() > target,
    ensures
        forall|i: int|
            0 <= i < character_based(text, target, preserve_whitespace).len() ==> text::trim(
                #[trigger] character_based(text, target, preserve_whitespace)[i],
            ) == character_based(text, target, preserve_whitespace)[i],
{
    let t = text::prepare(text, preserve_whitespace);
    text::lemma_words_from_shape(t, seq![]);
    lemma_pack_edges(text::words(t), target, seq![]);
    let cs = character_based(text, target, preserve_whitespace);
    assert forall|i: int| 0 <= i < cs.len() implies text::trim(#[trigger] cs[i]) == cs[i] by {
        lemma_trim_fixed(cs[i]);
    }
}

/// `s` ends with a sentence terminator.
pub open spec fn ends_with_terminator(s: Seq<char>) -> bool {
    s.len() > 0 && is_terminator(s.last())
}

proof fn lemma_strip_terminators_ends(s: Seq<char>)
    ensures
        !ends_with_terminator(strip_terminators(s)),
    decreases s.len(),
{
    if s.len() > 0 && is_terminator(s.last()) {
        lemma_strip_terminators_ends(s.drop_last());
    }
}

proof fn lemma_sentences_from_ends(s: Seq<char>, cur: Seq<char>)
    ensures
        forall|i: int|
            0 <= i < sentences_from(s, cur).len() - 1 ==> !ends_with_terminator(
                #[trigger] sentences_from(s, cur)[i],
            ),
    decreases s.len(),
{
    if s.len() > 0 {
        let c2 = cur.push(s[0]);
        if is_terminator(s[0]) && s.len() > 1 && text::is_white_space(s[1]) {
            lemma_sentences_from_ends(s.drop_first(), seq![]);
            lemma_strip_terminators_ends(text::trim(c2));
            let rest = sentences_from(s.drop_first(), seq![]);
            let all = seq![strip_terminators(text::trim(c2))] + rest;
            assert(sentences_from(s, cur) == all);
            assert forall|i: int| 0 <= i < all.len() - 1 implies !ends_with_terminator(
                #[trigger] all[i],
            ) by {
                if i > 0 {
                    assert(all[i] == rest[i - 1]);
                }
            }
        } else {
            lemma_sentences_from_ends(s.drop_first(), c2);
            assert(sentences_from(s, cur) == sentences_from(s.drop_first(), c2));
        }
    }
}

/// Every sentence but the last loses its terminators: only the final
/// sentence of a text keeps its closing punctuation.
pub proof fn law_inner_sentences_lose_terminators(text: Seq<char>, preserve_whitespace: bool)
    ensures
        forall|i: int|
            0 <= i < sentences(text::prepare(text, preserve_whitespace)).len() - 1
                ==> !ends_with_terminator(
                #[trigger] sentences(text::prepare(text, preserve_whitespace))[i],
            ),
{
    lemma_sentences_from_ends(text::prepare(text, preserve_whitespace), seq![]);
}


/// `s` has a blank line: two newlines in a row.
pub open spec fn has_blank_line(s: Seq<char>) -> bool {
    exists|i: int| 0 <= i < s.len() - 1 && #[trigger] s[i] == '\n' && s[i + 1] == '\n'
}

/// `s` has a sentence break: a terminator followed by whitespace.
pub open spec fn has_sentence_break(s: Seq<char>) -> bool {
    exists|i: int|
        0 <= i < s.len() - 1 && is_terminator(#[trigger] s[i]) && text::is_white_space(s[i + 1])
}

proof fn lemma_trim_start_first(s: Seq<char>)
    ensures
        text::trim_start(s).len() == 0 || !text::is_white_space(text::trim_start(s)[0]),
    decreases s.len(),
{
    if s.len() > 0 && text::is_white_space(s[0]) {
        lemma_trim_start_first(s.drop_first());
    }
}

proof fn lemma_trim_end_prefix(u: Seq<char>)
    ensures
        text::trim_end(u).len() <= u.len(),
        text::trim_end(u) == u.take(text::trim_end(u).len() as int),
        text::trim_end(u).len() == 0 || !text::is_white_space(text::trim_end(u).last()),
    decreases u.len(),
{
    if u.len() > 0 && text::is_white_space(u.last()) {
        lemma_trim_end_prefix(u.drop_last());
        let k = text::trim_end(u).len() as int;
        assert(u.drop_last().take(k) =~= u.take(k));
    } else {
        assert(u.take(u.len() as int) =~= u);
    }
}

/// Trimming twice is trimming once.
proof fn lemma_trim_idempotent(s: Seq<char>)
    ensures
        text::trim(text::trim(s)) == text::trim(s),
{
    let u = text::trim_start(s);
    lemma_trim_start_first(s);
    lemma_trim_end_prefix(u);
    let t = text::trim(s);
    if t.len() > 0 {
        assert(t[0] == u[0]);
    }
    lemma_trim_fixed(t);
}

proof fn lemma_one_paragraph(s: Seq<char>, cur: Seq<char>)
    requires
        !has_blank_line(s),
    ensures
        paragraphs_from(s, cur).len() == 1,
    decreases s.len(),
{
    if s.len() > 0 {
        if s.len() >= 2 && s[0] == '\n' && s[1] == '\n' {
            assert(s[0] == '\n' && s[0int + 1] == '\n');
            assert(false);
        }
        let rest = s.drop_first();
        assert forall|i: int| 0 <= i < rest.len() - 1 && #[trigger] rest[i] == '\n' implies rest[i
            + 1] != '\n' by {
            assert(s[i + 1] == '\n');
        }
        lemma_one_paragraph(rest, cur.push(s[0]));
    }
}

proof fn lemma_one_sentence(s: Seq<char>, cur: Seq<char>)
    requires
        !has_sentence_break(s),
    ensures
        sentences_from(s, cur).len() <= 1,
    decreases s.len(),
{
    if s.len() > 0 {
        if is_terminator(s[0]) && s.len() > 1 && text::is_white_space(s[1]) {
            assert(is_terminator(s[0]) && text::is_white_space(s[0int + 1]));
            assert(false);
        }
        let rest = s.drop_first();
        assert forall|i: int|
            0 <= i < rest.len() - 1 && is_terminator(#[trigger] rest[i]) implies !text::is_white_space(
            rest[i + 1],
        ) by {
            assert(is_terminator(s[i + 1]));
        }
        lemma_one_sentence(rest, cur.push(s[0]));
    }
}

/// A text that, once prepared, has no blank line and no terminator followed
/// by whitespace is one paragraph of at most one sentence: semantic chunking
/// then gives what character-based chunking of the fallback size gives.
pub proof fn law_semantic_falls_back_without_breaks(text: Seq<char>, preserve_whitespace: bool)
    requires
        !has_blank_line(text::prepare(text, preserve_whitespace)),
        !has_sentence_break(text::prepare(text, preserve_whitespace)),
    ensures
        semantic(text, preserve_whitespace) == character_based(
            text,
            SEMANTIC_FALLBACK_SIZE as nat,
            preserve_whitespace,
        ),
{
    let t = text::prepare(text, preserve_whitespace);
    lemma_one_paragraph(t, seq![]);
    lemma_one_sentence(t, seq![]);
    if !preserve_whitespace {
        lemma_trim_idempotent(text);
    }
}

proof fn lemma_some_paragraph(s: Seq<char>, cur: Seq<char>)
    ensures
        paragraphs_from(s, cur).len() >= 1,
    decreases s.len(),
{
    if s.len() > 0 {
        if s.len() >= 2 && s[0] == '\n' && s[1] == '\n' {
            lemma_some_paragraph(s.skip(2), seq![]);
        } else {
            lemma_some_paragraph(s.drop_first(), cur.push(s[0]));
        }
    }
}

proof fn lemma_blank_line_splits(s: Seq<char>, cur: Seq<char>)
    requires
        has_blank_line(s),
    ensures
        paragraphs_from(s, cur).len() >= 2,
    decreases s.len(),
{
    let i = choose|i: int| 0 <= i < s.len() - 1 && #[trigger] s[i] == '\n' && s[i + 1] == '\n';
    if s.len() >= 2 && s[0] == '\n' && s[1] == '\n' {
        lemma_some_paragraph(s.skip(2), seq![]);
    } else {
        assert(i > 0);
        let rest = s.drop_first();
        assert(rest[i - 1] == '\n' && rest[i - 1 + 1] == '\n');
        lemma_blank_line_splits(rest, cur.push(s[0]));
    }
}

proof fn lemma_some_sentence(s: Seq<char>, cur: Seq<char>)
    requires
        s.len() > 0 || cur.len() > 0,
    ensures
        sentences_from(s, cur).len() >= 1,
    decreases s.len(),
{
    if s.len() > 0 {
        let c2 = cur.push(s[0]);
        if is_terminator(s[0]) && s.len() > 1 && text::is_white_space(s[1]) {
        } else {
            lemma_some_sentence(s.drop_first(), c2);
        }
    }
}

proof fn lemma_sentence_break_splits(s: Seq<char>, cur: Seq<char>)
    requires
        has_sentence_break(s),
    ensures
        sentences_from(s, cur).len() >= 2,
    decreases s.len(),
{
    let i = choose|i: int|
        0 <= i < s.len() - 1 && is_terminator(#[trigger] s[i]) && text::is_white_space(s[i + 1]);
    if is_terminator(s[0]) && s.len() > 1 && text::is_white_space(s[1]) {
        lemma_some_sentence(s.drop_first(), seq![]);
    } else {
        assert(i > 0);
        let rest = s.drop_first();
        assert(is_terminator(rest[i - 1]) && text::is_white_space(rest[i - 1 + 1]));
        lemma_sentence_break_splits(rest, cur.push(s[0]));
    }
}

/// A prepared text with a blank line is split at its blank lines: the
/// semantic chunks are its paragraphs, and there are at least two.
pub proof fn law_semantic_splits_at_blank_lines(text: Seq<char>, preserve_whitespace: bool)
    requires
        has_blank_line(text::prepare(text, preserve_whitespace)),
    ensures
        semantic(text, preserve_whitespace) == paragraphs(text::prepare(text, preserve_whitespace)),
        semantic(text, preserve_whitespace).len() >= 2,
{
    lemma_blank_line_splits(text::prepare(text, preserve_whitespace), seq![]);
}

/// A prepared text without a blank line but with a terminator followed by
/// whitespace is split into its sentences: the semantic chunks are those
/// sentences, and there are at least two (so "Hello there. How are you?"
/// gives two chunks).
pub proof fn law_semantic_splits_at_sentences(text: Seq<char>, preserve_whitespace: bool)
    requires
        !has_blank_line(text::prepare(text, preserve_whitespace)),
        has_sentence_break(text::prepare(text, preserve_whitespace)),
    ensures
        semantic(text, preserve_whitespace) == sentences(text::prepare(text, preserve_whitespace)),
        semantic(text, preserve_whitespace).len() >= 2,
{
    let t = text::prepare(text, preserve_whitespace);
    lemma_one_paragraph(t, seq![]);
    lemma_sentence_break_splits(t, seq![]);
}

} // verus!
