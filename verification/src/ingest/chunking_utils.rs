//! Chunking of the text fields of a character or entity record for embedding.

use vstd::prelude::*;
use crate::chunking::{lemma_split_every_flatten, split_every};
use crate::text::{append_chars, char_views, chars_of, copy_range, strings_of};
use crate::text::join_with;

verus! {

/// The longest chunk that `chunk_field` ever yields.
pub const MAX_FIELD_CHUNK: usize = 250;

/// The text fields of a character or entity record that are embedded.  A
/// field is `None` when the record lacks it or it has another JSON type; a
/// list field holds the string elements of the array, in order.
#[derive(Debug, Clone)]
pub struct EntityFields {
    pub character_name: Option<String>,
    pub description: Option<String>,
    pub affiliations: Option<Vec<String>>,
    pub core_attributes: Option<Vec<String>>,
    pub inspirational_themes: Option<Vec<String>>,
    pub traits: Option<Vec<String>>,
}

/// The chunk size used for `max_len`: at most 250 characters.
pub open spec fn safe_len(max_len: nat) -> nat {
    if max_len < MAX_FIELD_CHUNK {
        max_len
    } else {
        MAX_FIELD_CHUNK as nat
    }
}

/// What `chunk_field(text, max_len)` yields: the text itself when it fits,
/// else consecutive pieces of the safe length.
pub open spec fn field_chunks(text: Seq<char>, max_len: nat) -> Seq<Seq<char>> {
    if text.len() <= safe_len(max_len) {
        seq![text]
    } else {
        split_every(text, safe_len(max_len))
    }
}

/// Each chunk paired with the field label.
pub open spec fn labelled(label: Seq<char>, chunks: Seq<Seq<char>>) -> Seq<(Seq<char>, Seq<char>)> {
    chunks.map_values(|c: Seq<char>| (label, c))
}

/// The labelled chunks of a text field, if it is present.
pub open spec fn text_field_chunks(label: Seq<char>, field: Option<String>, max_len: nat) -> Seq<
    (Seq<char>, Seq<char>),
> {
    match field {
        Some(s) => labelled(label, field_chunks(s@, max_len)),
        None => seq![],
    }
}

/// The text of a list field: its elements joined with ", ".
pub open spec fn list_text(items: Vec<String>) -> Seq<char> {
    join_with(crate::text::string_views(items@), ", "@)
}

/// The labelled chunks of a list field, if it is present.
pub open spec fn list_field_chunks(label: Seq<char>, field: Option<Vec<String>>, max_len: nat) -> Seq<
    (Seq<char>, Seq<char>),
> {
    match field {
        Some(items) => labelled(label, field_chunks(list_text(items), max_len)),
        None => seq![],
    }
}

/// What `chunk_entity_fields(fields, max_len)` yields, field by field in a fixed order.
pub open spec fn entity_chunks(e: EntityFields, max_len: nat) -> Seq<(Seq<char>, Seq<char>)> {
    text_field_chunks("character_name"@, e.character_name, max_len) + text_field_chunks(
        "description"@,
        e.description,
        max_len,
    ) + list_field_chunks("affiliations"@, e.affiliations, max_len) + list_field_chunks(
        "core_attributes"@,
        e.core_attributes,
        max_len,
    ) + list_field_chunks("inspirational_themes"@, e.inspirational_themes, max_len)
        + list_field_chunks("traits"@, e.traits, max_len)
}

/// Every present field of `e` has an empty text.
pub open spec fn all_fields_empty(e: EntityFields) -> bool {
    &&& (e.character_name matches Some(s) ==> s@.len() == 0)
    &&& (e.description matches Some(s) ==> s@.len() == 0)
    &&& (e.affiliations matches Some(v) ==> list_text(v).len() == 0)
    &&& (e.core_attributes matches Some(v) ==> list_text(v).len() == 0)
    &&& (e.inspirational_themes matches Some(v) ==> list_text(v).len() == 0)
    &&& (e.traits matches Some(v) ==> list_text(v).len() == 0)
}

/// The views of labelled chunks.
pub open spec fn pair_views(v: Seq<(String, String)>) -> Seq<(Seq<char>, Seq<char>)> {
    v.map_values(|p: (String, String)| (p.0@, p.1@))
}

/// Consecutive pieces of `t` of length `n`, the last one possibly shorter.
fn split_every_exec(t: &Vec<char>, n: usize) -> (r: Vec<Vec<char>>)
    requires
        n > 0,
    ensures
        char_views(r@) == split_every(t@, n as nat),
{
    let len = t.len();
    let mut r: Vec<Vec<char>> = Vec::new();
    let mut start: usize = 0;
    assert(t@.skip(0) =~= t@);
    while start < len
        invariant
            n > 0,
            len == t@.len(),
            start <= len,
            char_views(r@) + split_every(t@.skip(start as int), n as nat) == split_every(
                t@,
                n as nat,
            ),
        decreases len - start,
    {
        let ghost before = char_views(r@);
        let ghost s = t@.skip(start as int);
        let end = if len - start <= n {
            len
        } else {
            start + n
        };
        let piece = copy_range(t, start, end);
        r.push(piece);
        if len - start <= n {
            assert(piece@ =~= s);
            assert(t@.skip(end as int) =~= Seq::<char>::empty());
            assert(char_views(r@) + split_every(t@.skip(end as int), n as nat) =~= before
                + split_every(s, n as nat));
        } else {
            assert(piece@ =~= s.take(n as int));
            assert(s.skip(n as int) =~= t@.skip(end as int));
            assert(char_views(r@) + split_every(t@.skip(end as int), n as nat) =~= before + (seq![
                s.take(n as int),
            ] + split_every(s.skip(n as int), n as nat)));
        }
        start = end;
    }
    assert(t@.skip(len as int) =~= Seq::<char>::empty());
    assert(char_views(r@) =~= split_every(t@, n as nat));
    r
}

/// Chunks a text field for embedding: the text itself when it has at most
/// `min(max_len, 250)` characters, else consecutive pieces of that length.
pub fn chunk_field(text: &str, max_len: usize) -> (r: Vec<String>)
    requires
        max_len > 0 || text@.len() == 0,
    ensures
        crate::text::string_views(r@) == field_chunks(text@, max_len as nat),
{
    let v = chars_of(text);
    let safe = if max_len < MAX_FIELD_CHUNK {
        max_len
    } else {
        MAX_FIELD_CHUNK
    };
    if v.len() <= safe {
        let mut pieces: Vec<Vec<char>> = Vec::new();
        pieces.push(v);
        assert(char_views(pieces@) =~= seq![text@]);
        strings_of(&pieces)
    } else {
        let pieces = split_every_exec(&v, safe);
        strings_of(&pieces)
    }
}

/// The elements of `items` joined with ", ".
fn join_items(items: &Vec<String>) -> (r: String)
    ensures
        r@ == list_text(*items),
{
    let ghost iv = crate::text::string_views(items@);
    let mut r: Vec<char> = Vec::new();
    let sep = chars_of(", ");
    let mut k: usize = 0;
    while k < items.len()
        invariant
            iv == crate::text::string_views(items@),
            sep@ == ", "@,
            k <= items@.len(),
            r@ == join_with(iv.take(k as int), ", "@),
        decreases items@.len() - k,
    {
        assert(iv.take(k + 1).drop_last() =~= iv.take(k as int));
        if k > 0 {
            append_chars(&mut r, &sep);
        }
        let item = chars_of(items[k].as_str());
        append_chars(&mut r, &item);
        k = k + 1;
        assert(r@ =~= join_with(iv.take(k as int), ", "@));
    }
    assert(iv.take(items@.len() as int) =~= iv);
    crate::text::string_of(r.as_slice())
}

/// Appends to `out` each chunk of `text` paired with `label`.
fn push_labelled(out: &mut Vec<(String, String)>, label: &str, text: &str, max_len: usize)
    requires
        max_len > 0 || text@.len() == 0,
    ensures
        pair_views(final(out)@) == pair_views(old(out)@) + labelled(
            label@,
            field_chunks(text@, max_len as nat),
        ),
{
    let chunks = chunk_field(text, max_len);
    let ghost cv = crate::text::string_views(chunks@);
    let mut i: usize = 0;
    while i < chunks.len()
        invariant
            cv == crate::text::string_views(chunks@),
            cv == field_chunks(text@, max_len as nat),
            i <= chunks@.len(),
            pair_views(out@) == pair_views(old(out)@) + labelled(label@, cv.take(i as int)),
        decreases chunks@.len() - i,
    {
        let ghost prev = out@;
        let name = String::from_str(label);
        let chunk = chunks[i].clone();
        assert(chunk@ == cv[i as int]);
        out.push((name, chunk));
        assert(pair_views(out@) =~= pair_views(prev).push((label@, cv[i as int])));
        i = i + 1;
        assert(labelled(label@, cv.take(i as int)) =~= labelled(label@, cv.take(i - 1)).push(
            (label@, cv[i - 1]),
        ));
        assert(pair_views(out@) =~= pair_views(old(out)@) + labelled(label@, cv.take(i as int)));
    }
    assert(cv.take(chunks@.len() as int) =~= cv);
}

/// Chunks all relevant fields of a character or entity record for
/// embedding: `character_name`, `description`, then the lists
/// `affiliations`, `core_attributes`, `inspirational_themes` and `traits`,
/// each joined with ", ".  Returns (field name, chunk) pairs.
pub fn chunk_entity_fields(fields: &EntityFields, max_len: usize) -> (r: Vec<(String, String)>)
    requires
        max_len > 0 || all_fields_empty(*fields),
    ensures
        pair_views(r@) == entity_chunks(*fields, max_len as nat),
{
    let mut out: Vec<(String, String)> = Vec::new();
    let ghost m = max_len as nat;
    match &fields.character_name {
        Some(name) => push_labelled(&mut out, "character_name", name.as_str(), max_len),
        None => {},
    }
    assert(pair_views(out@) =~= text_field_chunks("character_name"@, fields.character_name, m));
    let ghost p1 = pair_views(out@);
    match &fields.description {
        Some(desc) => push_labelled(&mut out, "description", desc.as_str(), max_len),
        None => {},
    }
    assert(pair_views(out@) =~= p1 + text_field_chunks("description"@, fields.description, m));
    let ghost p2 = pair_views(out@);
    match &fields.affiliations {
        Some(items) => {
            let joined = join_items(items);
            push_labelled(&mut out, "affiliations", joined.as_str(), max_len);
        },
        None => {},
    }
    assert(pair_views(out@) =~= p2 + list_field_chunks("affiliations"@, fields.affiliations, m));
    let ghost p3 = pair_views(out@);
    match &fields.core_attributes {
        Some(items) => {
            let joined = join_items(items);
            push_labelled(&mut out, "core_attributes", joined.as_str(), max_len);
        },
        None => {},
    }
    assert(pair_views(out@) =~= p3 + list_field_chunks(
        "core_attributes"@,
        fields.core_attributes,
        m,
    ));
    let ghost p4 = pair_views(out@);
    match &fields.inspirational_themes {
        Some(items) => {
            let joined = join_items(items);
            push_labelled(&mut out, "inspirational_themes", joined.as_str(), max_len);
        },
        None => {},
    }
    assert(pair_views(out@) =~= p4 + list_field_chunks(
        "inspirational_themes"@,
        fields.inspirational_themes,
        m,
    ));
    let ghost p5 = pair_views(out@);
    match &fields.traits {
        Some(items) => {
            let joined = join_items(items);
            push_labelled(&mut out, "traits", joined.as_str(), max_len);
        },
        None => {},
    }
    assert(pair_views(out@) =~= p5 + list_field_chunks("traits"@, fields.traits, m));
    out
}

// ---------------------------------------------------------------------------
// Laws
// ---------------------------------------------------------------------------

proof fn lemma_split_every_bound(s: Seq<char>, n: nat)
    requires
        n > 0,
    ensures
        forall|i: int|
            0 <= i < split_every(s, n).len() ==> (#[trigger] split_every(s, n)[i]).len() <= n,
    decreases s.len(),
{
    if s.len() > n {
        lemma_split_every_bound(s.skip(n as int), n);
        let rest = split_every(s.skip(n as int), n);
        let ps = seq![s.take(n as int)] + rest;
        assert forall|i: int| 0 <= i < ps.len() implies (#[trigger] ps[i]).len() <= n by {
            if i > 0 {
                assert(ps[i] == rest[i - 1]);
            }
        }
    }
}

/// The chunks of a field, concatenated, are the field's text.
pub proof fn law_field_chunks_concatenate_to_text(text: Seq<char>, max_len: nat)
    ensures
        field_chunks(text, max_len).flatten() == text,
{
    if text.len() <= safe_len(max_len) {
        seq![text].lemma_flatten_singleton();
    } else {
        lemma_split_every_flatten(text, safe_len(max_len));
    }
}

/// Every chunk of a field has at most `min(max_len, 250)` characters.
pub proof fn law_field_chunks_fit(text: Seq<char>, max_len: nat)
    requires
        max_len > 0 || text.len() == 0,
    ensures
        forall|i: int|
            0 <= i < field_chunks(text, max_len).len() ==> (#[trigger] field_chunks(
                text,
                max_len,
            )[i]).len() <= safe_len(max_len),
{
    if text.len() > safe_len(max_len) {
        lemma_split_every_bound(text, safe_len(max_len));
    }
}


/// The chunks among `pairs` that carry `label`, in order.
pub open spec fn chunks_labelled(pairs: Seq<(Seq<char>, Seq<char>)>, label: Seq<char>) -> Seq<
    Seq<char>,
>
    decreases pairs.len(),
{
    if pairs.len() == 0 {
        seq![]
    } else if pairs.last().0 == label {
        chunks_labelled(pairs.drop_last(), label).push(pairs.last().1)
    } else {
        chunks_labelled(pairs.drop_last(), label)
    }
}

/// The text of a present text field; nothing for an absent one.
pub open spec fn present_text(field: Option<String>) -> Seq<char> {
    match field {
        Some(s) => s@,
        None => seq![],
    }
}

/// The text of a present list field, its elements joined with ", ";
/// nothing for an absent one.
pub open spec fn present_list_text(field: Option<Vec<String>>) -> Seq<char> {
    match field {
        Some(items) => join_with(crate::text::string_views(items@), ", "@),
        None => seq![],
    }
}

proof fn lemma_chunks_labelled_concat(
    a: Seq<(Seq<char>, Seq<char>)>,
    b: Seq<(Seq<char>, Seq<char>)>,
    label: Seq<char>,
)
    ensures
        chunks_labelled(a + b, label) == chunks_labelled(a, label) + chunks_labelled(b, label),
    decreases b.len(),
{
    if b.len() == 0 {
        assert(a + b =~= a);
    } else {
        assert((a + b).drop_last() =~= a + b.drop_last());
        assert((a + b).last() == b.last());
        lemma_chunks_labelled_concat(a, b.drop_last(), label);
    }
}

proof fn lemma_chunks_labelled_block(own: Seq<char>, cs: Seq<Seq<char>>, label: Seq<char>)
    ensures
        chunks_labelled(labelled(own, cs), label) == if own == label {
            cs
        } else {
            seq![]
        },
    decreases cs.len(),
{
    if cs.len() > 0 {
        assert(labelled(own, cs).drop_last() =~= labelled(own, cs.drop_last()));
        lemma_chunks_labelled_block(own, cs.drop_last(), label);
        if own == label {
            assert(cs.drop_last().push(cs.last()) =~= cs);
        }
    }
}

/// The chunks that one present field contributes under `label`, rebuilt.
proof fn lemma_field_block(own: Seq<char>, text: Option<Seq<char>>, max_len: nat, label: Seq<char>)
    ensures
        chunks_labelled(
            match text {
                Some(t) => labelled(own, field_chunks(t, max_len)),
                None => seq![],
            },
            label,
        ).flatten() == if own == label {
            match text {
                Some(t) => t,
                None => seq![],
            }
        } else {
            seq![]
        },
{
    match text {
        Some(t) => {
            lemma_chunks_labelled_block(own, field_chunks(t, max_len), label);
            law_field_chunks_concatenate_to_text(t, max_len);
            if own != label {
                assert(Seq::<Seq<char>>::empty().flatten() =~= Seq::<char>::empty());
            }
        },
        None => {
            assert(Seq::<Seq<char>>::empty().flatten() =~= Seq::<char>::empty());
        },
    }
}

/// The text of a field as an option, for the rebuilding law.
spec fn text_opt(field: Option<String>) -> Option<Seq<char>> {
    match field {
        Some(s) => Some(s@),
        None => None,
    }
}

/// The joined text of a list field as an option.
spec fn list_opt(field: Option<Vec<String>>) -> Option<Seq<char>> {
    match field {
        Some(items) => Some(list_text(items)),
        None => None,
    }
}

proof fn lemma_flatten_concat3(a: Seq<Seq<char>>, b: Seq<Seq<char>>)
    ensures
        (a + b).flatten() == a.flatten() + b.flatten(),
{
    vstd::seq_lib::lemma_flatten_concat(a, b);
}

/// What a field labelled `own` with text `text` contributes under `label`.
spec fn block_text(own: Seq<char>, text: Option<Seq<char>>, label: Seq<char>) -> Seq<char> {
    if own == label {
        match text {
            Some(t) => t,
            None => seq![],
        }
    } else {
        seq![]
    }
}

proof fn lemma_entity_labelled(e: EntityFields, max_len: nat, l: Seq<char>)
    ensures
        chunks_labelled(entity_chunks(e, max_len), l).flatten() == block_text(
            "character_name"@,
            text_opt(e.character_name),
            l,
        ) + block_text("description"@, text_opt(e.description), l) + block_text(
            "affiliations"@,
            list_opt(e.affiliations),
            l,
        ) + block_text("core_attributes"@, list_opt(e.core_attributes), l) + block_text(
            "inspirational_themes"@,
            list_opt(e.inspirational_themes),
            l,
        ) + block_text("traits"@, list_opt(e.traits), l),
{
    let b0 = text_field_chunks("character_name"@, e.character_name, max_len);
    let b1 = text_field_chunks("description"@, e.description, max_len);
    let b2 = list_field_chunks("affiliations"@, e.affiliations, max_len);
    let b3 = list_field_chunks("core_attributes"@, e.core_attributes, max_len);
    let b4 = list_field_chunks("inspirational_themes"@, e.inspirational_themes, max_len);
    let b5 = list_field_chunks("traits"@, e.traits, max_len);
    assert(entity_chunks(e, max_len) == b0 + b1 + b2 + b3 + b4 + b5);
    assert(b0 == match text_opt(e.character_name) {
        Some(t) => labelled("character_name"@, field_chunks(t, max_len)),
        None => seq![],
    });
    assert(b1 == match text_opt(e.description) {
        Some(t) => labelled("description"@, field_chunks(t, max_len)),
        None => seq![],
    });
    lemma_chunks_labelled_concat(b0 + b1 + b2 + b3 + b4, b5, l);
    lemma_chunks_labelled_concat(b0 + b1 + b2 + b3, b4, l);
    lemma_chunks_labelled_concat(b0 + b1 + b2, b3, l);
    lemma_chunks_labelled_concat(b0 + b1, b2, l);
    lemma_chunks_labelled_concat(b0, b1, l);
    let c0 = chunks_labelled(b0, l);
    let c1 = chunks_labelled(b1, l);
    let c2 = chunks_labelled(b2, l);
    let c3 = chunks_labelled(b3, l);
    let c4 = chunks_labelled(b4, l);
    let c5 = chunks_labelled(b5, l);
    lemma_flatten_concat3(c0 + c1 + c2 + c3 + c4, c5);
    lemma_flatten_concat3(c0 + c1 + c2 + c3, c4);
    lemma_flatten_concat3(c0 + c1 + c2, c3);
    lemma_flatten_concat3(c0 + c1, c2);
    lemma_flatten_concat3(c0, c1);
    lemma_field_block("character_name"@, text_opt(e.character_name), max_len, l);
    lemma_field_block("description"@, text_opt(e.description), max_len, l);
    lemma_field_block("affiliations"@, list_opt(e.affiliations), max_len, l);
    lemma_field_block("core_attributes"@, list_opt(e.core_attributes), max_len, l);
    lemma_field_block("inspirational_themes"@, list_opt(e.inspirational_themes), max_len, l);
    lemma_field_block("traits"@, list_opt(e.traits), max_len, l);
}

/// Every field's text is rebuilt from its own chunks: the chunks labelled
/// with a field's name, concatenated in order, are the field's text (a list
/// field's elements joined with ", "), and an absent field has none.
pub proof fn law_entity_chunks_rebuild_fields(e: EntityFields, max_len: nat)
    ensures
        chunks_labelled(entity_chunks(e, max_len), "character_name"@).flatten() == present_text(
            e.character_name,
        ),
        chunks_labelled(entity_chunks(e, max_len), "description"@).flatten() == present_text(
            e.description,
        ),
        chunks_labelled(entity_chunks(e, max_len), "affiliations"@).flatten() == present_list_text(
            e.affiliations,
        ),
        chunks_labelled(entity_chunks(e, max_len), "core_attributes"@).flatten()
            == present_list_text(e.core_attributes),
        chunks_labelled(entity_chunks(e, max_len), "inspirational_themes"@).flatten()
            == present_list_text(e.inspirational_themes),
        chunks_labelled(entity_chunks(e, max_len), "traits"@).flatten() == present_list_text(
            e.traits,
        ),
{
    reveal_strlit("character_name");
    reveal_strlit("description");
    reveal_strlit("affiliations");
    reveal_strlit("core_attributes");
    reveal_strlit("inspirational_themes");
    reveal_strlit("traits");
    // The six labels have different lengths, so no two of them are equal.
    assert("character_name"@.len() == 14);
    assert("description"@.len() == 11);
    assert("affiliations"@.len() == 12);
    assert("core_attributes"@.len() == 15);
    assert("inspirational_themes"@.len() == 20);
    assert("traits"@.len() == 6);
    let e0 = Seq::<char>::empty();
    lemma_entity_labelled(e, max_len, "character_name"@);
    assert(present_text(e.character_name) + e0 + e0 + e0 + e0 + e0 =~= present_text(
        e.character_name,
    ));
    lemma_entity_labelled(e, max_len, "description"@);
    assert(e0 + present_text(e.description) + e0 + e0 + e0 + e0 =~= present_text(e.description));
    lemma_entity_labelled(e, max_len, "affiliations"@);
    assert(e0 + e0 + present_list_text(e.affiliations) + e0 + e0 + e0 =~= present_list_text(
        e.affiliations,
    ));
    lemma_entity_labelled(e, max_len, "core_attributes"@);
    assert(e0 + e0 + e0 + present_list_text(e.core_attributes) + e0 + e0 =~= present_list_text(
        e.core_attributes,
    ));
    lemma_entity_labelled(e, max_len, "inspirational_themes"@);
    assert(e0 + e0 + e0 + e0 + present_list_text(e.inspirational_themes) + e0
        =~= present_list_text(e.inspirational_themes));
    lemma_entity_labelled(e, max_len, "traits"@);
    assert(e0 + e0 + e0 + e0 + e0 + present_list_text(e.traits) =~= present_list_text(e.traits));
}

} // verus!
