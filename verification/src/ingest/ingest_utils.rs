//! Validation of JSON Lines content.

use vstd::prelude::*;
use crate::text;
use crate::text::{char_views, split_lines, strings_of, trim_chars};

verus! {

/// Whether `text` is one well-formed JSON value, as `serde_json::from_str`
/// decides.
pub uninterp spec fn is_json_value(text: Seq<char>) -> bool;

/// `serde_json::from_str::<serde_json::Value>`: the claim is only that it
/// succeeds exactly when `text` is a JSON value in serde_json's sense; the
/// parsed value is not kept.
#[verifier::external_body]
fn parses_as_json(text: &str) -> (r: bool)
    ensures
        r == is_json_value(text@),
{
    serde_json::from_str::<serde_json::Value>(text).is_ok()
}

/// The lines of `ls` that hold more than whitespace.
pub open spec fn non_blank(ls: Seq<Seq<char>>) -> Seq<Seq<char>>
    decreases ls.len(),
{
    if ls.len() == 0 {
        seq![]
    } else if text::trim(ls.last()).len() == 0 {
        non_blank(ls.drop_last())
    } else {
        non_blank(ls.drop_last()).push(ls.last())
    }
}

/// The records of JSON Lines content: its lines that are not blank.
pub open spec fn jsonl_record_lines(content: Seq<char>) -> Seq<Seq<char>> {
    non_blank(text::lines(content))
}

/// Whether each record is a JSON value.
pub open spec fn verdicts(records: Seq<Seq<char>>) -> Seq<bool> {
    records.map_values(|r: Seq<char>| is_json_value(r))
}

/// The records of JSON Lines content: its non-blank lines, in order.
pub fn jsonl_records(content: &str) -> (r: Vec<String>)
    ensures
        text::string_views(r@) == jsonl_record_lines(content@),
{
    let ls = split_lines(content);
    let ghost lv = char_views(ls@);
    let mut out: Vec<Vec<char>> = Vec::new();
    let mut i: usize = 0;
    while i < ls.len()
        invariant
            lv == char_views(ls@),
            lv == text::lines(content@),
            i <= ls@.len(),
            char_views(out@) == non_blank(lv.take(i as int)),
        decreases ls@.len() - i,
    {
        assert(lv.take(i + 1).drop_last() =~= lv.take(i as int));
        let trimmed = trim_chars(&ls[i]);
        if trimmed.len() > 0 {
            let ghost before = char_views(out@);
            out.push(ls[i].clone());
            assert(char_views(out@) =~= before.push(lv[i as int]));
        }
        i = i + 1;
    }
    assert(lv.take(ls@.len() as int) =~= lv);
    strings_of(&out)
}

/// The numbers of `true` and of `false` verdicts.
pub fn tally_verdicts(verdicts: &Vec<bool>) -> (r: (usize, usize))
    ensures
        r.0 == text::count_of(verdicts@, true),
        r.1 == text::count_of(verdicts@, false),
{
    let mut valid: usize = 0;
    let mut invalid: usize = 0;
    let mut i: usize = 0;
    while i < verdicts.len()
        invariant
            i <= verdicts@.len(),
            valid == text::count_of(verdicts@.take(i as int), true),
            invalid == text::count_of(verdicts@.take(i as int), false),
            valid + invalid == i,
        decreases verdicts@.len() - i,
    {
        assert(verdicts@.take(i + 1).drop_last() =~= verdicts@.take(i as int));
        if verdicts[i] {
            valid = valid + 1;
        } else {
            invalid = invalid + 1;
        }
        i = i + 1;
    }
    assert(verdicts@.take(verdicts@.len() as int) =~= verdicts@);
    (valid, invalid)
}

/// Validates each line of JSON Lines content, returning the numbers of
/// valid and of invalid records; blank lines are skipped.
pub fn validate_jsonl_lines(content: &str) -> (r: (usize, usize))
    ensures
        r.0 == text::count_of(verdicts(jsonl_record_lines(content@)), true),
        r.1 == text::count_of(verdicts(jsonl_record_lines(content@)), false),
{
    let records = jsonl_records(content);
    let ghost rv = text::string_views(records@);
    let mut vs: Vec<bool> = Vec::new();
    let mut i: usize = 0;
    while i < records.len()
        invariant
            rv == text::string_views(records@),
            i <= records@.len(),
            vs@ == verdicts(rv.take(i as int)),
        decreases records@.len() - i,
    {
        let ok = parses_as_json(records[i].as_str());
        vs.push(ok);
        i = i + 1;
        assert(verdicts(rv.take(i as int)) =~= verdicts(rv.take(i - 1)).push(ok));
    }
    assert(rv.take(records@.len() as int) =~= rv);
    tally_verdicts(&vs)
}

/// Every record is counted once, as valid or as invalid.
pub proof fn law_jsonl_counts_cover_records(content: Seq<char>)
    ensures
        text::count_of(verdicts(jsonl_record_lines(content)), true) + text::count_of(
            verdicts(jsonl_record_lines(content)),
            false,
        ) == jsonl_record_lines(content).len(),
{
    lemma_count_bool_total(verdicts(jsonl_record_lines(content)));
}

proof fn lemma_count_bool_total(s: Seq<bool>)
    ensures
        text::count_of(s, true) + text::count_of(s, false) == s.len(),
    decreases s.len(),
{
    if s.len() > 0 {
        lemma_count_bool_total(s.drop_last());
    }
}

} // verus!
