//! The interactive naming audit: for each entry of a directory walk, the
//! convention breaches it shows and the renaming that fixes each one.
//!
//! Directories should be kebab-case (an underscore or, outside
//! `ai-entities`, an uppercase letter is reported); Rust files snake_case;
//! Markdown documentation kebab-case and entity Markdown files lowercase;
//! personality and registry JSON files TitleCase and schema or configuration
//! JSON files kebab-case.

use vstd::prelude::*;
use crate::paths::{path_file_stem_or_empty, path_has_component};
use crate::text;
use crate::text::{
    append_chars, char_is_uppercase, char_to_lowercase, char_upper_first, chars_of,
    contains_text, string_of, string_to_lowercase,
};

verus! {

/// A convention breach found by the audit.
#[derive(Debug, Clone)]
pub struct ConventionIssue {
    /// The path of the entry, as text.
    pub path: String,
    /// What is wrong.
    pub issue_type: String,
    /// The new name that fixes it.
    pub suggested_fix: String,
}

// ---------------------------------------------------------------------------
// Specification
// ---------------------------------------------------------------------------

/// `s` with every `from` replaced by `to`.
pub open spec fn replace_char(s: Seq<char>, from: char, to: char) -> Seq<char> {
    s.map_values(|c: char| if c == from { to } else { c })
}

/// `s` contains the character `c`.
pub open spec fn has_char(s: Seq<char>, c: char) -> bool {
    exists|i: int| 0 <= i < s.len() && #[trigger] s[i] == c
}

/// Some character of `s` is uppercase.
pub open spec fn has_uppercase(s: Seq<char>) -> bool {
    exists|i: int| 0 <= i < s.len() && text::is_uppercase_char(#[trigger] s[i])
}

/// `s` ends with `suffix`.
pub open spec fn ends_with(s: Seq<char>, suffix: Seq<char>) -> bool {
    suffix.len() <= s.len() && s.skip(s.len() - suffix.len()) == suffix
}

/// `s` without its leading `c` characters.
pub open spec fn trim_start_char(s: Seq<char>, c: char) -> Seq<char>
    decreases s.len(),
{
    if s.len() > 0 && s[0] == c {
        trim_start_char(s.drop_first(), c)
    } else {
        s
    }
}

/// The lowercase of `s` with `sep` before every uppercase character but the first.
pub open spec fn split_pascal(s: Seq<char>, sep: char) -> Seq<char>
    decreases s.len(),
{
    if s.len() == 0 {
        seq![]
    } else {
        let c = s.last();
        let piece = if s.len() > 1 && text::is_uppercase_char(c) {
            seq![sep] + text::char_lowercase(c)
        } else {
            text::char_lowercase(c)
        };
        split_pascal(s.drop_last(), sep) + piece
    }
}

/// The lowercase of `s` split at its uppercase letters by `sep`, without a leading `sep`.
pub open spec fn pascal_fix(s: Seq<char>, sep: char) -> Seq<char> {
    trim_start_char(split_pascal(s, sep), sep)
}

/// `s` with its first character in uppercase.
pub open spec fn capitalize_first(s: Seq<char>) -> Seq<char> {
    if s.len() == 0 {
        s
    } else {
        seq![text::upper_first(s[0])] + s.drop_first()
    }
}

/// One reported breach: what is wrong and the fixing name.
pub open spec fn breach(issue_type: Seq<char>, fix: Seq<char>) -> Seq<(Seq<char>, Seq<char>)> {
    seq![(issue_type, fix)]
}

/// The breaches of a directory named `name` at `path`.
pub open spec fn directory_breaches(path: Seq<char>, name: Seq<char>) -> Seq<
    (Seq<char>, Seq<char>),
> {
    (if has_char(name, '_') {
        breach("Directory uses snake_case instead of kebab-case"@, replace_char(name, '_', '-'))
    } else {
        seq![]
    }) + (if has_uppercase(name) && !text::contains_seq(path, "/ai-entities"@) {
        breach("Directory uses PascalCase instead of kebab-case"@, pascal_fix(name, '-'))
    } else {
        seq![]
    })
}

/// The breaches of a Rust file with stem `stem`.
pub open spec fn rust_breaches(stem: Seq<char>) -> Seq<(Seq<char>, Seq<char>)> {
    if stem == "main"@ || stem == "lib"@ {
        seq![]
    } else {
        (if has_char(stem, '-') {
            breach(
                "Rust file uses kebab-case instead of snake_case"@,
                replace_char(stem, '-', '_') + ".rs"@,
            )
        } else {
            seq![]
        }) + (if has_uppercase(stem) {
            breach(
                "Rust file uses PascalCase/camelCase instead of snake_case"@,
                pascal_fix(stem, '_') + ".rs"@,
            )
        } else {
            seq![]
        })
    }
}

/// Every character of `s` is uppercase or `_`.
pub open spec fn all_upper_or_underscore(s: Seq<char>) -> bool {
    forall|i: int| 0 <= i < s.len() ==> text::is_uppercase_char(#[trigger] s[i]) || s[i] == '_'
}

/// The breaches of a Markdown file at `path` with stem `stem`.
pub open spec fn markdown_breaches(path: Seq<char>, stem: Seq<char>) -> Seq<
    (Seq<char>, Seq<char>),
> {
    if all_upper_or_underscore(stem) {
        seq![]
    } else if text::contains_seq(path, "/ai-entities/"@) && !has_char(stem, '-') && !has_char(
        stem,
        '_',
    ) {
        if has_uppercase(stem) {
            breach(
                "Entity markdown file should use lowercase"@,
                text::str_lowercase(stem) + ".md"@,
            )
        } else {
            seq![]
        }
    } else if has_char(stem, '_') {
        breach(
            "Markdown file uses snake_case instead of kebab-case"@,
            replace_char(stem, '_', '-') + ".md"@,
        )
    } else {
        seq![]
    }
}

/// The path lies where schema or configuration JSON files live.
pub open spec fn schema_location(path: Seq<char>) -> bool {
    text::contains_seq(path, "/data/schemas/"@) || text::contains_seq(path, "/data/vector"@)
        || ends_with(path, "-config.json"@) || text::contains_seq(path, "/config/schemas/"@)
}

/// The breaches of a JSON file at `path` with stem `stem`.
pub open spec fn json_breaches(path: Seq<char>, stem: Seq<char>) -> Seq<(Seq<char>, Seq<char>)> {
    if stem.len() > 0 && stem[0] == '.' {
        seq![]
    } else if text::contains_seq(path, "/personality-archetypes/"@) || text::contains_seq(
        stem,
        "Registry"@,
    ) {
        if !(stem.len() > 0 && text::is_uppercase_char(stem[0])) {
            breach(
                "Personality/entity JSON file should use TitleCase"@,
                capitalize_first(stem) + ".json"@,
            )
        } else {
            seq![]
        }
    } else if schema_location(path) && has_char(stem, '_') {
        breach(
            "Schema/config JSON file should use kebab-case"@,
            replace_char(stem, '_', '-') + ".json"@,
        )
    } else {
        seq![]
    }
}

/// The stem of the file at `path`, or the empty text.
pub open spec fn stem_text(path: Seq<char>) -> Seq<char> {
    match crate::paths::file_stem(path) {
        Some(s) => s,
        None => Seq::<char>::empty(),
    }
}

/// `issues` report the breaches `b` of the entry at `path`.
pub open spec fn reports_all(
    issues: Seq<ConventionIssue>,
    path: Seq<char>,
    b: Seq<(Seq<char>, Seq<char>)>,
) -> bool {
    &&& issues.len() == b.len()
    &&& forall|i: int|
        0 <= i < issues.len() ==> (#[trigger] issues[i]).path@ == path && issues[i].issue_type@
            == b[i].0 && issues[i].suggested_fix@ == b[i].1
}

/// Directories that are left out of the audit (with what lies under them).
pub open spec fn audit_excluded(path: Seq<char>) -> bool {
    crate::paths::has_component(path, "node_modules"@) || crate::paths::has_component(
        path,
        "target"@,
    ) || crate::paths::has_component(path, ".git"@) || crate::paths::has_component(
        path,
        ".vscode"@,
    ) || crate::paths::has_component(path, "build"@) || crate::paths::has_component(path, "dist"@)
}

// ---------------------------------------------------------------------------
// Implementation
// ---------------------------------------------------------------------------

/// Whether `v` contains `c`.
fn has_char_exec(v: &Vec<char>, c: char) -> (r: bool)
    ensures
        r == has_char(v@, c),
{
    let mut i: usize = 0;
    while i < v.len()
        invariant
            i <= v@.len(),
            forall|k: int| 0 <= k < i ==> v@[k] != c,
        decreases v@.len() - i,
    {
        if v[i] == c {
            return true;
        }
        i = i + 1;
    }
    false
}

/// Whether some character of `v` is uppercase.
fn has_uppercase_exec(v: &Vec<char>) -> (r: bool)
    ensures
        r == has_uppercase(v@),
{
    let mut i: usize = 0;
    while i < v.len()
        invariant
            i <= v@.len(),
            forall|k: int| 0 <= k < i ==> !text::is_uppercase_char(#[trigger] v@[k]),
        decreases v@.len() - i,
    {
        if char_is_uppercase(v[i]) {
            return true;
        }
        i = i + 1;
    }
    false
}

/// `v` with every `from` replaced by `to`.
fn replace_char_exec(v: &Vec<char>, from: char, to: char) -> (r: Vec<char>)
    ensures
        r@ == replace_char(v@, from, to),
{
    let mut r: Vec<char> = Vec::new();
    let mut i: usize = 0;
    while i < v.len()
        invariant
            i <= v@.len(),
            r@ == replace_char(v@.take(i as int), from, to),
        decreases v@.len() - i,
    {
        let c = v[i];
        let d = if c == from {
            to
        } else {
            c
        };
        r.push(d);
        i = i + 1;
        assert(replace_char(v@.take(i as int), from, to) =~= replace_char(
            v@.take(i - 1),
            from,
            to,
        ).push(d));
    }
    assert(v@.take(v@.len() as int) =~= v@);
    r
}

/// The lowercase of `v` split at its uppercase letters by `sep`, without a leading `sep`.
fn pascal_fix_exec(v: &Vec<char>, sep: char) -> (r: Vec<char>)
    ensures
        r@ == pascal_fix(v@, sep),
{
    let mut r: Vec<char> = Vec::new();
    let mut i: usize = 0;
    while i < v.len()
        invariant
            i <= v@.len(),
            r@ == split_pascal(v@.take(i as int), sep),
        decreases v@.len() - i,
    {
        let c = v[i];
        assert(v@.take(i + 1).drop_last() =~= v@.take(i as int));
        if i > 0 && char_is_uppercase(c) {
            r.push(sep);
        }
        let lower = char_to_lowercase(c);
        let lv = chars_of(lower.as_str());
        let ghost before = r@;
        append_chars(&mut r, &lv);
        i = i + 1;
        assert(r@ =~= split_pascal(v@.take(i as int), sep));
    }
    assert(v@.take(v@.len() as int) =~= v@);
    let mut j: usize = 0;
    let ghost full = r@;
    assert(full.skip(0) =~= full);
    while j < r.len() && r[j] == sep
        invariant
            full == r@,
            j <= r@.len(),
            trim_start_char(full, sep) == trim_start_char(full.skip(j as int), sep),
        decreases r@.len() - j,
    {
        assert(full.skip(j as int).drop_first() =~= full.skip(j + 1));
        j = j + 1;
    }
    let out = text::copy_range(&r, j, r.len());
    assert(out@ =~= full.skip(j as int));
    out
}

/// Whether `s` ends with `suffix`.
fn ends_with_exec(s: &str, suffix: &str) -> (r: bool)
    ensures
        r == ends_with(s@, suffix@),
{
    let v = chars_of(s);
    let w = chars_of(suffix);
    if w.len() > v.len() {
        return false;
    }
    let off = v.len() - w.len();
    let tail = text::copy_range(&v, off, v.len());
    assert(tail@ =~= v@.skip(off as int));
    text::chars_equal(tail.as_slice(), w.as_slice())
}

/// Appends the issue `(issue_type, fix)` for `path` to `out`.
fn push_issue(out: &mut Vec<ConventionIssue>, path: &str, issue_type: &str, fix: String)
    ensures
        final(out)@.len() == old(out)@.len() + 1,
        forall|i: int| 0 <= i < old(out)@.len() ==> final(out)@[i] == old(out)@[i],
        final(out)@.last().path@ == path@,
        final(out)@.last().issue_type@ == issue_type@,
        final(out)@.last().suggested_fix@ == fix@,
{
    out.push(
        ConventionIssue {
            path: String::from_str(path),
            issue_type: String::from_str(issue_type),
            suggested_fix: fix,
        },
    );
}

/// A name with a suffix such as ".rs".
fn with_suffix(v: &Vec<char>, suffix: &str) -> (r: String)
    ensures
        r@ == v@ + suffix@,
{
    let mut s = string_of(v.as_slice());
    s.append(suffix);
    s
}

/// Whether the audit leaves out the entry at `path` (and what lies under it):
/// one of its components is an excluded directory.
pub fn is_audit_excluded(path: &str) -> (r: bool)
    ensures
        r == audit_excluded(path@),
{
    path_has_component(path, "node_modules") || path_has_component(path, "target")
        || path_has_component(path, ".git") || path_has_component(path, ".vscode")
        || path_has_component(path, "build") || path_has_component(path, "dist")
}

/// The breaches of the directory at `path` named `name`: an underscore,
/// and (outside `ai-entities`) an uppercase letter.
pub fn audit_directory(path: &str, name: &str) -> (r: Vec<ConventionIssue>)
    ensures
        reports_all(r@, path@, directory_breaches(path@, name@)),
{
    let v = chars_of(name);
    let mut out: Vec<ConventionIssue> = Vec::new();
    if has_char_exec(&v, '_') {
        let fix = string_of(replace_char_exec(&v, '_', '-').as_slice());
        push_issue(&mut out, path, "Directory uses snake_case instead of kebab-case", fix);
    }
    let ghost first = out@;
    if has_uppercase_exec(&v) && !contains_text(path, "/ai-entities") {
        let fix = string_of(pascal_fix_exec(&v, '-').as_slice());
        push_issue(&mut out, path, "Directory uses PascalCase instead of kebab-case", fix);
    }
    proof {
        let b = directory_breaches(path@, name@);
        assert(out@.len() == b.len());
        assert forall|i: int| 0 <= i < out@.len() implies (#[trigger] out@[i]).path@ == path@
            && out@[i].issue_type@ == b[i].0 && out@[i].suggested_fix@ == b[i].1 by {
            if i < first.len() {
                assert(out@[i] == first[i]);
            }
        }
    }
    out
}

/// The breaches of the file at `path` when it is a Rust file (its path ends
/// with ".rs"): a hyphen, and an uppercase letter, in its stem.
pub fn audit_rust_file(path: &str) -> (r: Vec<ConventionIssue>)
    ensures
        ends_with(path@, ".rs"@) ==> reports_all(r@, path@, rust_breaches(stem_text(path@))),
        !ends_with(path@, ".rs"@) ==> r@.len() == 0,
{
    let mut out: Vec<ConventionIssue> = Vec::new();
    if !ends_with_exec(path, ".rs") {
        return out;
    }
    let stem = path_file_stem_or_empty(path);
    if text::str_eq(stem.as_str(), "main") || text::str_eq(stem.as_str(), "lib") {
        return out;
    }
    let v = chars_of(stem.as_str());
    if has_char_exec(&v, '-') {
        let fix = with_suffix(&replace_char_exec(&v, '-', '_'), ".rs");
        push_issue(&mut out, path, "Rust file uses kebab-case instead of snake_case", fix);
    }
    let ghost first = out@;
    if has_uppercase_exec(&v) {
        let fix = with_suffix(&pascal_fix_exec(&v, '_'), ".rs");
        push_issue(
            &mut out,
            path,
            "Rust file uses PascalCase/camelCase instead of snake_case",
            fix,
        );
    }
    proof {
        let b = rust_breaches(stem_text(path@));
        assert(out@.len() == b.len());
        assert forall|i: int| 0 <= i < out@.len() implies (#[trigger] out@[i]).path@ == path@
            && out@[i].issue_type@ == b[i].0 && out@[i].suggested_fix@ == b[i].1 by {
            if i < first.len() {
                assert(out@[i] == first[i]);
            }
        }
    }
    out
}

/// Whether every character of `v` is uppercase or `_`.
fn all_upper_or_underscore_exec(v: &Vec<char>) -> (r: bool)
    ensures
        r == all_upper_or_underscore(v@),
{
    let mut i: usize = 0;
    while i < v.len()
        invariant
            i <= v@.len(),
            forall|k: int| 0 <= k < i ==> text::is_uppercase_char(#[trigger] v@[k]) || v@[k] == '_',
        decreases v@.len() - i,
    {
        let c = v[i];
        if !(char_is_uppercase(c) || c == '_') {
            return false;
        }
        i = i + 1;
    }
    true
}

/// The breach of the file at `path` when it is a Markdown file (its path
/// ends with ".md"): an entity file (under "/ai-entities/", without `-` or
/// `_`) with an uppercase letter, or other documentation with an underscore.
/// Names of uppercase letters and underscores are left alone.
pub fn audit_markdown_file(path: &str) -> (r: Vec<ConventionIssue>)
    ensures
        ends_with(path@, ".md"@) ==> reports_all(
            r@,
            path@,
            markdown_breaches(path@, stem_text(path@)),
        ),
        !ends_with(path@, ".md"@) ==> r@.len() == 0,
{
    let mut out: Vec<ConventionIssue> = Vec::new();
    if !ends_with_exec(path, ".md") {
        return out;
    }
    let stem = path_file_stem_or_empty(path);
    let v = chars_of(stem.as_str());
    if all_upper_or_underscore_exec(&v) {
        return out;
    }
    if contains_text(path, "/ai-entities/") && !has_char_exec(&v, '-') && !has_char_exec(&v, '_') {
        if has_uppercase_exec(&v) {
            let lower = string_to_lowercase(stem.as_str());
            let fix = with_suffix(&chars_of(lower.as_str()), ".md");
            push_issue(&mut out, path, "Entity markdown file should use lowercase", fix);
        }
    } else if has_char_exec(&v, '_') {
        let fix = with_suffix(&replace_char_exec(&v, '_', '-'), ".md");
        push_issue(&mut out, path, "Markdown file uses snake_case instead of kebab-case", fix);
    }
    out
}

/// The breach of the file at `path` when it is a JSON file (its path ends
/// with ".json") whose stem does not start with a dot: a personality or
/// registry file that does not start with an uppercase letter, or a schema
/// or configuration file with an underscore.
pub fn audit_json_file(path: &str) -> (r: Vec<ConventionIssue>)
    ensures
        ends_with(path@, ".json"@) ==> reports_all(
            r@,
            path@,
            json_breaches(path@, stem_text(path@)),
        ),
        !ends_with(path@, ".json"@) ==> r@.len() == 0,
{
    let mut out: Vec<ConventionIssue> = Vec::new();
    if !ends_with_exec(path, ".json") {
        return out;
    }
    let stem = path_file_stem_or_empty(path);
    let v = chars_of(stem.as_str());
    if v.len() > 0 && v[0] == '.' {
        return out;
    }
    if contains_text(path, "/personality-archetypes/") || contains_text(stem.as_str(), "Registry") {
        if !(v.len() > 0 && char_is_uppercase(v[0])) {
            let mut fixed: Vec<char> = Vec::new();
            if v.len() > 0 {
                fixed.push(char_upper_first(v[0]));
                let rest = text::copy_range(&v, 1, v.len());
                append_chars(&mut fixed, &rest);
            }
            assert(fixed@ =~= capitalize_first(v@));
            let fix = with_suffix(&fixed, ".json");
            push_issue(&mut out, path, "Personality/entity JSON file should use TitleCase", fix);
        }
    } else {
        let schema = contains_text(path, "/data/schemas/") || contains_text(path, "/data/vector")
            || ends_with_exec(path, "-config.json") || contains_text(path, "/config/schemas/");
        if schema && has_char_exec(&v, '_') {
            let fix = with_suffix(&replace_char_exec(&v, '_', '-'), ".json");
            push_issue(&mut out, path, "Schema/config JSON file should use kebab-case", fix);
        }
    }
    out
}

/// A renaming that replaces one character by another leaves none of the
/// first: the suggested fixes for underscores or hyphens hold none.
pub proof fn law_replaced_character_is_gone(s: Seq<char>, from: char, to: char)
    requires
        from != to,
    ensures
        !has_char(replace_char(s, from, to), from),
{
    let r = replace_char(s, from, to);
    assert forall|i: int| 0 <= i < r.len() implies #[trigger] r[i] != from by {
        assert(r[i] == (if s[i] == from {
            to
        } else {
            s[i]
        }));
    }
}

/// A JSON file in a schema or configuration location (under
/// `/data/schemas/`, `/config/schemas/` or `/data/vector`, or named
/// `*-config.json`) whose stem has an underscore, and is neither hidden nor
/// a personality or registry file, is reported exactly once, as a
/// kebab-case breach fixed by the stem with its underscores turned into
/// hyphens; with no underscore it is not reported.
pub proof fn law_schema_json_breaches(path: Seq<char>, stem: Seq<char>)
    requires
        text::contains_seq(path, "/data/schemas/"@) || text::contains_seq(path, "/data/vector"@)
            || ends_with(path, "-config.json"@) || text::contains_seq(path, "/config/schemas/"@),
        !(stem.len() > 0 && stem[0] == '.'),
        !text::contains_seq(path, "/personality-archetypes/"@),
        !text::contains_seq(stem, "Registry"@),
    ensures
        has_char(stem, '_') ==> json_breaches(path, stem) == seq![
            (
                "Schema/config JSON file should use kebab-case"@,
                replace_char(stem, '_', '-') + ".json"@,
            ),
        ],
        !has_char(stem, '_') ==> json_breaches(path, stem).len() == 0,
{
}

} // verus!
