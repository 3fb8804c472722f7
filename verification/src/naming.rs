//! Naming convention validation.
//!
//! Directory and file names are checked against the project's conventions:
//! directories use kebab-case, Rust files snake_case, Markdown files
//! TitleCase (entities), UPPERCASE (standard documents) or kebab-case, and
//! JSON files TitleCase (entities and archetypes), kebab-case (configuration)
//! or snake_case.  Each check decides, for one entry of a directory walk,
//! whether it breaks its convention and what name is suggested instead.
//!
//! Words in a name are separated by characters that are not alphanumeric,
//! and by a change from a lowercase to an uppercase letter ("helloWorld" has
//! the words "hello" and "World").

use vstd::prelude::*;
use crate::paths;
use crate::paths::{path_extension, path_file_stem_or_empty, path_has_component};
use crate::text;
use crate::text::{
    char_is_alphabetic, char_is_alphanumeric, char_is_lowercase, char_is_numeric,
    char_is_uppercase, char_lower_first, char_upper_first, char_views, chars_of, concat3,
    string_of, string_to_lowercase, string_to_uppercase, str_eq,
};

verus! {

/// Types of naming validation issues.
#[derive(Debug, Clone, Copy, PartialEq, Eq, Structural)]
pub enum IssueType {
    DirectoryNaming,
    RustFileNaming,
    MarkdownFileNaming,
    JsonFileNaming,
}

/// A naming convention issue found during validation.
#[derive(Debug, Clone)]
pub struct NamingIssue {
    /// The path of the entry, as text.
    pub path: String,
    pub issue_type: IssueType,
    pub current_name: String,
    pub suggested_name: String,
    pub description: String,
}

/// Configuration for naming validation.
#[derive(Debug, Clone)]
pub struct ValidationConfig {
    /// The directory to validate, as text.
    pub target_path: String,
    pub fix_issues: bool,
    pub verbose: bool,
}

impl ValidationConfig {
    /// Validates `target_path`, reporting without fixing.
    pub fn for_path(target_path: String) -> (r: Self)
        ensures
            r.target_path@ == target_path@,
            !r.fix_issues,
            !r.verbose,
    {
        ValidationConfig { target_path, fix_issues: false, verbose: false }
    }
}

impl Default for ValidationConfig {
    /// Validates the working directory, written as the relative path `.`,
    /// reporting without fixing.  A program that knows the absolute working
    /// directory passes it to `for_path` instead.
    fn default() -> (r: Self)
        ensures
            r.target_path@ == "."@,
            !r.fix_issues,
            !r.verbose,
    {
        ValidationConfig::for_path(String::from_str("."))
    }
}

/// Result of a validation run.
#[derive(Debug)]
pub struct ValidationResult {
    pub issues: Vec<NamingIssue>,
    pub fixed_count: usize,
    pub error_count: usize,
}

/// The naming convention a name is expected to follow.
#[derive(Debug, Clone, Copy, PartialEq, Eq, Structural)]
pub enum ExpectedCase {
    TitleCase,
    Uppercase,
    KebabCase,
    SnakeCase,
}

// ---------------------------------------------------------------------------
// Specification of the conventions
// ---------------------------------------------------------------------------

/// A character allowed in kebab-case.
pub open spec fn kebab_char(c: char) -> bool {
    text::is_lowercase_char(c) || text::is_numeric_char(c) || c == '-'
}

/// A character allowed in snake_case.
pub open spec fn snake_char(c: char) -> bool {
    text::is_lowercase_char(c) || text::is_numeric_char(c) || c == '_'
}

/// Non-empty, and only lowercase letters, digits and `-`.
pub open spec fn valid_kebab(s: Seq<char>) -> bool {
    s.len() > 0 && forall|i: int| 0 <= i < s.len() ==> kebab_char(#[trigger] s[i])
}

/// Non-empty, and only lowercase letters, digits and `_`.
pub open spec fn valid_snake(s: Seq<char>) -> bool {
    s.len() > 0 && forall|i: int| 0 <= i < s.len() ==> snake_char(#[trigger] s[i])
}

/// Non-empty, an uppercase first character, and alphanumeric characters after it.
pub open spec fn valid_title(s: Seq<char>) -> bool {
    s.len() > 0 && text::is_uppercase_char(s[0]) && forall|i: int|
        1 <= i < s.len() ==> text::is_alphanumeric_char(#[trigger] s[i])
}

/// Only uppercase letters, `-` and `_` (the empty name included).
pub open spec fn valid_uppercase(s: Seq<char>) -> bool {
    forall|i: int|
        0 <= i < s.len() ==> text::is_uppercase_char(#[trigger] s[i]) || s[i] == '-' || s[i]
            == '_'
}

/// `s` with `sep` inserted wherever a lowercase character is followed by an uppercase one.
pub open spec fn mark_camel(s: Seq<char>, sep: char) -> Seq<char>
    decreases s.len(),
{
    if s.len() == 0 {
        seq![]
    } else if s.len() >= 2 && text::is_lowercase_char(s[0]) && text::is_uppercase_char(s[1]) {
        seq![s[0], sep] + mark_camel(s.drop_first(), sep)
    } else {
        seq![s[0]] + mark_camel(s.drop_first(), sep)
    }
}

/// `s` with every character that is not alphanumeric replaced by `sep`.
pub open spec fn separate_non_alnum(s: Seq<char>, sep: char) -> Seq<char> {
    s.map_values(|c: char| if text::is_alphanumeric_char(c) { c } else { sep })
}

/// The non-empty pieces of `s` between occurrences of `sep`, where `cur`
/// was read before `s` (`split(sep)` with the empty pieces left out).
pub open spec fn segments_from(s: Seq<char>, sep: char, cur: Seq<char>) -> Seq<Seq<char>>
    decreases s.len(),
{
    if s.len() == 0 {
        text::flush(cur)
    } else if s[0] == sep {
        text::flush(cur) + segments_from(s.drop_first(), sep, seq![])
    } else {
        segments_from(s.drop_first(), sep, cur.push(s[0]))
    }
}

/// The non-empty pieces of `s` between occurrences of `sep`.
pub open spec fn segments(s: Seq<char>, sep: char) -> Seq<Seq<char>> {
    segments_from(s, sep, seq![])
}

/// The pieces joined with `sep` between them.
pub open spec fn join(ps: Seq<Seq<char>>, sep: char) -> Seq<char>
    decreases ps.len(),
{
    if ps.len() == 0 {
        seq![]
    } else if ps.len() == 1 {
        ps[0]
    } else {
        join(ps.drop_last(), sep) + seq![sep] + ps.last()
    }
}

/// The lowercase form of `s` (words marked), before its separators are normalised.
pub open spec fn lowered(s: Seq<char>, sep: char) -> Seq<char> {
    text::str_lowercase(mark_camel(s, sep))
}

/// Lowercase words of `s` joined by `sep`.
pub open spec fn separated_case(s: Seq<char>, sep: char) -> Seq<char> {
    join(segments(separate_non_alnum(lowered(s, sep), sep), sep), sep)
}

/// What `to_kebab_case` yields.
pub open spec fn kebab_of(s: Seq<char>) -> Seq<char> {
    separated_case(s, '-')
}

/// What `to_snake_case` yields.
pub open spec fn snake_of(s: Seq<char>) -> Seq<char> {
    separated_case(s, '_')
}

/// TitleCase of `s`, where `cap_next` tells whether the next letter starts
/// a word.  A word starts at the beginning and after each dropped
/// character; it starts with an uppercase letter and goes on in lowercase.
/// Digits are kept (and do not end a word); other characters are dropped.
pub open spec fn title_from(s: Seq<char>, cap_next: bool) -> Seq<char>
    decreases s.len(),
{
    if s.len() == 0 {
        seq![]
    } else {
        let c = s[0];
        if text::is_alphabetic_char(c) {
            let out = if cap_next {
                text::upper_first(c)
            } else {
                text::lower_first(c)
            };
            seq![out] + title_from(s.drop_first(), false)
        } else if text::is_numeric_char(c) {
            seq![c] + title_from(s.drop_first(), cap_next)
        } else {
            title_from(s.drop_first(), true)
        }
    }
}

/// What `to_title_case` yields.
pub open spec fn title_of(s: Seq<char>) -> Seq<char> {
    title_from(s, true)
}

/// Directory names exempt from kebab-case.
pub open spec fn special_directory(name: Seq<char>) -> bool {
    name == "src"@ || name == "tests"@ || name == "docs"@ || name == "scripts"@ || name
        == "config"@ || name == "data"@ || name == "logs"@
}

/// Standard document names, written in UPPERCASE.
pub open spec fn standard_doc(name: Seq<char>) -> bool {
    name == "README"@ || name == "CONTRIBUTING"@ || name == "LICENSE"@ || name == "CHANGELOG"@
}

/// Rust file stems exempt from snake_case.
pub open spec fn special_rust_stem(stem: Seq<char>) -> bool {
    stem == "main"@ || stem == "lib"@ || stem == "mod"@
}

/// Names that exclude a directory entry from the directory walk when they
/// occur in its file name.
pub open spec fn excluded_pattern(s: Seq<char>) -> bool {
    s == "node_modules"@ || s == "target"@ || s == ".git"@ || s == ".vscode"@ || s == "build"@
        || s == "dist"@
}

/// Whether `name` follows `case`.
pub open spec fn follows(case: ExpectedCase, name: Seq<char>) -> bool {
    match case {
        ExpectedCase::TitleCase => valid_title(name),
        ExpectedCase::Uppercase => valid_uppercase(name),
        ExpectedCase::KebabCase => valid_kebab(name),
        ExpectedCase::SnakeCase => valid_snake(name),
    }
}

/// The name suggested for `name` under `case`.
pub open spec fn suggestion(case: ExpectedCase, name: Seq<char>) -> Seq<char> {
    match case {
        ExpectedCase::TitleCase => title_of(name),
        ExpectedCase::Uppercase => text::str_uppercase(name),
        ExpectedCase::KebabCase => kebab_of(name),
        ExpectedCase::SnakeCase => snake_of(name),
    }
}

/// How `case` is named in descriptions.
pub open spec fn case_label(case: ExpectedCase) -> Seq<char> {
    match case {
        ExpectedCase::TitleCase => "TitleCase"@,
        ExpectedCase::Uppercase => "UPPERCASE"@,
        ExpectedCase::KebabCase => "kebab-case"@,
        ExpectedCase::SnakeCase => "snake_case"@,
    }
}

/// The case a Markdown file at `path` with stem `stem` must follow.
pub open spec fn markdown_case(path: Seq<char>, stem: Seq<char>) -> ExpectedCase {
    if paths::has_component(path, "ai-entities"@) {
        ExpectedCase::TitleCase
    } else if standard_doc(stem) {
        ExpectedCase::Uppercase
    } else {
        ExpectedCase::KebabCase
    }
}

/// The case a JSON file at `path` must follow.
pub open spec fn json_case(path: Seq<char>) -> ExpectedCase {
    if paths::has_component(path, "ai-entities"@) || paths::has_component(
        path,
        "personality-archetypes"@,
    ) {
        ExpectedCase::TitleCase
    } else if paths::has_component(path, "config"@) {
        ExpectedCase::KebabCase
    } else {
        ExpectedCase::SnakeCase
    }
}

/// The stem of the file at `path` as the checks read it (empty when there is none).
pub open spec fn stem_or_empty(path: Seq<char>) -> Seq<char> {
    match paths::file_stem(path) {
        Some(s) => s,
        None => Seq::<char>::empty(),
    }
}

/// `issue` reports `name` at `path` with the given type, suggestion and description.
pub open spec fn reports(
    issue: NamingIssue,
    path: Seq<char>,
    issue_type: IssueType,
    name: Seq<char>,
    suggested: Seq<char>,
    description: Seq<char>,
) -> bool {
    &&& issue.path@ == path
    &&& issue.issue_type == issue_type
    &&& issue.current_name@ == name
    &&& issue.suggested_name@ == suggested
    &&& issue.description@ == description
}

// ---------------------------------------------------------------------------
// Case validation and conversion
// ---------------------------------------------------------------------------

/// Whether `s` is non-empty kebab-case: lowercase letters, digits and `-`.
pub fn is_valid_kebab_case(s: &str) -> (r: bool)
    ensures
        r == valid_kebab(s@),
{
    let v = chars_of(s);
    if v.len() == 0 {
        return false;
    }
    let mut i: usize = 0;
    while i < v.len()
        invariant
            v@ == s@,
            i <= v@.len(),
            forall|k: int| 0 <= k < i ==> kebab_char(#[trigger] v@[k]),
        decreases v@.len() - i,
    {
        let c = v[i];
        if !(char_is_lowercase(c) || char_is_numeric(c) || c == '-') {
            assert(!kebab_char(v@[i as int]));
            return false;
        }
        i = i + 1;
    }
    true
}

/// Whether `s` is non-empty snake_case: lowercase letters, digits and `_`.
pub fn is_valid_snake_case(s: &str) -> (r: bool)
    ensures
        r == valid_snake(s@),
{
    let v = chars_of(s);
    if v.len() == 0 {
        return false;
    }
    let mut i: usize = 0;
    while i < v.len()
        invariant
            v@ == s@,
            i <= v@.len(),
            forall|k: int| 0 <= k < i ==> snake_char(#[trigger] v@[k]),
        decreases v@.len() - i,
    {
        let c = v[i];
        if !(char_is_lowercase(c) || char_is_numeric(c) || c == '_') {
            assert(!snake_char(v@[i as int]));
            return false;
        }
        i = i + 1;
    }
    true
}

/// Whether `s` is TitleCase: an uppercase first character, then alphanumerics.
pub fn is_valid_title_case(s: &str) -> (r: bool)
    ensures
        r == valid_title(s@),
{
    let v = chars_of(s);
    if v.len() == 0 || !char_is_uppercase(v[0]) {
        return false;
    }
    let mut i: usize = 1;
    while i < v.len()
        invariant
            v@ == s@,
            1 <= i <= v@.len(),
            forall|k: int| 1 <= k < i ==> text::is_alphanumeric_char(#[trigger] v@[k]),
        decreases v@.len() - i,
    {
        if !char_is_alphanumeric(v[i]) {
            assert(!text::is_alphanumeric_char(v@[i as int]));
            return false;
        }
        i = i + 1;
    }
    true
}

/// Whether every character of `s` is uppercase, `-` or `_`.
pub fn is_valid_uppercase(s: &str) -> (r: bool)
    ensures
        r == valid_uppercase(s@),
{
    let v = chars_of(s);
    let mut i: usize = 0;
    while i < v.len()
        invariant
            v@ == s@,
            i <= v@.len(),
            forall|k: int|
                0 <= k < i ==> text::is_uppercase_char(#[trigger] v@[k]) || v@[k] == '-' || v@[k]
                    == '_',
        decreases v@.len() - i,
    {
        let c = v[i];
        if !(char_is_uppercase(c) || c == '-' || c == '_') {
            return false;
        }
        i = i + 1;
    }
    true
}

/// `v` with `sep` inserted between a lowercase character and an uppercase one after it.
fn mark_camel_exec(v: &Vec<char>, sep: char) -> (r: Vec<char>)
    ensures
        r@ == mark_camel(v@, sep),
{
    let n = v.len();
    let mut r: Vec<char> = Vec::new();
    let mut i: usize = 0;
    assert(v@.skip(0) =~= v@);
    while i < n
        invariant
            n == v@.len(),
            i <= n,
            r@ + mark_camel(v@.skip(i as int), sep) == mark_camel(v@, sep),
        decreases n - i,
    {
        let ghost before = r@;
        let ghost s = v@.skip(i as int);
        assert(s.drop_first() =~= v@.skip(i + 1));
        r.push(v[i]);
        if i + 1 < n && char_is_lowercase(v[i]) && char_is_uppercase(v[i + 1]) {
            r.push(sep);
            assert(r@ + mark_camel(v@.skip(i + 1), sep) =~= before + (seq![s[0], sep]
                + mark_camel(s.drop_first(), sep)));
        } else {
            assert(r@ + mark_camel(v@.skip(i + 1), sep) =~= before + (seq![s[0]] + mark_camel(
                s.drop_first(),
                sep,
            )));
        }
        i = i + 1;
    }
    assert(v@.skip(n as int) =~= Seq::<char>::empty());
    assert(r@ =~= r@ + mark_camel(v@.skip(n as int), sep));
    r
}

/// `v` with every non-alphanumeric character replaced by `sep`.
fn separate_non_alnum_exec(v: &Vec<char>, sep: char) -> (r: Vec<char>)
    ensures
        r@ == separate_non_alnum(v@, sep),
{
    let mut r: Vec<char> = Vec::new();
    let mut i: usize = 0;
    while i < v.len()
        invariant
            i <= v@.len(),
            r@ == separate_non_alnum(v@.take(i as int), sep),
        decreases v@.len() - i,
    {
        let c = v[i];
        let d = if char_is_alphanumeric(c) {
            c
        } else {
            sep
        };
        r.push(d);
        i = i + 1;
        assert(separate_non_alnum(v@.take(i as int), sep) =~= separate_non_alnum(
            v@.take(i - 1),
            sep,
        ).push(d));
    }
    assert(v@.take(v@.len() as int) =~= v@);
    r
}

/// The non-empty pieces of `v` between occurrences of `sep`.
fn segments_exec(v: &Vec<char>, sep: char) -> (r: Vec<Vec<char>>)
    ensures
        char_views(r@) == segments(v@, sep),
{
    let n = v.len();
    let mut r: Vec<Vec<char>> = Vec::new();
    let mut cur: Vec<char> = Vec::new();
    let mut i: usize = 0;
    assert(v@.skip(0) =~= v@);
    while i < n
        invariant
            n == v@.len(),
            i <= n,
            char_views(r@) + segments_from(v@.skip(i as int), sep, cur@) == segments(v@, sep),
        decreases n - i,
    {
        let ghost before = char_views(r@);
        let ghost cur_before = cur@;
        let ghost s = v@.skip(i as int);
        assert(s.drop_first() =~= v@.skip(i + 1));
        let c = v[i];
        if c == sep {
            if cur.len() > 0 {
                r.push(cur);
                cur = Vec::new();
            }
            assert(char_views(r@) =~= before + text::flush(cur_before));
            assert(cur@ =~= Seq::<char>::empty());
            assert(char_views(r@) + segments_from(v@.skip(i + 1), sep, cur@) =~= before + (
            text::flush(cur_before) + segments_from(s.drop_first(), sep, seq![])));
        } else {
            cur.push(c);
        }
        i = i + 1;
    }
    assert(v@.skip(n as int) =~= Seq::<char>::empty());
    let ghost before = char_views(r@);
    let ghost last = cur@;
    if cur.len() > 0 {
        r.push(cur);
    }
    assert(char_views(r@) =~= before + text::flush(last));
    r
}

/// The pieces joined with `sep`.
fn join_exec(ps: &Vec<Vec<char>>, sep: char) -> (r: Vec<char>)
    ensures
        r@ == join(char_views(ps@), sep),
{
    let ghost pv = char_views(ps@);
    let mut r: Vec<char> = Vec::new();
    let mut k: usize = 0;
    while k < ps.len()
        invariant
            pv == char_views(ps@),
            k <= ps@.len(),
            r@ == join(pv.take(k as int), sep),
        decreases ps@.len() - k,
    {
        assert(pv.take(k + 1).drop_last() =~= pv.take(k as int));
        if k > 0 {
            r.push(sep);
        }
        text::append_chars(&mut r, &ps[k]);
        k = k + 1;
        if k == 1 {
            assert(r@ =~= join(pv.take(k as int), sep));
        } else {
            assert(r@ =~= join(pv.take(k as int), sep));
        }
    }
    assert(pv.take(ps@.len() as int) =~= pv);
    r
}

/// The words of an already lowercased name joined by `sep`: every
/// character that is not alphanumeric separates words, and empty words are
/// dropped.
pub fn join_lowered_words(lowered: &str, sep: char) -> (r: String)
    ensures
        r@ == join(segments(separate_non_alnum(lowered@, sep), sep), sep),
{
    let lv = chars_of(lowered);
    let mapped = separate_non_alnum_exec(&lv, sep);
    let parts = segments_exec(&mapped, sep);
    let joined = join_exec(&parts, sep);
    string_of(joined.as_slice())
}

/// Lowercase words of `s` joined by `sep`.
fn separated_case_exec(s: &str, sep: char) -> (r: String)
    ensures
        r@ == separated_case(s@, sep),
{
    let v = chars_of(s);
    let marked = mark_camel_exec(&v, sep);
    let marked_string = string_of(marked.as_slice());
    let lower = string_to_lowercase(marked_string.as_str());
    join_lowered_words(lower.as_str(), sep)
}

/// Converts `s` to kebab-case: lowercase words joined by `-`.
pub fn to_kebab_case(s: &str) -> (r: String)
    ensures
        r@ == kebab_of(s@),
{
    separated_case_exec(s, '-')
}

/// Converts `s` to snake_case: lowercase words joined by `_`.
pub fn to_snake_case(s: &str) -> (r: String)
    ensures
        r@ == snake_of(s@),
{
    separated_case_exec(s, '_')
}

/// Converts `s` to TitleCase: every word capitalised and the separators dropped.
pub fn to_title_case(s: &str) -> (r: String)
    ensures
        r@ == title_of(s@),
{
    let v = chars_of(s);
    let n = v.len();
    let mut r: Vec<char> = Vec::new();
    let mut capitalize_next = true;
    let mut i: usize = 0;
    assert(v@.skip(0) =~= v@);
    while i < n
        invariant
            n == v@.len(),
            v@ == s@,
            i <= n,
            r@ + title_from(v@.skip(i as int), capitalize_next) == title_of(s@),
        decreases n - i,
    {
        let ghost before = r@;
        let ghost t = v@.skip(i as int);
        assert(t.drop_first() =~= v@.skip(i + 1));
        let c = v[i];
        if char_is_alphabetic(c) {
            let out = if capitalize_next {
                char_upper_first(c)
            } else {
                char_lower_first(c)
            };
            r.push(out);
            capitalize_next = false;
            assert(r@ + title_from(v@.skip(i + 1), capitalize_next) =~= before + (seq![out]
                + title_from(t.drop_first(), false)));
        } else if char_is_numeric(c) {
            r.push(c);
            assert(r@ + title_from(v@.skip(i + 1), capitalize_next) =~= before + (seq![c]
                + title_from(t.drop_first(), capitalize_next)));
        } else {
            capitalize_next = true;
        }
        i = i + 1;
    }
    assert(v@.skip(n as int) =~= Seq::<char>::empty());
    assert(r@ =~= r@ + title_from(v@.skip(n as int), capitalize_next));
    string_of(r.as_slice())
}

/// `s` in uppercase (`str::to_uppercase`).
pub fn to_uppercase(s: &str) -> (r: String)
    ensures
        r@ == text::str_uppercase(s@),
{
    string_to_uppercase(s)
}

// ---------------------------------------------------------------------------
// Names and paths with special meaning
// ---------------------------------------------------------------------------

/// Whether `name` is a directory exempt from kebab-case.
pub fn is_special_directory(name: &str) -> (r: bool)
    ensures
        r == special_directory(name@),
{
    str_eq(name, "src") || str_eq(name, "tests") || str_eq(name, "docs") || str_eq(name, "scripts")
        || str_eq(name, "config") || str_eq(name, "data") || str_eq(name, "logs")
}

/// Whether `name` is a standard document (README, CONTRIBUTING, LICENSE, CHANGELOG).
pub fn is_standard_doc(name: &str) -> (r: bool)
    ensures
        r == standard_doc(name@),
{
    str_eq(name, "README") || str_eq(name, "CONTRIBUTING") || str_eq(name, "LICENSE") || str_eq(
        name,
        "CHANGELOG",
    )
}

/// Whether the file at `path` lies under an `ai-entities` directory.
pub fn is_entity_file(path: &str) -> (r: bool)
    ensures
        r == paths::has_component(path@, "ai-entities"@),
{
    path_has_component(path, "ai-entities")
}

/// Whether the file at `path` lies under an `ai-entities` or
/// `personality-archetypes` directory.
pub fn is_entity_or_archetype_file(path: &str) -> (r: bool)
    ensures
        r == (paths::has_component(path@, "ai-entities"@) || paths::has_component(
            path@,
            "personality-archetypes"@,
        )),
{
    path_has_component(path, "ai-entities") || path_has_component(path, "personality-archetypes")
}

/// Whether the file at `path` lies under a `config` directory.
pub fn is_config_file(path: &str) -> (r: bool)
    ensures
        r == paths::has_component(path@, "config"@),
{
    path_has_component(path, "config")
}

/// Whether a directory entry named `name` is left out of the directory walk:
/// its name contains one of the excluded names.
pub fn is_excluded_entry(name: &str) -> (r: bool)
    ensures
        r == exists|p: Seq<char>| excluded_pattern(p) && #[trigger] text::contains_seq(name@, p),
{
    let r = text::contains_text(name, "node_modules") || text::contains_text(name, "target")
        || text::contains_text(name, ".git") || text::contains_text(name, ".vscode")
        || text::contains_text(name, "build") || text::contains_text(name, "dist");
    proof {
        if r {
            if text::contains_seq(name@, "node_modules"@) {
                assert(excluded_pattern("node_modules"@));
            } else if text::contains_seq(name@, "target"@) {
                assert(excluded_pattern("target"@));
            } else if text::contains_seq(name@, ".git"@) {
                assert(excluded_pattern(".git"@));
            } else if text::contains_seq(name@, ".vscode"@) {
                assert(excluded_pattern(".vscode"@));
            } else if text::contains_seq(name@, "build"@) {
                assert(excluded_pattern("build"@));
            } else {
                assert(excluded_pattern("dist"@));
            }
        }
    }
    r
}

// ---------------------------------------------------------------------------
// Checks of single entries
// ---------------------------------------------------------------------------

/// Whether `name` follows `case`.
pub fn follows_case(case: ExpectedCase, name: &str) -> (r: bool)
    ensures
        r == follows(case, name@),
{
    match case {
        ExpectedCase::TitleCase => is_valid_title_case(name),
        ExpectedCase::Uppercase => is_valid_uppercase(name),
        ExpectedCase::KebabCase => is_valid_kebab_case(name),
        ExpectedCase::SnakeCase => is_valid_snake_case(name),
    }
}

/// The name suggested for `name` under `case`.
pub fn suggest_name(case: ExpectedCase, name: &str) -> (r: String)
    ensures
        r@ == suggestion(case, name@),
{
    match case {
        ExpectedCase::TitleCase => to_title_case(name),
        ExpectedCase::Uppercase => to_uppercase(name),
        ExpectedCase::KebabCase => to_kebab_case(name),
        ExpectedCase::SnakeCase => to_snake_case(name),
    }
}

/// How `case` is named in descriptions.
pub fn case_name(case: ExpectedCase) -> (r: &'static str)
    ensures
        r@ == case_label(case),
{
    match case {
        ExpectedCase::TitleCase => "TitleCase",
        ExpectedCase::Uppercase => "UPPERCASE",
        ExpectedCase::KebabCase => "kebab-case",
        ExpectedCase::SnakeCase => "snake_case",
    }
}

/// The check of a directory (other than the root of the walk) at `path`
/// named `dir_name`: it must be kebab-case unless it is a special directory.
pub fn check_directory(path: &str, dir_name: &str) -> (r: Option<NamingIssue>)
    ensures
        r is Some <==> !valid_kebab(dir_name@) && !special_directory(dir_name@),
        r matches Some(issue) ==> reports(
            issue,
            path@,
            IssueType::DirectoryNaming,
            dir_name@,
            kebab_of(dir_name@),
            "Directory '"@ + dir_name@ + "' should use kebab-case"@,
        ),
{
    if !is_valid_kebab_case(dir_name) && !is_special_directory(dir_name) {
        Some(
            NamingIssue {
                path: String::from_str(path),
                issue_type: IssueType::DirectoryNaming,
                current_name: String::from_str(dir_name),
                suggested_name: to_kebab_case(dir_name),
                description: concat3("Directory '", dir_name, "' should use kebab-case"),
            },
        )
    } else {
        None
    }
}

/// The check of a file at `path`: a Rust source (extension `rs`) whose stem
/// is not `main`, `lib` or `mod` must be snake_case.
pub fn check_rust_file(path: &str) -> (r: Option<NamingIssue>)
    ensures
        r is Some <==> paths::extension(path@) == Some("rs"@) && !special_rust_stem(
            stem_or_empty(path@),
        ) && !valid_snake(stem_or_empty(path@)),
        r matches Some(issue) ==> reports(
            issue,
            path@,
            IssueType::RustFileNaming,
            stem_or_empty(path@),
            snake_of(stem_or_empty(path@)),
            "Rust file '"@ + stem_or_empty(path@) + "' should use snake_case"@,
        ),
{
    match path_extension(path) {
        None => {
            return None;
        },
        Some(ext) => {
            if !str_eq(ext.as_str(), "rs") {
                return None;
            }
        },
    }
    let stem = path_file_stem_or_empty(path);
    let s = stem.as_str();
    if str_eq(s, "main") || str_eq(s, "lib") || str_eq(s, "mod") {
        return None;
    }
    if is_valid_snake_case(s) {
        return None;
    }
    Some(
        NamingIssue {
            path: String::from_str(path),
            issue_type: IssueType::RustFileNaming,
            current_name: String::from_str(s),
            suggested_name: to_snake_case(s),
            description: concat3("Rust file '", s, "' should use snake_case"),
        },
    )
}

/// An issue for a file whose stem `stem` breaks `case`, or none.
fn case_issue(
    path: &str,
    stem: &str,
    case: ExpectedCase,
    issue_type: IssueType,
    kind: &str,
) -> (r: Option<NamingIssue>)
    ensures
        r is Some <==> !follows(case, stem@),
        r matches Some(issue) ==> reports(
            issue,
            path@,
            issue_type,
            stem@,
            suggestion(case, stem@),
            kind@ + " '"@ + stem@ + "' should use "@ + case_label(case),
        ),
{
    if follows_case(case, stem) {
        return None;
    }
    let mut description = String::from_str(kind);
    description.append(" '");
    description.append(stem);
    description.append("' should use ");
    description.append(case_name(case));
    Some(
        NamingIssue {
            path: String::from_str(path),
            issue_type,
            current_name: String::from_str(stem),
            suggested_name: suggest_name(case, stem),
            description,
        },
    )
}

/// The case expected of a Markdown file at `path` with stem `stem`.
pub fn markdown_expected_case(path: &str, stem: &str) -> (r: ExpectedCase)
    ensures
        r == markdown_case(path@, stem@),
{
    if is_entity_file(path) {
        ExpectedCase::TitleCase
    } else if is_standard_doc(stem) {
        ExpectedCase::Uppercase
    } else {
        ExpectedCase::KebabCase
    }
}

/// The case expected of a JSON file at `path`.
pub fn json_expected_case(path: &str) -> (r: ExpectedCase)
    ensures
        r == json_case(path@),
{
    if is_entity_or_archetype_file(path) {
        ExpectedCase::TitleCase
    } else if is_config_file(path) {
        ExpectedCase::KebabCase
    } else {
        ExpectedCase::SnakeCase
    }
}

/// The check of a file at `path`: a Markdown file (extension `md`) must be
/// TitleCase under `ai-entities`, UPPERCASE when it is a standard document,
/// and kebab-case otherwise.
pub fn check_markdown_file(path: &str) -> (r: Option<NamingIssue>)
    ensures
        r is Some <==> paths::extension(path@) == Some("md"@) && !follows(
            markdown_case(path@, stem_or_empty(path@)),
            stem_or_empty(path@),
        ),
        r matches Some(issue) ==> reports(
            issue,
            path@,
            IssueType::MarkdownFileNaming,
            stem_or_empty(path@),
            suggestion(markdown_case(path@, stem_or_empty(path@)), stem_or_empty(path@)),
            "Markdown file"@ + " '"@ + stem_or_empty(path@) + "' should use "@ + case_label(
                markdown_case(path@, stem_or_empty(path@)),
            ),
        ),
{
    match path_extension(path) {
        None => {
            return None;
        },
        Some(ext) => {
            if !str_eq(ext.as_str(), "md") {
                return None;
            }
        },
    }
    let stem = path_file_stem_or_empty(path);
    let case = markdown_expected_case(path, stem.as_str());
    case_issue(path, stem.as_str(), case, IssueType::MarkdownFileNaming, "Markdown file")
}

/// The check of a file at `path`: a JSON file (extension `json`) must be
/// TitleCase under `ai-entities` or `personality-archetypes`, kebab-case
/// under `config`, and snake_case otherwise.
pub fn check_json_file(path: &str) -> (r: Option<NamingIssue>)
    ensures
        r is Some <==> paths::extension(path@) == Some("json"@) && !follows(
            json_case(path@),
            stem_or_empty(path@),
        ),
        r matches Some(issue) ==> reports(
            issue,
            path@,
            IssueType::JsonFileNaming,
            stem_or_empty(path@),
            suggestion(json_case(path@), stem_or_empty(path@)),
            "JSON file"@ + " '"@ + stem_or_empty(path@) + "' should use "@ + case_label(
                json_case(path@),
            ),
        ),
{
    match path_extension(path) {
        None => {
            return None;
        },
        Some(ext) => {
            if !str_eq(ext.as_str(), "json") {
                return None;
            }
        },
    }
    let stem = path_file_stem_or_empty(path);
    let case = json_expected_case(path);
    case_issue(path, stem.as_str(), case, IssueType::JsonFileNaming, "JSON file")
}

/// All the issues of a validation run, in the order in which the checks
/// run: directories, then Rust files, then Markdown files, then JSON files.
pub fn gather_issues(
    directories: Vec<NamingIssue>,
    rust_files: Vec<NamingIssue>,
    markdown_files: Vec<NamingIssue>,
    json_files: Vec<NamingIssue>,
) -> (r: Vec<NamingIssue>)
    ensures
        r@ == directories@ + rust_files@ + markdown_files@ + json_files@,
{
    let mut all = directories;
    let mut rest = rust_files;
    all.append(&mut rest);
    let mut rest = markdown_files;
    all.append(&mut rest);
    let mut rest = json_files;
    all.append(&mut rest);
    all
}

/// The result of a validation run over `issues`.  When fixing was asked
/// for, each issue has had its rename tried, in order, and `fix_outcomes`
/// tells for each whether it succeeded; otherwise nothing was tried and
/// `fix_outcomes` is empty.
pub fn validation_result(issues: Vec<NamingIssue>, fix_issues: bool, fix_outcomes: &Vec<bool>) -> (r:
    ValidationResult)
    requires
        fix_outcomes@.len() == (if fix_issues {
            issues@.len()
        } else {
            0
        }),
    ensures
        r.issues@ == issues@,
        r.fixed_count == text::count_of(fix_outcomes@, true),
        r.error_count == text::count_of(fix_outcomes@, false),
        fix_issues ==> r.fixed_count + r.error_count == issues@.len(),
        !fix_issues ==> r.fixed_count == 0 && r.error_count == 0,
{
    let mut fixed: usize = 0;
    let mut errors: usize = 0;
    let mut i: usize = 0;
    while i < fix_outcomes.len()
        invariant
            i <= fix_outcomes@.len(),
            fixed == text::count_of(fix_outcomes@.take(i as int), true),
            errors == text::count_of(fix_outcomes@.take(i as int), false),
            fixed + errors == i,
        decreases fix_outcomes@.len() - i,
    {
        assert(fix_outcomes@.take(i + 1).drop_last() =~= fix_outcomes@.take(i as int));
        if fix_outcomes[i] {
            fixed = fixed + 1;
        } else {
            errors = errors + 1;
        }
        i = i + 1;
    }
    assert(fix_outcomes@.take(fix_outcomes@.len() as int) =~= fix_outcomes@);
    ValidationResult { issues, fixed_count: fixed, error_count: errors }
}

// ---------------------------------------------------------------------------
// Laws
// ---------------------------------------------------------------------------

/// Every character of `s` satisfies `p`.
pub open spec fn all_chars(s: Seq<char>, p: spec_fn(char) -> bool) -> bool {
    forall|i: int| 0 <= i < s.len() ==> p(#[trigger] s[i])
}

proof fn lemma_all_chars_concat(a: Seq<char>, b: Seq<char>, p: spec_fn(char) -> bool)
    requires
        all_chars(a, p),
        all_chars(b, p),
    ensures
        all_chars(a + b, p),
{
    assert forall|i: int| 0 <= i < (a + b).len() implies p(#[trigger] (a + b)[i]) by {
        if i >= a.len() {
            assert((a + b)[i] == b[i - a.len()]);
        }
    }
}

proof fn lemma_segments_chars(s: Seq<char>, sep: char, cur: Seq<char>, p: spec_fn(char) -> bool)
    requires
        all_chars(cur, p),
        all_chars(s, p),
    ensures
        forall|k: int|
            0 <= k < segments_from(s, sep, cur).len() ==> all_chars(
                #[trigger] segments_from(s, sep, cur)[k],
                p,
            ) && segments_from(s, sep, cur)[k].len() > 0,
    decreases s.len(),
{
    if s.len() == 0 {
    } else {
        assert(all_chars(s.drop_first(), p)) by {
            assert forall|i: int| 0 <= i < s.drop_first().len() implies p(
                #[trigger] s.drop_first()[i],
            ) by {
                assert(s.drop_first()[i] == s[i + 1]);
            }
        }
        if s[0] == sep {
            lemma_segments_chars(s.drop_first(), sep, seq![], p);
            let a = text::flush(cur);
            let b = segments_from(s.drop_first(), sep, seq![]);
            assert(segments_from(s, sep, cur) == a + b);
            assert forall|k: int| 0 <= k < (a + b).len() implies all_chars(#[trigger] (a + b)[k], p)
                && (a + b)[k].len() > 0 by {
                if k >= a.len() {
                    assert((a + b)[k] == b[k - a.len()]);
                }
            }
        } else {
            assert(all_chars(cur.push(s[0]), p)) by {
                assert forall|i: int| 0 <= i < cur.push(s[0]).len() implies p(
                    #[trigger] cur.push(s[0])[i],
                ) by {
                    if i < cur.len() {
                        assert(cur.push(s[0])[i] == cur[i]);
                    }
                }
            }
            lemma_segments_chars(s.drop_first(), sep, cur.push(s[0]), p);
            assert(segments_from(s, sep, cur) == segments_from(s.drop_first(), sep, cur.push(s[0])));
        }
    }
}

proof fn lemma_join_chars(ps: Seq<Seq<char>>, sep: char, p: spec_fn(char) -> bool)
    requires
        p(sep),
        forall|k: int| 0 <= k < ps.len() ==> all_chars(#[trigger] ps[k], p),
    ensures
        all_chars(join(ps, sep), p),
    decreases ps.len(),
{
    if ps.len() == 0 {
    } else if ps.len() == 1 {
        assert(all_chars(ps[0], p));
    } else {
        assert forall|k: int| 0 <= k < ps.drop_last().len() implies all_chars(
            #[trigger] ps.drop_last()[k],
            p,
        ) by {
            assert(ps.drop_last()[k] == ps[k]);
        }
        lemma_join_chars(ps.drop_last(), sep, p);
        assert(all_chars(seq![sep], p)) by {
            assert forall|i: int| 0 <= i < seq![sep].len() implies p(#[trigger] seq![sep][i]) by {
                assert(seq![sep][i] == sep);
            }
        }
        assert(all_chars(ps.last(), p));
        lemma_all_chars_concat(join(ps.drop_last(), sep), seq![sep], p);
        lemma_all_chars_concat(join(ps.drop_last(), sep) + seq![sep], ps.last(), p);
    }
}

/// The characters of `separate_non_alnum(s, sep)` satisfy `p` when `sep`
/// does and every alphanumeric character of `s` does.
proof fn lemma_separated_chars(s: Seq<char>, sep: char, p: spec_fn(char) -> bool)
    requires
        p(sep),
        forall|i: int| 0 <= i < s.len() && text::is_alphanumeric_char(#[trigger] s[i]) ==> p(s[i]),
    ensures
        all_chars(separate_non_alnum(s, sep), p),
{
    let m = separate_non_alnum(s, sep);
    assert forall|i: int| 0 <= i < m.len() implies p(#[trigger] m[i]) by {
        assert(m[i] == (if text::is_alphanumeric_char(s[i]) {
            s[i]
        } else {
            sep
        }));
    }
}

/// A name converted to kebab-case follows kebab-case, when the conversion
/// leaves something and every alphanumeric character of the lowercased name
/// is a lowercase letter or a digit (true of cased scripts; a letter without
/// case, such as a CJK ideograph, is alphanumeric but not lowercase).
pub proof fn law_kebab_suggestion_is_valid(s: Seq<char>)
    requires
        kebab_of(s).len() > 0,
        forall|i: int|
            0 <= i < lowered(s, '-').len() && text::is_alphanumeric_char(
                #[trigger] lowered(s, '-')[i],
            ) ==> text::is_lowercase_char(lowered(s, '-')[i]) || text::is_numeric_char(
                lowered(s, '-')[i],
            ),
    ensures
        valid_kebab(kebab_of(s)),
{
    let p = |c: char| kebab_char(c);
    let m = separate_non_alnum(lowered(s, '-'), '-');
    lemma_separated_chars(lowered(s, '-'), '-', p);
    lemma_segments_chars(m, '-', seq![], p);
    lemma_join_chars(segments(m, '-'), '-', p);
    assert forall|i: int| 0 <= i < kebab_of(s).len() implies kebab_char(#[trigger] kebab_of(s)[i]) by {
        assert(p(kebab_of(s)[i]));
    }
}

/// A name converted to snake_case follows snake_case, under the same
/// conditions as for kebab-case.
pub proof fn law_snake_suggestion_is_valid(s: Seq<char>)
    requires
        snake_of(s).len() > 0,
        forall|i: int|
            0 <= i < lowered(s, '_').len() && text::is_alphanumeric_char(
                #[trigger] lowered(s, '_')[i],
            ) ==> text::is_lowercase_char(lowered(s, '_')[i]) || text::is_numeric_char(
                lowered(s, '_')[i],
            ),
    ensures
        valid_snake(snake_of(s)),
{
    let p = |c: char| snake_char(c);
    let m = separate_non_alnum(lowered(s, '_'), '_');
    lemma_separated_chars(lowered(s, '_'), '_', p);
    lemma_segments_chars(m, '_', seq![], p);
    lemma_join_chars(segments(m, '_'), '_', p);
    assert forall|i: int| 0 <= i < snake_of(s).len() implies snake_char(#[trigger] snake_of(s)[i]) by {
        assert(p(snake_of(s)[i]));
    }
}

/// A kebab-case or snake_case conversion never starts or ends with its
/// separator and never holds two separators in a row.
pub proof fn law_separated_case_is_normalised(s: Seq<char>, sep: char)
    ensures
        separated_case(s, sep).len() > 0 ==> separated_case(s, sep)[0] != sep
            && separated_case(s, sep).last() != sep,
        forall|i: int|
            0 <= i < separated_case(s, sep).len() - 1 && #[trigger] separated_case(s, sep)[i]
                == sep ==> separated_case(s, sep)[i + 1] != sep,
{
    let m = separate_non_alnum(lowered(s, sep), sep);
    let ps = segments(m, sep);
    lemma_segments_no_sep(m, sep, seq![]);
    lemma_join_normalised(ps, sep);
}

proof fn lemma_segments_no_sep(s: Seq<char>, sep: char, cur: Seq<char>)
    requires
        forall|i: int| 0 <= i < cur.len() ==> #[trigger] cur[i] != sep,
    ensures
        forall|k: int|
            0 <= k < segments_from(s, sep, cur).len() ==> (#[trigger] segments_from(s, sep, cur)[k]).len()
                > 0 && forall|i: int|
                0 <= i < segments_from(s, sep, cur)[k].len() ==> segments_from(s, sep, cur)[k][i]
                    != sep,
    decreases s.len(),
{
    if s.len() == 0 {
    } else if s[0] == sep {
        lemma_segments_no_sep(s.drop_first(), sep, seq![]);
        let a = text::flush(cur);
        let b = segments_from(s.drop_first(), sep, seq![]);
        assert(segments_from(s, sep, cur) == a + b);
        assert forall|k: int| 0 <= k < (a + b).len() implies (#[trigger] (a + b)[k]).len() > 0
            && forall|i: int| 0 <= i < (a + b)[k].len() ==> (a + b)[k][i] != sep by {
            if k >= a.len() {
                assert((a + b)[k] == b[k - a.len()]);
            }
        }
    } else {
        let c2 = cur.push(s[0]);
        assert forall|i: int| 0 <= i < c2.len() implies #[trigger] c2[i] != sep by {
            if i < cur.len() {
                assert(c2[i] == cur[i]);
            }
        }
        lemma_segments_no_sep(s.drop_first(), sep, c2);
        assert(segments_from(s, sep, cur) == segments_from(s.drop_first(), sep, c2));
    }
}

proof fn lemma_join_normalised(ps: Seq<Seq<char>>, sep: char)
    requires
        forall|k: int|
            0 <= k < ps.len() ==> (#[trigger] ps[k]).len() > 0 && forall|i: int|
                0 <= i < ps[k].len() ==> ps[k][i] != sep,
    ensures
        join(ps, sep).len() > 0 ==> join(ps, sep)[0] != sep && join(ps, sep).last() != sep,
        forall|i: int|
            0 <= i < join(ps, sep).len() - 1 && #[trigger] join(ps, sep)[i] == sep ==> join(
                ps,
                sep,
            )[i + 1] != sep,
    decreases ps.len(),
{
    if ps.len() == 0 {
    } else if ps.len() == 1 {
        assert(ps[0].len() > 0);
    } else {
        let a = ps.drop_last();
        assert forall|k: int| 0 <= k < a.len() implies (#[trigger] a[k]).len() > 0 && forall|i: int|
            0 <= i < a[k].len() ==> a[k][i] != sep by {
            assert(a[k] == ps[k]);
        }
        lemma_join_normalised(a, sep);
        let j = join(a, sep);
        let l = ps.last();
        assert(l == ps[ps.len() - 1]);
        assert(j.len() > 0) by {
            assert(a[0].len() > 0);
            lemma_join_len(a, sep);
        }
        let full = j + seq![sep] + l;
        assert(join(ps, sep) == full);
        assert forall|i: int| 0 <= i < full.len() - 1 && #[trigger] full[i] == sep implies full[i
            + 1] != sep by {
            if i < j.len() - 1 {
                assert(full[i] == j[i]);
                assert(full[i + 1] == j[i + 1]);
            } else if i == j.len() - 1 {
                assert(full[i] == j.last());
            } else if i == j.len() {
                assert(full[i + 1] == l[0]);
            } else {
                assert(full[i] == l[i - j.len() - 1]);
                assert(full[i + 1] == l[i - j.len()]);
            }
        }
        assert(full[0] == j[0]);
        assert(full.last() == l.last());
    }
}

proof fn lemma_join_len(ps: Seq<Seq<char>>, sep: char)
    requires
        ps.len() > 0,
    ensures
        join(ps, sep).len() >= ps[0].len(),
    decreases ps.len(),
{
    if ps.len() > 1 {
        lemma_join_len(ps.drop_last(), sep);
        assert(ps.drop_last()[0] == ps[0]);
    }
}


/// No character of `s` is `sep`.
pub open spec fn free_of(s: Seq<char>, sep: char) -> bool {
    forall|i: int| 0 <= i < s.len() ==> #[trigger] s[i] != sep
}

proof fn lemma_segments_without_sep(x: Seq<char>, sep: char, cur: Seq<char>)
    requires
        free_of(x, sep),
    ensures
        segments_from(x, sep, cur) == text::flush(cur + x),
    decreases x.len(),
{
    if x.len() == 0 {
        assert(cur + x =~= cur);
    } else {
        assert(x[0] != sep);
        assert(free_of(x.drop_first(), sep)) by {
            assert forall|i: int| 0 <= i < x.drop_first().len() implies #[trigger] x.drop_first()[i]
                != sep by {
                assert(x.drop_first()[i] == x[i + 1]);
            }
        }
        lemma_segments_without_sep(x.drop_first(), sep, cur.push(x[0]));
        assert(cur.push(x[0]) + x.drop_first() =~= cur + x);
    }
}

proof fn lemma_segments_at_sep(x: Seq<char>, y: Seq<char>, sep: char, cur: Seq<char>)
    requires
        free_of(x, sep),
    ensures
        segments_from(x + seq![sep] + y, sep, cur) == text::flush(cur + x) + segments_from(
            y,
            sep,
            seq![],
        ),
    decreases x.len(),
{
    let whole = x + seq![sep] + y;
    if x.len() == 0 {
        assert(whole.drop_first() =~= y);
        assert(whole[0] == sep);
        assert(cur + x =~= cur);
    } else {
        assert(x[0] != sep);
        assert(free_of(x.drop_first(), sep)) by {
            assert forall|i: int| 0 <= i < x.drop_first().len() implies #[trigger] x.drop_first()[i]
                != sep by {
                assert(x.drop_first()[i] == x[i + 1]);
            }
        }
        assert(whole[0] == x[0]);
        assert(whole.drop_first() =~= x.drop_first() + seq![sep] + y);
        lemma_segments_at_sep(x.drop_first(), y, sep, cur.push(x[0]));
        assert(cur.push(x[0]) + x.drop_first() =~= cur + x);
    }
}

proof fn lemma_join_first(ps: Seq<Seq<char>>, sep: char)
    requires
        ps.len() >= 2,
    ensures
        join(ps, sep) == ps[0] + seq![sep] + join(ps.drop_first(), sep),
    decreases ps.len(),
{
    if ps.len() == 2 {
        assert(ps.drop_last()[0] == ps[0]);
        assert(ps.drop_first()[0] == ps.last());
        assert(join(ps.drop_last(), sep) == ps[0]);
        assert(join(ps.drop_first(), sep) == ps.last());
        assert(join(ps, sep) == join(ps.drop_last(), sep) + seq![sep] + ps.last());
    } else {
        let init = ps.drop_last();
        let rest = ps.drop_first();
        lemma_join_first(init, sep);
        assert(init.drop_first() =~= rest.drop_last());
        assert(rest.last() == ps.last());
        assert(init[0] == ps[0]);
        let j = join(init.drop_first(), sep);
        assert(join(rest, sep) == j + seq![sep] + ps.last());
        assert(join(ps, sep) == join(init, sep) + seq![sep] + ps.last());
        assert(ps[0] + seq![sep] + j + seq![sep] + ps.last() =~= ps[0] + seq![sep] + (j + seq![sep]
            + ps.last()));
    }
}

/// Splitting a join of non-empty pieces without separators gives the pieces back.
proof fn lemma_segments_of_join(ps: Seq<Seq<char>>, sep: char)
    requires
        forall|k: int|
            0 <= k < ps.len() ==> (#[trigger] ps[k]).len() > 0 && free_of(ps[k], sep),
    ensures
        segments(join(ps, sep), sep) == ps,
    decreases ps.len(),
{
    if ps.len() == 0 {
    } else if ps.len() == 1 {
        assert(ps[0].len() > 0 && free_of(ps[0], sep));
        lemma_segments_without_sep(ps[0], sep, seq![]);
        assert(seq![] + ps[0] =~= ps[0]);
        assert(ps =~= seq![ps[0]]);
    } else {
        let rest = ps.drop_first();
        assert forall|k: int| 0 <= k < rest.len() implies (#[trigger] rest[k]).len() > 0 && free_of(
            rest[k],
            sep,
        ) by {
            assert(rest[k] == ps[k + 1]);
        }
        assert(ps[0].len() > 0 && free_of(ps[0], sep));
        lemma_segments_of_join(rest, sep);
        lemma_join_first(ps, sep);
        lemma_segments_at_sep(ps[0], join(rest, sep), sep, seq![]);
        assert(seq![] + ps[0] =~= ps[0]);
        assert(ps =~= seq![ps[0]] + rest);
    }
}

proof fn lemma_mark_camel_chars(s: Seq<char>, sep: char, p: spec_fn(char) -> bool)
    requires
        all_chars(s, p),
        p(sep),
    ensures
        all_chars(mark_camel(s, sep), p),
    decreases s.len(),
{
    if s.len() > 0 {
        assert(all_chars(s.drop_first(), p)) by {
            assert forall|i: int| 0 <= i < s.drop_first().len() implies p(
                #[trigger] s.drop_first()[i],
            ) by {
                assert(s.drop_first()[i] == s[i + 1]);
            }
        }
        lemma_mark_camel_chars(s.drop_first(), sep, p);
        assert(p(s[0]));
        let head = if s.len() >= 2 && text::is_lowercase_char(s[0]) && text::is_uppercase_char(
            s[1],
        ) {
            seq![s[0], sep]
        } else {
            seq![s[0]]
        };
        assert(all_chars(head, p));
        lemma_all_chars_concat(head, mark_camel(s.drop_first(), sep), p);
    }
}

proof fn lemma_mark_camel_without_uppercase(s: Seq<char>, sep: char)
    requires
        forall|i: int| 0 <= i < s.len() ==> !text::is_uppercase_char(#[trigger] s[i]),
    ensures
        mark_camel(s, sep) == s,
    decreases s.len(),
{
    if s.len() > 0 {
        if s.len() >= 2 {
            assert(!text::is_uppercase_char(s[1]));
        }
        assert forall|i: int| 0 <= i < s.drop_first().len() implies !text::is_uppercase_char(
            #[trigger] s.drop_first()[i],
        ) by {
            assert(s.drop_first()[i] == s[i + 1]);
        }
        lemma_mark_camel_without_uppercase(s.drop_first(), sep);
        assert(seq![s[0]] + s.drop_first() =~= s);
    }
}

/// An ASCII name converted to kebab-case or snake_case follows that case
/// (unless nothing is left of it), and converting it a second time changes
/// nothing.
pub proof fn law_separated_case_is_idempotent(s: Seq<char>, sep: char)
    requires
        text::all_ascii(s),
        sep == '-' || sep == '_',
    ensures
        separated_case(separated_case(s, sep), sep) == separated_case(s, sep),
        sep == '-' && separated_case(s, sep).len() > 0 ==> valid_kebab(separated_case(s, sep)),
        sep == '_' && separated_case(s, sep).len() > 0 ==> valid_snake(separated_case(s, sep)),
{
    let pa = |c: char| text::is_ascii_char(c);
    let q = |c: char| ('a' <= c <= 'z') || ('0' <= c <= '9') || c == sep;
    assert(all_chars(s, pa));
    let mc = mark_camel(s, sep);
    lemma_mark_camel_chars(s, sep, pa);
    assert(text::all_ascii(mc)) by {
        assert forall|i: int| 0 <= i < mc.len() implies text::is_ascii_char(#[trigger] mc[i]) by {
            assert(pa(mc[i]));
        }
    }
    let lw = lowered(s, sep);
    assert(lw == mc.map_values(|c: char| text::ascii_lower(c)));
    assert forall|i: int| 0 <= i < lw.len() && text::is_alphanumeric_char(#[trigger] lw[i]) implies q(
        lw[i],
    ) by {
        let c = mc[i];
        assert(text::is_ascii_char(c));
        assert(lw[i] == text::ascii_lower(c));
    }
    let m = separate_non_alnum(lw, sep);
    lemma_separated_chars(lw, sep, q);
    let ps = segments(m, sep);
    lemma_segments_chars(m, sep, seq![], q);
    lemma_segments_no_sep(m, sep, seq![]);
    lemma_join_chars(ps, sep, q);
    let k = join(ps, sep);
    assert(k == separated_case(s, sep));
    assert forall|i: int| 0 <= i < k.len() implies !text::is_uppercase_char(#[trigger] k[i]) by {
        assert(q(k[i]));
    }
    lemma_mark_camel_without_uppercase(k, sep);
    assert(text::all_ascii(k)) by {
        assert forall|i: int| 0 <= i < k.len() implies text::is_ascii_char(#[trigger] k[i]) by {
            assert(q(k[i]));
        }
    }
    assert(lowered(k, sep) =~= k) by {
        assert forall|i: int| 0 <= i < k.len() implies #[trigger] lowered(k, sep)[i] == k[i] by {
            assert(q(k[i]));
        }
    }
    assert(separate_non_alnum(k, sep) =~= k) by {
        assert forall|i: int| 0 <= i < k.len() implies #[trigger] separate_non_alnum(k, sep)[i]
            == k[i] by {
            assert(q(k[i]));
        }
    }
    assert forall|j: int| 0 <= j < ps.len() implies (#[trigger] ps[j]).len() > 0 && free_of(
        ps[j],
        sep,
    ) by {
        assert(ps[j] == segments_from(m, sep, seq![])[j]);
    }
    lemma_segments_of_join(ps, sep);
    assert forall|i: int| 0 <= i < k.len() implies kebab_char(#[trigger] k[i]) || sep != '-' by {
        assert(q(k[i]));
    }
    assert forall|i: int| 0 <= i < k.len() implies snake_char(#[trigger] k[i]) || sep != '_' by {
        assert(q(k[i]));
    }
}

/// README, CONTRIBUTING, LICENSE and CHANGELOG outside `ai-entities`
/// already follow UPPERCASE, so the Markdown check never lists them.
pub proof fn law_standard_docs_are_never_listed(path: Seq<char>)
    requires
        standard_doc(stem_or_empty(path)),
        !paths::has_component(path, "ai-entities"@),
    ensures
        follows(markdown_case(path, stem_or_empty(path)), stem_or_empty(path)),
{
    reveal_strlit("README");
    reveal_strlit("CONTRIBUTING");
    reveal_strlit("LICENSE");
    reveal_strlit("CHANGELOG");
}

/// A JSON file under `ai-entities` or `personality-archetypes` is held to
/// TitleCase: it is reported exactly when its stem is not TitleCase, with
/// the TitleCase form of the stem as suggestion and TitleCase named.
/// Elsewhere a file under `config` is held to kebab-case, and any other to
/// snake_case, in the same way.
pub proof fn law_json_file_conventions(path: Seq<char>)
    ensures
        ({
            let stem = stem_or_empty(path);
            let case = json_case(path);
            &&& (paths::has_component(path, "ai-entities"@) || paths::has_component(
                path,
                "personality-archetypes"@,
            )) ==> (follows(case, stem) <==> valid_title(stem)) && suggestion(case, stem)
                == title_of(stem) && case_label(case) == "TitleCase"@
            &&& (!paths::has_component(path, "ai-entities"@) && !paths::has_component(
                path,
                "personality-archetypes"@,
            ) && paths::has_component(path, "config"@)) ==> (follows(case, stem) <==> valid_kebab(
                stem,
            )) && suggestion(case, stem) == kebab_of(stem) && case_label(case) == "kebab-case"@
            &&& (!paths::has_component(path, "ai-entities"@) && !paths::has_component(
                path,
                "personality-archetypes"@,
            ) && !paths::has_component(path, "config"@)) ==> (follows(case, stem) <==> valid_snake(
                stem,
            )) && suggestion(case, stem) == snake_of(stem) && case_label(case) == "snake_case"@
        }),
{
}

/// A Markdown file under `ai-entities` is held to TitleCase; elsewhere a
/// standard document to UPPERCASE, and any other to kebab-case.
pub proof fn law_markdown_file_conventions(path: Seq<char>)
    ensures
        ({
            let stem = stem_or_empty(path);
            let case = markdown_case(path, stem);
            &&& paths::has_component(path, "ai-entities"@) ==> (follows(case, stem) <==> valid_title(
                stem,
            )) && suggestion(case, stem) == title_of(stem) && case_label(case) == "TitleCase"@
            &&& (!paths::has_component(path, "ai-entities"@) && standard_doc(stem)) ==> (follows(
                case,
                stem,
            ) <==> valid_uppercase(stem)) && case_label(case) == "UPPERCASE"@
            &&& (!paths::has_component(path, "ai-entities"@) && !standard_doc(stem)) ==> (follows(
                case,
                stem,
            ) <==> valid_kebab(stem)) && suggestion(case, stem) == kebab_of(stem) && case_label(
                case,
            ) == "kebab-case"@
        }),
{
}

} // verus!
