//! Decisions of the file ingestion pipeline: which files are indexed, how
//! much of each is read, and where the index is written.  Walking the
//! directory tree, embedding and building the HNSW index happen around
//! these decisions.

use vstd::prelude::*;
use vstd::string::StringSliceAdditionalSpecFns;
use crate::paths;
use crate::paths::{path_components, path_extension};
use crate::text::str_eq;

verus! {

/// Maximum number of bytes read from each file for embedding.
pub const MAX_FILE_CHARS: usize = 800;

/// Maximum number of tokens for embedding requests.
pub const MAX_EMBEDDING_TOKENS: usize = 600;

/// Maximum connections per node of the HNSW index.
pub const HNSW_MAX_CONNECTIONS: usize = 16;

/// Maximum number of elements of the HNSW index.
pub const HNSW_MAX_ELEMENTS: usize = 100000;

/// Size of the candidate list while the HNSW index is built.
pub const HNSW_EF_CONSTRUCTION: usize = 200;

/// Maximum layer of the HNSW index.
pub const HNSW_MAX_LAYER: usize = 16;

/// Progress is reported after every this many processed files.
pub const PROGRESS_INTERVAL: usize = 10;

/// Configuration for the ingestion process.
#[derive(Debug, Clone)]
pub struct IngestConfig {
    /// Root directory to start ingestion from, as text.
    pub root_dir: String,
    /// Maximum bytes to read per file.
    pub max_chars: usize,
    /// Maximum tokens for embedding requests.
    pub max_tokens: usize,
    /// Maximum number of files to process concurrently; `None` means one
    /// per CPU core.
    pub max_concurrent_files: Option<usize>,
}

impl IngestConfig {
    /// Ingests `root_dir` with the default limits, one file per CPU core at a time.
    pub fn for_root(root_dir: String) -> (r: Self)
        ensures
            r.root_dir@ == root_dir@,
            r.max_chars == MAX_FILE_CHARS,
            r.max_tokens == MAX_EMBEDDING_TOKENS,
            r.max_concurrent_files is None,
    {
        IngestConfig {
            root_dir,
            max_chars: MAX_FILE_CHARS,
            max_tokens: MAX_EMBEDDING_TOKENS,
            max_concurrent_files: None,
        }
    }
}

impl Default for IngestConfig {
    /// Ingests the working directory, written as the relative path `.`, with
    /// the default limits.  A program that knows the absolute working
    /// directory passes it to `for_root` instead.
    fn default() -> (r: Self)
        ensures
            r.root_dir@ == "."@,
            r.max_chars == MAX_FILE_CHARS,
            r.max_tokens == MAX_EMBEDDING_TOKENS,
            r.max_concurrent_files is None,
    {
        IngestConfig::for_root(String::from_str("."))
    }
}

/// Statistics from the ingestion process.
#[derive(Debug, Clone)]
pub struct IngestStats {
    /// Total number of files processed.
    pub files_processed: usize,
    /// Total number of files skipped.
    pub files_skipped: usize,
    /// Output directory path, as text.
    pub output_dir: String,
}

/// The skipped directories and files, by index (`.git`, `.venv`, `.cargo`,
/// `.github`, `.vscode`, `target`, `node_modules`, `build`, `dist`,
/// `docs/api`, `src/target`, `src/Cargo.lock`).
pub open spec fn skip_entry(j: int) -> Seq<char> {
    if j == 0 {
        ".git"@
    } else if j == 1 {
        ".venv"@
    } else if j == 2 {
        ".cargo"@
    } else if j == 3 {
        ".github"@
    } else if j == 4 {
        ".vscode"@
    } else if j == 5 {
        "target"@
    } else if j == 6 {
        "node_modules"@
    } else if j == 7 {
        "build"@
    } else if j == 8 {
        "dist"@
    } else if j == 9 {
        "docs/api"@
    } else if j == 10 {
        "src/target"@
    } else {
        "src/Cargo.lock"@
    }
}

/// The number of skipped entries.
pub open spec fn skip_entry_count() -> int {
    12
}

/// The component list `cs` ends with one of the skipped entries.
pub open spec fn ends_in_skipped(cs: Seq<Seq<char>>) -> bool {
    exists|j: int|
        0 <= j < skip_entry_count() && #[trigger] paths::ends_with_seq(
            cs,
            paths::components(skip_entry(j)),
        )
}

/// A prefix of the components of `p` with at least `m` components ends with
/// a skipped entry: the path itself, or a directory on the way to it that
/// has at least `m` components, is skipped.
pub open spec fn skipped_from(p: Seq<char>, m: int) -> bool {
    exists|n: int|
        m <= n <= paths::components(p).len() && #[trigger] ends_in_skipped(
            paths::components(p).take(n),
        )
}

/// The path lies in a skipped directory, or is a skipped entry itself.
pub open spec fn skipped_path(p: Seq<char>) -> bool {
    skipped_from(p, 0)
}

/// Extensions of the files that are indexed.
pub open spec fn supported_extension(e: Seq<char>) -> bool {
    e == "md"@ || e == "json"@ || e == "jsonl"@
}

/// The file at `p` has a supported extension.
pub open spec fn supported_file(p: Seq<char>) -> bool {
    match paths::extension(p) {
        Some(e) => supported_extension(e),
        None => false,
    }
}

/// The entry at `p`, walked from `root`, is indexed: no directory from
/// `root` down to it, and not the entry itself, is skipped, and it has a
/// supported extension.
pub open spec fn is_candidate(root: Seq<char>, p: Seq<char>) -> bool {
    !skipped_from(p, paths::components(root).len() as int) && supported_file(p)
}

/// The entries of `ps`, walked from `root`, that are indexed, in order.
pub open spec fn candidates(root: Seq<char>, ps: Seq<Seq<char>>) -> Seq<Seq<char>>
    decreases ps.len(),
{
    if ps.len() == 0 {
        seq![]
    } else if is_candidate(root, ps.last()) {
        candidates(root, ps.drop_last()).push(ps.last())
    } else {
        candidates(root, ps.drop_last())
    }
}

/// The components of each skipped entry, in the order of `skip_entry`.
fn skip_entry_components() -> (r: Vec<Vec<Vec<char>>>)
    ensures
        r@.len() == skip_entry_count(),
        forall|j: int|
            0 <= j < skip_entry_count() ==> crate::text::char_views(#[trigger] r@[j]@)
                == paths::components(skip_entry(j)),
{
    let mut r: Vec<Vec<Vec<char>>> = Vec::new();
    r.push(path_components(".git"));
    r.push(path_components(".venv"));
    r.push(path_components(".cargo"));
    r.push(path_components(".github"));
    r.push(path_components(".vscode"));
    r.push(path_components("target"));
    r.push(path_components("node_modules"));
    r.push(path_components("build"));
    r.push(path_components("dist"));
    r.push(path_components("docs/api"));
    r.push(path_components("src/target"));
    r.push(path_components("src/Cargo.lock"));
    r
}

/// Whether the first `n` components of `cs` end with a skipped entry.
fn prefix_is_skipped(cs: &Vec<Vec<char>>, n: usize, skips: &Vec<Vec<Vec<char>>>) -> (r: bool)
    requires
        n <= cs@.len(),
        skips@.len() == skip_entry_count(),
        forall|j: int|
            0 <= j < skip_entry_count() ==> crate::text::char_views(#[trigger] skips@[j]@)
                == paths::components(skip_entry(j)),
    ensures
        r == ends_in_skipped(crate::text::char_views(cs@).take(n as int)),
{
    let ghost pre = crate::text::char_views(cs@).take(n as int);
    let mut j: usize = 0;
    while j < skips.len()
        invariant
            n <= cs@.len(),
            pre == crate::text::char_views(cs@).take(n as int),
            skips@.len() == skip_entry_count(),
            forall|j: int|
                0 <= j < skip_entry_count() ==> crate::text::char_views(#[trigger] skips@[j]@)
                    == paths::components(skip_entry(j)),
            j <= skips@.len(),
            forall|k: int|
                0 <= k < j ==> !#[trigger] paths::ends_with_seq(
                    pre,
                    paths::components(skip_entry(k)),
                ),
        decreases skips@.len() - j,
    {
        if paths::components_end_with(cs, n, &skips[j]) {
            assert(paths::ends_with_seq(pre, paths::components(skip_entry(j as int))));
            return true;
        }
        j = j + 1;
    }
    false
}

/// Whether a prefix of the components of `path` with at least `m`
/// components ends with a skipped entry.
fn skipped_within(path: &str, m: usize) -> (r: bool)
    ensures
        r == skipped_from(path@, m as int),
{
    let cs = path_components(path);
    let ghost pc = paths::components(path@);
    let skips = skip_entry_components();
    let mut n: usize = m;
    if n > cs.len() {
        return false;
    }
    loop
        invariant
            pc == paths::components(path@),
            crate::text::char_views(cs@) == pc,
            pc.len() == cs@.len(),
            m <= n <= cs@.len(),
            skips@.len() == skip_entry_count(),
            forall|j: int|
                0 <= j < skip_entry_count() ==> crate::text::char_views(#[trigger] skips@[j]@)
                    == paths::components(skip_entry(j)),
            forall|k: int| m <= k < n ==> !#[trigger] ends_in_skipped(pc.take(k)),
        decreases cs@.len() - n,
    {
        if prefix_is_skipped(&cs, n, &skips) {
            assert(ends_in_skipped(pc.take(n as int)));
            return true;
        }
        if n == cs.len() {
            return false;
        }
        n = n + 1;
    }
}

/// Determines if a path should be skipped during traversal: it is one of
/// the skipped directories or files, or lies inside one of them.
pub fn should_skip_path(path: &str) -> (r: bool)
    ensures
        r == skipped_path(path@),
{
    skipped_within(path, 0)
}

/// Checks if a file has a supported extension for indexing (md, json, jsonl).
pub fn is_supported_file(path: &str) -> (r: bool)
    ensures
        r == supported_file(path@),
{
    match path_extension(path) {
        Some(e) => str_eq(e.as_str(), "md") || str_eq(e.as_str(), "json") || str_eq(
            e.as_str(),
            "jsonl",
        ),
        None => false,
    }
}

/// Truncates content to at most `max_chars` bytes.  The cut must fall on a
/// character boundary when the content is longer.
pub fn truncate_content(content: &str, max_chars: usize) -> (r: &str)
    requires
        content.spec_bytes().len() <= max_chars || vstd::utf8::is_char_boundary(
            content.spec_bytes(),
            max_chars as int,
        ),
    ensures
        content.spec_bytes().len() <= max_chars ==> r@ == content@,
        content.spec_bytes().len() > max_chars ==> r.spec_bytes() == content.spec_bytes().take(
            max_chars as int,
        ),
{
    let bytes = content.as_bytes();
    if bytes.len() <= max_chars {
        content
    } else {
        let (head, _tail) = content.split_at(max_chars);
        assert(head.spec_bytes() =~= content.spec_bytes().take(max_chars as int));
        head
    }
}

/// Splits the entries walked from `root` into the files to index and the
/// number skipped.  Directories above `root` are not looked at.
pub fn select_candidates(root: &str, entries: &Vec<String>) -> (r: (Vec<String>, usize))
    ensures
        crate::text::string_views(r.0@) == candidates(root@, crate::text::string_views(entries@)),
        r.1 + r.0@.len() == entries@.len(),
{
    let ghost ev = crate::text::string_views(entries@);
    let depth = path_components(root).len();
    let mut chosen: Vec<String> = Vec::new();
    let mut skipped: usize = 0;
    let mut i: usize = 0;
    while i < entries.len()
        invariant
            ev == crate::text::string_views(entries@),
            depth == paths::components(root@).len(),
            i <= entries@.len(),
            crate::text::string_views(chosen@) == candidates(root@, ev.take(i as int)),
            skipped + chosen@.len() == i,
        decreases entries@.len() - i,
    {
        assert(ev.take(i + 1).drop_last() =~= ev.take(i as int));
        let p = entries[i].as_str();
        if skipped_within(p, depth) || !is_supported_file(p) {
            skipped = skipped + 1;
        } else {
            let ghost before = crate::text::string_views(chosen@);
            chosen.push(entries[i].clone());
            assert(crate::text::string_views(chosen@) =~= before.push(ev[i as int]));
        }
        i = i + 1;
    }
    assert(ev.take(entries@.len() as int) =~= ev);
    (chosen, skipped)
}

/// Whether progress is reported after `count` processed files.
pub fn is_progress_point(count: usize) -> (r: bool)
    ensures
        r == (count % PROGRESS_INTERVAL == 0),
{
    count % PROGRESS_INTERVAL == 0
}

/// The directory `data` under `root` (`root.join("data")`).
pub open spec fn data_dir(root: Seq<char>) -> Seq<char> {
    if root.len() == 0 || root.last() == '/' {
        root + "data"@
    } else {
        root + "/data"@
    }
}

/// Statistics of an ingestion of `root` that has not processed any file yet:
/// the output goes to `root/data`.
pub fn initial_stats(root: &str) -> (r: IngestStats)
    ensures
        r.files_processed == 0,
        r.files_skipped == 0,
        r.output_dir@ == data_dir(root@),
{
    let v = crate::text::chars_of(root);
    let mut out = String::from_str(root);
    if v.len() == 0 || v[v.len() - 1] == '/' {
        out.append("data");
    } else {
        out.append("/data");
    }
    IngestStats { files_processed: 0, files_skipped: 0, output_dir: out }
}

/// Selection keeps exactly the walked entries that lie in no skipped
/// directory at or below the root and have the extension `md`, `json` or
/// `jsonl`: each selected entry was walked and is such a file, and each
/// such walked file is selected.
pub proof fn law_candidates_are_the_indexable_files(root: Seq<char>, ps: Seq<Seq<char>>)
    ensures
        forall|k: int|
            0 <= k < candidates(root, ps).len() ==> ps.contains(#[trigger] candidates(root, ps)[k])
                && !skipped_from(candidates(root, ps)[k], paths::components(root).len() as int)
                && (paths::extension(candidates(root, ps)[k]) == Some("md"@) || paths::extension(
                candidates(root, ps)[k],
            ) == Some("json"@) || paths::extension(candidates(root, ps)[k]) == Some("jsonl"@)),
        forall|j: int|
            0 <= j < ps.len() && !skipped_from(ps[j], paths::components(root).len() as int) && (
            paths::extension(ps[j]) == Some("md"@) || paths::extension(ps[j]) == Some("json"@)
                || paths::extension(ps[j]) == Some("jsonl"@)) ==> candidates(root, ps).contains(
                #[trigger] ps[j],
            ),
    decreases ps.len(),
{
    if ps.len() > 0 {
        let init = ps.drop_last();
        law_candidates_are_the_indexable_files(root, init);
        let c = candidates(root, ps);
        let ci = candidates(root, init);
        assert forall|k: int| 0 <= k < c.len() implies ps.contains(#[trigger] c[k]) && !skipped_from(
            c[k],
            paths::components(root).len() as int,
        ) && (paths::extension(c[k]) == Some("md"@) || paths::extension(c[k]) == Some("json"@)
            || paths::extension(c[k]) == Some("jsonl"@)) by {
            if k < ci.len() {
                assert(c[k] == ci[k]);
                let j = choose|j: int| 0 <= j < init.len() && init[j] == ci[k];
                assert(ps[j] == init[j]);
            } else {
                assert(c[k] == ps.last());
                assert(ps[ps.len() - 1] == ps.last());
            }
        }
        assert forall|j: int|
            0 <= j < ps.len() && !skipped_from(ps[j], paths::components(root).len() as int) && (
            paths::extension(ps[j]) == Some("md"@) || paths::extension(ps[j]) == Some("json"@)
                || paths::extension(ps[j]) == Some("jsonl"@)) implies c.contains(
            #[trigger] ps[j],
        ) by {
            if j < init.len() {
                assert(ps[j] == init[j]);
                let k = choose|k: int| 0 <= k < ci.len() && ci[k] == init[j];
                if is_candidate(root, ps.last()) {
                    assert(c[k] == ci[k]);
                } else {
                    assert(c[k] == ci[k]);
                }
            } else {
                assert(ps[j] == ps.last());
                assert(is_candidate(root, ps.last()));
                assert(c[c.len() - 1] == ps.last());
            }
        }
    }
}

} // verus!
