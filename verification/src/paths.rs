//! Paths as text.
//!
//! A path is read as its components: the pieces between `/` separators,
//! where empty pieces and `.` pieces are left out (this is how
//! `std::path::Path` normalises them; a root or a leading `.` is never a
//! named component).  On that model the library answers what it needs of
//! `Path`: the file name, the extension and stem of a file, whether a
//! component has a given name, and whether a path ends with given
//! components.

use vstd::prelude::*;
use crate::text::{chars_equal, chars_of, copy_range, string_of};

verus! {

/// `cur` as a component when it is one (neither empty nor `.`).
pub open spec fn keep_component(cur: Seq<char>) -> Seq<Seq<char>> {
    if cur.len() > 0 && cur != seq!['.'] {
        seq![cur]
    } else {
        seq![]
    }
}

/// The components of `s`, where `cur` was read before `s` since the last separator.
pub open spec fn components_from(s: Seq<char>, cur: Seq<char>) -> Seq<Seq<char>>
    decreases s.len(),
{
    if s.len() == 0 {
        keep_component(cur)
    } else if s[0] == '/' {
        keep_component(cur) + components_from(s.drop_first(), seq![])
    } else {
        components_from(s.drop_first(), cur.push(s[0]))
    }
}

/// The named components of path `p`, in order (`..` included).
pub open spec fn components(p: Seq<char>) -> Seq<Seq<char>> {
    components_from(p, seq![])
}

/// The file name of `p` (`Path::file_name`): its last component, unless
/// there is none or it is `..`.
pub open spec fn file_name(p: Seq<char>) -> Option<Seq<char>> {
    let cs = components(p);
    if cs.len() > 0 && cs.last() != seq!['.', '.'] {
        Some(cs.last())
    } else {
        None
    }
}

/// The index of the last `c` in `s`, or -1.
pub open spec fn last_index_of(s: Seq<char>, c: char) -> int
    decreases s.len(),
{
    if s.len() == 0 {
        -1
    } else if s.last() == c {
        s.len() - 1
    } else {
        last_index_of(s.drop_last(), c)
    }
}

/// The extension of a file name: the text after its last dot, when that dot
/// is not the first character.
pub open spec fn name_extension(f: Seq<char>) -> Option<Seq<char>> {
    let k = last_index_of(f, '.');
    if k <= 0 {
        None
    } else {
        Some(f.skip(k + 1))
    }
}

/// The stem of a file name: the text before its last dot, when that dot is
/// not the first character; else the whole name.
pub open spec fn name_stem(f: Seq<char>) -> Seq<char> {
    let k = last_index_of(f, '.');
    if k <= 0 {
        f
    } else {
        f.take(k)
    }
}

/// `Path::extension`.
pub open spec fn extension(p: Seq<char>) -> Option<Seq<char>> {
    match file_name(p) {
        Some(f) => name_extension(f),
        None => None,
    }
}

/// `Path::file_stem`.
pub open spec fn file_stem(p: Seq<char>) -> Option<Seq<char>> {
    match file_name(p) {
        Some(f) => Some(name_stem(f)),
        None => None,
    }
}

/// Some component of `p` is `name` (for a name that is neither empty, `.`
/// nor `..`, this is whether some ancestor of `p` has that file name).
pub open spec fn has_component(p: Seq<char>, name: Seq<char>) -> bool {
    exists|i: int| 0 <= i < components(p).len() && #[trigger] components(p)[i] == name
}

/// The component list `cs` ends with the component list `tail`.
pub open spec fn ends_with_seq(cs: Seq<Seq<char>>, tail: Seq<Seq<char>>) -> bool {
    tail.len() <= cs.len() && cs.skip(cs.len() - tail.len()) == tail
}

/// The components of `p` end with those of `child` (`Path::ends_with`).
pub open spec fn ends_with_components(p: Seq<char>, child: Seq<char>) -> bool {
    ends_with_seq(components(p), components(child))
}

// ---------------------------------------------------------------------------
// Implementation
// ---------------------------------------------------------------------------

/// Whether `v` is the single character `.`.
fn is_dot(v: &Vec<char>) -> (r: bool)
    ensures
        r == (v@ == seq!['.']),
{
    if v.len() == 1 && v[0] == '.' {
        assert(v@ =~= seq!['.']);
        true
    } else {
        proof {
            if v@.len() == 1 {
                assert(v@[0] != '.');
                assert(seq!['.'][0] == '.');
            }
        }
        false
    }
}

/// The named components of `p`.
pub fn path_components(p: &str) -> (r: Vec<Vec<char>>)
    ensures
        crate::text::char_views(r@) == components(p@),
{
    let v = chars_of(p);
    let n = v.len();
    let mut r: Vec<Vec<char>> = Vec::new();
    let mut cur: Vec<char> = Vec::new();
    let mut i: usize = 0;
    assert(v@.skip(0) =~= v@);
    while i < n
        invariant
            n == v@.len(),
            v@ == p@,
            i <= n,
            crate::text::char_views(r@) + components_from(v@.skip(i as int), cur@) == components(
                p@,
            ),
        decreases n - i,
    {
        let ghost before = crate::text::char_views(r@);
        let ghost cur_before = cur@;
        let ghost s = v@.skip(i as int);
        assert(s.drop_first() =~= v@.skip(i + 1));
        let c = v[i];
        if c == '/' {
            if cur.len() > 0 && !is_dot(&cur) {
                r.push(cur);
            }
            cur = Vec::new();
            assert(crate::text::char_views(r@) =~= before + keep_component(cur_before));
            assert(crate::text::char_views(r@) + components_from(v@.skip(i + 1), cur@) =~= before
                + (keep_component(cur_before) + components_from(s.drop_first(), seq![])));
        } else {
            cur.push(c);
        }
        i = i + 1;
    }
    assert(v@.skip(n as int) =~= Seq::<char>::empty());
    let ghost before = crate::text::char_views(r@);
    let ghost last = cur@;
    if cur.len() > 0 && !is_dot(&cur) {
        r.push(cur);
    }
    assert(crate::text::char_views(r@) =~= before + keep_component(last));
    r
}

/// The file name of `p`, as characters.
fn file_name_chars(p: &str) -> (r: Option<Vec<char>>)
    ensures
        match r {
            Some(f) => file_name(p@) == Some(f@),
            None => file_name(p@) is None,
        },
{
    let mut cs = path_components(p);
    let ghost cv = crate::text::char_views(cs@);
    if cs.len() == 0 {
        return None;
    }
    let last = cs.pop().unwrap();
    assert(last@ == cv.last());
    if last.len() == 2 && last[0] == '.' && last[1] == '.' {
        assert(last@ =~= seq!['.', '.']);
        None
    } else {
        proof {
            if last@ == seq!['.', '.'] {
                assert(last@[0] == seq!['.', '.'][0]);
                assert(last@[1] == seq!['.', '.'][1]);
            }
        }
        Some(last)
    }
}

/// The index of the last dot of `f`, or `f.len()` when there is none.
fn last_dot(f: &Vec<char>) -> (r: usize)
    ensures
        r <= f@.len(),
        r == f@.len() <==> last_index_of(f@, '.') == -1,
        r < f@.len() ==> r == last_index_of(f@, '.'),
{
    let mut j: usize = f.len();
    assert(f@.take(j as int) =~= f@);
    while j > 0 && f[j - 1] != '.'
        invariant
            j <= f@.len(),
            last_index_of(f@, '.') == last_index_of(f@.take(j as int), '.'),
        decreases j,
    {
        assert(f@.take(j as int).drop_last() =~= f@.take(j - 1));
        j = j - 1;
    }
    if j == 0 {
        assert(f@.take(0) =~= Seq::<char>::empty());
        f.len()
    } else {
        j - 1
    }
}

/// The extension of the file named by `p` (`Path::extension`).
pub fn path_extension(p: &str) -> (r: Option<String>)
    ensures
        match r {
            Some(e) => extension(p@) == Some(e@),
            None => extension(p@) is None,
        },
{
    match file_name_chars(p) {
        None => None,
        Some(f) => {
            let k = last_dot(&f);
            if k == f.len() || k == 0 {
                None
            } else {
                let e = copy_range(&f, k + 1, f.len());
                assert(e@ =~= f@.skip(k + 1));
                Some(string_of(e.as_slice()))
            }
        },
    }
}

/// The stem of the file named by `p` (`Path::file_stem`).
pub fn path_file_stem(p: &str) -> (r: Option<String>)
    ensures
        match r {
            Some(e) => file_stem(p@) == Some(e@),
            None => file_stem(p@) is None,
        },
{
    match file_name_chars(p) {
        None => None,
        Some(f) => {
            let k = last_dot(&f);
            if k == f.len() || k == 0 {
                Some(string_of(f.as_slice()))
            } else {
                let e = copy_range(&f, 0, k);
                assert(e@ =~= f@.take(k as int));
                Some(string_of(e.as_slice()))
            }
        },
    }
}

/// The file stem of `p` as text, or the empty text when it has none (as
/// callers read `file_stem().and_then(to_str).unwrap_or("")`).
pub fn path_file_stem_or_empty(p: &str) -> (r: String)
    ensures
        r@ == match file_stem(p@) {
            Some(s) => s,
            None => Seq::<char>::empty(),
        },
{
    match path_file_stem(p) {
        Some(s) => s,
        None => String::new(),
    }
}

/// Whether some component of `p` is `name`.
pub fn path_has_component(p: &str, name: &str) -> (r: bool)
    ensures
        r == has_component(p@, name@),
{
    let cs = path_components(p);
    let nv = chars_of(name);
    let ghost cv = crate::text::char_views(cs@);
    let mut i: usize = 0;
    while i < cs.len()
        invariant
            cv == crate::text::char_views(cs@),
            cv == components(p@),
            nv@ == name@,
            i <= cs@.len(),
            forall|k: int| 0 <= k < i ==> cv[k] != name@,
        decreases cs@.len() - i,
    {
        if chars_equal(cs[i].as_slice(), nv.as_slice()) {
            assert(cv[i as int] == name@);
            return true;
        }
        i = i + 1;
    }
    false
}

/// Whether the first `n` components of `a` end with the components `b`.
pub fn components_end_with(a: &Vec<Vec<char>>, n: usize, b: &Vec<Vec<char>>) -> (r: bool)
    requires
        n <= a@.len(),
    ensures
        r == ends_with_seq(crate::text::char_views(a@).take(n as int), crate::text::char_views(b@)),
{
    let ghost av = crate::text::char_views(a@).take(n as int);
    let ghost bv = crate::text::char_views(b@);
    if b.len() > n {
        return false;
    }
    let off = n - b.len();
    let mut i: usize = 0;
    while i < b.len()
        invariant
            av == crate::text::char_views(a@).take(n as int),
            bv == crate::text::char_views(b@),
            n <= a@.len(),
            off + b@.len() == n,
            b@.len() == b.len(),
            av.len() == n,
            bv.len() == b@.len(),
            i <= b@.len(),
            forall|k: int| 0 <= k < i ==> av[off + k] == bv[k],
        decreases b@.len() - i,
    {
        assert(av[off + i] == a@[off + i as int]@);
        if !chars_equal(a[off + i].as_slice(), b[i].as_slice()) {
            assert(av.skip(off as int)[i as int] != bv[i as int]);
            return false;
        }
        i = i + 1;
    }
    assert(av.skip(off as int) =~= bv);
    true
}

/// Whether the components of `p` end with those of `child` (`Path::ends_with`).
pub fn path_ends_with(p: &str, child: &str) -> (r: bool)
    ensures
        r == ends_with_components(p@, child@),
{
    let a = path_components(p);
    let b = path_components(child);
    assert(crate::text::char_views(a@).take(a@.len() as int) =~= crate::text::char_views(a@));
    components_end_with(&a, a.len(), &b)
}

// ---------------------------------------------------------------------------
// Laws
// ---------------------------------------------------------------------------

proof fn lemma_last_index_of(s: Seq<char>, c: char)
    ensures
        -1 <= last_index_of(s, c) < s.len(),
        last_index_of(s, c) >= 0 ==> s[last_index_of(s, c)] == c,
    decreases s.len(),
{
    if s.len() > 0 && s.last() != c {
        lemma_last_index_of(s.drop_last(), c);
    }
}

/// A file name is its stem, a dot and its extension when it has one, and
/// its stem alone when it has none.
pub proof fn law_stem_and_extension_make_file_name(p: Seq<char>)
    ensures
        file_name(p) matches Some(f) ==> match extension(p) {
            Some(e) => file_stem(p) matches Some(st) && f == st + seq!['.'] + e,
            None => file_stem(p) == Some(f),
        },
{
    if let Some(f) = file_name(p) {
        lemma_last_index_of(f, '.');
        let k = last_index_of(f, '.');
        if k > 0 {
            assert(f =~= f.take(k) + seq!['.'] + f.skip(k + 1));
        }
    }
}

} // verus!
