//! Paths as text, with `/` between their segments.

use vstd::prelude::*;
use vstd::string::StringExecFns;
use crate::text::{
    chars_of, ends_with, last_index, lemma_last_index, push_chars, replace_char, replaced,
    rfind_char, substring,
};

verus! {

/// `rel` below `base`: the two with one `/` between them. An empty base adds nothing.
pub open spec fn path_join(base: Seq<char>, rel: Seq<char>) -> Seq<char> {
    if base.len() == 0 {
        rel
    } else if base.last() == '/' {
        base + rel
    } else {
        base + seq!['/'] + rel
    }
}

/// The directory that holds `path`: the text before its last `/`.
pub open spec fn parent(path: Seq<char>) -> Option<Seq<char>> {
    if path.contains('/') {
        Some(path.take(last_index(path, '/')))
    } else {
        None
    }
}

/// The last segment of `path`: the text behind its last `/`, or all of it.
pub open spec fn file_name(path: Seq<char>) -> Seq<char> {
    if path.contains('/') {
        path.skip(last_index(path, '/') + 1)
    } else {
        path
    }
}

/// `path` without the slashes at its end.
pub open spec fn trimmed(path: Seq<char>) -> Seq<char>
    decreases path.len(),
{
    if path.len() > 0 && path.last() == '/' {
        trimmed(path.drop_last())
    } else {
        path
    }
}

/// `name` is a nonempty stem, a dot, and `ext`.
pub open spec fn has_extension(name: Seq<char>, ext: Seq<char>) -> bool {
    name.len() > ext.len() + 1 && (seq!['.'] + ext).is_suffix_of(name)
}

/// `name` is that of a completion file: it begins with `_`.
pub open spec fn is_completion(name: Seq<char>) -> bool {
    name.len() > 0 && name[0] == '_'
}

/// `path` with `/` for every `\`.
pub open spec fn normalized(path: Seq<char>) -> Seq<char> {
    replaced(path, '\\', '/')
}

/// A path below a directory begins with that directory.
pub proof fn lemma_join_keeps_base(base: Seq<char>, rel: Seq<char>)
    ensures
        base.is_prefix_of(path_join(base, rel)),
{
}

/// Of a path made by joining, the parent is the base and the last segment is
/// what was joined, where that is a single segment and the base does not end
/// in `/`.
pub proof fn lemma_join_single_segment(base: Seq<char>, rel: Seq<char>)
    requires
        base.len() > 0,
        base.last() != '/',
        !rel.contains('/'),
    ensures
        parent(path_join(base, rel)) == Some(base),
        file_name(path_join(base, rel)) == rel,
{
    let p = path_join(base, rel);
    let i = base.len() as int;
    lemma_last_index(p, '/', i);
}

/// What is trimmed ends in no slash, and begins the path it was made of.
pub proof fn lemma_trimmed(path: Seq<char>)
    ensures
        trimmed(path).len() == 0 || trimmed(path).last() != '/',
        trimmed(path).is_prefix_of(path),
        trimmed(trimmed(path)) == trimmed(path),
    decreases path.len(),
{
    if path.len() > 0 && path.last() == '/' {
        lemma_trimmed(path.drop_last());
        assert(path.take(trimmed(path).len() as int) =~= path.drop_last().take(
            trimmed(path).len() as int,
        ));
    } else {
        assert(path.take(path.len() as int) =~= path);
    }
}

/// `path` without the slashes at its end.
pub fn trim(path: &str) -> (r: String)
    ensures
        r@ == trimmed(path@),
{
    let chars = chars_of(path);
    let mut end: usize = chars.len();
    assert(chars@.take(end as int) =~= chars@);
    while end > 0 && chars[end - 1] == '/'
        invariant
            end <= chars.len(),
            trimmed(chars@) == trimmed(chars@.take(end as int)),
        decreases end,
    {
        assert(chars@.take(end as int).drop_last() =~= chars@.take(end - 1));
        end -= 1;
    }
    assert(chars@.subrange(0, end as int) =~= chars@.take(end as int));
    substring(&chars, 0, end)
}

/// `rel` below `base`.
pub fn join(base: &str, rel: &str) -> (r: String)
    ensures
        r@ == path_join(base@, rel@),
{
    let b = chars_of(base);
    let mut r = String::from_str(base);
    if b.len() > 0 && b[b.len() - 1] != '/' {
        r.push('/');
    }
    r.append(rel);
    r
}

/// The directory that holds `path`, where `path` has a `/`.
pub fn parent_of(path: &str) -> (r: Option<String>)
    ensures
        crate::text::option_view(r) == parent(path@),
{
    let chars = chars_of(path);
    match rfind_char(&chars, '/') {
        Some(i) => {
            proof {
                lemma_last_index(chars@, '/', i as int);
            }
            Some(substring(&chars, 0, i))
        },
        None => None,
    }
}

/// The last segment of `path`.
pub fn file_name_of(path: &str) -> (r: String)
    ensures
        r@ == file_name(path@),
{
    let chars = chars_of(path);
    match rfind_char(&chars, '/') {
        Some(i) => {
            proof {
                lemma_last_index(chars@, '/', i as int);
                assert(chars@.subrange(i + 1, chars@.len() as int) =~= chars@.skip(i + 1));
            }
            substring(&chars, i + 1, chars.len())
        },
        None => String::from_str(path),
    }
}

/// Whether `name` is a nonempty stem, a dot, and `ext`.
pub fn extension_is(name: &str, ext: &str) -> (r: bool)
    ensures
        r == has_extension(name@, ext@),
{
    let n = chars_of(name);
    let e = chars_of(ext);
    let mut suffix = String::from_str(".");
    push_chars(&mut suffix, &e, 0, e.len());
    let s = chars_of(suffix.as_str());
    proof {
        reveal_strlit(".");
    }
    if n.len() <= s.len() {
        return false;
    }
    ends_with(&n, &s)
}

/// Whether `name` is that of a completion file.
pub fn names_completion(name: &str) -> (r: bool)
    ensures
        r == is_completion(name@),
{
    let n = chars_of(name);
    n.len() > 0 && n[0] == '_'
}

/// `path` with `/` for every `\`.
pub fn normalize(path: &str) -> (r: String)
    ensures
        r@ == normalized(path@),
{
    let chars = chars_of(path);
    replace_char(&chars, '\\', '/')
}

} // verus!
