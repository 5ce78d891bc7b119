//! Paths: the calls into camino, the rule that splits a file name at its
//! final dot, and the recognised image extensions.
use camino::Utf8Path;
use vstd::prelude::*;

verus! {

/// The final component of path `p`, as camino's `Utf8Path::file_name` gives it.
pub uninterp spec fn file_name_of(p: Seq<char>) -> Option<Seq<char>>;

/// Path `p` relative to `base`, as camino's `Utf8Path::strip_prefix` gives it.
pub uninterp spec fn stripped_of(p: Seq<char>, base: Seq<char>) -> Option<Seq<char>>;

/// Path `b` adjoined to `a`, as camino's `Utf8Path::join` gives it.
pub uninterp spec fn joined_of(a: Seq<char>, b: Seq<char>) -> Seq<char>;

/// The view of an optional string.
pub open spec fn opt_view(o: Option<String>) -> Option<Seq<char>> {
    match o {
        Some(s) => Some(s@),
        None => None,
    }
}

/// The index of the final `.` of `n`, if it holds one.
pub open spec fn last_dot(n: Seq<char>) -> Option<int>
    decreases n.len(),
{
    if n.len() == 0 {
        None
    } else if n.last() == '.' {
        Some(n.len() - 1)
    } else {
        last_dot(n.drop_last())
    }
}

/// Where file name `n` splits into stem and extension: at its final dot,
/// unless it has none, or its only dot is its first character, or it is `..`.
pub open spec fn split_dot(n: Seq<char>) -> Option<int> {
    if n == seq!['.', '.'] {
        None
    } else {
        match last_dot(n) {
            Some(i) => if i > 0 { Some(i) } else { None },
            None => None,
        }
    }
}

/// The stem of file name `n`: all of it, or what stands before the split.
pub open spec fn stem_rule(n: Seq<char>) -> Seq<char> {
    match split_dot(n) {
        Some(i) => n.subrange(0, i),
        None => n,
    }
}

/// The extension of file name `n`: what stands after the split, if any.
pub open spec fn ext_rule(n: Seq<char>) -> Option<Seq<char>> {
    match split_dot(n) {
        Some(i) => Some(n.subrange(i + 1, n.len() as int)),
        None => None,
    }
}

/// The stem of path `p`'s file name.
pub open spec fn stem_of(p: Seq<char>) -> Option<Seq<char>> {
    match file_name_of(p) {
        Some(n) => Some(stem_rule(n)),
        None => None,
    }
}

/// The extension of path `p`'s file name.
pub open spec fn extension_of(p: Seq<char>) -> Option<Seq<char>> {
    match file_name_of(p) {
        Some(n) => ext_rule(n),
        None => None,
    }
}

pub proof fn lemma_last_dot_in_range(n: Seq<char>)
    ensures
        last_dot(n) matches Some(i) ==> 0 <= i < n.len() && n[i] == '.',
    decreases n.len(),
{
    if n.len() > 0 && n.last() != '.' {
        lemma_last_dot_in_range(n.drop_last());
    }
}

/// A file name is its stem followed by its extension, with the dot between.
pub proof fn lemma_stem_ext_rebuild(n: Seq<char>)
    ensures
        match ext_rule(n) {
            Some(e) => n == stem_rule(n) + seq!['.'] + e,
            None => n == stem_rule(n),
        },
{
    lemma_last_dot_in_range(n);
    if let Some(i) = split_dot(n) {
        assert(n =~= n.subrange(0, i) + seq!['.'] + n.subrange(i + 1, n.len() as int));
    }
}

/// Relies on camino's `Utf8Path::file_name`: the path's final component.
#[verifier::external_body]
pub(crate) fn file_name(p: &str) -> (r: Option<String>)
    ensures
        opt_view(r) == file_name_of(p@),
{
    Utf8Path::new(p).file_name().map(String::from)
}

/// Relies on camino's `Utf8Path::file_stem`: as documented, the file name
/// before its final dot, or all of it (no dot, or only a leading dot).
#[verifier::external_body]
pub(crate) fn file_stem(p: &str) -> (r: Option<String>)
    ensures
        opt_view(r) == stem_of(p@),
{
    Utf8Path::new(p).file_stem().map(String::from)
}

/// Relies on camino's `Utf8Path::extension`: as documented, the file name
/// after its final dot; none without a dot, or with only a leading dot.
#[verifier::external_body]
pub(crate) fn extension(p: &str) -> (r: Option<String>)
    ensures
        opt_view(r) == extension_of(p@),
{
    Utf8Path::new(p).extension().map(String::from)
}

/// Relies on camino's `Utf8Path::strip_prefix`: `p` relative to `base`,
/// none where `base` is not a prefix of `p`.
#[verifier::external_body]
pub(crate) fn strip_prefix(p: &str, base: &str) -> (r: Option<String>)
    ensures
        opt_view(r) == stripped_of(p@, base@),
{
    Utf8Path::new(p).strip_prefix(base).ok().map(|r| r.as_str().to_string())
}

/// Relies on camino's `Utf8Path::join`: `b` adjoined to `a`.
#[verifier::external_body]
pub(crate) fn join(a: &str, b: &str) -> (r: String)
    ensures
        r@ == joined_of(a@, b@),
{
    Utf8Path::new(a).join(b).into_string()
}

/// The recognised image extensions (compared case-sensitively).
pub open spec fn image_extensions() -> Seq<Seq<char>> {
    seq!["png"@, "jpeg"@, "jpg"@, "webp"@, "jpe"@, "gif"@]
}

/// Whether path `p` names a candidate image: its extension is recognised.
pub open spec fn is_image_path(p: Seq<char>) -> bool {
    match extension_of(p) {
        Some(e) => image_extensions().contains(e),
        None => false,
    }
}

/// Whether `e` is one of the recognised image extensions.
pub fn is_image_extension(e: &String) -> (r: bool)
    ensures
        r == image_extensions().contains(e@),
{
    let r = *e == "png".to_string() || *e == "jpeg".to_string() || *e == "jpg".to_string()
        || *e == "webp".to_string() || *e == "jpe".to_string() || *e == "gif".to_string();
    proof {
        let exts = image_extensions();
        assert(exts[0] == "png"@ && exts[1] == "jpeg"@ && exts[2] == "jpg"@);
        assert(exts[3] == "webp"@ && exts[4] == "jpe"@ && exts[5] == "gif"@);
        if r {
            assert(exts.contains(e@));
        }
    }
    r
}

/// Whether path `p` names a candidate image.
pub fn is_candidate(p: &str) -> (r: bool)
    ensures
        r == is_image_path(p@),
{
    match extension(p) {
        Some(e) => is_image_extension(&e),
        None => false,
    }
}

/// The paths of `ps` that name candidate images, in their order.
pub open spec fn candidates(ps: Seq<Seq<char>>) -> Seq<Seq<char>>
    decreases ps.len(),
{
    if ps.len() == 0 {
        Seq::empty()
    } else if is_image_path(ps.last()) {
        candidates(ps.drop_last()).push(ps.last())
    } else {
        candidates(ps.drop_last())
    }
}

/// The views of a sequence of strings.
pub open spec fn views(ps: Seq<String>) -> Seq<Seq<char>> {
    ps.map_values(|s: String| s@)
}

/// Keeps, in order, the paths found by a scan that name candidate images.
pub fn filter_candidates(paths: &Vec<String>) -> (r: Vec<String>)
    ensures
        views(r@) == candidates(views(paths@)),
{
    let mut r: Vec<String> = Vec::new();
    let mut i: usize = 0;
    while i < paths.len()
        invariant
            i <= paths@.len(),
            views(r@) == candidates(views(paths@.subrange(0, i as int))),
        decreases paths@.len() - i,
    {
        proof {
            let next = views(paths@.subrange(0, i + 1));
            assert(next.drop_last() =~= views(paths@.subrange(0, i as int)));
            assert(next.last() == paths@[i as int]@);
        }
        if is_candidate(paths[i].as_str()) {
            let ghost before = r@;
            r.push(paths[i].clone());
            assert(views(r@) =~= views(before).push(paths@[i as int]@));
        }
        i += 1;
    }
    assert(paths@.subrange(0, paths@.len() as int) =~= paths@);
    r
}

} // verus!
