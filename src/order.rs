//! The report's row order: by path, compared character by character.
use crate::text::chars_of;
use crate::triage::FileResult;
use vstd::prelude::*;

verus! {

/// `a` comes no later than `b` in lexicographic order of characters (the
/// order of `String`'s `<`).
pub open spec fn text_le(a: Seq<char>, b: Seq<char>) -> bool
    decreases a.len(),
{
    if a.len() == 0 {
        true
    } else if b.len() == 0 {
        false
    } else if a[0] != b[0] {
        a[0] < b[0]
    } else {
        text_le(a.drop_first(), b.drop_first())
    }
}

pub proof fn lemma_text_le_total(a: Seq<char>, b: Seq<char>)
    ensures
        text_le(a, b) || text_le(b, a),
    decreases a.len(),
{
    if a.len() > 0 && b.len() > 0 && a[0] == b[0] {
        lemma_text_le_total(a.drop_first(), b.drop_first());
    }
}

pub proof fn lemma_text_le_transitive(a: Seq<char>, b: Seq<char>, c: Seq<char>)
    requires
        text_le(a, b),
        text_le(b, c),
    ensures
        text_le(a, c),
    decreases a.len(),
{
    if a.len() > 0 && b.len() > 0 && c.len() > 0 && a[0] == b[0] && b[0] == c[0] {
        lemma_text_le_transitive(a.drop_first(), b.drop_first(), c.drop_first());
    }
}

/// Whether `a` comes no later than `b`.
pub fn path_le(a: &String, b: &String) -> (r: bool)
    ensures
        r == text_le(a@, b@),
{
    let ca = chars_of(a.as_str());
    let cb = chars_of(b.as_str());
    let mut i: usize = 0;
    assert(ca@.skip(0) =~= ca@ && cb@.skip(0) =~= cb@);
    while i < ca.len() && i < cb.len() && ca[i] == cb[i]
        invariant
            i <= ca@.len(),
            i <= cb@.len(),
            text_le(a@, b@) == text_le(ca@.skip(i as int), cb@.skip(i as int)),
            ca@ == a@,
            cb@ == b@,
        decreases ca@.len() - i,
    {
        assert(ca@.skip(i as int).drop_first() =~= ca@.skip(i + 1));
        assert(cb@.skip(i as int).drop_first() =~= cb@.skip(i + 1));
        i += 1;
    }
    if i == ca.len() {
        true
    } else if i == cb.len() {
        false
    } else {
        ca[i] < cb[i]
    }
}

/// The rows are in path order.
pub open spec fn sorted_by_path(rows: Seq<FileResult>) -> bool {
    forall|i: int, j: int| 0 <= i < j < rows.len() ==> text_le(#[trigger] rows[i].path@, #[trigger] rows[j].path@)
}

/// The rows of `rows`, each kept once, in path order.
pub fn sort_by_path(rows: &Vec<FileResult>) -> (r: Vec<FileResult>)
    ensures
        sorted_by_path(r@),
        r@.to_multiset() == rows@.to_multiset(),
{
    let mut out: Vec<FileResult> = Vec::new();
    let mut i: usize = 0;
    assert(out@ =~= rows@.subrange(0, 0));
    while i < rows.len()
        invariant
            i <= rows@.len(),
            sorted_by_path(out@),
            out@.to_multiset() == rows@.subrange(0, i as int).to_multiset(),
        decreases rows@.len() - i,
    {
        let x = rows[i].duplicate();
        let mut pos: usize = 0;
        while pos < out.len() && path_le(&out[pos].path, &x.path)
            invariant
                pos <= out@.len(),
                forall|j: int| 0 <= j < pos ==> text_le(#[trigger] out@[j].path@, x.path@),
            decreases out@.len() - pos,
        {
            pos += 1;
        }
        let ghost before = out@;
        proof {
            if pos < before.len() {
                lemma_text_le_total(before[pos as int].path@, x.path@);
                assert forall|j: int| pos <= j < before.len() implies text_le(x.path@, #[trigger] before[j].path@) by {
                    if j > pos {
                        lemma_text_le_transitive(x.path@, before[pos as int].path@, before[j].path@);
                    }
                }
            }
        }
        out.insert(pos, x);
        proof {
            assert(out@ == before.insert(pos as int, x));
            assert forall|a: int, b: int| 0 <= a < b < out@.len() implies text_le(
                #[trigger] out@[a].path@,
                #[trigger] out@[b].path@,
            ) by {
                if b < pos {
                } else if a < pos && b == pos {
                } else if a < pos {
                    assert(out@[b] == before[b - 1]);
                } else if a == pos {
                    assert(out@[b] == before[b - 1]);
                } else {
                    assert(out@[a] == before[a - 1]);
                    assert(out@[b] == before[b - 1]);
                }
            }
            let next = rows@.subrange(0, i + 1);
            assert(next =~= rows@.subrange(0, i as int).push(rows@[i as int]));
            vstd::seq_lib::to_multiset_insert(before, pos as int, x);
            rows@.subrange(0, i as int).to_multiset_ensures();
            assert(out@.to_multiset() == before.to_multiset().insert(x));
        }
        i += 1;
    }
    assert(rows@.subrange(0, rows@.len() as int) =~= rows@);
    out
}

} // verus!
