//! Where a flagged file goes: under the mirror policy its place relative to
//! the source root, under the flatten policy a file name that no earlier
//! claim of the run, nor a file already present, holds.
use crate::paths::{
    ext_rule, extension, file_name, file_name_of, file_stem, join, joined_of, lemma_stem_ext_rebuild,
    stem_rule, strip_prefix, stripped_of,
};
use crate::text::{dec, lemma_dec_digits, lemma_dec_injective, push_decimal, push_str, string_of};
use vstd::prelude::*;

verus! {

/// The `k`-th name tried for file name `n`: `n` itself for 0, else
/// `stem (k).ext` (`stem (k)` where `n` has no extension).
pub open spec fn candidate(n: Seq<char>, k: nat) -> Seq<char> {
    if k == 0 {
        n
    } else {
        stem_rule(n) + seq![' ', '('] + dec(k) + seq![')'] + match ext_rule(n) {
            Some(e) => seq!['.'] + e,
            None => Seq::empty(),
        }
    }
}

/// `k` is the first index whose candidate name for `n` is not in `names`.
pub open spec fn first_free(names: Seq<Seq<char>>, n: Seq<char>, k: nat) -> bool {
    &&& forall|j: nat| j < k ==> names.contains(#[trigger] candidate(n, j))
    &&& !names.contains(candidate(n, k))
}

/// At most one index is the first free one: the name that `claim_flat`
/// returns is determined by the names taken before.
pub proof fn lemma_first_free_unique(names: Seq<Seq<char>>, n: Seq<char>, a: nat, b: nat)
    requires
        first_free(names, n, a),
        first_free(names, n, b),
    ensures
        a == b,
{
    if a < b {
        assert(names.contains(candidate(n, a)));
    } else if b < a {
        assert(names.contains(candidate(n, b)));
    }
}

/// The candidate names of one file name are pairwise different.
pub proof fn lemma_candidates_distinct(n: Seq<char>, i: nat, j: nat)
    requires
        i != j,
    ensures
        candidate(n, i) != candidate(n, j),
{
    lemma_stem_ext_rebuild(n);
    lemma_dec_digits(i);
    lemma_dec_digits(j);
    let tail = match ext_rule(n) {
        Some(e) => seq!['.'] + e,
        None => Seq::<char>::empty(),
    };
    let s = stem_rule(n);
    if i == 0 || j == 0 {
        let k = if i == 0 { j } else { i };
        assert(n == s + tail);
        assert(candidate(n, k).len() > n.len());
    } else if candidate(n, i) == candidate(n, j) {
        let ci = candidate(n, i);
        let di = dec(i);
        let dj = dec(j);
        let p = s.len() as int + 2;
        assert(ci.subrange(p, ci.len() as int) =~= di + seq![')'] + tail);
        assert(ci.subrange(p, ci.len() as int) =~= dj + seq![')'] + tail);
        let a = di + seq![')'] + tail;
        let b = dj + seq![')'] + tail;
        if di.len() < dj.len() {
            assert(a[di.len() as int] == ')');
            assert(b[di.len() as int] == dj[di.len() as int]);
        } else if dj.len() < di.len() {
            assert(b[dj.len() as int] == ')');
            assert(a[dj.len() as int] == di[dj.len() as int]);
        } else {
            assert(a.subrange(0, di.len() as int) =~= di);
            assert(b.subrange(0, dj.len() as int) =~= dj);
            lemma_dec_injective(i, j);
        }
    }
}

/// The names taken after `i` claims of file name `n` in a run that began
/// with none taken.
pub open spec fn claims_of_one_name(n: Seq<char>, i: nat) -> Seq<Seq<char>> {
    Seq::new(i, |j: int| candidate(n, j as nat))
}

/// Claims of one file name, in a run that began with none taken, get the
/// name itself, then `stem (1).ext`, `stem (2).ext`, ... in claim order:
/// after `i` claims the next one is the `i`-th candidate, and all the names
/// returned are different.
pub proof fn lemma_same_name_claims(n: Seq<char>, i: nat)
    ensures
        claims_of_one_name(n, 0) == Seq::<Seq<char>>::empty(),
        forall|k: nat| #[trigger] first_free(claims_of_one_name(n, i), n, k) <==> k == i,
        claims_of_one_name(n, i).push(candidate(n, i)) == claims_of_one_name(n, i + 1),
        forall|a: nat, b: nat| a != b ==> #[trigger] candidate(n, a) != #[trigger] candidate(n, b),
{
    let t = claims_of_one_name(n, i);
    assert(claims_of_one_name(n, 0) =~= Seq::<Seq<char>>::empty());
    assert(t.push(candidate(n, i)) =~= claims_of_one_name(n, i + 1));
    assert forall|a: nat, b: nat| a != b implies #[trigger] candidate(n, a) != #[trigger] candidate(n, b) by {
        lemma_candidates_distinct(n, a, b);
    }
    assert forall|j: nat| j < i implies t.contains(#[trigger] candidate(n, j)) by {
        assert(t[j as int] == candidate(n, j));
    }
    assert(!t.contains(candidate(n, i))) by {
        if t.contains(candidate(n, i)) {
            let idx = choose|idx: int| 0 <= idx < t.len() && t[idx] == candidate(n, i);
            lemma_candidates_distinct(n, idx as nat, i);
        }
    }
    assert forall|k: nat| #[trigger] first_free(t, n, k) implies k == i by {
        if k < i {
            assert(t[k as int] == candidate(n, k));
        } else if k > i {
            assert(t.contains(candidate(n, i)));
        }
    }
}

/// The claims of one run's flatten policy: file names in the destination
/// folder that are taken, by a file already there or by an earlier claim.
pub struct DestinationResolver {
    claimed: Vec<String>,
}

impl DestinationResolver {
    /// The names taken so far.
    pub closed spec fn names(&self) -> Seq<Seq<char>> {
        self.claimed@.map_values(|s: String| s@)
    }

    /// A resolver whose taken names are `existing` (the files already in the
    /// destination folder).
    pub fn new(existing: Vec<String>) -> (r: DestinationResolver)
        ensures
            r.names() == existing@.map_values(|s: String| s@),
    {
        DestinationResolver { claimed: existing }
    }

    /// Whether `name` is taken.
    pub fn is_claimed(&self, name: &String) -> (r: bool)
        ensures
            r == self.names().contains(name@),
    {
        let mut i: usize = 0;
        while i < self.claimed.len()
            invariant
                i <= self.claimed@.len(),
                forall|j: int| 0 <= j < i ==> self.names()[j] != name@,
            decreases self.claimed@.len() - i,
        {
            if self.claimed[i] == *name {
                assert(self.names()[i as int] == name@);
                return true;
            }
            i += 1;
        }
        false
    }

    /// Takes `name` and returns it.
    fn take(&mut self, name: String) -> (r: String)
        ensures
            r@ == name@,
            final(self).names() == old(self).names().push(name@),
    {
        let r = name.clone();
        self.claimed.push(name);
        assert(self.names() =~= old(self).names().push(name@));
        r
    }

    /// The `k`-th candidate name built from stem `stem` and extension `ext`.
    fn candidate_name(stem: &String, ext: &Option<String>, k: u64) -> (r: String)
        requires
            k >= 1,
        ensures
            r@ == stem@ + seq![' ', '('] + dec(k as nat) + seq![')'] + match ext {
                Some(e) => seq!['.'] + e@,
                None => Seq::empty(),
            },
    {
        let mut v: Vec<char> = Vec::new();
        push_str(&mut v, stem.as_str());
        v.push(' ');
        v.push('(');
        push_decimal(&mut v, k);
        v.push(')');
        match ext {
            Some(e) => {
                v.push('.');
                push_str(&mut v, e.as_str());
            },
            None => {},
        }
        let ghost tail = match ext {
            Some(e) => seq!['.'] + e@,
            None => Seq::<char>::empty(),
        };
        assert(v@ =~= stem@ + seq![' ', '('] + dec(k as nat) + seq![')'] + tail);
        string_of(&v)
    }

    /// Claims a file name in the destination folder for the file at `path`:
    /// its own file name if free, else the first free of `stem (1).ext`,
    /// `stem (2).ext`, ... Checking and taking are one step. None where
    /// `path` has no file name, and then nothing is taken.
    pub fn claim_flat(&mut self, path: &str) -> (r: Option<String>)
        ensures
            match r {
                None => file_name_of(path@) is None && final(self).names() == old(self).names(),
                Some(s) => file_name_of(path@) matches Some(n) && exists|k: nat|
                    first_free(old(self).names(), n, k) && s@ == #[trigger] candidate(n, k)
                        && final(self).names() == old(self).names().push(s@),
            },
    {
        let (name, stem) = match (file_name(path), file_stem(path)) {
            (Some(n), Some(s)) => (n, s),
            _ => return None,
        };
        let ext = extension(path);
        let ghost n = name@;
        let ghost names = self.names();
        let ghost mut remaining = names.to_set();
        proof {
            names.lemma_cardinality_of_set();
        }
        let total = self.claimed.len();
        let mut k: u64 = 0;
        let mut cand = name;
        while self.is_claimed(&cand)
            invariant
                self.names() == names,
                file_name_of(path@) == Some(n),
                stem@ == stem_rule(n),
                crate::paths::opt_view(ext) == ext_rule(n),
                cand@ == candidate(n, k as nat),
                forall|j: nat| j < k ==> names.contains(#[trigger] candidate(n, j)),
                remaining.finite(),
                remaining.len() + k == names.to_set().len(),
                names.to_set().len() <= names.len(),
                names.len() == total,
                forall|x: Seq<char>| #[trigger] remaining.contains(x) <==> (names.contains(x) && forall|j: nat|
                    j < k ==> x != #[trigger] candidate(n, j)),
            decreases remaining.len(),
        {
            proof {
                assert forall|j: nat| j < k implies candidate(n, k as nat) != #[trigger] candidate(n, j) by {
                    lemma_candidates_distinct(n, k as nat, j);
                }
                assert(remaining.contains(candidate(n, k as nat)));
                let old_rem = remaining;
                remaining = remaining.remove(candidate(n, k as nat));
                assert forall|x: Seq<char>| #[trigger] remaining.contains(x) <==> (names.contains(x)
                    && forall|j: nat| j < k + 1 ==> x != #[trigger] candidate(n, j)) by {
                    if remaining.contains(x) {
                        assert forall|j: nat| j < k + 1 implies x != #[trigger] candidate(n, j) by {
                            assert(old_rem.contains(x));
                        }
                    }
                }
            }
            assert(k < total) by {
                assert(remaining.len() >= 0);
            }
            k = k + 1;
            cand = Self::candidate_name(&stem, &ext, k);
        }
        let r = self.take(cand);
        assert(first_free(names, n, k as nat));
        Some(r)
    }
}

/// The mirror policy: `path` relative to `source_root`, adjoined to
/// `destination_root`. None where `source_root` is not a prefix of `path`.
pub fn mirror_destination(destination_root: &str, source_root: &str, path: &str) -> (r: Option<String>)
    ensures
        match stripped_of(path@, source_root@) {
            Some(rel) => r matches Some(d) && d@ == joined_of(destination_root@, rel),
            None => r is None,
        },
{
    match strip_prefix(path, source_root) {
        Some(rel) => Some(join(destination_root, rel.as_str())),
        None => None,
    }
}

/// The flatten policy: the claimed file name adjoined to `destination_root`.
pub fn flat_destination(resolver: &mut DestinationResolver, destination_root: &str, path: &str) -> (r: Option<String>)
    ensures
        match r {
            None => file_name_of(path@) is None && final(resolver).names() == old(resolver).names(),
            Some(d) => file_name_of(path@) matches Some(n) && exists|k: nat|
                first_free(old(resolver).names(), n, k) && d@ == joined_of(destination_root@, #[trigger] candidate(n, k))
                    && final(resolver).names() == old(resolver).names().push(candidate(n, k)),
        },
{
    match resolver.claim_flat(path) {
        Some(name) => Some(join(destination_root, name.as_str())),
        None => None,
    }
}

} // verus!
