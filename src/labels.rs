//! The classifier's labels, the scores of one image, and the flag decision.
use vstd::prelude::*;

verus! {

/// Scores are fixed-point numbers: a score of `s` millionths stands for the
/// real number `s / 1_000_000`, so a valid score lies in `0..=SCORE_ONE`.
pub const SCORE_ONE: u32 = 1_000_000;

/// One label of the classifier's fixed output set.
#[derive(Debug, Clone, Copy, PartialEq, Eq, Structural, Hash, PartialOrd, Ord)]
pub enum HashableMetric {
    /// safe for work drawings (including anime)
    Drawings,
    /// hentai and pornographic drawings
    Hentai,
    /// safe for work neutral images
    Neutral,
    /// pornographic images, sexual acts
    Porn,
    /// sexually explicit images, not pornography
    Sexy,
}

/// The label's name as it appears in a report.
pub open spec fn label_name(l: HashableMetric) -> Seq<char> {
    match l {
        HashableMetric::Drawings => "Drawings"@,
        HashableMetric::Hentai => "Hentai"@,
        HashableMetric::Neutral => "Neutral"@,
        HashableMetric::Porn => "Porn"@,
        HashableMetric::Sexy => "Sexy"@,
    }
}

/// All labels, in the fixed order of the report's columns.
pub open spec fn all_labels() -> Seq<HashableMetric> {
    seq![
        HashableMetric::Drawings,
        HashableMetric::Hentai,
        HashableMetric::Neutral,
        HashableMetric::Porn,
        HashableMetric::Sexy,
    ]
}

/// The labels whose scores decide whether an image is flagged.
pub open spec fn unsafe_labels() -> Seq<HashableMetric> {
    seq![HashableMetric::Hentai, HashableMetric::Porn, HashableMetric::Sexy]
}

impl HashableMetric {
    /// The label's name, as a string.
    pub fn name(&self) -> (r: String)
        ensures
            r@ == label_name(*self),
    {
        let s = match self {
            HashableMetric::Drawings => "Drawings",
            HashableMetric::Hentai => "Hentai",
            HashableMetric::Neutral => "Neutral",
            HashableMetric::Porn => "Porn",
            HashableMetric::Sexy => "Sexy",
        };
        s.to_string()
    }

    /// All labels, in report column order.
    pub fn all() -> (r: Vec<HashableMetric>)
        ensures
            r@ == all_labels(),
    {
        let r = vec![
            HashableMetric::Drawings,
            HashableMetric::Hentai,
            HashableMetric::Neutral,
            HashableMetric::Porn,
            HashableMetric::Sexy,
        ];
        assert(r@ =~= all_labels());
        r
    }

    /// The labels that decide the flag.
    pub fn unsafe_set() -> (r: Vec<HashableMetric>)
        ensures
            r@ == unsafe_labels(),
    {
        let r = vec![HashableMetric::Hentai, HashableMetric::Porn, HashableMetric::Sexy];
        assert(r@ =~= unsafe_labels());
        r
    }
}

/// The scores of one image, at most one per label.
#[derive(Debug, Clone, Copy, PartialEq, Eq, Structural)]
pub struct Classifications {
    pub drawings: Option<u32>,
    pub hentai: Option<u32>,
    pub neutral: Option<u32>,
    pub porn: Option<u32>,
    pub sexy: Option<u32>,
}

impl Classifications {
    /// The score recorded for a label, if any.
    pub open spec fn score(self, l: HashableMetric) -> Option<u32> {
        match l {
            HashableMetric::Drawings => self.drawings,
            HashableMetric::Hentai => self.hentai,
            HashableMetric::Neutral => self.neutral,
            HashableMetric::Porn => self.porn,
            HashableMetric::Sexy => self.sexy,
        }
    }

    /// Every recorded score lies in `0..=SCORE_ONE`.
    pub open spec fn scores_valid(self) -> bool {
        forall|l: HashableMetric| #[trigger] self.score(l) matches Some(s) ==> s <= SCORE_ONE
    }

    /// No score recorded.
    pub fn new() -> (r: Classifications)
        ensures
            forall|l: HashableMetric| #[trigger] r.score(l) is None,
    {
        Classifications { drawings: None, hentai: None, neutral: None, porn: None, sexy: None }
    }

    /// The score recorded for `l`.
    pub fn get(&self, l: HashableMetric) -> (r: Option<u32>)
        ensures
            r == self.score(l),
    {
        match l {
            HashableMetric::Drawings => self.drawings,
            HashableMetric::Hentai => self.hentai,
            HashableMetric::Neutral => self.neutral,
            HashableMetric::Porn => self.porn,
            HashableMetric::Sexy => self.sexy,
        }
    }

    /// Records `s` for `l`, replacing an earlier score of `l`.
    pub fn set(&mut self, l: HashableMetric, s: u32)
        ensures
            final(self).score(l) == Some(s),
            forall|m: HashableMetric| m != l ==> #[trigger] final(self).score(m) == old(self).score(m),
    {
        match l {
            HashableMetric::Drawings => self.drawings = Some(s),
            HashableMetric::Hentai => self.hentai = Some(s),
            HashableMetric::Neutral => self.neutral = Some(s),
            HashableMetric::Porn => self.porn = Some(s),
            HashableMetric::Sexy => self.sexy = Some(s),
        }
    }
}

/// The score of `l` in `pairs`: the last pair that names it wins.
pub open spec fn pairs_score(pairs: Seq<(HashableMetric, u32)>, l: HashableMetric) -> Option<u32>
    decreases pairs.len(),
{
    if pairs.len() == 0 {
        None
    } else if pairs.last().0 == l {
        Some(pairs.last().1)
    } else {
        pairs_score(pairs.drop_last(), l)
    }
}

/// Gathers a classifier's (label, score) pairs; a label named twice keeps
/// its last score.
pub fn from_pairs(pairs: &Vec<(HashableMetric, u32)>) -> (r: Classifications)
    ensures
        forall|l: HashableMetric| #[trigger] r.score(l) == pairs_score(pairs@, l),
{
    let mut r = Classifications::new();
    let mut i: usize = 0;
    while i < pairs.len()
        invariant
            i <= pairs@.len(),
            forall|l: HashableMetric| #[trigger] r.score(l) == pairs_score(pairs@.subrange(0, i as int), l),
        decreases pairs@.len() - i,
    {
        let (l, s) = pairs[i];
        r.set(l, s);
        proof {
            let next = pairs@.subrange(0, i + 1);
            assert(next.drop_last() =~= pairs@.subrange(0, i as int));
            assert(next.last() == pairs@[i as int]);
        }
        i += 1;
    }
    assert(pairs@.subrange(0, pairs@.len() as int) =~= pairs@);
    r
}

/// The largest score among `labels`; 0 where none of them is recorded.
pub open spec fn max_score(c: Classifications, labels: Seq<HashableMetric>) -> nat
    decreases labels.len(),
{
    if labels.len() == 0 {
        0
    } else {
        let rest = max_score(c, labels.drop_last());
        match c.score(labels.last()) {
            Some(s) => if s > rest { s as nat } else { rest },
            None => rest,
        }
    }
}

/// Whether an image is flagged: the largest score among `labels` is strictly
/// above `threshold` (both in millionths). The threshold is not clamped.
pub open spec fn flagged(c: Classifications, threshold: int, labels: Seq<HashableMetric>) -> bool {
    max_score(c, labels) > threshold
}

/// Decides whether scores `c` are flagged at `threshold` over `labels`.
pub fn decide(c: &Classifications, threshold: i64, labels: &Vec<HashableMetric>) -> (r: bool)
    ensures
        r == flagged(*c, threshold as int, labels@),
{
    let mut best: u32 = 0;
    let mut i: usize = 0;
    while i < labels.len()
        invariant
            i <= labels@.len(),
            best as nat == max_score(*c, labels@.subrange(0, i as int)),
        decreases labels@.len() - i,
    {
        proof {
            let next = labels@.subrange(0, i + 1);
            assert(next.drop_last() =~= labels@.subrange(0, i as int));
        }
        match c.get(labels[i]) {
            Some(s) => {
                if s > best {
                    best = s;
                }
            },
            None => {},
        }
        i += 1;
    }
    assert(labels@.subrange(0, labels@.len() as int) =~= labels@);
    (best as i64) > threshold
}

/// The largest score is never above the largest score any label holds.
pub proof fn lemma_max_score_bounded(c: Classifications, labels: Seq<HashableMetric>, bound: nat)
    requires
        forall|l: HashableMetric| #[trigger] c.score(l) matches Some(s) ==> s <= bound,
    ensures
        max_score(c, labels) <= bound,
    decreases labels.len(),
{
    if labels.len() > 0 {
        lemma_max_score_bounded(c, labels.drop_last(), bound);
        let _ = c.score(labels.last());
    }
}

/// With valid scores, a threshold of one (`SCORE_ONE` millionths) flags
/// nothing: a score equal to the threshold is not above it.
pub proof fn lemma_full_threshold_flags_nothing(c: Classifications, labels: Seq<HashableMetric>)
    requires
        c.scores_valid(),
    ensures
        !flagged(c, SCORE_ONE as int, labels),
{
    lemma_max_score_bounded(c, labels, SCORE_ONE as nat);
}

} // verus!
