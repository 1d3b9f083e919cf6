//! Ranking of catalog entries by a similarity score.
//!
//! The caller resolves, outside the library, an embedding for the query
//! token and one for each non-directory entry's name, compares them, and
//! maps each comparable similarity onto an integer score that preserves the
//! similarity order (a candidate whose embedding is missing, or whose
//! similarity is not a number, carries no score). Ranking is a two-phase
//! batch: the scored candidates are materialized in scan order, then stably
//! sorted by score, descending, and the list is cut to the first `top_k`.

use vstd::prelude::*;

verus! {

/// One entry offered for ranking, in catalog scan order.
pub struct Candidate {
    /// Base name of the entry; the token whose embedding was compared.
    pub name: String,
    /// Full path of the entry.
    pub path: String,
    /// The order-preserving integer score of the entry's similarity to the
    /// query, or `None` when the name has no embedding or the similarity is
    /// not comparable; such a candidate is excluded from ranking.
    pub score: Option<i64>,
}

/// One ranked result.
pub struct RankedMatch {
    /// 1-based position of the candidate among the scored ones, in scan
    /// order; it identifies the candidate and breaks no tie (the sort is
    /// stable, so equal scores keep scan order).
    pub id: usize,
    /// Base name of the entry.
    pub name: String,
    /// Full path of the entry.
    pub path: String,
    /// The entry's integer similarity score.
    pub score: i64,
}

impl Clone for RankedMatch {
    fn clone(&self) -> (r: RankedMatch)
        ensures
            r == *self,
    {
        RankedMatch {
            id: self.id,
            name: self.name.clone(),
            path: self.path.clone(),
            score: self.score,
        }
    }
}

/// The scored candidates in scan order, numbered 1 upwards.
pub open spec fn spec_kept(c: Seq<Candidate>) -> Seq<RankedMatch>
    decreases c.len(),
{
    if c.len() == 0 {
        Seq::empty()
    } else {
        let rest = spec_kept(c.drop_last());
        match c.last().score {
            Option::Some(sc) => rest.push(
                RankedMatch {
                    id: (rest.len() + 1) as usize,
                    name: c.last().name,
                    path: c.last().path,
                    score: sc,
                },
            ),
            Option::None => rest,
        }
    }
}

/// Scores never increase along the sequence.
pub open spec fn sorted_desc(s: Seq<RankedMatch>) -> bool {
    forall|i: int, j: int| 0 <= i < j < s.len() ==> s[i].score >= s[j].score
}

/// Stable descending insertion: the new element goes after every element
/// whose score is at least its own.
pub open spec fn spec_insert_desc(s: Seq<RankedMatch>, x: RankedMatch) -> Seq<RankedMatch>
    decreases s.len(),
{
    if s.len() == 0 {
        seq![x]
    } else if s.last().score >= x.score {
        s.push(x)
    } else {
        spec_insert_desc(s.drop_last(), x).push(s.last())
    }
}

/// Stable descending insertion sort, processing the input left to right.
pub open spec fn spec_sort_desc(s: Seq<RankedMatch>) -> Seq<RankedMatch>
    decreases s.len(),
{
    if s.len() == 0 {
        s
    } else {
        spec_insert_desc(spec_sort_desc(s.drop_last()), s.last())
    }
}

/// The ranking result: the scored candidates, stably sorted by score
/// descending, cut to the first `k`.
pub open spec fn spec_rank(c: Seq<Candidate>, k: int) -> Seq<RankedMatch> {
    let sorted = spec_sort_desc(spec_kept(c));
    if k <= sorted.len() {
        sorted.take(k)
    } else {
        sorted
    }
}

proof fn lemma_insert_desc_len(s: Seq<RankedMatch>, x: RankedMatch)
    ensures
        spec_insert_desc(s, x).len() == s.len() + 1,
    decreases s.len(),
{
    if s.len() > 0 && !(s.last().score >= x.score) {
        lemma_insert_desc_len(s.drop_last(), x);
    }
}

proof fn lemma_sort_desc_len(s: Seq<RankedMatch>)
    ensures
        spec_sort_desc(s).len() == s.len(),
    decreases s.len(),
{
    if s.len() > 0 {
        lemma_sort_desc_len(s.drop_last());
        lemma_insert_desc_len(spec_sort_desc(s.drop_last()), s.last());
    }
}

/// Inserting an element whose score respects a lower bound keeps the bound.
proof fn lemma_insert_desc_bound(s: Seq<RankedMatch>, x: RankedMatch, bound: int)
    requires
        forall|i: int| 0 <= i < s.len() ==> s[i].score >= bound,
        x.score >= bound,
    ensures
        forall|i: int|
            0 <= i < spec_insert_desc(s, x).len() ==> spec_insert_desc(s, x)[i].score >= bound,
    decreases s.len(),
{
    if s.len() == 0 {
        assert(spec_insert_desc(s, x) =~= seq![x]);
        assert(seq![x][0] == x);
    } else if s.last().score >= x.score {
        assert forall|i: int| 0 <= i < s.push(x).len() implies s.push(x)[i].score >= bound by {
            if i < s.len() {
                assert(s.push(x)[i] == s[i]);
            } else {
                assert(s.push(x)[i] == x);
            }
        }
    } else {
        let dl = s.drop_last();
        assert forall|i: int| 0 <= i < dl.len() implies dl[i].score >= bound by {
            assert(dl[i] == s[i]);
        }
        lemma_insert_desc_bound(dl, x, bound);
        let t = spec_insert_desc(dl, x);
        assert(s[s.len() - 1].score >= bound);
        assert forall|i: int| 0 <= i < t.push(s.last()).len() implies t.push(s.last())[i].score
            >= bound by {
            if i < t.len() {
                assert(t.push(s.last())[i] == t[i]);
            } else {
                assert(t.push(s.last())[i] == s.last());
            }
        }
    }
}

proof fn lemma_insert_desc_sorted(s: Seq<RankedMatch>, x: RankedMatch)
    requires
        sorted_desc(s),
    ensures
        sorted_desc(spec_insert_desc(s, x)),
    decreases s.len(),
{
    if s.len() == 0 {
    } else if s.last().score >= x.score {
        assert forall|i: int, j: int|
            0 <= i < j < s.push(x).len() implies s.push(x)[i].score >= s.push(x)[j].score by {
            if j < s.len() {
            } else {
                assert(s.push(x)[i] == s[i]);
                if i < s.len() - 1 {
                    assert(s[i].score >= s[s.len() - 1].score);
                }
            }
        }
    } else {
        let dl = s.drop_last();
        assert forall|i: int, j: int| 0 <= i < j < dl.len() implies dl[i].score >= dl[j].score by {
            assert(dl[i] == s[i] && dl[j] == s[j]);
        }
        lemma_insert_desc_sorted(dl, x);
        let t = spec_insert_desc(dl, x);
        let bound = s.last().score as int;
        assert forall|i: int| 0 <= i < dl.len() implies dl[i].score >= bound by {
            assert(dl[i] == s[i]);
            assert(s[i].score >= s[s.len() - 1].score);
        }
        lemma_insert_desc_bound(dl, x, bound);
        assert forall|i: int, j: int|
            0 <= i < j < t.push(s.last()).len() implies t.push(s.last())[i].score >= t.push(
            s.last(),
        )[j].score by {
            if j < t.len() {
            } else {
                assert(t.push(s.last())[i] == t[i]);
            }
        }
    }
}

proof fn lemma_sort_desc_sorted(s: Seq<RankedMatch>)
    ensures
        sorted_desc(spec_sort_desc(s)),
    decreases s.len(),
{
    if s.len() > 0 {
        lemma_sort_desc_sorted(s.drop_last());
        lemma_insert_desc_sorted(spec_sort_desc(s.drop_last()), s.last());
    }
}

/// Where the stable insertion lands: before the first position whose score
/// is below the new element's, after every other.
proof fn lemma_insert_desc_at(s: Seq<RankedMatch>, x: RankedMatch, p: int)
    requires
        0 <= p <= s.len(),
        forall|i: int| 0 <= i < p ==> s[i].score >= x.score,
        forall|i: int| p <= i < s.len() ==> s[i].score < x.score,
    ensures
        spec_insert_desc(s, x) == s.take(p) + seq![x] + s.skip(p),
    decreases s.len(),
{
    if s.len() == 0 {
        assert(s.take(p) + seq![x] + s.skip(p) =~= seq![x]);
    } else if s.last().score >= x.score {
        assert(p == s.len());
        assert(s.take(p) + seq![x] + s.skip(p) =~= s.push(x));
    } else {
        let dl = s.drop_last();
        assert forall|i: int| 0 <= i < p implies dl[i].score >= x.score by {
            assert(dl[i] == s[i]);
        }
        assert forall|i: int| p <= i < dl.len() implies dl[i].score < x.score by {
            assert(dl[i] == s[i]);
        }
        lemma_insert_desc_at(dl, x, p);
        assert(spec_insert_desc(s, x) == (dl.take(p) + seq![x] + dl.skip(p)).push(s.last()));
        assert((dl.take(p) + seq![x] + dl.skip(p)).push(s.last()) =~= s.take(p) + seq![x] + s.skip(
            p,
        ));
    }
}

/// Ranks the scored candidates: stable descending sort by score, cut to the
/// first `top_k`. The result's length is `top_k` or the number of scored
/// candidates, whichever is smaller; candidates without a score never
/// appear.
pub fn rank(candidates: &Vec<Candidate>, top_k: usize) -> (r: Vec<RankedMatch>)
    ensures
        r@ == spec_rank(candidates@, top_k as int),
        r@.len() == if (top_k as int) <= spec_kept(candidates@).len() {
            top_k as int
        } else {
            spec_kept(candidates@).len() as int
        },
        sorted_desc(r@),
{
    let mut kept: Vec<RankedMatch> = Vec::new();
    let mut i: usize = 0;
    proof {
        assert(candidates@.take(0) =~= Seq::<Candidate>::empty());
    }
    while i < candidates.len()
        invariant
            i <= candidates@.len(),
            kept@ == spec_kept(candidates@.take(i as int)),
            kept@.len() <= i,
        decreases candidates@.len() - i,
    {
        proof {
            assert(candidates@.take(i + 1).drop_last() =~= candidates@.take(i as int));
            assert(candidates@.take(i + 1).last() == candidates@[i as int]);
        }
        let c = &candidates[i];
        match c.score {
            Option::Some(sc) => {
                let id = kept.len() + 1;
                kept.push(
                    RankedMatch { id, name: c.name.clone(), path: c.path.clone(), score: sc },
                );
            },
            Option::None => {},
        }
        i = i + 1;
    }
    proof {
        assert(candidates@.take(candidates@.len() as int) =~= candidates@);
    }
    let ghost kept_seq = kept@;

    let mut sorted: Vec<RankedMatch> = Vec::new();
    let mut j: usize = 0;
    proof {
        assert(kept_seq.take(0) =~= Seq::<RankedMatch>::empty());
    }
    while j < kept.len()
        invariant
            j <= kept_seq.len(),
            kept@ == kept_seq,
            sorted@ == spec_sort_desc(kept_seq.take(j as int)),
            sorted@.len() == j,
            sorted_desc(sorted@),
        decreases kept_seq.len() - j,
    {
        proof {
            assert(kept_seq.take(j + 1).drop_last() =~= kept_seq.take(j as int));
            assert(kept_seq.take(j + 1).last() == kept_seq[j as int]);
        }
        let x = kept[j].clone();
        let mut p: usize = sorted.len();
        while p > 0 && sorted[p - 1].score < x.score
            invariant
                p <= sorted@.len(),
                sorted_desc(sorted@),
                forall|k: int| p <= k < sorted@.len() ==> sorted@[k].score < x.score,
            decreases p,
        {
            p = p - 1;
        }
        proof {
            if p > 0 {
                assert forall|k: int| 0 <= k < p implies sorted@[k].score >= x.score by {
                    if k < p - 1 {
                        assert(sorted@[k].score >= sorted@[p - 1].score);
                    }
                }
            }
            lemma_insert_desc_at(sorted@, x, p as int);
        }
        let ghost before = sorted@;
        sorted.insert(p, x);
        proof {
            assert(before.insert(p as int, x) =~= before.take(p as int) + seq![x] + before.skip(
                p as int,
            ));
            lemma_insert_desc_sorted(before, x);
        }
        j = j + 1;
    }
    proof {
        assert(kept_seq.take(kept_seq.len() as int) =~= kept_seq);
        lemma_sort_desc_sorted(kept_seq);
        lemma_sort_desc_len(kept_seq);
    }

    if top_k < sorted.len() {
        sorted.truncate(top_k);
        proof {
            assert(spec_sort_desc(kept_seq).subrange(0, top_k as int) =~= spec_sort_desc(
                kept_seq,
            ).take(top_k as int));
        }
    }
    sorted
}

} // verus!
