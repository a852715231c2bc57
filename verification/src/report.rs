//! The reporter: reconstructs distinct lock episodes from the noisy,
//! repeated observation stream. All samples are grouped by the identity
//! tuple, each group's duration is the maximum observed age (sample counts
//! only reflect sampling frequency), and the episodes come out ordered by
//! when their query began.

use crate::sample::{same_identity, LockSample};
use vstd::prelude::*;

verus! {

/// One distinct lock episode: a specific process holding a specific
/// exclusive lock on a specific relation while running a specific query,
/// together with the longest age observed for it.
pub struct Episode {
    pub pid: i32,
    pub db: String,
    pub relation: String,
    pub started_at: i64,
    pub query: String,
    pub duration: u64,
}

/// An episode accounts for a sample when they agree on the identity tuple.
pub open spec fn covers(e: Episode, s: LockSample) -> bool {
    &&& e.pid == s.pid
    &&& e.db@ == s.db@
    &&& e.relation@ == s.relation@
    &&& e.started_at == s.started_at
    &&& e.query@ == s.query@
}

/// Two episode records describe the same episode when their identity
/// tuples agree; `duration` is an aggregate, not part of the identity.
pub open spec fn same_episode(a: Episode, b: Episode) -> bool {
    &&& a.pid == b.pid
    &&& a.db@ == b.db@
    &&& a.relation@ == b.relation@
    &&& a.started_at == b.started_at
    &&& a.query@ == b.query@
}

/// No two report lines describe the same episode.
pub open spec fn distinct_episodes(eps: Seq<Episode>) -> bool {
    forall|i: int, j: int|
        0 <= i < j < eps.len() ==> !same_episode(#[trigger] eps[i], #[trigger] eps[j])
}

/// Every sample is accounted for by some report line.
pub open spec fn complete(samples: Seq<LockSample>, eps: Seq<Episode>) -> bool {
    forall|k: int|
        0 <= k < samples.len() ==> exists|i: int|
            0 <= i < eps.len() && covers(#[trigger] eps[i], #[trigger] samples[k])
}

/// An episode's duration is the maximum age among the samples it accounts
/// for: some sample of its group was observed at exactly that age, and no
/// sample of its group was observed older. In particular the episode's
/// group is not empty.
pub open spec fn duration_is_max(samples: Seq<LockSample>, e: Episode) -> bool {
    &&& exists|k: int| 0 <= k < samples.len() && covers(e, #[trigger] samples[k]) && samples[k].age == e.duration
    &&& forall|k: int|
        0 <= k < samples.len() && covers(e, #[trigger] samples[k]) ==> samples[k].age <= e.duration
}

/// Report lines come out ascending by when the lock-holding query began.
pub open spec fn sorted_by_start(eps: Seq<Episode>) -> bool {
    forall|i: int, j: int|
        0 <= i <= j < eps.len() ==> #[trigger] eps[i].started_at <= #[trigger] eps[j].started_at
}

/// What a correct report of a sample stream is: one line per distinct
/// episode observed, each carrying the maximum observed age, ordered by
/// query start.
pub open spec fn valid_report(samples: Seq<LockSample>, eps: Seq<Episode>) -> bool {
    &&& distinct_episodes(eps)
    &&& complete(samples, eps)
    &&& forall|i: int| 0 <= i < eps.len() ==> duration_is_max(samples, #[trigger] eps[i])
    &&& sorted_by_start(eps)
}

/// The outcome of a report run over the store's rows: an empty store is a
/// distinct, friendly success ("no locks detected"), never an error and
/// never an empty table of lines.
pub enum Report {
    Empty,
    Episodes(Vec<Episode>),
}

/// Earlier report lines began strictly no later: a line whose query began
/// strictly earlier stands strictly before one that began later, wherever
/// the samples sat in the stream.
pub proof fn lemma_report_ordering(eps: Seq<Episode>, i: int, j: int)
    requires
        sorted_by_start(eps),
        0 <= i < eps.len(),
        0 <= j < eps.len(),
        eps[i].started_at < eps[j].started_at,
    ensures
        i < j,
{
    if j <= i {
        assert(eps[j].started_at <= eps[i].started_at);
    }
}

/// Whether this episode accounts for this sample.
fn key_matches(e: &Episode, s: &LockSample) -> (r: bool)
    ensures
        r == covers(*e, *s),
{
    e.pid == s.pid && e.started_at == s.started_at && e.db == s.db && e.relation == s.relation
        && e.query == s.query
}

/// Booking a repeated observation: raising one line's duration to a newly
/// observed larger age (and touching nothing else) keeps the report valid
/// for the stream extended by that observation.
proof fn lemma_book_repeat(
    samples: Seq<LockSample>,
    k: int,
    eps0: Seq<Episode>,
    eps1: Seq<Episode>,
    p: int,
)
    requires
        0 <= k < samples.len(),
        0 <= p < eps0.len(),
        distinct_episodes(eps0),
        sorted_by_start(eps0),
        complete(samples.take(k), eps0),
        forall|i: int| 0 <= i < eps0.len() ==> duration_is_max(samples.take(k), #[trigger] eps0[i]),
        covers(eps0[p], samples[k]),
        eps1.len() == eps0.len(),
        forall|t: int| 0 <= t < eps0.len() && t != p ==> eps1[t] == eps0[t],
        same_episode(eps1[p], eps0[p]),
        eps1[p].duration == if samples[k].age > eps0[p].duration {
            samples[k].age
        } else {
            eps0[p].duration
        },
    ensures
        distinct_episodes(eps1),
        sorted_by_start(eps1),
        complete(samples.take(k + 1), eps1),
        forall|i: int| 0 <= i < eps1.len() ==> duration_is_max(
            samples.take(k + 1),
            #[trigger] eps1[i],
        ),
{
    let prefix = samples.take(k);
    let prefix1 = samples.take(k + 1);
    assert(prefix1 =~= prefix.push(samples[k]));
    assert(covers(eps1[p], samples[k]));
    assert(distinct_episodes(eps1)) by {
        assert forall|t1: int, t2: int| 0 <= t1 < t2 < eps1.len() implies
            !same_episode(eps1[t1], eps1[t2]) by {
            assert(!same_episode(eps0[t1], eps0[t2]));
        }
    }
    assert(sorted_by_start(eps1)) by {
        assert forall|t1: int, t2: int| 0 <= t1 <= t2 < eps1.len() implies
            eps1[t1].started_at <= eps1[t2].started_at by {
            assert(eps0[t1].started_at <= eps0[t2].started_at);
        }
    }
    assert(complete(prefix1, eps1)) by {
        assert forall|t: int| 0 <= t < prefix1.len() implies exists|i2: int|
            0 <= i2 < eps1.len() && covers(#[trigger] eps1[i2], #[trigger] prefix1[t]) by {
            if t < k {
                let w = choose|i2: int|
                    0 <= i2 < eps0.len() && covers(#[trigger] eps0[i2], prefix[t]);
                assert(covers(eps1[w], prefix1[t]));
            } else {
                assert(covers(eps1[p], prefix1[t]));
            }
        }
    }
    assert forall|i2: int| 0 <= i2 < eps1.len() implies duration_is_max(
        prefix1,
        #[trigger] eps1[i2],
    ) by {
        if i2 == p {
            assert(duration_is_max(prefix, eps0[i2]));
            if samples[k].age > eps0[p].duration {
                assert(covers(eps1[i2], prefix1[k]) && prefix1[k].age == eps1[i2].duration);
            } else {
                let w = choose|t: int|
                    0 <= t < prefix.len() && covers(eps0[i2], #[trigger] prefix[t])
                        && prefix[t].age == eps0[i2].duration;
                assert(covers(eps1[i2], prefix1[w]) && prefix1[w].age == eps1[i2].duration);
            }
            assert forall|t: int|
                0 <= t < prefix1.len() && covers(eps1[i2], #[trigger] prefix1[t])
                implies prefix1[t].age <= eps1[i2].duration by {
                if t < k {
                    assert(covers(eps0[i2], prefix[t]));
                }
            }
        } else {
            assert(duration_is_max(prefix, eps0[i2]));
            assert(eps1[i2] == eps0[i2]);
            // The new sample belongs to the line at p, not to this one:
            // two lines never share an identity.
            assert(!covers(eps0[i2], samples[k])) by {
                if covers(eps0[i2], samples[k]) {
                    if i2 < p {
                        assert(!same_episode(eps0[i2], eps0[p]));
                    } else {
                        assert(!same_episode(eps0[p], eps0[i2]));
                    }
                }
            }
            let w = choose|t: int|
                0 <= t < prefix.len() && covers(eps0[i2], #[trigger] prefix[t])
                    && prefix[t].age == eps0[i2].duration;
            assert(covers(eps1[i2], prefix1[w]) && prefix1[w].age == eps1[i2].duration);
            assert forall|t: int|
                0 <= t < prefix1.len() && covers(eps1[i2], #[trigger] prefix1[t])
                implies prefix1[t].age <= eps1[i2].duration by {
                if t < k {
                    assert(covers(eps0[i2], prefix[t]));
                }
            }
        }
    }
}

/// Booking a first observation: inserting a fresh line at its ordered
/// position, when no line accounts for the sample yet, keeps the report
/// valid for the stream extended by that observation.
proof fn lemma_book_fresh(
    samples: Seq<LockSample>,
    k: int,
    eps0: Seq<Episode>,
    eps1: Seq<Episode>,
    p: int,
    fresh: Episode,
)
    requires
        0 <= k < samples.len(),
        0 <= p <= eps0.len(),
        distinct_episodes(eps0),
        sorted_by_start(eps0),
        complete(samples.take(k), eps0),
        forall|i: int| 0 <= i < eps0.len() ==> duration_is_max(samples.take(k), #[trigger] eps0[i]),
        forall|t: int| 0 <= t < eps0.len() ==> !covers(#[trigger] eps0[t], samples[k]),
        covers(fresh, samples[k]),
        fresh.duration == samples[k].age,
        forall|t: int| 0 <= t < p ==> #[trigger] eps0[t].started_at <= samples[k].started_at,
        p < eps0.len() ==> eps0[p].started_at > samples[k].started_at,
        eps1 == eps0.insert(p, fresh),
    ensures
        distinct_episodes(eps1),
        sorted_by_start(eps1),
        complete(samples.take(k + 1), eps1),
        forall|i: int| 0 <= i < eps1.len() ==> duration_is_max(
            samples.take(k + 1),
            #[trigger] eps1[i],
        ),
{
    let prefix = samples.take(k);
    let prefix1 = samples.take(k + 1);
    assert(prefix1 =~= prefix.push(samples[k]));
    eps0.insert_ensures(p, fresh);
    assert(forall|t: int| 0 <= t < p ==> eps1[t] == eps0[t]);
    assert(forall|t: int| p < t < eps1.len() ==> eps1[t] == eps0[t - 1]);
    assert(eps1[p] == fresh);
    assert(distinct_episodes(eps1)) by {
        assert forall|t1: int, t2: int| 0 <= t1 < t2 < eps1.len() implies
            !same_episode(eps1[t1], eps1[t2]) by {
            if t1 != p && t2 != p {
                let o1: int = if t1 < p { t1 } else { t1 - 1 };
                let o2: int = if t2 < p { t2 } else { t2 - 1 };
                assert(!same_episode(eps0[o1], eps0[o2]));
            }
        }
    }
    assert(sorted_by_start(eps1)) by {
        assert forall|t1: int, t2: int| 0 <= t1 <= t2 < eps1.len() implies
            eps1[t1].started_at <= eps1[t2].started_at by {
            let o1: int = if t1 < p { t1 } else { t1 - 1 };
            let o2: int = if t2 < p { t2 } else { t2 - 1 };
            if t1 != p && t2 != p {
                assert(eps0[o1].started_at <= eps0[o2].started_at);
            } else if t1 == p && t2 != p {
                // everything at or after p began strictly later
                assert(eps0[p].started_at <= eps0[o2].started_at);
            } else if t1 != p && t2 == p {
                assert(eps0[o1].started_at <= samples[k].started_at);
            }
        }
    }
    assert(complete(prefix1, eps1)) by {
        assert forall|t: int| 0 <= t < prefix1.len() implies exists|i2: int|
            0 <= i2 < eps1.len() && covers(#[trigger] eps1[i2], #[trigger] prefix1[t]) by {
            if t < k {
                let w = choose|i2: int|
                    0 <= i2 < eps0.len() && covers(#[trigger] eps0[i2], prefix[t]);
                let w1: int = if w < p { w } else { w + 1 };
                assert(covers(eps1[w1], prefix1[t]));
            } else {
                assert(covers(eps1[p], prefix1[t]));
            }
        }
    }
    assert forall|i2: int| 0 <= i2 < eps1.len() implies duration_is_max(
        prefix1,
        #[trigger] eps1[i2],
    ) by {
        if i2 == p {
            // Its only sample so far is the one just read: any earlier one
            // with this identity would already have had a line.
            assert forall|t: int|
                0 <= t < prefix1.len() && covers(eps1[i2], #[trigger] prefix1[t])
                implies prefix1[t].age <= eps1[i2].duration by {
                if t < k {
                    assert(same_identity(prefix[t], samples[k]));
                    let w = choose|i3: int|
                        0 <= i3 < eps0.len() && covers(#[trigger] eps0[i3], prefix[t]);
                    assert(covers(eps0[w], samples[k]));
                }
            }
            assert(covers(eps1[i2], prefix1[k]) && prefix1[k].age == eps1[i2].duration);
        } else {
            let o: int = if i2 < p { i2 } else { i2 - 1 };
            assert(eps1[i2] == eps0[o]);
            assert(duration_is_max(prefix, eps0[o]));
            let w = choose|t: int|
                0 <= t < prefix.len() && covers(eps0[o], #[trigger] prefix[t])
                    && prefix[t].age == eps0[o].duration;
            assert(covers(eps1[i2], prefix1[w]) && prefix1[w].age == eps1[i2].duration);
            assert forall|t: int|
                0 <= t < prefix1.len() && covers(eps1[i2], #[trigger] prefix1[t])
                implies prefix1[t].age <= eps1[i2].duration by {
                if t < k {
                    assert(covers(eps0[o], prefix[t]));
                }
            }
        }
    }
}

/// Builds the report from every row of the store, in one pass: group by
/// identity tuple, take the maximum age per group, order by query start.
pub fn build_report(samples: &Vec<LockSample>) -> (r: Report)
    ensures
        (r matches Report::Empty) <==> samples@.len() == 0,
        r matches Report::Episodes(eps) ==> valid_report(samples@, eps@),
{
    if samples.len() == 0 {
        return Report::Empty;
    }
    let n = samples.len();
    let mut eps: Vec<Episode> = Vec::new();
    let mut k: usize = 0;
    while k < n
        invariant
            n == samples@.len(),
            k <= n,
            distinct_episodes(eps@),
            sorted_by_start(eps@),
            complete(samples@.take(k as int), eps@),
            forall|i: int|
                0 <= i < eps@.len() ==> duration_is_max(samples@.take(k as int), #[trigger] eps@[i]),
        decreases n - k,
    {
        let s = &samples[k];
        let ghost eps0 = eps@;

        // Look for the episode that already accounts for this sample.
        let mut hit: Option<usize> = None;
        let mut i: usize = 0;
        while i < eps.len()
            invariant
                i <= eps@.len(),
                (hit matches None) ==> forall|t: int| 0 <= t < i ==> !covers(#[trigger] eps@[t], *s),
                hit matches Some(p) ==> p < eps@.len() && covers(eps@[p as int], *s),
            decreases eps@.len() - i,
        {
            if hit.is_none() && key_matches(&eps[i], s) {
                hit = Some(i);
            }
            i += 1;
        }

        match hit {
            Some(p) => {
                // A repeated observation of a known episode: keep the
                // larger age. A late, out-of-order write never lowers it.
                if s.age > eps[p].duration {
                    let e = &mut eps[p];
                    e.duration = s.age;
                }
                proof {
                    lemma_book_repeat(samples@, k as int, eps0, eps@, p as int);
                }
            },
            None => {
                // A new episode: insert its line at the ordered position.
                let mut p: usize = 0;
                while p < eps.len() && eps[p].started_at <= s.started_at
                    invariant
                        p <= eps@.len(),
                        eps@ == eps0,
                        forall|t: int|
                            0 <= t < p ==> #[trigger] eps@[t].started_at <= s.started_at,
                    decreases eps@.len() - p,
                {
                    p += 1;
                }
                let fresh = Episode {
                    pid: s.pid,
                    db: s.db.clone(),
                    relation: s.relation.clone(),
                    started_at: s.started_at,
                    query: s.query.clone(),
                    duration: s.age,
                };
                let ghost freshg = fresh;
                eps.insert(p, fresh);
                proof {
                    lemma_book_fresh(samples@, k as int, eps0, eps@, p as int, freshg);
                }
            },
        }
        k += 1;
    }
    proof {
        assert(samples@.take(n as int) =~= samples@);
    }
    Report::Episodes(eps)
}

} // verus!
