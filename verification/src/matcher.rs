use vstd::prelude::*;

verus! {

/// A candidate name paired with its relevance score against some query text.
pub struct MatchResult {
    pub name: String,
    pub score: i64,
}

/// The relevance score that the fuzzy scoring primitive assigns to `choice`
/// against the query `pattern`; `None` when the pattern is no match for the
/// choice at all. The scorer is deterministic, so this is a function of the
/// two texts alone.
pub uninterp spec fn fuzzy_score(choice: Seq<char>, pattern: Seq<char>) -> Option<i64>;

/// Relies on fuzzy_matcher's `SkimMatcherV2::fuzzy_match` with the default
/// configuration: the score depends on the choice and the pattern alone, and
/// a choice that the pattern cannot be matched against yields `None`.
#[verifier::external_body]
fn fuzzy_match_score(choice: &str, pattern: &str) -> (r: Option<i64>)
    ensures
        r == fuzzy_score(choice@, pattern@),
{
    let matcher = fuzzy_matcher::skim::SkimMatcherV2::default();
    fuzzy_matcher::FuzzyMatcher::fuzzy_match(&matcher, choice, pattern)
}

/// The candidates the scorer accepts for `pattern`, in candidate order, each
/// paired with its score.
pub open spec fn scored_model(cands: Seq<String>, pattern: Seq<char>) -> Seq<(Seq<char>, i64)>
    decreases cands.len(),
{
    if cands.len() == 0 {
        Seq::empty()
    } else {
        let rest = scored_model(cands.drop_last(), pattern);
        match fuzzy_score(cands.last()@, pattern) {
            Some(s) => rest.push((cands.last()@, s)),
            None => rest,
        }
    }
}

/// Scores never increase along the sequence.
pub open spec fn sorted_desc(s: Seq<(Seq<char>, i64)>) -> bool {
    forall|i: int, j: int| 0 <= i <= j < s.len() ==> s[i].1 >= s[j].1
}

/// `x` placed into a descending sequence, after every entry whose score is at
/// least as high: entries of equal score keep their old order.
pub open spec fn insert_desc(s: Seq<(Seq<char>, i64)>, x: (Seq<char>, i64)) -> Seq<(Seq<char>, i64)>
    decreases s.len(),
{
    if s.len() == 0 {
        seq![x]
    } else if s[0].1 >= x.1 {
        seq![s[0]] + insert_desc(s.drop_first(), x)
    } else {
        seq![x] + s
    }
}

/// The stable descending sort of a scored sequence: entries of equal score
/// stay in candidate order.
pub open spec fn sort_desc(s: Seq<(Seq<char>, i64)>) -> Seq<(Seq<char>, i64)>
    decreases s.len(),
{
    if s.len() == 0 {
        Seq::empty()
    } else {
        insert_desc(sort_desc(s.drop_last()), s.last())
    }
}

/// The first `k` entries of `s`, or all of `s` when it is shorter.
pub open spec fn take_at_most(s: Seq<(Seq<char>, i64)>, k: int) -> Seq<(Seq<char>, i64)> {
    if s.len() <= k {
        s
    } else {
        s.take(k)
    }
}

/// The scored pairs that a sequence of match results carries.
pub open spec fn matches_model(s: Seq<MatchResult>) -> Seq<(Seq<char>, i64)> {
    s.map_values(|m: MatchResult| (m.name@, m.score))
}

proof fn lemma_insert_desc_sorted(s: Seq<(Seq<char>, i64)>, x: (Seq<char>, i64))
    requires
        sorted_desc(s),
    ensures
        insert_desc(s, x).len() == s.len() + 1,
        sorted_desc(insert_desc(s, x)),
        insert_desc(s, x)[0] == x || (s.len() > 0 && insert_desc(s, x)[0] == s[0]),
    decreases s.len(),
{
    let r = insert_desc(s, x);
    if s.len() == 0 {
        assert(sorted_desc(r));
    } else if s[0].1 >= x.1 {
        let t = s.drop_first();
        assert forall|i: int, j: int| 0 <= i <= j < t.len() implies t[i].1 >= t[j].1 by {
            assert(t[i] == s[i + 1]);
            assert(t[j] == s[j + 1]);
        }
        lemma_insert_desc_sorted(t, x);
        let rt = insert_desc(t, x);
        assert(t.len() > 0 ==> t[0] == s[1]);
        assert(s[0].1 >= rt[0].1);
        assert forall|i: int, j: int| 0 <= i <= j < r.len() implies r[i].1 >= r[j].1 by {
            if i == 0 {
                if j > 0 {
                    assert(r[j] == rt[j - 1]);
                    assert(rt[0].1 >= rt[j - 1].1);
                }
            } else {
                assert(r[i] == rt[i - 1]);
                assert(r[j] == rt[j - 1]);
            }
        }
    } else {
        assert forall|i: int, j: int| 0 <= i <= j < r.len() implies r[i].1 >= r[j].1 by {
            if i == 0 {
                if j > 0 {
                    assert(r[j] == s[j - 1]);
                    assert(x.1 > s[0].1 && s[0].1 >= s[j - 1].1);
                }
            } else {
                assert(r[i] == s[i - 1]);
                assert(r[j] == s[j - 1]);
            }
        }
    }
}

proof fn lemma_sort_desc_sorted(s: Seq<(Seq<char>, i64)>)
    ensures
        sort_desc(s).len() == s.len(),
        sorted_desc(sort_desc(s)),
    decreases s.len(),
{
    if s.len() == 0 {
        assert(sorted_desc(sort_desc(s)));
    } else {
        lemma_sort_desc_sorted(s.drop_last());
        lemma_insert_desc_sorted(sort_desc(s.drop_last()), s.last());
    }
}

proof fn lemma_insert_desc_at(s: Seq<(Seq<char>, i64)>, x: (Seq<char>, i64), p: int)
    requires
        sorted_desc(s),
        0 <= p <= s.len(),
        forall|k: int| 0 <= k < p ==> s[k].1 >= x.1,
        p < s.len() ==> s[p].1 < x.1,
    ensures
        insert_desc(s, x) =~= s.insert(p, x),
    decreases s.len(),
{
    if s.len() == 0 {
        assert(insert_desc(s, x) =~= s.insert(0, x));
    } else if s[0].1 >= x.1 {
        assert(p >= 1);
        let t = s.drop_first();
        assert forall|i: int, j: int| 0 <= i <= j < t.len() implies t[i].1 >= t[j].1 by {
            assert(t[i] == s[i + 1]);
            assert(t[j] == s[j + 1]);
        }
        assert forall|k: int| 0 <= k < p - 1 implies t[k].1 >= x.1 by {
            assert(t[k] == s[k + 1]);
        }
        assert(p - 1 < t.len() ==> t[p - 1].1 < x.1);
        lemma_insert_desc_at(t, x, p - 1);
        assert(insert_desc(s, x) =~= seq![s[0]] + t.insert(p - 1, x));
        assert(seq![s[0]] + t.insert(p - 1, x) =~= s.insert(p, x));
    } else {
        assert(p == 0);
        assert(insert_desc(s, x) =~= s.insert(0, x));
    }
}

proof fn lemma_model_insert(s: Seq<MatchResult>, p: int, m: MatchResult)
    requires
        0 <= p <= s.len(),
    ensures
        matches_model(s.insert(p, m)) =~= matches_model(s).insert(p, (m.name@, m.score)),
{
    assert forall|k: int| 0 <= k < s.len() + 1 implies matches_model(s.insert(p, m))[k]
        == matches_model(s).insert(p, (m.name@, m.score))[k] by {
        if k < p {
            assert(s.insert(p, m)[k] == s[k]);
            assert(matches_model(s).insert(p, (m.name@, m.score))[k] == matches_model(s)[k]);
        } else if k == p {
            assert(s.insert(p, m)[k] == m);
        } else {
            assert(s.insert(p, m)[k] == s[k - 1]);
            assert(matches_model(s).insert(p, (m.name@, m.score))[k] == matches_model(s)[k - 1]);
        }
    }
}

/// Ranked fix suggestions: every candidate the scorer accepts for
/// `user_input`, sorted by descending score — candidates of equal score stay
/// in candidate order — and cut off after `limit` entries.
pub fn suggest(user_input: &str, candidates: &Vec<String>, limit: usize) -> (r: Vec<MatchResult>)
    ensures
        matches_model(r@) == take_at_most(
            sort_desc(scored_model(candidates@, user_input@)),
            limit as int,
        ),
        r@.len() <= limit,
        forall|i: int, j: int| 0 <= i <= j < r@.len() ==> r@[i].score >= r@[j].score,
{
    let mut scored: Vec<MatchResult> = Vec::new();
    let mut i: usize = 0;
    while i < candidates.len()
        invariant
            i <= candidates.len(),
            matches_model(scored@) == sort_desc(
                scored_model(candidates@.take(i as int), user_input@),
            ),
        decreases candidates.len() - i,
    {
        let ghost prev = scored_model(candidates@.take(i as int), user_input@);
        let ghost prev_sorted = matches_model(scored@);
        let cand = &candidates[i];
        let sc_opt = fuzzy_match_score(cand.as_str(), user_input);
        proof {
            assert(candidates@.take(i + 1).drop_last() =~= candidates@.take(i as int));
            assert(candidates@.take(i + 1).last() == candidates@[i as int]);
        }
        match sc_opt {
            Some(score) => {
                proof {
                    lemma_sort_desc_sorted(prev);
                }
                let mut p: usize = 0;
                while p < scored.len() && scored[p].score >= score
                    invariant
                        p <= scored.len(),
                        forall|k: int| 0 <= k < p ==> scored@[k].score >= score,
                    decreases scored.len() - p,
                {
                    p = p + 1;
                }
                let ghost pre = scored@;
                let mr = MatchResult { name: cand.clone(), score };
                scored.insert(p, mr);
                proof {
                    assert forall|k: int| 0 <= k < p implies prev_sorted[k].1 >= score by {
                        assert(prev_sorted[k] == (pre[k].name@, pre[k].score));
                    }
                    assert(p < pre.len() ==> prev_sorted[p as int].1 < score);
                    lemma_insert_desc_at(prev_sorted, (cand@, score), p as int);
                    lemma_model_insert(pre, p as int, mr);
                    assert(scored_model(candidates@.take(i + 1), user_input@) == prev.push(
                        (cand@, score),
                    ));
                    assert(prev.push((cand@, score)).drop_last() =~= prev);
                    assert(sort_desc(prev.push((cand@, score))) == insert_desc(
                        sort_desc(prev),
                        (cand@, score),
                    ));
                    assert(matches_model(scored@) =~= prev_sorted.insert(p as int, (cand@, score)));
                    assert(matches_model(scored@) == sort_desc(
                        scored_model(candidates@.take(i + 1), user_input@),
                    ));
                }
            },
            None => {
                proof {
                    assert(scored_model(candidates@.take(i + 1), user_input@) == prev);
                }
            },
        }
        i = i + 1;
    }
    proof {
        assert(candidates@.take(i as int) =~= candidates@);
        lemma_sort_desc_sorted(scored_model(candidates@, user_input@));
    }
    let ghost full_sorted = sort_desc(scored_model(candidates@, user_input@));
    if scored.len() > limit {
        let ghost before = scored@;
        scored.truncate(limit);
        proof {
            assert forall|k: int| 0 <= k < limit as int implies matches_model(scored@)[k]
                == full_sorted.take(limit as int)[k] by {
                assert(scored@[k] == before[k]);
                assert(matches_model(before)[k] == full_sorted[k]);
            }
            assert(matches_model(scored@) =~= full_sorted.take(limit as int));
        }
    }
    proof {
        assert(matches_model(scored@) =~= take_at_most(full_sorted, limit as int));
        assert forall|a: int, b: int| 0 <= a <= b < scored@.len() implies scored@[a].score
            >= scored@[b].score by {
            assert(matches_model(scored@)[a] == (scored@[a].name@, scored@[a].score));
            assert(matches_model(scored@)[b] == (scored@[b].name@, scored@[b].score));
            assert(full_sorted[a].1 >= full_sorted[b].1);
        }
    }
    scored
}

} // verus!
