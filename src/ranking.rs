use vstd::prelude::*;

verus! {

/// The smart-case skim score of `pattern` against `choice`, as fuzzy-matcher's
/// `SkimMatcherV2` computes it; `None` when the pattern does not match.
pub uninterp spec fn skim_score(choice: Seq<char>, pattern: Seq<char>) -> Option<i64>;

/// Relies on fuzzy_matcher's `SkimMatcherV2::fuzzy_match` with the default
/// configuration and smart case: a score that depends on the two strings alone,
/// and `Some(0)` for an empty pattern.
#[verifier::external_body]
pub(crate) fn score(choice: &str, pattern: &str) -> (r: Option<i64>)
    ensures
        r == skim_score(choice@, pattern@),
        pattern@.len() == 0 ==> r == Some(0i64),
{
    let matcher = fuzzy_matcher::skim::SkimMatcherV2::default().smart_case();
    fuzzy_matcher::FuzzyMatcher::fuzzy_match(&matcher, choice, pattern)
}

/// A scored history entry as the logic sees it.
pub type Entry = (i64, Seq<char>);

/// The entries of `s` whose score is present and positive, in order.
pub open spec fn positive(s: Seq<(Option<i64>, Seq<char>)>) -> Seq<Entry>
    decreases s.len(),
{
    if s.len() == 0 {
        Seq::empty()
    } else {
        let rest = positive(s.drop_last());
        match s.last().0 {
            Some(v) => if v > 0 {
                rest.push((v, s.last().1))
            } else {
                rest
            },
            None => rest,
        }
    }
}

/// `e` placed into `r` after every entry that scores at least as high.
pub open spec fn insert_desc(r: Seq<Entry>, e: Entry) -> Seq<Entry>
    decreases r.len(),
{
    if r.len() == 0 || r.last().0 >= e.0 {
        r.push(e)
    } else {
        insert_desc(r.drop_last(), e).push(r.last())
    }
}

/// `s` sorted by descending score; entries of equal score keep their order.
pub open spec fn ranked(s: Seq<Entry>) -> Seq<Entry>
    decreases s.len(),
{
    if s.len() == 0 {
        Seq::empty()
    } else {
        insert_desc(ranked(s.drop_last()), s.last())
    }
}

pub open spec fn non_increasing(s: Seq<Entry>) -> bool {
    forall|i: int| 0 <= i < s.len() - 1 ==> #[trigger] s[i].0 >= s[i + 1].0
}

pub open spec fn scored_view(v: Seq<(Option<i64>, String)>) -> Seq<(Option<i64>, Seq<char>)> {
    v.map_values(|e: (Option<i64>, String)| (e.0, e.1@))
}

pub open spec fn entries_view(v: Seq<(i64, String)>) -> Seq<Entry> {
    v.map_values(|e: (i64, String)| (e.0, e.1@))
}

proof fn lemma_insert_at(r: Seq<Entry>, e: Entry, p: int)
    requires
        0 <= p <= r.len(),
        forall|j: int| p <= j < r.len() ==> #[trigger] r[j].0 < e.0,
        p == 0 || r[p - 1].0 >= e.0,
    ensures
        insert_desc(r, e) == r.insert(p, e),
    decreases r.len(),
{
    if p == r.len() {
        assert(r.push(e) =~= r.insert(p, e));
    } else {
        assert(r[r.len() - 1].0 < e.0);
        lemma_insert_at(r.drop_last(), e, p);
        assert(r.drop_last().insert(p, e).push(r.last()) =~= r.insert(p, e));
    }
}

proof fn lemma_insert_desc(r: Seq<Entry>, e: Entry)
    requires
        non_increasing(r),
    ensures
        non_increasing(insert_desc(r, e)),
        insert_desc(r, e).len() == r.len() + 1,
        insert_desc(r, e).last() == e || (r.len() > 0 && insert_desc(r, e).last() == r.last()),
    decreases r.len(),
{
    if r.len() == 0 || r.last().0 >= e.0 {
    } else {
        let inner = insert_desc(r.drop_last(), e);
        assert(non_increasing(r.drop_last()));
        lemma_insert_desc(r.drop_last(), e);
        if r.len() > 1 {
            assert(r[r.len() - 2].0 >= r[r.len() - 1].0);
        }
        let out = inner.push(r.last());
        assert forall|i: int| 0 <= i < out.len() - 1 implies #[trigger] out[i].0 >= out[i + 1].0 by {
            if i < out.len() - 2 {
                assert(out[i] == inner[i] && out[i + 1] == inner[i + 1]);
            }
        }
    }
}

/// Filtering keeps at most every entry.
pub proof fn lemma_positive_len(s: Seq<(Option<i64>, Seq<char>)>)
    ensures
        positive(s).len() <= s.len(),
    decreases s.len(),
{
    if s.len() > 0 {
        lemma_positive_len(s.drop_last());
    }
}

/// Ranking keeps every entry and orders them by non-increasing score.
pub proof fn lemma_ranked(s: Seq<Entry>)
    ensures
        non_increasing(ranked(s)),
        ranked(s).len() == s.len(),
    decreases s.len(),
{
    if s.len() > 0 {
        lemma_ranked(s.drop_last());
        lemma_insert_desc(ranked(s.drop_last()), s.last());
    }
}

/// The entries with a present, positive score, ordered by descending score;
/// entries of equal score keep the order they came in.
pub fn rank(scored: &Vec<(Option<i64>, String)>) -> (r: Vec<(i64, String)>)
    ensures
        entries_view(r@) == ranked(positive(scored_view(scored@))),
        non_increasing(entries_view(r@)),
{
    let mut out: Vec<(i64, String)> = Vec::new();
    let mut i: usize = 0;
    while i < scored.len()
        invariant
            0 <= i <= scored@.len(),
            entries_view(out@) == ranked(positive(scored_view(scored@.subrange(0, i as int)))),
        decreases scored@.len() - i,
    {
        let ghost prev = scored@.subrange(0, i as int);
        let ghost next = scored@.subrange(0, i + 1);
        assert(next.drop_last() =~= prev);
        assert(scored_view(next).drop_last() =~= scored_view(prev));
        assert(scored_view(next).last() == (scored@[i as int].0, scored@[i as int].1@));
        match scored[i].0 {
            Some(v) => {
                if v > 0 {
                    let ghost before = entries_view(out@);
                    let ghost e: Entry = (v, scored@[i as int].1@);
                    let mut p: usize = out.len();
                    #[verifier::loop_isolation(false)]
                    while p > 0 && out[p - 1].0 < v
                        invariant
                            0 <= p <= out@.len(),
                            before == entries_view(out@),
                            forall|j: int| p <= j < out@.len() ==> #[trigger] out@[j].0 < v,
                        decreases p,
                    {
                        p = p - 1;
                    }
                    proof {
                        assert(before.len() == out@.len());
                        assert forall|j: int| p <= j < before.len() implies #[trigger] before[j].0
                            < e.0 by {
                            assert(before[j].0 == out@[j].0);
                        }
                        if p > 0 {
                            assert(before[p - 1].0 == out@[p - 1].0);
                        }
                        lemma_insert_at(before, e, p as int);
                    }
                    out.insert(p, (v, scored[i].1.clone()));
                    assert(entries_view(out@) =~= before.insert(p as int, e));
                    let ghost pp = positive(scored_view(prev));
                    assert(positive(scored_view(next)) == pp.push(e));
                    assert(pp.push(e).drop_last() =~= pp);
                    assert(ranked(pp.push(e)) == insert_desc(ranked(pp), e));
                } else {
                    assert(positive(scored_view(next)) == positive(scored_view(prev)));
                }
            },
            None => {
                assert(positive(scored_view(next)) == positive(scored_view(prev)));
            },
        }
        i = i + 1;
    }
    assert(scored@.subrange(0, scored@.len() as int) =~= scored@);
    proof {
        lemma_ranked(positive(scored_view(scored@)));
    }
    out
}

} // verus!
