use vstd::prelude::*;

use crate::cache::{cached, ResponseCache};
use crate::ranking::{
    entries_view, lemma_positive_len, lemma_ranked, positive, rank, ranked, score, scored_view, skim_score,
    Entry,
};
use crate::response::{icon_name, is_success, opt_view, Response, ResponseView};
use crate::text::{activation, strip_activation};

verus! {

/// Settings read from the plugin's configuration file.
pub struct Config {
    pub prefix: Option<String>,
    pub ha_language: Option<String>,
    pub ha_url: String,
    pub ha_token: String,
}

impl Config {
    pub open spec fn prefix_view(&self) -> Seq<char> {
        match self.prefix {
            Some(p) => p@,
            None => ":ha"@,
        }
    }

    pub open spec fn language_view(&self) -> Seq<char> {
        match self.ha_language {
            Some(l) => l@,
            None => "en"@,
        }
    }

    /// The activation prefix, `:ha` unless configured.
    pub fn prefix(&self) -> (r: String)
        ensures
            r@ == self.prefix_view(),
    {
        match &self.prefix {
            Some(p) => p.clone(),
            None => String::from_str(":ha"),
        }
    }

    /// The language tag sent with each query, `en` unless configured.
    pub fn language(&self) -> (r: String)
        ensures
            r@ == self.language_view(),
    {
        match &self.ha_language {
            Some(l) => l.clone(),
            None => String::from_str("en"),
        }
    }
}

/// One suggestion shown to the user.
pub struct Candidate {
    pub title: String,
    pub description: Option<String>,
    pub icon: Option<String>,
}

pub struct CandidateView {
    pub title: Seq<char>,
    pub description: Option<Seq<char>>,
    pub icon: Option<Seq<char>>,
}

impl View for Candidate {
    type V = CandidateView;

    open spec fn view(&self) -> CandidateView {
        CandidateView {
            title: self.title@,
            description: match self.description {
                Some(d) => Some(d@),
                None => None,
            },
            icon: match self.icon {
                Some(i) => Some(i@),
                None => None,
            },
        }
    }
}

/// A candidate titled `title`, decorated with the cached answer `resp`, if any.
pub open spec fn decorated(title: Seq<char>, resp: Option<ResponseView>) -> CandidateView {
    match resp {
        Some(r) => CandidateView {
            title,
            description: Some(r.text),
            icon: Some(icon_name(r.kind)),
        },
        None => CandidateView { title, description: None, icon: None },
    }
}

pub open spec fn strings_view(v: Seq<String>) -> Seq<Seq<char>> {
    v.map_values(|s: String| s@)
}

pub open spec fn candidates_view(v: Seq<Candidate>) -> Seq<CandidateView> {
    v.map_values(|c: Candidate| c@)
}

/// No earlier title equals the one at `i`.
pub open spec fn first_seen(titles: Seq<Seq<char>>, i: int) -> bool {
    !titles.subrange(0, i).contains(titles[i])
}

/// The candidates for `titles`, each decorated with what cache `m` holds for
/// it, unless an earlier title already took that entry.
pub open spec fn decorations(m: Map<Seq<char>, ResponseView>, titles: Seq<Seq<char>>) -> Seq<
    CandidateView,
> {
    Seq::new(
        titles.len(),
        |i: int|
            decorated(
                titles[i],
                if first_seen(titles, i) {
                    cached(m, titles[i])
                } else {
                    None
                },
            ),
    )
}

/// Each history entry paired with its fuzzy score against `q`.
pub open spec fn scores(history: Seq<(i64, String)>, q: Seq<char>) -> Seq<(Option<i64>, Seq<char>)> {
    history.map_values(|h: (i64, String)| (skim_score(h.1@, q), h.1@))
}

/// The titles offered for query `q`: the query itself, then the history
/// entries that match it, best first. Nothing for an empty query.
pub open spec fn titles_for(q: Seq<char>, history: Seq<(i64, String)>) -> Seq<Seq<char>> {
    if q.len() == 0 {
        Seq::empty()
    } else {
        seq![q] + ranked(positive(scores(history, q))).map_values(|e: Entry| e.1)
    }
}

/// For a non-empty query there is one candidate for the query itself and one
/// for each history entry with a positive score, so never more than one plus
/// the number of history entries.
pub proof fn lemma_candidate_count(
    m: Map<Seq<char>, ResponseView>,
    q: Seq<char>,
    history: Seq<(i64, String)>,
)
    requires
        q.len() > 0,
    ensures
        decorations(m, titles_for(q, history)).len() == 1 + positive(scores(history, q)).len(),
        decorations(m, titles_for(q, history)).len() <= 1 + history.len(),
{
    lemma_ranked(positive(scores(history, q)));
    lemma_positive_len(scores(history, q));
}

/// For a non-empty query the first candidate is the query itself, decorated
/// with its own cached answer, whatever its score.
pub proof fn lemma_exact_first(m: Map<Seq<char>, ResponseView>, q: Seq<char>, history: Seq<(i64, String)>)
    requires
        q.len() > 0,
    ensures
        decorations(m, titles_for(q, history)).len() > 0,
        decorations(m, titles_for(q, history))[0] == decorated(q, cached(m, q)),
{
    let t = titles_for(q, history);
    assert(t[0] == q);
    assert(t.subrange(0, 0) =~= Seq::<Seq<char>>::empty());
}

/// An empty query gives no candidates, whatever the history holds.
pub proof fn lemma_empty_query(m: Map<Seq<char>, ResponseView>, history: Seq<(i64, String)>)
    ensures
        decorations(m, titles_for(Seq::empty(), history)).len() == 0,
{
}

/// The ranked part of the candidates comes in non-increasing score order.
pub proof fn lemma_ranked_order(q: Seq<char>, history: Seq<(i64, String)>)
    ensures
        crate::ranking::non_increasing(ranked(positive(scores(history, q)))),
{
    lemma_ranked(positive(scores(history, q)));
}

/// The engine's state for the lifetime of the process.
pub struct State {
    pub config: Config,
    pub responses: ResponseCache,
}

impl State {
    pub open spec fn wf(&self) -> bool {
        self.responses.wf()
    }

    pub fn new(config: Config) -> (r: State)
        ensures
            r.wf(),
            r.config == config,
            r.responses@ == Map::<Seq<char>, ResponseView>::empty(),
    {
        State { config, responses: ResponseCache::new() }
    }
}

impl Candidate {
    /// A candidate titled `title`, with the description and icon of `resp`.
    pub fn decorated(title: String, resp: Option<Response>) -> (r: Candidate)
        ensures
            r@ == decorated(title@, opt_view(resp)),
    {
        match resp {
            Some(x) => {
                let icon = x.response_type.icon();
                Candidate { title, description: Some(x.speech.plain.speech), icon: Some(icon) }
            },
            None => Candidate { title, description: None, icon: None },
        }
    }
}

/// Builds a candidate for each title, taking its answer out of `cache`.
pub fn decorate(cache: &mut ResponseCache, titles: &Vec<String>) -> (r: Vec<Candidate>)
    requires
        old(cache).wf(),
    ensures
        final(cache).wf(),
        candidates_view(r@) == decorations(old(cache)@, strings_view(titles@)),
        final(cache)@ == old(cache)@.remove_keys(strings_view(titles@).to_set()),
{
    let ghost m0 = cache@;
    let ghost tv = strings_view(titles@);
    let mut out: Vec<Candidate> = Vec::new();
    let mut i: usize = 0;
    while i < titles.len()
        invariant
            cache.wf(),
            0 <= i <= titles@.len(),
            tv == strings_view(titles@),
            out@.len() == i,
            cache@ == m0.remove_keys(tv.subrange(0, i as int).to_set()),
            forall|j: int| 0 <= j < i ==> #[trigger] out@[j]@ == decorations(m0, tv)[j],
        decreases titles@.len() - i,
    {
        let ghost seen = tv.subrange(0, i as int);
        let ghost t = tv[i as int];
        assert(titles@[i as int]@ == t);
        proof {
            if seen.contains(t) {
                let w = choose|w: int| 0 <= w < seen.len() && seen[w] == t;
                assert(seen.to_set().contains(t));
            } else {
                assert(!seen.to_set().contains(t));
            }
        }
        let resp = cache.take(&titles[i]);
        let c = Candidate::decorated(titles[i].clone(), resp);
        out.push(c);
        proof {
            let next = tv.subrange(0, i + 1);
            assert forall|k: Seq<char>| next.to_set().contains(k) <==> (seen.to_set().contains(k)
                || k == t) by {
                if next.contains(k) {
                    let w = choose|w: int| 0 <= w < next.len() && next[w] == k;
                    if w < i {
                        assert(seen[w] == k);
                    }
                }
                if seen.contains(k) {
                    let w = choose|w: int| 0 <= w < seen.len() && seen[w] == k;
                    assert(next[w] == k);
                }
                if k == t {
                    assert(next[i as int] == k);
                }
            }
            assert(cache@ =~= m0.remove_keys(next.to_set()));
            assert forall|j: int| 0 <= j < i + 1 implies #[trigger] out@[j]@ == decorations(
                m0,
                tv,
            )[j] by {
                if j == i {
                    assert(seen =~= tv.subrange(0, j));
                }
            }
        }
        i = i + 1;
    }
    proof {
        assert(tv.subrange(0, tv.len() as int) =~= tv);
        assert(candidates_view(out@) =~= decorations(m0, tv));
    }
    out
}

/// Each history row's query paired with its fuzzy score against `query`.
pub fn score_history(history: &Vec<(i64, String)>, query: &str) -> (r: Vec<(Option<i64>, String)>)
    ensures
        scored_view(r@) == scores(history@, query@),
{
    let mut scored: Vec<(Option<i64>, String)> = Vec::new();
    let mut i: usize = 0;
    while i < history.len()
        invariant
            0 <= i <= history@.len(),
            scored@.len() == i,
            forall|j: int|
                0 <= j < i ==> #[trigger] scored@[j] == (
                skim_score(history@[j].1@, query@),
                history@[j].1,
            ),
        decreases history@.len() - i,
    {
        let name = &history[i].1;
        let s = score(name.as_str(), query);
        scored.push((s, name.clone()));
        i = i + 1;
    }
    assert(scored_view(scored@) =~= scores(history@, query@));
    scored
}

/// The candidates for `input`, given the history store's `(frequency, query)`
/// rows, most frequent first. Each candidate takes its cached answer, if any,
/// out of the state's cache.
pub fn get_matches(input: &str, state: &mut State, history: &Vec<(i64, String)>) -> (r: Vec<
    Candidate,
>)
    requires
        old(state).wf(),
    ensures
        final(state).wf(),
        final(state).config == old(state).config,
        match activation(input@, old(state).config.prefix_view()) {
            None => r@.len() == 0 && final(state).responses@ == old(state).responses@,
            Some(q) => {
                &&& candidates_view(r@) == decorations(old(state).responses@, titles_for(q, history@))
                &&& final(state).responses@ == old(state).responses@.remove_keys(
                    titles_for(q, history@).to_set(),
                )
            },
        },
{
    let prefix = state.config.prefix();
    let query = match strip_activation(input, prefix.as_str()) {
        Some(q) => q,
        None => return Vec::new(),
    };
    let mut titles: Vec<String> = Vec::new();
    if !query.as_str().is_empty() {
        titles.push(query.clone());
        let scored = score_history(history, query.as_str());
        let ranked_entries = rank(&scored);
        let ghost ev = entries_view(ranked_entries@);
        let mut j: usize = 0;
        while j < ranked_entries.len()
            invariant
                0 <= j <= ranked_entries@.len(),
                ev == entries_view(ranked_entries@),
                strings_view(titles@) == seq![query@] + ev.subrange(0, j as int).map_values(
                    |e: Entry| e.1,
                ),
            decreases ranked_entries@.len() - j,
        {
            let ghost before = strings_view(titles@);
            assert(ev[j as int].1 == ranked_entries@[j as int].1@);
            titles.push(ranked_entries[j].1.clone());
            assert(strings_view(titles@) =~= before.push(ev[j as int].1));
            assert(ev.subrange(0, j + 1).map_values(|e: Entry| e.1) =~= ev.subrange(
                0,
                j as int,
            ).map_values(|e: Entry| e.1).push(ev[j as int].1));
            assert(strings_view(titles@) =~= seq![query@] + ev.subrange(0, j + 1).map_values(
                |e: Entry| e.1,
            ));
            j = j + 1;
        }
        assert(ev.subrange(0, ev.len() as int) =~= ev);
        assert(strings_view(titles@) =~= titles_for(query@, history@));
    } else {
        assert(strings_view(titles@) =~= titles_for(query@, history@));
    }
    decorate(&mut state.responses, &titles)
}

/// Acts on the service's answer to the confirmed `selection`: `reply` is `None`
/// when the request or its decoding failed. A decoded answer is cached under
/// the selection's title; the result says whether the title is to be appended
/// to the history store, which only a successful answer earns.
pub fn handler(selection: &Candidate, reply: Option<Response>, state: &mut State) -> (record: bool)
    requires
        old(state).wf(),
    ensures
        final(state).wf(),
        final(state).config == old(state).config,
        match reply {
            Some(resp) => {
                &&& final(state).responses@ == old(state).responses@.insert(
                    selection.title@,
                    resp@,
                )
                &&& record == is_success(resp.response_type)
            },
            None => final(state).responses@ == old(state).responses@ && !record,
        },
{
    match reply {
        Some(resp) => {
            let record = resp.response_type.is_success();
            state.responses.put(selection.title.clone(), resp);
            record
        },
        None => false,
    }
}

} // verus!
