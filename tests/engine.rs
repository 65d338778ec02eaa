use ha_assist::cache::ResponseCache;
use ha_assist::engine::{
    decorate, get_matches, handler, score_history, Candidate, Config, State,
};
use ha_assist::ranking::rank;
use ha_assist::response::{Response, ResponseType};
use ha_assist::text::strip_activation;

fn config(prefix: Option<&str>) -> Config {
    Config {
        prefix: prefix.map(|p| p.to_string()),
        ha_language: None,
        ha_url: "http://localhost:8123/api/conversation/process".to_string(),
        ha_token: "SECRET-REDACTED".to_string(),
    }
}

fn state() -> State {
    State::new(config(Some(":ha")))
}

fn rows(items: &[(i64, &str)]) -> Vec<(i64, String)> {
    items.iter().map(|(n, q)| (*n, q.to_string())).collect()
}

fn candidate(title: &str) -> Candidate {
    Candidate { title: title.to_string(), description: None, icon: None }
}

#[test]
fn end_to_end_confirm_then_redisplay() {
    let mut st = state();
    let first = get_matches(":ha turn on lights", &mut st, &Vec::new());
    assert_eq!(first.len(), 1);
    assert_eq!(first[0].title, "turn on lights");
    assert_eq!(first[0].description, None);
    assert_eq!(first[0].icon, None);

    let reply = Response::new(ResponseType::ActionDone, "Done".to_string());
    let record = handler(&first[0], Some(reply), &mut st);
    assert!(record);

    // Without the history row the redisplay shows the answer once.
    let second = get_matches(":ha turn on lights", &mut st, &Vec::new());
    assert_eq!(second.len(), 1);
    assert_eq!(second[0].title, "turn on lights");
    assert_eq!(second[0].description.as_deref(), Some("Done"));
    assert_eq!(second[0].icon.as_deref(), Some("emblem-success"));

    let third = get_matches(":ha turn on lights", &mut st, &Vec::new());
    assert_eq!(third.len(), 1);
    assert_eq!(third[0].title, "turn on lights");
    assert_eq!(third[0].description, None);
    assert_eq!(third[0].icon, None);
}

#[test]
fn end_to_end_with_recorded_history_row() {
    let mut st = state();
    let first = get_matches(":ha turn on lights", &mut st, &Vec::new());
    let reply = Response::new(ResponseType::ActionDone, "Done".to_string());
    assert!(handler(&first[0], Some(reply), &mut st));
    let history = rows(&[(1, "turn on lights")]);

    let second = get_matches(":ha turn on lights", &mut st, &history);
    assert_eq!(second.len(), 2);
    assert_eq!(second[0].title, "turn on lights");
    assert_eq!(second[0].description.as_deref(), Some("Done"));
    assert_eq!(second[0].icon.as_deref(), Some("emblem-success"));
    assert_eq!(second[1].title, "turn on lights");
    assert_eq!(second[1].description, None);

    let third = get_matches(":ha turn on lights", &mut st, &history);
    assert_eq!(third.len(), 2);
    assert!(third.iter().all(|c| c.description.is_none() && c.icon.is_none()));
}

#[test]
fn empty_query_gives_nothing() {
    let mut st = state();
    let history = rows(&[(3, "turn on lights"), (1, "open garage")]);
    assert!(get_matches(":ha ", &mut st, &history).is_empty());
    assert!(get_matches(":ha", &mut st, &history).is_empty());
}

#[test]
fn input_without_prefix_gives_nothing() {
    let mut st = state();
    let history = rows(&[(3, "turn on lights")]);
    assert!(get_matches("turn on lights", &mut st, &history).is_empty());
    assert!(get_matches(" :ha turn", &mut st, &history).is_empty());
}

#[test]
fn query_is_trimmed_after_prefix() {
    let mut st = state();
    let out = get_matches(":ha   turn on  ", &mut st, &Vec::new());
    assert_eq!(out.len(), 1);
    assert_eq!(out[0].title, "turn on");
    assert_eq!(strip_activation(":ha\t x y \n", ":ha"), Some("x y".to_string()));
    assert_eq!(strip_activation("ha x", ":ha"), None);
}

#[test]
fn configured_prefix_and_defaults() {
    let mut st = State::new(config(Some("!")));
    let out = get_matches("!lights", &mut st, &Vec::new());
    assert_eq!(out.len(), 1);
    assert_eq!(out[0].title, "lights");
    assert!(get_matches(":ha lights", &mut st, &Vec::new()).is_empty());

    let c = config(None);
    assert_eq!(c.prefix(), ":ha");
    assert_eq!(c.language(), "en");
    let mut d = config(None);
    d.ha_language = Some("de".to_string());
    assert_eq!(d.language(), "de");
}

#[test]
fn exact_candidate_first_then_matches_by_score() {
    let mut st = state();
    let history = rows(&[(5, "turn off kitchen"), (2, "turn on lights"), (1, "weather today")]);
    let out = get_matches(":ha lights", &mut st, &history);
    assert_eq!(out[0].title, "lights");
    let titles: Vec<&str> = out.iter().map(|c| c.title.as_str()).collect();
    assert!(titles.contains(&"turn on lights"));
    assert!(!titles.contains(&"weather today"));
    let scores: Vec<i64> = out[1..]
        .iter()
        .map(|c| score_history(&rows(&[(1, &c.title)]), "lights")[0].0.unwrap())
        .collect();
    for w in scores.windows(2) {
        assert!(w[0] >= w[1]);
    }
    assert!(out.len() <= 1 + history.len());
}

#[test]
fn rank_filters_and_sorts_stably() {
    let scored: Vec<(Option<i64>, String)> = vec![
        (Some(5), "a".to_string()),
        (None, "b".to_string()),
        (Some(0), "c".to_string()),
        (Some(9), "d".to_string()),
        (Some(5), "e".to_string()),
        (Some(-1), "f".to_string()),
        (Some(7), "g".to_string()),
    ];
    let r = rank(&scored);
    assert_eq!(
        r,
        vec![
            (9, "d".to_string()),
            (7, "g".to_string()),
            (5, "a".to_string()),
            (5, "e".to_string()),
        ]
    );
    assert!(rank(&Vec::new()).is_empty());
}

#[test]
fn score_is_deterministic_and_smart_case() {
    let history = rows(&[(2, "turn on lights"), (1, "Turn On"), (1, "open garage")]);
    let a = score_history(&history, "tol");
    assert!(a[0].0.unwrap() > 0);
    assert_eq!(a[0].1, "turn on lights");
    assert_eq!(a, score_history(&history, "tol"));
    assert_eq!(a[2].0, None);
    assert!(score_history(&history, "").iter().all(|e| e.0 == Some(0)));
    let lower = score_history(&history, "turn");
    assert!(lower[0].0.is_some() && lower[1].0.is_some());
    let upper = score_history(&history, "Turn");
    assert_eq!(upper[0].0, None);
    assert!(upper[1].0.is_some());
}

#[test]
fn take_is_destructive() {
    let mut cache = ResponseCache::new();
    cache.put("q".to_string(), Response::new(ResponseType::QueryAnswer, "42".to_string()));
    let first = cache.take(&"q".to_string()).unwrap();
    assert_eq!(first.response_type, ResponseType::QueryAnswer);
    assert_eq!(first.speech.plain.speech, "42");
    assert!(cache.take(&"q".to_string()).is_none());
    assert!(cache.take(&"other".to_string()).is_none());
}

#[test]
fn put_overwrites() {
    let mut cache = ResponseCache::new();
    cache.put("k".to_string(), Response::new(ResponseType::ActionDone, "one".to_string()));
    cache.put("k".to_string(), Response::new(ResponseType::Error, "two".to_string()));
    cache.put("j".to_string(), Response::new(ResponseType::ActionDone, "three".to_string()));
    let got = cache.take(&"k".to_string()).unwrap();
    assert_eq!(got.response_type, ResponseType::Error);
    assert_eq!(got.speech.plain.speech, "two");
    assert!(cache.take(&"k".to_string()).is_none());
    assert_eq!(cache.take(&"j".to_string()).unwrap().speech.plain.speech, "three");
}

#[test]
fn error_reply_is_cached_not_recorded() {
    let mut st = state();
    let reply = Response::new(ResponseType::Error, "Sorry".to_string());
    assert!(!handler(&candidate("open door"), Some(reply), &mut st));
    let out = get_matches(":ha open door", &mut st, &Vec::new());
    assert_eq!(out[0].description.as_deref(), Some("Sorry"));
    assert_eq!(out[0].icon.as_deref(), Some("emblem-error"));
}

#[test]
fn answers_are_recorded() {
    let mut st = state();
    let reply = Response::new(ResponseType::QueryAnswer, "It is 20 degrees".to_string());
    assert!(handler(&candidate("temperature"), Some(reply), &mut st));
    let out = get_matches(":ha temperature", &mut st, &Vec::new());
    assert_eq!(out[0].icon.as_deref(), Some("emblem-success"));
    assert_eq!(out[0].description.as_deref(), Some("It is 20 degrees"));
}

#[test]
fn failed_request_changes_nothing() {
    let mut st = state();
    assert!(!handler(&candidate("lights"), None, &mut st));
    let out = get_matches(":ha lights", &mut st, &Vec::new());
    assert_eq!(out[0].description, None);
    assert_eq!(out[0].icon, None);
}

#[test]
fn decorate_takes_each_key_once() {
    let mut cache = ResponseCache::new();
    cache.put("a".to_string(), Response::new(ResponseType::ActionDone, "ok".to_string()));
    let titles = vec!["a".to_string(), "b".to_string(), "a".to_string()];
    let out = decorate(&mut cache, &titles);
    assert_eq!(out.len(), 3);
    assert_eq!(out[0].description.as_deref(), Some("ok"));
    assert_eq!(out[1].description, None);
    assert_eq!(out[2].description, None);
    assert!(cache.take(&"a".to_string()).is_none());
}
