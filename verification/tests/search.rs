use skwd_lens::ranking::{
    at_least, best_and_middle, check_request, matches_of, negative_query, rank_excluding,
    ranking_limit, relevant_results, Candidate,
};
use skwd_lens::search::{
    check_query, command_line_request, default_negative_weight, serve_action, ServeAction,
};
use skwd_lens::semantic_index::{group_keys, Group};
use skwd_lens::{
    write_json_line, BuildEntry, ImageView, Match, SearchRequest, SearchResponse, PROTOCOL_VERSION,
};

fn object(members: &[(&str, serde_json::Value)]) -> serde_json::Value {
    serde_json::Value::Object(
        members.iter().map(|(key, value)| ((*key).to_owned(), value.clone())).collect(),
    )
}

fn request_from(value: &serde_json::Value) -> SearchRequest {
    SearchRequest {
        generation: value["generation"].as_u64().unwrap(),
        query: value["query"].as_str().unwrap().to_owned(),
        negative_query: value["negativeQuery"].as_str().map(str::to_owned),
        negative_weight: value["negativeWeight"]
            .as_f64()
            .map_or_else(default_negative_weight, |weight| (weight as f32).to_bits()),
        top_k: value["topK"].as_u64().unwrap() as usize,
        score_window: None,
        min_score_prominence: None,
        max_results: None,
        min_results: 0,
        embedding_only: value["embeddingOnly"].as_bool().unwrap_or_default(),
    }
}

#[test]
fn search_request_defaults() {
    let request = request_from(&object(&[
        ("generation", serde_json::Value::from(7)),
        ("query", serde_json::Value::from("rainy city")),
        ("topK", serde_json::Value::from(12)),
    ]));
    assert_eq!(f32::from_bits(request.negative_weight), 0.5);
    assert_eq!(request.min_score_prominence, None);
    assert!(!request.embedding_only);
    assert_eq!(request.top_k, 12);
    assert_eq!(PROTOCOL_VERSION, 1);
}

#[test]
fn compact_line_per_record() {
    let mut output = Vec::new();

    let record = object(&[
        ("key", serde_json::Value::from("opaque")),
        ("value", serde_json::Value::from(7)),
    ]);
    write_json_line(&mut output, &serde_json::to_vec(&record).unwrap());

    assert_eq!(
        output,
        br#"{"key":"opaque","value":7}
"#
    );
}

#[test]
fn records_are_appended_line_by_line() {
    let mut output = Vec::new();
    write_json_line(&mut output, b"{}");
    write_json_line(&mut output, b"[]");
    assert_eq!(output, b"{}\n[]\n");
}

#[test]
fn response_variants_exclusive() {
    let matched = SearchResponse::from_matches(
        3,
        vec![Match { rank: 1, key: String::from("one"), score: 0.8_f32.to_bits() }],
        1.5_f64.to_bits(),
        2.5_f64.to_bits(),
    );
    let embedded = SearchResponse::from_embedding(
        4,
        vec![0.25_f32.to_bits(), 0.75_f32.to_bits()],
        3.5_f64.to_bits(),
    );
    let failed = SearchResponse::failed(5, "bad query");

    assert_eq!(matched.matches.len(), 1);
    assert!(matched.embedding.is_none() && matched.error.is_none());
    assert_eq!(embedded.embedding, Some(vec![0.25_f32.to_bits(), 0.75_f32.to_bits()]));
    assert!(embedded.matches.is_empty() && embedded.error.is_none());
    assert_eq!(failed.error.as_deref(), Some("bad query"));
    assert!(failed.matches.is_empty() && failed.embedding.is_none());
    assert_eq!(f64::from_bits(failed.query_ms), 0.0);
}

#[test]
fn full_view_implicit() {
    let entry = |view: ImageView| BuildEntry {
        key: String::from("one"),
        path: String::from("/tmp/one"),
        fingerprint: 1,
        view,
    };
    let full = entry(ImageView::default());
    let left = entry(ImageView::LeftThird);
    assert_eq!(full.view, ImageView::Full);
    assert!(full.view.is_full());
    assert_eq!(left.view, ImageView::LeftThird);
    assert!(!left.view.is_full());
}

fn score_groups(groups: &[Group], embeddings: &[f32], query: &[f32]) -> Vec<u32> {
    groups
        .iter()
        .map(|group| {
            let best = group.items.iter().fold(f32::NEG_INFINITY, |best, item| {
                let start = item * query.len();
                let score: f32 = query
                    .iter()
                    .zip(&embeddings[start..start + query.len()])
                    .map(|(left, right)| left * right)
                    .sum();
                best.max(score)
            });
            best.to_bits()
        })
        .collect()
}

fn named<'a>(groups: &'a [Group], ranked: &[Candidate]) -> Vec<(&'a str, f32)> {
    ranked
        .iter()
        .map(|candidate| (groups[candidate.group].key.as_str(), f32::from_bits(candidate.score)))
        .collect()
}

#[test]
fn max_pools_frames() {
    let keys = vec![String::from("video"), String::from("video"), String::from("still")];
    let groups = group_keys(&keys);
    let scores = score_groups(&groups, &[0.1, 0.0, 0.9, 0.0, 0.8, 0.0], &[1.0, 0.0]);

    let ranked = rank_excluding(&scores, 3, None);
    assert_eq!(named(&groups, &ranked), [("video", 0.9), ("still", 0.8)]);
}

#[test]
fn two_item_library_ranks() {
    let keys = vec![String::from("forest"), String::from("abstract")];
    let groups = group_keys(&keys);
    let scores = score_groups(&groups, &[0.9, 0.1, 0.2, 0.8], &[1.0, 0.0]);

    let ranked = rank_excluding(&scores, 10, None);
    assert_eq!(named(&groups, &ranked), [("forest", 0.9), ("abstract", 0.2)]);
}

#[test]
fn negation_removes_cluster() {
    let keys = (0..6).map(|index| format!("item-{index}")).collect::<Vec<_>>();
    let groups = group_keys(&keys);
    let embeddings = [0.9, 0.02, 0.8, 0.04, 0.7, 0.06, 0.6, 0.82, 0.5, 0.88, 0.4, 0.94];
    let scores = score_groups(&groups, &embeddings, &[1.0, 0.0]);
    let negative = score_groups(&groups, &embeddings, &[0.0, 1.0]);
    let threshold = 0.46_f32.to_bits();

    let ranked = rank_excluding(&scores, 6, Some((&negative, threshold)));

    assert_eq!(
        named(&groups, &ranked).iter().map(|(key, _)| *key).collect::<Vec<_>>(),
        ["item-0", "item-1", "item-2"]
    );
}

#[test]
fn groups_keep_the_order_of_their_keys() {
    let keys: Vec<String> = ["b", "a", "b", "c", "a"].iter().map(|key| (*key).to_owned()).collect();
    let groups: Vec<(String, Vec<usize>)> =
        group_keys(&keys).into_iter().map(|group| (group.key, group.items)).collect();
    assert_eq!(
        groups,
        [
            (String::from("b"), vec![0, 2]),
            (String::from("a"), vec![1, 4]),
            (String::from("c"), vec![3])
        ]
    );
}

#[test]
fn ranking_follows_the_total_order() {
    let scores: Vec<u32> =
        [-0.0, 0.0, f32::NEG_INFINITY, f32::INFINITY, -1.0, 1.0, 0.0].map(f32::to_bits).to_vec();
    let order: Vec<usize> =
        rank_excluding(&scores, 7, None).iter().map(|candidate| candidate.group).collect();
    assert_eq!(order, [3, 5, 1, 6, 0, 4, 2]);
    assert!(rank_excluding(&scores, 0, None).is_empty());
    assert_eq!(rank_excluding(&scores, 2, None).len(), 2);
}

#[test]
fn numbers_compare_as_floats_do() {
    let values = [0.0, -0.0, 1.0, -1.0, f32::INFINITY, f32::NEG_INFINITY, f32::NAN, 1e-40, -f32::NAN];
    for left in values {
        for right in values {
            assert_eq!(
                at_least(left.to_bits(), right.to_bits()),
                left >= right,
                "{left} {right}"
            );
        }
    }
}

/// Shows ranked scores, with the differences that a search takes of them.
fn relevant(
    ranked: &[(&str, f32)],
    score_window: Option<f32>,
    min_score_prominence: Option<f32>,
    min_results: usize,
    max_results: Option<usize>,
) -> usize {
    let candidates: Vec<Candidate> = ranked
        .iter()
        .enumerate()
        .map(|(group, (_, score))| Candidate { group, score: score.to_bits() })
        .collect();
    let scores = best_and_middle(&candidates)
        .map(|(best, middle)| (f32::from_bits(best), f32::from_bits(middle)));
    let cutoff = score_window.and_then(|window| scores.map(|(best, _)| (best - window).to_bits()));
    let prominence = min_score_prominence.and_then(|minimum| {
        scores.map(|(best, middle)| ((best - middle).to_bits(), minimum.to_bits()))
    });
    let shown = relevant_results(candidates.clone(), cutoff, prominence, min_results, max_results);
    assert_eq!(shown[..], candidates[..shown.len()]);
    shown.len()
}

#[test]
fn relevance_window_drops_tail() {
    let ranked = [("one", 0.150), ("two", 0.140), ("three", 0.130), ("tail", 0.080)];
    assert_eq!(relevant(&ranked, Some(0.025), None, 0, Some(256)), 3);
    assert_eq!(relevant(&ranked, Some(0.005), None, 2, Some(256)), 2);
    assert_eq!(relevant(&ranked, Some(1.0), None, 0, Some(2)), 2);
    assert_eq!(relevant(&ranked, None, None, 0, None), 4);
}

#[test]
fn flat_scores_no_fillers() {
    let ranked = [("one", 0.063), ("two", 0.061), ("three", 0.060), ("four", 0.059)];

    assert_eq!(relevant(&ranked, Some(0.022), Some(0.015), 0, None), 0);
    assert_eq!(relevant(&ranked, Some(0.022), Some(0.0), 0, None), 4);
    assert_eq!(relevant(&ranked, Some(0.022), Some(0.015), 1, None), 1);
}

#[test]
fn tiny_library_skips_prominence() {
    let ranked = [("one", 0.063), ("two", 0.061)];

    assert_eq!(relevant(&ranked, Some(0.022), Some(0.015), 0, None), 2);
}

#[test]
fn nothing_ranked_shows_nothing() {
    assert_eq!(relevant(&[], Some(0.1), Some(0.1), 3, Some(3)), 0);
}

#[test]
fn requests_are_checked_in_order() {
    let request = || command_line_request(String::from("forest"), 8);
    let fault = |request: &SearchRequest| check_request(request).err().map(|failure| failure.chain());
    assert_eq!(fault(&request()), None);
    assert_eq!(
        fault(&SearchRequest { query: String::from(" \t"), top_k: 0, ..request() }).as_deref(),
        Some("query must not be empty")
    );
    assert_eq!(
        fault(&SearchRequest { top_k: 0, ..request() }).as_deref(),
        Some("top-k must be positive")
    );
    for weight in [f32::NAN, -1.0, f32::INFINITY] {
        assert_eq!(
            fault(&SearchRequest { negative_weight: weight.to_bits(), ..request() }).as_deref(),
            Some("invalid negative weight")
        );
    }
    assert_eq!(fault(&SearchRequest { negative_weight: (-0.0_f32).to_bits(), ..request() }), None);
    assert_eq!(
        fault(&SearchRequest { score_window: Some((-0.1_f32).to_bits()), ..request() }).as_deref(),
        Some("invalid score window")
    );
    assert_eq!(
        fault(&SearchRequest { min_score_prominence: Some(f32::NAN.to_bits()), ..request() })
            .as_deref(),
        Some("invalid minimum score prominence")
    );
    assert_eq!(
        fault(&SearchRequest { max_results: Some(0), ..request() }).as_deref(),
        Some("invalid maximum result count")
    );
    assert_eq!(ranking_limit(&request(), 3), 3);
    assert_eq!(ranking_limit(&request(), 30), 8);
}

#[test]
fn blank_negative_queries_do_not_count() {
    let mut request = command_line_request(String::from("forest"), 8);
    assert_eq!(negative_query(&request), None);
    request.negative_query = Some(String::from("  "));
    assert_eq!(negative_query(&request), None);
    request.negative_query = Some(String::from("rain"));
    assert_eq!(negative_query(&request).as_deref(), Some("rain"));
}

#[test]
fn matches_are_numbered_from_one() {
    let groups = group_keys(&vec![String::from("a"), String::from("b")]);
    let ranked = vec![Candidate { group: 1, score: 9 }, Candidate { group: 0, score: 8 }];
    assert_eq!(
        matches_of(&ranked, &groups),
        [
            Match { rank: 1, key: String::from("b"), score: 9 },
            Match { rank: 2, key: String::from("a"), score: 8 }
        ]
    );
}

#[test]
fn served_lines_are_told_apart() {
    let search = command_line_request(String::from("forest"), 8);
    let embed = SearchRequest { embedding_only: true, ..search.clone() };
    assert!(matches!(serve_action("  ", &Err(String::from("x"))), ServeAction::Skip));
    assert!(matches!(serve_action("{", &Ok(search)), ServeAction::Search));
    assert!(matches!(serve_action("{", &Ok(embed)), ServeAction::Embed));
    match serve_action("{", &Err(String::from("bad"))) {
        ServeAction::Reject(response) => assert_eq!(response, SearchResponse::failed(0, "bad")),
        _ => panic!("the line is no request"),
    }
    assert_eq!(check_query(" ").unwrap_err().chain(), "query must not be empty");
    assert!(check_query("a").is_ok());
}
