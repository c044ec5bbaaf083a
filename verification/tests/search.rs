//! Ranking palette results: nucleo scores, the library orders.

use std::borrow::Cow;

use baton::{
    Action, ArgShape, Availability, Channels, Source, built_in, merge, palette_rank_for_measure,
    palette_results, rank,
};

const LABELS: [&str; 5] = ["Quit", "Command Palette", "Close Palette", "Copy", "Paste"];

/// An empty query is the palette at rest: everything, registry order.
#[test]
fn an_empty_query_lists_everything_in_registry_order() {
    let hits = rank("", &LABELS);
    let order: Vec<usize> = hits.iter().map(|h| h.index).collect();
    assert_eq!(order, [0, 1, 2, 3, 4]);
}

/// Fuzzy means subsequence, case-insensitively, and a better match outranks
/// a looser one.
#[test]
fn fuzzy_matching_ranks_the_tighter_match_first() {
    let hits = rank("pal", &LABELS);
    let found: Vec<usize> = hits.iter().map(|h| h.index).collect();
    assert!(found.contains(&1) && found.contains(&2));
    assert!(!found.contains(&0), "Quit does not contain p-a-l");

    let exactish = rank("Copy", &LABELS);
    assert_eq!(exactish[0].index, 3, "the literal match ranks first");
}

/// Ties keep registry order, so ranking is deterministic run to run.
#[test]
fn equal_scores_keep_registry_order() {
    let hits = rank("p", &["Print", "Print"]);
    let order: Vec<usize> = hits.iter().map(|h| h.index).collect();
    assert_eq!(order, [0, 1]);
}

/// Scores come out best first, and a label that does not match is absent
/// rather than ranked last.
#[test]
fn scores_descend_and_non_matches_are_absent() {
    let hits = rank("copy", &["Paste", "Copy", "Clear Copy History"]);
    assert!(hits.iter().all(|h| h.index != 0), "Paste does not contain c-o-p-y");
    for pair in hits.windows(2) {
        assert!(pair[0].score >= pair[1].score);
    }
    assert!(hits.iter().any(|h| h.index == 1));
}

/// The palette lists what the palette can reach, and nothing key-only.
#[test]
fn the_palette_lists_only_palette_actions() {
    let registry = merge(&[built_in()]);
    let results = palette_results(&registry, "");
    let ids: Vec<&str> = results.iter().map(|r| r.id).collect();
    assert_eq!(ids, ["app.quit", "term.copy", "term.paste", "term.clear"]);
    let labels: Vec<&str> = results.iter().map(|r| r.label).collect();
    assert_eq!(labels, ["Quit", "Copy", "Paste", "Clear Screen"]);
}

/// A terminal action is listed but says it cannot run yet; the rest are
/// ready.
#[test]
fn an_unwired_action_says_why() {
    let registry = merge(&[built_in()]);
    for result in palette_results(&registry, "") {
        if result.id.starts_with("term.") {
            assert_eq!(
                result.availability,
                Availability::Unavailable("Waits for the action-wiring ticket")
            );
        } else {
            assert_eq!(result.availability, Availability::Ready);
        }
    }
}

/// A query narrows the palette through the same ranking.
#[test]
fn a_query_narrows_the_palette() {
    let registry = merge(&[built_in()]);
    let results = palette_results(&registry, "quit");
    assert_eq!(results.first().map(|r| r.id), Some("app.quit"));
    assert!(results.iter().all(|r| r.id != "term.paste"));
}

/// 500 synthetic actions beside the built-in table, in one registry.
fn registry_with_500() -> baton::Registry {
    let actions: Vec<Action> = (0..500)
        .map(|n| Action {
            id: Cow::Owned(format!("synthetic.action{n}")),
            label: Cow::Owned(format!("Synthetic Action {n} For Measure")),
            channels: Channels::palette(),
            arg: ArgShape::NoArgument,
        })
        .collect();
    let synthetic = Source { name: Cow::Borrowed("perf-fixture"), actions: Cow::Owned(actions) };
    merge(&[built_in(), synthetic])
}

/// Open to first result stays under 50 ms with 500 actions: one ranking pass
/// over every label, for an empty query and a narrowing one.
#[test]
fn open_to_first_result_stays_under_50ms_with_500_actions() {
    let registry = registry_with_500();
    let rows = registry.iter();
    let labels: Vec<&str> = rows.iter().map(|(_, action)| action.label.as_ref()).collect();
    assert!(labels.len() >= 500, "the fixture actually registered");

    let _ = palette_rank_for_measure("", &labels);

    let empty_start = std::time::Instant::now();
    let all = palette_rank_for_measure("", &labels);
    let empty_elapsed = empty_start.elapsed();

    let query_start = std::time::Instant::now();
    let narrowed = palette_rank_for_measure("synac37", &labels);
    let query_elapsed = query_start.elapsed();

    println!(
        "palette ranking over {} labels: empty query {:?}, fuzzy query {:?}",
        all.len(),
        empty_elapsed,
        query_elapsed
    );
    assert!(!narrowed.is_empty(), "the fuzzy query matches the fixture");
    assert!(
        empty_elapsed.as_millis() < 50 && query_elapsed.as_millis() < 50,
        "open-to-first-result exceeded the 50 ms floor: empty {empty_elapsed:?}, fuzzy {query_elapsed:?}"
    );
}
