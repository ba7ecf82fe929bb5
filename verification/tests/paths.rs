use edit_prediction_context::paths::bytes_less;
use edit_prediction_context::paths::components;
use edit_prediction_context::paths::distance_between_paths;
use edit_prediction_context::paths::insert_match;
use edit_prediction_context::paths::match_fixed_path_set;
use edit_prediction_context::paths::match_path_sets;
use edit_prediction_context::paths::path_fits;
use edit_prediction_context::paths::query_fits;
use edit_prediction_context::paths::query_for;
use edit_prediction_context::paths::with_slashes;
use edit_prediction_context::paths::PathMatch;
use edit_prediction_context::paths::PathMatchCandidate;
use edit_prediction_context::paths::PathMatchCandidateSet;
use std::cmp::Ordering;

fn candidates(paths: &[&str]) -> Vec<PathMatchCandidate> {
    paths
        .iter()
        .map(|path| PathMatchCandidate {
            is_dir: path.ends_with("/"),
            path: path.to_string(),
        })
        .collect()
}

fn a_match(score: u32, worktree_id: usize, distance: usize, path: &str) -> PathMatch {
    PathMatch {
        score,
        positions: Vec::new(),
        worktree_id,
        path: path.to_string(),
        path_prefix: String::new(),
        is_dir: false,
        distance_to_relative_ancestor: distance,
    }
}

fn paths_of(matches: &[PathMatch]) -> Vec<&str> {
    matches.iter().map(|found| found.path.as_str()).collect()
}

#[test]
fn test_distance_between_paths_empty() {
    distance_between_paths("", "");
}

#[test]
fn distance_counts_the_steps_between_paths() {
    assert_eq!(distance_between_paths("", ""), 1);
    assert_eq!(distance_between_paths("a/b", "a/b"), 1);
    assert_eq!(distance_between_paths("a/b/c", "a/x/y/z"), 4);
    assert_eq!(distance_between_paths("a/b/c", "a/b"), 1);
    assert_eq!(distance_between_paths("a/b/c/d", "a/b"), 2);
    assert_eq!(distance_between_paths("a/b", "a/b/c/d"), 2);
    assert_eq!(distance_between_paths("x", "y"), 1);
    assert_eq!(distance_between_paths("x/1/2", "y"), 3);
    assert_eq!(distance_between_paths("a", ""), 1);
    assert_eq!(distance_between_paths("src/main.rs", "src/lib.rs"), 1);
    assert_eq!(distance_between_paths("docs/main.md", "src/lib.rs"), 3);
}

#[test]
fn components_are_the_parts_between_slashes() {
    assert_eq!(
        components(b"a/bc/d"),
        vec![b"a".to_vec(), b"bc".to_vec(), b"d".to_vec()]
    );
    assert_eq!(components(b"/a//b/"), vec![b"a".to_vec(), b"b".to_vec()]);
    assert_eq!(components(b""), Vec::<Vec<u8>>::new());
    assert_eq!(components(b"///"), Vec::<Vec<u8>>::new());
}

#[test]
fn bytes_less_is_the_order_of_strings() {
    for (a, b) in [
        ("", ""),
        ("", "a"),
        ("a", ""),
        ("a", "b"),
        ("ab", "a"),
        ("a", "ab"),
        ("abc", "abd"),
        ("b", "abc"),
        ("é", "z"),
    ] {
        assert_eq!(bytes_less(a.as_bytes(), b.as_bytes()), a < b);
    }
}

#[test]
fn matches_rank_by_score_worktree_distance_and_path() {
    let base = a_match(10, 1, 5, "m");
    assert_eq!(base.cmp(&a_match(10, 1, 5, "m")), Ordering::Equal);
    assert!(base.eq(&a_match(10, 1, 5, "m")));
    assert_eq!(base.cmp(&a_match(11, 0, 9, "a")), Ordering::Less);
    assert_eq!(base.cmp(&a_match(9, 2, 0, "z")), Ordering::Greater);
    assert_eq!(base.cmp(&a_match(10, 2, 9, "a")), Ordering::Less);
    assert_eq!(base.cmp(&a_match(10, 0, 0, "z")), Ordering::Greater);
    // the nearer match ranks above the farther one
    assert_eq!(base.cmp(&a_match(10, 1, 4, "a")), Ordering::Less);
    assert_eq!(base.cmp(&a_match(10, 1, 6, "z")), Ordering::Greater);
    assert_eq!(base.cmp(&a_match(10, 1, 5, "n")), Ordering::Less);
    assert_eq!(base.cmp(&a_match(10, 1, 5, "l")), Ordering::Greater);
    assert!(base.ranks_below(&a_match(10, 1, 5, "n")));
    assert!(!base.ranks_below(&a_match(10, 1, 5, "m")));
    assert!(!base.eq(&a_match(10, 1, 5, "n")));
}

#[test]
fn insert_match_keeps_the_best_first() {
    let mut matches = Vec::new();
    for (score, path) in [(5, "e"), (9, "a"), (7, "c"), (9, "b"), (1, "z"), (7, "d")] {
        insert_match(&mut matches, a_match(score, 0, 0, path), 4);
    }
    // at equal scores the greater path ranks above
    assert_eq!(paths_of(&matches), vec!["b", "a", "d", "c"]);
    insert_match(&mut matches, a_match(9, 0, 0, "b"), 4);
    assert_eq!(paths_of(&matches), vec!["b", "b", "a", "d"]);
    let mut none = Vec::new();
    insert_match(&mut none, a_match(9, 0, 0, "b"), 0);
    assert!(none.is_empty());
}

#[test]
fn fixed_path_set_gives_the_matches_best_first() {
    let set = candidates(&["src/main.rs", "src/lib.rs", "README.md", "docs/main.md", "main"]);
    let results = match_fixed_path_set(set, 7, "main", false, 10);
    assert_eq!(results.len(), 3);
    let mut found = paths_of(&results);
    found.sort();
    assert_eq!(found, vec!["docs/main.md", "main", "src/main.rs"]);
    assert_eq!(results[0].path, "main");
    for pair in results.windows(2) {
        assert_ne!(pair[0].cmp(&pair[1]), Ordering::Less);
    }
    for result in &results {
        assert_eq!(result.worktree_id, 7);
        assert_eq!(result.path_prefix, "");
        assert_eq!(result.distance_to_relative_ancestor, usize::MAX);
        assert!(!result.is_dir);
        assert!(result.score > 0);
        let matched: String = result
            .positions
            .iter()
            .map(|&place| result.path.chars().nth(place).unwrap())
            .collect();
        assert_eq!(matched, "main");
    }
}

#[test]
fn fixed_path_set_keeps_at_most_max_results() {
    let set = candidates(&["src/main.rs", "docs/main.md", "main"]);
    let all = match_fixed_path_set(set.clone(), 0, "main", false, 10);
    let best = match_fixed_path_set(set.clone(), 0, "main", false, 2);
    assert_eq!(paths_of(&best), paths_of(&all[..2]));
    assert!(match_fixed_path_set(set.clone(), 0, "main", false, 0).is_empty());
    assert!(match_fixed_path_set(set, 0, "xyz", false, 10).is_empty());
    assert!(match_fixed_path_set(Vec::new(), 0, "main", false, 10).is_empty());
}

#[test]
fn smart_case_respects_upper_case_in_the_query() {
    let set = candidates(&["src/main.rs", "src/Main.rs"]);
    let smart = match_fixed_path_set(set.clone(), 0, "Main", true, 10);
    assert_eq!(paths_of(&smart), vec!["src/Main.rs"]);
    let any = match_fixed_path_set(set.clone(), 0, "Main", false, 10);
    assert_eq!(any.len(), 2);
    let lower = match_fixed_path_set(set, 0, "main", true, 10);
    assert_eq!(lower.len(), 2);
}

#[test]
fn an_empty_query_matches_everything() {
    let set = candidates(&["b", "a", "dir/"]);
    let results = match_fixed_path_set(set, 0, "", false, 10);
    assert_eq!(results.len(), 3);
    assert!(results.iter().all(|result| result.score == 0 && result.positions.is_empty()));
    // at equal scores the greater path ranks above
    assert_eq!(paths_of(&results), vec!["dir/", "b", "a"]);
    assert!(results[0].is_dir);
}

#[test]
fn path_sets_carry_their_worktree_and_distance() {
    let sets = vec![
        PathMatchCandidateSet {
            id: 1,
            root_is_file: false,
            prefix: "one".to_string(),
            is_windows: false,
            candidates: candidates(&["src/main.rs", "src/lib.rs"]),
        },
        PathMatchCandidateSet {
            id: 2,
            root_is_file: false,
            prefix: "two".to_string(),
            is_windows: false,
            candidates: candidates(&["docs/main.md"]),
        },
    ];
    let results = match_path_sets(&sets, "main", Some("src/lib.rs"), false, 10);
    assert_eq!(results.len(), 2);
    for result in &results {
        match result.path.as_str() {
            "src/main.rs" => {
                assert_eq!(result.worktree_id, 1);
                assert_eq!(result.path_prefix, "one");
                assert_eq!(result.distance_to_relative_ancestor, 1);
            }
            "docs/main.md" => {
                assert_eq!(result.worktree_id, 2);
                assert_eq!(result.path_prefix, "two");
                assert_eq!(result.distance_to_relative_ancestor, 3);
            }
            other => panic!("Unexpected match {other}"),
        }
    }
    assert_ne!(results[0].cmp(&results[1]), Ordering::Less);
    assert_eq!(sets[0].len(), 2);
    assert!(!sets[1].is_empty());
    let without = match_path_sets(&sets, "main", None, false, 1);
    assert_eq!(without.len(), 1);
    assert_eq!(without[0].distance_to_relative_ancestor, usize::MAX);
    assert!(match_path_sets(&Vec::new(), "main", None, false, 10).is_empty());
}

#[test]
fn queries_for_windows_paths_take_backslashes() {
    assert_eq!(with_slashes("src\\main\\x"), "src/main/x");
    assert_eq!(with_slashes("plain"), "plain");
    assert_eq!(with_slashes(""), "");
    let set = |is_windows: bool| {
        vec![PathMatchCandidateSet {
            id: 1,
            root_is_file: false,
            prefix: String::new(),
            is_windows,
            candidates: candidates(&["src/main.rs"]),
        }]
    };
    assert_eq!(match_path_sets(&set(true), "src\\main", None, false, 10).len(), 1);
    assert_eq!(match_path_sets(&set(false), "src\\main", None, false, 10).len(), 0);
}

#[test]
fn queries_fit_by_the_weight_of_their_words() {
    assert!(query_fits(""));
    assert!(query_fits("src main"));
    assert!(query_fits(&"a".repeat(2_520)));
    assert!(!query_fits(&"a".repeat(2_521)));
    // many words of a weight that fits
    let word = "a".repeat(2_520);
    assert!(query_fits(&vec![word.as_str(); 40].join(" ")));
    // an escaped space stays inside its word, and a backslash weighs double
    assert!(!query_fits(&format!("{}\\ {}", "a".repeat(1_300), "b".repeat(1_300))));
    assert!(query_fits(&format!("{} {}", "a".repeat(1_300), "b".repeat(1_300))));
    assert!(query_fits(&"\\".repeat(1_260)));
    assert!(!query_fits(&"\\".repeat(1_261)));
    // 65,535 breaks part 65,536 words
    assert!(query_fits(&" ".repeat(65_535)));
    assert!(!query_fits(&" ".repeat(65_536)));
    assert!(query_fits(&"a ".repeat(65_535)));
    assert!(!query_fits(&"a ".repeat(65_537)));
}

#[test]
fn a_word_of_the_greatest_weight_is_matched() {
    let word = "a".repeat(2_520);
    let results = match_fixed_path_set(candidates(&[word.as_str()]), 0, &word, false, 10);
    assert_eq!(results.len(), 1);
    // 16 + 2 * 10 for the first character, 16 + 10 for each of the others
    assert_eq!(results[0].score, 36 + 26 * 2_519);
    assert_eq!(results[0].positions.len(), 2_520);
}

#[test]
fn paths_fit_by_their_bytes() {
    assert!(path_fits(""));
    assert!(path_fits("src/main.rs"));
    assert!(path_fits(&"é".repeat(100_000)));
}

#[test]
fn the_query_for_windows_paths_is_the_one_that_must_fit() {
    let windows = vec![PathMatchCandidateSet {
        id: 1,
        root_is_file: false,
        prefix: String::new(),
        is_windows: true,
        candidates: candidates(&["src/main.rs"]),
    }];
    assert_eq!(query_for(&windows, "src\\main"), "src/main");
    assert_eq!(query_for(&Vec::new(), "src\\main"), "src\\main");
    // as it is written the query is one heavy word; with slashes each part fits
    let escaped = format!("{}\\ {}", "a".repeat(1_300), "b".repeat(1_300));
    assert!(!query_fits(&escaped));
    assert!(query_fits(&query_for(&windows, &escaped)));
}
