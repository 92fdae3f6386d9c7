use time_logger::ranker::{levenshtein_distancia, order_vector, rank_candidates, RankedSelection};

fn labels(items: &[&str]) -> Vec<String> {
    items.iter().map(|s| s.to_string()).collect()
}

#[test]
fn distance_of_known_pairs() {
    assert_eq!(levenshtein_distancia("kitten", "sitting"), 3);
    assert_eq!(levenshtein_distancia("flaw", "lawn"), 2);
    assert_eq!(levenshtein_distancia("saturday", "sunday"), 3);
    assert_eq!(levenshtein_distancia("al", "alpha"), 3);
    assert_eq!(levenshtein_distancia("al", "album"), 3);
}

#[test]
fn distance_to_and_from_the_empty_text() {
    assert_eq!(levenshtein_distancia("", ""), 0);
    assert_eq!(levenshtein_distancia("", "abc"), 3);
    assert_eq!(levenshtein_distancia("abc", ""), 3);
}

#[test]
fn distance_of_a_text_to_itself_is_zero() {
    for a in ["", "a", "Alpha", "two words", "añejo ☕"] {
        assert_eq!(levenshtein_distancia(a, a), 0);
    }
}

#[test]
fn distance_counts_scalar_values_not_bytes() {
    assert_eq!(levenshtein_distancia("año", "ano"), 1);
    assert_eq!(levenshtein_distancia("☕", ""), 1);
    assert_eq!(levenshtein_distancia("日本語", "日本"), 1);
}

#[test]
fn distance_is_case_sensitive_by_itself() {
    assert_eq!(levenshtein_distancia("ALPHA", "alpha"), 5);
}

#[test]
fn distance_of_single_edits() {
    assert_eq!(levenshtein_distancia("cat", "cut"), 1);
    assert_eq!(levenshtein_distancia("cat", "cart"), 1);
    assert_eq!(levenshtein_distancia("cart", "cat"), 1);
    assert_eq!(levenshtein_distancia("abc", "xyz"), 3);
    assert_eq!(levenshtein_distancia("a", "bcdef"), 5);
}

#[test]
fn ranking_one_candidate_under_the_empty_query() {
    for a in ["", "a", "Alpha", "two words"] {
        assert_eq!(order_vector("", &labels(&[a])), labels(&[a]));
    }
}

#[test]
fn ranking_nothing_gives_nothing() {
    assert_eq!(order_vector("abc", &Vec::new()), Vec::<String>::new());
}

#[test]
fn ranking_orders_by_ascending_distance() {
    // Distances to "alp": 4, 2, 0, 1.
    let v = labels(&["gamma", "alpha", "alp", "alps"]);
    assert_eq!(order_vector("alp", &v), labels(&["alp", "alps", "alpha", "gamma"]));
}

#[test]
fn ranking_compares_in_lower_case() {
    let v = labels(&["beta", "alpha"]);
    assert_eq!(order_vector("ALPHA", &v), labels(&["alpha", "beta"]));
    let w = labels(&["beta", "ALPHA"]);
    assert_eq!(order_vector("alpha", &w), labels(&["ALPHA", "beta"]));
}

#[test]
fn ranking_keeps_the_candidates_as_given() {
    let v = labels(&["Beta.txt", "ALPHA.txt"]);
    assert_eq!(order_vector("alpha", &v), labels(&["ALPHA.txt", "Beta.txt"]));
}

#[test]
fn ranking_is_a_permutation() {
    let v = labels(&["delta", "alpha", "alpha", "", "beta", "Al", "gamma"]);
    for q in ["", "al", "alpha", "zzz", "DELTA"] {
        let mut out = order_vector(q, &v);
        let mut given = v.clone();
        out.sort();
        given.sort();
        assert_eq!(out, given);
    }
}

#[test]
fn ranking_keeps_ties_in_the_order_given() {
    let v = labels(&["Alpha", "Album"]);
    assert_eq!(order_vector("al", &v), labels(&["Alpha", "Album"]));
    let w = labels(&["Album", "Alpha"]);
    assert_eq!(order_vector("al", &w), labels(&["Album", "Alpha"]));
    let x = labels(&["bb", "aa", "cc", "a", "dd"]);
    assert_eq!(order_vector("", &x), labels(&["a", "bb", "aa", "cc", "dd"]));
}

#[test]
fn ranking_places_a_tie_behind_the_earlier_equal_score() {
    // Distances to "ab": 2, 1, 2, 1, 0.
    let v = labels(&["xy", "ax", "zw", "xb", "ab"]);
    assert_eq!(order_vector("ab", &v), labels(&["ab", "ax", "xb", "xy", "zw"]));
}

#[test]
fn ranking_twice_gives_the_same() {
    let v = labels(&["delta", "alpha", "Album", "beta", "Al"]);
    for q in ["", "al", "Alb", "beta"] {
        assert_eq!(order_vector(q, &v), order_vector(q, &v));
    }
}

#[test]
fn ranking_a_ranking_changes_nothing() {
    let v = labels(&["delta", "alpha", "Album", "beta", "Al", "alpha"]);
    for q in ["", "al", "Alb", "beta"] {
        let once = order_vector(q, &v);
        assert_eq!(order_vector(q, &once), once);
    }
}

#[test]
fn ranking_under_a_selector_suffix_keeps_the_tie() {
    let v = labels(&["Alpha", "Album"]);
    let ranked = order_vector("Al\\1", &v);
    assert_eq!(ranked, labels(&["Alpha", "Album"]));
    assert_eq!(ranked[1], "Album");
}

#[test]
fn ranked_candidates_carry_their_scores() {
    let v = labels(&["gamma", "alpha", "alp"]);
    let r = rank_candidates("ALP", &v);
    assert_eq!(r.len(), 3);
    assert_eq!(r.labels(), labels(&["alp", "alpha", "gamma"]));
    assert_eq!(r.score(0), Some(0));
    assert_eq!(r.score(1), Some(2));
    assert_eq!(r.score(2), Some(4));
    assert_eq!(r.score(3), None);
    assert_eq!(r.label(1), Some(&"alpha".to_string()));
    assert_eq!(r.label(3), None);
}

#[test]
fn selection_inserts_before_the_first_greater_score() {
    let mut r = RankedSelection::new();
    assert_eq!(r.len(), 0);
    assert_eq!(r.label(0), None);
    r.insert("c".to_string(), 3);
    r.insert("a".to_string(), 1);
    r.insert("c2".to_string(), 3);
    r.insert("b".to_string(), 2);
    r.insert("a2".to_string(), 1);
    r.insert("z".to_string(), 0);
    assert_eq!(r.labels(), labels(&["z", "a", "a2", "b", "c", "c2"]));
    assert_eq!(r.score(0), Some(0));
    assert_eq!(r.score(2), Some(1));
    assert_eq!(r.score(5), Some(3));
}
