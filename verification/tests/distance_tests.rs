use logmine_rs::pattern::Pattern;
use logmine_rs::pattern::PatternElement;
use logmine_rs::ratio::Ratio;
use logmine_rs::scorer::Scorer;
use logmine_rs::scoring::distance;

fn pat(tokens: &[&str]) -> Pattern {
    let mut items: Vec<PatternElement> = Vec::new();
    for t in tokens {
        items.push(PatternElement::Text((*t).to_string()));
    }
    Pattern::new(items)
}

fn fields(tokens: &[&str]) -> Vec<String> {
    tokens.iter().map(|t| (*t).to_string()).collect()
}

#[test]
fn ratio_comparisons_cross_multiply() {
    assert!(Ratio::new(1, 2).le(&Ratio::new(1, 2)));
    assert!(Ratio::new(1, 4).le(&Ratio::new(1, 2)));
    assert!(!Ratio::new(2, 3).le(&Ratio::new(1, 2)));
    assert!(Ratio::new(0, 1).le(&Ratio::new(0, 7)));
    assert!(Ratio::new(3, 6).le(&Ratio::new(1, 2)));
}

#[test]
fn distance_counts_matching_positions() {
    // One of two positions matches and no early exit fires at threshold 0.
    let r = distance(&pat(&["a", "b"]), &pat(&["a", "c"]), &Ratio::new(0, 1));
    assert_eq!((r.num, r.den), (1, 2));
}

#[test]
fn distance_of_identical_patterns_is_zero_without_early_exit() {
    let r = distance(
        &pat(&["x", "y", "z"]),
        &pat(&["x", "y", "z"]),
        &Ratio::new(0, 1),
    );
    assert_eq!((r.num, r.den), (0, 3));
}

#[test]
fn distance_exits_early_once_below_the_threshold() {
    // After three of four matches the running distance 1/4 is already below
    // the threshold 1/2, so the scan stops there: the returned value is the
    // running distance, not the full score 0.
    let p = pat(&["x", "y", "z", "w"]);
    let q = pat(&["x", "y", "z", "w"]);
    let r = distance(&p, &q, &Ratio::new(1, 2));
    assert_eq!((r.num, r.den), (1, 4));
    assert!(r.le(&Ratio::new(1, 2)));
}

#[test]
fn distance_of_empty_patterns_is_zero() {
    let r = distance(&pat(&[]), &pat(&[]), &Ratio::new(1, 2));
    assert_eq!((r.num, r.den), (0, 1));
}

#[test]
fn distance_of_empty_against_nonempty_is_one() {
    let r = distance(&pat(&[]), &pat(&["a", "b", "c"]), &Ratio::new(0, 1));
    assert_eq!((r.num, r.den), (3, 3));
}

#[test]
fn trailing_tokens_count_against_similarity() {
    // Both positions of the shorter side match, but the longer side's extra
    // tokens inflate the denominator.
    let r = distance(
        &pat(&["a", "b"]),
        &pat(&["a", "b", "c", "d"]),
        &Ratio::new(0, 1),
    );
    assert_eq!((r.num, r.den), (2, 4));
}

#[test]
fn distance_is_symmetric() {
    let a = pat(&["a", "b", "x"]);
    let b = pat(&["a", "c"]);
    let d = Ratio::new(1, 3);
    let r1 = distance(&a, &b, &d);
    let r2 = distance(&b, &a, &d);
    assert_eq!((r1.num, r1.den), (r2.num, r2.den));
}

#[test]
fn scorer_scores_raw_fields_like_patterns() {
    let scorer = Scorer::new();
    let r = scorer.distance(
        &fields(&["hello", "1", "y", "3"]),
        &fields(&["hello", "1", "x", "3"]),
        &Ratio::new(0, 1),
    );
    assert_eq!((r.num, r.den), (1, 4));
}
