use logmine_rs::clusterer::Cluster;
use logmine_rs::clusterer::Clusterer;
use logmine_rs::pattern::Pattern;
use logmine_rs::pattern::PatternElement;
use logmine_rs::ratio::Ratio;
use logmine_rs::tokenize::tokenize;
use regex::Regex;

fn pat(tokens: &[&str]) -> Pattern {
    let mut items: Vec<PatternElement> = Vec::new();
    for t in tokens {
        items.push(PatternElement::Text((*t).to_string()));
    }
    Pattern::new(items)
}

fn ph() -> PatternElement {
    PatternElement::Placeholder
}

fn find(mut clusterer: Clusterer, input_lines: &[&str]) -> Vec<Cluster> {
    for line in input_lines {
        clusterer.process_line(line);
    }
    clusterer.result()
}

#[test]
fn clusterer_test() {
    let clusters = find(
        Clusterer::new().with_max_dist(Ratio::new(1, 2)),
        &["hello 1 y 3", "hello 1 x 3", "abc m n q"],
    );

    assert_eq!(
        clusters,
        vec![
            Cluster {
                representative: pat(&["hello", "1", "y", "3"]),
                count: 2,
                pattern: Pattern::new(vec![
                    PatternElement::Text("hello".to_string()),
                    PatternElement::Text("1".to_string()),
                    ph(),
                    PatternElement::Text("3".to_string()),
                ]),
            },
            Cluster {
                representative: pat(&["abc", "m", "n", "q"]),
                count: 1,
                pattern: pat(&["abc", "m", "n", "q"]),
            },
        ]
    );
}

#[test]
fn test_min_members() {
    let clusters = find(
        Clusterer::new().with_max_dist(Ratio::new(1, 2)).with_min_members(2),
        &["hello 1 y 3", "hello 1 x 3", "abc m n q"],
    );

    assert_eq!(
        clusters,
        vec![Cluster {
            representative: pat(&["hello", "1", "y", "3"]),
            count: 2,
            pattern: Pattern::new(vec![
                PatternElement::Text("hello".to_string()),
                PatternElement::Text("1".to_string()),
                ph(),
                PatternElement::Text("3".to_string()),
            ]),
        }]
    );
}

#[test]
fn test_small_max_dist() {
    let clusters = find(
        Clusterer::new().with_max_dist(Ratio::new(1, 100)),
        &["hello 1 y 3", "hello 1 x 3", "abc m n q"],
    );

    assert_eq!(
        clusters,
        vec![
            Cluster {
                representative: pat(&["hello", "1", "y", "3"]),
                count: 1,
                pattern: pat(&["hello", "1", "y", "3"]),
            },
            Cluster {
                representative: pat(&["hello", "1", "x", "3"]),
                count: 1,
                pattern: pat(&["hello", "1", "x", "3"]),
            },
            Cluster {
                representative: pat(&["abc", "m", "n", "q"]),
                count: 1,
                pattern: pat(&["abc", "m", "n", "q"]),
            },
        ]
    );
}

#[test]
fn default_threshold_is_tight() {
    // The engine default (1/100) keeps distinct lines in distinct clusters.
    let clusters = find(Clusterer::new(), &["a b", "a c"]);
    assert_eq!(clusters.len(), 2);
}

#[test]
fn split_regex_overrides_the_default_tokenizer() {
    // With a comma separator, "a,b" and "a,c" are two-token lines that merge;
    // the default whitespace tokenizer would keep each line as one token and
    // never merge them.
    let clusterer = Clusterer::new()
        .with_max_dist(Ratio::new(1, 2))
        .with_split_regex(Regex::new(",").unwrap());
    let clusters = find(clusterer, &["a,b", "a,c"]);
    assert_eq!(
        clusters,
        vec![Cluster {
            representative: pat(&["a", "b"]),
            count: 2,
            pattern: Pattern::new(vec![PatternElement::Text("a".to_string()), ph()]),
        }]
    );

    let default_clusters = find(
        Clusterer::new().with_max_dist(Ratio::new(1, 2)),
        &["a,b", "a,c"],
    );
    assert_eq!(default_clusters.len(), 2);
}

#[test]
fn min_members_of_one_reports_every_cluster() {
    let lines = &["hello 1 y 3", "hello 1 x 3", "abc m n q"];
    let all = find(
        Clusterer::new().with_max_dist(Ratio::new(1, 2)).with_min_members(1),
        lines,
    );
    assert_eq!(all.len(), 2);
    // Raising the minimum only removes clusters; the survivor is unchanged.
    let filtered = find(
        Clusterer::new().with_max_dist(Ratio::new(1, 2)).with_min_members(2),
        lines,
    );
    assert_eq!(filtered.len(), 1);
    assert_eq!(filtered[0], all[0]);
}

#[test]
fn empty_lines_form_their_own_cluster() {
    // An empty line tokenizes to the empty pattern, which is an exact match
    // for itself (distance zero).
    let clusters = find(Clusterer::new().with_max_dist(Ratio::new(1, 100)), &["", ""]);
    assert_eq!(
        clusters,
        vec![Cluster { representative: pat(&[]), count: 2, pattern: pat(&[]) }]
    );
}

#[test]
fn take_result_drains_the_clusterer() {
    let mut clusterer = Clusterer::new().with_max_dist(Ratio::new(1, 2));
    clusterer.process_line("a b");
    let first = clusterer.take_result();
    assert_eq!(first.len(), 1);
    let second = clusterer.take_result();
    assert_eq!(second.len(), 0);
}

#[test]
fn tokenize_splits_on_whitespace_runs() {
    let tokens = tokenize("hello 1 y 3");
    assert_eq!(tokens, vec!["hello", "1", "y", "3"]);
    assert_eq!(tokenize(""), Vec::<String>::new());
    assert_eq!(tokenize("  a \t b \n"), vec!["a", "b"]);
    assert_eq!(tokenize(" \t "), Vec::<String>::new());
}

#[test]
fn process_tokens_matches_process_line() {
    let mut by_line = Clusterer::new().with_max_dist(Ratio::new(1, 2));
    by_line.process_line("hello 1 y 3");
    by_line.process_line("hello 1 x 3");

    let mut by_tokens = Clusterer::new().with_max_dist(Ratio::new(1, 2));
    by_tokens.process_tokens(tokenize("hello 1 y 3"));
    by_tokens.process_tokens(tokenize("hello 1 x 3"));

    assert_eq!(by_line.result(), by_tokens.result());
}
