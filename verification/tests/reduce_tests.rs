use logmine_rs::clusterer::Cluster;
use logmine_rs::clusterer::Clusterer;
use logmine_rs::clusterer::ClustererOptions;
use logmine_rs::pattern::Pattern;
use logmine_rs::pattern::PatternElement;
use logmine_rs::ratio::Ratio;
use logmine_rs::reduce;

fn pat(tokens: &[&str]) -> Pattern {
    let mut items: Vec<PatternElement> = Vec::new();
    for t in tokens {
        items.push(PatternElement::Text((*t).to_string()));
    }
    Pattern::new(items)
}

fn run_worker(options: ClustererOptions, lines: &[&str]) -> Vec<Cluster> {
    let mut clusterer = Clusterer::new().with_options(options);
    for line in lines {
        clusterer.process_line(line);
    }
    clusterer.result()
}

/// `(pattern, count)` pairs of two cluster lists agree as multisets.
fn same_multiset(a: &[Cluster], b: &[Cluster]) -> bool {
    if a.len() != b.len() {
        return false;
    }
    let mut used = vec![false; b.len()];
    for c in a {
        let mut found = false;
        for (i, d) in b.iter().enumerate() {
            if !used[i] && c.pattern == d.pattern && c.count == d.count {
                used[i] = true;
                found = true;
                break;
            }
        }
        if !found {
            return false;
        }
    }
    true
}

#[test]
fn reducing_one_worker_list_returns_it_unchanged() {
    let options = ClustererOptions::default().with_max_dist(Ratio::new(1, 2));
    let worker = run_worker(options, &["hello 1 y 3", "hello 1 x 3", "abc m n q"]);
    let mut total: Vec<Cluster> = Vec::new();
    reduce::merge(&mut total, worker.clone(), options);
    assert_eq!(total, worker);
}

#[test]
fn reduction_merges_matching_clusters_across_workers() {
    let options = ClustererOptions::default().with_max_dist(Ratio::new(1, 2));
    let w1 = run_worker(options, &["hello 1 y 3"]);
    let w2 = run_worker(options, &["hello 1 x 3", "abc m n q"]);

    let mut total: Vec<Cluster> = Vec::new();
    reduce::merge(&mut total, w1, options);
    reduce::merge(&mut total, w2, options);

    let single = run_worker(options, &["hello 1 y 3", "hello 1 x 3", "abc m n q"]);
    assert!(same_multiset(&total, &single));
    assert_eq!(total.len(), 2);

    let merged_counts: Vec<u32> = total.iter().map(|c| c.count).collect();
    assert_eq!(merged_counts, vec![2, 1]);
    assert_eq!(
        total[0].pattern,
        Pattern::new(vec![
            PatternElement::Text("hello".to_string()),
            PatternElement::Text("1".to_string()),
            PatternElement::Placeholder,
            PatternElement::Text("3".to_string()),
        ])
    );
}

#[test]
fn reduction_respects_the_partition_for_far_clusters() {
    // Three mutually far lines, split across workers in a different order
    // than a single run would see them: the multiset of results agrees.
    let options = ClustererOptions::default().with_max_dist(Ratio::new(1, 2));
    let w1 = run_worker(options, &["x y", "p q"]);
    let w2 = run_worker(options, &["a b"]);

    let mut total: Vec<Cluster> = Vec::new();
    reduce::merge(&mut total, w2, options);
    reduce::merge(&mut total, w1, options);

    let single = run_worker(options, &["x y", "p q", "a b"]);
    assert!(same_multiset(&total, &single));
}

#[test]
fn reducing_an_empty_list_changes_nothing() {
    let options = ClustererOptions::default().with_max_dist(Ratio::new(1, 2));
    let worker = run_worker(options, &["a b"]);
    let mut total = worker.clone();
    reduce::merge(&mut total, Vec::new(), options);
    assert_eq!(total, worker);
}

#[test]
fn reduction_sums_counts() {
    let options = ClustererOptions::default().with_max_dist(Ratio::new(1, 2));
    let w1 = run_worker(options, &["hello 1 y 3", "hello 1 z 3"]);
    let w2 = run_worker(options, &["hello 1 x 3", "hello 2 x 3"]);

    let mut total: Vec<Cluster> = Vec::new();
    reduce::merge(&mut total, w1, options);
    reduce::merge(&mut total, w2, options);

    assert_eq!(total.len(), 1);
    assert_eq!(total[0].count, 4);
}
