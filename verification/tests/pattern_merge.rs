use logmine_rs::pattern::Pattern;
use logmine_rs::pattern::PatternElement;

fn pat(tokens: &[&str]) -> Pattern {
    let mut items: Vec<PatternElement> = Vec::new();
    for t in tokens {
        items.push(PatternElement::Text((*t).to_string()));
    }
    Pattern::new(items)
}

fn ph() -> PatternElement {
    PatternElement::Placeholder
}

#[test]
fn pattern_test() {
    assert_eq!(
        pat(&["a", "b"]).merge(pat(&["a", "c"])),
        Pattern::new(vec![PatternElement::Text("a".to_string()), ph()]),
    );
}

#[test]
fn pattern_test_with_single_gap() {
    assert_eq!(
        pat(&["a", "c", "b"]).merge(pat(&["a", "b"])),
        Pattern::new(vec![
            PatternElement::Text("a".to_string()),
            ph(),
            PatternElement::Text("b".to_string()),
        ]),
    );
}

#[test]
fn pattern_test_with_multiple_gaps() {
    assert_eq!(
        pat(&["a", "c", "b"]).merge(pat(&["a", "b", "d"])),
        Pattern::new(vec![
            PatternElement::Text("a".to_string()),
            ph(),
            PatternElement::Text("b".to_string()),
            ph(),
        ]),
    );
}

#[test]
fn pattern_test_with_gaps_in_the_middle() {
    assert_eq!(
        pat(&["a", "b", "d", "e", "f"]).merge(pat(&["a", "b", "c", "e", "f"])),
        Pattern::new(vec![
            PatternElement::Text("a".to_string()),
            PatternElement::Text("b".to_string()),
            ph(),
            PatternElement::Text("e".to_string()),
            PatternElement::Text("f".to_string()),
        ]),
    );
}

#[test]
fn patterns_test() {
    assert_eq!(
        pat(&["a", "b"]).merge(pat(&["a", "c"])),
        Pattern::new(vec![PatternElement::Text("a".to_string()), ph()]),
    );
}

#[test]
fn patterns_test_with_single_gap() {
    assert_eq!(
        pat(&["a", "c", "b"]).merge(pat(&["a", "b"])),
        Pattern::new(vec![
            PatternElement::Text("a".to_string()),
            ph(),
            PatternElement::Text("b".to_string()),
        ]),
    );
}

#[test]
fn patterns_test_with_multiple_gaps() {
    assert_eq!(
        pat(&["a", "c", "b"]).merge(pat(&["a", "b", "d"])),
        Pattern::new(vec![
            PatternElement::Text("a".to_string()),
            ph(),
            PatternElement::Text("b".to_string()),
            ph(),
        ]),
    );
}

#[test]
fn patterns_test_with_gaps_in_the_middle() {
    assert_eq!(
        pat(&["a", "b", "d", "e", "f"]).merge(pat(&["a", "b", "c", "e", "f"])),
        Pattern::new(vec![
            PatternElement::Text("a".to_string()),
            PatternElement::Text("b".to_string()),
            ph(),
            PatternElement::Text("e".to_string()),
            PatternElement::Text("f".to_string()),
        ]),
    );
}

#[test]
fn merge_of_empty_patterns_is_empty() {
    assert_eq!(pat(&[]).merge(pat(&[])), pat(&[]));
    assert_eq!(pat(&[]).merge(pat(&[])).len(), 0);
}

#[test]
fn merge_with_one_empty_side_is_one_placeholder() {
    assert_eq!(pat(&["a", "b"]).merge(pat(&[])), Pattern::new(vec![ph()]));
    assert_eq!(pat(&[]).merge(pat(&["a"])), Pattern::new(vec![ph()]));
}

#[test]
fn merge_with_itself_returns_the_pattern() {
    let p = pat(&["alpha", "beta", "gamma"]);
    assert_eq!(p.clone().merge(p.clone()), p);
}

#[test]
fn adjacent_gaps_collapse_into_one_placeholder() {
    // Two unaligned positions in a row emit a single placeholder.
    assert_eq!(
        pat(&["a", "b", "c", "d"]).merge(pat(&["a", "d"])),
        Pattern::new(vec![
            PatternElement::Text("a".to_string()),
            ph(),
            PatternElement::Text("d".to_string()),
        ]),
    );
}

#[test]
fn merge_never_exceeds_summed_length_on_disjoint_patterns() {
    let merged = pat(&["a", "b"]).merge(pat(&["x", "y", "z"]));
    // Entirely unaligned patterns collapse to a single placeholder.
    assert_eq!(merged, Pattern::new(vec![ph()]));
    assert!(merged.len() <= 5);
}

#[test]
fn placeholders_align_with_placeholders() {
    let a = Pattern::new(vec![PatternElement::Text("a".to_string()), ph()]);
    let b = Pattern::new(vec![PatternElement::Text("a".to_string()), ph()]);
    assert_eq!(
        a.merge(b),
        Pattern::new(vec![PatternElement::Text("a".to_string()), ph()]),
    );
}
