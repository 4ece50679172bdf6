//! Patterns: ordered sequences of tokens and placeholders.
//!
//! A [`Pattern`] stands both for a single log line materialized as tokens and
//! for a cluster's merged template.  At the specification level an element is
//! viewed as `Option<Seq<char>>`: `Some` holds a literal token's characters,
//! `None` is the placeholder for a position whose text varies.

use vstd::prelude::*;

verus! {

/// The view of one pattern element: a literal token's characters, or `None`
/// for the placeholder.
pub type ElemView = Option<Seq<char>>;

/// A vector's deep view is its elements' deep views, position by position.
pub broadcast proof fn lemma_vec_deep_view_index<T: DeepView>(v: Vec<T>, i: int)
    requires
        0 <= i < v@.len(),
    ensures
        #[trigger] v.deep_view()[i] == v@[i].deep_view(),
{
}

/// A vector and its deep view have the same length.
pub broadcast proof fn lemma_vec_deep_view_len<T: DeepView>(v: Vec<T>)
    ensures
        #[trigger] v.deep_view().len() == v@.len(),
{
}

/// Pushing onto a vector pushes onto its deep view.
pub proof fn lemma_vec_deep_view_push<T: DeepView>(prev: Vec<T>, cur: Vec<T>, el: T)
    requires
        cur@ == prev@.push(el),
    ensures
        cur.deep_view() == prev.deep_view().push(el.deep_view()),
{
    assert(cur.deep_view() =~= prev.deep_view().push(el.deep_view()));
}

/// Updating one element of a vector updates its deep view at that position.
pub proof fn lemma_vec_deep_view_update<T: DeepView>(prev: Vec<T>, cur: Vec<T>, k: int, el: T)
    requires
        0 <= k < prev@.len(),
        cur@ == prev@.update(k, el),
    ensures
        cur.deep_view() == prev.deep_view().update(k, el.deep_view()),
{
    assert(cur.deep_view() =~= prev.deep_view().update(k, el.deep_view()));
}

/// The pattern a token list materializes to: each token as a literal element.
pub open spec fn pattern_of_tokens(ts: Seq<Seq<char>>) -> Seq<ElemView> {
    ts.map_values(|t: Seq<char>| Some(t))
}

/// One element of a pattern: a literal text token, or the placeholder that
/// marks a position whose text varies across the records merged in.
#[derive(Debug)]
pub enum PatternElement {
    Text(String),
    Placeholder,
}

impl Clone for PatternElement {
    fn clone(&self) -> (r: Self)
        ensures
            r@ == self@,
    {
        match self {
            PatternElement::Text(s) => PatternElement::Text(s.clone()),
            PatternElement::Placeholder => PatternElement::Placeholder,
        }
    }
}

impl View for PatternElement {
    type V = ElemView;

    open spec fn view(&self) -> ElemView {
        match self {
            PatternElement::Text(s) => Some(s@),
            PatternElement::Placeholder => None,
        }
    }
}

impl DeepView for PatternElement {
    type V = ElemView;

    open spec fn deep_view(&self) -> ElemView {
        self.view()
    }
}

impl PartialEq for PatternElement {
    fn eq(&self, other: &Self) -> (r: bool) {
        match (self, other) {
            (PatternElement::Text(a), PatternElement::Text(b)) => a.eq(b),
            (PatternElement::Placeholder, PatternElement::Placeholder) => true,
            _ => false,
        }
    }
}

impl vstd::std_specs::cmp::PartialEqSpecImpl for PatternElement {
    open spec fn obeys_eq_spec() -> bool {
        true
    }

    open spec fn eq_spec(&self, other: &Self) -> bool {
        self@ == other@
    }
}

/// An ordered sequence of pattern elements; position is significant.  The
/// empty pattern is valid and stands for an empty line.
#[derive(Debug)]
pub struct Pattern {
    items: Vec<PatternElement>,
}

impl View for Pattern {
    type V = Seq<ElemView>;

    closed spec fn view(&self) -> Seq<ElemView> {
        self.items.deep_view()
    }
}

impl DeepView for Pattern {
    type V = Seq<ElemView>;

    open spec fn deep_view(&self) -> Seq<ElemView> {
        self.view()
    }
}

impl Clone for Pattern {
    fn clone(&self) -> (r: Self)
        ensures
            r@ == self@,
    {
        broadcast use lemma_vec_deep_view_index, lemma_vec_deep_view_len;

        let n = self.items.len();
        let mut items: Vec<PatternElement> = Vec::new();
        let mut i: usize = 0;
        while i < n
            invariant
                i <= n,
                n == self@.len(),
                items.deep_view() =~= self@.take(i as int),
            decreases n - i,
        {
            let el = self.items[i].clone();
            proof {
                assert(el@ == self.items@[i as int]@);
                assert(self@[i as int] == self.items@[i as int].deep_view());
            }
            let ghost prev_vec = items;
            items.push(el);
            proof {
                lemma_vec_deep_view_len(items);
                lemma_vec_deep_view_len(prev_vec);
                assert(items@ =~= prev_vec@.push(el));
                assert(items.deep_view().len() == i + 1);
                assert forall|j: int| 0 <= j <= i as int implies items.deep_view()[j] == self@.take(
                    i as int + 1,
                )[j] by {
                    lemma_vec_deep_view_index(items, j);
                    assert(items.deep_view()[j] == items@[j].deep_view());
                    if j < i as int {
                        lemma_vec_deep_view_index(prev_vec, j);
                        assert(items@[j] == prev_vec@[j]);
                        assert(prev_vec.deep_view()[j] == prev_vec@[j].deep_view());
                        assert(prev_vec.deep_view()[j] == self@.take(i as int)[j]);
                    } else {
                        assert(items@[j] == el);
                    }
                }
                assert(items.deep_view() =~= self@.take(i + 1));
            }
            i += 1;
        }
        proof {
            assert(items.deep_view() =~= self@);
        }
        Pattern { items }
    }
}

impl PartialEq for Pattern {
    fn eq(&self, other: &Self) -> (r: bool) {
        broadcast use lemma_vec_deep_view_index, lemma_vec_deep_view_len;

        if self.items.len() != other.items.len() {
            proof {
                assert(self@.len() != other@.len());
            }
            return false;
        }
        let n = self.items.len();
        let mut i: usize = 0;
        while i < n
            invariant
                n == self@.len(),
                n == other@.len(),
                i <= n,
                forall|j: int| 0 <= j < i ==> self@[j] == other@[j],
            decreases n - i,
        {
            if !(self.items[i] == other.items[i]) {
                proof {
                    lemma_vec_deep_view_index(self.items, i as int);
                    lemma_vec_deep_view_index(other.items, i as int);
                }
                return false;
            }
            proof {
                lemma_vec_deep_view_index(self.items, i as int);
                lemma_vec_deep_view_index(other.items, i as int);
            }
            i += 1;
        }
        proof {
            assert(self@ =~= other@);
        }
        true
    }
}

impl vstd::std_specs::cmp::PartialEqSpecImpl for Pattern {
    open spec fn obeys_eq_spec() -> bool {
        true
    }

    open spec fn eq_spec(&self, other: &Self) -> bool {
        self@ == other@
    }
}

impl Default for Pattern {
    /// The empty pattern.
    fn default() -> (r: Self)
        ensures
            r@ == Seq::<ElemView>::empty(),
    {
        Pattern { items: Vec::new() }
    }
}

impl Pattern {
    /// A pattern over the given elements, in order.
    pub fn new(items: Vec<PatternElement>) -> (r: Self)
        ensures
            r@ == items.deep_view(),
    {
        Pattern { items }
    }

    /// Borrows the elements, in order.
    pub fn iter(&self) -> (r: &Vec<PatternElement>)
        ensures
            r.deep_view() == self@,
    {
        &self.items
    }

    /// The number of elements.
    pub fn len(&self) -> (n: usize)
        ensures
            n == self@.len(),
    {
        self.items.len()
    }

    /// Consumes the pattern, returning its elements in order.
    pub fn into_iter(self) -> (r: Vec<PatternElement>)
        ensures
            r.deep_view() == self@,
    {
        self.items
    }

    /// A pattern whose elements are the given tokens, each as literal text.
    pub fn from_tokens(tokens: Vec<String>) -> (r: Self)
        ensures
            r@ == pattern_of_tokens(tokens.deep_view()),
    {
        broadcast use lemma_vec_deep_view_index, lemma_vec_deep_view_len;

        let ghost goal = pattern_of_tokens(tokens.deep_view());
        let n = tokens.len();
        let mut items: Vec<PatternElement> = Vec::new();
        let mut i: usize = 0;
        while i < n
            invariant
                i <= n,
                n == tokens@.len(),
                goal == pattern_of_tokens(tokens.deep_view()),
                items.deep_view() =~= goal.take(i as int),
            decreases n - i,
        {
            let el = PatternElement::Text(tokens[i].clone());
            proof {
                lemma_vec_deep_view_index(tokens, i as int);
                assert(el@ == Some(tokens@[i as int]@));
                assert(goal[i as int] == Some(tokens.deep_view()[i as int]));
            }
            let ghost prev_vec = items;
            items.push(el);
            proof {
                lemma_vec_deep_view_len(items);
                lemma_vec_deep_view_len(prev_vec);
                lemma_vec_deep_view_len(tokens);
                assert forall|j: int| 0 <= j <= i as int implies items.deep_view()[j] == goal.take(
                    i as int + 1,
                )[j] by {
                    lemma_vec_deep_view_index(items, j);
                    if j < i as int {
                        lemma_vec_deep_view_index(prev_vec, j);
                        assert(items@[j] == prev_vec@[j]);
                        assert(prev_vec.deep_view()[j] == goal.take(i as int)[j]);
                    } else {
                        assert(items@[j] == el);
                    }
                }
                assert(items.deep_view() =~= goal.take(i + 1));
            }
            i += 1;
        }
        proof {
            lemma_vec_deep_view_len(tokens);
            assert(items.deep_view() =~= goal);
        }
        Pattern { items }
    }
}

} // verus!
