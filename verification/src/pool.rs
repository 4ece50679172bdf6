//! A pool of reusable line buffers.
//!
//! Strings are either *dead* — empty, ready to receive a line — or *live* —
//! holding a read line that awaits processing.  Buffers taken from the pool
//! come wrapped in a [`PoolRef`] that records which side they must return to:
//! a buffer taken dead returns live once filled (unless [`PoolRef::stay_dead`]
//! marks a failed fill), and a buffer taken live returns dead after its line
//! is consumed, so allocations are recycled instead of repeated.

use vstd::prelude::*;

use crate::pattern::lemma_vec_deep_view_index;
use crate::pattern::lemma_vec_deep_view_len;
use crate::pattern::lemma_vec_deep_view_push;

verus! {

/// Relies on `String::clear`: removes every character while keeping the
/// allocated buffer for reuse.
#[verifier::external_body]
fn clear_string(s: &mut String)
    ensures
        final(s)@ == Seq::<char>::empty(),
{
    s.clear();
}

/// The pool: live lines awaiting processing, dead buffers awaiting a fill,
/// and the fixed number of buffers it was created with.
pub struct StringPool {
    live: Vec<String>,
    dead: Vec<String>,
    cap: usize,
}

/// A string pulled from a [`StringPool`], to be handed back with
/// [`StringPool::release`]; it records whether it returns to the live or the
/// dead side.
pub struct PoolRef {
    /// The buffer itself; a taken-dead buffer starts empty.
    pub line: String,
    /// Which side the buffer returns to on release.
    pub to_live: bool,
}

impl PoolRef {
    /// Whether releasing this buffer returns it to the live side.
    pub open spec fn returns_to_live(&self) -> bool {
        self.to_live
    }

    /// Marks the buffer to return to the dead pool: for a buffer taken dead
    /// whose fill produced nothing (such as end of input).
    pub fn stay_dead(&mut self)
        ensures
            !final(self).returns_to_live(),
            final(self).line == old(self).line,
    {
        self.to_live = false;
    }
}

impl StringPool {
    /// The lines awaiting processing, oldest first.
    pub closed spec fn live_view(&self) -> Seq<Seq<char>> {
        self.live.deep_view()
    }

    /// The empty buffers ready to be filled.
    pub closed spec fn dead_count(&self) -> int {
        self.dead@.len() as int
    }

    /// The number of buffers the pool was created with.
    pub closed spec fn capacity_spec(&self) -> int {
        self.cap as int
    }

    /// A pool of `capacity` dead buffers.
    pub fn with_capacity(capacity: usize) -> (r: Self)
        ensures
            r.live_view() == Seq::<Seq<char>>::empty(),
            r.dead_count() == capacity,
            r.capacity_spec() == capacity,
    {
        let mut dead: Vec<String> = Vec::new();
        let mut i: usize = 0;
        while i < capacity
            invariant
                i <= capacity,
                dead@.len() == i,
            decreases capacity - i,
        {
            dead.push(String::new());
            i += 1;
        }
        let r = StringPool { live: Vec::new(), dead, cap: capacity };
        proof {
            assert(r.live_view() =~= Seq::<Seq<char>>::empty());
        }
        r
    }

    /// Whether no live line awaits processing.
    pub fn is_empty(&self) -> (r: bool)
        ensures
            r == (self.live_view().len() == 0),
    {
        proof {
            lemma_vec_deep_view_len(self.live);
        }
        self.live.len() == 0
    }

    /// How many live lines await processing.
    pub fn len(&self) -> (r: usize)
        ensures
            r == self.live_view().len(),
    {
        proof {
            lemma_vec_deep_view_len(self.live);
        }
        self.live.len()
    }

    /// The number of buffers the pool was created with.
    pub fn capacity(&self) -> (r: usize)
        ensures
            r == self.capacity_spec(),
    {
        self.cap
    }

    /// Pulls the most recently filled live line, to be consumed; it will
    /// return to the dead pool on release.
    pub fn take_live(&mut self) -> (r: Option<PoolRef>)
        ensures
            old(self).live_view().len() == 0 ==> r is None,
            old(self).live_view().len() == 0 ==> final(self).live_view() == old(self).live_view(),
            old(self).live_view().len() > 0 ==> (r matches Some(p) ==> p.line@ == old(self).live_view().last() && !p.returns_to_live()),
            old(self).live_view().len() > 0 ==> r is Some,
            old(self).live_view().len() > 0 ==> final(self).live_view() == old(self).live_view().drop_last(),
            final(self).dead_count() == old(self).dead_count(),
            final(self).capacity_spec() == old(self).capacity_spec(),
    {
        proof {
            lemma_vec_deep_view_len(self.live);
        }
        let ghost prev = self.live;
        match self.live.pop() {
            Option::None => {
                proof {
                    assert(self.live_view() =~= old(self).live_view());
                }
                Option::None
            },
            Option::Some(line) => {
                proof {
                    lemma_vec_deep_view_index(prev, prev@.len() - 1);
                    assert(self.live_view() =~= old(self).live_view().drop_last()) by {
                        assert(forall|i: int|
                            0 <= i < self.live@.len() ==> #[trigger] self.live@[i] == prev@[i]);
                        assert(forall|i: int|
                            0 <= i < self.live@.len() ==> #[trigger] self.live_view()[i]
                                == prev.deep_view()[i]) by {
                            assert(forall|i: int|
                                0 <= i < self.live@.len() ==> #[trigger] self.live.deep_view()[i]
                                    == self.live@[i].deep_view());
                        }
                    }
                }
                Option::Some(PoolRef { line, to_live: false })
            },
        }
    }

    /// Pulls a dead buffer, cleared and ready to receive a line; it will
    /// return to the live pool on release unless marked with
    /// [`PoolRef::stay_dead`].
    pub fn take_dead(&mut self) -> (r: Option<PoolRef>)
        ensures
            old(self).dead_count() == 0 ==> r is None && final(self).dead_count() == 0,
            old(self).dead_count() > 0 ==> (r matches Some(p) ==> p.line@ == Seq::<char>::empty()
                && p.returns_to_live()),
            old(self).dead_count() > 0 ==> r is Some && final(self).dead_count() == old(
                self,
            ).dead_count() - 1,
            final(self).live_view() == old(self).live_view(),
            final(self).capacity_spec() == old(self).capacity_spec(),
    {
        match self.dead.pop() {
            Option::None => Option::None,
            Option::Some(line) => {
                let mut line = line;
                clear_string(&mut line);
                Option::Some(PoolRef { line, to_live: true })
            },
        }
    }

    /// Hands a pulled buffer back, returning it to the side the [`PoolRef`]
    /// records: live buffers join the lines awaiting processing, dead ones
    /// rejoin the reusable buffers.
    pub fn release(&mut self, r: PoolRef)
        ensures
            r.returns_to_live() ==> final(self).live_view() == old(self).live_view().push(r.line@)
                && final(self).dead_count() == old(self).dead_count(),
            !r.returns_to_live() ==> final(self).live_view() == old(self).live_view()
                && final(self).dead_count() == old(self).dead_count() + 1,
            final(self).capacity_spec() == old(self).capacity_spec(),
    {
        let PoolRef { line, to_live } = r;
        if to_live {
            let ghost prev = self.live;
            self.live.push(line);
            proof {
                lemma_vec_deep_view_push(prev, self.live, self.live@.last());
            }
        } else {
            self.dead.push(line);
        }
    }
}

} // verus!
