//! An ordered stack of name segments.  Two independent instances run during
//! one walk: the persistent module-path stack and the per-module namespace
//! stack.

use vstd::prelude::*;
use crate::text::join_with;
use crate::text::join_strings;

verus! {

/// An ordered sequence of name segments maintained as a stack.
pub struct NamedPath {
    segments: Vec<String>,
}

impl View for NamedPath {
    type V = Seq<Seq<char>>;

    closed spec fn view(&self) -> Seq<Seq<char>> {
        self.segments.deep_view()
    }
}

impl NamedPath {
    pub fn new() -> (r: NamedPath)
        ensures
            r@ == Seq::<Seq<char>>::empty(),
    {
        let r = NamedPath { segments: Vec::new() };
        proof {
            assert(r@ =~= Seq::<Seq<char>>::empty());
        }
        r
    }

    pub fn len(&self) -> (r: usize)
        ensures
            r == self@.len(),
    {
        self.segments.len()
    }

    pub fn is_empty(&self) -> (r: bool)
        ensures
            r == (self@.len() == 0),
    {
        self.segments.len() == 0
    }

    pub fn push(&mut self, name: &str)
        ensures
            final(self)@ == old(self)@.push(name@),
    {
        let owned: String = name.to_owned();
        self.segments.push(owned);
        proof {
            assert(final(self)@ =~= old(self)@.push(name@));
        }
    }

    pub fn pop(&mut self)
        requires
            old(self)@.len() > 0,
        ensures
            final(self)@ == old(self)@.drop_last(),
    {
        let _ = self.segments.pop();
        proof {
            assert(final(self)@ =~= old(self)@.drop_last());
        }
    }

    pub fn reset(&mut self)
        ensures
            final(self)@ == Seq::<Seq<char>>::empty(),
    {
        self.segments.clear();
        proof {
            assert(final(self)@ =~= Seq::<Seq<char>>::empty());
        }
    }

    /// The last segment.
    pub fn last(&self) -> (r: String)
        requires
            self@.len() > 0,
        ensures
            r@ == self@.last(),
    {
        let s: &String = &self.segments[self.segments.len() - 1];
        s.clone()
    }

    /// The segments joined with the given separator.
    pub fn flat(&self, sep: &str) -> (r: String)
        ensures
            r@ == join_with(self@, sep@),
    {
        join_strings(&self.segments, sep)
    }

    /// All segments but the last, joined with the given separator.
    pub fn parent(&self, sep: &str) -> (r: String)
        requires
            self@.len() > 0,
        ensures
            r@ == join_with(self@.drop_last(), sep@),
    {
        let mut init: Vec<String> = Vec::new();
        let mut i: usize = 0;
        while i < self.segments.len() - 1
            invariant
                i <= self.segments@.len() - 1,
                self.segments@.len() > 0,
                init.deep_view() == self@.take(i as int),
            decreases self.segments@.len() - 1 - i,
        {
            let ghost dv0 = init.deep_view();
            let ghost v0 = init@;
            init.push(self.segments[i].clone());
            proof {
                assert(v0.len() == dv0.len());
                assert(dv0.len() == i);
                assert(init@.len() == i + 1);
                assert forall|j: int| 0 <= j < i + 1 implies init.deep_view()[j] == self@.take(
                    i + 1,
                )[j] by {
                    assert(init.deep_view()[j] == init@[j]@);
                    if j < i {
                        assert(init@[j] == v0[j]);
                        assert(dv0[j] == v0[j]@);
                        assert(dv0[j] == self@.take(i as int)[j]);
                    } else {
                        assert(init@[j] == self.segments@[i as int]);
                    }
                };
                assert(init.deep_view() =~= self@.take(i + 1));
            }
            i = i + 1;
        }
        proof {
            assert(self@.take(self@.len() - 1) =~= self@.drop_last());
        }
        join_strings(&init, sep)
    }
}

} // verus!
