//! Hierarchical field keys.
//!
//! A shader field is addressed by a dotted path ("params.material.albedo").
//! Anything that can render itself as such a path is a [`Key`]; keys chain
//! with [`Key::chain`], and lists of keys join their segments.

use vstd::prelude::*;
use vstd::string::StringExecFns;

verus! {

/// A hierarchical field key.
pub trait Key: Sized {
    /// The dotted path this key denotes.
    spec fn spec_key(&self) -> Seq<char>;

    /// Renders the key as its dotted path.
    fn build(&self) -> (r: String)
        ensures
            r@ == self.spec_key(),
    ;

    /// Chains `self` with a further key; the resulting pair renders as
    /// `self`, a dot, and the chained key after it.
    fn chain<T>(self, other: T) -> (r: (Self, T))
        ensures
            r.0 == self,
            r.1 == other,
    ;
}

impl Key for String {
    open spec fn spec_key(&self) -> Seq<char> {
        self@
    }

    fn build(&self) -> (r: String) {
        self.clone()
    }

    fn chain<T>(self, other: T) -> (r: (Self, T)) {
        (self, other)
    }
}

impl Key for &str {
    open spec fn spec_key(&self) -> Seq<char> {
        self@
    }

    fn build(&self) -> (r: String) {
        (*self).to_owned()
    }

    fn chain<T>(self, other: T) -> (r: (Self, T)) {
        (self, other)
    }
}

impl<A: Key, B: Key> Key for (A, B) {
    open spec fn spec_key(&self) -> Seq<char> {
        self.0.spec_key() + "."@ + self.1.spec_key()
    }

    fn build(&self) -> (r: String) {
        let s0 = self.0.build();
        let s1 = self.1.build();
        s0.concat(".").concat(s1.as_str())
    }

    fn chain<T>(self, other: T) -> (r: (Self, T)) {
        (self, other)
    }
}

/// The path of a key list: a dot before every element, including the first.
pub open spec fn vec_key<A: Key>(s: Seq<A>) -> Seq<char>
    decreases s.len(),
{
    if s.len() == 0 {
        Seq::empty()
    } else {
        vec_key(s.drop_last()) + "."@ + s.last().spec_key()
    }
}

impl<A: Key> Key for Vec<A> {
    open spec fn spec_key(&self) -> Seq<char> {
        vec_key(self@)
    }

    fn build(&self) -> (r: String) {
        let mut acc = String::new();
        let mut i: usize = 0;
        while i < self.len()
            invariant
                i <= self@.len(),
                acc@ == vec_key(self@.take(i as int)),
            decreases self@.len() - i,
        {
            let part = self[i].build();
            acc = acc.concat(".").concat(part.as_str());
            proof {
                assert(self@.take(i as int + 1).drop_last() =~= self@.take(i as int));
            }
            i = i + 1;
        }
        proof {
            assert(self@.take(self@.len() as int) =~= self@);
        }
        acc
    }

    fn chain<T>(self, other: T) -> (r: (Self, T)) {
        (self, other)
    }
}

/// The path of a key slice: segments joined with dots, with no leading dot —
/// an empty segment at the front is swallowed rather than dotted.
pub open spec fn slice_key<A: Key>(s: Seq<A>) -> Seq<char>
    decreases s.len(),
{
    if s.len() == 0 {
        Seq::empty()
    } else {
        let acc = slice_key(s.drop_last());
        if acc.len() == 0 {
            s.last().spec_key()
        } else {
            acc + "."@ + s.last().spec_key()
        }
    }
}

impl<A: Key> Key for &[A] {
    open spec fn spec_key(&self) -> Seq<char> {
        slice_key(self@)
    }

    fn build(&self) -> (r: String) {
        let mut acc = String::new();
        let mut i: usize = 0;
        while i < self.len()
            invariant
                i <= self@.len(),
                acc@ == slice_key(self@.take(i as int)),
            decreases self@.len() - i,
        {
            let part = self[i].build();
            proof {
                assert(self@.take(i as int + 1).drop_last() =~= self@.take(i as int));
            }
            if acc.as_str().is_empty() {
                acc = part;
            } else {
                acc = acc.concat(".").concat(part.as_str());
            }
            i = i + 1;
        }
        proof {
            assert(self@.take(self@.len() as int) =~= self@);
        }
        acc
    }

    fn chain<T>(self, other: T) -> (r: (Self, T)) {
        (self, other)
    }
}

} // verus!
