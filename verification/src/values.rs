//! Values that can be duplicated and compared by what they stand for.
use vstd::prelude::*;

verus! {

/// A value whose meaning is its deep view: a copy has the same deep view, and two values
/// are the same when their deep views are equal.
pub trait Value: DeepView + Sized {
    /// A copy with the same meaning.
    fn dup(&self) -> (copy: Self)
        ensures
            copy.deep_view() == self.deep_view(),
    ;

    /// Whether both values mean the same.
    fn same(&self, other: &Self) -> (equal: bool)
        ensures
            equal == (self.deep_view() == other.deep_view()),
    ;
}

impl Value for bool {
    fn dup(&self) -> (copy: Self) {
        *self
    }

    fn same(&self, other: &Self) -> (equal: bool) {
        *self == *other
    }
}

impl Value for u32 {
    fn dup(&self) -> (copy: Self) {
        *self
    }

    fn same(&self, other: &Self) -> (equal: bool) {
        *self == *other
    }
}

impl Value for u64 {
    fn dup(&self) -> (copy: Self) {
        *self
    }

    fn same(&self, other: &Self) -> (equal: bool) {
        *self == *other
    }
}

impl Value for usize {
    fn dup(&self) -> (copy: Self) {
        *self
    }

    fn same(&self, other: &Self) -> (equal: bool) {
        *self == *other
    }
}

impl Value for String {
    fn dup(&self) -> (copy: Self) {
        self.clone()
    }

    fn same(&self, other: &Self) -> (equal: bool) {
        *self == *other
    }
}

impl<T: Value> Value for Option<T> {
    fn dup(&self) -> (copy: Self) {
        match self {
            Some(inner) => Some(inner.dup()),
            None => None,
        }
    }

    fn same(&self, other: &Self) -> (equal: bool) {
        match (self, other) {
            (Some(left), Some(right)) => left.same(right),
            (None, None) => true,
            _ => false,
        }
    }
}

impl<A: Value, B: Value> Value for (A, B) {
    fn dup(&self) -> (copy: Self) {
        (self.0.dup(), self.1.dup())
    }

    fn same(&self, other: &Self) -> (equal: bool) {
        self.0.same(&other.0) && self.1.same(&other.1)
    }
}

impl<T: Value> Value for Vec<T> {
    fn dup(&self) -> (copy: Self) {
        let mut copy: Vec<T> = Vec::new();
        for i in 0..self.len()
            invariant
                copy.len() == i,
                forall|j: int| 0 <= j < i ==> (#[trigger] copy@[j]).deep_view() == self@[j].deep_view(),
        {
            copy.push(self[i].dup());
        }
        assert(copy.deep_view() =~= self.deep_view());
        copy
    }

    fn same(&self, other: &Self) -> (equal: bool) {
        if self.len() != other.len() {
            assert(self.deep_view().len() != other.deep_view().len());
            return false;
        }
        for i in 0..self.len()
            invariant
                self.len() == other.len(),
                forall|j: int| 0 <= j < i ==> (#[trigger] self@[j]).deep_view() == other@[j].deep_view(),
        {
            if !self[i].same(&other[i]) {
                assert(self.deep_view()[i as int] != other.deep_view()[i as int]);
                return false;
            }
        }
        assert(self.deep_view() =~= other.deep_view());
        true
    }
}

} // verus!
