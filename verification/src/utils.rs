//! Small helpers on collections.

use vstd::prelude::*;

verus! {

/// Taking the content out of a collection, which stays behind empty.
pub trait TakeContent<T> {
    fn take_content(&mut self) -> T;
}

impl<T> TakeContent<Vec<T>> for Vec<T> {
    /// Hands out the values held, in their order, and leaves the vector
    /// empty.
    fn take_content(&mut self) -> (content: Vec<T>)
        ensures
            content@ == old(self)@,
            final(self)@ == Seq::<T>::empty(),
    {
        let mut content: Vec<T> = Vec::new();
        if !self.is_empty() {
            std::mem::swap(self, &mut content);
        }
        content
    }
}

} // verus!
