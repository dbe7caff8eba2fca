use vstd::prelude::*;

verus! {

/// Something that carries a completed flag.
pub trait Completable {
    spec fn is_completed(&self) -> bool;

    fn completed(&self) -> (r: bool)
        ensures
            r == self.is_completed(),
    ;

    fn set_completed(&mut self, completed: bool)
        ensures
            final(self).is_completed() == completed,
    ;
}

} // verus!
