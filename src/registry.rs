use vstd::prelude::*;
use crate::principal::Principal;

verus! {

/// The principals ever credited with shares, in the order of their first credit.
///
/// The registry only grows: a principal stays in it when its balance returns to zero.
pub struct DepositorRegistry {
    members: Vec<Principal>,
}

impl View for DepositorRegistry {
    type V = Seq<Seq<char>>;

    closed spec fn view(&self) -> Seq<Seq<char>> {
        self.members@.map_values(|p: Principal| p@)
    }
}

impl DepositorRegistry {
    /// No principal is listed twice.
    pub open spec fn wf(&self) -> bool {
        self@.no_duplicates()
    }

    pub fn new() -> (r: DepositorRegistry)
        ensures
            r.wf(),
            r@ == Seq::<Seq<char>>::empty(),
    {
        DepositorRegistry { members: Vec::new() }
    }

    pub fn len(&self) -> (r: usize)
        ensures
            r == self@.len(),
    {
        self.members.len()
    }

    /// The principal registered in position `i`.
    pub fn member(&self, i: usize) -> (r: &Principal)
        requires
            i < self@.len(),
        ensures
            r@ == self@[i as int],
    {
        &self.members[i]
    }

    /// Whether `who` has been registered, found by a scan of the members.
    pub fn contains(&self, who: &Principal) -> (r: bool)
        ensures
            r == self@.contains(who@),
    {
        let mut i: usize = 0;
        while i < self.members.len()
            invariant
                i <= self.members@.len(),
                self@.len() == self.members@.len(),
                forall|j: int| 0 <= j < i ==> self@[j] != who@,
            decreases self.members@.len() - i,
        {
            if self.members[i] == *who {
                assert(self@[i as int] == who@);
                return true;
            }
            i = i + 1;
        }
        false
    }

    /// Registers `who` unless it is already there; a new member goes last.
    pub fn add(&mut self, who: &Principal)
        requires
            old(self).wf(),
        ensures
            final(self).wf(),
            final(self)@ == (if old(self)@.contains(who@) {
                old(self)@
            } else {
                old(self)@.push(who@)
            }),
    {
        if !self.contains(who) {
            self.members.push(who.clone());
            assert(self@ =~= old(self)@.push(who@));
        }
    }
}

} // verus!
