use vstd::prelude::*;

verus! {

/// An account or contract on the host ledger, named by the text of its address.
#[derive(Debug)]
pub struct Principal {
    address: String,
}

impl View for Principal {
    type V = Seq<char>;

    closed spec fn view(&self) -> Seq<char> {
        self.address@
    }
}

impl Principal {
    pub fn new(address: String) -> (r: Principal)
        ensures
            r@ == address@,
    {
        Principal { address }
    }

    /// The address text that names this principal.
    pub fn address(&self) -> (r: &String)
        ensures
            r@ == self@,
    {
        &self.address
    }
}

impl Clone for Principal {
    fn clone(&self) -> (r: Self)
        ensures
            r@ == self@,
    {
        Principal { address: self.address.clone() }
    }
}

impl PartialEq for Principal {
    fn eq(&self, other: &Principal) -> (r: bool) {
        self.address == other.address
    }
}

impl vstd::std_specs::cmp::PartialEqSpecImpl for Principal {
    open spec fn obeys_eq_spec() -> bool {
        true
    }

    open spec fn eq_spec(&self, other: &Principal) -> bool {
        self@ == other@
    }
}

} // verus!
