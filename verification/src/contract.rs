use vstd::prelude::*;

verus! {

/// The contents of a task's contract, one field per seq of characters.
pub ghost struct ContractView {
    pub receives: Seq<char>,
    pub produces: Seq<char>,
    pub verify: Seq<char>,
}

/// What a task receives, what it produces, and how to verify success.
/// A task cannot enter InProgress without one.
pub struct Contract {
    pub receives: String,
    pub produces: String,
    pub verify: String,
}

impl View for Contract {
    type V = ContractView;

    open spec fn view(&self) -> ContractView {
        ContractView { receives: self.receives@, produces: self.produces@, verify: self.verify@ }
    }
}

impl Clone for Contract {
    fn clone(&self) -> (r: Self)
        ensures
            r@ == self@,
    {
        Contract {
            receives: self.receives.clone(),
            produces: self.produces.clone(),
            verify: self.verify.clone(),
        }
    }
}

impl Contract {
    pub fn new(receives: String, produces: String, verify: String) -> (r: Self)
        ensures
            r@ == (ContractView { receives: receives@, produces: produces@, verify: verify@ }),
    {
        Contract { receives, produces, verify }
    }

    pub fn receives(&self) -> (r: &str)
        ensures
            r@ == self@.receives,
    {
        self.receives.as_str()
    }

    pub fn produces(&self) -> (r: &str)
        ensures
            r@ == self@.produces,
    {
        self.produces.as_str()
    }

    pub fn verify(&self) -> (r: &str)
        ensures
            r@ == self@.verify,
    {
        self.verify.as_str()
    }
}

} // verus!
