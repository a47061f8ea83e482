//! The server's settings.

use vstd::prelude::*;

verus! {

/// The settings the server starts with.
pub struct Args {
    address: String,
}

impl View for Args {
    type V = Seq<char>;

    /// The address to listen on.
    closed spec fn view(&self) -> Seq<char> {
        self.address@
    }
}

impl Args {
    /// Settings that listen on `address`.
    pub fn new(address: String) -> (r: Args)
        ensures
            r@ == address@,
    {
        Args { address }
    }

    /// The address to listen on.
    pub fn address(&self) -> (r: String)
        ensures
            r@ == self@,
    {
        self.address.clone()
    }
}

impl Default for Args {
    /// Listen on port 4567 of every interface.
    fn default() -> (r: Args)
        ensures
            r@ == "0.0.0.0:4567"@,
    {
        Args { address: "0.0.0.0:4567".to_owned() }
    }
}

} // verus!
