//! Identities of the three helper parties. The ring successor and
//! predecessor drive the sharing arithmetic: helper `i` holds the pair
//! `(a_i, a_{i+1})` of the three additive shares.

use vstd::prelude::*;

verus! {

/// One of the three cooperating helper parties.
#[derive(Clone, Copy, PartialEq, Eq, Structural, Debug, Hash)]
pub enum Role {
    H1,
    H2,
    H3,
}

impl Role {
    pub open spec fn spec_index(self) -> nat {
        match self {
            Role::H1 => 0,
            Role::H2 => 1,
            Role::H3 => 2,
        }
    }

    /// The position of this helper on the ring.
    pub fn as_index(self) -> (r: usize)
        ensures
            r as nat == self.spec_index(),
    {
        match self {
            Role::H1 => 0,
            Role::H2 => 1,
            Role::H3 => 2,
        }
    }

    /// The next helper on the ring.
    pub fn peer_succ(self) -> (r: Role)
        ensures
            r.spec_index() == (self.spec_index() + 1) % 3,
    {
        match self {
            Role::H1 => Role::H2,
            Role::H2 => Role::H3,
            Role::H3 => Role::H1,
        }
    }

    /// The previous helper on the ring.
    pub fn peer_pred(self) -> (r: Role)
        ensures
            r.spec_index() as int == (self.spec_index() - 1) % 3,
    {
        match self {
            Role::H1 => Role::H3,
            Role::H2 => Role::H1,
            Role::H3 => Role::H2,
        }
    }
}

} // verus!
