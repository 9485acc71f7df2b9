//! Permits of channels.

use vstd::prelude::*;

use crate::select;

verus! {

/// What a channel permits a selected sender or receiver to do.
#[derive(Copy, Clone, Debug, PartialEq, Eq, Structural)]
pub enum Permit {
    /// Learn that the channel is closed.
    Closed,
    /// Send or receive one value.
    Consume,
}

impl Permit {
    pub open spec fn spec_primitive(self) -> usize {
        match self {
            Permit::Closed => 0,
            Permit::Consume => 1,
        }
    }

    /// Converts this permit to the one that selection hands out.
    pub fn into_select(self) -> (permit: select::Permit)
        ensures
            permit@ == (select::PermitView { primitive: self.spec_primitive(), attendant: None }),
    {
        match self {
            Permit::Closed => select::Permit::with_primitive(0),
            Permit::Consume => select::Permit::with_primitive(1),
        }
    }

    /// Converts back a permit that came from [Permit::into_select].
    pub fn from_select(permit: select::Permit) -> (own: Permit)
        requires
            permit@.attendant is None,
            permit@.primitive < 2,
        ensures
            own.spec_primitive() == permit@.primitive,
    {
        if permit.into_primitive() == 0 {
            Permit::Closed
        } else {
            Permit::Consume
        }
    }
}

/// A permit survives its way through selection.
pub proof fn law_permit_round_trip(permit: Permit, other: Permit)
    ensures
        permit.spec_primitive() < 2,
        permit.spec_primitive() == other.spec_primitive() ==> permit == other,
{
}

/// A permit comes back as it was handed to selection.
pub proof fn law_permit_comes_back(permit: Permit, handed: select::Permit, own: Permit)
    requires
        call_ensures(Permit::into_select, (permit,), handed),
        call_ensures(Permit::from_select, (handed,), own),
    ensures
        own == permit,
        permit is Closed <==> handed@.primitive == 0,
        permit is Consume <==> handed@.primitive == 1,
        handed@.attendant is None,
{
}

} // verus!
