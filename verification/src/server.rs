//! The stream of events to one client.

use vstd::prelude::*;

verus! {

/// What happened to a client's stream.
#[derive(Clone, Copy, PartialEq, Eq, Debug, Structural)]
pub enum Delivery {
    /// An event was sent.
    Sent,
    /// An event could not be put into words.
    Unwritable,
    /// An event could not be sent: the client is gone.
    Refused,
    /// The client was too slow, and missed events.
    Lagged(u64),
    /// There are no more events.
    Closed,
}

/// Says whether a client is served on: a client that is gone is not, nor is anyone
/// once there are no more events. Missed events end nothing.
pub fn keeps_client(delivery: Delivery) -> (r: bool)
    ensures
        r == !(delivery is Refused || delivery is Closed),
{
    match delivery {
        Delivery::Refused => false,
        Delivery::Closed => false,
        _ => true,
    }
}

/// A client is let go when it is gone or there are no more events, and for nothing else.
pub proof fn law_clients_are_kept(delivery: Delivery, r: bool)
    requires
        call_ensures(keeps_client, (delivery,), r),
    ensures
        delivery is Refused || delivery is Closed ==> !r,
        delivery is Sent || delivery is Unwritable || delivery is Lagged ==> r,
{
}

}
