//! The `fn` key as activation key.

use vstd::prelude::*;

use crate::hotkey::Edge;

verus! {

/// Watches the `fn` key, which comes as one flag among those of all modifiers.
pub struct FnKey {
    down: bool,
}

impl View for FnKey {
    type V = bool;

    closed spec fn view(&self) -> bool {
        self.down
    }
}

impl FnKey {
    /// The key is up.
    pub fn new() -> (r: Self)
        ensures
            !r@,
    {
        FnKey { down: false }
    }

    /// Takes the flag of the key from a change of the modifiers. Other modifiers
    /// change too, so only a change of this one counts.
    pub fn on_flags(&mut self, down: bool) -> (r: Option<Edge>)
        ensures
            final(self)@ == down,
            r == if down == old(self)@ {
                None
            } else if down {
                Some(Edge::Pressed)
            } else {
                Some(Edge::Released)
            },
    {
        if down == self.down {
            return None;
        }
        self.down = down;
        if down {
            Some(Edge::Pressed)
        } else {
            Some(Edge::Released)
        }
    }
}

/// The key starts up. An edge comes exactly where the key changes, a press where it goes
/// down and a release where it goes up, so the two take turns.
pub proof fn law_edges_take_turns(
    fresh: FnKey,
    k: &mut FnKey,
    down: bool,
    r: Option<Edge>,
)
    requires
        call_ensures(FnKey::new, (), fresh),
        call_ensures(FnKey::on_flags, (k, down), r),
    ensures
        !fresh@,
        final(k)@ == down,
        r == Some(Edge::Pressed) <==> !old(k)@ && final(k)@,
        r == Some(Edge::Released) <==> old(k)@ && !final(k)@,
        r is None <==> old(k)@ == final(k)@,
{
}

}
