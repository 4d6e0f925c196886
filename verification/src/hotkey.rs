//! The activation key, whichever way it is watched.

use vstd::prelude::*;

use crate::session;
use crate::session::Action;
use crate::session::Session;

verus! {

/// A change of the activation key.
#[derive(Clone, Copy, PartialEq, Eq, Debug, Structural)]
pub enum Edge {
    Pressed,
    Released,
}

/// What a change of the activation key does to a session.
pub open spec fn edge_step(m: session::Model, edge: Edge) -> session::Step {
    match edge {
        Edge::Pressed => m.press(),
        Edge::Released => m.release(),
    }
}

/// Hands a change of the activation key to the session.
pub fn on_edge(session: &mut Session, edge: Edge) -> (r: Vec<Action<String>>)
    ensures
        final(session)@ == edge_step(old(session)@, edge).next,
        session::action_texts(r@) == edge_step(old(session)@, edge).actions,
        old(session)@.wf() ==> final(session)@.wf(),
{
    match edge {
        Edge::Pressed => session.on_press(),
        Edge::Released => session.on_release(),
    }
}

/// The activation key does the same whichever way it is watched: its edges are a press
/// and a release of the hotkey.
pub proof fn law_edges_press_and_release(
    a: &mut Session,
    down: Vec<Action<String>>,
    b: &mut Session,
    pressed: Vec<Action<String>>,
    c: &mut Session,
    up: Vec<Action<String>>,
    d: &mut Session,
    released: Vec<Action<String>>,
)
    requires
        call_ensures(on_edge, (a, Edge::Pressed), down),
        call_ensures(Session::on_press, (b,), pressed),
        old(a)@ == old(b)@,
        call_ensures(on_edge, (c, Edge::Released), up),
        call_ensures(Session::on_release, (d,), released),
        old(c)@ == old(d)@,
    ensures
        final(a)@ == final(b)@,
        session::action_texts(down@) == session::action_texts(pressed@),
        final(c)@ == final(d)@,
        session::action_texts(up@) == session::action_texts(released@),
{
}

}
