//! The menu in the menu bar.

use vstd::prelude::*;

use crate::session::Session;
use crate::text;

verus! {

/// What the meeting item says.
pub open spec fn meeting_label(meeting: bool, detected: bool) -> Seq<char> {
    if meeting {
        "Stop Meeting Transcript"@
    } else if detected {
        "Meeting detected — Start Transcript"@
    } else {
        "Start Meeting Transcript"@
    }
}

/// What the meeting item says, by what the session does and not by what was asked
/// of it: a session that is not ready does not begin a meeting.
pub fn sync_label(session: &Session) -> (r: &'static str)
    ensures
        r@ == meeting_label(session@.meeting, session@.detected is Some),
{
    if session.is_meeting() {
        "Stop Meeting Transcript"
    } else if session.meeting_detected() {
        "Meeting detected — Start Transcript"
    } else {
        "Start Meeting Transcript"
    }
}

/// An item of the menu.
#[derive(Clone, Copy, PartialEq, Eq, Debug, Structural)]
pub enum MenuItem {
    Settings,
    Meeting,
    ToggleWindow,
    Quit,
}

/// What choosing an item does.
#[derive(Clone, Copy, PartialEq, Eq, Debug, Structural)]
pub enum MenuAction {
    Quit,
    ShowSettings,
    /// A meeting begins, and the meeting item is labelled anew.
    StartMeeting,
    /// The meeting ends, and the meeting item is labelled anew.
    StopMeeting,
    HideWindow,
    /// The window is shown and gets the focus.
    ShowWindow,
    Nothing,
}

/// The item with the given identifier.
pub open spec fn item_of(id: Seq<char>) -> Option<MenuItem> {
    if id == "quit"@ {
        Some(MenuItem::Quit)
    } else if id == "settings"@ {
        Some(MenuItem::Settings)
    } else if id == "meeting"@ {
        Some(MenuItem::Meeting)
    } else if id == "toggle_window"@ {
        Some(MenuItem::ToggleWindow)
    } else {
        None
    }
}

/// What choosing an item does, by whether a meeting is on and whether the window is
/// known to be visible.
pub open spec fn chosen(item: Option<MenuItem>, meeting: bool, visible: bool) -> MenuAction {
    match item {
        Some(MenuItem::Quit) => MenuAction::Quit,
        Some(MenuItem::Settings) => MenuAction::ShowSettings,
        Some(MenuItem::Meeting) => if meeting {
            MenuAction::StopMeeting
        } else {
            MenuAction::StartMeeting
        },
        Some(MenuItem::ToggleWindow) => if visible {
            MenuAction::HideWindow
        } else {
            MenuAction::ShowWindow
        },
        None => MenuAction::Nothing,
    }
}

/// What choosing the item with the given identifier does.
pub fn on_menu_event(id: &str, meeting: bool, visible: bool) -> (r: MenuAction)
    ensures
        r == chosen(item_of(id@), meeting, visible),
{
    if text::same_text(id, "quit") {
        MenuAction::Quit
    } else if text::same_text(id, "settings") {
        MenuAction::ShowSettings
    } else if text::same_text(id, "meeting") {
        if meeting {
            MenuAction::StopMeeting
        } else {
            MenuAction::StartMeeting
        }
    } else if text::same_text(id, "toggle_window") {
        if visible {
            MenuAction::HideWindow
        } else {
            MenuAction::ShowWindow
        }
    } else {
        MenuAction::Nothing
    }
}

/// The meeting item offers to stop a meeting that is on. Else it offers to start one, and
/// says so if one was noticed.
pub proof fn law_meeting_item_says_what_it_does(s: &Session, r: &'static str)
    requires
        call_ensures(sync_label, (s,), r),
    ensures
        s@.meeting ==> r@ == "Stop Meeting Transcript"@,
        !s@.meeting && s@.detected is Some ==> r@ == "Meeting detected — Start Transcript"@,
        !s@.meeting && s@.detected is None ==> r@ == "Start Meeting Transcript"@,
{
}

/// Each item does one thing, the meeting item and the window item the opposite of what
/// is, and there are no others.
pub proof fn law_items_do_what_they_say(id: &str, meeting: bool, visible: bool, r: MenuAction)
    requires
        call_ensures(on_menu_event, (id, meeting, visible), r),
    ensures
        id@ == "quit"@ ==> r is Quit,
        id@ == "settings"@ ==> r is ShowSettings,
        id@ == "meeting"@ && meeting ==> r is StopMeeting,
        id@ == "meeting"@ && !meeting ==> r is StartMeeting,
        id@ == "toggle_window"@ && visible ==> r is HideWindow,
        id@ == "toggle_window"@ && !visible ==> r is ShowWindow,
        id@ != "quit"@ && id@ != "settings"@ && id@ != "meeting"@ && id@ != "toggle_window"@
            ==> r is Nothing,
{
    reveal_strlit("quit");
    reveal_strlit("settings");
    reveal_strlit("meeting");
    reveal_strlit("toggle_window");
    assert("quit"@.len() == 4 && "settings"@.len() == 8);
    assert("meeting"@.len() == 7 && "toggle_window"@.len() == 13);
}

}
