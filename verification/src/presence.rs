//! Whether a camera is attached, and the connection changes that are
//! reported as it comes and goes.

use vstd::prelude::*;

verus! {

/// A change of a camera's presence.
#[derive(Clone, Copy, PartialEq, Eq, Debug, Structural)]
pub enum PresenceChange {
    /// The camera came back: the connection callback runs.
    Connected,
    /// The camera went away: the disconnection callback runs.
    Disconnected,
}

/// The change reported when a camera that was `present` is seen `now`:
/// none when nothing changed.
pub open spec fn presence_change(present: bool, now: bool) -> Option<PresenceChange> {
    if present == now {
        None
    } else if now {
        Some(PresenceChange::Connected)
    } else {
        Some(PresenceChange::Disconnected)
    }
}

/// The changes reported over a series of observations of a camera that was
/// `present` before the first, in order.
pub open spec fn reported_changes(present: bool, seen: Seq<bool>) -> Seq<PresenceChange>
    decreases seen.len(),
{
    if seen.len() == 0 {
        Seq::empty()
    } else {
        let prev = reported_changes(present, seen.drop_last());
        let before = if seen.len() == 1 {
            present
        } else {
            seen[seen.len() - 2]
        };
        match presence_change(before, seen.last()) {
            Some(c) => prev.push(c),
            None => prev,
        }
    }
}

/// Tracks whether a camera is attached.
pub struct PresenceTracker {
    present: bool,
}

impl PresenceTracker {
    /// A tracker for a camera that is present (it was just opened) or not.
    pub fn new(present: bool) -> (r: Self)
        ensures
            r.is_present_spec() == present,
    {
        PresenceTracker { present }
    }

    /// Whether the camera was present when last seen.
    pub closed spec fn is_present_spec(&self) -> bool {
        self.present
    }

    pub fn is_present(&self) -> (r: bool)
        ensures
            r == self.is_present_spec(),
    {
        self.present
    }

    /// Records whether the camera is present now, and gives the change to
    /// report.
    pub fn observe(&mut self, now: bool) -> (r: Option<PresenceChange>)
        ensures
            r == presence_change(old(self).is_present_spec(), now),
            final(self).is_present_spec() == now,
    {
        let change = if self.present == now {
            None
        } else if now {
            Some(PresenceChange::Connected)
        } else {
            Some(PresenceChange::Disconnected)
        };
        self.present = now;
        change
    }
}

/// The reported changes alternate: a connection is never reported twice in
/// a row, nor a disconnection; the first one reported is a disconnection
/// exactly when the camera was present at first; and the last one says
/// where the camera was last seen.
pub proof fn law_changes_alternate(present: bool, seen: Seq<bool>)
    ensures
        ({
            let c = reported_changes(present, seen);
            let last_seen = if seen.len() == 0 {
                present
            } else {
                seen.last()
            };
            &&& forall|i: int| 0 <= i < c.len() - 1 ==> #[trigger] c[i] != c[i + 1]
            &&& c.len() > 0 ==> (c[0] == PresenceChange::Disconnected <==> present)
            &&& c.len() > 0 ==> (c.last() == PresenceChange::Connected <==> last_seen)
            &&& c.len() == 0 ==> last_seen == present
        }),
    decreases seen.len(),
{
    if seen.len() > 0 {
        let init = seen.drop_last();
        law_changes_alternate(present, init);
        let prev = reported_changes(present, init);
        let c = reported_changes(present, seen);
        let before = if seen.len() == 1 {
            present
        } else {
            seen[seen.len() - 2]
        };
        assert(before == (if init.len() == 0 {
            present
        } else {
            init.last()
        }));
        if let Some(x) = presence_change(before, seen.last()) {
            assert(c == prev.push(x));
            assert forall|i: int| 0 <= i < c.len() - 1 implies #[trigger] c[i] != c[i + 1] by {
                if i < prev.len() - 1 {
                    assert(c[i] == prev[i] && c[i + 1] == prev[i + 1]);
                } else {
                    assert(c[i] == prev.last());
                }
            }
        }
    }
}

} // verus!
