//! The state of a capture session: whether it runs, the mode it runs in and
//! the latest frame waiting to be taken.

use vstd::prelude::*;

use crate::error::UvcError;
use crate::frame::Frame;
use crate::types::{DeviceInfo, Format};

verus! {

/// The state of a capture session. Only the latest frame is kept: a new frame
/// replaces one that was not taken, and taking a frame leaves none.
pub struct CaptureState {
    running: bool,
    latest_frame: Option<Frame>,
    current_format: Option<(u32, u32, Format)>,
}

impl View for CaptureState {
    /// Whether it runs, the latest frame, and the width, height and format it
    /// captures in.
    type V = (bool, Option<Frame>, Option<(u32, u32, Format)>);

    closed spec fn view(&self) -> Self::V {
        (self.running, self.latest_frame, self.current_format)
    }
}

/// The state once the session has started in `mode` (width, height and
/// format).
pub open spec fn started(
    s: (bool, Option<Frame>, Option<(u32, u32, Format)>),
    mode: (u32, u32, Format),
) -> (bool, Option<Frame>, Option<(u32, u32, Format)>) {
    (true, s.1, Some(mode))
}

/// The state once the session has stopped: not running, no frame waiting.
pub open spec fn stopped(
    s: (bool, Option<Frame>, Option<(u32, u32, Format)>),
) -> (bool, Option<Frame>, Option<(u32, u32, Format)>) {
    (false, None, s.2)
}

/// The state once a frame has arrived.
pub open spec fn published(
    s: (bool, Option<Frame>, Option<(u32, u32, Format)>),
    f: Frame,
) -> (bool, Option<Frame>, Option<(u32, u32, Format)>) {
    (s.0, Some(f), s.2)
}

/// The state once the waiting frame has been taken.
pub open spec fn taken(
    s: (bool, Option<Frame>, Option<(u32, u32, Format)>),
) -> (bool, Option<Frame>, Option<(u32, u32, Format)>) {
    (s.0, None, s.2)
}

/// What an attempt to start answers: `AlreadyRunning` while a session runs.
pub open spec fn start_answer(s: (bool, Option<Frame>, Option<(u32, u32, Format)>)) -> Result<
    (),
    UvcError,
> {
    if s.0 {
        Err(UvcError::AlreadyRunning)
    } else {
        Ok(())
    }
}

impl CaptureState {
    /// A session that has not started.
    pub fn new() -> (r: Self)
        ensures
            r@ == (false, None::<Frame>, None::<(u32, u32, Format)>),
    {
        CaptureState { running: false, latest_frame: None, current_format: None }
    }

    pub fn is_running(&self) -> (r: bool)
        ensures
            r == self@.0,
    {
        self.running
    }

    /// The width, height and format the session captures in, once recorded.
    pub fn current_format(&self) -> (r: Option<(u32, u32, Format)>)
        ensures
            r == self@.2,
    {
        self.current_format
    }

    /// Whether a session may start: `AlreadyRunning` while one runs.
    pub fn check_start(&self) -> (r: Result<(), UvcError>)
        ensures
            r == start_answer(self@),
    {
        if self.running {
            Err(UvcError::AlreadyRunning)
        } else {
            Ok(())
        }
    }

    /// Records that the session runs, in the width, height and format the
    /// device accepted.
    pub fn mark_started(&mut self, width: u32, height: u32, format: Format)
        ensures
            final(self)@ == started(old(self)@, (width, height, format)),
    {
        self.current_format = Some((width, height, format));
        self.running = true;
    }

    /// Whether stopping has anything to tear down: stopping a session that
    /// does not run does nothing.
    pub fn stop_needed(&self) -> (r: bool)
        ensures
            r == self@.0,
    {
        self.running
    }

    /// Records that the session stopped; the frame that was waiting is
    /// dropped.
    pub fn mark_stopped(&mut self)
        ensures
            final(self)@ == stopped(old(self)@),
    {
        self.running = false;
        self.latest_frame = None;
    }

    /// Keeps a newly captured frame, replacing one that was not taken.
    pub fn publish_frame(&mut self, frame: Frame)
        ensures
            final(self)@ == published(old(self)@, frame),
    {
        self.latest_frame = Some(frame);
    }

    /// Takes the latest frame, if one is waiting.
    pub fn take_frame(&mut self) -> (r: Option<Frame>)
        ensures
            r == old(self)@.1,
            final(self)@ == taken(old(self)@),
    {
        let r = self.latest_frame.take();
        r
    }
}

/// A frame that arrives is the one the next take gives back.
pub proof fn law_take_returns_published(s: (bool, Option<Frame>, Option<(u32, u32, Format)>), f: Frame)
    ensures
        published(s, f).1 == Some(f),
{
}

/// A frame is given back once: after a take, the next take gives nothing
/// unless a frame arrived in between.
pub proof fn law_take_once(s: (bool, Option<Frame>, Option<(u32, u32, Format)>))
    ensures
        taken(s).1 is None,
        taken(taken(s)) == taken(s),
{
}

/// Of two frames that arrive before a take, the take gives the later one.
pub proof fn law_latest_frame_wins(
    s: (bool, Option<Frame>, Option<(u32, u32, Format)>),
    f1: Frame,
    f2: Frame,
)
    ensures
        published(published(s, f1), f2).1 == Some(f2),
{
}

/// Once a session has started, starting again answers `AlreadyRunning`.
pub proof fn law_start_twice(
    s: (bool, Option<Frame>, Option<(u32, u32, Format)>),
    mode: (u32, u32, Format),
)
    ensures
        start_answer(started(s, mode)) == Err::<(), UvcError>(UvcError::AlreadyRunning),
{
}

/// A stopped session may start again, and holds no frame.
pub proof fn law_stop_then_start(s: (bool, Option<Frame>, Option<(u32, u32, Format)>))
    ensures
        start_answer(stopped(s)) == Ok::<(), UvcError>(()),
        stopped(s).1 is None,
        !stopped(s).0,
{
}

// ---------------------------------------------------------------------------
// Sessions over time
// ---------------------------------------------------------------------------

/// What happens to a session: a start that succeeded (in the mode the device
/// accepted), a call to stop, a frame that arrives, a frame that is taken.
pub enum SessionEvent {
    Started(u32, u32, Format),
    StopCalled,
    FrameArrived(Frame),
    FrameTaken,
}

/// A call to stop: a running session stops; one that does not run is left
/// as it is.
pub open spec fn stop_called(
    s: (bool, Option<Frame>, Option<(u32, u32, Format)>),
) -> (bool, Option<Frame>, Option<(u32, u32, Format)>) {
    if s.0 {
        stopped(s)
    } else {
        s
    }
}

/// The state after one event.
pub open spec fn session_step(
    s: (bool, Option<Frame>, Option<(u32, u32, Format)>),
    e: SessionEvent,
) -> (bool, Option<Frame>, Option<(u32, u32, Format)>) {
    match e {
        SessionEvent::Started(w, h, f) => started(s, (w, h, f)),
        SessionEvent::StopCalled => stop_called(s),
        SessionEvent::FrameArrived(frame) => published(s, frame),
        SessionEvent::FrameTaken => taken(s),
    }
}

/// The state after the events, in order.
pub open spec fn session_after(
    s: (bool, Option<Frame>, Option<(u32, u32, Format)>),
    events: Seq<SessionEvent>,
) -> (bool, Option<Frame>, Option<(u32, u32, Format)>)
    decreases events.len(),
{
    if events.len() == 0 {
        s
    } else {
        session_step(session_after(s, events.drop_last()), events.last())
    }
}

/// The state of a session that has not started.
pub open spec fn initial_session() -> (bool, Option<Frame>, Option<(u32, u32, Format)>) {
    (false, None, None)
}

/// Some start succeeded and stop was not called after it.
pub open spec fn started_since_stop(events: Seq<SessionEvent>) -> bool {
    exists|i: int|
        0 <= i < events.len() && #[trigger] events[i] is Started && forall|j: int|
            i < j < events.len() ==> !(#[trigger] events[j] is StopCalled)
}

/// A session runs exactly when a start succeeded and stop was not called
/// after it; a running session has its mode recorded.
pub proof fn law_running_iff_started_since_stop(events: Seq<SessionEvent>)
    ensures
        session_after(initial_session(), events).0 <==> started_since_stop(events),
        session_after(initial_session(), events).0 ==> session_after(initial_session(), events).2 is Some,
    decreases events.len(),
{
    if events.len() > 0 {
        let init = events.drop_last();
        law_running_iff_started_since_stop(init);
        let n = events.len() - 1;
        assert forall|i: int| 0 <= i < init.len() implies init[i] == events[i] by {}
        match events.last() {
            SessionEvent::Started(..) => {
                assert(events[n] is Started);
                assert(started_since_stop(events));
            },
            SessionEvent::StopCalled => {
                if started_since_stop(events) {
                    let i = choose|i: int|
                        0 <= i < events.len() && #[trigger] events[i] is Started && forall|j: int|
                            i < j < events.len() ==> !(#[trigger] events[j] is StopCalled);
                    if i < n {
                        assert(events[n] is StopCalled);
                    }
                }
            },
            _ => {
                if started_since_stop(events) {
                    let i = choose|i: int|
                        0 <= i < events.len() && #[trigger] events[i] is Started && forall|j: int|
                            i < j < events.len() ==> !(#[trigger] events[j] is StopCalled);
                    assert(i < n);
                    assert(init[i] is Started);
                    assert forall|j: int| i < j < init.len() implies !(#[trigger] init[j] is StopCalled) by {
                        assert(init[j] == events[j]);
                    }
                    assert(started_since_stop(init));
                }
                if started_since_stop(init) {
                    let i = choose|i: int|
                        0 <= i < init.len() && #[trigger] init[i] is Started && forall|j: int|
                            i < j < init.len() ==> !(#[trigger] init[j] is StopCalled);
                    assert(events[i] is Started);
                    assert forall|j: int| i < j < events.len() implies !(#[trigger] events[j] is StopCalled) by {
                        if j < n {
                            assert(init[j] == events[j]);
                        }
                    }
                    assert(started_since_stop(events));
                }
            },
        }
    }
}

// ---------------------------------------------------------------------------
// Opened devices
// ---------------------------------------------------------------------------

/// The device at `index` of the list, or `DeviceNotFound(index)` when the
/// list is shorter.
pub fn select_device(devices: Vec<DeviceInfo>, index: u32) -> (r: Result<DeviceInfo, UvcError>)
    ensures
        index >= devices@.len() ==> r == Err::<DeviceInfo, UvcError>(UvcError::DeviceNotFound(index)),
        index < devices@.len() ==> r == Ok::<DeviceInfo, UvcError>(devices@[index as int]),
{
    let mut devices = devices;
    if index as usize >= devices.len() {
        return Err(UvcError::DeviceNotFound(index));
    }
    Ok(devices.swap_remove(index as usize))
}

/// An opened camera: the description it was opened with and the state of its
/// capture session. Nothing that the session does changes the description.
pub struct DeviceSession {
    info: DeviceInfo,
    capture: CaptureState,
}

/// The name, unique id and index of a description.
pub open spec fn description(d: DeviceInfo) -> (Seq<char>, Seq<char>, u32) {
    (d.name@, d.unique_id@, d.index)
}

impl DeviceSession {
    /// The description the device was opened with.
    pub closed spec fn spec_description(&self) -> (Seq<char>, Seq<char>, u32) {
        description(self.info)
    }

    /// The state of the capture session.
    pub closed spec fn spec_capture(&self) -> (bool, Option<Frame>, Option<(u32, u32, Format)>) {
        self.capture@
    }

    /// Opens the device at `index` of the list, or answers
    /// `DeviceNotFound(index)` when the list is shorter.
    pub fn open(devices: Vec<DeviceInfo>, index: u32) -> (r: Result<Self, UvcError>)
        ensures
            index >= devices@.len() ==> r is Err && r->Err_0 == UvcError::DeviceNotFound(index),
            index < devices@.len() ==> {
                &&& r is Ok
                &&& r->Ok_0.spec_description() == description(devices@[index as int])
                &&& r->Ok_0.spec_capture() == initial_session()
            },
    {
        match select_device(devices, index) {
            Ok(info) => Ok(DeviceSession { info, capture: CaptureState::new() }),
            Err(e) => Err(e),
        }
    }

    /// A copy of the description, the same on every read.
    pub fn info(&self) -> (r: DeviceInfo)
        ensures
            description(r) == self.spec_description(),
    {
        DeviceInfo::new(self.info.name.clone(), self.info.unique_id.clone(), self.info.index)
    }

    pub fn is_running(&self) -> (r: bool)
        ensures
            r == self.spec_capture().0,
    {
        self.capture.is_running()
    }

    /// The width, height and format the session captures in, once started.
    pub fn current_format(&self) -> (r: Option<(u32, u32, Format)>)
        ensures
            r == self.spec_capture().2,
    {
        self.capture.current_format()
    }

    /// Whether a session may start: `AlreadyRunning` while one runs.
    pub fn check_start(&self) -> (r: Result<(), UvcError>)
        ensures
            r == start_answer(self.spec_capture()),
    {
        self.capture.check_start()
    }

    /// Records that the session runs, in the mode the device accepted.
    pub fn mark_started(&mut self, width: u32, height: u32, format: Format)
        ensures
            final(self).spec_capture() == session_step(
                old(self).spec_capture(),
                SessionEvent::Started(width, height, format),
            ),
            final(self).spec_description() == old(self).spec_description(),
    {
        self.capture.mark_started(width, height, format);
    }

    /// Whether stopping has anything to tear down.
    pub fn stop_needed(&self) -> (r: bool)
        ensures
            r == self.spec_capture().0,
    {
        self.capture.stop_needed()
    }

    /// Records that stop was called: a running session stops and the frame
    /// that was waiting is dropped; one that does not run is left as it is.
    pub fn mark_stopped(&mut self)
        ensures
            final(self).spec_capture() == session_step(old(self).spec_capture(), SessionEvent::StopCalled),
            final(self).spec_description() == old(self).spec_description(),
    {
        if self.capture.stop_needed() {
            self.capture.mark_stopped();
        }
    }

    /// Keeps a newly captured frame, replacing one that was not taken.
    pub fn publish_frame(&mut self, frame: Frame)
        ensures
            final(self).spec_capture() == session_step(old(self).spec_capture(), SessionEvent::FrameArrived(frame)),
            final(self).spec_description() == old(self).spec_description(),
    {
        self.capture.publish_frame(frame);
    }

    /// Takes the latest frame, if one is waiting.
    pub fn take_frame(&mut self) -> (r: Option<Frame>)
        ensures
            r == old(self).spec_capture().1,
            final(self).spec_capture() == session_step(old(self).spec_capture(), SessionEvent::FrameTaken),
            final(self).spec_description() == old(self).spec_description(),
    {
        self.capture.take_frame()
    }
}

/// The index a device is opened by: the index given, or the index of the
/// device description given; none when neither was given.
pub fn requested_index(index: Option<u32>, info: Option<&DeviceInfo>) -> (r: Option<u32>)
    ensures
        index is Some ==> r == index,
        index is None && info is Some ==> r == Some(info->Some_0.index),
        index is None && info is None ==> r is None,
{
    match index {
        Some(i) => Some(i),
        None => match info {
            Some(d) => Some(d.index),
            None => None,
        },
    }
}

} // verus!
