//! Telemetry as the service receives it: frames are counted and acknowledged, and every few
//! seconds the rate at which they come is reported.

use vstd::prelude::*;

use crate::status::StatusView;
use crate::status::{Code, Status};

verus! {

/// How many seconds lie between two reports on a stream.
pub const LOG_INTERVAL_SECS: u64 = 5;

/// The service of telemetry streams.
pub struct TelemetryServer;

/// The answer to a frame: how many came so far, and whether to slow down.
#[derive(Debug, Clone, Copy, PartialEq, Eq, Structural)]
pub struct TelemetryAck {
    pub frames_received: u64,
    pub throttle: bool,
}

/// A report on a stream: the device of the latest frame, the frames since the last report,
/// the frames in all, and how many came in a second.
#[derive(Debug)]
pub struct WindowReport {
    pub device_id: String,
    pub frames_in_window: u64,
    pub frames_total: u64,
    pub fps: u64,
}

/// The last report on a stream: the frames since the one before it, and the frames in all.
#[derive(Debug)]
pub struct FinalReport {
    pub device_id: String,
    pub frames_in_window: u64,
    pub frames_total: u64,
}

/// A telemetry stream as the service sees it.
pub struct TelemetrySession {
    frames_received: u64,
    frames_in_window: u64,
    device_id: String,
}

/// The state of a [`TelemetrySession`].
#[verifier::ext_equal]
pub struct CountView {
    pub received: nat,
    pub in_window: nat,
    pub device_id: Seq<char>,
}

impl View for TelemetrySession {
    type V = CountView;

    closed spec fn view(&self) -> CountView {
        CountView {
            received: self.frames_received as nat,
            in_window: self.frames_in_window as nat,
            device_id: self.device_id@,
        }
    }
}

/// A report is due when the last one, or the start of the stream, lies this many seconds
/// back.
pub open spec fn report_due(elapsed_secs: u64) -> bool {
    elapsed_secs >= LOG_INTERVAL_SECS
}

/// The state after one more frame.
pub open spec fn counted(session: CountView, device_id: Seq<char>, elapsed_secs: u64) -> CountView {
    CountView {
        received: session.received + 1,
        in_window: if report_due(elapsed_secs) {
            0
        } else {
            session.in_window + 1
        },
        device_id,
    }
}

impl TelemetryServer {
    /// A stream on which nothing came in yet.
    pub fn open_stream(&self) -> (r: TelemetrySession)
        ensures
            r@ == (CountView { received: 0, in_window: 0, device_id: Seq::empty() }),
    {
        let r = TelemetrySession {
            frames_received: 0,
            frames_in_window: 0,
            device_id: String::new(),
        };
        assert(r@.device_id =~= Seq::empty());
        r
    }
}

impl TelemetrySession {
    /// The frames since the last report are among those received.
    pub open spec fn wf(&self) -> bool {
        self@.in_window <= self@.received
    }

    /// A frame came in from `device_id`, `elapsed_secs` whole seconds after the last report or
    /// the start. It is acknowledged; where a report comes with it, the next window starts.
    pub fn frame(&mut self, device_id: &str, elapsed_secs: u64) -> (r: (
        TelemetryAck,
        Option<WindowReport>,
    ))
        requires
            old(self).wf(),
            old(self)@.received < u64::MAX,
        ensures
            final(self).wf(),
            final(self)@ == counted(old(self)@, device_id@, elapsed_secs),
            r.0 == (TelemetryAck {
                frames_received: (old(self)@.received + 1) as u64,
                throttle: false,
            }),
            match r.1 {
                Some(report) => {
                    &&& report_due(elapsed_secs)
                    &&& report.device_id@ == device_id@
                    &&& report.frames_in_window == old(self)@.in_window + 1
                    &&& report.frames_total == old(self)@.received + 1
                    &&& report.fps == (old(self)@.in_window + 1) / LOG_INTERVAL_SECS as nat
                },
                None => !report_due(elapsed_secs),
            },
            r.0.frames_received == final(self)@.received,
            !r.0.throttle,
            r.1 is Some <==> elapsed_secs >= 5,
            r.1 matches Some(report) ==> report.fps == (old(self)@.in_window + 1) / 5nat,
    {
        self.frames_received = self.frames_received + 1;
        self.frames_in_window = self.frames_in_window + 1;
        self.device_id = device_id.to_owned();
        let report: Option<WindowReport> = if elapsed_secs >= LOG_INTERVAL_SECS {
            let due = WindowReport {
                device_id: device_id.to_owned(),
                frames_in_window: self.frames_in_window,
                frames_total: self.frames_received,
                fps: self.frames_in_window / LOG_INTERVAL_SECS,
            };
            self.frames_in_window = 0;
            Some(due)
        } else {
            None
        };
        (TelemetryAck { frames_received: self.frames_received, throttle: false }, report)
    }

    /// The stream failed: the sender is told, and nothing more is read.
    pub fn failed(&self, error: String) -> (r: Status)
        ensures
            r@ == (StatusView { code: Code::Internal, message: error@ }),
    {
        Status::new(Code::Internal, error)
    }

    /// The stream is over. Frames that no report speaks of yet get one.
    pub fn ended(&self) -> (r: Option<FinalReport>)
        ensures
            match r {
                Some(report) => {
                    &&& self@.in_window > 0
                    &&& report.device_id@ == self@.device_id
                    &&& report.frames_in_window == self@.in_window
                    &&& report.frames_total == self@.received
                },
                None => self@.in_window == 0,
            },
    {
        if self.frames_in_window > 0 {
            Some(
                FinalReport {
                    device_id: self.device_id.clone(),
                    frames_in_window: self.frames_in_window,
                    frames_total: self.frames_received,
                },
            )
        } else {
            None
        }
    }
}

/// The state after a series of frames, each from a device and some seconds after the last
/// report.
pub open spec fn after_frames(session: CountView, frames: Seq<(Seq<char>, u64)>) -> CountView
    decreases frames.len(),
{
    if frames.len() == 0 {
        session
    } else {
        let last = frames.last();
        counted(after_frames(session, frames.drop_last()), last.0, last.1)
    }
}

/// How many frames the reports speak of that come with a series of frames.
pub open spec fn reported(session: CountView, frames: Seq<(Seq<char>, u64)>) -> nat
    decreases frames.len(),
{
    if frames.len() == 0 {
        0
    } else {
        let earlier = reported(session, frames.drop_last());
        if report_due(frames.last().1) {
            earlier + after_frames(session, frames.drop_last()).in_window + 1
        } else {
            earlier
        }
    }
}

/// Each frame is counted once in all and once in a window: what was reported and what still
/// waits for a report are all the frames.
pub proof fn reports_account_for_every_frame(
    session: CountView,
    frames: Seq<(Seq<char>, u64)>,
)
    ensures
        after_frames(session, frames).received == session.received + frames.len(),
        session.in_window + frames.len() == reported(session, frames) + after_frames(
            session,
            frames,
        ).in_window,
    decreases frames.len(),
{
    if frames.len() > 0 {
        reports_account_for_every_frame(session, frames.drop_last());
    }
}

/// A frame is counted once, and the device is the one that it came from. Five seconds after
/// the last report, or later, a new window starts; before that, the window grows.
pub proof fn windows_last_five_seconds(
    session: CountView,
    device_id: Seq<char>,
    elapsed_secs: u64,
)
    ensures
        counted(session, device_id, elapsed_secs).received == session.received + 1,
        counted(session, device_id, elapsed_secs).device_id == device_id,
        elapsed_secs >= 5 ==> counted(session, device_id, elapsed_secs).in_window == 0,
        elapsed_secs < 5 ==> counted(session, device_id, elapsed_secs).in_window
            == session.in_window + 1,
        report_due(elapsed_secs) <==> elapsed_secs >= 5,
{
}

} // verus!
