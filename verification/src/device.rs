//! What the host knows of the engraver, and how each command and each reply
//! changes it.  Every command returns the packet to send; the caller writes
//! it to the port.

use vstd::prelude::*;

use crate::protocol::{
    self, spec_move_xy, spec_stop_carving, DeviceMessage, MessageView, MAX_HEIGHT, MAX_WIDTH,
};

verus! {

/// Shared state of the device (readable from the GUI).
#[derive(Debug, Clone, Copy, PartialEq, Eq)]
pub struct DeviceState {
    /// Carving progress, 0-100.
    pub progress: u8,
    /// °C, `None` until the first status packet.
    pub temperature: Option<u8>,
    /// Where the head is, `[x, y]`.
    pub position: [u16; 2],
    /// Whether a job is running.
    pub burning: bool,
}

/// The state with the given fields.
pub open spec fn state_of(progress: u8, temperature: Option<u8>, x: u16, y: u16, burning: bool) -> DeviceState {
    DeviceState { progress, temperature, position: [x, y], burning }
}

impl Default for DeviceState {
    fn default() -> (s: DeviceState)
        ensures
            s == state_of(0, None, 0, 0, false),
    {
        DeviceState { progress: 0, temperature: None, position: [0, 0], burning: false }
    }
}

/// `v` brought into `0 ..= max`.
pub open spec fn clamp_coord(v: int, max: u16) -> u16 {
    if v < 0 {
        0
    } else if v > max {
        max
    } else {
        v as u16
    }
}

/// Whether the head is inside the work area.
pub open spec fn in_work_area(s: DeviceState) -> bool {
    s.position[0] <= MAX_WIDTH && s.position[1] <= MAX_HEIGHT
}

/// The state after a reply of the device.
pub open spec fn spec_apply(s: DeviceState, m: MessageView) -> DeviceState {
    match m {
        MessageView::CarvingProgress { percent, x, y } => DeviceState {
            progress: percent,
            position: [x, y],
            burning: if percent >= 100 {
                false
            } else {
                s.burning
            },
            ..s
        },
        MessageView::Status { temperature } => DeviceState { temperature: Some(temperature), ..s },
        _ => s,
    }
}

/// The state after moving the head towards `(x, y)`, clipped to the work area.
pub open spec fn spec_move_to(s: DeviceState, x: u16, y: u16) -> DeviceState {
    DeviceState {
        position: [clamp_coord(x as int, MAX_WIDTH), clamp_coord(y as int, MAX_HEIGHT)],
        ..s
    }
}

/// The state after moving the head by `(dx, dy)`, clipped to the work area.
pub open spec fn spec_jog(s: DeviceState, dx: int, dy: int) -> DeviceState {
    spec_move_to(
        s,
        clamp_coord(s.position[0] + dx, MAX_WIDTH),
        clamp_coord(s.position[1] + dy, MAX_HEIGHT),
    )
}

/// `v` brought into `lo ..= hi`, as `Ord::clamp` does.
fn clamp_i32(v: i32, lo: i32, hi: i32) -> (r: i32)
    requires
        lo <= hi,
    ensures
        r == if v < lo {
            lo
        } else if v > hi {
            hi
        } else {
            v
        },
{
    if v < lo {
        lo
    } else if v > hi {
        hi
    } else {
        v
    }
}

/// The step of the arrow commands, in work-area units.
pub const ARROW_STEP: u16 = 4;

impl DeviceState {
    /// The state right after connecting: no job running (progress 100), the
    /// rest unknown.
    pub fn connected() -> (s: DeviceState)
        ensures
            s == state_of(100, None, 0, 0, false),
    {
        DeviceState { progress: 100, temperature: None, position: [0, 0], burning: false }
    }

    /// Records a reply of the device: a progress report sets the progress and
    /// the position, and ends the job at 100%; a status report sets the
    /// temperature; other replies change nothing.
    pub fn apply(&mut self, msg: &DeviceMessage)
        ensures
            *final(self) == spec_apply(*old(self), msg@),
    {
        match msg {
            DeviceMessage::CarvingProgress { percent, x, y } => {
                self.progress = *percent;
                self.position = [*x, *y];
                if *percent >= 100 {
                    self.burning = false;
                }
            },
            DeviceMessage::Status { temperature } => {
                self.temperature = Some(*temperature);
            },
            _ => {},
        }
    }

    /// Moves the head to `(x, y)`, clipped to the work area; returns the packet.
    pub fn move_to(&mut self, x: u16, y: u16) -> (packet: Vec<u8>)
        ensures
            *final(self) == spec_move_to(*old(self), x, y),
            packet@ == spec_move_xy(final(self).position[0], final(self).position[1]),
    {
        let x = x.min(MAX_WIDTH);
        let y = y.min(MAX_HEIGHT);
        self.position = [x, y];
        protocol::move_xy(x, y)
    }

    /// Moves the head one step up (towards y = 0).
    pub fn move_up(&mut self) -> (packet: Vec<u8>)
        ensures
            *final(self) == spec_move_to(*old(self), old(self).position[0], clamp_coord(old(self).position[1] - ARROW_STEP, MAX_HEIGHT)),
            packet@ == spec_move_xy(final(self).position[0], final(self).position[1]),
    {
        let x = self.position[0];
        let y = self.position[1];
        self.move_to(x, y.saturating_sub(ARROW_STEP))
    }

    /// Moves the head one step down; the y coordinate must leave room for the step.
    pub fn move_down(&mut self) -> (packet: Vec<u8>)
        requires
            old(self).position[1] + ARROW_STEP <= u16::MAX,
        ensures
            *final(self) == spec_move_to(*old(self), old(self).position[0], clamp_coord(old(self).position[1] + ARROW_STEP, MAX_HEIGHT)),
            packet@ == spec_move_xy(final(self).position[0], final(self).position[1]),
    {
        let x = self.position[0];
        let y = self.position[1];
        self.move_to(x, (y + ARROW_STEP).min(MAX_HEIGHT))
    }

    /// Moves the head one step left (towards x = 0).
    pub fn move_left(&mut self) -> (packet: Vec<u8>)
        ensures
            *final(self) == spec_move_to(*old(self), clamp_coord(old(self).position[0] - ARROW_STEP, MAX_WIDTH), old(self).position[1]),
            packet@ == spec_move_xy(final(self).position[0], final(self).position[1]),
    {
        let x = self.position[0];
        let y = self.position[1];
        self.move_to(x.saturating_sub(ARROW_STEP), y)
    }

    /// Moves the head one step right; the x coordinate must leave room for the step.
    pub fn move_right(&mut self) -> (packet: Vec<u8>)
        requires
            old(self).position[0] + ARROW_STEP <= u16::MAX,
        ensures
            *final(self) == spec_move_to(*old(self), clamp_coord(old(self).position[0] + ARROW_STEP, MAX_WIDTH), old(self).position[1]),
            packet@ == spec_move_xy(final(self).position[0], final(self).position[1]),
    {
        let x = self.position[0];
        let y = self.position[1];
        self.move_to((x + ARROW_STEP).min(MAX_WIDTH), y)
    }

    /// Moves the head by `(dx, dy)`, clipped to the work area; the sums must
    /// fit in an `i32`.
    pub fn jog(&mut self, dx: i32, dy: i32) -> (packet: Vec<u8>)
        requires
            i32::MIN <= old(self).position[0] + dx <= i32::MAX,
            i32::MIN <= old(self).position[1] + dy <= i32::MAX,
        ensures
            *final(self) == spec_jog(*old(self), dx as int, dy as int),
            packet@ == spec_move_xy(final(self).position[0], final(self).position[1]),
    {
        let x = self.position[0];
        let y = self.position[1];
        let nx = clamp_i32(x as i32 + dx, 0, MAX_WIDTH as i32) as u16;
        let ny = clamp_i32(y as i32 + dy, 0, MAX_HEIGHT as i32) as u16;
        self.move_to(nx, ny)
    }

    /// Ends the job; returns the packet that stops carving.
    pub fn stop(&mut self) -> (packet: Vec<u8>)
        ensures
            *final(self) == (DeviceState { burning: false, ..*old(self) }),
            packet@ == spec_stop_carving(),
    {
        self.burning = false;
        protocol::stop_carving()
    }

    /// Records that an image was sent: the job runs, from 0%.
    pub fn start_burn(&mut self)
        ensures
            *final(self) == (DeviceState { progress: 0, burning: true, ..*old(self) }),
    {
        self.progress = 0;
        self.burning = true;
    }

    /// Whether the job is done (progress at 100% or beyond).
    pub fn is_complete(&self) -> (done: bool)
        ensures
            done == (self.progress >= 100),
    {
        self.progress >= 100
    }
}


// ── laws ──────────────────────────────────────────────────────────────────────

/// The motion commands never send the head outside the work area, whatever
/// the state they start from.
pub proof fn lemma_motion_stays_in_work_area(s: DeviceState, x: u16, y: u16, dx: int, dy: int)
    ensures
        in_work_area(spec_move_to(s, x, y)),
        in_work_area(spec_jog(s, dx, dy)),
{
}

/// The arrow commands are jogs by one step.
pub proof fn lemma_arrows_are_jogs(s: DeviceState)
    ensures
        spec_move_to(s, s.position[0], clamp_coord(s.position[1] - ARROW_STEP, MAX_HEIGHT))
            == spec_jog(s, 0, -(ARROW_STEP as int)),
        spec_move_to(s, s.position[0], clamp_coord(s.position[1] + ARROW_STEP, MAX_HEIGHT))
            == spec_jog(s, 0, ARROW_STEP as int),
        spec_move_to(s, clamp_coord(s.position[0] - ARROW_STEP, MAX_WIDTH), s.position[1])
            == spec_jog(s, -(ARROW_STEP as int), 0),
        spec_move_to(s, clamp_coord(s.position[0] + ARROW_STEP, MAX_WIDTH), s.position[1])
            == spec_jog(s, ARROW_STEP as int, 0),
{
}

/// A job that was started runs until the device reports 100%: a report
/// below 100% keeps it running and leaves it incomplete, a report of 100% or
/// more ends it.
pub proof fn lemma_job_runs_until_full_progress(s: DeviceState, percent: u8, x: u16, y: u16)
    ensures
        ({
            let started = DeviceState { progress: 0, burning: true, ..s };
            let after = spec_apply(started, MessageView::CarvingProgress { percent, x, y });
            &&& started.progress < 100
            &&& started.burning
            &&& percent < 100 ==> after.burning && after.progress < 100
            &&& percent >= 100 ==> !after.burning && after.progress >= 100
        }),
{
}

/// Replies other than progress and status reports change nothing.
pub proof fn lemma_other_replies_change_nothing(s: DeviceState, m: MessageView)
    requires
        !(m is CarvingProgress),
        !(m is Status),
    ensures
        spec_apply(s, m) == s,
{
}

/// A status report sets the temperature to the reported value, every
/// time, and leaves the rest as it was.
pub proof fn lemma_status_sets_temperature(s: DeviceState, t: u8)
    ensures
        ({
            let after = spec_apply(s, MessageView::Status { temperature: t });
            &&& after.temperature == Some(t)
            &&& after.progress == s.progress
            &&& after.position == s.position
            &&& after.burning == s.burning
        }),
{
}

/// A progress report sets the progress and the head position to the
/// reported ones, ends the job at 100% or more, and keeps the temperature.
pub proof fn lemma_progress_report(s: DeviceState, percent: u8, x: u16, y: u16)
    ensures
        ({
            let after = spec_apply(s, MessageView::CarvingProgress { percent, x, y });
            &&& after.progress == percent
            &&& after.position[0] == x && after.position[1] == y
            &&& after.burning == (s.burning && percent < 100)
            &&& after.temperature == s.temperature
        }),
{
}

/// Moving to `(x, y)` puts the head there when the point is inside the
/// work area, and on the nearest edge otherwise; nothing else changes.
pub proof fn lemma_move_to_target(s: DeviceState, x: u16, y: u16)
    ensures
        ({
            let after = spec_move_to(s, x, y);
            &&& after.position[0] == if x <= MAX_WIDTH { x } else { MAX_WIDTH }
            &&& after.position[1] == if y <= MAX_HEIGHT { y } else { MAX_HEIGHT }
            &&& after.progress == s.progress
            &&& after.temperature == s.temperature
            &&& after.burning == s.burning
        }),
{
}

/// Jogging by `(dx, dy)` moves the head by that much, stopped at the edges
/// of the work area.
pub proof fn lemma_jog_target(s: DeviceState, dx: int, dy: int)
    ensures
        ({
            let after = spec_jog(s, dx, dy);
            let nx = s.position[0] + dx;
            let ny = s.position[1] + dy;
            &&& 0 <= nx <= MAX_WIDTH ==> after.position[0] == nx
            &&& nx < 0 ==> after.position[0] == 0
            &&& nx > MAX_WIDTH ==> after.position[0] == MAX_WIDTH
            &&& 0 <= ny <= MAX_HEIGHT ==> after.position[1] == ny
            &&& ny < 0 ==> after.position[1] == 0
            &&& ny > MAX_HEIGHT ==> after.position[1] == MAX_HEIGHT
            &&& after.progress == s.progress
            &&& after.temperature == s.temperature
            &&& after.burning == s.burning
        }),
{
}

} // verus!
