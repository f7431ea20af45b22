//! The X6 print job as a state machine that does no input or output itself.
//!
//! A job sets speed and energy, streams one scanline frame per bitmap row (after a blank lead
//! row: the printer misprints if the first row has ink), pauses while the printer's buffer is
//! full, feeds, and waits for the printer to drain. The caller performs each action and hands the
//! printer's notifications back.

use vstd::prelude::*;

use crate::bitmap::Bitmap;
use crate::packets;

verus! {

/// Wait after the final feed before a job is done, so that the link is not torn down while the
/// printer drains its buffer. It sends no completion event.
pub const SETTLE_MS: u64 = 5000;

/// The density knob, clamped to its range.
pub open spec fn clamped(density: u8) -> int {
    if density < 1 {
        1
    } else if density > 7 {
        7
    } else {
        density as int
    }
}

/// The density knob, clamped to its range.
fn clamp(density: u8) -> (r: u8)
    ensures
        r == clamped(density),
{
    if density < 1 {
        1
    } else if density > 7 {
        7
    } else {
        density
    }
}

/// Maps the density knob (1-7, clamped) to the printhead energy: 12000 at 1, 6000 more per step.
pub fn density_to_energy(density: u8) -> (r: u16)
    ensures
        r == 12000 + 6000 * (clamped(density) - 1),
        1 <= density <= 7 ==> r == 12000 + 6000 * (density - 1),
        density < 1 ==> r == 12000,
        density > 7 ==> r == 48000,
        12000 <= r <= 48000,
{
    let d = clamp(density);
    12000 + 6000 * (d as u16 - 1)
}

/// Maps the density knob (1-7, clamped) to the feed-speed divisor: 8 at 1, 4 more per step.
/// Slower is darker.
pub fn density_to_speed(density: u8) -> (r: u8)
    ensures
        r == 8 + 4 * (clamped(density) - 1),
        1 <= density <= 7 ==> r == 8 + 4 * (density - 1),
        density < 1 ==> r == 8,
        density > 7 ==> r == 32,
        8 <= r <= 32,
{
    let d = clamp(density);
    8 + 4 * (d - 1)
}

/// Counters for what a job has done.
#[derive(Debug, Clone, Copy, PartialEq, Eq, Structural)]
pub struct JobStats {
    /// Raster packets written.
    pub packets_sent: u32,
    /// Resends the printer asked for.
    pub retransmits: u32,
    /// Times the printer paused the stream.
    pub holds: u32,
    /// Times the printer asked for a thermal back-off.
    pub cooldowns: u32,
}

impl Default for JobStats {
    /// Nothing done yet.
    fn default() -> (r: JobStats)
        ensures
            r == no_stats(),
    {
        JobStats { packets_sent: 0, retransmits: 0, holds: 0, cooldowns: 0 }
    }
}

/// All counters at zero.
pub open spec fn no_stats() -> JobStats {
    JobStats { packets_sent: 0, retransmits: 0, holds: 0, cooldowns: 0 }
}

/// What the caller has to do next.
#[derive(Debug)]
pub enum Action {
    /// Write this frame.
    Send(Vec<u8>),
    /// Wait that many milliseconds.
    WaitMs(u64),
    /// Wait for a notification.
    WaitNotification,
    /// Nothing: the job is over.
    Done,
}

/// What an [`Action`] holds.
pub enum ActionView {
    Send(Seq<u8>),
    WaitMs(u64),
    WaitNotification,
    Done,
}

impl View for Action {
    type V = ActionView;

    open spec fn view(&self) -> ActionView {
        match *self {
            Action::Send(frame) => ActionView::Send(frame@),
            Action::WaitMs(ms) => ActionView::WaitMs(ms),
            Action::WaitNotification => ActionView::WaitNotification,
            Action::Done => ActionView::Done,
        }
    }
}

/// A notification of the printer.
#[derive(Debug, Clone, Copy, PartialEq, Eq, Structural)]
pub enum X6Notification {
    /// The buffer is full: pause.
    BufferFull,
    /// There is room again: resume.
    Ready,
    /// Anything else.
    Unknown,
}

/// How far a job has come.
#[derive(Debug, Clone, Copy, PartialEq, Eq, Structural)]
pub enum State {
    SendSpeed,
    SendEnergy,
    SendApplyEnergy,
    Streaming,
    /// The printer's buffer is full; waiting for it to be ready.
    Paused,
    Settle,
    Done,
}

/// A print job.
#[derive(Debug)]
pub struct X6PrintJob {
    rows: Vec<[u8; 48]>,
    state: State,
    send_idx: usize,
    speed: u8,
    energy: u16,
    feed_px: u16,
    inter_packet_delay_ms: u64,
    pending_wait_ms: Option<u64>,
    stats: JobStats,
}

/// What a [`X6PrintJob`] holds.
pub struct JobView {
    /// The packed rows to print, the blank lead row first.
    pub rows: Seq<Seq<u8>>,
    pub state: State,
    /// How many rows have been sent.
    pub sent: nat,
    pub speed: u8,
    pub energy: u16,
    pub feed_px: u16,
    /// The pause between two scanlines.
    pub delay_ms: u64,
    /// A wait that comes before anything else.
    pub pending: Option<u64>,
    pub stats: JobStats,
}

impl View for X6PrintJob {
    type V = JobView;

    closed spec fn view(&self) -> JobView {
        JobView {
            rows: self.rows@.map_values(|row: [u8; 48]| row@),
            state: self.state,
            sent: self.send_idx as nat,
            speed: self.speed,
            energy: self.energy,
            feed_px: self.feed_px,
            delay_ms: self.inter_packet_delay_ms,
            pending: self.pending_wait_ms,
            stats: self.stats,
        }
    }
}

/// A counter, one higher unless it is at its limit.
pub open spec fn counted(n: u32) -> u32 {
    if n < u32::MAX {
        (n + 1) as u32
    } else {
        n
    }
}

/// 48 bytes without ink.
pub open spec fn blank_bytes() -> Seq<u8> {
    Seq::new(48, |i: int| 0u8)
}

/// A fresh job for some packed rows.
pub open spec fn fresh(
    rows: Seq<Seq<u8>>,
    density: u8,
    feed_px: u16,
    delay_ms: u64,
) -> JobView {
    JobView {
        rows: seq![blank_bytes()] + rows,
        state: State::SendSpeed,
        sent: 0,
        speed: (8 + 4 * (clamped(density) - 1)) as u8,
        energy: (12000 + 6000 * (clamped(density) - 1)) as u16,
        feed_px,
        delay_ms,
        pending: None,
        stats: no_stats(),
    }
}

impl JobView {
    /// The job in another state.
    pub open spec fn at(self, state: State) -> JobView {
        JobView { state, ..self }
    }

    /// What to do once all rows are sent: feed, unless there is nothing to feed, and settle.
    pub open spec fn wind_up(self) -> (JobView, ActionView) {
        if self.feed_px == 0 {
            (self.at(State::Done), ActionView::WaitMs(SETTLE_MS))
        } else {
            (self.at(State::Settle), ActionView::Send(packets::feed_frame(self.feed_px)))
        }
    }

    /// The job after its next action, and that action.
    pub open spec fn step(self) -> (JobView, ActionView) {
        match self.pending {
            Some(ms) => (JobView { pending: None, ..self }, ActionView::WaitMs(ms)),
            None => match self.state {
                State::SendSpeed => (
                    self.at(State::SendEnergy),
                    ActionView::Send(packets::set_speed_frame(self.speed)),
                ),
                State::SendEnergy => (
                    self.at(State::SendApplyEnergy),
                    ActionView::Send(packets::set_energy_frame(self.energy)),
                ),
                State::SendApplyEnergy => (
                    self.at(State::Streaming),
                    ActionView::Send(packets::apply_energy_frame()),
                ),
                State::Streaming => if self.sent < self.rows.len() {
                    (
                        JobView {
                            sent: self.sent + 1,
                            pending: if self.delay_ms > 0 && self.sent + 1 < self.rows.len() {
                                Some(self.delay_ms)
                            } else {
                                None
                            },
                            stats: JobStats {
                                packets_sent: counted(self.stats.packets_sent),
                                ..self.stats
                            },
                            ..self
                        },
                        ActionView::Send(packets::scanline_frame(self.rows[self.sent as int])),
                    )
                } else {
                    self.wind_up()
                },
                State::Settle => (self.at(State::Done), ActionView::WaitMs(SETTLE_MS)),
                State::Paused => (self, ActionView::WaitNotification),
                State::Done => (self, ActionView::Done),
            },
        }
    }

    /// The job after a notification: it pauses while streaming and resumes when paused; anything
    /// else is ignored.
    pub open spec fn notified(self, n: X6Notification) -> JobView {
        if self.state == State::Streaming && n == X6Notification::BufferFull {
            JobView {
                state: State::Paused,
                pending: None,
                stats: JobStats { holds: counted(self.stats.holds), ..self.stats },
                ..self
            }
        } else if self.state == State::Paused && n == X6Notification::Ready {
            self.at(State::Streaming)
        } else {
            self
        }
    }
}

impl X6PrintJob {
    /// A job that sets the feed speed and printhead energy from `density` (1-7, clamped), prints
    /// `bitmap`, then feeds `feed_px` rows of blank paper.
    pub fn new(bitmap: &Bitmap, density: u8, feed_px: u16, inter_packet_delay_ms: u64) -> (r:
        X6PrintJob)
        ensures
            r@ == fresh(bitmap.packed(), density, feed_px, inter_packet_delay_ms),
    {
        proof {
            bitmap.lemma_packed();
        }
        let mut rows: Vec<[u8; 48]> = Vec::new();
        let lead: [u8; 48] = [0u8; 48];
        assert(lead@ =~= blank_bytes());
        rows.push(lead);
        let ghost wanted = seq![blank_bytes()] + bitmap.packed();
        let mut y: usize = 0;
        while y < bitmap.height()
            invariant
                y <= bitmap@.len(),
                bitmap.packed().len() == bitmap@.len(),
                wanted == seq![blank_bytes()] + bitmap.packed(),
                rows@.len() == y + 1,
                forall|i: int| 0 <= i <= y ==> (#[trigger] rows@[i])@ == wanted[i],
            decreases bitmap@.len() - y,
        {
            rows.push(*bitmap.row(y));
            y += 1;
        }
        assert(rows@.map_values(|row: [u8; 48]| row@) =~= wanted);
        X6PrintJob {
            rows,
            state: State::SendSpeed,
            send_idx: 0,
            speed: density_to_speed(density),
            energy: density_to_energy(density),
            feed_px,
            inter_packet_delay_ms,
            pending_wait_ms: None,
            stats: JobStats::default(),
        }
    }

    /// Ends the streaming: feeds, or settles where there is nothing to feed.
    fn wind_up(&mut self) -> (r: Action)
        ensures
            (final(self)@, r@) == old(self)@.wind_up(),
    {
        if self.feed_px == 0 {
            self.state = State::Done;
            return Action::WaitMs(SETTLE_MS);
        }
        self.state = State::Settle;
        Action::Send(packets::feed_paper(self.feed_px))
    }

    /// Returns the next action the caller should perform.
    #[must_use]
    pub fn next_action(&mut self) -> (r: Action)
        ensures
            (final(self)@, r@) == old(self)@.step(),
    {
        if let Some(ms) = self.pending_wait_ms {
            self.pending_wait_ms = None;
            return Action::WaitMs(ms);
        }
        match self.state {
            State::SendSpeed => {
                self.state = State::SendEnergy;
                Action::Send(packets::set_speed(self.speed))
            },
            State::SendEnergy => {
                self.state = State::SendApplyEnergy;
                Action::Send(packets::set_energy(self.energy))
            },
            State::SendApplyEnergy => {
                self.state = State::Streaming;
                Action::Send(packets::apply_energy())
            },
            State::Streaming => {
                if self.send_idx < self.rows.len() {
                    let packet = packets::raw_scanline(&self.rows[self.send_idx]);
                    self.send_idx = self.send_idx + 1;
                    self.stats.packets_sent = self.stats.packets_sent.saturating_add(1);
                    if self.inter_packet_delay_ms > 0 && self.send_idx < self.rows.len() {
                        self.pending_wait_ms = Some(self.inter_packet_delay_ms);
                    }
                    Action::Send(packet)
                } else {
                    self.wind_up()
                }
            },
            State::Settle => {
                self.state = State::Done;
                Action::WaitMs(SETTLE_MS)
            },
            State::Paused => Action::WaitNotification,
            State::Done => Action::Done,
        }
    }

    /// Feeds a notification of the printer into the job. One that makes no sense in the current
    /// state is ignored, a full buffer during the setup frames too: nothing has been streamed yet.
    pub fn on_notification(&mut self, n: X6Notification)
        ensures
            final(self)@ == old(self)@.notified(n),
    {
        if self.state == State::Streaming && n == X6Notification::BufferFull {
            self.state = State::Paused;
            self.pending_wait_ms = None;
            self.stats.holds = self.stats.holds.saturating_add(1);
        } else if self.state == State::Paused && n == X6Notification::Ready {
            self.state = State::Streaming;
        }
    }

    /// Counters for what the job has done so far: `packets_sent` counts scanlines only, and
    /// `retransmits` and `cooldowns` stay 0.
    pub fn stats(&self) -> (r: JobStats)
        ensures
            r == self@.stats,
    {
        self.stats
    }
}

impl JobView {
    /// What every reachable job keeps: rows begin with the blank lead row, no more rows are sent
    /// than there are, a wait is pending only between two scanlines, and the counters count.
    pub open spec fn wf(self) -> bool {
        &&& self.rows.len() > 0
        &&& self.rows[0] == blank_bytes()
        &&& self.sent <= self.rows.len()
        &&& self.state == State::SendSpeed || self.state == State::SendEnergy || self.state
            == State::SendApplyEnergy ==> self.sent == 0
        &&& self.state == State::Settle || self.state == State::Done ==> self.sent
            == self.rows.len()
        &&& self.pending is Some ==> self.state == State::Streaming && self.pending == Some(
            self.delay_ms,
        ) && 0 < self.delay_ms && 0 < self.sent < self.rows.len()
        &&& self.stats.packets_sent == if self.sent < u32::MAX {
            self.sent
        } else {
            u32::MAX as nat
        }
        &&& self.stats.retransmits == 0
        &&& self.stats.cooldowns == 0
    }

    /// The scanline frames not sent yet.
    pub open spec fn scanlines_left(self) -> Seq<Seq<u8>> {
        Seq::new(
            (self.rows.len() - self.sent) as nat,
            |i: int| packets::scanline_frame(self.rows[self.sent + i]),
        )
    }

    /// The feed frame, unless there is nothing to feed.
    pub open spec fn feed(self) -> Seq<Seq<u8>> {
        if self.feed_px == 0 {
            Seq::empty()
        } else {
            seq![packets::feed_frame(self.feed_px)]
        }
    }

    /// All frames that the job has still to send, in order.
    pub open spec fn frames_left(self) -> Seq<Seq<u8>> {
        let stream = self.scanlines_left() + self.feed();
        match self.state {
            State::SendSpeed => seq![
                packets::set_speed_frame(self.speed),
                packets::set_energy_frame(self.energy),
                packets::apply_energy_frame(),
            ] + stream,
            State::SendEnergy => seq![
                packets::set_energy_frame(self.energy),
                packets::apply_energy_frame(),
            ] + stream,
            State::SendApplyEnergy => seq![packets::apply_energy_frame()] + stream,
            State::Streaming | State::Paused => stream,
            State::Settle | State::Done => Seq::empty(),
        }
    }

    /// How many actions are left, waits included, if nothing pauses the job.
    pub open spec fn actions_left(self) -> nat {
        let rows = 2 * (self.rows.len() - self.sent) + if self.pending is Some {
            1int
        } else {
            0
        };
        match self.state {
            State::SendSpeed => (rows + 6) as nat,
            State::SendEnergy => (rows + 5) as nat,
            State::SendApplyEnergy => (rows + 4) as nat,
            State::Streaming | State::Paused => (rows + 2) as nat,
            State::Settle => 1,
            State::Done => 0,
        }
    }
}

/// What happens to a job: it is asked for its next action, or a notification arrives.
pub enum JobEvent {
    Next,
    Notify(X6Notification),
}

/// The job after some events.
pub open spec fn after(job: JobView, events: Seq<JobEvent>) -> JobView
    decreases events.len(),
{
    if events.len() == 0 {
        job
    } else {
        let before = after(job, events.drop_last());
        match events.last() {
            JobEvent::Next => before.step().0,
            JobEvent::Notify(n) => before.notified(n),
        }
    }
}

/// The frames that the caller was told to send during some events.
pub open spec fn frames_sent(job: JobView, events: Seq<JobEvent>) -> Seq<Seq<u8>>
    decreases events.len(),
{
    if events.len() == 0 {
        Seq::empty()
    } else {
        let before = after(job, events.drop_last());
        let sent = frames_sent(job, events.drop_last());
        match events.last() {
            JobEvent::Next => match before.step().1 {
                ActionView::Send(frame) => sent.push(frame),
                _ => sent,
            },
            JobEvent::Notify(n) => sent,
        }
    }
}

/// A fresh job is well formed, and what it has to send is the whole print: speed, energy, apply,
/// the blank lead row, every bitmap row, and the feed.
pub proof fn law_fresh_job(rows: Seq<Seq<u8>>, density: u8, feed_px: u16, delay_ms: u64)
    ensures
        fresh(rows, density, feed_px, delay_ms).wf(),
        fresh(rows, density, feed_px, delay_ms).frames_left() == seq![
            packets::set_speed_frame((8 + 4 * (clamped(density) - 1)) as u8),
            packets::set_energy_frame((12000 + 6000 * (clamped(density) - 1)) as u16),
            packets::apply_energy_frame(),
            packets::scanline_frame(blank_bytes()),
        ] + rows.map_values(|row: Seq<u8>| packets::scanline_frame(row)) + if feed_px == 0 {
            Seq::empty()
        } else {
            seq![packets::feed_frame(feed_px)]
        },
{
    let job = fresh(rows, density, feed_px, delay_ms);
    assert(job.scanlines_left() =~= seq![packets::scanline_frame(blank_bytes())]
        + rows.map_values(|row: Seq<u8>| packets::scanline_frame(row)));
    assert(job.frames_left() =~= seq![
        packets::set_speed_frame((8 + 4 * (clamped(density) - 1)) as u8),
        packets::set_energy_frame((12000 + 6000 * (clamped(density) - 1)) as u16),
        packets::apply_energy_frame(),
        packets::scanline_frame(blank_bytes()),
    ] + rows.map_values(|row: Seq<u8>| packets::scanline_frame(row)) + job.feed());
}

/// Every action keeps a job well formed and sends the frame that is due, or none.
pub proof fn law_step_sends_what_is_due(job: JobView)
    requires
        job.wf(),
    ensures
        job.step().0.wf(),
        match job.step().1 {
            ActionView::Send(frame) => job.frames_left() == seq![frame]
                + job.step().0.frames_left(),
            _ => job.frames_left() == job.step().0.frames_left(),
        },
{
    let next = job.step().0;
    match job.step().1 {
        ActionView::Send(frame) => {
            if job.state == State::Streaming && job.sent < job.rows.len() {
                assert(job.scanlines_left() =~= seq![frame] + next.scanlines_left());
            } else {
                assert(job.scanlines_left() =~= next.scanlines_left());
                if job.state == State::Streaming {
                    assert(job.scanlines_left() =~= Seq::empty());
                }
            }
            assert(job.frames_left() =~= seq![frame] + next.frames_left());
        },
        _ => {
            assert(job.scanlines_left() =~= next.scanlines_left());
            assert(job.frames_left() =~= next.frames_left());
        },
    }
}

/// A notification keeps a job well formed and neither drops nor repeats a frame.
pub proof fn law_notifications_lose_nothing(job: JobView, n: X6Notification)
    requires
        job.wf(),
    ensures
        job.notified(n).wf(),
        job.notified(n).frames_left() == job.frames_left(),
{
    assert(job.notified(n).scanlines_left() =~= job.scanlines_left());
}

/// Whenever the printer pauses and resumes, and however often: what was sent and what is left to
/// send make up the whole print, in order.
pub proof fn law_every_run_sends_the_print(job: JobView, events: Seq<JobEvent>)
    requires
        job.wf(),
    ensures
        after(job, events).wf(),
        frames_sent(job, events) + after(job, events).frames_left() == job.frames_left(),
    decreases events.len(),
{
    if events.len() == 0 {
        assert(frames_sent(job, events) + after(job, events).frames_left() =~= job.frames_left());
    } else {
        let front = events.drop_last();
        law_every_run_sends_the_print(job, front);
        let before = after(job, front);
        match events.last() {
            JobEvent::Next => {
                law_step_sends_what_is_due(before);
                assert(frames_sent(job, events) + after(job, events).frames_left()
                    =~= frames_sent(job, front) + before.frames_left());
            },
            JobEvent::Notify(n) => law_notifications_lose_nothing(before, n),
        }
    }
}

/// A job says it is done only when everything has been sent.
pub proof fn law_done_means_all_sent(job: JobView, events: Seq<JobEvent>)
    requires
        job.wf(),
        after(job, events).step().1 is Done,
    ensures
        frames_sent(job, events) == job.frames_left(),
{
    law_every_run_sends_the_print(job, events);
    assert(frames_sent(job, events) + Seq::<Seq<u8>>::empty() =~= frames_sent(job, events));
}

/// No job ends without the settle wait: the only action that leads to the end is that wait, and
/// a job that has ended stays as it is.
pub proof fn law_settle_before_done(job: JobView, n: X6Notification)
    requires
        job.wf(),
    ensures
        job.state != State::Done && job.step().0.state == State::Done ==> job.step().1
            == ActionView::WaitMs(SETTLE_MS),
        job.step().1 is Done <==> job.state == State::Done,
        job.state == State::Done ==> job.step().0 == job && job.notified(n) == job,
{
}

/// Unless it is paused or over, a job gets closer to its end with every action.
pub proof fn law_jobs_make_progress(job: JobView)
    requires
        job.wf(),
        job.state != State::Paused,
        job.state != State::Done,
    ensures
        job.step().0.actions_left() < job.actions_left(),
{
}

/// A full buffer holds the stream until the printer is ready again, and then it goes on where it
/// was; a pending wait is dropped.
pub proof fn law_buffer_full_holds_until_ready(job: JobView)
    requires
        job.wf(),
        job.state == State::Streaming,
    ensures
        ({
            let held = job.notified(X6Notification::BufferFull);
            &&& held.step() == (held, ActionView::WaitNotification)
            &&& held.notified(X6Notification::BufferFull) == held
            &&& held.notified(X6Notification::Unknown) == held
            &&& held.notified(X6Notification::Ready).sent == job.sent
            &&& held.notified(X6Notification::Ready).state == State::Streaming
            &&& held.notified(X6Notification::Ready).pending is None
            &&& job.stats.holds < u32::MAX ==> held.stats.holds == job.stats.holds + 1
        }),
{
}

/// Only a streaming job can be paused and only a paused one resumed: any other notification is
/// ignored, counters included.
pub proof fn law_stray_notifications_are_ignored(job: JobView, n: X6Notification)
    requires
        job.state == State::Streaming ==> n != X6Notification::BufferFull,
        job.state == State::Paused ==> n != X6Notification::Ready,
    ensures
        job.notified(n) == job,
{
}

/// A wait other than the last one comes between two scanlines: after one that has been sent and
/// before one that is still to come.
pub proof fn law_delay_only_between_scanlines(job: JobView)
    requires
        job.wf(),
        job.step().1 is WaitMs,
        job.step().0.state != State::Done,
    ensures
        job.step().1 == ActionView::WaitMs(job.delay_ms),
        job.state == State::Streaming,
        0 < job.sent < job.rows.len(),
        job.step().0.step().1 == ActionView::Send(
            packets::scanline_frame(job.rows[job.sent as int]),
        ),
{
}

/// The actions that send rows from the `sent`-th on: one frame per row, with a wait between two of
/// them where there is a delay.
pub open spec fn streaming(rows: Seq<Seq<u8>>, sent: nat, delay_ms: u64) -> Seq<ActionView>
    decreases rows.len() - sent,
{
    if sent >= rows.len() {
        Seq::empty()
    } else {
        let frame = seq![ActionView::Send(packets::scanline_frame(rows[sent as int]))];
        if delay_ms > 0 && sent + 1 < rows.len() {
            frame + seq![ActionView::WaitMs(delay_ms)] + streaming(rows, sent + 1, delay_ms)
        } else {
            frame + streaming(rows, sent + 1, delay_ms)
        }
    }
}

impl JobView {
    /// The end of a job: the feed, unless there is nothing to feed, and one settle wait.
    pub open spec fn tail(self) -> Seq<ActionView> {
        if self.feed_px == 0 {
            seq![ActionView::WaitMs(SETTLE_MS)]
        } else {
            seq![
                ActionView::Send(packets::feed_frame(self.feed_px)),
                ActionView::WaitMs(SETTLE_MS),
            ]
        }
    }

    /// All actions that are left until the job is done, if no notification comes.
    pub open spec fn plan(self) -> Seq<ActionView> {
        let stream = streaming(self.rows, self.sent, self.delay_ms) + self.tail();
        let waited = match self.pending {
            Some(ms) => seq![ActionView::WaitMs(ms)] + stream,
            None => stream,
        };
        match self.state {
            State::SendSpeed => seq![
                ActionView::Send(packets::set_speed_frame(self.speed)),
                ActionView::Send(packets::set_energy_frame(self.energy)),
                ActionView::Send(packets::apply_energy_frame()),
            ] + waited,
            State::SendEnergy => seq![
                ActionView::Send(packets::set_energy_frame(self.energy)),
                ActionView::Send(packets::apply_energy_frame()),
            ] + waited,
            State::SendApplyEnergy => seq![ActionView::Send(packets::apply_energy_frame())]
                + waited,
            State::Streaming | State::Paused => waited,
            State::Settle => seq![ActionView::WaitMs(SETTLE_MS)],
            State::Done => Seq::empty(),
        }
    }
}

/// The job after `n` calls for its next action.
pub open spec fn after_calls(job: JobView, n: nat) -> JobView
    decreases n,
{
    if n == 0 {
        job
    } else {
        after_calls(job, (n - 1) as nat).step().0
    }
}

/// What the `n`-th call for the next action returns, counted from 0.
pub open spec fn nth_action(job: JobView, n: nat) -> ActionView {
    after_calls(job, n).step().1
}

proof fn lemma_plan_step(job: JobView)
    requires
        job.wf(),
        job.state != State::Paused,
        job.state != State::Done,
    ensures
        job.step().0.wf(),
        job.step().0.state != State::Paused,
        job.plan() == seq![job.step().1] + job.step().0.plan(),
{
    law_step_sends_what_is_due(job);
    let next = job.step().0;
    assert(job.plan() =~= seq![job.step().1] + next.plan());
}

proof fn lemma_plan(job: JobView, n: nat)
    requires
        job.wf(),
        job.state != State::Paused,
    ensures
        after_calls(job, n).wf(),
        after_calls(job, n).state != State::Paused,
        after_calls(job, n).plan() == if n <= job.plan().len() {
            job.plan().skip(n as int)
        } else {
            Seq::empty()
        },
    decreases n,
{
    if n == 0 {
        assert(job.plan().skip(0) =~= job.plan());
    } else {
        lemma_plan(job, (n - 1) as nat);
        let before = after_calls(job, (n - 1) as nat);
        if before.state == State::Done {
            assert(before.plan().len() == 0);
            assert(after_calls(job, n) == before);
            if n <= job.plan().len() {
                assert(job.plan().skip(n - 1).len() == 0);
            }
        } else {
            lemma_plan_step(before);
            let rest = before.step().0.plan();
            assert(before.plan().skip(1) =~= rest);
            assert(n - 1 < job.plan().len());
            assert(job.plan().skip(n - 1).skip(1) =~= job.plan().skip(n as int));
        }
    }
}

proof fn lemma_plan_ends(job: JobView)
    requires
        job.wf(),
    ensures
        job.plan().len() == 0 <==> job.state == State::Done,
{
}

/// Without notifications a job does exactly what is planned, call by call, and from then on says
/// that it is done.
pub proof fn law_undisturbed_jobs_follow_the_plan(job: JobView, n: nat)
    requires
        job.wf(),
        job.state != State::Paused,
    ensures
        n < job.plan().len() ==> nth_action(job, n) == job.plan()[n as int],
        n >= job.plan().len() ==> nth_action(job, n) == ActionView::Done,
        nth_action(job, n) == ActionView::Done ==> n >= job.plan().len(),
{
    lemma_plan(job, n);
    let at = after_calls(job, n);
    lemma_plan_ends(at);
    if n < job.plan().len() {
        assert(job.plan().skip(n as int).len() > 0);
        lemma_plan_step(at);
        assert(at.plan()[0] == job.plan()[n as int]);
        law_settle_before_done(at, X6Notification::Unknown);
    } else {
        assert(at.plan().len() == 0);
    }
}

proof fn lemma_streaming_len(rows: Seq<Seq<u8>>, sent: nat, delay_ms: u64)
    requires
        sent < rows.len(),
    ensures
        streaming(rows, sent, delay_ms).len() == (rows.len() - sent) + if delay_ms > 0 {
            rows.len() - sent - 1
        } else {
            0
        },
    decreases rows.len() - sent,
{
    if sent + 1 < rows.len() {
        lemma_streaming_len(rows, sent + 1, delay_ms);
    } else {
        assert(streaming(rows, sent + 1, delay_ms).len() == 0);
    }
}

/// The plan of a fresh job: speed, energy, apply, the blank lead row and every bitmap row with
/// waits between scanlines only, the feed if there is one, one settle wait. So the first call that
/// says it is done is the one after `3 + (h + 1)` frames, `h` waits where there is a delay, a feed
/// where there is one, and the settle wait, for a bitmap of `h` rows.
pub proof fn law_plan_of_a_fresh_job(
    rows: Seq<Seq<u8>>,
    density: u8,
    feed_px: u16,
    delay_ms: u64,
)
    ensures
        fresh(rows, density, feed_px, delay_ms).plan() == seq![
            ActionView::Send(packets::set_speed_frame((8 + 4 * (clamped(density) - 1)) as u8)),
            ActionView::Send(
                packets::set_energy_frame((12000 + 6000 * (clamped(density) - 1)) as u16),
            ),
            ActionView::Send(packets::apply_energy_frame()),
        ] + streaming(seq![blank_bytes()] + rows, 0, delay_ms) + if feed_px == 0 {
            seq![ActionView::WaitMs(SETTLE_MS)]
        } else {
            seq![ActionView::Send(packets::feed_frame(feed_px)), ActionView::WaitMs(SETTLE_MS)]
        },
        fresh(rows, density, feed_px, delay_ms).plan().len() == 3 + (rows.len() + 1) + (if delay_ms
            > 0 {
            rows.len()
        } else {
            0
        }) + (if feed_px > 0 {
            1nat
        } else {
            0
        }) + 1,
{
    let job = fresh(rows, density, feed_px, delay_ms);
    lemma_streaming_len(job.rows, 0, delay_ms);
    assert(job.plan() =~= seq![
        ActionView::Send(packets::set_speed_frame(job.speed)),
        ActionView::Send(packets::set_energy_frame(job.energy)),
        ActionView::Send(packets::apply_energy_frame()),
    ] + streaming(job.rows, 0, delay_ms) + job.tail());
}

/// How many frames are scanlines.
pub open spec fn scanlines(frames: Seq<Seq<u8>>) -> nat
    decreases frames.len(),
{
    if frames.len() == 0 {
        0
    } else {
        scanlines(frames.drop_last()) + if packets::is_scanline(frames.last()) {
            1nat
        } else {
            0
        }
    }
}

/// How often the printer paused a job during some events.
pub open spec fn pauses(job: JobView, events: Seq<JobEvent>) -> nat
    decreases events.len(),
{
    if events.len() == 0 {
        0
    } else {
        let before = after(job, events.drop_last());
        pauses(job, events.drop_last()) + if before.state == State::Streaming && events.last()
            == JobEvent::Notify(X6Notification::BufferFull) {
            1nat
        } else {
            0
        }
    }
}

/// A count, as far as a counter goes.
pub open spec fn capped_count(n: nat) -> u32 {
    if n < u32::MAX {
        n as u32
    } else {
        u32::MAX
    }
}

/// The counters of a job count what happened since it was made: the scanline frames it had sent
/// and the pauses, and nothing else ever.
pub proof fn law_counters_count(
    rows: Seq<Seq<u8>>,
    density: u8,
    feed_px: u16,
    delay_ms: u64,
    events: Seq<JobEvent>,
)
    ensures
        ({
            let job = fresh(rows, density, feed_px, delay_ms);
            after(job, events).stats == JobStats {
                packets_sent: capped_count(scanlines(frames_sent(job, events))),
                retransmits: 0,
                holds: capped_count(pauses(job, events)),
                cooldowns: 0,
            }
        }),
        after(fresh(rows, density, feed_px, delay_ms), events).sent == scanlines(
            frames_sent(fresh(rows, density, feed_px, delay_ms), events),
        ),
    decreases events.len(),
{
    let job = fresh(rows, density, feed_px, delay_ms);
    law_fresh_job(rows, density, feed_px, delay_ms);
    if events.len() > 0 {
        let front = events.drop_last();
        law_counters_count(rows, density, feed_px, delay_ms, front);
        law_every_run_sends_the_print(job, front);
        let before = after(job, front);
        match events.last() {
            JobEvent::Next => match before.step().1 {
                ActionView::Send(frame) => {
                    let sent = frames_sent(job, front);
                    assert(sent.push(frame).drop_last() =~= sent);
                    packets::lemma_commands(
                        before.speed,
                        before.energy,
                        before.rows[before.sent as int],
                        before.feed_px,
                    );
                },
                _ => {},
            },
            JobEvent::Notify(n) => {},
        }
    }
}

/// A job that is done has counted one scanline more than the bitmap has rows: the blank lead row.
pub proof fn law_done_jobs_have_counted_every_row(
    rows: Seq<Seq<u8>>,
    density: u8,
    feed_px: u16,
    delay_ms: u64,
    events: Seq<JobEvent>,
)
    requires
        after(fresh(rows, density, feed_px, delay_ms), events).state == State::Done,
        rows.len() < u32::MAX,
    ensures
        after(fresh(rows, density, feed_px, delay_ms), events).stats.packets_sent == rows.len() + 1,
{
    let job = fresh(rows, density, feed_px, delay_ms);
    law_fresh_job(rows, density, feed_px, delay_ms);
    law_every_run_sends_the_print(job, events);
    lemma_same_rows(job, events);
}

proof fn lemma_same_rows(job: JobView, events: Seq<JobEvent>)
    ensures
        after(job, events).rows == job.rows,
    decreases events.len(),
{
    if events.len() > 0 {
        lemma_same_rows(job, events.drop_last());
    }
}

/// What a density asks for: from 1 to 7, each step makes the first frame's speed divisor 4 larger
/// from 8 on, and the second frame's energy 6000 larger from 12000 on. Outside, the nearer end
/// counts.
pub proof fn law_density_sets_speed_and_energy(
    rows: Seq<Seq<u8>>,
    density: u8,
    feed_px: u16,
    delay_ms: u64,
)
    ensures
        ({
            let job = fresh(rows, density, feed_px, delay_ms);
            &&& nth_action(job, 0) matches ActionView::Send(frame) && frame[2] == 0xbd && frame[6]
                == if density < 1 {
                8int
            } else if density > 7 {
                32
            } else {
                8 + 4 * (density - 1)
            }
            &&& nth_action(job, 1) matches ActionView::Send(frame) && frame[2] == 0xaf && frame[6]
                + 256 * frame[7] == if density < 1 {
                12000int
            } else if density > 7 {
                48000
            } else {
                12000 + 6000 * (density - 1)
            }
        }),
{
    let job = fresh(rows, density, feed_px, delay_ms);
    reveal_with_fuel(after_calls, 2);
    packets::law_frames_on_the_wire(job.speed, job.energy, feed_px);
    let energy = packets::set_energy_frame(job.energy);
    assert(energy[2] == energy.take(6)[2]);
}

proof fn lemma_streaming_at(rows: Seq<Seq<u8>>, sent: nat, delay_ms: u64, k: nat)
    requires
        sent + k < rows.len(),
    ensures
        delay_ms == 0 ==> k < streaming(rows, sent, delay_ms).len() && streaming(
            rows,
            sent,
            delay_ms,
        )[k as int] == ActionView::Send(packets::scanline_frame(rows[(sent + k) as int])),
        delay_ms > 0 ==> 2 * k < streaming(rows, sent, delay_ms).len() && streaming(
            rows,
            sent,
            delay_ms,
        )[(2 * k) as int] == ActionView::Send(packets::scanline_frame(rows[(sent + k) as int])),
        delay_ms > 0 && sent + k + 1 < rows.len() ==> 2 * k + 1 < streaming(
            rows,
            sent,
            delay_ms,
        ).len() && streaming(rows, sent, delay_ms)[(2 * k + 1) as int] == ActionView::WaitMs(delay_ms),
    decreases k,
{
    lemma_streaming_len(rows, sent, delay_ms);
    if k > 0 {
        lemma_streaming_at(rows, sent + 1, delay_ms, (k - 1) as nat);
        lemma_streaming_len(rows, sent + 1, delay_ms);
        let rest = streaming(rows, sent + 1, delay_ms);
        if delay_ms > 0 {
            assert(streaming(rows, sent, delay_ms)[(2 * k) as int] == rest[2 * k - 2]);
            if sent + k + 1 < rows.len() {
                assert(streaming(rows, sent, delay_ms)[(2 * k + 1) as int] == rest[2 * k - 1]);
            }
        } else {
            assert(streaming(rows, sent, delay_ms)[k as int] == rest[k - 1]);
        }
    }
}

proof fn lemma_plan_at(rows: Seq<Seq<u8>>, density: u8, feed_px: u16, delay_ms: u64, n: nat)
    ensures
        ({
            let job = fresh(rows, density, feed_px, delay_ms);
            let stream = streaming(seq![blank_bytes()] + rows, 0, delay_ms);
            &&& 3 <= n < 3 + stream.len() ==> nth_action(job, n) == stream[n - 3]
            &&& n == 3 + stream.len() && feed_px > 0 ==> nth_action(job, n) == ActionView::Send(
                packets::feed_frame(feed_px),
            )
            &&& n == 3 + stream.len() && feed_px == 0 ==> nth_action(job, n) == ActionView::WaitMs(
                SETTLE_MS,
            )
            &&& n == 4 + stream.len() && feed_px > 0 ==> nth_action(job, n) == ActionView::WaitMs(
                SETTLE_MS,
            )
            &&& n >= 5 + stream.len() || (n >= 4 + stream.len() && feed_px == 0) ==> nth_action(
                job,
                n,
            ) == ActionView::Done
        }),
{
    law_fresh_job(rows, density, feed_px, delay_ms);
    law_plan_of_a_fresh_job(rows, density, feed_px, delay_ms);
    law_undisturbed_jobs_follow_the_plan(fresh(rows, density, feed_px, delay_ms), n);
}

/// The rows of a run without notifications, call by call: after the three setup frames comes a row
/// of 48 blank bytes, then the bitmap's rows in their order, each as one scanline. Without a delay
/// nothing stands between two of them, with one a wait of just that long does.
pub proof fn law_rows_call_by_call(
    rows: Seq<Seq<u8>>,
    density: u8,
    feed_px: u16,
    delay_ms: u64,
    k: nat,
)
    requires
        k <= rows.len(),
    ensures
        ({
            let job = fresh(rows, density, feed_px, delay_ms);
            let row = if k == 0 {
                Seq::new(48, |i: int| 0u8)
            } else {
                rows[k - 1]
            };
            &&& delay_ms == 0 ==> nth_action(job, 3 + k) == ActionView::Send(
                packets::scanline_frame(row),
            )
            &&& delay_ms > 0 ==> nth_action(job, 3 + 2 * k) == ActionView::Send(
                packets::scanline_frame(row),
            )
            &&& delay_ms > 0 && k < rows.len() ==> nth_action(job, 4 + 2 * k) == ActionView::WaitMs(
                delay_ms,
            )
        }),
{
    let all = seq![blank_bytes()] + rows;
    assert(blank_bytes() =~= Seq::new(48, |i: int| 0u8));
    assert(all[k as int] == if k == 0 {
        blank_bytes()
    } else {
        rows[k - 1]
    });
    lemma_streaming_at(all, 0, delay_ms, k);
    lemma_plan_at(rows, density, feed_px, delay_ms, 3 + k);
    lemma_plan_at(rows, density, feed_px, delay_ms, 3 + 2 * k);
    lemma_plan_at(rows, density, feed_px, delay_ms, 4 + 2 * k);
}

/// The setup and the end of a run without notifications, call by call: the third frame puts the
/// energy into effect; after the last row come the feed, where there is one, and a settle wait of
/// five seconds, and every later call says that the job is done.
pub proof fn law_ends_call_by_call(
    rows: Seq<Seq<u8>>,
    density: u8,
    feed_px: u16,
    delay_ms: u64,
    n: nat,
)
    ensures
        ({
            let job = fresh(rows, density, feed_px, delay_ms);
            let end = if delay_ms == 0 {
                4 + rows.len()
            } else {
                4 + 2 * rows.len()
            };
            let settle = if feed_px == 0 {
                end
            } else {
                end + 1
            };
            &&& nth_action(job, 2) == ActionView::Send(packets::apply_energy_frame())
            &&& n == end && feed_px > 0 ==> nth_action(job, n) == ActionView::Send(
                packets::feed_frame(feed_px),
            )
            &&& n == settle ==> nth_action(job, n) == ActionView::WaitMs(5000)
            &&& n > settle ==> nth_action(job, n) == ActionView::Done
        }),
{
    let job = fresh(rows, density, feed_px, delay_ms);
    reveal_with_fuel(after_calls, 3);
    assert(nth_action(job, 2) == ActionView::Send(packets::apply_energy_frame()));
    lemma_streaming_len(seq![blank_bytes()] + rows, 0, delay_ms);
    lemma_plan_at(rows, density, feed_px, delay_ms, n);
}

} // verus!
