//! The bar's bookkeeping: one entry per monitor with what needs to be
//! drawn again, the shared status texts, the visibility requests from the
//! keyboard watcher, and when each status source is read next.

use vstd::prelude::*;
use vstd::string::*;

use crate::constants::{
    BAR_HEIGHT, BATTERY_REFRESH_MS, DATETIME_REFRESH_HIDDEN_MS, DATETIME_REFRESH_VISIBLE_MS,
    LOOP_SLEEP_HIDDEN_MS, LOOP_SLEEP_VISIBLE_MS,
    SIGNAL_DETAIL_OFF, SIGNAL_DETAIL_ON, SIGNAL_HIDE, SIGNAL_SHOW, SONG_POLL_HIDDEN_MS,
    SONG_POLL_VISIBLE_MS, VOLUME_POLL_HIDDEN_MS, VOLUME_POLL_VISIBLE_MS, WORKSPACE_POLL_HIDDEN_MS,
    WORKSPACE_POLL_VISIBLE_MS,
};
use crate::status::{BarStatus, WorkspaceStatus};
use crate::workspaces::label_for;

verus! {

// ---------------------------------------------------------------------------
// Monitors
// ---------------------------------------------------------------------------

/// One monitor's bar. `H` holds the objects of the display server that
/// belong to it, `B` a drawn buffer.
pub struct MonitorState<H, B> {
    pub global_name: u32,
    pub handles: H,
    pub output_name: Option<String>,
    pub width: u32,
    pub height: u32,
    pub configured: bool,
    pub closed: bool,
    pub needs_redraw: bool,
    pub visible_buffer_dirty: bool,
    pub hidden_buffer_dirty: bool,
    pub visible_buffer: Option<B>,
    pub hidden_buffer: Option<B>,
}

pub open spec fn name_view(name: Option<String>) -> Option<Seq<char>> {
    match name {
        Some(n) => Some(n@),
        None => None,
    }
}

/// `m` after its visible buffer went stale: the buffer is dropped, and a
/// redraw is due when the bar is visible on a configured, open monitor.
pub open spec fn marked_visible_dirty<H, B>(m: MonitorState<H, B>, visible: bool) -> MonitorState<
    H,
    B,
> {
    MonitorState {
        visible_buffer_dirty: true,
        visible_buffer: None,
        needs_redraw: m.needs_redraw || (visible && m.configured && !m.closed),
        ..m
    }
}

/// `m` after the compositor gave it a size: both buffers are dropped and a
/// redraw is due; a height of zero means the bar's own height.
pub open spec fn configured<H, B>(m: MonitorState<H, B>, width: u32, height: u32) -> MonitorState<
    H,
    B,
> {
    MonitorState {
        configured: true,
        width,
        height: if height == 0 {
            BAR_HEIGHT
        } else {
            height
        },
        visible_buffer_dirty: true,
        hidden_buffer_dirty: true,
        visible_buffer: None,
        hidden_buffer: None,
        needs_redraw: true,
        ..m
    }
}

/// Whether `m` is to be drawn again now.
pub open spec fn wants_redraw<H, B>(m: MonitorState<H, B>) -> bool {
    m.needs_redraw && m.configured && !m.closed && m.width != 0 && m.height != 0
}

impl<H, B> MonitorState<H, B> {
    /// A monitor that has just been announced: not yet configured, nothing
    /// drawn.
    pub fn new(global_name: u32, handles: H) -> (m: Self)
        ensures
            m.global_name == global_name,
            m.handles == handles,
            m.output_name is None,
            m.width == 0,
            m.height == BAR_HEIGHT,
            !m.configured,
            !m.closed,
            !m.needs_redraw,
            m.visible_buffer_dirty,
            m.hidden_buffer_dirty,
            m.visible_buffer is None,
            m.hidden_buffer is None,
    {
        MonitorState {
            global_name,
            handles,
            output_name: None,
            width: 0,
            height: BAR_HEIGHT,
            configured: false,
            closed: false,
            needs_redraw: false,
            visible_buffer_dirty: true,
            hidden_buffer_dirty: true,
            visible_buffer: None,
            hidden_buffer: None,
        }
    }

    pub fn mark_visible_dirty(&mut self, visible: bool)
        ensures
            *final(self) == marked_visible_dirty(*old(self), visible),
    {
        self.visible_buffer_dirty = true;
        self.visible_buffer = None;
        if visible && self.configured && !self.closed {
            self.needs_redraw = true;
        }
    }

    /// Records the monitor's name; a new name makes the visible buffer
    /// stale, since the workspace label depends on it.
    pub fn set_output_name(&mut self, output_name: String, visible: bool)
        ensures
            name_view(old(self).output_name) == Some(output_name@) ==> *final(self) == *old(
                self,
            ),
            name_view(old(self).output_name) != Some(output_name@) ==> *final(self)
                == marked_visible_dirty(
                MonitorState { output_name: Some(output_name), ..*old(self) },
                visible,
            ),
    {
        let same = match &self.output_name {
            Some(current) => *current == output_name,
            None => false,
        };
        if same {
            return;
        }
        self.output_name = Some(output_name);
        self.mark_visible_dirty(visible);
    }

    pub fn configure(&mut self, width: u32, height: u32)
        ensures
            *final(self) == configured(*old(self), width, height),
    {
        self.configured = true;
        self.width = width;
        self.height = if height == 0 {
            BAR_HEIGHT
        } else {
            height
        };
        self.visible_buffer_dirty = true;
        self.hidden_buffer_dirty = true;
        self.visible_buffer = None;
        self.hidden_buffer = None;
        self.needs_redraw = true;
    }

    /// Whether the visible buffer has to be drawn before it can be shown.
    pub fn visible_buffer_stale(&self) -> (r: bool)
        ensures
            r == (self.visible_buffer_dirty || self.visible_buffer is None),
    {
        self.visible_buffer_dirty || self.visible_buffer.is_none()
    }

    pub fn store_visible_buffer(&mut self, buffer: Option<B>)
        ensures
            *final(self) == (MonitorState {
                visible_buffer: buffer,
                visible_buffer_dirty: false,
                ..*old(self)
            }),
    {
        self.visible_buffer = buffer;
        self.visible_buffer_dirty = false;
    }

    /// Whether the hidden buffer has to be drawn before it can be shown.
    pub fn hidden_buffer_stale(&self) -> (r: bool)
        ensures
            r == (self.hidden_buffer_dirty || self.hidden_buffer is None),
    {
        self.hidden_buffer_dirty || self.hidden_buffer.is_none()
    }

    pub fn store_hidden_buffer(&mut self, buffer: Option<B>)
        ensures
            *final(self) == (MonitorState {
                hidden_buffer: buffer,
                hidden_buffer_dirty: false,
                ..*old(self)
            }),
    {
        self.hidden_buffer = buffer;
        self.hidden_buffer_dirty = false;
    }

    pub fn wants_redraw(&self) -> (r: bool)
        ensures
            r == wants_redraw(*self),
    {
        self.needs_redraw && self.configured && !self.closed && self.width != 0 && self.height
            != 0
    }
}

// ---------------------------------------------------------------------------
// When the status sources are read
// ---------------------------------------------------------------------------

pub open spec fn workspace_poll_ms(visible: bool) -> u64 {
    if visible {
        WORKSPACE_POLL_VISIBLE_MS
    } else {
        WORKSPACE_POLL_HIDDEN_MS
    }
}

pub open spec fn volume_poll_ms(visible: bool) -> u64 {
    if visible {
        VOLUME_POLL_VISIBLE_MS
    } else {
        VOLUME_POLL_HIDDEN_MS
    }
}

pub open spec fn song_poll_ms(visible: bool) -> u64 {
    if visible {
        SONG_POLL_VISIBLE_MS
    } else {
        SONG_POLL_HIDDEN_MS
    }
}

pub open spec fn datetime_refresh_ms(visible: bool) -> u64 {
    if visible {
        DATETIME_REFRESH_VISIBLE_MS
    } else {
        DATETIME_REFRESH_HIDDEN_MS
    }
}

/// A source last read at `last` (never, when `None`) is due at `now` once
/// `interval` milliseconds have passed; a clock reading before `last`
/// counts as no time passed.
pub open spec fn is_due(last: Option<u64>, now: u64, interval: u64) -> bool {
    match last {
        None => true,
        Some(t) => now >= t && now - t >= interval,
    }
}

/// When each source was last read, in milliseconds of a monotonic clock.
pub struct PollSchedule {
    pub last_workspace_poll: Option<u64>,
    pub last_volume_poll: Option<u64>,
    pub last_song_poll: Option<u64>,
    pub last_battery_refresh: Option<u64>,
    pub last_datetime_refresh: Option<u64>,
}

/// Which sources to read now.
pub struct DuePolls {
    pub workspaces: bool,
    pub volume: bool,
    pub song: bool,
    pub battery: bool,
    pub datetime: bool,
}

/// The sources due at `now`; the workspaces are polled only when no event
/// stream reports their changes.
pub open spec fn due_at(
    s: PollSchedule,
    now: u64,
    visible: bool,
    workspace_event_driven: bool,
) -> DuePolls {
    DuePolls {
        workspaces: !workspace_event_driven && is_due(
            s.last_workspace_poll,
            now,
            workspace_poll_ms(visible),
        ),
        volume: is_due(s.last_volume_poll, now, volume_poll_ms(visible)),
        song: is_due(s.last_song_poll, now, song_poll_ms(visible)),
        battery: is_due(s.last_battery_refresh, now, BATTERY_REFRESH_MS),
        datetime: is_due(s.last_datetime_refresh, now, datetime_refresh_ms(visible)),
    }
}

pub open spec fn stamp(last: Option<u64>, due: bool, now: u64) -> Option<u64> {
    if due {
        Some(now)
    } else {
        last
    }
}

/// The schedule after the due sources were read at `now`.
pub open spec fn after_polls(s: PollSchedule, due: DuePolls, now: u64) -> PollSchedule {
    PollSchedule {
        last_workspace_poll: stamp(s.last_workspace_poll, due.workspaces, now),
        last_volume_poll: stamp(s.last_volume_poll, due.volume, now),
        last_song_poll: stamp(s.last_song_poll, due.song, now),
        last_battery_refresh: stamp(s.last_battery_refresh, due.battery, now),
        last_datetime_refresh: stamp(s.last_datetime_refresh, due.datetime, now),
    }
}

fn due(last: Option<u64>, now: u64, interval: u64) -> (r: bool)
    ensures
        r == is_due(last, now, interval),
{
    match last {
        None => true,
        Some(t) => now >= t && now - t >= interval,
    }
}

impl PollSchedule {
    /// Nothing read yet: everything is due.
    pub fn new() -> (s: PollSchedule)
        ensures
            s.last_workspace_poll is None,
            s.last_volume_poll is None,
            s.last_song_poll is None,
            s.last_battery_refresh is None,
            s.last_datetime_refresh is None,
    {
        PollSchedule {
            last_workspace_poll: None,
            last_volume_poll: None,
            last_song_poll: None,
            last_battery_refresh: None,
            last_datetime_refresh: None,
        }
    }

    /// The sources to read at `now`, recorded as read.
    pub fn due_polls(&mut self, now: u64, visible: bool, workspace_event_driven: bool) -> (d:
        DuePolls)
        ensures
            d == due_at(*old(self), now, visible, workspace_event_driven),
            *final(self) == after_polls(*old(self), d, now),
    {
        let workspace_ms = if visible {
            WORKSPACE_POLL_VISIBLE_MS
        } else {
            WORKSPACE_POLL_HIDDEN_MS
        };
        let volume_ms = if visible {
            VOLUME_POLL_VISIBLE_MS
        } else {
            VOLUME_POLL_HIDDEN_MS
        };
        let song_ms = if visible {
            SONG_POLL_VISIBLE_MS
        } else {
            SONG_POLL_HIDDEN_MS
        };
        let datetime_ms = if visible {
            DATETIME_REFRESH_VISIBLE_MS
        } else {
            DATETIME_REFRESH_HIDDEN_MS
        };
        let d = DuePolls {
            workspaces: !workspace_event_driven && due(self.last_workspace_poll, now, workspace_ms),
            volume: due(self.last_volume_poll, now, volume_ms),
            song: due(self.last_song_poll, now, song_ms),
            battery: due(self.last_battery_refresh, now, BATTERY_REFRESH_MS),
            datetime: due(self.last_datetime_refresh, now, datetime_ms),
        };
        if d.workspaces {
            self.last_workspace_poll = Some(now);
        }
        if d.volume {
            self.last_volume_poll = Some(now);
        }
        if d.song {
            self.last_song_poll = Some(now);
        }
        if d.battery {
            self.last_battery_refresh = Some(now);
        }
        if d.datetime {
            self.last_datetime_refresh = Some(now);
        }
        d
    }
}

/// How long the event loop sleeps between two turns: short while the bar
/// is shown, so that it follows the keyboard closely, and long while it is
/// hidden.
pub fn loop_sleep_ms(visible: bool) -> (ms: u64)
    ensures
        ms == (if visible {
            LOOP_SLEEP_VISIBLE_MS
        } else {
            LOOP_SLEEP_HIDDEN_MS
        }),
{
    if visible {
        LOOP_SLEEP_VISIBLE_MS
    } else {
        LOOP_SLEEP_HIDDEN_MS
    }
}

/// A source that has just been read is not read again until its interval
/// has passed.
pub proof fn law_no_poll_within_interval(
    s: PollSchedule,
    now: u64,
    later: u64,
    visible: bool,
    workspace_event_driven: bool,
)
    requires
        now <= later,
    ensures
        ({
            let d = due_at(s, now, visible, workspace_event_driven);
            let next = due_at(after_polls(s, d, now), later, visible, workspace_event_driven);
            &&& (d.volume && later - now < volume_poll_ms(visible)) ==> !next.volume
            &&& (d.song && later - now < song_poll_ms(visible)) ==> !next.song
            &&& (d.battery && later - now < BATTERY_REFRESH_MS) ==> !next.battery
            &&& (d.datetime && later - now < datetime_refresh_ms(visible)) ==> !next.datetime
            &&& (d.workspaces && later - now < workspace_poll_ms(visible)) ==> !next.workspaces
        }),
{
}

/// Every source is read on the first tick; the workspaces only when no
/// event stream reports their changes.
pub proof fn law_first_tick_reads_everything(now: u64, visible: bool, workspace_event_driven: bool)
    ensures
        ({
            let d = due_at(
                PollSchedule {
                    last_workspace_poll: None,
                    last_volume_poll: None,
                    last_song_poll: None,
                    last_battery_refresh: None,
                    last_datetime_refresh: None,
                },
                now,
                visible,
                workspace_event_driven,
            );
            d.volume && d.song && d.battery && d.datetime && d.workspaces == !workspace_event_driven
        }),
{
}

// ---------------------------------------------------------------------------
// The whole bar
// ---------------------------------------------------------------------------

/// The status text that a poll has read anew.
pub enum StatusText {
    Song,
    Battery,
    Volume,
    Datetime,
}

pub struct BarState<H, B> {
    pub monitors: Vec<MonitorState<H, B>>,
    pub visible: bool,
    pub detail_mode: bool,
    pub status: BarStatus,
}

/// The first monitor with the given global name.
pub open spec fn first_with_name<H, B>(monitors: Seq<MonitorState<H, B>>, global_name: u32) -> Option<
    int,
>
    decreases monitors.len(),
{
    if monitors.len() == 0 {
        None
    } else if monitors[0].global_name == global_name {
        Some(0)
    } else {
        match first_with_name(monitors.drop_first(), global_name) {
            Some(i) => Some(i + 1),
            None => None,
        }
    }
}

proof fn lemma_first_with_name<H, B>(monitors: Seq<MonitorState<H, B>>, global_name: u32)
    ensures
        first_with_name(monitors, global_name) matches Some(i) ==> 0 <= i < monitors.len()
            && monitors[i].global_name == global_name,
        first_with_name(monitors, global_name) is None ==> forall|i: int|
            0 <= i < monitors.len() ==> monitors[i].global_name != global_name,
    decreases monitors.len(),
{
    if monitors.len() > 0 && monitors[0].global_name != global_name {
        lemma_first_with_name(monitors.drop_first(), global_name);
        let rest = monitors.drop_first();
        assert forall|i: int| 1 <= i < monitors.len() implies monitors[i] == rest[i - 1] by {}
    }
}

/// The monitor after a redraw request to all: configured, open monitors
/// are to be drawn again.
pub open spec fn redraw_requested<H, B>(m: MonitorState<H, B>) -> MonitorState<H, B> {
    if m.closed || !m.configured {
        m
    } else {
        MonitorState { needs_redraw: true, ..m }
    }
}

pub open spec fn signalled_visible(visible: bool, signal: u8) -> bool {
    let shown = if signal & SIGNAL_SHOW != 0 {
        true
    } else {
        visible
    };
    if signal & SIGNAL_HIDE != 0 {
        false
    } else {
        shown
    }
}

/// Whether the requests change the visibility at some step.
pub open spec fn visibility_toggled(visible: bool, signal: u8) -> bool {
    (signal & SIGNAL_SHOW != 0 && !visible) || (signal & SIGNAL_HIDE != 0 && (visible || signal
        & SIGNAL_SHOW != 0))
}

pub open spec fn signalled_detail(detail: bool, signal: u8) -> bool {
    let on = if signal & SIGNAL_DETAIL_ON != 0 {
        true
    } else {
        detail
    };
    if signal & SIGNAL_DETAIL_OFF != 0 {
        false
    } else {
        on
    }
}

/// Whether the requests change detail mode at some step.
pub open spec fn detail_toggled(detail: bool, signal: u8) -> bool {
    (signal & SIGNAL_DETAIL_ON != 0 && !detail) || (signal & SIGNAL_DETAIL_OFF != 0 && (detail
        || signal & SIGNAL_DETAIL_ON != 0))
}

pub open spec fn status_text(status: BarStatus, which: StatusText) -> String {
    match which {
        StatusText::Song => status.song,
        StatusText::Battery => status.battery,
        StatusText::Volume => status.volume,
        StatusText::Datetime => status.datetime,
    }
}

/// The show and hide requests of one signal act in that order: hide wins,
/// show alone shows, and without either the bar stays as it was. Whenever
/// that changes the visibility, in either direction, every configured,
/// open monitor is asked to draw again.
pub proof fn law_visibility_change_redraws_every_bar<H, B>(
    visible: bool,
    signal: u8,
    monitors: Seq<MonitorState<H, B>>,
)
    ensures
        signal & SIGNAL_HIDE != 0 ==> !signalled_visible(visible, signal),
        signal & SIGNAL_HIDE == 0 && signal & SIGNAL_SHOW != 0 ==> signalled_visible(visible, signal),
        signal & SIGNAL_HIDE == 0 && signal & SIGNAL_SHOW == 0 ==> signalled_visible(visible, signal)
            == visible,
        signalled_visible(visible, signal) != visible ==> visibility_toggled(visible, signal),
        forall|i: int|
            0 <= i < monitors.len() && monitors[i].configured && !monitors[i].closed
                ==> redraw_requested(#[trigger] monitors[i]).needs_redraw,
{
}

/// Asking again changes nothing: marking a visible buffer stale twice, or
/// requesting a redraw twice, is the same as doing it once.
pub proof fn law_marking_is_idempotent<H, B>(m: MonitorState<H, B>, visible: bool)
    ensures
        marked_visible_dirty(marked_visible_dirty(m, visible), visible) == marked_visible_dirty(
            m,
            visible,
        ),
        redraw_requested(redraw_requested(m)) == redraw_requested(m),
{
}

/// A configured bar always has a height, so it is drawn as soon as it has
/// a width.
pub proof fn law_configured_monitor_has_height<H, B>(m: MonitorState<H, B>, width: u32, height: u32)
    ensures
        configured(m, width, height).height != 0,
        !m.closed ==> (wants_redraw(configured(m, width, height)) <==> width != 0),
{
}

impl<H, B> BarState<H, B> {
    pub fn new(status: BarStatus) -> (s: Self)
        ensures
            s.monitors@.len() == 0,
            !s.visible,
            !s.detail_mode,
            s.status == status,
    {
        BarState { monitors: Vec::new(), visible: false, detail_mode: false, status }
    }

    /// The position of the monitor with the given global name.
    pub fn find_monitor(&self, global_name: u32) -> (r: Option<usize>)
        ensures
            r matches Some(i) ==> first_with_name(self.monitors@, global_name) == Some(i as int),
            r is None ==> first_with_name(self.monitors@, global_name) is None,
    {
        let mut i: usize = 0;
        assert(self.monitors@.skip(0) =~= self.monitors@);
        while i < self.monitors.len()
            invariant
                i <= self.monitors@.len(),
                first_with_name(self.monitors@, global_name) == match first_with_name(
                    self.monitors@.skip(i as int),
                    global_name,
                ) {
                    Some(k) => Some(k + i),
                    None => None,
                },
            decreases self.monitors@.len() - i,
        {
            assert(self.monitors@.skip(i as int).drop_first() =~= self.monitors@.skip(i + 1));
            if self.monitors[i].global_name == global_name {
                return Some(i);
            }
            i += 1;
        }
        None
    }

    /// Takes out the monitor with the given global name, for the caller to
    /// destroy.
    pub fn remove_output(&mut self, global_name: u32) -> (r: Option<MonitorState<H, B>>)
        ensures
            final(self).visible == old(self).visible,
            final(self).detail_mode == old(self).detail_mode,
            final(self).status == old(self).status,
            match first_with_name(old(self).monitors@, global_name) {
                Some(i) => r == Some(old(self).monitors@[i]) && final(self).monitors@ == old(
                    self,
                ).monitors@.remove(i),
                None => r is None && final(self).monitors@ == old(self).monitors@,
            },
    {
        proof {
            lemma_first_with_name(self.monitors@, global_name);
        }
        match self.find_monitor(global_name) {
            Some(i) => Some(self.monitors.remove(i)),
            None => None,
        }
    }

    /// Whether some open monitor still waits for its size.
    pub fn has_unconfigured_monitors(&self) -> (r: bool)
        ensures
            r == exists|i: int|
                0 <= i < self.monitors@.len() && !(#[trigger] self.monitors@[i]).closed
                    && !self.monitors@[i].configured,
    {
        let mut i: usize = 0;
        while i < self.monitors.len()
            invariant
                i <= self.monitors@.len(),
                forall|k: int|
                    0 <= k < i ==> (#[trigger] self.monitors@[k]).closed
                        || self.monitors@[k].configured,
            decreases self.monitors@.len() - i,
        {
            if !self.monitors[i].closed && !self.monitors[i].configured {
                return true;
            }
            i += 1;
        }
        false
    }

    /// Asks every configured, open monitor to draw again.
    pub fn mark_all_for_redraw(&mut self)
        ensures
            final(self).visible == old(self).visible,
            final(self).detail_mode == old(self).detail_mode,
            final(self).status == old(self).status,
            final(self).monitors@ == old(self).monitors@.map_values(
                |m: MonitorState<H, B>| redraw_requested(m),
            ),
    {
        let ghost start = self.monitors@;
        let mut i: usize = 0;
        while i < self.monitors.len()
            invariant
                i <= self.monitors@.len(),
                self.monitors@.len() == start.len(),
                self.visible == old(self).visible,
                self.detail_mode == old(self).detail_mode,
                self.status == old(self).status,
                forall|k: int|
                    0 <= k < self.monitors@.len() ==> #[trigger] self.monitors@[k] == if k < i {
                        redraw_requested(start[k])
                    } else {
                        start[k]
                    },
            decreases self.monitors@.len() - i,
        {
            if !(self.monitors[i].closed || !self.monitors[i].configured) {
                self.monitors[i].needs_redraw = true;
            }
            i += 1;
        }
        assert(self.monitors@ =~= start.map_values(|m: MonitorState<H, B>| redraw_requested(m)));
    }

    /// Makes every visible buffer stale.
    pub fn mark_all_visible_buffers_dirty(&mut self)
        ensures
            final(self).visible == old(self).visible,
            final(self).detail_mode == old(self).detail_mode,
            final(self).status == old(self).status,
            final(self).monitors@ == old(self).monitors@.map_values(
                |m: MonitorState<H, B>| marked_visible_dirty(m, old(self).visible),
            ),
    {
        let ghost start = self.monitors@;
        let visible = self.visible;
        let mut i: usize = 0;
        assert(visible == old(self).visible);
        while i < self.monitors.len()
            invariant
                i <= self.monitors@.len(),
                self.monitors@.len() == start.len(),
                self.visible == old(self).visible,
                self.detail_mode == old(self).detail_mode,
                self.status == old(self).status,
                forall|k: int|
                    0 <= k < self.monitors@.len() ==> #[trigger] self.monitors@[k] == if k < i {
                        marked_visible_dirty(start[k], visible)
                    } else {
                        start[k]
                    },
            decreases self.monitors@.len() - i,
        {
            self.monitors[i].mark_visible_dirty(visible);
            i += 1;
        }
        assert(self.monitors@ =~= start.map_values(
            |m: MonitorState<H, B>| marked_visible_dirty(m, visible),
        ));
    }

    /// Acts on the pending requests of the keyboard watcher, in the order
    /// show, hide, detail on, detail off. A change of visibility asks every
    /// configured, open monitor to draw again; the result says whether detail
    /// mode changed, after which battery and volume are to be read again.
    pub fn apply_visibility_signal(&mut self, signal: u8) -> (refresh_detail: bool)
        ensures
            final(self).visible == signalled_visible(old(self).visible, signal),
            final(self).detail_mode == signalled_detail(old(self).detail_mode, signal),
            refresh_detail == detail_toggled(old(self).detail_mode, signal),
            final(self).status == old(self).status,
            final(self).monitors@ == if visibility_toggled(old(self).visible, signal) {
                old(self).monitors@.map_values(|m: MonitorState<H, B>| redraw_requested(m))
            } else {
                old(self).monitors@
            },
                final(self).monitors@.len() == old(self).monitors@.len(),
            final(self).visible != old(self).visible ==> forall|i: int|
                0 <= i < old(self).monitors@.len() && old(self).monitors@[i].configured
                    && !old(self).monitors@[i].closed
                    ==> (#[trigger] final(self).monitors@[i]).needs_redraw,
    {
        let ghost start = self.monitors@;
        if signal & SIGNAL_SHOW != 0 && !self.visible {
            self.visible = true;
            self.mark_all_for_redraw();
        }
        if signal & SIGNAL_HIDE != 0 && self.visible {
            self.visible = false;
            self.mark_all_for_redraw();
        }
        assert(start.map_values(|m: MonitorState<H, B>| redraw_requested(m)).map_values(
            |m: MonitorState<H, B>| redraw_requested(m),
        ) =~= start.map_values(|m: MonitorState<H, B>| redraw_requested(m)));
        let mut refresh = false;
        if signal & SIGNAL_DETAIL_ON != 0 && !self.detail_mode {
            self.detail_mode = true;
            refresh = true;
        }
        if signal & SIGNAL_DETAIL_OFF != 0 && self.detail_mode {
            self.detail_mode = false;
            refresh = true;
        }
        refresh
    }

    /// Takes the battery and volume texts read for the new detail mode.
    pub fn refresh_detail_status(&mut self, battery: String, volume: String)
        ensures
            final(self).status.battery == battery,
            final(self).status.volume == volume,
            final(self).status.workspaces == old(self).status.workspaces,
            final(self).status.song == old(self).status.song,
            final(self).status.datetime == old(self).status.datetime,
            final(self).visible == old(self).visible,
            final(self).detail_mode == old(self).detail_mode,
            final(self).monitors@ == old(self).monitors@.map_values(
                |m: MonitorState<H, B>| marked_visible_dirty(m, old(self).visible),
            ),
    {
        self.status.battery = battery;
        self.status.volume = volume;
        self.mark_all_visible_buffers_dirty();
    }

    /// Takes new workspace labels; only the monitors whose label changed
    /// have their visible buffer made stale.
    pub fn apply_workspace_update(&mut self, next: WorkspaceStatus)
        ensures
            final(self).status.workspaces@ == next@,
            final(self).status.song == old(self).status.song,
            final(self).status.battery == old(self).status.battery,
            final(self).status.volume == old(self).status.volume,
            final(self).status.datetime == old(self).status.datetime,
            final(self).visible == old(self).visible,
            final(self).detail_mode == old(self).detail_mode,
            final(self).monitors@.len() == old(self).monitors@.len(),
            forall|i: int|
                0 <= i < old(self).monitors@.len() ==> #[trigger] final(self).monitors@[i] == if label_for(
                    old(self).status.workspaces@,
                    name_view(old(self).monitors@[i].output_name),
                ) != label_for(next@, name_view(old(self).monitors@[i].output_name)) {
                    marked_visible_dirty(old(self).monitors@[i], old(self).visible)
                } else {
                    old(self).monitors@[i]
                },
    {
        if self.status.workspaces.same_as(&next) {
            return;
        }
        let ghost start = self.monitors@;
        let visible = self.visible;
        let mut i: usize = 0;
        while i < self.monitors.len()
            invariant
                i <= self.monitors@.len(),
                self.monitors@.len() == start.len(),
                self.visible == visible,
                visible == old(self).visible,
                self.detail_mode == old(self).detail_mode,
                self.status == old(self).status,
                start == old(self).monitors@,
                forall|k: int|
                    0 <= k < self.monitors@.len() ==> #[trigger] self.monitors@[k] == if k < i
                        && label_for(old(self).status.workspaces@, name_view(start[k].output_name))
                        != label_for(next@, name_view(start[k].output_name)) {
                        marked_visible_dirty(start[k], visible)
                    } else {
                        start[k]
                    },
            decreases self.monitors@.len() - i,
        {
            let name = match &self.monitors[i].output_name {
                Some(n) => Some(n.as_str()),
                None => None,
            };
            let old_label = crate::text::chars_of(self.status.workspaces.label_for_monitor(name));
            let next_label = crate::text::chars_of(next.label_for_monitor(name));
            if !crate::text::chars_eq(old_label.as_slice(), next_label.as_slice()) {
                self.monitors[i].mark_visible_dirty(visible);
            }
            i += 1;
        }
        self.status.workspaces = next;
    }

    /// Takes a status text that was read again; when it changed, every
    /// visible buffer goes stale.
    pub fn update_status_text(&mut self, which: StatusText, next: String)
        ensures
            status_text(final(self).status, which)@ == next@,
            final(self).status.workspaces == old(self).status.workspaces,
            forall|other: StatusText|
                other != which ==> status_text(final(self).status, other) == status_text(
                    old(self).status,
                    other,
                ),
            final(self).visible == old(self).visible,
            final(self).detail_mode == old(self).detail_mode,
            final(self).monitors@ == if status_text(old(self).status, which)@ == next@ {
                old(self).monitors@
            } else {
                old(self).monitors@.map_values(
                    |m: MonitorState<H, B>| marked_visible_dirty(m, old(self).visible),
                )
            },
    {
        let changed = match which {
            StatusText::Song => self.status.song != next,
            StatusText::Battery => self.status.battery != next,
            StatusText::Volume => self.status.volume != next,
            StatusText::Datetime => self.status.datetime != next,
        };
        if !changed {
            return;
        }
        match which {
            StatusText::Song => self.status.song = next,
            StatusText::Battery => self.status.battery = next,
            StatusText::Volume => self.status.volume = next,
            StatusText::Datetime => self.status.datetime = next,
        }
        self.mark_all_visible_buffers_dirty();
    }

    /// The right part of the bar: battery, volume and clock.
    pub fn right_text(&self) -> (r: String)
        ensures
            r@ == self.status.battery@ + "  "@ + self.status.volume@ + "  "@
                + self.status.datetime@,
    {
        let mut r = self.status.battery.clone();
        r.append("  ");
        r.append(self.status.volume.as_str());
        r.append("  ");
        r.append(self.status.datetime.as_str());
        r
    }
}

} // verus!
