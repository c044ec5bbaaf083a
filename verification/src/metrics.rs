//! Render-path instrumentation: counters, three switches for the paths being
//! measured, and a capped buffer of geometry-rebuild samples.
//!
//! One value of [`Metrics`] holds it all; whoever renders owns it and
//! decides where it lives. Percentiles over the samples are taken outside,
//! from [`Metrics::samples`].

use vstd::prelude::*;

verus! {

/// How many geometry samples are kept: under a large load an unbounded
/// buffer would itself distort the measurement.
pub const SAMPLE_CAP: usize = 200_000;

/// The instrumentation of one render path.
pub struct Metrics {
    batched: bool,
    damage_aware: bool,
    skip_grid_clone: bool,
    /// `draw` calls: frames times panes.
    pub draw_calls: u64,
    /// Of those, how many rebuilt geometry (cache misses).
    pub geom_builds: u64,
    /// Total time spent rebuilding geometry, in nanoseconds.
    pub geom_ns: u64,
    /// Text runs filled.
    pub text_ops: u64,
    /// Background quads after run-length merging.
    pub quad_ops: u64,
    /// How many times the grid was cloned.
    pub grid_clones: u64,
    /// Wakeups merged at the source. Higher is better.
    pub wakeups_coalesced: u64,
    /// Non-wakeup events thrown away. **Data loss; must stay 0.**
    pub events_dropped: u64,
    /// Sends that failed because the receiver was gone: how a pane closes.
    pub channel_closed: u64,
    /// Events sitting in the queue now.
    pub events_queued: u64,
    /// High-water mark of `events_queued`.
    pub events_queue_max: u64,
    /// Backend commands processed.
    pub commands: u64,
    /// Cell count seen on the last draw (columns times rows).
    pub cells: usize,
    samples: Vec<u32>,
}

/// The instrumentation as plain values.
pub ghost struct Gauges {
    pub batched: bool,
    pub damage_aware: bool,
    pub skip_grid_clone: bool,
    pub draw_calls: u64,
    pub geom_builds: u64,
    pub geom_ns: u64,
    pub text_ops: u64,
    pub quad_ops: u64,
    pub grid_clones: u64,
    pub wakeups_coalesced: u64,
    pub events_dropped: u64,
    pub channel_closed: u64,
    pub events_queued: u64,
    pub events_queue_max: u64,
    pub commands: u64,
    pub cells: usize,
    pub samples: Seq<u32>,
}

impl View for Metrics {
    type V = Gauges;

    closed spec fn view(&self) -> Gauges {
        Gauges {
            batched: self.batched,
            damage_aware: self.damage_aware,
            skip_grid_clone: self.skip_grid_clone,
            draw_calls: self.draw_calls,
            geom_builds: self.geom_builds,
            geom_ns: self.geom_ns,
            text_ops: self.text_ops,
            quad_ops: self.quad_ops,
            grid_clones: self.grid_clones,
            wakeups_coalesced: self.wakeups_coalesced,
            events_dropped: self.events_dropped,
            channel_closed: self.channel_closed,
            events_queued: self.events_queued,
            events_queue_max: self.events_queue_max,
            commands: self.commands,
            cells: self.cells,
            samples: self.samples@,
        }
    }
}

/// `n + k` as a `u64` counter computes it: wrapping past the top.
pub open spec fn wrapped(n: u64, k: u64) -> u64 {
    ((n + k) % 0x1_0000_0000_0000_0000) as u64
}

/// A sample as the buffer keeps it: nanoseconds, saturated to `u32`.
pub open spec fn as_sample(ns: u64) -> u32 {
    if ns > u32::MAX {
        u32::MAX
    } else {
        ns as u32
    }
}

/// One more than `n`, staying at the top instead of wrapping.
pub open spec fn saturated(n: u64) -> u64 {
    if n == u64::MAX {
        n
    } else {
        (n + 1) as u64
    }
}

/// The larger of two counts.
pub open spec fn higher(a: u64, b: u64) -> u64 {
    if a < b {
        b
    } else {
        a
    }
}

/// The gauges after a reset: every counter at zero and the samples gone;
/// the switches and the last cell count stay.
pub open spec fn cleared(g: Gauges) -> Gauges {
    Gauges {
        draw_calls: 0,
        geom_builds: 0,
        geom_ns: 0,
        text_ops: 0,
        quad_ops: 0,
        grid_clones: 0,
        wakeups_coalesced: 0,
        events_dropped: 0,
        channel_closed: 0,
        events_queued: 0,
        events_queue_max: 0,
        commands: 0,
        samples: Seq::empty(),
        ..g
    }
}

impl Metrics {
    /// All counters at zero, every switch off, no samples.
    pub fn new() -> (r: Metrics)
        ensures
            r@ == (Gauges {
                batched: false,
                damage_aware: false,
                skip_grid_clone: false,
                cells: 0,
                ..cleared(r@)
            }),
            r@ == cleared(r@),
    {
        Metrics {
            batched: false,
            damage_aware: false,
            skip_grid_clone: false,
            draw_calls: 0,
            geom_builds: 0,
            geom_ns: 0,
            text_ops: 0,
            quad_ops: 0,
            grid_clones: 0,
            wakeups_coalesced: 0,
            events_dropped: 0,
            channel_closed: 0,
            events_queued: 0,
            events_queue_max: 0,
            commands: 0,
            cells: 0,
            samples: Vec::new(),
        }
    }

    /// Turns glyph-run batching on or off.
    pub fn set_batched(&mut self, v: bool)
        ensures
            final(self)@ == (Gauges { batched: v, ..old(self)@ }),
    {
        self.batched = v;
    }

    /// Whether glyph runs are batched.
    pub fn batched(&self) -> (r: bool)
        ensures
            r == self@.batched,
    {
        self.batched
    }

    /// Turns damage-based cache invalidation on or off. Off clears the
    /// cache on every command.
    pub fn set_damage_aware(&mut self, v: bool)
        ensures
            final(self)@ == (Gauges { damage_aware: v, ..old(self)@ }),
    {
        self.damage_aware = v;
    }

    /// Whether cache invalidation follows damage.
    pub fn damage_aware(&self) -> (r: bool)
        ensures
            r == self@.damage_aware,
    {
        self.damage_aware
    }

    /// Turns skipping the grid clone when nothing was damaged on or off.
    pub fn set_skip_grid_clone(&mut self, v: bool)
        ensures
            final(self)@ == (Gauges { skip_grid_clone: v, ..old(self)@ }),
    {
        self.skip_grid_clone = v;
    }

    /// Whether an undamaged sync skips the grid clone.
    pub fn skip_grid_clone(&self) -> (r: bool)
        ensures
            r == self@.skip_grid_clone,
    {
        self.skip_grid_clone
    }

    /// Records one geometry rebuild that took `ns` nanoseconds: counts it,
    /// adds its time, and keeps it as a sample while there is room.
    pub fn record_geom(&mut self, ns: u64)
        ensures
            final(self)@ == (Gauges {
                geom_builds: wrapped(old(self)@.geom_builds, 1),
                geom_ns: wrapped(old(self)@.geom_ns, ns),
                samples: if old(self)@.samples.len() < SAMPLE_CAP {
                    old(self)@.samples.push(as_sample(ns))
                } else {
                    old(self)@.samples
                },
                ..old(self)@
            }),
    {
        self.geom_builds = self.geom_builds.wrapping_add(1);
        self.geom_ns = self.geom_ns.wrapping_add(ns);
        if self.samples.len() < SAMPLE_CAP {
            let sample: u32 = if ns > 0xffff_ffffu64 {
                0xffff_ffffu32
            } else {
                ns as u32
            };
            self.samples.push(sample);
        }
    }

    /// Zeroes every counter and drops the samples. The switches and the
    /// last cell count are settings, not counts, and stay.
    pub fn reset(&mut self)
        ensures
            final(self)@ == cleared(old(self)@),
    {
        self.draw_calls = 0;
        self.geom_builds = 0;
        self.geom_ns = 0;
        self.text_ops = 0;
        self.quad_ops = 0;
        self.grid_clones = 0;
        self.wakeups_coalesced = 0;
        self.events_dropped = 0;
        self.channel_closed = 0;
        self.events_queued = 0;
        self.events_queue_max = 0;
        self.commands = 0;
        self.samples.clear();
    }

    /// One event entered the queue. The gauge saturates rather than wraps,
    /// and the high-water mark follows it.
    pub fn queue_push(&mut self)
        ensures
            final(self)@ == (Gauges {
                events_queued: saturated(old(self)@.events_queued),
                events_queue_max: higher(
                    old(self)@.events_queue_max,
                    saturated(old(self)@.events_queued),
                ),
                ..old(self)@
            }),
    {
        self.events_queued = self.events_queued.saturating_add(1);
        if self.events_queue_max < self.events_queued {
            self.events_queue_max = self.events_queued;
        }
    }

    /// One event left the queue. A pop with nothing counted (a reset came
    /// between the push and the pop) leaves the gauge at zero rather than
    /// wrapping below it.
    pub fn queue_pop(&mut self)
        ensures
            final(self)@ == (Gauges {
                events_queued: if old(self)@.events_queued == 0 {
                    0
                } else {
                    (old(self)@.events_queued - 1) as u64
                },
                ..old(self)@
            }),
    {
        self.events_queued = self.events_queued.saturating_sub(1);
    }

    /// The geometry-rebuild samples kept so far, in nanoseconds.
    pub fn samples(&self) -> (r: &[u32])
        ensures
            r@ == self@.samples,
    {
        self.samples.as_slice()
    }
}

impl Default for Metrics {
    /// [`Metrics::new`].
    fn default() -> (r: Metrics)
        ensures
            r@ == cleared(r@),
            !r@.batched && !r@.damage_aware && !r@.skip_grid_clone && r@.cells == 0,
    {
        Metrics::new()
    }
}

} // verus!
