//! The state of the monitor: the patterns and their particles, and what was polled.

use vstd::prelude::*;

use crate::input::{command_of, key_command, key_slot, slot_of, Key, KeyEvent, WindowCommand};
use crate::layout::PARTICLE_COUNT;
use crate::models::ProcessInfo;
use crate::patterns::{
    default_patterns, law_names_are_unique, starting_kinds, Pattern, PatternKind, Registered,
};

verus! {

/// How many readings the history holds at most.
pub const HISTORY_MAX: usize = 240;

/// How many milliseconds lie between two polls at least.
pub const POLL_MS: u128 = 500;

/// The state of the monitor, for patterns of type `P` and GPU readings of type `G`.
pub struct VramVisualizer<P: Pattern, G> {
    pub gpu: G,
    pub error: String,
    pub loaded_model: String,
    pub loaded_model2: String,
    pub particles: Vec<P::Particle>,
    pub frame: u64,
    pub active_idx: usize,
    pub patterns: Vec<P>,
    pub history: Vec<G>,
    pub processes: Vec<ProcessInfo>,
    pub strike_bins: [u64; 10],
}

/// A history with one reading more, and without its oldest where it was full.
pub open spec fn remembered<G>(history: Seq<G>, reading: G) -> Seq<G> {
    let longer = history.push(reading);
    if longer.len() > HISTORY_MAX {
        longer.drop_first()
    } else {
        longer
    }
}

impl<P: Pattern, G> VramVisualizer<P, G> {
    /// There is an active pattern, and the history is within its bound.
    pub open spec fn wf(self) -> bool {
        &&& self.active_idx < self.patterns@.len()
        &&& self.history@.len() <= HISTORY_MAX
    }

    /// Everything but the patterns and the particles is the same.
    pub open spec fn same_telemetry(self, other: Self) -> bool {
        &&& self.gpu == other.gpu
        &&& self.error == other.error
        &&& self.loaded_model == other.loaded_model
        &&& self.loaded_model2 == other.loaded_model2
        &&& self.history == other.history
        &&& self.processes == other.processes
        &&& self.strike_bins == other.strike_bins
    }

    /// The patterns are the same but for the one in `slot`.
    pub open spec fn same_patterns_but(self, other: Self, slot: int) -> bool {
        &&& self.patterns@.len() == other.patterns@.len()
        &&& forall|j: int|
            0 <= j < self.patterns@.len() && j != slot ==> #[trigger] self.patterns@[j]
                == other.patterns@[j]
    }

    /// `post` is `pre` with the pattern in `slot` made active and the particles anchored by it.
    pub open spec fn activated(pre: Self, slot: int, post: Self) -> bool {
        &&& post.active_idx == slot
        &&& post.frame == pre.frame
        &&& post.same_telemetry(pre)
        &&& post.same_patterns_but(pre, slot)
        &&& post.particles@.len() == pre.particles@.len()
        &&& P::activated(
            pre.patterns@[slot],
            pre.particles@,
            post.patterns@[slot],
            post.particles@,
        )
    }

    /// `post` is `pre` after a switch to `idx`, counted round the registry.
    pub open spec fn switched(pre: Self, idx: int, post: Self) -> bool {
        let slot = idx % (pre.patterns@.len() as int);
        if slot == pre.active_idx {
            post == pre
        } else {
            Self::activated(pre, slot, post)
        }
    }

    /// Nothing was shown, polled or struck yet, and the first pattern is active.
    pub open spec fn fresh(self, gpu: G) -> bool {
        &&& self.active_idx == 0
        &&& self.frame == 0
        &&& self.gpu == gpu
        &&& self.error@ == Seq::<char>::empty()
        &&& self.loaded_model@ == "—"@
        &&& self.loaded_model2@ == "—"@
        &&& self.history@ == Seq::<G>::empty()
        &&& self.processes@ == Seq::<ProcessInfo>::empty()
        &&& forall|i: int| 0 <= i < 10 ==> #[trigger] self.strike_bins@[i] == 0
    }

    /// The monitor with some particles and patterns, the first of which is activated.
    pub fn with_patterns(particles: Vec<P::Particle>, patterns: Vec<P>, gpu: G) -> (r: Self)
        requires
            patterns@.len() > 0,
        ensures
            r.wf(),
            r.fresh(gpu),
            r.patterns@.len() == patterns@.len(),
            forall|j: int| 0 < j < patterns@.len() ==> #[trigger] r.patterns@[j] == patterns@[j],
            r.particles@.len() == particles@.len(),
            P::activated(patterns@[0], particles@, r.patterns@[0], r.particles@),
    {
        let mut s = VramVisualizer {
            gpu,
            error: String::new(),
            loaded_model: "—".to_owned(),
            loaded_model2: "—".to_owned(),
            particles,
            frame: 0,
            active_idx: 0,
            patterns,
            history: Vec::new(),
            processes: Vec::new(),
            strike_bins: [0u64; 10],
        };
        s.patterns[0].on_activate(s.particles.as_mut_slice());
        s
    }

    /// Adds a pattern at the end of the cycle and returns its slot.
    pub fn register_pattern(&mut self, pattern: P) -> (r: usize)
        requires
            old(self).wf(),
        ensures
            final(self).wf(),
            r == old(self).patterns@.len(),
            final(self).patterns@ == old(self).patterns@.push(pattern),
            final(self).particles == old(self).particles,
            final(self).active_idx == old(self).active_idx,
            final(self).frame == old(self).frame,
            final(self).same_telemetry(*old(self)),
    {
        self.patterns.push(pattern);
        self.patterns.len() - 1
    }

    /// The name of the active pattern.
    pub fn current_name(&self) -> (r: &'static str)
        requires
            self.wf(),
        ensures
            call_ensures(P::name, (&self.patterns@[self.active_idx as int],), r),
    {
        self.patterns[self.active_idx].name()
    }

    /// The half-extent of the world that the active pattern fills, in hundredths of a unit.
    pub fn current_extent(&self) -> (r: (u32, u32))
        requires
            self.wf(),
        ensures
            call_ensures(P::extent, (&self.patterns@[self.active_idx as int],), r),
    {
        self.patterns[self.active_idx].extent()
    }

    /// Whether a second model is loaded, and so has a row of its own.
    pub fn shows_second_model(&self) -> (r: bool)
        ensures
            r <==> self.loaded_model2@ != "—"@,
    {
        self.loaded_model2 != "—".to_owned()
    }

    /// Makes the pattern in slot `idx`, counted round the registry, the active one. It is
    /// activated unless it was the active one already.
    pub fn switch_to(&mut self, idx: usize)
        requires
            old(self).wf(),
        ensures
            final(self).wf(),
            Self::switched(*old(self), idx as int, *final(self)),
            final(self).active_idx == idx as int % (old(self).patterns@.len() as int),
            final(self).active_idx == old(self).active_idx ==> *final(self) == *old(self),
            final(self).active_idx != old(self).active_idx ==> P::activated(
                old(self).patterns@[final(self).active_idx as int],
                old(self).particles@,
                final(self).patterns@[final(self).active_idx as int],
                final(self).particles@,
            ),
    {
        let slot: usize = idx % self.patterns.len();
        if slot == self.active_idx {
            return ;
        }
        self.active_idx = slot;
        self.patterns[slot].on_activate(self.particles.as_mut_slice());
    }

    /// Makes the next pattern of the cycle the active one.
    pub fn next_pattern(&mut self)
        requires
            old(self).wf(),
        ensures
            final(self).wf(),
            Self::switched(*old(self), old(self).active_idx + 1, *final(self)),
            final(self).active_idx == if old(self).active_idx + 1 == old(self).patterns@.len() {
                0
            } else {
                old(self).active_idx + 1
            },
            old(self).patterns@.len() > 1 ==> P::activated(
                old(self).patterns@[final(self).active_idx as int],
                old(self).particles@,
                final(self).patterns@[final(self).active_idx as int],
                final(self).particles@,
            ),
    {
        let count: usize = self.patterns.len();
        let next: usize = (self.active_idx + 1) % count;
        proof {
            let n = self.patterns@.len() as int;
            vstd::arithmetic::div_mod::lemma_mod_twice(self.active_idx + 1, n);
            if self.active_idx + 1 < n {
                vstd::arithmetic::div_mod::lemma_small_mod(
                    (self.active_idx + 1) as nat,
                    n as nat,
                );
            } else {
                vstd::arithmetic::div_mod::lemma_mod_self_0(n);
            }
        }
        self.switch_to(next);
    }

    /// `post` is `pre` after a key event.
    pub open spec fn keyed(pre: Self, event: KeyEvent, post: Self) -> bool {
        if !event.pressed {
            post == pre
        } else if event.key == Key::Tab {
            Self::switched(pre, pre.active_idx + 1, post)
        } else {
            match slot_of(event.key) {
                Some(slot) => Self::switched(pre, slot as int, post),
                None => post == pre,
            }
        }
    }

    /// `states` are the states before, between and after some key events.
    pub open spec fn keyed_run(states: Seq<Self>, events: Seq<KeyEvent>) -> bool {
        &&& states.len() == events.len() + 1
        &&& forall|i: int|
            0 <= i < events.len() ==> #[trigger] Self::keyed(states[i], events[i], states[i + 1])
    }

    /// Handles a key event: switches patterns, or returns a command for the window.
    pub fn handle_key(&mut self, event: KeyEvent) -> (r: Option<WindowCommand>)
        requires
            old(self).wf(),
        ensures
            final(self).wf(),
            Self::keyed(*old(self), event, *final(self)),
            final(self).patterns@.len() == old(self).patterns@.len(),
            r == event_command(event),
    {
        if !event.pressed {
            return None;
        }
        if event.key == Key::Tab {
            self.next_pattern();
        }
        if let Some(command) = key_command(event.key) {
            return Some(command);
        }
        if let Some(slot) = key_slot(event.key) {
            self.switch_to(slot);
        }
        None
    }

    /// Handles key events in their order and returns the commands for the window.
    pub fn handle_events(&mut self, events: &Vec<KeyEvent>) -> (r: Vec<WindowCommand>)
        requires
            old(self).wf(),
        ensures
            final(self).wf(),
            r@ == event_commands(events@),
            final(self).active_idx == active_after(
                old(self).active_idx as int,
                old(self).patterns@.len() as int,
                events@,
            ),
            exists|states: Seq<Self>|
                {
                    &&& #[trigger] Self::keyed_run(states, events@)
                    &&& states.first() == *old(self)
                    &&& states.last() == *final(self)
                },
    {
        let mut r: Vec<WindowCommand> = Vec::new();
        let ghost mut states: Seq<Self> = seq![*self];
        let ghost count = self.patterns@.len() as int;
        let ghost start = self.active_idx as int;
        let mut i: usize = 0;
        assert(events@.take(0) == Seq::<KeyEvent>::empty());
        while i < events.len()
            invariant
                self.wf(),
                i <= events.len(),
                count == self.patterns@.len(),
                r@ == event_commands(events@.take(i as int)),
                self.active_idx == active_after(start, count, events@.take(i as int)),
                Self::keyed_run(states, events@.take(i as int)),
                states.first() == *old(self),
                states.last() == *self,
            decreases events.len() - i,
        {
            let ghost before = states;
            let ghost done = events@.take(i as int);
            let ghost longer = events@.take(i + 1);
            assert(longer.drop_last() == done);
            if let Some(command) = self.handle_key(events[i]) {
                r.push(command);
            }
            proof {
                states = before.push(*self);
                assert forall|j: int| 0 <= j < longer.len() implies #[trigger] Self::keyed(
                    states[j],
                    longer[j],
                    states[j + 1],
                ) by {
                    if j < done.len() {
                        assert(Self::keyed(before[j], done[j], before[j + 1]));
                    }
                }
            }
            i = i + 1;
        }
        assert(events@.take(events.len() as int) == events@);
        r
    }

    /// `states` are the states of the active pattern before, between and after its work on each
    /// particle in turn.
    pub open spec fn moved_run(
        states: Seq<P>,
        before: Seq<P::Particle>,
        ctx: P::Ctx,
        after: Seq<P::Particle>,
    ) -> bool {
        &&& states.len() == before.len() + 1
        &&& after.len() == before.len()
        &&& forall|i: int|
            0 <= i < before.len() ==> #[trigger] P::moved(
                states[i],
                before[i],
                ctx,
                states[i + 1],
                after[i],
            )
    }

    /// Counts a frame and has the active pattern move every particle once.
    pub fn step(&mut self, ctx: &P::Ctx)
        requires
            old(self).wf(),
        ensures
            final(self).wf(),
            final(self).frame == if old(self).frame == u64::MAX {
                0
            } else {
                old(self).frame + 1
            },
            final(self).active_idx == old(self).active_idx,
            final(self).same_telemetry(*old(self)),
            final(self).same_patterns_but(*old(self), old(self).active_idx as int),
            exists|states: Seq<P>|
                {
                    &&& #[trigger] Self::moved_run(
                        states,
                        old(self).particles@,
                        *ctx,
                        final(self).particles@,
                    )
                    &&& states.first() == old(self).patterns@[old(self).active_idx as int]
                    &&& states.last() == final(self).patterns@[old(self).active_idx as int]
                },
    {
        self.frame = self.frame.wrapping_add(1);
        let active: usize = self.active_idx;
        let ghost start = *self;
        let ghost mut states: Seq<P> = seq![self.patterns@[active as int]];
        let mut i: usize = 0;
        while i < self.particles.len()
            invariant
                active == self.active_idx,
                active < self.patterns@.len(),
                start == (VramVisualizer {
                    particles: start.particles,
                    patterns: start.patterns,
                    ..*self
                }),
                self.same_patterns_but(start, active as int),
                self.particles@.len() == start.particles@.len(),
                i <= self.particles@.len(),
                states.len() == i + 1,
                states.first() == start.patterns@[active as int],
                states.last() == self.patterns@[active as int],
                forall|j: int|
                    i <= j < start.particles@.len() ==> #[trigger] self.particles@[j]
                        == start.particles@[j],
                forall|j: int|
                    0 <= j < i ==> #[trigger] P::moved(
                        states[j],
                        start.particles@[j],
                        *ctx,
                        states[j + 1],
                        self.particles@[j],
                    ),
            decreases self.particles@.len() - i,
        {
            let ghost before = states;
            let ghost held = self.particles@;
            self.patterns[active].update(&mut self.particles[i], ctx);
            proof {
                states = before.push(self.patterns@[active as int]);
                assert forall|j: int| 0 <= j < i + 1 implies #[trigger] P::moved(
                    states[j],
                    start.particles@[j],
                    *ctx,
                    states[j + 1],
                    self.particles@[j],
                ) by {
                    if j < i {
                        assert(P::moved(
                            before[j],
                            start.particles@[j],
                            *ctx,
                            before[j + 1],
                            held[j],
                        ));
                    }
                }
            }
            i = i + 1;
        }
        assert(Self::moved_run(states, start.particles@, *ctx, self.particles@));
    }

    /// `post` is `pre` after a poll that brought a reading or an error, and a report of loaded
    /// models or an error.
    pub open spec fn polled(
        pre: Self,
        reading: Result<G, String>,
        report: Result<(String, Vec<ProcessInfo>), String>,
        post: Self,
    ) -> bool {
        &&& match reading {
            Ok(g) => {
                &&& post.gpu == g
                &&& post.error@ == Seq::<char>::empty()
                &&& post.history@ == remembered(pre.history@, g)
            },
            Err(e) => {
                &&& post.gpu == pre.gpu
                &&& post.error == e
                &&& post.history == pre.history
            },
        }
        &&& match report {
            Ok((label, processes)) => {
                &&& post.loaded_model == label
                &&& post.processes == processes
            },
            Err(_) => {
                &&& post.loaded_model == pre.loaded_model
                &&& post.processes == pre.processes
            },
        }
        &&& post.loaded_model2 == pre.loaded_model2
        &&& post.particles == pre.particles
        &&& post.patterns == pre.patterns
        &&& post.active_idx == pre.active_idx
        &&& post.frame == pre.frame
        &&& post.strike_bins == pre.strike_bins
    }

    /// Takes in what a poll brought. A failed reading leaves its error and keeps the last good
    /// reading; a failed report changes nothing. Returns whether the models were reported.
    pub fn take_poll(
        &mut self,
        reading: Result<G, String>,
        report: Result<(String, Vec<ProcessInfo>), String>,
    ) -> (r: bool) where G: Copy
        requires
            old(self).wf(),
        ensures
            final(self).wf(),
            Self::polled(*old(self), reading, report, *final(self)),
            r == report is Ok,
            report matches Ok((label, processes)) ==> final(self).loaded_model == label
                && final(self).processes == processes,
            report is Err ==> final(self).loaded_model == old(self).loaded_model
                && final(self).processes == old(self).processes,
            reading matches Ok(g) ==> final(self).gpu == g && final(self).error@.len() == 0,
            reading matches Err(e) ==> final(self).gpu == old(self).gpu && final(self).error == e
                && final(self).history == old(self).history,
    {
        match reading {
            Ok(g) => {
                self.history.push(g);
                if self.history.len() > HISTORY_MAX {
                    self.history.remove(0);
                }
                self.gpu = g;
                self.error = String::new();
                assert(self.history@ == remembered(old(self).history@, g));
            },
            Err(e) => {
                self.error = e;
            },
        }
        match report {
            Ok((label, processes)) => {
                self.loaded_model = label;
                self.processes = processes;
                true
            },
            Err(_) => false,
        }
    }

    /// Polls where at least half a second has passed since the last poll: asks for a reading,
    /// then for the loaded models, and takes in what came back. Returns whether it polled, and
    /// whether the models were reported.
    pub fn poll<
        R: FnOnce() -> Result<G, String>,
        M: FnOnce() -> Result<(String, Vec<ProcessInfo>), String>,
    >(&mut self, elapsed_ms: u128, read_gpu: R, report_models: M) -> (r: (bool, bool)) where
        G: Copy,

        requires
            old(self).wf(),
            elapsed_ms >= POLL_MS ==> read_gpu.requires(()) && report_models.requires(()),
        ensures
            final(self).wf(),
            r.0 == (elapsed_ms >= POLL_MS),
            r.0 <==> elapsed_ms >= 500,
            elapsed_ms < POLL_MS ==> *final(self) == *old(self) && !r.1,
            elapsed_ms >= POLL_MS ==> exists|
                reading: Result<G, String>,
                report: Result<(String, Vec<ProcessInfo>), String>,
            |
                {
                    &&& read_gpu.ensures((), reading)
                    &&& report_models.ensures((), report)
                    &&& #[trigger] Self::polled(*old(self), reading, report, *final(self))
                    &&& r.1 == report is Ok
                },
    {
        if elapsed_ms < POLL_MS {
            return (false, false);
        }
        let reading = read_gpu();
        let report = report_models();
        let reported: bool = self.take_poll(reading, report);
        (true, reported)
    }

    /// Counts a strike in the bin of the usage that it fell on, in tenths of the full load; what
    /// lies beyond goes to the last bin. A full bin stays full.
    pub fn record_strike(&mut self, tenth: usize)
        requires
            old(self).wf(),
        ensures
            final(self).wf(),
            *final(self) == (VramVisualizer { strike_bins: final(self).strike_bins, ..*old(self) }),
            ({
                let bin = if tenth > 9 {
                    9
                } else {
                    tenth as int
                };
                let held = old(self).strike_bins@[bin];
                final(self).strike_bins@ == old(self).strike_bins@.update(
                    bin,
                    if held == u64::MAX {
                        u64::MAX
                    } else {
                        (held + 1) as u64
                    },
                )
            }),
    {
        let bin: usize = if tenth > 9 {
            9
        } else {
            tenth
        };
        self.strike_bins[bin] = self.strike_bins[bin].saturating_add(1);
    }
}

impl<V: Pattern, G> VramVisualizer<Registered<V>, G> {
    /// The registry holds patterns of these kinds, slot by slot.
    pub open spec fn lists(self, kinds: Seq<PatternKind>) -> bool {
        &&& self.patterns@.len() == kinds.len()
        &&& forall|j: int|
            0 <= j < kinds.len() ==> (#[trigger] self.patterns@[j]).kind == Some(kinds[j])
    }

    /// The monitor as it starts: with the particles that `make` makes of their indices, and with
    /// the patterns that `build` builds of the kinds that the registry starts with, the first of
    /// which is activated.
    pub fn new<B: Fn(PatternKind) -> V, M: Fn(usize) -> V::Particle>(
        make: M,
        build: B,
        gpu: G,
    ) -> (r: Self)
        requires
            forall|i: usize| i < PARTICLE_COUNT ==> #[trigger] make.requires((i,)),
            forall|kind: PatternKind| #[trigger] build.requires((kind,)),
        ensures
            r.wf(),
            r.fresh(gpu),
            r.lists(starting_kinds()),
            forall|j: int|
                0 < j < starting_kinds().len() ==> build.ensures(
                    (starting_kinds()[j],),
                    (#[trigger] r.patterns@[j]).pattern,
                ),
            r.particles@.len() == PARTICLE_COUNT,
            exists|first: V, made: Seq<V::Particle>|
                {
                    &&& #[trigger] V::activated(
                        first,
                        made,
                        r.patterns@[0].pattern,
                        r.particles@,
                    )
                    &&& build.ensures((starting_kinds()[0],), first)
                    &&& made.len() == PARTICLE_COUNT
                    &&& forall|i: int|
                        0 <= i < made.len() ==> make.ensures((i as usize,), #[trigger] made[i])
                },
    {
        let mut particles: Vec<V::Particle> = Vec::new();
        let mut i: usize = 0;
        while i < PARTICLE_COUNT
            invariant
                i <= PARTICLE_COUNT,
                particles@.len() == i,
                forall|i: usize| i < PARTICLE_COUNT ==> #[trigger] make.requires((i,)),
                forall|k: int|
                    0 <= k < particles@.len() ==> make.ensures(
                        (k as usize,),
                        #[trigger] particles@[k],
                    ),
            decreases PARTICLE_COUNT - i,
        {
            particles.push(make(i));
            i = i + 1;
        }
        let kinds = default_patterns();
        let mut patterns: Vec<Registered<V>> = Vec::new();
        let mut j: usize = 0;
        while j < kinds.len()
            invariant
                kinds@ == starting_kinds(),
                j <= kinds.len(),
                patterns@.len() == j,
                forall|kind: PatternKind| #[trigger] build.requires((kind,)),
                forall|k: int|
                    0 <= k < patterns@.len() ==> (#[trigger] patterns@[k]).kind == Some(kinds@[k])
                        && build.ensures((kinds@[k],), patterns@[k].pattern),
            decreases kinds.len() - j,
        {
            patterns.push(Registered { kind: Some(kinds[j]), pattern: build(kinds[j]) });
            j = j + 1;
        }
        let ghost first = patterns@[0];
        let ghost made = particles@;
        let r = Self::with_patterns(particles, patterns, gpu);
        assert(Registered::<V>::activated(first, made, r.patterns@[0], r.particles@));
        r
    }
}

/// The window command that a key event gives.
pub open spec fn event_command(event: KeyEvent) -> Option<WindowCommand> {
    if event.pressed {
        command_of(event.key)
    } else {
        None
    }
}

/// The window commands that some key events give, in order.
pub open spec fn event_commands(events: Seq<KeyEvent>) -> Seq<WindowCommand>
    decreases events.len(),
{
    if events.len() == 0 {
        Seq::empty()
    } else {
        match event_command(events.last()) {
            Some(command) => event_commands(events.drop_last()).push(command),
            None => event_commands(events.drop_last()),
        }
    }
}

/// The active slot after a key event, where `active` was it among `count` patterns.
pub open spec fn active_after_key(active: int, count: int, event: KeyEvent) -> int {
    if !event.pressed {
        active
    } else if event.key == Key::Tab {
        (active + 1) % count
    } else {
        match slot_of(event.key) {
            Some(slot) => slot as int % count,
            None => active,
        }
    }
}

/// The active slot after some key events.
pub open spec fn active_after(active: int, count: int, events: Seq<KeyEvent>) -> int
    decreases events.len(),
{
    if events.len() == 0 {
        active
    } else {
        active_after_key(active_after(active, count, events.drop_last()), count, events.last())
    }
}

/// A number of presses of the Tab key.
pub open spec fn tabs(n: nat) -> Seq<KeyEvent> {
    Seq::new(n, |i: int| KeyEvent { key: Key::Tab, pressed: true })
}

/// Tab goes through the patterns in order and round: `n` presses lead `n` slots on, and as many
/// presses as there are patterns lead back.
pub proof fn law_tab_goes_round(active: int, count: int, n: nat)
    requires
        0 <= active < count,
    ensures
        active_after(active, count, tabs(n)) == (active + n) % count,
        active_after(active, count, tabs(count as nat)) == active,
{
    lemma_tabs(active, count, n);
    lemma_tabs(active, count, count as nat);
    vstd::arithmetic::div_mod::lemma_mod_add_multiples_vanish(active, count);
    vstd::arithmetic::div_mod::lemma_small_mod(active as nat, count as nat);
}

proof fn lemma_tabs(active: int, count: int, n: nat)
    requires
        0 <= active < count,
    ensures
        active_after(active, count, tabs(n)) == (active + n) % count,
    decreases n,
{
    if n == 0 {
        vstd::arithmetic::div_mod::lemma_small_mod(active as nat, count as nat);
    } else {
        let before = (n - 1) as nat;
        assert(tabs(n).drop_last() == tabs(before));
        lemma_tabs(active, count, before);
        vstd::arithmetic::div_mod::lemma_add_mod_noop(active + before, 1, count);
        vstd::arithmetic::div_mod::lemma_add_mod_noop((active + before) % count, 1, count);
        vstd::arithmetic::div_mod::lemma_mod_twice(active + before, count);
    }
}

/// Whatever keys are pressed, the active slot is one of the registry.
pub proof fn law_active_slot_stays_in_the_registry(
    active: int,
    count: int,
    events: Seq<KeyEvent>,
)
    requires
        0 <= active < count,
    ensures
        0 <= active_after(active, count, events) < count,
    decreases events.len(),
{
    if events.len() > 0 {
        law_active_slot_stays_in_the_registry(active, count, events.drop_last());
    }
}

/// Only pressing a key does anything, and a key that moves the window selects no pattern.
pub proof fn law_keys_do_one_thing(active: int, count: int, event: KeyEvent)
    ensures
        !event.pressed ==> active_after_key(active, count, event) == active && event_command(event)
            is None,
        event_command(event) is Some ==> active_after_key(active, count, event) == active,
{
}

/// The digit on a number key.
pub open spec fn digit_on(key: Key) -> Option<char> {
    match key {
        Key::Num0 => Some('0'),
        Key::Num1 => Some('1'),
        Key::Num2 => Some('2'),
        Key::Num3 => Some('3'),
        Key::Num4 => Some('4'),
        Key::Num5 => Some('5'),
        Key::Num6 => Some('6'),
        Key::Num7 => Some('7'),
        Key::Num8 => Some('8'),
        Key::Num9 => Some('9'),
        _ => None,
    }
}

/// Each number key selects, among the patterns that the monitor starts with, the chip pattern
/// whose name begins with the digit on the key; the keys 1 to 9 and 0 stand for the first ten
/// slots in order.
pub proof fn law_number_keys_select_chip_patterns(key: Key, active: int)
    requires
        digit_on(key) is Some,
    ensures
        ({
            let kinds = starting_kinds();
            let slot = active_after_key(
                active,
                kinds.len() as int,
                (KeyEvent { key, pressed: true }),
            );
            let digit = digit_on(key)->0;
            &&& slot_of(key) == Some(slot as usize)
            &&& slot == if digit == '0' {
                9
            } else {
                digit as int - '1' as int
            }
            &&& kinds[slot].label().take(7) == seq![digit, '.', ' ', 'C', 'h', 'i', 'p']
        }),
{
    reveal_strlit("1. ChipCore");
    reveal_strlit("2. ChipPulse");
    reveal_strlit("3. ChipOrbit");
    reveal_strlit("4. ChipGrid");
    reveal_strlit("5. ChipWave");
    reveal_strlit("6. ChipBreathe");
    reveal_strlit("7. ChipSpiral");
    reveal_strlit("8. ChipRings");
    reveal_strlit("9. ChipStorm");
    reveal_strlit("0. ChipMatrix");
    let kinds = starting_kinds();
    assert(kinds.len() == 11);
    let slot = slot_of(key)->0 as int;
    let digit = digit_on(key)->0;
    assert(slot % 11 == slot);
    assert(kinds[slot].label().take(7) =~= seq![digit, '.', ' ', 'C', 'h', 'i', 'p']);
}

/// Tab reaches the pattern that no number key selects: it comes last.
pub proof fn law_orbit_cube_ends_the_cycle()
    ensures
        starting_kinds().last() == PatternKind::OrbitCube,
        forall|key: Key|
            digit_on(key) is Some ==> starting_kinds()[(#[trigger] slot_of(key))->0 as int]
                != PatternKind::OrbitCube,
{
}

/// The history after some readings.
pub open spec fn history_after<G>(history: Seq<G>, readings: Seq<G>) -> Seq<G>
    decreases readings.len(),
{
    if readings.len() == 0 {
        history
    } else {
        remembered(history_after(history, readings.drop_last()), readings.last())
    }
}

/// The history holds the latest readings in the order in which they came, all of them while
/// there is room and never more than its bound.
pub proof fn law_history_keeps_the_latest<G>(history: Seq<G>, readings: Seq<G>)
    requires
        history.len() <= HISTORY_MAX,
    ensures
        ({
            let all = history + readings;
            let kept = history_after(history, readings);
            &&& kept.len() <= HISTORY_MAX
            &&& all.len() <= HISTORY_MAX ==> kept == all
            &&& all.len() > HISTORY_MAX ==> kept == all.skip(all.len() - HISTORY_MAX)
        }),
    decreases readings.len(),
{
    let all = history + readings;
    if readings.len() == 0 {
        assert(all == history);
    } else {
        let front = readings.drop_last();
        let kept = history_after(history, front);
        law_history_keeps_the_latest(history, front);
        assert(all == (history + front).push(readings.last()));
        if all.len() > HISTORY_MAX {
            assert(kept.push(readings.last()).drop_first() =~= all.skip(all.len() - HISTORY_MAX));
        }
    }
}

impl<P: Pattern, G> VramVisualizer<P, G> {
    /// After a switch the pattern asked for is active, and asking for it again changes nothing.
    pub proof fn law_switch_settles(pre: Self, idx: int, mid: Self, post: Self)
        requires
            pre.wf(),
            idx >= 0,
            Self::switched(pre, idx, mid),
            Self::switched(mid, idx, post),
        ensures
            mid.wf(),
            mid.active_idx == idx % (pre.patterns@.len() as int),
            post == mid,
    {
        vstd::arithmetic::div_mod::lemma_mod_bound(idx, pre.patterns@.len() as int);
    }

    /// A pattern that is registered at any time can be reached by its slot, and no other
    /// pattern changes its slot by it.
    pub proof fn law_registered_pattern_is_reachable(
        pre: Self,
        pattern: P,
        mid: Self,
        post: Self,
    )
        requires
            pre.wf(),
            mid.active_idx == pre.active_idx,
            mid.patterns@ == pre.patterns@.push(pattern),
            Self::switched(mid, pre.patterns@.len() as int, post),
        ensures
            post.active_idx == pre.patterns@.len(),
            forall|j: int|
                0 <= j < pre.patterns@.len() ==> #[trigger] post.patterns@[j] == pre.patterns@[j],
            P::activated(
                pattern,
                mid.particles@,
                post.patterns@[pre.patterns@.len() as int],
                post.particles@,
            ),
    {
        let slot = pre.patterns@.len() as int;
        vstd::arithmetic::div_mod::lemma_small_mod(slot as nat, (slot + 1) as nat);
        assert forall|j: int| 0 <= j < slot implies #[trigger] post.patterns@[j]
            == pre.patterns@[j] by {
            assert(mid.patterns@[j] == pre.patterns@[j]);
        }
    }

    /// The reading that is shown is the latest of the history.
    pub proof fn law_shown_reading_is_the_latest(
        pre: Self,
        reading: Result<G, String>,
        report: Result<(String, Vec<ProcessInfo>), String>,
        post: Self,
    )
        requires
            pre.wf(),
            Self::polled(pre, reading, report, post),
            reading is Ok,
        ensures
            post.history@.len() > 0,
            post.history@.last() == post.gpu,
    {
    }

    /// A failed reading loses nothing: the last good reading, the history and the patterns stay.
    pub proof fn law_failed_poll_keeps_readings(
        pre: Self,
        reading: Result<G, String>,
        report: Result<(String, Vec<ProcessInfo>), String>,
        post: Self,
    )
        requires
            Self::polled(pre, reading, report, post),
            reading is Err,
        ensures
            post.gpu == pre.gpu,
            post.history == pre.history,
            post.error == reading->Err_0,
            post.patterns == pre.patterns,
            post.particles == pre.particles,
    {
    }
}

impl<V: Pattern, G> VramVisualizer<Registered<V>, G> {
    /// In a monitor that holds the patterns that it starts with, the first ten slots show the
    /// chip patterns under their numbers, in order; no two patterns show the same name, and each
    /// fills some room.
    pub proof fn law_starting_patterns(
        monitor: Self,
        names: Seq<&'static str>,
        extents: Seq<(u32, u32)>,
    )
        requires
            monitor.lists(starting_kinds()),
            names.len() == monitor.patterns@.len(),
            extents.len() == monitor.patterns@.len(),
            forall|j: int|
                0 <= j < names.len() ==> call_ensures(
                    Registered::<V>::name,
                    (&monitor.patterns@[j],),
                    #[trigger] names[j],
                ),
            forall|j: int|
                0 <= j < extents.len() ==> call_ensures(
                    Registered::<V>::extent,
                    (&monitor.patterns@[j],),
                    #[trigger] extents[j],
                ),
        ensures
            names.len() == 11,
            names[0]@ == "1. ChipCore"@,
            names[1]@ == "2. ChipPulse"@,
            names[2]@ == "3. ChipOrbit"@,
            names[3]@ == "4. ChipGrid"@,
            names[4]@ == "5. ChipWave"@,
            names[5]@ == "6. ChipBreathe"@,
            names[6]@ == "7. ChipSpiral"@,
            names[7]@ == "8. ChipRings"@,
            names[8]@ == "9. ChipStorm"@,
            names[9]@ == "0. ChipMatrix"@,
            names[10]@ == "3. OrbitCube"@,
            forall|i: int, j: int|
                0 <= i < j < names.len() ==> (#[trigger] names[i])@ != (#[trigger] names[j])@,
            forall|j: int|
                0 <= j < extents.len() ==> (#[trigger] extents[j]).0 > 0 && extents[j].1 > 0,
    {
        let kinds = starting_kinds();
        assert forall|j: int| 0 <= j < kinds.len() implies (#[trigger] names[j])@
            == kinds[j].label() by {
            assert(monitor.patterns@[j].kind == Some(kinds[j]));
        }
        assert forall|j: int| 0 <= j < kinds.len() implies #[trigger] extents[j]
            == kinds[j].half_extent() by {
            assert(monitor.patterns@[j].kind == Some(kinds[j]));
        }
        assert forall|i: int, j: int| 0 <= i < j < names.len() implies (#[trigger] names[i])@ != (
        #[trigger] names[j])@ by {
            law_names_are_unique(kinds[i], kinds[j]);
        }
    }

    /// Switching patterns leaves every slot with the kind of pattern that it holds.
    pub proof fn law_switch_keeps_kinds(
        pre: Self,
        idx: int,
        post: Self,
        kinds: Seq<PatternKind>,
    )
        requires
            pre.wf(),
            pre.lists(kinds),
            Self::switched(pre, idx, post),
        ensures
            post.lists(kinds),
    {
        let slot = idx % (pre.patterns@.len() as int);
        vstd::arithmetic::div_mod::lemma_mod_bound(idx, pre.patterns@.len() as int);
        assert forall|j: int| 0 <= j < kinds.len() implies (#[trigger] post.patterns@[j]).kind
            == Some(kinds[j]) by {
            assert(pre.patterns@[j].kind == Some(kinds[j]));
        }
    }

    /// However many particles a pattern moves in a frame, its kind stays the same.
    pub proof fn law_step_keeps_kinds(
        states: Seq<Registered<V>>,
        before: Seq<V::Particle>,
        ctx: V::Ctx,
        after: Seq<V::Particle>,
    )
        requires
            Self::moved_run(states, before, ctx, after),
        ensures
            states.last().kind == states.first().kind,
        decreases states.len(),
    {
        if before.len() > 0 {
            let n = before.len() - 1;
            let fewer = states.drop_last();
            assert(Registered::<V>::moved(states[n], before[n], ctx, states[n + 1], after[n]));
            assert forall|i: int| 0 <= i < n implies #[trigger] Registered::<V>::moved(
                fewer[i],
                before.drop_last()[i],
                ctx,
                fewer[i + 1],
                after.drop_last()[i],
            ) by {
                assert(Registered::<V>::moved(states[i], before[i], ctx, states[i + 1], after[i]));
            }
            Self::law_step_keeps_kinds(fewer, before.drop_last(), ctx, after.drop_last());
        }
    }
}

impl<P: Pattern, G> VramVisualizer<P, G> {
    /// A monitor is sound just where its active slot is one of the registry and its history has at
    /// most 240 readings.
    pub proof fn law_sound_monitor(monitor: Self)
        ensures
            monitor.wf() <==> monitor.active_idx < monitor.patterns@.len()
                && monitor.history@.len() <= 240,
    {
    }

    /// A monitor that starts shows nothing yet: its first pattern is active, no frame is counted,
    /// no error and no model is known, nothing is remembered and no strike was counted.
    pub proof fn law_fresh_monitor_shows_nothing(monitor: Self, gpu: G, bin: int)
        requires
            monitor.fresh(gpu),
            0 <= bin < 10,
        ensures
            monitor.active_idx == 0,
            monitor.frame == 0,
            monitor.gpu == gpu,
            monitor.error@.len() == 0,
            monitor.loaded_model@ == seq!['—'],
            monitor.loaded_model2@ == seq!['—'],
            monitor.history@.len() == 0,
            monitor.processes@.len() == 0,
            monitor.strike_bins@[bin] == 0,
    {
        reveal_strlit("—");
    }

    /// Where the telemetry is the same, the readings, the error, the models, the history, the
    /// processes and the strikes are; where the patterns are the same but for a slot, every other
    /// slot holds what it held.
    pub proof fn law_what_stays_the_same(a: Self, b: Self, slot: int, j: int)
        ensures
            a.same_telemetry(b) <==> {
                &&& a.gpu == b.gpu
                &&& a.error == b.error
                &&& a.loaded_model == b.loaded_model
                &&& a.loaded_model2 == b.loaded_model2
                &&& a.history == b.history
                &&& a.processes == b.processes
                &&& a.strike_bins == b.strike_bins
            },
            a.same_patterns_but(b, slot) ==> a.patterns@.len() == b.patterns@.len(),
            a.same_patterns_but(b, slot) && 0 <= j < a.patterns@.len() && j != slot
                ==> a.patterns@[j] == b.patterns@[j],
    {
    }

    /// A switch to any slot but the active one, before it or behind it, makes that slot active and
    /// has its pattern anchor the particles; a switch to the active slot changes nothing. Slots
    /// are counted round the registry, and nothing else changes either way.
    pub proof fn law_switch_anchors_the_particles(pre: Self, idx: int, post: Self)
        requires
            pre.wf(),
            Self::switched(pre, idx, post),
        ensures
            ({
                let slot = idx % (pre.patterns@.len() as int);
                &&& post.active_idx == slot
                &&& slot == pre.active_idx ==> post == pre
                &&& slot != pre.active_idx ==> P::activated(
                    pre.patterns@[slot],
                    pre.particles@,
                    post.patterns@[slot],
                    post.particles@,
                )
                &&& post.particles@.len() == pre.particles@.len()
                &&& post.patterns@.len() == pre.patterns@.len()
                &&& forall|j: int|
                    0 <= j < pre.patterns@.len() && j != slot ==> #[trigger] post.patterns@[j]
                        == pre.patterns@[j]
                &&& post.frame == pre.frame
                &&& post.gpu == pre.gpu
                &&& post.error == pre.error
                &&& post.loaded_model == pre.loaded_model
                &&& post.loaded_model2 == pre.loaded_model2
                &&& post.history == pre.history
                &&& post.processes == pre.processes
                &&& post.strike_bins == pre.strike_bins
            }),
    {
    }

    /// A key that goes up changes nothing. Tab that goes down has the pattern in the next slot
    /// anchor the particles, the first one's behind the last; a key that stands for a slot has the
    /// pattern in that slot do so, unless it is active already; any other key changes no pattern.
    pub proof fn law_key_anchors_the_particles(pre: Self, event: KeyEvent, post: Self)
        requires
            pre.wf(),
            Self::keyed(pre, event, post),
        ensures
            !event.pressed ==> post == pre,
            event.pressed && event.key != Key::Tab && slot_of(event.key) is None ==> post == pre,
            ({
                let count = pre.patterns@.len() as int;
                let slot = if event.key == Key::Tab {
                    if pre.active_idx + 1 == count {
                        0
                    } else {
                        pre.active_idx + 1
                    }
                } else {
                    slot_of(event.key)->0 as int % count
                };
                event.pressed && (event.key == Key::Tab || slot_of(event.key) is Some) ==> {
                    &&& post.active_idx == slot
                    &&& slot == pre.active_idx ==> post == pre
                    &&& slot != pre.active_idx ==> P::activated(
                        pre.patterns@[slot],
                        pre.particles@,
                        post.patterns@[slot],
                        post.particles@,
                    )
                }
            }),
    {
        let count = pre.patterns@.len() as int;
        if pre.active_idx + 1 < count {
            vstd::arithmetic::div_mod::lemma_small_mod((pre.active_idx + 1) as nat, count as nat);
        } else {
            vstd::arithmetic::div_mod::lemma_mod_self_0(count);
        }
    }

    /// Key events are handled one by one, each in the state that the one before it left.
    pub proof fn law_events_are_handled_one_by_one(
        states: Seq<Self>,
        events: Seq<KeyEvent>,
        i: int,
    )
        requires
            Self::keyed_run(states, events),
        ensures
            states.len() == events.len() + 1,
            0 <= i < events.len() ==> Self::keyed(states[i], events[i], states[i + 1]),
    {
    }

    /// In a frame every particle is moved once and stays in its place among the others, each by
    /// the pattern as the particle before it left the pattern.
    pub proof fn law_every_particle_is_moved(
        states: Seq<P>,
        before: Seq<P::Particle>,
        ctx: P::Ctx,
        after: Seq<P::Particle>,
        i: int,
    )
        requires
            Self::moved_run(states, before, ctx, after),
        ensures
            after.len() == before.len(),
            states.len() == before.len() + 1,
            0 <= i < before.len() ==> P::moved(
                states[i],
                before[i],
                ctx,
                states[i + 1],
                after[i],
            ),
    {
    }

    /// After a poll that brought a report of the models, whatever was known before, the models and
    /// processes of that report are shown; a poll that brought none keeps those that were shown.
    pub proof fn law_latest_report_is_shown(
        pre: Self,
        reading: Result<G, String>,
        report: Result<(String, Vec<ProcessInfo>), String>,
        post: Self,
    )
        requires
            Self::polled(pre, reading, report, post),
        ensures
            report matches Ok((label, processes)) ==> post.loaded_model == label && post.processes
                == processes,
            report is Err ==> post.loaded_model == pre.loaded_model && post.processes
                == pre.processes,
            post.loaded_model2 == pre.loaded_model2,
    {
    }

    /// After a poll that brought a reading, whatever was known before, that reading is shown and
    /// remembered behind the others, of which the oldest goes once there are 240, and no error is
    /// left; after one that failed its error is shown, and the reading and the history stay.
    pub proof fn law_latest_reading_is_shown(
        pre: Self,
        reading: Result<G, String>,
        report: Result<(String, Vec<ProcessInfo>), String>,
        post: Self,
    )
        requires
            pre.wf(),
            Self::polled(pre, reading, report, post),
        ensures
            reading matches Ok(g) ==> {
                &&& post.gpu == g
                &&& post.error@.len() == 0
                &&& pre.history@.len() < 240 ==> post.history@ == pre.history@.push(g)
                &&& pre.history@.len() == 240 ==> post.history@ == pre.history@.skip(1).push(g)
            },
            reading matches Err(e) ==> {
                &&& post.gpu == pre.gpu
                &&& post.error == e
                &&& post.history == pre.history
            },
            post.particles == pre.particles,
            post.patterns == pre.patterns,
            post.active_idx == pre.active_idx,
            post.frame == pre.frame,
            post.strike_bins == pre.strike_bins,
    {
        if pre.history@.len() == 240 {
            if let Ok(g) = reading {
                assert(pre.history@.push(g).drop_first() =~= pre.history@.skip(1).push(g));
            }
        }
    }
}

impl<V: Pattern, G> VramVisualizer<Registered<V>, G> {
    /// A registry that lists some kinds has as many slots, each with a pattern of its kind.
    pub proof fn law_listed_kinds_stand_in_their_slots(
        monitor: Self,
        kinds: Seq<PatternKind>,
        j: int,
    )
        requires
            monitor.lists(kinds),
        ensures
            monitor.patterns@.len() == kinds.len(),
            0 <= j < kinds.len() ==> monitor.patterns@[j].kind == Some(kinds[j]),
    {
    }
}

/// Events that follow one another give the commands of the first and then those of the others. An
/// event alone gives one where it is B or F going down, and none else.
pub proof fn law_commands_come_in_order(a: Seq<KeyEvent>, b: Seq<KeyEvent>, event: KeyEvent)
    ensures
        event_commands(Seq::empty()) == Seq::<WindowCommand>::empty(),
        event_commands(seq![event]) == if event.pressed && event.key == Key::B {
            seq![WindowCommand::AlwaysOnBottom]
        } else if event.pressed && event.key == Key::F {
            seq![WindowCommand::Normal]
        } else {
            Seq::empty()
        },
        event_commands(a + b) == event_commands(a) + event_commands(b),
        event_command(event) == if event.pressed && event.key == Key::B {
            Some(WindowCommand::AlwaysOnBottom)
        } else if event.pressed && event.key == Key::F {
            Some(WindowCommand::Normal)
        } else {
            None
        },
    decreases b.len(),
{
    assert(seq![event].drop_last() == Seq::<KeyEvent>::empty());
    assert(event_commands(seq![event].drop_last()) == Seq::<WindowCommand>::empty());
    if b.len() == 0 {
        assert(a + b == a);
        assert(event_commands(a) + event_commands(b) == event_commands(a));
    } else {
        assert((a + b).drop_last() == a + b.drop_last());
        law_commands_come_in_order(a, b.drop_last(), event);
        assert(event_commands(a + b) == event_commands(a) + event_commands(b));
    }
}

/// Events that follow one another lead from the slot where the first of them ended. An event
/// alone leads to the next slot where it is Tab going down, to the slot that its key stands for,
/// or nowhere.
pub proof fn law_slots_follow_the_events(
    active: int,
    count: int,
    a: Seq<KeyEvent>,
    b: Seq<KeyEvent>,
    event: KeyEvent,
)
    requires
        0 <= active < count,
    ensures
        active_after(active, count, Seq::empty()) == active,
        active_after(active, count, seq![event]) == if !event.pressed {
            active
        } else if event.key == Key::Tab {
            if active + 1 == count {
                0
            } else {
                active + 1
            }
        } else if slot_of(event.key) is Some {
            slot_of(event.key)->0 as int % count
        } else {
            active
        },
        active_after(active, count, a + b) == active_after(
            active_after(active, count, a),
            count,
            b,
        ),
    decreases b.len(),
{
    assert(seq![event].drop_last() == Seq::<KeyEvent>::empty());
    assert(active_after(active, count, seq![event].drop_last()) == active);
    if active + 1 < count {
        vstd::arithmetic::div_mod::lemma_small_mod((active + 1) as nat, count as nat);
    } else {
        vstd::arithmetic::div_mod::lemma_mod_self_0(count);
    }
    if b.len() == 0 {
        assert(a + b == a);
    } else {
        assert((a + b).drop_last() == a + b.drop_last());
        law_slots_follow_the_events(active, count, a, b.drop_last(), event);
    }
}

/// A reading goes behind those that are remembered, and the oldest of 240 makes room for it.
pub proof fn law_oldest_reading_makes_room<G>(history: Seq<G>, reading: G)
    requires
        history.len() <= 240,
    ensures
        history.len() < 240 ==> remembered(history, reading) == history.push(reading),
        history.len() == 240 ==> remembered(history, reading) == history.skip(1).push(reading),
{
    assert(history.len() == 240 ==> history.push(reading).drop_first() =~= history.skip(1).push(
        reading,
    ));
}

/// How many strikes some bins hold together.
pub open spec fn strikes(bins: Seq<u64>) -> nat
    decreases bins.len(),
{
    if bins.len() == 0 {
        0
    } else {
        strikes(bins.drop_last()) + bins.last() as nat
    }
}

/// A strike that goes to a bin with room is counted exactly once.
pub proof fn law_strike_is_counted_once(bins: Seq<u64>, bin: int)
    requires
        0 <= bin < bins.len(),
        bins[bin] < u64::MAX,
    ensures
        strikes(bins.update(bin, (bins[bin] + 1) as u64)) == strikes(bins) + 1,
    decreases bins.len(),
{
    let after = bins.update(bin, (bins[bin] + 1) as u64);
    if bin == bins.len() - 1 {
        assert(after.drop_last() == bins.drop_last());
    } else {
        law_strike_is_counted_once(bins.drop_last(), bin);
        assert(after.drop_last() == bins.drop_last().update(bin, (bins[bin] + 1) as u64));
    }
}

} // verus!
