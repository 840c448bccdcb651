use cuda_monitor::input::{Key, KeyEvent, WindowCommand};
use cuda_monitor::layout::{chip_region, ChipRegion, PARTICLE_COUNT};
use cuda_monitor::models::ProcessInfo;
use cuda_monitor::patterns::{default_patterns, CustomPattern, Pattern, PatternKind, Registered};
use cuda_monitor::visualizer::{VramVisualizer, HISTORY_MAX};
use std::collections::HashSet;

#[derive(Clone, Copy)]
struct Dot {
    base_x: f32,
    x: f32,
    anchored_by: &'static str,
}

/// A pattern that lays the particles of the die on a square, and moves them by a given step.
struct Square {
    label: &'static str,
    half: f32,
    updates: u32,
}

impl Pattern for Square {
    type Particle = Dot;
    type Ctx = f32;

    fn name(&self) -> &'static str {
        self.label
    }

    fn on_activate(&mut self, particles: &mut [Dot]) {
        let n = particles.len();
        for (i, p) in particles.iter_mut().enumerate() {
            if chip_region(i, n) == ChipRegion::Die {
                p.base_x = ((i as f32 * 0.618).fract() * 2.0 - 1.0) * self.half;
            } else {
                p.base_x = self.half;
            }
            p.x = p.base_x;
            p.anchored_by = self.label;
        }
    }

    fn update(&mut self, p: &mut Dot, ctx: &f32) {
        self.updates += 1;
        p.x += *ctx;
    }
}

fn dots(n: usize) -> Vec<Dot> {
    vec![Dot { base_x: 99.0, x: 99.0, anchored_by: "" }; n]
}

fn square(label: &'static str) -> Square {
    Square { label, half: 0.5, updates: 0 }
}

fn added(label: &'static str) -> Registered<Square> {
    Registered { kind: None, pattern: square(label) }
}

fn monitor() -> VramVisualizer<Registered<Square>, u32> {
    VramVisualizer::new(
        |i| Dot { base_x: i as f32, x: i as f32, anchored_by: "" },
        |kind: PatternKind| square(kind.name()),
        0,
    )
}

fn press(key: Key) -> KeyEvent {
    KeyEvent { key, pressed: true }
}

#[test]
fn registry_builds_and_names_are_unique() {
    let v = monitor();
    let names: Vec<&str> = v.patterns.iter().map(|p| p.name()).collect();
    assert!(!names.is_empty(), "registry should not be empty");
    let unique: HashSet<&str> = names.iter().copied().collect();
    assert_eq!(unique.len(), names.len(), "all pattern names must be unique, got: {names:?}");
}

#[test]
fn chip_patterns_occupy_number_key_slots() {
    let v = monitor();
    let expected = [
        "1. ChipCore",
        "2. ChipPulse",
        "3. ChipOrbit",
        "4. ChipGrid",
        "5. ChipWave",
        "6. ChipBreathe",
        "7. ChipSpiral",
        "8. ChipRings",
        "9. ChipStorm",
        "0. ChipMatrix",
    ];
    for (i, name) in expected.iter().enumerate() {
        assert_eq!(
            v.patterns[i].name(),
            *name,
            "slot {i} (key {}) must be {name}, got: {}",
            if i == 9 { 0 } else { i + 1 },
            v.patterns[i].name()
        );
    }
}

#[test]
fn switch_to_re_anchors_and_changes_particle_state() {
    let mut v = monitor();
    assert_eq!(v.current_name(), "1. ChipCore");
    v.switch_to(1);
    assert_eq!(v.active_idx, 1);
    assert_eq!(v.current_name(), "2. ChipPulse");
    let first_base_x = v.particles[0].base_x;
    assert!(
        first_base_x.abs() <= 0.52,
        "first particle should be on the chip die, base_x={first_base_x}"
    );
    assert_eq!(v.particles[0].anchored_by, "2. ChipPulse");
}

#[test]
fn register_pattern_adds_at_runtime() {
    let mut v = monitor();
    let initial_len = v.patterns.len();
    let idx = v.register_pattern(added("14. Custom"));
    assert_eq!(idx, initial_len, "new pattern should get the next index");
    assert_eq!(v.patterns[idx].name(), "14. Custom");
    v.switch_to(idx);
    assert_eq!(v.active_idx, idx);
    assert_eq!(v.current_name(), "14. Custom");
}

#[test]
fn starting_activates_the_first_pattern() {
    let v = monitor();
    assert_eq!(v.active_idx, 0);
    assert_eq!(v.frame, 0);
    assert_eq!(v.loaded_model, "—");
    assert_eq!(v.loaded_model2, "—");
    assert!(!v.shows_second_model());
    assert_eq!(v.error, "");
    assert!(v.history.is_empty());
    assert!(v.processes.is_empty());
    assert_eq!(v.strike_bins, [0; 10]);
    assert!(v.particles.iter().all(|p| p.anchored_by == "1. ChipCore"));
}

#[test]
fn every_name_of_the_catalogue_is_as_shown() {
    let names = [
        (PatternKind::Vortex, "1. Vortex", (170, 170)),
        (PatternKind::Cylinder, "2. Cylinder", (135, 135)),
        (PatternKind::OrbitCube, "3. OrbitCube", (160, 160)),
        (PatternKind::Head, "4. Head", (120, 120)),
        (PatternKind::ProcessCloud, "5. ProcessCloud", (105, 105)),
        (PatternKind::Animation, "6. Animation", (190, 140)),
        (PatternKind::HeatScale, "7. HeatScale", (135, 135)),
        (PatternKind::Regions, "8. Regions", (150, 150)),
        (PatternKind::Wavefield, "9. Wavefield", (150, 150)),
        (PatternKind::SpiralGalaxy, "10. SpiralGalaxy", (150, 150)),
        (PatternKind::GridWave, "11. GridWave", (150, 150)),
        (PatternKind::Chimera, "12. Chimera", (150, 150)),
        (PatternKind::ReactiveImage, "13. ReactiveImage", (150, 150)),
        (PatternKind::Custom, "14. Custom", (150, 150)),
        (PatternKind::ChipCore, "1. ChipCore", (100, 100)),
        (PatternKind::ChipPulse, "2. ChipPulse", (100, 100)),
        (PatternKind::ChipOrbit, "3. ChipOrbit", (130, 130)),
        (PatternKind::ChipGrid, "4. ChipGrid", (100, 100)),
        (PatternKind::ChipWave, "5. ChipWave", (100, 100)),
        (PatternKind::ChipBreathe, "6. ChipBreathe", (110, 110)),
        (PatternKind::ChipSpiral, "7. ChipSpiral", (120, 120)),
        (PatternKind::ChipRings, "8. ChipRings", (130, 130)),
        (PatternKind::ChipStorm, "9. ChipStorm", (140, 140)),
        (PatternKind::ChipMatrix, "0. ChipMatrix", (100, 100)),
    ];
    for (kind, name, extent) in names {
        assert_eq!(kind.name(), name);
        assert_eq!(kind.extent(), extent);
    }
}

#[test]
fn hundredths_give_the_same_extent_as_a_decimal() {
    assert_eq!(PatternKind::Cylinder.extent().0 as f32 / 100.0, 1.35);
    assert_eq!(PatternKind::ProcessCloud.extent().0 as f32 / 100.0, 1.05);
    assert_eq!(PatternKind::Animation.extent().0 as f32 / 100.0, 1.9);
}

#[test]
fn an_extent_that_is_not_given_is_one_and_a_half() {
    let mut v = monitor();
    let idx = v.register_pattern(added("15. Added"));
    v.switch_to(idx);
    assert_eq!(v.current_extent(), (150, 150));
}

#[test]
fn the_registry_starts_with_the_catalogue() {
    let v = VramVisualizer::new(
        |i| Dot { base_x: i as f32, x: i as f32, anchored_by: "" },
        |_| Square { label: "unnamed", half: 0.5, updates: 0 },
        0u32,
    );
    assert_eq!(v.particles.len(), PARTICLE_COUNT);
    assert_eq!(v.patterns.len(), 11);
    let kinds: Vec<PatternKind> = v.patterns.iter().filter_map(|p| p.kind).collect();
    assert_eq!(kinds, default_patterns());
    for (pattern, kind) in v.patterns.iter().zip(kinds) {
        assert_eq!(pattern.name(), kind.name());
        assert_eq!(pattern.extent(), kind.extent());
        let (wx, wy) = pattern.extent();
        assert!(wx > 0 && wy > 0);
    }
    assert_eq!(v.patterns[10].name(), "3. OrbitCube");
    assert_eq!(v.patterns[10].extent(), (160, 160));
    assert_eq!(v.current_name(), "1. ChipCore");
    assert_eq!(v.current_extent(), (100, 100));
}

#[test]
fn a_monitor_that_runs_keeps_its_names() {
    let mut v = monitor();
    let before: Vec<&str> = v.patterns.iter().map(|p| p.name()).collect();
    for slot in 0..11 {
        v.switch_to(slot);
        v.step(&0.5);
    }
    let after: Vec<&str> = v.patterns.iter().map(|p| p.name()).collect();
    assert_eq!(before, after);
}

#[test]
fn particles_are_made_of_their_indices() {
    let custom = |_: PatternKind| CustomPattern::<usize, ()> {
        particle: std::marker::PhantomData,
        ctx: std::marker::PhantomData,
    };
    let v = VramVisualizer::new(|i| i * 2, custom, ());
    let expected: Vec<usize> = (0..PARTICLE_COUNT).map(|i| i * 2).collect();
    assert_eq!(v.particles, expected);
}

/// A pattern that has nothing to anchor.
struct Drift;

impl Pattern for Drift {
    type Particle = i32;
    type Ctx = i32;

    fn name(&self) -> &'static str {
        "16. Drift"
    }

    fn on_activate(&mut self, _particles: &mut [i32]) {}

    fn update(&mut self, p: &mut i32, ctx: &i32) {
        *p += *ctx;
    }
}

#[test]
fn a_pattern_need_not_anchor_anything() {
    let mut v = VramVisualizer::with_patterns(vec![1, 2, 3], vec![Drift, Drift], 0u32);
    assert_eq!(v.particles, vec![1, 2, 3]);
    v.step(&10);
    v.switch_to(1);
    assert_eq!(v.particles, vec![11, 12, 13]);
    assert_eq!(v.current_name(), "16. Drift");
}

#[test]
fn switching_to_the_active_pattern_does_nothing() {
    let mut v = monitor();
    v.particles[3].x = 7.0;
    v.switch_to(0);
    assert_eq!(v.particles[3].x, 7.0);
    v.switch_to(11);
    assert_eq!(v.active_idx, 0);
    assert_eq!(v.particles[3].x, 7.0);
    v.switch_to(13);
    assert_eq!(v.active_idx, 2);
    assert_eq!(v.particles[3].anchored_by, "3. ChipOrbit");
}

#[test]
fn tab_goes_through_all_patterns_and_back() {
    let mut v = monitor();
    let mut seen = Vec::new();
    for _ in 0..11 {
        v.handle_key(press(Key::Tab));
        seen.push(v.active_idx);
    }
    assert_eq!(seen, vec![1, 2, 3, 4, 5, 6, 7, 8, 9, 10, 0]);
}

#[test]
fn keys_select_their_slots() {
    let table = [
        (Key::Num1, 0),
        (Key::Num2, 1),
        (Key::Num3, 2),
        (Key::Num4, 3),
        (Key::Num5, 4),
        (Key::Num6, 5),
        (Key::Num7, 6),
        (Key::Num8, 7),
        (Key::Num9, 8),
        (Key::Num0, 9),
        (Key::Minus, 10),
        (Key::Equals, 0),
        (Key::N, 1),
        (Key::S, 2),
    ];
    for (key, slot) in table {
        let mut v = monitor();
        v.switch_to(5);
        assert_eq!(v.handle_key(press(key)), None);
        assert_eq!(v.active_idx, slot);
    }
    let mut v = monitor();
    let added = v.register_pattern(added("15. Added"));
    v.handle_key(press(Key::Equals));
    assert_eq!(v.active_idx, added);
}

#[test]
fn events_are_handled_in_order() {
    let mut v = monitor();
    let events = vec![
        press(Key::B),
        press(Key::Num4),
        KeyEvent { key: Key::Num9, pressed: false },
        press(Key::Tab),
        press(Key::F),
        press(Key::Other),
        KeyEvent { key: Key::B, pressed: false },
    ];
    let commands = v.handle_events(&events);
    assert_eq!(commands, vec![WindowCommand::AlwaysOnBottom, WindowCommand::Normal]);
    assert_eq!(v.active_idx, 4);
    assert_eq!(v.current_name(), "5. ChipWave");
}

#[test]
fn a_step_moves_every_particle_with_the_active_pattern() {
    let patterns = vec![square("a"), square("b")];
    let mut v = VramVisualizer::with_patterns(dots(5), patterns, 0u32);
    v.switch_to(1);
    let before: Vec<f32> = v.particles.iter().map(|p| p.x).collect();
    v.step(&0.25);
    v.step(&0.25);
    for (p, x) in v.particles.iter().zip(before) {
        assert_eq!(p.x, x + 0.5);
    }
    assert_eq!(v.patterns[0].updates, 0);
    assert_eq!(v.patterns[1].updates, 10);
    assert_eq!(v.frame, 2);
    v.frame = u64::MAX;
    v.step(&0.0);
    assert_eq!(v.frame, 0);
}

#[test]
fn the_custom_pattern_moves_nothing() {
    let custom = CustomPattern::<u32, ()> {
        particle: std::marker::PhantomData,
        ctx: std::marker::PhantomData,
    };
    let mut v = VramVisualizer::with_patterns(vec![1, 2, 3], vec![custom], 0u32);
    v.step(&());
    assert_eq!(v.particles, vec![1, 2, 3]);
    assert_eq!(v.current_name(), "14. Custom");
    assert_eq!(v.current_extent(), (150, 150));
}

fn process(name: &str) -> ProcessInfo {
    ProcessInfo {
        pid: 7,
        name: name.to_string(),
        used_memory_mb: None,
        model: name.to_string(),
    }
}

#[test]
fn a_poll_waits_for_half_a_second() {
    let mut v = monitor();
    let early = v.poll(499, || panic!("no reading"), || panic!("no report"));
    assert_eq!(early, (false, false));
    let due = v.poll(500, || Ok(3), || Ok(("m".to_string(), vec![process("m")])));
    assert_eq!(due, (true, true));
    assert_eq!(v.gpu, 3);
    assert_eq!(v.history, vec![3]);
    assert_eq!(v.loaded_model, "m");
    assert_eq!(v.processes.len(), 1);
}

#[test]
fn failures_keep_what_was_read() {
    let mut v = monitor();
    v.take_poll(Ok(5), Ok(("m".to_string(), Vec::new())));
    let reported = v.take_poll(Err("no GPU data".to_string()), Err("down".to_string()));
    assert!(!reported);
    assert_eq!(v.gpu, 5);
    assert_eq!(v.history, vec![5]);
    assert_eq!(v.error, "no GPU data");
    assert_eq!(v.loaded_model, "m");
    v.take_poll(Ok(6), Err("down".to_string()));
    assert_eq!(v.error, "");
    assert_eq!(v.history, vec![5, 6]);
}

#[test]
fn the_history_keeps_the_latest_readings() {
    let mut v = monitor();
    for i in 0..250 {
        v.take_poll(Ok(i), Err(String::new()));
    }
    assert_eq!(v.history.len(), HISTORY_MAX);
    assert_eq!(v.history[0], 10);
    assert_eq!(v.history[239], 249);
    assert_eq!(v.gpu, 249);
}

#[test]
fn strikes_are_counted_by_usage() {
    let mut v = monitor();
    v.record_strike(0);
    v.record_strike(3);
    v.record_strike(3);
    v.record_strike(10);
    v.record_strike(usize::MAX);
    assert_eq!(v.strike_bins, [1, 0, 0, 2, 0, 0, 0, 0, 0, 2]);
    v.strike_bins[9] = u64::MAX;
    v.record_strike(9);
    assert_eq!(v.strike_bins[9], u64::MAX);
}

#[test]
fn a_second_model_has_a_row() {
    let mut v = monitor();
    v.loaded_model2 = "other:7b".to_string();
    assert!(v.shows_second_model());
}
