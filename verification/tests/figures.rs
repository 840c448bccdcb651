use cuda_monitor::depth::{depth_key, draw_order};
use cuda_monitor::input::{
    key_command, key_slot, pinned_by, pointer_request, Key, PointerRequest, WindowCommand,
};
use cuda_monitor::layout::{
    chip_region, grid_cell, head_part, particle_keys, ring_index, ChipRegion, HeadPart,
    PARTICLE_COUNT,
};
use cuda_monitor::lightning::{
    branch_count, branch_start, branches_for, draw_ends, pick_strike, search_strike,
    StrikeSearch, BOLT_SEGMENTS, MAX_ATTEMPTS,
};
use std::collections::HashSet;

const COUNTS: [usize; 9] = [1, 2, 3, 7, 50, 100, 1000, PARTICLE_COUNT, 12000];

#[test]
fn chip_regions_follow_the_share_of_the_index() {
    for n in COUNTS {
        for i in 0..n {
            let share = i as f32 / n as f32;
            let layer = if share < 0.50 {
                0
            } else if share < 0.66 {
                3
            } else {
                2
            };
            assert_eq!(chip_region(i, n).layer(), layer, "{i} of {n}");
        }
    }
}

#[test]
fn the_chip_is_half_die_and_a_sixth_border() {
    let n = PARTICLE_COUNT;
    let count = |r: ChipRegion| (0..n).filter(|i| chip_region(*i, n) == r).count();
    assert_eq!(count(ChipRegion::Die), 2178);
    assert_eq!(count(ChipRegion::Border), 697);
    assert_eq!(count(ChipRegion::Pin), 1481);
    let share = |r: ChipRegion| count(r) as f32 / n as f32;
    assert!((share(ChipRegion::Die) - 0.50).abs() < 0.05);
    assert!((share(ChipRegion::Border) - 0.16).abs() < 0.03);
    assert!((share(ChipRegion::Pin) - 0.34).abs() < 0.05);
}

#[test]
fn regions_have_their_layers_and_sizes() {
    assert_eq!((ChipRegion::Die.layer(), ChipRegion::Die.point_size()), (0, 30));
    assert_eq!((ChipRegion::Border.layer(), ChipRegion::Border.point_size()), (3, 18));
    assert_eq!((ChipRegion::Pin.layer(), ChipRegion::Pin.point_size()), (2, 20));
    assert_eq!(ChipRegion::Border.point_size() as f32 / 10.0, 1.8);
}

#[test]
fn head_parts_follow_the_share_of_the_index() {
    for n in COUNTS {
        for i in 0..n {
            let share = i as f32 / n as f32;
            let part = if share < 0.7 {
                HeadPart::Skull
            } else if share < 0.9 {
                HeadPart::Neck
            } else {
                HeadPart::Face
            };
            assert_eq!(head_part(i, n), part, "{i} of {n}");
        }
    }
}

#[test]
fn rings_follow_the_share_of_the_index() {
    for n in COUNTS {
        for rings in [5u8, 7] {
            for i in 0..n {
                let share = i as f32 / n as f32;
                let ring = (share * rings as f32).min((rings - 1) as f32) as usize as u8;
                assert_eq!(ring_index(i, n, rings), ring, "{i} of {n} in {rings}");
            }
        }
    }
}

#[test]
fn every_ring_holds_particles() {
    for rings in [1u8, 5, 7, 255] {
        let keys: HashSet<u8> =
            (0..PARTICLE_COUNT).map(|i| ring_index(i, PARTICLE_COUNT, rings)).collect();
        assert_eq!(keys.len(), rings as usize);
        assert!(keys.iter().all(|k| *k < rings));
    }
    assert_eq!(ring_index(usize::MAX - 1, usize::MAX, 255), 254);
}

#[test]
fn grid_cells_are_filled_row_by_row() {
    assert_eq!(grid_cell(0, 20), (0, 0));
    assert_eq!(grid_cell(19, 20), (19, 0));
    assert_eq!(grid_cell(20, 20), (0, 1));
    assert_eq!(grid_cell(4355, 66), (65, 65));
    let cells: HashSet<(usize, usize)> = (0..4356).map(|i| grid_cell(i, 66)).collect();
    assert_eq!(cells.len(), 4356);
}

#[test]
fn particle_keys_repeat() {
    let k = particle_keys(100);
    assert_eq!((k.process_id, k.size_step, k.phase_step), (4, 1, 36));
    let k = particle_keys(0);
    assert_eq!((k.process_id, k.size_step, k.phase_step), (0, 0, 0));
}

#[test]
fn a_search_takes_the_first_good_pair() {
    let mut search = StrikeSearch::new();
    assert!(search.is_open());
    search.offer(3, 3, true);
    search.offer(1, 2, false);
    assert_eq!((search.attempts, search.chosen), (2, None));
    search.offer(1, 2, true);
    assert_eq!((search.attempts, search.chosen), (2, Some((1, 2))));
    assert!(!search.is_open());
}

#[test]
fn a_search_gives_up() {
    let mut search = StrikeSearch::new();
    for _ in 0..MAX_ATTEMPTS {
        assert!(search.is_open());
        search.offer(0, 1, false);
    }
    assert!(!search.is_open());
    assert_eq!(search.chosen, None);
}

#[test]
fn the_two_ends_are_drawn_apart() {
    assert_eq!(draw_ends(|far_end| if far_end { 8 } else { 3 }), (3, 8));
}

#[test]
fn a_search_goes_through_the_draws_in_turn() {
    let draws = [(3, 3), (1, 2), (4, 9), (0, 8)];
    let far = |a: usize, b: usize| a + 2 < b;
    assert_eq!(search_strike(|i| draws[i as usize], far), Some((4, 9)));
    assert_eq!(search_strike(|i| (i as usize, 21), |a, _| a == 19), Some((19, 21)));
    assert_eq!(search_strike(|i| (i as usize, 21), |a, _| a == 20), None);
    assert_eq!(search_strike(|_| (5, 5), |_, _| true), None);
}

#[test]
fn a_strike_joins_two_different_particles() {
    for _ in 0..200 {
        if let Some((a, b)) = pick_strike(10, |a, b| a.abs_diff(b) > 2) {
            assert!(a < 10 && b < 10 && a.abs_diff(b) > 2);
        }
    }
    assert_eq!(pick_strike(1, |_, _| true), None);
    assert_eq!(pick_strike(10, |_, _| false), None);
    let hits: HashSet<(usize, usize)> =
        (0..200).filter_map(|_| pick_strike(10, |_, _| true)).collect();
    assert!(hits.len() > 1);
    assert!(hits.iter().any(|(a, b)| *a != 9 && *b != 9));
}

#[test]
fn bolts_branch_two_or_three_times() {
    assert_eq!(branches_for(0), 2);
    assert_eq!(branches_for(1), 3);
    let seen: HashSet<usize> = (0..200).map(|_| branch_count()).collect();
    assert_eq!(seen, HashSet::from([2, 3]));
}

#[test]
fn branches_leave_between_the_ends() {
    assert_eq!(branch_start(0), 1);
    assert_eq!(branch_start(1), 1);
    assert_eq!(branch_start(7), 7);
    assert_eq!(branch_start(BOLT_SEGMENTS - 1), 11);
    assert_eq!(branch_start(BOLT_SEGMENTS), 11);
    assert_eq!(branch_start(usize::MAX), 11);
}

#[test]
fn keys_move_the_window_or_select_a_slot() {
    assert_eq!(key_command(Key::B), Some(WindowCommand::AlwaysOnBottom));
    assert_eq!(key_command(Key::F), Some(WindowCommand::Normal));
    assert_eq!(key_command(Key::Num1), None);
    assert_eq!(key_slot(Key::Num0), Some(9));
    assert_eq!(key_slot(Key::Equals), Some(11));
    assert_eq!(key_slot(Key::Tab), None);
    assert_eq!(key_slot(Key::B), None);
    assert_eq!(key_slot(Key::Other), None);
}

#[test]
fn a_drag_takes_a_press_that_moves() {
    let both = PointerRequest { start_drag: true, focus: true };
    let focus = PointerRequest { start_drag: false, focus: true };
    let none = PointerRequest { start_drag: false, focus: false };
    assert_eq!(pointer_request(false, true, true), both);
    assert_eq!(pointer_request(true, true, true), focus);
    assert_eq!(pointer_request(false, true, false), focus);
    assert_eq!(pointer_request(false, false, true), none);
}

#[test]
fn only_zero_unpins_the_window() {
    assert!(pinned_by(None));
    assert!(pinned_by(Some("1".to_string())));
    assert!(pinned_by(Some("".to_string())));
    assert!(pinned_by(Some("00".to_string())));
    assert!(!pinned_by(Some("0".to_string())));
}

#[test]
fn depth_keys_order_like_the_numbers() {
    let numbers = [
        f32::NEG_INFINITY, -1e30, -2.5, -1.0, -1e-30, -0.0, 0.0, 1e-30, 0.5, 1.0, 2.5, 1e30,
        f32::INFINITY,
    ];
    for a in numbers {
        for b in numbers {
            let (ka, kb) = (depth_key(a.to_bits()), depth_key(b.to_bits()));
            assert_eq!(ka < kb, a < b, "{a} {b}");
            assert_eq!(ka == kb, a == b, "{a} {b}");
        }
    }
}

#[test]
fn items_are_drawn_from_the_back_to_the_front() {
    assert_eq!(draw_order(&vec![3, -1, 2, -1, 7]), vec![1, 3, 2, 0, 4]);
    assert_eq!(draw_order(&Vec::new()), Vec::<usize>::new());
    let keys: Vec<i32> = (0..4356).map(|i| ((i * 7919) % 501) - 250).collect();
    let mut expected: Vec<usize> = (0..keys.len()).collect();
    expected.sort_by_key(|i| keys[*i]);
    assert_eq!(draw_order(&keys), expected);
}
