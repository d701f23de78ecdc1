use piano_tiles::game::{Game, GameSettings, InputEvent};
use piano_tiles::game_object::{MusicNode, TouchBlock};
use piano_tiles::keyboard::KeyState;

const KEY_A: u32 = 97;
const KEY_B: u32 = 98;
const KEY_C: u32 = 99;

fn two_lanes() -> GameSettings {
    GameSettings {
        line_height: 800,
        margin_bottom: 60,
        drop_speed: 10,
        touch_block_height: 40,
        music_node_height: 160,
        line_count: 2,
        keybinds: vec![KEY_A, KEY_B],
    }
}

fn lane_notes(game: &Game, line: usize) -> Vec<MusicNode> {
    game.piano_lines[line].music_nodes.iter().copied().collect()
}

fn note_count(game: &Game) -> usize {
    game.piano_lines.iter().map(|line| line.music_nodes.len()).sum()
}

fn note(y: i64) -> MusicNode {
    MusicNode { y, height: 160 }
}

#[test]
fn build_makes_one_empty_lane_per_binding() {
    let game = two_lanes().build();
    assert_eq!(game.piano_lines.len(), 2);
    assert_eq!(game.settings.keybinds, vec![KEY_A, KEY_B]);
    assert_eq!(game.settings.line_count, 2);
    for line in game.piano_lines.iter() {
        assert!(line.music_nodes.is_empty());
        assert_eq!(line.line_height, 800);
        assert_eq!(line.drop_speed, 10);
        assert_eq!(line.music_node_height, 160);
        assert_eq!(line.touch_block, TouchBlock { y: 700, height: 40 });
    }
    assert!(game.keyboard_control.states.is_empty());
    assert_eq!(game.get_top_node(), None);
    assert_eq!(game.spawn_position(), Some(0));
}

#[test]
fn build_without_lanes_gives_a_game_that_cannot_step() {
    let mut none = two_lanes();
    none.line_count = 0;
    none.keybinds = Vec::new();
    let mut game = none.build();
    assert!(game.piano_lines.is_empty());
    assert!(!game.can_update(0));
    game.event(&InputEvent::Press { key: KEY_A });
    game.event(&InputEvent::Other);
    assert!(game.piano_lines.is_empty());
}

#[test]
fn the_first_step_spawns_one_note_at_the_top_of_the_picked_lane() {
    for line in 0..2 {
        for dt in [0u32, 1, 16, 100000] {
            let mut game = two_lanes().build();
            assert!(game.can_update(dt));
            game.update_with_line(dt, line);
            assert_eq!(lane_notes(&game, line), vec![note(0)]);
            assert!(lane_notes(&game, 1 - line).is_empty());
        }
    }
}

#[test]
fn the_first_random_step_spawns_exactly_one_note() {
    let mut seen = [false, false];
    for _ in 0..200 {
        let mut game = two_lanes().build();
        game.update(0);
        assert_eq!(note_count(&game), 1);
        for line in 0..2 {
            if !game.piano_lines[line].music_nodes.is_empty() {
                assert_eq!(lane_notes(&game, line), vec![note(0)]);
                seen[line] = true;
            }
        }
    }
    assert!(seen[0] && seen[1]);
}

#[test]
fn random_steps_spread_notes_over_every_lane() {
    let mut wide = two_lanes();
    wide.line_count = 5;
    wide.keybinds = vec![1, 2, 3, 4, 5];
    wide.line_height = 1000000;
    let mut game = wide.build();
    for _ in 0..400 {
        let before = note_count(&game);
        assert!(game.can_update(16));
        game.update(16);
        assert_eq!(note_count(&game), before + 1);
    }
    for line in game.piano_lines.iter() {
        assert!(!line.music_nodes.is_empty());
    }
}

#[test]
fn notes_stack_without_a_gap() {
    let mut game = two_lanes().build();
    game.update_with_line(0, 0);
    assert_eq!(game.get_top_node(), Some(note(0)));
    assert_eq!(game.spawn_position(), Some(-160));
    game.update_with_line(0, 1);
    assert_eq!(lane_notes(&game, 0), vec![note(0)]);
    assert_eq!(lane_notes(&game, 1), vec![note(-160)]);
    assert_eq!(game.get_top_node(), Some(note(-160)));
    assert_eq!(game.spawn_position(), None);
    game.update_with_line(0, 1);
    assert_eq!(note_count(&game), 2);
    game.update_with_line(15, 0);
    assert_eq!(lane_notes(&game, 0), vec![note(150)]);
    assert_eq!(lane_notes(&game, 1), vec![note(-10)]);
    game.update_with_line(1, 0);
    assert_eq!(lane_notes(&game, 0), vec![note(-160), note(160)]);
    assert_eq!(lane_notes(&game, 1), vec![note(0)]);
}

#[test]
fn the_highest_note_of_several_is_the_one_in_the_first_lane() {
    let mut short = two_lanes();
    short.music_node_height = 0;
    let mut game = short.build();
    game.piano_lines[0].push_new_node(5);
    game.piano_lines[1].push_new_node(5);
    game.piano_lines[1].music_nodes[0].height = 7;
    assert_eq!(game.get_top_node(), Some(MusicNode { y: 5, height: 0 }));
    assert_eq!(game.spawn_position(), Some(5));
    game.piano_lines[0].music_nodes[0].y = 6;
    assert_eq!(game.get_top_node(), Some(MusicNode { y: 5, height: 7 }));
    assert_eq!(game.spawn_position(), Some(-2));
}

#[test]
fn a_missed_note_leaves_on_the_step_in_which_it_reaches_the_floor() {
    let mut game = two_lanes().build();
    game.update_with_line(0, 0);
    game.update_with_line(63, 1);
    assert_eq!(lane_notes(&game, 0), vec![note(630)]);
    game.update_with_line(1, 1);
    assert!(lane_notes(&game, 0).is_empty());
    assert_eq!(lane_notes(&game, 1).last(), Some(&note(480)));
}

#[test]
fn a_missed_note_leaves_even_where_it_could_be_hit() {
    let mut game = two_lanes().build();
    game.piano_lines[0].push_new_node(700);
    game.piano_lines[0].push_new_node(-10);
    game.update_with_line(0, 1);
    assert_eq!(lane_notes(&game, 0), vec![note(-10)]);
    game.as_press_touch_block(0);
    assert_eq!(lane_notes(&game, 0), vec![note(-10)]);
}

#[test]
fn only_one_missed_note_leaves_a_lane_per_step() {
    let mut game = two_lanes().build();
    game.piano_lines[0].push_new_node(900);
    game.piano_lines[0].push_new_node(740);
    game.piano_lines[0].push_new_node(-5);
    game.update_with_line(0, 1);
    assert_eq!(lane_notes(&game, 0), vec![note(-5), note(740)]);
    game.update_with_line(0, 1);
    assert_eq!(lane_notes(&game, 0), vec![note(-5)]);
}

#[test]
fn a_step_is_refused_only_where_a_position_would_not_fit() {
    let mut game = two_lanes().build();
    game.piano_lines[1].push_new_node(i64::MAX - 20);
    assert!(game.can_update(2));
    assert!(!game.can_update(3));
    game.update_with_line(2, 0);
    assert!(lane_notes(&game, 1).is_empty());
}

#[test]
fn a_press_of_the_bound_key_hits_the_note_in_the_zone() {
    let mut game = two_lanes().build();
    game.update_with_line(0, 1);
    game.piano_lines[1].slide_down(70);
    assert_eq!(lane_notes(&game, 1), vec![note(700)]);
    game.event(&InputEvent::Press { key: KEY_A });
    assert_eq!(lane_notes(&game, 1), vec![note(700)]);
    assert!(lane_notes(&game, 0).is_empty());
    game.event(&InputEvent::Press { key: KEY_B });
    assert!(lane_notes(&game, 1).is_empty());
    assert!(lane_notes(&game, 0).is_empty());
    assert_eq!(game.keyboard_control.key_state(KEY_A), KeyState::JustPressed);
    assert_eq!(game.keyboard_control.key_state(KEY_B), KeyState::JustPressed);
}

#[test]
fn two_lanes_end_to_end() {
    let keys = [KEY_A, KEY_B];
    let mut game = two_lanes().build();
    assert_eq!(game.piano_lines[0].touch_block, TouchBlock { y: 700, height: 40 });
    game.event(&InputEvent::Update { dt: 0 });
    assert_eq!(note_count(&game), 1);
    let line = if game.piano_lines[0].music_nodes.is_empty() { 1 } else { 0 };
    let other = 1 - line;
    assert_eq!(lane_notes(&game, line), vec![note(0)]);
    assert!(lane_notes(&game, other).is_empty());

    assert!(game.piano_lines[line].can_slide_down(70));
    game.piano_lines[line].slide_down(70);
    assert_eq!(lane_notes(&game, line), vec![note(700)]);

    game.event(&InputEvent::Press { key: keys[other] });
    assert_eq!(lane_notes(&game, line), vec![note(700)]);
    assert!(lane_notes(&game, other).is_empty());

    game.event(&InputEvent::Press { key: keys[line] });
    assert!(lane_notes(&game, line).is_empty());
    assert!(lane_notes(&game, other).is_empty());
}

#[test]
fn a_note_that_fell_into_the_zone_by_frames_is_hit() {
    let keys = [KEY_A, KEY_B];
    let mut game = two_lanes().build();
    game.event(&InputEvent::Update { dt: 0 });
    let line = if game.piano_lines[0].music_nodes.is_empty() { 1 } else { 0 };
    for _ in 0..60 {
        assert!(game.can_update(1));
        game.event(&InputEvent::Update { dt: 1 });
    }
    assert_eq!(game.piano_lines[line].get_bottom_node(), Some(&note(600)));
    let before = note_count(&game);
    assert_eq!(before, 5);

    game.event(&InputEvent::Press { key: keys[line] });
    assert_eq!(note_count(&game), before - 1);
    assert!(game.piano_lines[line].get_bottom_node() != Some(&note(600)));

    for _ in 0..3 {
        game.event(&InputEvent::Update { dt: 1 });
    }
    assert_eq!(note_count(&game), 4);
    assert_eq!(game.get_top_node(), Some(note(-10)));
    game.event(&InputEvent::Update { dt: 1 });
    assert_eq!(note_count(&game), 5);
    assert_eq!(game.get_top_node(), Some(note(-160)));
}

#[test]
fn a_note_that_nobody_hits_leaves_at_the_floor() {
    let mut game = two_lanes().build();
    game.event(&InputEvent::Update { dt: 0 });
    let line = if game.piano_lines[0].music_nodes.is_empty() { 1 } else { 0 };
    for _ in 0..63 {
        game.event(&InputEvent::Update { dt: 1 });
    }
    assert_eq!(game.piano_lines[line].get_bottom_node(), Some(&note(630)));
    game.event(&InputEvent::Update { dt: 1 });
    assert!(game.piano_lines[line].get_bottom_node() != Some(&note(640)));
    for piano_line in game.piano_lines.iter() {
        for music_node in piano_line.music_nodes.iter() {
            assert!(music_node.y + 160 < 800);
        }
    }
}

#[test]
fn a_held_key_hits_once() {
    let mut game = two_lanes().build();
    game.piano_lines[0].push_new_node(700);
    game.event(&InputEvent::Press { key: KEY_A });
    assert!(lane_notes(&game, 0).is_empty());
    game.piano_lines[0].push_new_node(700);
    game.event(&InputEvent::Press { key: KEY_A });
    assert_eq!(game.keyboard_control.key_state(KEY_A), KeyState::Holding);
    assert_eq!(lane_notes(&game, 0), vec![note(700)]);
    game.event(&InputEvent::Release { key: KEY_A });
    assert_eq!(lane_notes(&game, 0), vec![note(700)]);
    assert_eq!(game.keyboard_control.key_state(KEY_A), KeyState::Neutral);
    game.event(&InputEvent::Press { key: KEY_A });
    assert!(lane_notes(&game, 0).is_empty());
}

#[test]
fn keys_without_a_lane_and_other_notifications_are_ignored() {
    let mut game = two_lanes().build();
    game.piano_lines[0].push_new_node(700);
    game.piano_lines[1].push_new_node(700);
    game.event(&InputEvent::Press { key: KEY_C });
    game.event(&InputEvent::Release { key: KEY_C });
    game.event(&InputEvent::Other);
    assert_eq!(lane_notes(&game, 0), vec![note(700)]);
    assert_eq!(lane_notes(&game, 1), vec![note(700)]);
    assert_eq!(game.bound_line(KEY_C), None);
    assert_eq!(game.bound_line(KEY_A), Some(0));
    assert_eq!(game.bound_line(KEY_B), Some(1));
}

#[test]
fn a_key_bound_twice_acts_on_its_first_lane() {
    let mut twice = two_lanes();
    twice.keybinds = vec![KEY_B, KEY_B];
    let mut game = twice.build();
    game.piano_lines[0].push_new_node(700);
    game.piano_lines[1].push_new_node(700);
    assert_eq!(game.bound_line(KEY_B), Some(0));
    game.event(&InputEvent::Press { key: KEY_B });
    assert!(lane_notes(&game, 0).is_empty());
    assert_eq!(lane_notes(&game, 1), vec![note(700)]);
}

#[test]
fn pending_edges_are_acted_on_in_order_by_the_next_notification() {
    let mut game = two_lanes().build();
    game.piano_lines[0].push_new_node(700);
    game.piano_lines[0].push_new_node(540);
    game.piano_lines[1].push_new_node(700);
    game.keyboard_control.key_press_event(KEY_A);
    game.keyboard_control.key_release_event(KEY_A);
    game.keyboard_control.key_press_event(KEY_A);
    game.keyboard_control.key_press_event(KEY_B);
    game.event(&InputEvent::Other);
    assert_eq!(lane_notes(&game, 0), vec![note(540)]);
    assert!(lane_notes(&game, 1).is_empty());
    assert!(game.keyboard_control.poll_event().is_empty());
}

#[test]
fn a_hit_attempt_in_a_lane_that_does_not_exist_does_nothing() {
    let mut game = two_lanes().build();
    game.piano_lines[0].push_new_node(700);
    game.as_press_touch_block(2);
    game.as_press_touch_block(usize::MAX);
    assert_eq!(lane_notes(&game, 0), vec![note(700)]);
    game.as_press_touch_block(1);
    assert_eq!(lane_notes(&game, 0), vec![note(700)]);
    game.as_press_touch_block(0);
    assert!(lane_notes(&game, 0).is_empty());
}
