use trap_the_mouse::board::{danger_hex, is_on_edge, is_surrounded, posib_moves};
use trap_the_mouse::room::{
    layout_from_draws, AiOutcome, Difficulty, GameState, Room, RoomType, Turn,
};

fn room_with(mouse: (u32, u32), walls: Vec<(u32, u32)>, level: Option<Difficulty>) -> Room {
    let mut room = Room::new(1, "test".to_string());
    room.mouse_position = mouse;
    room.walls = walls;
    room.game_difficulty = level;
    room
}

#[test]
fn fresh_room_has_six_distinct_walls_off_centre() {
    for id in 0..50u32 {
        let room = Room::new(id, format!("r{}", id));
        assert_eq!(room.walls.len(), 6);
        for (i, w) in room.walls.iter().enumerate() {
            assert_ne!(*w, (5, 5));
            assert!(w.0 <= 10 && w.1 <= 10);
            for v in &room.walls[i + 1..] {
                assert_ne!(w, v);
            }
        }
        assert_eq!(room.room_id, id);
        assert_eq!(room.mouse_position, (5, 5));
        assert_eq!(room.turn, Turn::TrapperPlayer);
        assert_eq!(room.game_state, GameState::Waiting);
        assert_eq!(room.room_type, RoomType::MultiPlayer);
        assert!(room.winner.is_none() && room.mouse_player.is_none());
    }
}

#[test]
fn move_and_trap_flip_the_turn() {
    let mut room = room_with((5, 5), vec![], None);
    room.turn = Turn::MousePlayer;
    room.move_mouse(5, 6);
    assert_eq!(room.mouse_position, (5, 6));
    assert_eq!(room.turn, Turn::TrapperPlayer);
    room.move_mouse(5, 7);
    assert_eq!(room.turn, Turn::TrapperPlayer);
    room.place_trap(3, 3);
    assert_eq!(room.walls, vec![(3, 3)]);
    assert_eq!(room.turn, Turn::MousePlayer);
    room.place_trap(4, 4);
    assert_eq!(room.turn, Turn::MousePlayer);
}

#[test]
fn border_cells_escape() {
    for k in 0..=10u32 {
        for c in [(0, k), (10, k), (k, 0), (k, 10)] {
            assert!(is_on_edge(c));
            let room = room_with(c, vec![], None);
            assert_eq!(room.outcome(), Some(Turn::MousePlayer));
        }
    }
    assert!(!is_on_edge((5, 5)));
    assert_eq!(room_with((5, 5), vec![], None).outcome(), None);
}

#[test]
fn walled_in_mouse_is_captured() {
    let even = vec![(4, 5), (4, 3), (5, 3), (5, 4), (3, 3), (3, 4)];
    assert!(is_surrounded((4, 4), &even));
    assert_eq!(room_with((4, 4), even.clone(), None).outcome(), Some(Turn::TrapperPlayer));
    let odd = vec![(5, 6), (5, 4), (6, 5), (6, 6), (4, 5), (4, 6)];
    assert!(is_surrounded((5, 5), &odd));
    assert_eq!(room_with((5, 5), odd.clone(), None).outcome(), Some(Turn::TrapperPlayer));
    assert!(!is_surrounded((5, 5), &even));
    let mut five = odd.clone();
    five.pop();
    assert!(!is_surrounded((5, 5), &five));
}

#[test]
fn legal_moves_follow_column_parity() {
    assert_eq!(posib_moves(&vec![], 5, 5), vec![(5, 6), (5, 4), (6, 5), (6, 6), (4, 5), (4, 6)]);
    assert_eq!(
        posib_moves(&vec![], 4, 4),
        vec![(4, 5), (4, 3), (5, 3), (5, 4), (3, 3), (3, 4)]
    );
    assert_eq!(posib_moves(&vec![(5, 6), (4, 5)], 5, 5), vec![(5, 4), (6, 5), (6, 6), (4, 6)]);
    assert_eq!(posib_moves(&vec![], 0, 0), vec![(0, 1), (1, 0)]);
    assert_eq!(posib_moves(&vec![], 10, 10), vec![(10, 9), (9, 9), (9, 10)]);
}

#[test]
fn danger_means_a_wall_on_a_hex_neighbour() {
    assert!(danger_hex(&vec![(3, 4)], (4, 5)));
    assert!(danger_hex(&vec![(3, 6)], (4, 6)));
    assert!(!danger_hex(&vec![(3, 6)], (4, 5)));
    assert!(danger_hex(&vec![(6, 6)], (5, 5)));
    assert!(!danger_hex(&vec![(6, 4)], (5, 5)));
    assert!(danger_hex(&vec![(0, 1)], (0, 0)));
    assert!(danger_hex(&vec![(1, 0)], (0, 0)));
    assert!(!danger_hex(&vec![(1, 1)], (0, 0)));
    assert!(!danger_hex(&vec![], (5, 5)));
}

#[test]
fn layouts_follow_the_draws() {
    assert_eq!(
        layout_from_draws(&vec![0, 0, 0, 0, 0, 0]),
        vec![(0, 0), (0, 1), (0, 2), (0, 3), (0, 4), (0, 5)]
    );
    assert_eq!(
        layout_from_draws(&vec![119, 118, 117, 116, 115, 114]),
        vec![(10, 10), (10, 9), (10, 8), (10, 7), (10, 6), (10, 5)]
    );
    assert_eq!(
        layout_from_draws(&vec![60, 59, 0, 58, 57, 1]),
        vec![(5, 6), (5, 4), (0, 0), (5, 7), (5, 3), (0, 2)]
    );
}

#[test]
fn easy_ai_takes_the_only_move() {
    let walls = vec![(5, 6), (5, 4), (6, 6), (4, 5), (4, 6)];
    let mut room = room_with((5, 5), walls, Some(Difficulty::Easy));
    room.turn = Turn::MousePlayer;
    assert_eq!(room.ai_move(), AiOutcome::Moved(6, 5));
    assert_eq!(room.mouse_position, (6, 5));
    assert_eq!(room.turn, Turn::TrapperPlayer);
}

#[test]
fn easy_ai_without_moves_loses() {
    let walls = vec![(5, 6), (5, 4), (6, 5), (6, 6), (4, 5), (4, 6)];
    let mut room = room_with((5, 5), walls, Some(Difficulty::Easy));
    assert_eq!(room.ai_move(), AiOutcome::Cornered);
    assert_eq!(room.winner, Some(Turn::TrapperPlayer));
    assert_eq!(room.game_state, GameState::GameOver);
    assert_eq!(room.mouse_position, (5, 5));
}

#[test]
fn easy_ai_picks_a_legal_move() {
    for _ in 0..20 {
        let mut room = room_with((5, 5), vec![(5, 6)], Some(Difficulty::Easy));
        match room.ai_move() {
            AiOutcome::Moved(x, y) => {
                assert!(posib_moves(&vec![(5, 6)], 5, 5).contains(&(x, y)));
                assert_eq!(room.mouse_position, (x, y));
            }
            other => panic!("unexpected {:?}", other),
        }
    }
}

#[test]
fn medium_ai_prefers_safe_moves() {
    let walls = vec![(7, 5), (4, 4), (3, 6)];
    for _ in 0..20 {
        let mut room = room_with((5, 5), walls.clone(), Some(Difficulty::Medium));
        assert_eq!(room.posib_moves(5, 5).len(), 6);
        assert_eq!(room.ai_candidates(), vec![(5, 6)]);
        assert_eq!(room.ai_move(), AiOutcome::Moved(5, 6));
    }
}

#[test]
fn medium_ai_falls_back_to_any_move() {
    let walls = vec![(5, 6), (5, 4), (6, 6), (4, 5), (4, 6)];
    let mut room = room_with((5, 5), walls, Some(Difficulty::Medium));
    assert!(room.danger_hex((6, 5)));
    assert_eq!(room.ai_move(), AiOutcome::Moved(6, 5));
    let crowded = vec![(7, 5), (4, 4), (4, 7)];
    let everywhere = room_with((5, 5), crowded, Some(Difficulty::Medium));
    assert_eq!(everywhere.ai_candidates(), everywhere.posib_moves(5, 5));
    assert_eq!(everywhere.ai_candidates().len(), 6);
    let full = vec![(5, 6), (5, 4), (6, 5), (6, 6), (4, 5), (4, 6)];
    let mut stuck = room_with((5, 5), full, Some(Difficulty::Medium));
    assert_eq!(stuck.ai_move(), AiOutcome::Cornered);
    assert_eq!(stuck.winner, Some(Turn::TrapperPlayer));
}

#[test]
fn hard_ai_is_unimplemented_and_changes_nothing() {
    let mut room = room_with((5, 5), vec![], Some(Difficulty::Hard));
    room.turn = Turn::MousePlayer;
    assert_eq!(room.ai_move(), AiOutcome::Unimplemented);
    assert_eq!(room.mouse_position, (5, 5));
    assert_eq!(room.turn, Turn::MousePlayer);
    let mut unset = room_with((5, 5), vec![], None);
    assert_eq!(unset.ai_move(), AiOutcome::NoDifficulty);
    assert_eq!(unset.mouse_position, (5, 5));
}

#[test]
fn seats_fill_once_and_start_the_game() {
    let mut room = room_with((5, 5), vec![], None);
    assert!(room.join(Turn::MousePlayer, "ann".to_string()));
    assert!(!room.join(Turn::MousePlayer, "bob".to_string()));
    assert_eq!(room.mouse_player.as_deref(), Some("ann"));
    assert_eq!(room.game_state, GameState::Waiting);
    assert!(room.join(Turn::TrapperPlayer, "bob".to_string()));
    assert_eq!(room.game_state, GameState::InGame);
    assert!(room.leave(&"bob".to_string()));
    assert!(room.trapper_player.is_none());
    assert_eq!(room.game_state, GameState::Waiting);
    assert!(!room.leave(&"zed".to_string()));
}

#[test]
fn exits_are_recorded_separately() {
    let mut room = room_with((5, 5), vec![], None);
    assert!(!room.mark_exit(Turn::MousePlayer));
    assert!(room.mouse_player_exited && !room.trapper_player_exited);
    assert_eq!(room.game_state, GameState::GameOver);
    assert!(room.mark_exit(Turn::TrapperPlayer));
}
