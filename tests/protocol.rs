use trap_the_mouse::command::{frame_end, handle_line, parse_command, Command, ParseError, Reply};
use trap_the_mouse::registry::Server;
use trap_the_mouse::room::{Difficulty, GameState, RoomType, Turn};

fn ids(server: &Server) -> Vec<u32> {
    server.rooms.iter().map(|r| r.room_id).collect()
}

#[test]
fn created_rooms_get_sequential_ids() {
    let mut server = Server::new();
    for n in 1..=25u32 {
        assert_eq!(server.create_room(format!("room{}", n)), Some(n));
    }
    assert_eq!(ids(&server), (1..=25).collect::<Vec<u32>>());
    assert_eq!(server.rooms[3].room_name, "room4");
    assert_eq!(server.rooms[3].room_type, RoomType::MultiPlayer);
}

#[test]
fn ids_are_not_reused_after_deletion() {
    let mut server = Server::new();
    server.create_room("a".to_string());
    server.create_room("b".to_string());
    assert!(server.delete_room(2));
    assert!(!server.delete_room(2));
    assert_eq!(server.create_room("c".to_string()), Some(3));
    assert_eq!(ids(&server), vec![1, 3]);
}

#[test]
fn exhausted_ids_add_nothing() {
    let mut server = Server::new();
    server.next_id = u32::MAX;
    assert_eq!(server.create_room("late".to_string()), None);
    assert!(server.rooms.is_empty());
}

#[test]
fn single_player_rooms_are_marked() {
    let mut server = Server::new();
    assert_eq!(handle_line(&mut server, "create_single_room bob"), Ok(Reply::Nothing));
    assert_eq!(server.rooms[0].room_name, "!bob");
    assert_eq!(server.rooms[0].room_type, RoomType::SinglePlayer);
    assert_eq!(handle_line(&mut server, "set_difficulty medium !bob"), Ok(Reply::Nothing));
    assert_eq!(server.rooms[0].game_difficulty, Some(Difficulty::Medium));
    handle_line(&mut server, "set_difficulty silly !bob").unwrap();
    assert_eq!(server.rooms[0].game_difficulty, None);
    handle_line(&mut server, "delete_room_by_name !bob").unwrap();
    assert!(server.rooms.is_empty());
}

#[test]
fn both_exits_remove_the_room() {
    let mut server = Server::new();
    handle_line(&mut server, "create_room one").unwrap();
    handle_line(&mut server, "create_room two").unwrap();
    handle_line(&mut server, "after_exit_room 1 mouse").unwrap();
    assert_eq!(ids(&server), vec![1, 2]);
    assert_eq!(server.rooms[0].game_state, GameState::GameOver);
    handle_line(&mut server, "after_exit_room 1 trapper").unwrap();
    assert_eq!(ids(&server), vec![2]);
    assert!(server.after_exit_room(2, Turn::TrapperPlayer));
    assert!(server.after_exit_room(2, Turn::MousePlayer));
    assert!(server.rooms.is_empty());
}

#[test]
fn gameplay_commands_reach_the_named_room() {
    let mut server = Server::new();
    handle_line(&mut server, "create_room one").unwrap();
    handle_line(&mut server, "create_room two").unwrap();
    handle_line(&mut server, "join_room 2 mouse ann").unwrap();
    handle_line(&mut server, "join_room 2 trapper bob").unwrap();
    assert_eq!(server.rooms[1].game_state, GameState::InGame);
    assert!(server.rooms[0].mouse_player.is_none());
    handle_line(&mut server, "place_trap 2 1 1").unwrap();
    assert_eq!(server.rooms[1].walls.last(), Some(&(1, 1)));
    assert_eq!(server.rooms[1].turn, Turn::MousePlayer);
    handle_line(&mut server, "move_mouse 2 5 6").unwrap();
    assert_eq!(server.rooms[1].mouse_position, (5, 6));
    assert_eq!(server.rooms[1].turn, Turn::TrapperPlayer);
    handle_line(&mut server, "game_over 2 trapper").unwrap();
    assert_eq!(server.rooms[1].winner, Some(Turn::TrapperPlayer));
    assert_eq!(server.rooms[1].game_state, GameState::GameOver);
    assert_eq!(server.rooms[0].game_state, GameState::Waiting);
    handle_line(&mut server, "exit_room 2 ann").unwrap();
    assert!(server.rooms[1].mouse_player.is_none());
    handle_line(&mut server, "move_mouse 9 1 1").unwrap();
    assert_eq!(ids(&server), vec![1, 2]);
}

#[test]
fn ai_move_command_moves_the_mouse() {
    let mut server = Server::new();
    handle_line(&mut server, "create_single_room solo").unwrap();
    server.rooms[0].walls = vec![(5, 6), (5, 4), (6, 6), (4, 5), (4, 6)];
    handle_line(&mut server, "set_difficulty easy !solo").unwrap();
    assert_eq!(handle_line(&mut server, "AI_Move 1"), Ok(Reply::Nothing));
    assert_eq!(server.rooms[0].mouse_position, (6, 5));
    assert_eq!(server.rooms[0].turn, Turn::TrapperPlayer);
}

#[test]
fn hard_rooms_have_no_opponent() {
    let mut server = Server::new();
    handle_line(&mut server, "create_single_room solo").unwrap();
    handle_line(&mut server, "set_difficulty hard !solo").unwrap();
    assert_eq!(handle_line(&mut server, "AI_Move 1"), Ok(Reply::Unsupported));
    assert_eq!(server.rooms[0].mouse_position, (5, 5));
    assert_eq!(handle_line(&mut server, "AI_Move 2"), Ok(Reply::Nothing));
}

#[test]
fn replies_by_command() {
    let mut server = Server::new();
    assert_eq!(handle_line(&mut server, "get_update"), Ok(Reply::Snapshot));
    assert_eq!(handle_line(&mut server, "hello there"), Ok(Reply::Echo));
    assert_eq!(handle_line(&mut server, "login ann"), Ok(Reply::Nothing));
    assert!(server.rooms.is_empty());
}

#[test]
fn malformed_lines_are_errors() {
    let mut server = Server::new();
    assert_eq!(handle_line(&mut server, "   "), Err(ParseError::Empty));
    assert_eq!(handle_line(&mut server, "move_mouse 1"), Err(ParseError::MissingArgument));
    assert_eq!(handle_line(&mut server, "create_room"), Err(ParseError::MissingArgument));
    assert_eq!(handle_line(&mut server, "move_mouse one 2 3"), Err(ParseError::BadNumber));
    assert_eq!(handle_line(&mut server, "move_mouse 1 2 -3"), Err(ParseError::BadNumber));
    assert_eq!(handle_line(&mut server, "AI_Move 4294967296"), Err(ParseError::BadNumber));
    assert_eq!(handle_line(&mut server, "join_room 1 cat ann"), Err(ParseError::BadRole));
    assert_eq!(handle_line(&mut server, "after_exit_room 1 cat"), Err(ParseError::BadRole));
    assert_eq!(handle_line(&mut server, "game_over 1 pig"), Err(ParseError::BadWinner));
    assert!(server.rooms.is_empty());
}

#[test]
fn parsed_commands_carry_their_arguments() {
    assert!(matches!(parse_command("move_mouse 3 4 5\n"), Ok(Command::MoveMouse(3, 4, 5))));
    assert!(matches!(parse_command("place_trap 4294967295 0 10"), Ok(Command::PlaceTrap(4294967295, 0, 10))));
    assert!(matches!(parse_command("game_over 7 none"), Ok(Command::GameOver(7, None))));
    assert!(matches!(parse_command("game_over 7 mouse"), Ok(Command::GameOver(7, Some(Turn::MousePlayer)))));
    match parse_command("\tjoin_room  12 trapper  Zoë extra") {
        Ok(Command::JoinRoom(12, Turn::TrapperPlayer, name)) => assert_eq!(name, "Zoë"),
        _ => panic!("join_room did not parse"),
    }
    match parse_command("set_difficulty hard !me") {
        Ok(Command::SetDifficulty(Some(Difficulty::Hard), name)) => assert_eq!(name, "!me"),
        _ => panic!("set_difficulty did not parse"),
    }
    assert!(matches!(parse_command("delete_room 007"), Ok(Command::DeleteRoom(7))));
    assert!(matches!(parse_command("create_rooms x"), Ok(Command::Unknown)));
}

#[test]
fn frames_end_at_the_first_newline() {
    assert_eq!(frame_end(&b"get_update\nlogin x\n".to_vec()), Some(10));
    assert_eq!(frame_end(&b"partial".to_vec()), None);
    assert_eq!(frame_end(&Vec::new()), None);
}
