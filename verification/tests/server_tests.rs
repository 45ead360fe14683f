//! Tests of the server state machine: lobby lifecycle, game start
//! criteria, move handling and disconnect cleanup.

use game_protocol::enums::{MessageType, StatusCode};
use game_protocol::game_module::GameModule;
use game_protocol::server::{GameProtocolServer, Outgoing, ResponseBody};
use game_protocol::shared_data::{ConnectRequest, NoAuth};
use game_protocol::tic_tac_toe::{CellElement, TicTacToe, TicTacToeMove, TicTacToeState};

type Server = GameProtocolServer<TicTacToe>;
type Reply = Outgoing<TicTacToeState>;

fn new_server() -> Server {
    let mut server = Server::new();
    server.register_game(TicTacToe::new());
    server
}

fn connect(server: &mut Server) -> String {
    let (id, reply) = server.connect_client(&ConnectRequest::new(NoAuth {}), 0);
    assert_eq!(reply.status, StatusCode::Success);
    assert_eq!(reply.message_type, MessageType::ConnectResponse);
    id.unwrap()
}

fn created_lobby_id(reply: &Reply) -> String {
    match &reply.body {
        ResponseBody::LobbyBody(lobby) => lobby.id.clone(),
        _ => panic!("expected a lobby snapshot"),
    }
}

#[test]
fn connect_assigns_distinct_ids() {
    let mut server = new_server();
    let a = connect(&mut server);
    let b = connect(&mut server);
    assert_ne!(a, b);
}

#[test]
fn create_lobby_for_unsupported_game_creates_nothing() {
    let mut server = new_server();
    let a = connect(&mut server);
    let reply = server.handle_create_lobby(&a, &String::from("Chess v1.0"));
    assert_eq!(reply.status, StatusCode::UnsupportedGame);
    assert_eq!(reply.message_type, MessageType::ProtocolError);
    let list = server.handle_lobby_list(&a);
    match list.body {
        ResponseBody::LobbyListBody(lobbies) => assert!(lobbies.is_empty()),
        _ => panic!("expected the lobby list"),
    }
}

#[test]
fn create_lobby_owner_is_sole_player() {
    let mut server = new_server();
    let a = connect(&mut server);
    let reply = server.handle_create_lobby(&a, &String::from("Tic-tac-toe v1.0"));
    assert_eq!(reply.status, StatusCode::Success);
    match reply.body {
        ResponseBody::LobbyBody(lobby) => {
            assert_eq!(lobby.owner, a);
            assert_eq!(lobby.player_ids, vec![a.clone()]);
            assert!(!lobby.game_started);
            assert_eq!(lobby.game_metadata.max_players, 2);
        },
        _ => panic!("expected a lobby snapshot"),
    }
}

#[test]
fn create_lobby_twice_is_already_in_a_lobby() {
    let mut server = new_server();
    let a = connect(&mut server);
    server.handle_create_lobby(&a, &String::from("Tic-tac-toe v1.0"));
    let reply = server.handle_create_lobby(&a, &String::from("Tic-tac-toe v1.0"));
    assert_eq!(reply.status, StatusCode::AlreadyInALobby);
}

#[test]
fn join_broadcasts_to_every_player() {
    let mut server = new_server();
    let a = connect(&mut server);
    let b = connect(&mut server);
    let created = server.handle_create_lobby(&a, &String::from("Tic-tac-toe v1.0"));
    let lobby_id = created_lobby_id(&created);
    let replies = server.handle_join_lobby(&b, &lobby_id);
    assert_eq!(replies.len(), 2);
    assert_eq!(replies[0].to, a);
    assert_eq!(replies[1].to, b);
    for reply in &replies {
        assert_eq!(reply.status, StatusCode::Success);
        assert_eq!(reply.message_type, MessageType::LobbyInfoResponse);
        match &reply.body {
            ResponseBody::LobbyBody(lobby) => {
                assert_eq!(lobby.player_ids, vec![a.clone(), b.clone()]);
                assert_eq!(lobby.owner, a);
            },
            _ => panic!("expected a lobby snapshot"),
        }
    }
}

#[test]
fn join_missing_lobby_is_lobby_not_found() {
    let mut server = new_server();
    let a = connect(&mut server);
    let replies = server.handle_join_lobby(&a, &String::from("no-such-lobby"));
    assert_eq!(replies.len(), 1);
    assert_eq!(replies[0].status, StatusCode::LobbyNotFound);
}

#[test]
fn join_full_unstarted_lobby_is_lobby_full_and_changes_nothing() {
    let mut server = new_server();
    let a = connect(&mut server);
    let b = connect(&mut server);
    let c = connect(&mut server);
    let created = server.handle_create_lobby(&a, &String::from("Tic-tac-toe v1.0"));
    let lobby_id = created_lobby_id(&created);
    server.handle_join_lobby(&b, &lobby_id);
    let replies = server.handle_join_lobby(&c, &lobby_id);
    assert_eq!(replies.len(), 1);
    assert_eq!(replies[0].to, c);
    assert_eq!(replies[0].status, StatusCode::LobbyFull);
    assert_eq!(replies[0].message_type, MessageType::ProtocolError);
    let info = server.handle_lobby_info(&a);
    match info.body {
        ResponseBody::LobbyBody(lobby) => assert_eq!(lobby.player_ids, vec![a, b]),
        _ => panic!("expected a lobby snapshot"),
    }
}

#[test]
fn join_full_started_lobby_is_game_started() {
    let mut server = new_server();
    let a = connect(&mut server);
    let b = connect(&mut server);
    let c = connect(&mut server);
    let created = server.handle_create_lobby(&a, &String::from("Tic-tac-toe v1.0"));
    let lobby_id = created_lobby_id(&created);
    server.handle_join_lobby(&b, &lobby_id);
    server.handle_start_game(&a, &lobby_id);
    let replies = server.handle_join_lobby(&c, &lobby_id);
    assert_eq!(replies.len(), 1);
    assert_eq!(replies[0].status, StatusCode::GameStarted);
    let info = server.handle_lobby_info(&a);
    match info.body {
        ResponseBody::LobbyBody(lobby) => {
            assert_eq!(lobby.player_ids.len(), 2);
            assert!(lobby.game_started);
        },
        _ => panic!("expected a lobby snapshot"),
    }
}

#[test]
fn leave_transfers_ownership_to_first_remaining_player() {
    let mut server = new_server();
    let a = connect(&mut server);
    let b = connect(&mut server);
    let created = server.handle_create_lobby(&a, &String::from("Tic-tac-toe v1.0"));
    let lobby_id = created_lobby_id(&created);
    server.handle_join_lobby(&b, &lobby_id);
    let replies = server.handle_leave_lobby(&a);
    // one snapshot to the remaining player, then the leaver's acknowledgement
    assert_eq!(replies.len(), 2);
    assert_eq!(replies[0].to, b);
    match &replies[0].body {
        ResponseBody::LobbyBody(lobby) => {
            assert_eq!(lobby.owner, b);
            assert_eq!(lobby.player_ids, vec![b.clone()]);
        },
        _ => panic!("expected a lobby snapshot"),
    }
    assert_eq!(replies[1].to, a);
    assert_eq!(replies[1].status, StatusCode::Success);
    assert_eq!(replies[1].message_type, MessageType::LeaveLobbyResponse);
}

#[test]
fn leave_when_alone_destroys_the_lobby() {
    let mut server = new_server();
    let a = connect(&mut server);
    server.handle_create_lobby(&a, &String::from("Tic-tac-toe v1.0"));
    let replies = server.handle_leave_lobby(&a);
    assert_eq!(replies.len(), 1);
    assert_eq!(replies[0].message_type, MessageType::LeaveLobbyResponse);
    let list = server.handle_lobby_list(&a);
    match list.body {
        ResponseBody::LobbyListBody(lobbies) => assert!(lobbies.is_empty()),
        _ => panic!("expected the lobby list"),
    }
}

#[test]
fn leave_without_lobby_is_an_acknowledged_no_op() {
    let mut server = new_server();
    let a = connect(&mut server);
    let replies = server.handle_leave_lobby(&a);
    assert_eq!(replies.len(), 1);
    assert_eq!(replies[0].status, StatusCode::NotInLobby);
    assert_eq!(replies[0].message_type, MessageType::LeaveLobbyResponse);
}

#[test]
fn start_game_requires_the_owner() {
    let mut server = new_server();
    let a = connect(&mut server);
    let b = connect(&mut server);
    let created = server.handle_create_lobby(&a, &String::from("Tic-tac-toe v1.0"));
    let lobby_id = created_lobby_id(&created);
    server.handle_join_lobby(&b, &lobby_id);
    let replies = server.handle_start_game(&b, &lobby_id);
    assert_eq!(replies.len(), 1);
    assert_eq!(replies[0].status, StatusCode::GameStartCriteriaNotMet);
    let info = server.handle_lobby_info(&a);
    match info.body {
        ResponseBody::LobbyBody(lobby) => assert!(!lobby.game_started),
        _ => panic!("expected a lobby snapshot"),
    }
}

#[test]
fn start_game_requires_enough_players() {
    let mut server = new_server();
    let a = connect(&mut server);
    let created = server.handle_create_lobby(&a, &String::from("Tic-tac-toe v1.0"));
    let lobby_id = created_lobby_id(&created);
    let replies = server.handle_start_game(&a, &lobby_id);
    assert_eq!(replies.len(), 1);
    assert_eq!(replies[0].status, StatusCode::GameStartCriteriaNotMet);
}

#[test]
fn start_game_requires_the_matching_lobby_id() {
    let mut server = new_server();
    let a = connect(&mut server);
    let b = connect(&mut server);
    let created = server.handle_create_lobby(&a, &String::from("Tic-tac-toe v1.0"));
    let lobby_id = created_lobby_id(&created);
    server.handle_join_lobby(&b, &lobby_id);
    let replies = server.handle_start_game(&a, &String::from("some-other-lobby"));
    assert_eq!(replies.len(), 1);
    assert_eq!(replies[0].status, StatusCode::GameStartCriteriaNotMet);
}

#[test]
fn start_game_pushes_the_opening_state_to_every_player() {
    let mut server = new_server();
    let a = connect(&mut server);
    let b = connect(&mut server);
    let created = server.handle_create_lobby(&a, &String::from("Tic-tac-toe v1.0"));
    let lobby_id = created_lobby_id(&created);
    server.handle_join_lobby(&b, &lobby_id);
    let replies = server.handle_start_game(&a, &lobby_id);
    assert_eq!(replies.len(), 2);
    assert_eq!(replies[0].to, a);
    assert_eq!(replies[1].to, b);
    for reply in &replies {
        assert_eq!(reply.status, StatusCode::Success);
        assert_eq!(reply.message_type, MessageType::GameStateResponse);
        match &reply.body {
            ResponseBody::GameStateBody(state) => {
                assert_eq!(state.this_turn, CellElement::X);
                for row in &state.board {
                    for cell in row {
                        assert_eq!(*cell, CellElement::Empty);
                    }
                }
            },
            _ => panic!("expected a game state"),
        }
    }
}

#[test]
fn valid_move_is_broadcast_and_applied() {
    let mut server = new_server();
    let a = connect(&mut server);
    let b = connect(&mut server);
    let created = server.handle_create_lobby(&a, &String::from("Tic-tac-toe v1.0"));
    let lobby_id = created_lobby_id(&created);
    server.handle_join_lobby(&b, &lobby_id);
    server.handle_start_game(&a, &lobby_id);
    let mv = TicTacToeMove { board_index: (1, 1), symbol: CellElement::X };
    let replies = server.handle_move(&a, &mv);
    assert_eq!(replies.len(), 2);
    match &replies[0].body {
        ResponseBody::GameStateBody(state) => {
            assert_eq!(state.board[1][1], CellElement::X);
            assert_eq!(state.this_turn, CellElement::O);
        },
        _ => panic!("expected a game state"),
    }
}

#[test]
fn invalid_move_changes_nothing_and_answers_the_requester_only() {
    let mut server = new_server();
    let a = connect(&mut server);
    let b = connect(&mut server);
    let created = server.handle_create_lobby(&a, &String::from("Tic-tac-toe v1.0"));
    let lobby_id = created_lobby_id(&created);
    server.handle_join_lobby(&b, &lobby_id);
    server.handle_start_game(&a, &lobby_id);
    server.handle_move(&a, &TicTacToeMove { board_index: (1, 1), symbol: CellElement::X });
    // the cell is already taken
    let replies = server.handle_move(&b, &TicTacToeMove { board_index: (1, 1), symbol: CellElement::O });
    assert_eq!(replies.len(), 1);
    assert_eq!(replies[0].to, b);
    assert_eq!(replies[0].status, StatusCode::InvalidMove);
    assert_eq!(replies[0].message_type, MessageType::ProtocolError);
    // the board is unchanged: the same occupied-cell move fails again,
    // and a fresh valid move still sees O to play
    let replies = server.handle_move(&b, &TicTacToeMove { board_index: (0, 0), symbol: CellElement::O });
    assert_eq!(replies.len(), 2);
    match &replies[0].body {
        ResponseBody::GameStateBody(state) => {
            assert_eq!(state.board[1][1], CellElement::X);
            assert_eq!(state.board[0][0], CellElement::O);
        },
        _ => panic!("expected a game state"),
    }
}

#[test]
fn move_without_a_session_is_game_session_not_found() {
    let mut server = new_server();
    let a = connect(&mut server);
    server.handle_create_lobby(&a, &String::from("Tic-tac-toe v1.0"));
    let replies = server.handle_move(&a, &TicTacToeMove { board_index: (0, 0), symbol: CellElement::X });
    assert_eq!(replies.len(), 1);
    assert_eq!(replies[0].status, StatusCode::GameSessionNotFound);
}

#[test]
fn move_after_game_over_is_game_over() {
    let mut server = new_server();
    let a = connect(&mut server);
    let b = connect(&mut server);
    let created = server.handle_create_lobby(&a, &String::from("Tic-tac-toe v1.0"));
    let lobby_id = created_lobby_id(&created);
    server.handle_join_lobby(&b, &lobby_id);
    server.handle_start_game(&a, &lobby_id);
    // X claims the top row while O fills the middle row
    server.handle_move(&a, &TicTacToeMove { board_index: (0, 0), symbol: CellElement::X });
    server.handle_move(&b, &TicTacToeMove { board_index: (1, 0), symbol: CellElement::O });
    server.handle_move(&a, &TicTacToeMove { board_index: (0, 1), symbol: CellElement::X });
    server.handle_move(&b, &TicTacToeMove { board_index: (1, 1), symbol: CellElement::O });
    server.handle_move(&a, &TicTacToeMove { board_index: (0, 2), symbol: CellElement::X });
    let replies = server.handle_move(&b, &TicTacToeMove { board_index: (2, 0), symbol: CellElement::O });
    assert_eq!(replies.len(), 1);
    assert_eq!(replies[0].to, b);
    assert_eq!(replies[0].status, StatusCode::GameOver);
}

#[test]
fn return_to_lobby_of_last_player_resets_the_lobby() {
    let mut server = new_server();
    let a = connect(&mut server);
    let b = connect(&mut server);
    let created = server.handle_create_lobby(&a, &String::from("Tic-tac-toe v1.0"));
    let lobby_id = created_lobby_id(&created);
    server.handle_join_lobby(&b, &lobby_id);
    server.handle_start_game(&a, &lobby_id);
    let first = server.handle_return_to_lobby(&a);
    assert_eq!(first.len(), 1);
    assert_eq!(first[0].message_type, MessageType::LobbyInfoResponse);
    let second = server.handle_return_to_lobby(&b);
    assert_eq!(second.len(), 1);
    match &second[0].body {
        ResponseBody::LobbyBody(lobby) => assert!(!lobby.game_started),
        _ => panic!("expected a lobby snapshot"),
    }
}

#[test]
fn lobby_invariant_holds_after_joins_and_leaves() {
    let mut server = new_server();
    let a = connect(&mut server);
    let b = connect(&mut server);
    let c = connect(&mut server);
    let created = server.handle_create_lobby(&a, &String::from("Tic-tac-toe v1.0"));
    let lobby_id = created_lobby_id(&created);
    server.handle_join_lobby(&b, &lobby_id);
    server.handle_join_lobby(&c, &lobby_id);
    server.handle_leave_lobby(&a);
    server.handle_join_lobby(&c, &lobby_id);
    server.handle_leave_lobby(&c);
    let list = server.handle_lobby_list(&b);
    match list.body {
        ResponseBody::LobbyListBody(lobbies) => {
            for lobby in &lobbies {
                assert!(lobby.player_ids.len() <= lobby.game_metadata.max_players);
                assert!(lobby.player_ids.is_empty() || lobby.player_ids.contains(&lobby.owner));
            }
        },
        _ => panic!("expected the lobby list"),
    }
}

#[test]
fn disconnect_of_sole_owner_deletes_the_lobby() {
    let mut server = new_server();
    let a = connect(&mut server);
    let b = connect(&mut server);
    server.handle_create_lobby(&a, &String::from("Tic-tac-toe v1.0"));
    let replies = server.handle_disconnect(&a);
    assert!(replies.is_empty());
    let list = server.handle_lobby_list(&b);
    match list.body {
        ResponseBody::LobbyListBody(lobbies) => assert!(lobbies.is_empty()),
        _ => panic!("expected the lobby list"),
    }
}

#[test]
fn disconnect_transfers_ownership_to_the_remaining_player() {
    let mut server = new_server();
    let a = connect(&mut server);
    let b = connect(&mut server);
    let created = server.handle_create_lobby(&a, &String::from("Tic-tac-toe v1.0"));
    let lobby_id = created_lobby_id(&created);
    server.handle_join_lobby(&b, &lobby_id);
    server.handle_disconnect(&a);
    let info = server.handle_lobby_info(&b);
    match info.body {
        ResponseBody::LobbyBody(lobby) => {
            assert_eq!(lobby.owner, b);
            assert_eq!(lobby.player_ids, vec![b.clone()]);
        },
        _ => panic!("expected a lobby snapshot"),
    }
}

#[test]
fn sequence_numbers_advance_and_wrap() {
    let mut server = new_server();
    let a = connect(&mut server);
    assert_eq!(server.expected_sequence(&a), 1);
    server.advance_sequence(&a);
    assert_eq!(server.expected_sequence(&a), 2);
    let (id, _) = server.connect_client(&ConnectRequest::new(NoAuth {}), u32::MAX);
    let c = id.unwrap();
    assert_eq!(server.expected_sequence(&c), 0);
}
