//! End-to-end tests: two client session handlers exchanging real frames
//! with the server state machine, plus the tic-tac-toe module and the
//! client state machine on their own.

use game_protocol::enums::{MessageType, ProtocolState, StatusCode};
use game_protocol::game_module::{GameMetadata, GameModule, GameMove, GameState};
use game_protocol::server::{GameProtocolServer, Outgoing, ResponseBody};
use game_protocol::server_message_utils::{
    build_connect_response, build_game_state_response, build_lobby_info_response,
    build_lobby_list_response, build_missing_message_response, build_server_headers,
    build_supported_game_response,
};
use game_protocol::client::GameProtocolClient;
use game_protocol::tic_tac_toe::{CellElement, TicTacToe, TicTacToeMove, TicTacToeState};

type Server = GameProtocolServer<TicTacToe>;
type Client = GameProtocolClient<TicTacToe>;
type Reply = Outgoing<TicTacToeState>;

/// Turn one typed reply into the frame the transport would write, as the
/// program around the library does.
fn encode_reply(reply: Reply) -> Vec<u8> {
    match reply.body {
        ResponseBody::NoBody => build_server_headers(reply.status, reply.message_type),
        ResponseBody::LobbyBody(lobby) => build_lobby_info_response(reply.status, lobby),
        ResponseBody::LobbyListBody(lobbies) => build_lobby_list_response(reply.status, &lobbies),
        ResponseBody::GamesBody(games) => build_supported_game_response(reply.status, &games),
        ResponseBody::ClientIdBody(id) => build_connect_response(reply.status, id),
        ResponseBody::MissingBody(ids) => build_missing_message_response(ids),
        ResponseBody::TextBody(text) => {
            game_protocol::server_message_utils::build_unsolicited_message(reply.status, &text)
        },
        ResponseBody::GameStateBody(state) => build_game_state_response(reply.status, &state),
    }
}

/// Hand each reply to the client it is addressed to.
fn deliver(replies: Vec<Reply>, clients: &mut [(&String, &mut Client)]) {
    for reply in replies {
        let to = reply.to.clone();
        let frame = encode_reply(reply);
        for (id, client) in clients.iter_mut() {
            if **id == to {
                client.handle_server_message(&frame);
            }
        }
    }
}

#[test]
fn tic_tac_toe_scenario_end_to_end() {
    let mut server = Server::new();
    server.register_game(TicTacToe::new());

    let mut a = Client::new();
    a.register_game(TicTacToe::new());
    let mut b = Client::new();
    b.register_game(TicTacToe::new());

    let mut conn_a: Option<String> = None;
    let mut conn_b: Option<String> = None;

    // both clients connect and receive distinct ids
    let frame = a.connect();
    let (replies, done) = server.handle_frame(&mut conn_a, &frame);
    assert!(!done);
    let id_a = conn_a.clone().unwrap();
    deliver(replies, &mut [(&id_a, &mut a)]);
    assert_eq!(a.get_client_id(), id_a);
    assert_eq!(a.get_protocol_state(), ProtocolState::Idle);

    let frame = b.connect();
    let (replies, _) = server.handle_frame(&mut conn_b, &frame);
    let id_b = conn_b.clone().unwrap();
    deliver(replies, &mut [(&id_b, &mut b)]);
    assert_ne!(id_a, id_b);

    // client A creates a lobby and sees itself as the only player
    let frame = a.create_lobby("Tic-tac-toe v1.0");
    let (replies, _) = server.handle_frame(&mut conn_a, &frame);
    deliver(replies, &mut [(&id_a, &mut a)]);
    assert_eq!(a.get_protocol_state(), ProtocolState::InLobby);
    let lobby = a.get_current_lobby().unwrap();
    assert_eq!(lobby.player_ids, vec![id_a.clone()]);

    // client B joins; both now see both players
    let frame = b.join_lobby(&lobby.id);
    let (replies, _) = server.handle_frame(&mut conn_b, &frame);
    deliver(replies, &mut [(&id_a, &mut a), (&id_b, &mut b)]);
    let lobby_a = a.get_current_lobby().unwrap();
    let lobby_b = b.get_current_lobby().unwrap();
    assert_eq!(lobby_a.player_ids, vec![id_a.clone(), id_b.clone()]);
    assert_eq!(lobby_b.player_ids, vec![id_a.clone(), id_b.clone()]);

    // the owner starts the game; both receive the opening state
    let frame = a.start_game(&lobby.id);
    let (replies, _) = server.handle_frame(&mut conn_a, &frame);
    deliver(replies, &mut [(&id_a, &mut a), (&id_b, &mut b)]);
    assert_eq!(a.get_protocol_state(), ProtocolState::GameRunning);
    assert_eq!(b.get_protocol_state(), ProtocolState::GameRunning);
    let state_a = a.get_game_state().unwrap();
    assert_eq!(state_a.this_turn, CellElement::X);
    for row in &state_a.board {
        for cell in row {
            assert_eq!(*cell, CellElement::Empty);
        }
    }

    // A, playing X, claims the centre; both see the move and O to play
    let frame = a.make_move(&TicTacToeMove { board_index: (1, 1), symbol: CellElement::X });
    let (replies, _) = server.handle_frame(&mut conn_a, &frame);
    deliver(replies, &mut [(&id_a, &mut a), (&id_b, &mut b)]);
    let state_a = a.get_game_state().unwrap();
    let state_b = b.get_game_state().unwrap();
    assert_eq!(state_a.board[1][1], CellElement::X);
    assert_eq!(state_a.this_turn, CellElement::O);
    assert_eq!(state_b.board[1][1], CellElement::X);
    assert_eq!(state_b.this_turn, CellElement::O);

    // B tries the occupied cell: B alone is told the move is invalid,
    // and the board is unchanged
    let frame = b.make_move(&TicTacToeMove { board_index: (1, 1), symbol: CellElement::O });
    let (replies, _) = server.handle_frame(&mut conn_b, &frame);
    assert_eq!(replies.len(), 1);
    assert_eq!(replies[0].to, id_b);
    assert_eq!(replies[0].status, StatusCode::InvalidMove);
    assert_eq!(replies[0].message_type, MessageType::ProtocolError);
    deliver(replies, &mut [(&id_a, &mut a), (&id_b, &mut b)]);
    let state_b = b.get_game_state().unwrap();
    assert_eq!(state_b.board[1][1], CellElement::X);
    assert_eq!(state_b.this_turn, CellElement::O);
}

#[test]
fn out_of_sequence_message_reports_the_gap() {
    let mut server = Server::new();
    server.register_game(TicTacToe::new());
    let mut a = Client::new();
    let mut conn_a: Option<String> = None;
    let (replies, _) = server.handle_frame(&mut conn_a, &a.connect());
    let id_a = conn_a.clone().unwrap();
    drop(replies);
    // skip two requests locally, so the server sees sequence number 3
    // where it expects 1
    a.request_lobby_list();
    a.request_lobby_list();
    let frame = a.request_lobby_list();
    let (replies, _) = server.handle_frame(&mut conn_a, &frame);
    assert_eq!(replies.len(), 1);
    assert_eq!(replies[0].to, id_a);
    assert_eq!(replies[0].status, StatusCode::MessageSequenceError);
    assert_eq!(replies[0].message_type, MessageType::MissingMessageResponse);
    match &replies[0].body {
        ResponseBody::MissingBody(ids) => assert_eq!(*ids, vec![1, 2, 3]),
        _ => panic!("expected the missing sequence numbers"),
    }
}

#[test]
fn pre_auth_message_is_no_active_session() {
    let mut server = Server::new();
    server.register_game(TicTacToe::new());
    let mut a = Client::new();
    let mut conn_a: Option<String> = None;
    let frame = a.request_lobby_list();
    let (replies, done) = server.handle_frame(&mut conn_a, &frame);
    assert!(!done);
    assert!(conn_a.is_none());
    assert_eq!(replies.len(), 1);
    assert_eq!(replies[0].status, StatusCode::NoActiveSession);
}

#[test]
fn disconnect_request_ends_the_connection_and_cleans_up() {
    let mut server = Server::new();
    server.register_game(TicTacToe::new());
    let mut a = Client::new();
    let mut b = Client::new();
    let mut conn_a: Option<String> = None;
    let mut conn_b: Option<String> = None;
    server.handle_frame(&mut conn_a, &a.connect());
    server.handle_frame(&mut conn_b, &b.connect());
    let id_a = conn_a.clone().unwrap();
    let id_b = conn_b.clone().unwrap();
    let (replies, _) = server.handle_frame(&mut conn_a, &a.create_lobby("Tic-tac-toe v1.0"));
    deliver(replies, &mut [(&id_a, &mut a)]);
    // the owner, alone in its lobby, disconnects: the lobby goes away
    let (replies, done) = server.handle_frame(&mut conn_a, &a.disconnect());
    assert!(done);
    assert_eq!(replies.len(), 1);
    assert_eq!(replies[0].message_type, MessageType::DisconnectResponse);
    server.handle_disconnect(&id_a);
    let (replies, _) = server.handle_frame(&mut conn_b, &b.request_lobby_list());
    deliver(replies, &mut [(&id_b, &mut b)]);
    assert!(b.get_lobby_list().is_empty());
}

#[test]
fn supported_games_are_intersected_with_local_templates() {
    let mut server = Server::new();
    server.register_game(TicTacToe::new());
    let mut a = Client::new();
    a.register_game(TicTacToe::new());
    let mut conn_a: Option<String> = None;
    let (replies, _) = server.handle_frame(&mut conn_a, &a.connect());
    let id_a = conn_a.clone().unwrap();
    deliver(replies, &mut [(&id_a, &mut a)]);
    let (replies, _) = server.handle_frame(&mut conn_a, &a.request_supported_games());
    deliver(replies, &mut [(&id_a, &mut a)]);
    let games = a.get_supported_games();
    assert_eq!(games.len(), 1);
    assert_eq!(games[0].0, "Tic-tac-toe");
    assert_eq!(games[0].1, "Tic-tac-toe v1.0");
}

#[test]
fn protocol_error_reverts_to_the_previous_state() {
    let mut server = Server::new();
    server.register_game(TicTacToe::new());
    let mut a = Client::new();
    let mut conn_a: Option<String> = None;
    let (replies, _) = server.handle_frame(&mut conn_a, &a.connect());
    let id_a = conn_a.clone().unwrap();
    deliver(replies, &mut [(&id_a, &mut a)]);
    assert_eq!(a.get_protocol_state(), ProtocolState::Idle);
    // creating a lobby for an unsupported game draws a protocol error,
    // and the client rolls back from CreatingLobby to Idle
    let frame = a.create_lobby("Chess v1.0");
    assert_eq!(a.get_protocol_state(), ProtocolState::CreatingLobby);
    let (replies, _) = server.handle_frame(&mut conn_a, &frame);
    assert_eq!(replies[0].status, StatusCode::UnsupportedGame);
    deliver(replies, &mut [(&id_a, &mut a)]);
    assert_eq!(a.get_protocol_state(), ProtocolState::Idle);
}

#[test]
fn disconnect_response_resets_the_client_session() {
    let mut server = Server::new();
    server.register_game(TicTacToe::new());
    let mut a = Client::new();
    let mut conn_a: Option<String> = None;
    let (replies, _) = server.handle_frame(&mut conn_a, &a.connect());
    let id_a = conn_a.clone().unwrap();
    deliver(replies, &mut [(&id_a, &mut a)]);
    let (replies, _) = server.handle_frame(&mut conn_a, &a.disconnect());
    deliver(replies, &mut [(&id_a, &mut a)]);
    assert_eq!(a.get_protocol_state(), ProtocolState::Closed);
    assert_eq!(a.get_client_id(), "");
    assert!(a.get_current_lobby().is_none());
    assert!(a.get_lobby_list().is_empty());
}

#[test]
fn game_metadata_key_is_title_and_version() {
    let meta = GameMetadata {
        game_title: String::from("Tic-tac-toe"),
        version: String::from("1.0"),
        max_players: 2,
        min_required_players: 2,
    };
    assert_eq!(meta.get_game_type_id(), "Tic-tac-toe v1.0");
}

#[test]
fn lobby_is_full_compares_against_max_players() {
    let lobby = game_protocol::shared_data::Lobby {
        id: String::from("l"),
        owner: String::from("a"),
        player_ids: vec![String::from("a"), String::from("b")],
        game_started: false,
        game_metadata: GameMetadata {
            game_title: String::from("Tic-tac-toe"),
            version: String::from("1.0"),
            max_players: 2,
            min_required_players: 2,
        },
    };
    assert!(lobby.is_full());
    assert_eq!(lobby.clone_metadata().max_players, 2);
}

#[test]
fn tic_tac_toe_state_json_round_trip() {
    let mut game = TicTacToe::new();
    game.add_player(String::from("alice"));
    game.add_player(String::from("bob"));
    game.apply_move(&TicTacToeMove { board_index: (0, 2), symbol: CellElement::X });
    let state = game.get_game_state().duplicate();
    let json = state.to_json();
    let back = TicTacToeState::from_json(&json).unwrap();
    assert_eq!(back.board[0][2], CellElement::X);
    assert_eq!(back.this_turn, CellElement::O);
    assert_eq!(back.x_player_id, "alice");
    assert_eq!(back.o_player_id, "bob");
    assert_eq!(back.winner, None);
    assert!(!back.game_over);
}

#[test]
fn tic_tac_toe_move_json_round_trip() {
    let mv = TicTacToeMove { board_index: (2, 1), symbol: CellElement::O };
    let back = TicTacToeMove::from_json(&mv.to_json()).unwrap();
    assert_eq!(back.board_index, (2, 1));
    assert_eq!(back.symbol, CellElement::O);
}

#[test]
fn tic_tac_toe_detects_wins_and_draws() {
    let mut game = TicTacToe::new();
    game.add_player(String::from("alice"));
    game.add_player(String::from("bob"));
    assert_eq!(game.get_player_num(), 2);
    // not ended on the empty board
    assert_eq!(game.end_condition_met().0, false);
    // X takes the left column
    game.apply_move(&TicTacToeMove { board_index: (0, 0), symbol: CellElement::X });
    game.apply_move(&TicTacToeMove { board_index: (0, 1), symbol: CellElement::O });
    game.apply_move(&TicTacToeMove { board_index: (1, 0), symbol: CellElement::X });
    game.apply_move(&TicTacToeMove { board_index: (1, 1), symbol: CellElement::O });
    game.apply_move(&TicTacToeMove { board_index: (2, 0), symbol: CellElement::X });
    let (ended, winner) = game.end_condition_met();
    assert!(ended);
    assert_eq!(winner, Some(String::from("alice")));
}

#[test]
fn tic_tac_toe_rejects_wrong_turn_and_occupied_cells() {
    let mut game = TicTacToe::new();
    game.add_player(String::from("alice"));
    game.add_player(String::from("bob"));
    // O may not open the game
    assert!(!game.is_valid_move(&TicTacToeMove { board_index: (0, 0), symbol: CellElement::O }));
    game.apply_move(&TicTacToeMove { board_index: (0, 0), symbol: CellElement::X });
    // the cell is taken
    assert!(!game.is_valid_move(&TicTacToeMove { board_index: (0, 0), symbol: CellElement::O }));
    // an out-of-range cell is invalid rather than an error
    assert!(!game.is_valid_move(&TicTacToeMove { board_index: (7, 0), symbol: CellElement::O }));
    // an invalid application changes nothing
    game.apply_move(&TicTacToeMove { board_index: (0, 0), symbol: CellElement::O });
    assert_eq!(game.get_game_state().board[0][0], CellElement::X);
    assert_eq!(game.get_game_state().this_turn, CellElement::O);
}

#[test]
fn tic_tac_toe_roster_is_capped_and_duplicate_free() {
    let mut game = TicTacToe::new();
    game.add_player(String::from("alice"));
    game.add_player(String::from("alice"));
    assert_eq!(game.get_player_num(), 1);
    game.add_player(String::from("bob"));
    game.add_player(String::from("carol"));
    assert_eq!(game.get_player_num(), 2);
    game.remove_player(String::from("alice"));
    assert_eq!(game.get_player_num(), 1);
    game.remove_player(String::from("alice"));
    assert_eq!(game.get_player_num(), 1);
}
