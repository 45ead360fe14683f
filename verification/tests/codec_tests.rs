//! Tests of the wire codec: framing, checksums, headers, code tables,
//! payload JSON round trips, and sequence gap detection.

use game_protocol::byte_order::{u16_from_be_bytes, u16_to_be_bytes, u32_from_be_bytes, u32_to_be_bytes};
use game_protocol::client_message_utils::{
    build_client_headers, build_connect_request, build_create_lobby_request,
    build_join_lobby_request, build_start_game_request, parse_connect_response,
    parse_lobby_info_response, parse_lobby_list_response, parse_missing_message_response,
    parse_server_message_header, parse_supported_games_response, parse_unsolicited_message,
};
use game_protocol::common_message_utils::{
    build_message_body, parse_message_payload, parse_message_type, parse_status_code,
};
use game_protocol::enums::{
    message_type_code, message_type_of_code, status_code_value, status_of_code, MessageType,
    ServerError, StatusCode,
};
use game_protocol::game_module::GameMetadata;
use game_protocol::server::missing_message_ids;
use game_protocol::server_message_utils::{
    build_connect_response, build_lobby_info_response, build_lobby_list_response,
    build_missing_message_response, build_server_error_response, build_server_headers,
    build_supported_game_response, build_unsolicited_message, parse_client_message_header,
    parse_connect_request, parse_create_lobby_request, parse_join_lobby_request,
    parse_start_game_request,
};
use game_protocol::shared_data::Lobby;

fn sample_lobby() -> Lobby {
    Lobby {
        id: String::from("lobby-1"),
        owner: String::from("alice"),
        player_ids: vec![String::from("alice"), String::from("bob")],
        game_started: false,
        game_metadata: GameMetadata {
            game_title: String::from("Tic-tac-toe"),
            version: String::from("1.0"),
            max_players: 2,
            min_required_players: 2,
        },
    }
}

#[test]
fn byte_order_round_trips() {
    let bytes = u32_to_be_bytes(0xdeadbeef);
    assert_eq!(bytes, vec![0xde, 0xad, 0xbe, 0xef]);
    assert_eq!(u32_from_be_bytes(&bytes), 0xdeadbeef);
    let bytes16 = u16_to_be_bytes(0x1234);
    assert_eq!(bytes16, vec![0x12, 0x34]);
    assert_eq!(u16_from_be_bytes(&bytes16), 0x1234);
}

#[test]
fn message_type_codes_follow_the_canonical_table() {
    assert_eq!(message_type_code(MessageType::Unsupported), 0);
    assert_eq!(message_type_code(MessageType::ProtocolError), 1);
    assert_eq!(message_type_code(MessageType::ConnectRequest), 2);
    assert_eq!(message_type_code(MessageType::GameStateResponse), 19);
    assert_eq!(message_type_code(MessageType::MissingMessageResponse), 20);
    assert_eq!(message_type_code(MessageType::UnsolicitedMessage), 21);
    for code in 0..22u16 {
        assert_eq!(message_type_code(message_type_of_code(code)), code);
    }
    assert_eq!(message_type_of_code(22), MessageType::Unsupported);
    assert_eq!(message_type_of_code(9999), MessageType::Unsupported);
}

#[test]
fn status_codes_follow_the_canonical_table() {
    assert_eq!(status_code_value(StatusCode::UnexpectedError), 0);
    assert_eq!(status_code_value(StatusCode::Success), 1);
    assert_eq!(status_code_value(StatusCode::InvalidMove), 18);
    for code in 0..19u16 {
        assert_eq!(status_code_value(status_of_code(code)), code);
    }
    assert_eq!(status_of_code(19), StatusCode::UnexpectedError);
}

#[test]
fn body_round_trip_preserves_the_payload() {
    let payload = String::from("{\"hello\":\"w\\\"orld\"}");
    let framed = build_message_body(Some(payload.clone()));
    assert_eq!(parse_message_payload(&framed), Ok(payload));
}

#[test]
fn empty_body_is_four_zero_bytes() {
    assert_eq!(build_message_body(None), vec![0, 0, 0, 0]);
    assert_eq!(build_message_body(Some(String::new())), vec![0, 0, 0, 0]);
    assert_eq!(parse_message_payload(&[0, 0, 0, 0]), Ok(String::new()));
}

#[test]
fn corrupted_checksum_is_rejected() {
    let mut framed = build_message_body(Some(String::from("payload")));
    // flip one bit of the stored checksum
    framed[4] ^= 0x01;
    assert_eq!(parse_message_payload(&framed), Err(ServerError::ChecksumError));
}

#[test]
fn corrupted_payload_is_rejected() {
    let mut framed = build_message_body(Some(String::from("payload")));
    let last = framed.len() - 1;
    framed[last] ^= 0x01;
    assert_eq!(parse_message_payload(&framed), Err(ServerError::ChecksumError));
}

#[test]
fn oversized_declared_length_is_rejected() {
    // the declared length exceeds the bytes available
    let framed = vec![0, 0, 0, 200, 1, 2, 3, 4, b'x'];
    assert_eq!(parse_message_payload(&framed), Err(ServerError::BodySizeError));
}

#[test]
fn client_header_round_trip() {
    let frame = build_client_headers(7, MessageType::LobbyListRequest);
    let (seq, mtype, rest) = parse_client_message_header(&frame);
    assert_eq!(seq, 7);
    assert_eq!(mtype, MessageType::LobbyListRequest);
    assert!(rest.is_empty());
}

#[test]
fn server_header_round_trip() {
    let frame = build_server_headers(StatusCode::Success, MessageType::LobbyInfoResponse);
    let (status, mtype, rest) = parse_server_message_header(&frame);
    assert_eq!(status, StatusCode::Success);
    assert_eq!(mtype, MessageType::LobbyInfoResponse);
    assert!(rest.is_empty());
    let (status2, rest2) = parse_status_code(&frame);
    assert_eq!(status2, StatusCode::Success);
    let (mtype2, _) = parse_message_type(rest2);
    assert_eq!(mtype2, MessageType::LobbyInfoResponse);
}

#[test]
fn connect_request_builds_and_authenticates() {
    let frame = build_connect_request(0, None);
    let (seq, mtype, rest) = parse_client_message_header(&frame);
    assert_eq!(seq, 0);
    assert_eq!(mtype, MessageType::ConnectRequest);
    let request = parse_connect_request(rest);
    assert!(request.authenticate());
}

#[test]
fn join_lobby_request_round_trip() {
    let frame = build_join_lobby_request(3, String::from("lobby \"nine\"\\"));
    let (_, mtype, rest) = parse_client_message_header(&frame);
    assert_eq!(mtype, MessageType::JoinLobbyRequest);
    let request = parse_join_lobby_request(rest).unwrap();
    assert_eq!(request.lobby_id, "lobby \"nine\"\\");
}

#[test]
fn create_lobby_request_round_trip() {
    let frame = build_create_lobby_request(4, String::from("Tic-tac-toe v1.0"));
    let (_, mtype, rest) = parse_client_message_header(&frame);
    assert_eq!(mtype, MessageType::CreateLobbyRequest);
    let request = parse_create_lobby_request(rest).unwrap();
    assert_eq!(request.game_type_id, "Tic-tac-toe v1.0");
}

#[test]
fn start_game_request_round_trip() {
    let frame = build_start_game_request(5, String::from("lobby-1"));
    let (_, mtype, rest) = parse_client_message_header(&frame);
    assert_eq!(mtype, MessageType::StartGameRequest);
    let request = parse_start_game_request(rest).unwrap();
    assert_eq!(request.lobby_id, "lobby-1");
}

#[test]
fn connect_response_round_trip() {
    let frame = build_connect_response(StatusCode::Success, String::from("client-9"));
    let (status, mtype, rest) = parse_server_message_header(&frame);
    assert_eq!(status, StatusCode::Success);
    assert_eq!(mtype, MessageType::ConnectResponse);
    let response = parse_connect_response(rest).unwrap();
    assert_eq!(response.client_id, "client-9");
}

#[test]
fn lobby_info_response_round_trip() {
    let lobby = sample_lobby();
    let frame = build_lobby_info_response(StatusCode::Success, lobby);
    let (_, mtype, rest) = parse_server_message_header(&frame);
    assert_eq!(mtype, MessageType::LobbyInfoResponse);
    let response = parse_lobby_info_response(rest).unwrap();
    assert_eq!(response.lobby.id, "lobby-1");
    assert_eq!(response.lobby.owner, "alice");
    assert_eq!(response.lobby.player_ids, vec!["alice", "bob"]);
    assert!(!response.lobby.game_started);
    assert_eq!(response.lobby.game_metadata.game_title, "Tic-tac-toe");
    assert_eq!(response.lobby.game_metadata.version, "1.0");
    assert_eq!(response.lobby.game_metadata.max_players, 2);
    assert_eq!(response.lobby.game_metadata.min_required_players, 2);
}

#[test]
fn lobby_list_response_round_trip() {
    let lobbies = vec![sample_lobby(), {
        let mut other = sample_lobby();
        other.id = String::from("lobby-2");
        other.game_started = true;
        other.player_ids = vec![String::from("carol")];
        other.owner = String::from("carol");
        other
    }];
    let frame = build_lobby_list_response(StatusCode::Success, &lobbies);
    let (_, mtype, rest) = parse_server_message_header(&frame);
    assert_eq!(mtype, MessageType::LobbyListResponse);
    let response = parse_lobby_list_response(rest).unwrap();
    assert_eq!(response.lobbies.len(), 2);
    assert_eq!(response.lobbies[0].id, "lobby-1");
    assert_eq!(response.lobbies[1].id, "lobby-2");
    assert!(response.lobbies[1].game_started);
    assert_eq!(response.lobbies[1].player_ids, vec!["carol"]);
}

#[test]
fn empty_lobby_list_round_trip() {
    let frame = build_lobby_list_response(StatusCode::Success, &Vec::new());
    let (_, _, rest) = parse_server_message_header(&frame);
    let response = parse_lobby_list_response(rest).unwrap();
    assert!(response.lobbies.is_empty());
}

#[test]
fn supported_games_response_round_trip() {
    let games = vec![String::from("Tic-tac-toe v1.0"), String::from("Reversi v2.3")];
    let frame = build_supported_game_response(StatusCode::Success, &games);
    let (_, mtype, rest) = parse_server_message_header(&frame);
    assert_eq!(mtype, MessageType::SupportedGamesResponse);
    let response = parse_supported_games_response(rest).unwrap();
    assert_eq!(response.games, games);
}

#[test]
fn missing_message_response_round_trip() {
    let frame = build_missing_message_response(vec![5, 6, 7, 8]);
    let (status, mtype, rest) = parse_server_message_header(&frame);
    assert_eq!(status, StatusCode::MessageSequenceError);
    assert_eq!(mtype, MessageType::MissingMessageResponse);
    let response = parse_missing_message_response(rest).unwrap();
    assert_eq!(response.missing_message_ids, vec![5, 6, 7, 8]);
}

#[test]
fn unsolicited_message_round_trip() {
    let frame = build_unsolicited_message(StatusCode::Success, "server going down");
    let (_, mtype, rest) = parse_server_message_header(&frame);
    assert_eq!(mtype, MessageType::UnsolicitedMessage);
    let response = parse_unsolicited_message(rest).unwrap();
    assert_eq!(response.message, "server going down");
}

#[test]
fn malformed_json_is_a_deserialize_error() {
    let body = build_message_body(Some(String::from("{\"lobby_id\":42}")));
    match parse_join_lobby_request(&body) {
        Err(e) => assert_eq!(e, ServerError::DeserializeError),
        Ok(_) => panic!("malformed JSON must not parse"),
    }
}

#[test]
fn server_error_response_maps_each_error() {
    let frame = build_server_error_response(ServerError::ChecksumError);
    let (status, mtype, _) = parse_server_message_header(&frame);
    assert_eq!(status, StatusCode::DataIntegrityError);
    assert_eq!(mtype, MessageType::ProtocolError);
    let frame = build_server_error_response(ServerError::BodySizeError);
    let (status, _, _) = parse_server_message_header(&frame);
    assert_eq!(status, StatusCode::DataIntegrityError);
    let frame = build_server_error_response(ServerError::BytesToStringError);
    let (status, _, _) = parse_server_message_header(&frame);
    assert_eq!(status, StatusCode::DataParseError);
    let frame = build_server_error_response(ServerError::DeserializeError);
    let (status, _, _) = parse_server_message_header(&frame);
    assert_eq!(status, StatusCode::MalformedBody);
}

#[test]
fn gap_detection_reports_the_exact_missing_set() {
    assert_eq!(missing_message_ids(5, 8), vec![5, 6, 7, 8]);
}

#[test]
fn gap_detection_wraps_through_the_largest_value_and_zero() {
    assert_eq!(
        missing_message_ids(u32::MAX - 1, 1),
        vec![u32::MAX - 1, u32::MAX, 0, 1]
    );
}

#[test]
fn move_request_round_trip() {
    let mv = game_protocol::tic_tac_toe::TicTacToeMove {
        board_index: (2, 0),
        symbol: game_protocol::tic_tac_toe::CellElement::X,
    };
    let frame = game_protocol::client_message_utils::build_move_request(9, &mv);
    let (seq, mtype, rest) = parse_client_message_header(&frame);
    assert_eq!(seq, 9);
    assert_eq!(mtype, MessageType::MoveRequest);
    let back: game_protocol::tic_tac_toe::TicTacToeMove =
        game_protocol::server_message_utils::parse_move_request(rest).unwrap();
    assert_eq!(back.board_index, (2, 0));
    assert_eq!(back.symbol, game_protocol::tic_tac_toe::CellElement::X);
    // the parser validates the tag
    let bogus = build_message_body(Some(String::from("{\"Other\":{}}")));
    assert!(game_protocol::server_message_utils::parse_move_request::<
        game_protocol::tic_tac_toe::TicTacToeMove,
    >(&bogus)
        .is_err());
}

#[test]
fn checksum_depends_on_the_payload_bytes() {
    let a = build_message_body(Some(String::from("aaaa")));
    let b = build_message_body(Some(String::from("aaab")));
    // same length, different content: the embedded checksums must differ
    assert_eq!(a.len(), b.len());
    assert_ne!(a[4..8], b[4..8]);
}
