//! Helpers for parsing client requests and building server responses.

use vstd::prelude::*;

use crate::byte_order::{
    spec_u16_from_be_bytes, spec_u16_to_be_bytes, spec_u32_from_be_bytes, u16_to_be_bytes,
    u32_from_be_bytes,
};
use crate::common_message_utils::{parse_message_type, spec_body_bytes, spec_decode_payload};
use crate::enums::{
    message_type_code, spec_message_type_code, spec_message_type_of_code, spec_status_code_value,
    status_code_value, MessageType, ServerError, StatusCode,
};
use crate::game_module::{GameMove, GameState};
use crate::payloads::{
    encode_connect_response_json, encode_lobby_info_json, encode_lobby_list_json,
    encode_missing_json, encode_supported_games_json, encode_unsolicited_json,
    parse_create_lobby_json, parse_join_lobby_json, spec_connect_response_json,
    spec_create_lobby_json, spec_join_lobby_json, spec_lobby_info_json, spec_lobby_list_json,
    spec_missing_json, spec_start_game_json, spec_supported_games_json, spec_unsolicited_json,
};
use crate::shared_data::{
    ConnectRequest, ConnectRequestAuth, CreateLobbyRequest, JoinLobbyRequest, Lobby, NoAuth,
    StartGameRequest,
};

verus! {

/// The header bytes of a server message: the status code, then the
/// message type code, both big-endian.
pub open spec fn spec_server_header(status_code: StatusCode, message_type: MessageType) -> Seq<
    u8,
> {
    spec_u16_to_be_bytes(spec_status_code_value(status_code)) + spec_u16_to_be_bytes(
        spec_message_type_code(message_type),
    )
}

/// Build the header of a server message: status code and type code.
pub fn build_server_headers(status_code: StatusCode, message_type: MessageType) -> (r: Vec<u8>)
    ensures
        r@ == spec_server_header(status_code, message_type),
{
    let mut r = u16_to_be_bytes(status_code_value(status_code));
    let mut code = u16_to_be_bytes(message_type_code(message_type));
    r.append(&mut code);
    r
}

/// Parse a client message header, returning the sequence number, the
/// message type, and the remaining bytes.
pub fn parse_client_message_header<'a>(raw_message: &'a [u8]) -> (r: (
    u32,
    MessageType,
    &'a [u8],
))
    requires
        raw_message@.len() >= 6,
    ensures
        r.0 == spec_u32_from_be_bytes(raw_message@.subrange(0, 4)),
        r.1 == spec_message_type_of_code(spec_u16_from_be_bytes(raw_message@.subrange(4, 6))),
        r.2@ == raw_message@.subrange(6, raw_message@.len() as int),
{
    let message_id = u32_from_be_bytes(raw_message);
    let remainder = vstd::slice::slice_subrange(raw_message, 4, raw_message.len());
    let (message_type, remainder2) = parse_message_type(remainder);
    proof {
        assert(remainder@.subrange(0, 2) =~= raw_message@.subrange(4, 6));
        assert(remainder@.subrange(2, remainder@.len() as int) =~= raw_message@.subrange(
            6,
            raw_message@.len() as int,
        ));
    }
    (message_id, message_type, remainder2)
}

/// Parse a connection request. The default deployment carries no
/// authentication data, so the body is ignored.
pub fn parse_connect_request(_raw_message: &[u8]) -> (r: ConnectRequest<NoAuth>)
    ensures
        r.spec_auth_data().spec_authenticated(),
{
    ConnectRequest::new(NoAuth {  })
}

/// The error reply telling a client its message could not be decoded:
/// checksum and size mismatches surface as `DataIntegrityError`, bad
/// UTF-8 as `DataParseError`, and bad JSON as `MalformedBody`.
pub fn build_server_error_response(e: ServerError) -> (r: Vec<u8>)
    ensures
        r@ == spec_server_header(
            match e {
                ServerError::ChecksumError => StatusCode::DataIntegrityError,
                ServerError::BodySizeError => StatusCode::DataIntegrityError,
                ServerError::BytesToStringError => StatusCode::DataParseError,
                ServerError::DeserializeError => StatusCode::MalformedBody,
            },
            MessageType::ProtocolError,
        ),
{
    match e {
        ServerError::ChecksumError => {
            build_server_headers(StatusCode::DataIntegrityError, MessageType::ProtocolError)
        },
        ServerError::BodySizeError => {
            build_server_headers(StatusCode::DataIntegrityError, MessageType::ProtocolError)
        },
        ServerError::BytesToStringError => {
            build_server_headers(StatusCode::DataParseError, MessageType::ProtocolError)
        },
        ServerError::DeserializeError => {
            build_server_headers(StatusCode::MalformedBody, MessageType::ProtocolError)
        },
    }
}

/// Build a missing-message response: a sequence-error header and the
/// JSON list of the missing sequence numbers.
pub fn build_missing_message_response(missing_message_ids: Vec<u32>) -> (r: Vec<u8>)
    ensures
        r@ == spec_server_header(
            StatusCode::MessageSequenceError,
            MessageType::MissingMessageResponse,
        ) + spec_body_bytes(
            Some(spec_missing_json(missing_message_ids@.map_values(|x: u32| x as int))),
        ),
{
    let mut r = build_server_headers(
        StatusCode::MessageSequenceError,
        MessageType::MissingMessageResponse,
    );
    let json = encode_missing_json(&missing_message_ids);
    let mut b = crate::common_message_utils::build_message_body(Some(json));
    r.append(&mut b);
    r
}

/// Build an unsolicited message.
pub fn build_unsolicited_message(status_code: StatusCode, message: &str) -> (r: Vec<u8>)
    ensures
        r@ == spec_server_header(status_code, MessageType::UnsolicitedMessage) + spec_body_bytes(
            Some(spec_unsolicited_json(message@)),
        ),
{
    let mut r = build_server_headers(status_code, MessageType::UnsolicitedMessage);
    let json = encode_unsolicited_json(message);
    let mut b = crate::common_message_utils::build_message_body(Some(json));
    r.append(&mut b);
    r
}

/// Build a connect response carrying the assigned client id.
pub fn build_connect_response(status_code: StatusCode, client_id: String) -> (r: Vec<u8>)
    ensures
        r@ == spec_server_header(status_code, MessageType::ConnectResponse) + spec_body_bytes(
            Some(spec_connect_response_json(client_id@)),
        ),
{
    let mut r = build_server_headers(status_code, MessageType::ConnectResponse);
    let json = encode_connect_response_json(client_id.as_str());
    let mut b = crate::common_message_utils::build_message_body(Some(json));
    r.append(&mut b);
    r
}

/// Build a lobby-list response.
pub fn build_lobby_list_response(status_code: StatusCode, lobbies: &Vec<Lobby>) -> (r: Vec<u8>)
    ensures
        r@ == spec_server_header(status_code, MessageType::LobbyListResponse) + spec_body_bytes(
            Some(spec_lobby_list_json(lobbies@.map_values(|l: Lobby| l@))),
        ),
{
    let mut r = build_server_headers(status_code, MessageType::LobbyListResponse);
    let json = encode_lobby_list_json(lobbies);
    let mut b = crate::common_message_utils::build_message_body(Some(json));
    r.append(&mut b);
    r
}

/// Build a supported-games response.
pub fn build_supported_game_response(status_code: StatusCode, games: &Vec<String>) -> (r: Vec<u8>)
    ensures
        r@ == spec_server_header(status_code, MessageType::SupportedGamesResponse)
            + spec_body_bytes(Some(spec_supported_games_json(games.deep_view()))),
{
    let mut r = build_server_headers(status_code, MessageType::SupportedGamesResponse);
    let json = encode_supported_games_json(games);
    let mut b = crate::common_message_utils::build_message_body(Some(json));
    r.append(&mut b);
    r
}

/// Build a lobby-info response carrying one lobby snapshot.
pub fn build_lobby_info_response(status_code: StatusCode, lobby: Lobby) -> (r: Vec<u8>)
    ensures
        r@ == spec_server_header(status_code, MessageType::LobbyInfoResponse) + spec_body_bytes(
            Some(spec_lobby_info_json(lobby@)),
        ),
{
    let mut r = build_server_headers(status_code, MessageType::LobbyInfoResponse);
    let json = encode_lobby_info_json(&lobby);
    let mut b = crate::common_message_utils::build_message_body(Some(json));
    r.append(&mut b);
    r
}

/// Build a game-state response: the game state's own tagged JSON form as
/// the body.
pub fn build_game_state_response<St: GameState>(status_code: StatusCode, game_state: &St) -> (r:
    Vec<u8>)
    ensures
        r@.len() >= 4,
        r@.subrange(0, 4) == spec_server_header(status_code, MessageType::GameStateResponse),
{
    let mut r = build_server_headers(status_code, MessageType::GameStateResponse);
    let json = game_state.to_json();
    let mut b = crate::common_message_utils::build_message_body(Some(json));
    r.append(&mut b);
    proof {
        assert(r@.subrange(0, 4) =~= spec_server_header(
            status_code,
            MessageType::GameStateResponse,
        ));
    }
    r
}

/// Parse a join-lobby request body.
pub fn parse_join_lobby_request(raw_message: &[u8]) -> (r: Result<JoinLobbyRequest, ServerError>)
    ensures
        r matches Ok(v) ==> (spec_decode_payload(raw_message@) matches Ok(p) && p
            == spec_join_lobby_json(v.lobby_id@)),
        spec_decode_payload(raw_message@) matches Err(e) ==> r == Err::<
            JoinLobbyRequest,
            ServerError,
        >(e),
        (spec_decode_payload(raw_message@) matches Ok(p) && (forall|v: Seq<char>|
            p != spec_join_lobby_json(v))) ==> r == Err::<JoinLobbyRequest, ServerError>(
            ServerError::DeserializeError,
        ),
        r is Err ==> (spec_decode_payload(raw_message@) is Err || (spec_decode_payload(
            raw_message@,
        ) matches Ok(p) && (forall|v: Seq<char>| p != spec_join_lobby_json(v)))),
{
    match crate::common_message_utils::parse_message_payload(raw_message) {
        Ok(payload) => match parse_join_lobby_json(payload.as_str()) {
            Some(lobby_id) => Ok(JoinLobbyRequest { lobby_id }),
            None => Err(ServerError::DeserializeError),
        },
        Err(e) => Err(e),
    }
}

/// Parse a create-lobby request body.
pub fn parse_create_lobby_request(raw_message: &[u8]) -> (r: Result<
    CreateLobbyRequest,
    ServerError,
>)
    ensures
        r matches Ok(v) ==> (spec_decode_payload(raw_message@) matches Ok(p) && p
            == spec_create_lobby_json(v.game_type_id@)),
        spec_decode_payload(raw_message@) matches Err(e) ==> r == Err::<
            CreateLobbyRequest,
            ServerError,
        >(e),
        (spec_decode_payload(raw_message@) matches Ok(p) && (forall|v: Seq<char>|
            p != spec_create_lobby_json(v))) ==> r == Err::<CreateLobbyRequest, ServerError>(
            ServerError::DeserializeError,
        ),
        r is Err ==> (spec_decode_payload(raw_message@) is Err || (spec_decode_payload(
            raw_message@,
        ) matches Ok(p) && (forall|v: Seq<char>| p != spec_create_lobby_json(v)))),
{
    match crate::common_message_utils::parse_message_payload(raw_message) {
        Ok(payload) => match parse_create_lobby_json(payload.as_str()) {
            Some(game_type_id) => Ok(CreateLobbyRequest { game_type_id }),
            None => Err(ServerError::DeserializeError),
        },
        Err(e) => Err(e),
    }
}

/// Parse a start-game request body.
pub fn parse_start_game_request(raw_message: &[u8]) -> (r: Result<StartGameRequest, ServerError>)
    ensures
        r matches Ok(v) ==> (spec_decode_payload(raw_message@) matches Ok(p) && p
            == spec_start_game_json(v.lobby_id@)),
        spec_decode_payload(raw_message@) matches Err(e) ==> r == Err::<
            StartGameRequest,
            ServerError,
        >(e),
        (spec_decode_payload(raw_message@) matches Ok(p) && (forall|v: Seq<char>|
            p != spec_start_game_json(v))) ==> r == Err::<StartGameRequest, ServerError>(
            ServerError::DeserializeError,
        ),
        r is Err ==> (spec_decode_payload(raw_message@) is Err || (spec_decode_payload(
            raw_message@,
        ) matches Ok(p) && (forall|v: Seq<char>| p != spec_start_game_json(v)))),
{
    match crate::common_message_utils::parse_message_payload(raw_message) {
        Ok(payload) => match parse_join_lobby_json(payload.as_str()) {
            Some(lobby_id) => {
                proof {
                    assert(spec_start_game_json(lobby_id@) == spec_join_lobby_json(lobby_id@));
                }
                Ok(StartGameRequest { lobby_id })
            },
            None => {
                proof {
                    assert forall|v: Seq<char>| payload@ != spec_start_game_json(v) by {
                        assert(spec_start_game_json(v) == spec_join_lobby_json(v));
                    }
                }
                Err(ServerError::DeserializeError)
            },
        },
        Err(e) => Err(e),
    }
}

/// Parse a move request body into the game's own move type.
pub fn parse_move_request<M: GameMove>(raw_message: &[u8]) -> (r: Result<M, ServerError>)
    ensures
        r matches Ok(v) ==> (spec_decode_payload(raw_message@) matches Ok(p) && p
            == v.spec_json()),
        spec_decode_payload(raw_message@) matches Err(e) ==> r == Err::<M, ServerError>(e),
{
    match crate::common_message_utils::parse_message_payload(raw_message) {
        Ok(payload) => M::from_json(payload.as_str()),
        Err(e) => Err(e),
    }
}

} // verus!
