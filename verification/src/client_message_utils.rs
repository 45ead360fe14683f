//! Helpers for building client requests and parsing server responses.
//!
//! A client message starts with a four-byte big-endian sequence number
//! and a two-byte type code; a server message starts with a two-byte
//! status code and a two-byte type code.

use vstd::prelude::*;

use crate::byte_order::{
    spec_u16_from_be_bytes, spec_u16_to_be_bytes, spec_u32_to_be_bytes, u16_to_be_bytes,
    u32_to_be_bytes,
};
use crate::common_message_utils::{
    parse_message_type, parse_status_code, spec_body_bytes, spec_decode_payload,
};
use crate::enums::{
    message_type_code, spec_message_type_code, spec_message_type_of_code, spec_status_of_code,
    MessageType, ServerError, StatusCode,
};
use crate::game_module::{GameMove, GameState};
use crate::payloads::{
    encode_create_lobby_json, encode_join_lobby_json, parse_connect_response_json,
    parse_lobby_info_json, parse_lobby_list_json, parse_missing_json, parse_supported_games_json,
    parse_unsolicited_json, spec_connect_response_json, spec_create_lobby_json,
    spec_join_lobby_json, spec_lobby_info_json, spec_lobby_list_json, spec_missing_json,
    spec_start_game_json, spec_supported_games_json, spec_unsolicited_json,
};
use crate::shared_data::{
    ConnectResponse, Lobby, LobbyInfoResponse, LobbyListResponse, MissingMessageResponse,
    SupportedGamesResponse, UnsolicitedMessage,
};

verus! {

/// The header bytes of a client message: the sequence number, then the
/// message type code, both big-endian.
pub open spec fn spec_client_header(next_in_sequence: u32, message_type: MessageType) -> Seq<u8> {
    spec_u32_to_be_bytes(next_in_sequence) + spec_u16_to_be_bytes(
        spec_message_type_code(message_type),
    )
}

/// Build the header of a client message: sequence number and type code.
pub fn build_client_headers(next_in_sequence: u32, message_type: MessageType) -> (r: Vec<u8>)
    ensures
        r@ == spec_client_header(next_in_sequence, message_type),
{
    let mut r = u32_to_be_bytes(next_in_sequence);
    let mut code = u16_to_be_bytes(message_type_code(message_type));
    r.append(&mut code);
    r
}

/// Build a connection request: the header and the optional
/// authentication body.
pub fn build_connect_request(next_in_sequence: u32, body: Option<String>) -> (r: Vec<u8>)
    ensures
        r@ == spec_client_header(next_in_sequence, MessageType::ConnectRequest) + spec_body_bytes(
            body.deep_view(),
        ),
{
    let mut r = build_client_headers(next_in_sequence, MessageType::ConnectRequest);
    let mut b = crate::common_message_utils::build_message_body(body);
    r.append(&mut b);
    r
}

/// Build a join-lobby request: the header and the JSON body naming the
/// lobby.
pub fn build_join_lobby_request(next_in_sequence: u32, lobby_id: String) -> (r: Vec<u8>)
    ensures
        r@ == spec_client_header(next_in_sequence, MessageType::JoinLobbyRequest)
            + spec_body_bytes(Some(spec_join_lobby_json(lobby_id@))),
{
    let mut r = build_client_headers(next_in_sequence, MessageType::JoinLobbyRequest);
    let json = encode_join_lobby_json(lobby_id.as_str());
    let mut b = crate::common_message_utils::build_message_body(Some(json));
    r.append(&mut b);
    r
}

/// Build a create-lobby request: the header and the JSON body naming the
/// game type.
pub fn build_create_lobby_request(next_in_sequence: u32, game_type_id: String) -> (r: Vec<u8>)
    ensures
        r@ == spec_client_header(next_in_sequence, MessageType::CreateLobbyRequest)
            + spec_body_bytes(Some(spec_create_lobby_json(game_type_id@))),
{
    let mut r = build_client_headers(next_in_sequence, MessageType::CreateLobbyRequest);
    let json = encode_create_lobby_json(game_type_id.as_str());
    let mut b = crate::common_message_utils::build_message_body(Some(json));
    r.append(&mut b);
    r
}

/// Build a start-game request: the header and the JSON body naming the
/// lobby.
pub fn build_start_game_request(next_in_sequence: u32, lobby_id: String) -> (r: Vec<u8>)
    ensures
        r@ == spec_client_header(next_in_sequence, MessageType::StartGameRequest)
            + spec_body_bytes(Some(spec_start_game_json(lobby_id@))),
{
    let mut r = build_client_headers(next_in_sequence, MessageType::StartGameRequest);
    let json = encode_join_lobby_json(lobby_id.as_str());
    let mut b = crate::common_message_utils::build_message_body(Some(json));
    r.append(&mut b);
    r
}

/// Build a move request: the header and the game move's own tagged JSON
/// form as the body.
pub fn build_move_request<M: GameMove>(next_in_sequence: u32, game_move: &M) -> (r: Vec<u8>)
    ensures
        r@ == spec_client_header(next_in_sequence, MessageType::MoveRequest) + spec_body_bytes(
            Some(game_move.spec_json()),
        ),
        r@.len() >= 6,
        r@.subrange(0, 6) == spec_client_header(next_in_sequence, MessageType::MoveRequest),
{
    let mut r = build_client_headers(next_in_sequence, MessageType::MoveRequest);
    let json = game_move.to_json();
    let mut b = crate::common_message_utils::build_message_body(Some(json));
    r.append(&mut b);
    proof {
        assert(r@.subrange(0, 6) =~= spec_client_header(
            next_in_sequence,
            MessageType::MoveRequest,
        ));
    }
    r
}

/// Parse a connect response body: the framed payload, then the JSON
/// carrying the assigned client id.
pub fn parse_connect_response(raw_message: &[u8]) -> (r: Result<ConnectResponse, ServerError>)
    ensures
        r matches Ok(v) ==> (spec_decode_payload(raw_message@) matches Ok(p) && p
            == spec_connect_response_json(v.client_id@)),
        spec_decode_payload(raw_message@) matches Err(e) ==> r == Err::<
            ConnectResponse,
            ServerError,
        >(e),
        (spec_decode_payload(raw_message@) matches Ok(p) && (forall|v: Seq<char>|
            p != spec_connect_response_json(v))) ==> r == Err::<ConnectResponse, ServerError>(
            ServerError::DeserializeError,
        ),
        r is Err ==> (spec_decode_payload(raw_message@) is Err || (spec_decode_payload(
            raw_message@,
        ) matches Ok(p) && (forall|v: Seq<char>| p != spec_connect_response_json(v)))),
{
    match crate::common_message_utils::parse_message_payload(raw_message) {
        Ok(payload) => match parse_connect_response_json(payload.as_str()) {
            Some(client_id) => Ok(ConnectResponse { client_id }),
            None => Err(ServerError::DeserializeError),
        },
        Err(e) => Err(e),
    }
}

/// Parse a lobby-list response body.
pub fn parse_lobby_list_response(raw_message: &[u8]) -> (r: Result<LobbyListResponse, ServerError>)
    ensures
        r matches Ok(v) ==> (spec_decode_payload(raw_message@) matches Ok(p) && p
            == spec_lobby_list_json(v.lobbies@.map_values(|l: Lobby| l@))),
        spec_decode_payload(raw_message@) matches Err(e) ==> r == Err::<
            LobbyListResponse,
            ServerError,
        >(e),
{
    match crate::common_message_utils::parse_message_payload(raw_message) {
        Ok(payload) => match parse_lobby_list_json(payload.as_str()) {
            Some(lobbies) => Ok(LobbyListResponse { lobbies }),
            None => Err(ServerError::DeserializeError),
        },
        Err(e) => Err(e),
    }
}

/// Parse a lobby-info response body.
pub fn parse_lobby_info_response(raw_message: &[u8]) -> (r: Result<LobbyInfoResponse, ServerError>)
    ensures
        r matches Ok(v) ==> (spec_decode_payload(raw_message@) matches Ok(p) && p
            == spec_lobby_info_json(v.lobby@)),
        spec_decode_payload(raw_message@) matches Err(e) ==> r == Err::<
            LobbyInfoResponse,
            ServerError,
        >(e),
{
    match crate::common_message_utils::parse_message_payload(raw_message) {
        Ok(payload) => match parse_lobby_info_json(payload.as_str()) {
            Some(lobby) => Ok(LobbyInfoResponse { lobby }),
            None => Err(ServerError::DeserializeError),
        },
        Err(e) => Err(e),
    }
}

/// Parse a supported-games response body.
pub fn parse_supported_games_response(raw_message: &[u8]) -> (r: Result<
    SupportedGamesResponse,
    ServerError,
>)
    ensures
        r matches Ok(v) ==> (spec_decode_payload(raw_message@) matches Ok(p) && p
            == spec_supported_games_json(v.games.deep_view())),
        spec_decode_payload(raw_message@) matches Err(e) ==> r == Err::<
            SupportedGamesResponse,
            ServerError,
        >(e),
        (spec_decode_payload(raw_message@) matches Ok(p) && (forall|a: Seq<Seq<char>>|
            p != spec_supported_games_json(a))) ==> r == Err::<
            SupportedGamesResponse,
            ServerError,
        >(ServerError::DeserializeError),
        r is Err ==> (spec_decode_payload(raw_message@) is Err || (spec_decode_payload(
            raw_message@,
        ) matches Ok(p) && (forall|a: Seq<Seq<char>>| p != spec_supported_games_json(a)))),
{
    match crate::common_message_utils::parse_message_payload(raw_message) {
        Ok(payload) => match parse_supported_games_json(payload.as_str()) {
            Some(games) => Ok(SupportedGamesResponse { games }),
            None => Err(ServerError::DeserializeError),
        },
        Err(e) => Err(e),
    }
}

/// Parse a game-state response body into the game's own state type.
pub fn parse_game_state_response<St: GameState>(raw_message: &[u8]) -> (r: Result<
    St,
    ServerError,
>)
    ensures
        spec_decode_payload(raw_message@) matches Err(e) ==> r == Err::<St, ServerError>(e),
{
    match crate::common_message_utils::parse_message_payload(raw_message) {
        Ok(payload) => St::from_json(payload.as_str()),
        Err(e) => Err(e),
    }
}

/// Parse a missing-message response body.
pub fn parse_missing_message_response(raw_message: &[u8]) -> (r: Result<
    MissingMessageResponse,
    ServerError,
>)
    ensures
        r matches Ok(v) ==> (spec_decode_payload(raw_message@) matches Ok(p) && p
            == spec_missing_json(v.missing_message_ids@.map_values(|x: u32| x as int))),
        spec_decode_payload(raw_message@) matches Err(e) ==> r == Err::<
            MissingMessageResponse,
            ServerError,
        >(e),
        (spec_decode_payload(raw_message@) matches Ok(p) && (forall|a: Seq<int>|
            !((forall|k: int| 0 <= k < a.len() ==> 0 <= #[trigger] a[k] <= u32::MAX) && p
                == spec_missing_json(a)))) ==> r == Err::<MissingMessageResponse, ServerError>(
            ServerError::DeserializeError,
        ),
        r is Err ==> (spec_decode_payload(raw_message@) is Err || (spec_decode_payload(
            raw_message@,
        ) matches Ok(p) && (forall|a: Seq<int>|
            !((forall|k: int| 0 <= k < a.len() ==> 0 <= #[trigger] a[k] <= u32::MAX) && p
                == spec_missing_json(a))))),
{
    match crate::common_message_utils::parse_message_payload(raw_message) {
        Ok(payload) => match parse_missing_json(payload.as_str()) {
            Some(missing_message_ids) => Ok(MissingMessageResponse { missing_message_ids }),
            None => Err(ServerError::DeserializeError),
        },
        Err(e) => Err(e),
    }
}

/// Parse an unsolicited message body.
pub fn parse_unsolicited_message(raw_message: &[u8]) -> (r: Result<UnsolicitedMessage, ServerError>)
    ensures
        r matches Ok(v) ==> (spec_decode_payload(raw_message@) matches Ok(p) && p
            == spec_unsolicited_json(v.message@)),
        spec_decode_payload(raw_message@) matches Err(e) ==> r == Err::<
            UnsolicitedMessage,
            ServerError,
        >(e),
        (spec_decode_payload(raw_message@) matches Ok(p) && (forall|v: Seq<char>|
            p != spec_unsolicited_json(v))) ==> r == Err::<UnsolicitedMessage, ServerError>(
            ServerError::DeserializeError,
        ),
        r is Err ==> (spec_decode_payload(raw_message@) is Err || (spec_decode_payload(
            raw_message@,
        ) matches Ok(p) && (forall|v: Seq<char>| p != spec_unsolicited_json(v)))),
{
    match crate::common_message_utils::parse_message_payload(raw_message) {
        Ok(payload) => match parse_unsolicited_json(payload.as_str()) {
            Some(message) => Ok(UnsolicitedMessage { message }),
            None => Err(ServerError::DeserializeError),
        },
        Err(e) => Err(e),
    }
}

/// Parse a server message header, returning the status code, the message
/// type, and the remaining bytes.
pub fn parse_server_message_header<'a>(raw_message: &'a [u8]) -> (r: (
    StatusCode,
    MessageType,
    &'a [u8],
))
    requires
        raw_message@.len() >= 4,
    ensures
        r.0 == spec_status_of_code(spec_u16_from_be_bytes(raw_message@.subrange(0, 2))),
        r.1 == spec_message_type_of_code(spec_u16_from_be_bytes(raw_message@.subrange(2, 4))),
        r.2@ == raw_message@.subrange(4, raw_message@.len() as int),
{
    let (status_code, remainder) = parse_status_code(raw_message);
    let (message_type, remainder2) = parse_message_type(remainder);
    proof {
        assert(remainder@.subrange(0, 2) =~= raw_message@.subrange(2, 4));
        assert(remainder@.subrange(2, remainder@.len() as int) =~= raw_message@.subrange(
            4,
            raw_message@.len() as int,
        ));
    }
    (status_code, message_type, remainder2)
}

} // verus!
