//! Closed enumerations of the protocol: message types, status codes,
//! client protocol states, decode errors, and the wire code table that
//! fixes a `u16` code for every message type and status code.

use vstd::prelude::*;

verus! {

/// Kinds of messages exchanged between client and server. The wire code
/// of each variant is given by [`message_type_code`]; unknown codes decode
/// to `Unsupported` so the protocol stays forward-compatible.
#[derive(Debug, Copy, Clone, Eq, PartialEq, Structural)]
pub enum MessageType {
    Unsupported,
    ProtocolError,
    ConnectRequest,
    ConnectResponse,
    DisconnectRequest,
    DisconnectResponse,
    SupportedGamesRequest,
    SupportedGamesResponse,
    LobbyListRequest,
    LobbyListResponse,
    CreateLobbyRequest,
    JoinLobbyRequest,
    ReturnToLobbyRequest,
    LobbyInfoRequest,
    LobbyInfoResponse,
    LeaveLobbyRequest,
    LeaveLobbyResponse,
    StartGameRequest,
    MoveRequest,
    GameStateResponse,
    MissingMessageResponse,
    UnsolicitedMessage,
}

/// Status of a server reply. The wire code of each variant is given by
/// [`status_code_value`]; unknown codes decode to `UnexpectedError`.
#[derive(Debug, Copy, Clone, Eq, PartialEq, Structural)]
pub enum StatusCode {
    UnexpectedError,
    Success,
    DataParseError,
    DataIntegrityError,
    MessageSequenceError,
    MalformedBody,
    UnsupportedRequestType,
    UnsupportedAuthMethod,
    UnsupportedGame,
    NoActiveSession,
    LobbyFull,
    AlreadyInALobby,
    GameStarted,
    NotInLobby,
    GameSessionNotFound,
    LobbyNotFound,
    GameStartCriteriaNotMet,
    GameOver,
    InvalidMove,
}

/// The client-observed protocol state. Requests set a pending state; a
/// success reply settles it, and a protocol error reverts to the state
/// recorded before the request.
#[derive(Debug, Copy, Clone, Eq, PartialEq, Structural)]
pub enum ProtocolState {
    Closed,
    Authenticating,
    Idle,
    ClosingConnection,
    GettingLobbies,
    GettingSupportedGames,
    CreatingLobby,
    JoiningLobby,
    InLobby,
    LeavingLobby,
    GettingLobbyInfo,
    CreatingGameSession,
    GameRunning,
    GettingGameState,
    LeavingGameSession,
}

/// Errors raised while decoding a message body.
#[derive(Debug, Copy, Clone, Eq, PartialEq, Structural)]
pub enum ServerError {
    ChecksumError,
    BodySizeError,
    BytesToStringError,
    DeserializeError,
}

/// Coarse connection status of a client session.
#[derive(Debug, Copy, Clone, Eq, PartialEq, Structural)]
pub enum ConnectionStatus {
    Disconnected,
    Connecting,
    Connected,
}

/// The wire code of a message type: the position of the variant in the
/// canonical table.
pub open spec fn spec_message_type_code(t: MessageType) -> u16 {
    match t {
        MessageType::Unsupported => 0,
        MessageType::ProtocolError => 1,
        MessageType::ConnectRequest => 2,
        MessageType::ConnectResponse => 3,
        MessageType::DisconnectRequest => 4,
        MessageType::DisconnectResponse => 5,
        MessageType::SupportedGamesRequest => 6,
        MessageType::SupportedGamesResponse => 7,
        MessageType::LobbyListRequest => 8,
        MessageType::LobbyListResponse => 9,
        MessageType::CreateLobbyRequest => 10,
        MessageType::JoinLobbyRequest => 11,
        MessageType::ReturnToLobbyRequest => 12,
        MessageType::LobbyInfoRequest => 13,
        MessageType::LobbyInfoResponse => 14,
        MessageType::LeaveLobbyRequest => 15,
        MessageType::LeaveLobbyResponse => 16,
        MessageType::StartGameRequest => 17,
        MessageType::MoveRequest => 18,
        MessageType::GameStateResponse => 19,
        MessageType::MissingMessageResponse => 20,
        MessageType::UnsolicitedMessage => 21,
    }
}

/// The message type denoted by a wire code; codes outside the table mean
/// `Unsupported`.
pub open spec fn spec_message_type_of_code(code: u16) -> MessageType {
    match code {
        0u16 => MessageType::Unsupported,
        1u16 => MessageType::ProtocolError,
        2u16 => MessageType::ConnectRequest,
        3u16 => MessageType::ConnectResponse,
        4u16 => MessageType::DisconnectRequest,
        5u16 => MessageType::DisconnectResponse,
        6u16 => MessageType::SupportedGamesRequest,
        7u16 => MessageType::SupportedGamesResponse,
        8u16 => MessageType::LobbyListRequest,
        9u16 => MessageType::LobbyListResponse,
        10u16 => MessageType::CreateLobbyRequest,
        11u16 => MessageType::JoinLobbyRequest,
        12u16 => MessageType::ReturnToLobbyRequest,
        13u16 => MessageType::LobbyInfoRequest,
        14u16 => MessageType::LobbyInfoResponse,
        15u16 => MessageType::LeaveLobbyRequest,
        16u16 => MessageType::LeaveLobbyResponse,
        17u16 => MessageType::StartGameRequest,
        18u16 => MessageType::MoveRequest,
        19u16 => MessageType::GameStateResponse,
        20u16 => MessageType::MissingMessageResponse,
        21u16 => MessageType::UnsolicitedMessage,
        _ => MessageType::Unsupported,
    }
}

/// The wire code of a status code: the position of the variant in the
/// canonical table.
pub open spec fn spec_status_code_value(s: StatusCode) -> u16 {
    match s {
        StatusCode::UnexpectedError => 0,
        StatusCode::Success => 1,
        StatusCode::DataParseError => 2,
        StatusCode::DataIntegrityError => 3,
        StatusCode::MessageSequenceError => 4,
        StatusCode::MalformedBody => 5,
        StatusCode::UnsupportedRequestType => 6,
        StatusCode::UnsupportedAuthMethod => 7,
        StatusCode::UnsupportedGame => 8,
        StatusCode::NoActiveSession => 9,
        StatusCode::LobbyFull => 10,
        StatusCode::AlreadyInALobby => 11,
        StatusCode::GameStarted => 12,
        StatusCode::NotInLobby => 13,
        StatusCode::GameSessionNotFound => 14,
        StatusCode::LobbyNotFound => 15,
        StatusCode::GameStartCriteriaNotMet => 16,
        StatusCode::GameOver => 17,
        StatusCode::InvalidMove => 18,
    }
}

/// The status denoted by a wire code; codes outside the table mean
/// `UnexpectedError`.
pub open spec fn spec_status_of_code(code: u16) -> StatusCode {
    match code {
        0u16 => StatusCode::UnexpectedError,
        1u16 => StatusCode::Success,
        2u16 => StatusCode::DataParseError,
        3u16 => StatusCode::DataIntegrityError,
        4u16 => StatusCode::MessageSequenceError,
        5u16 => StatusCode::MalformedBody,
        6u16 => StatusCode::UnsupportedRequestType,
        7u16 => StatusCode::UnsupportedAuthMethod,
        8u16 => StatusCode::UnsupportedGame,
        9u16 => StatusCode::NoActiveSession,
        10u16 => StatusCode::LobbyFull,
        11u16 => StatusCode::AlreadyInALobby,
        12u16 => StatusCode::GameStarted,
        13u16 => StatusCode::NotInLobby,
        14u16 => StatusCode::GameSessionNotFound,
        15u16 => StatusCode::LobbyNotFound,
        16u16 => StatusCode::GameStartCriteriaNotMet,
        17u16 => StatusCode::GameOver,
        18u16 => StatusCode::InvalidMove,
        _ => StatusCode::UnexpectedError,
    }
}

/// Wire code of a message type.
pub fn message_type_code(t: MessageType) -> (code: u16)
    ensures
        code == spec_message_type_code(t),
{
    match t {
        MessageType::Unsupported => 0,
        MessageType::ProtocolError => 1,
        MessageType::ConnectRequest => 2,
        MessageType::ConnectResponse => 3,
        MessageType::DisconnectRequest => 4,
        MessageType::DisconnectResponse => 5,
        MessageType::SupportedGamesRequest => 6,
        MessageType::SupportedGamesResponse => 7,
        MessageType::LobbyListRequest => 8,
        MessageType::LobbyListResponse => 9,
        MessageType::CreateLobbyRequest => 10,
        MessageType::JoinLobbyRequest => 11,
        MessageType::ReturnToLobbyRequest => 12,
        MessageType::LobbyInfoRequest => 13,
        MessageType::LobbyInfoResponse => 14,
        MessageType::LeaveLobbyRequest => 15,
        MessageType::LeaveLobbyResponse => 16,
        MessageType::StartGameRequest => 17,
        MessageType::MoveRequest => 18,
        MessageType::GameStateResponse => 19,
        MessageType::MissingMessageResponse => 20,
        MessageType::UnsolicitedMessage => 21,
    }
}

/// Message type denoted by a wire code; unknown codes decode to
/// `Unsupported`, never a failure.
pub fn message_type_of_code(code: u16) -> (t: MessageType)
    ensures
        t == spec_message_type_of_code(code),
{
    match code {
        0u16 => MessageType::Unsupported,
        1u16 => MessageType::ProtocolError,
        2u16 => MessageType::ConnectRequest,
        3u16 => MessageType::ConnectResponse,
        4u16 => MessageType::DisconnectRequest,
        5u16 => MessageType::DisconnectResponse,
        6u16 => MessageType::SupportedGamesRequest,
        7u16 => MessageType::SupportedGamesResponse,
        8u16 => MessageType::LobbyListRequest,
        9u16 => MessageType::LobbyListResponse,
        10u16 => MessageType::CreateLobbyRequest,
        11u16 => MessageType::JoinLobbyRequest,
        12u16 => MessageType::ReturnToLobbyRequest,
        13u16 => MessageType::LobbyInfoRequest,
        14u16 => MessageType::LobbyInfoResponse,
        15u16 => MessageType::LeaveLobbyRequest,
        16u16 => MessageType::LeaveLobbyResponse,
        17u16 => MessageType::StartGameRequest,
        18u16 => MessageType::MoveRequest,
        19u16 => MessageType::GameStateResponse,
        20u16 => MessageType::MissingMessageResponse,
        21u16 => MessageType::UnsolicitedMessage,
        _ => MessageType::Unsupported,
    }
}

/// Wire code of a status code.
pub fn status_code_value(s: StatusCode) -> (code: u16)
    ensures
        code == spec_status_code_value(s),
{
    match s {
        StatusCode::UnexpectedError => 0,
        StatusCode::Success => 1,
        StatusCode::DataParseError => 2,
        StatusCode::DataIntegrityError => 3,
        StatusCode::MessageSequenceError => 4,
        StatusCode::MalformedBody => 5,
        StatusCode::UnsupportedRequestType => 6,
        StatusCode::UnsupportedAuthMethod => 7,
        StatusCode::UnsupportedGame => 8,
        StatusCode::NoActiveSession => 9,
        StatusCode::LobbyFull => 10,
        StatusCode::AlreadyInALobby => 11,
        StatusCode::GameStarted => 12,
        StatusCode::NotInLobby => 13,
        StatusCode::GameSessionNotFound => 14,
        StatusCode::LobbyNotFound => 15,
        StatusCode::GameStartCriteriaNotMet => 16,
        StatusCode::GameOver => 17,
        StatusCode::InvalidMove => 18,
    }
}

/// Status denoted by a wire code; unknown codes decode to
/// `UnexpectedError`, never a failure.
pub fn status_of_code(code: u16) -> (s: StatusCode)
    ensures
        s == spec_status_of_code(code),
{
    match code {
        0u16 => StatusCode::UnexpectedError,
        1u16 => StatusCode::Success,
        2u16 => StatusCode::DataParseError,
        3u16 => StatusCode::DataIntegrityError,
        4u16 => StatusCode::MessageSequenceError,
        5u16 => StatusCode::MalformedBody,
        6u16 => StatusCode::UnsupportedRequestType,
        7u16 => StatusCode::UnsupportedAuthMethod,
        8u16 => StatusCode::UnsupportedGame,
        9u16 => StatusCode::NoActiveSession,
        10u16 => StatusCode::LobbyFull,
        11u16 => StatusCode::AlreadyInALobby,
        12u16 => StatusCode::GameStarted,
        13u16 => StatusCode::NotInLobby,
        14u16 => StatusCode::GameSessionNotFound,
        15u16 => StatusCode::LobbyNotFound,
        16u16 => StatusCode::GameStartCriteriaNotMet,
        17u16 => StatusCode::GameOver,
        18u16 => StatusCode::InvalidMove,
        _ => StatusCode::UnexpectedError,
    }
}

/// Every message type survives the trip through its wire code.
pub proof fn lemma_message_type_code_round_trip(t: MessageType)
    ensures
        spec_message_type_of_code(spec_message_type_code(t)) == t,
{
}

/// Every status code survives the trip through its wire value.
pub proof fn lemma_status_code_round_trip(s: StatusCode)
    ensures
        spec_status_of_code(spec_status_code_value(s)) == s,
{
}

} // verus!
