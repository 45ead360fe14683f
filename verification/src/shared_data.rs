//! Data shared between client and server: the lobby, the request and
//! response payload types, and the pluggable connection authentication
//! hook.

use vstd::prelude::*;

use crate::game_module::{GameMetadata, GameMetadataView};

verus! {

/// A pre-game grouping of clients intending to play one game session
/// together.
#[derive(Debug)]
pub struct Lobby {
    pub id: String,
    pub owner: String,
    pub player_ids: Vec<String>,
    pub game_started: bool,
    pub game_metadata: GameMetadata,
}

/// Mathematical model of [`Lobby`].
pub struct LobbyView {
    pub id: Seq<char>,
    pub owner: Seq<char>,
    pub player_ids: Seq<Seq<char>>,
    pub game_started: bool,
    pub game_metadata: GameMetadataView,
}

impl View for Lobby {
    type V = LobbyView;

    open spec fn view(&self) -> LobbyView {
        LobbyView {
            id: self.id@,
            owner: self.owner@,
            player_ids: self.player_ids.deep_view(),
            game_started: self.game_started,
            game_metadata: self.game_metadata@,
        }
    }
}

impl LobbyView {
    /// A well-formed lobby: players unique and within the game's
    /// maximum, the owner among the players whenever any player remains.
    pub open spec fn wf(self) -> bool {
        &&& self.player_ids.len() <= self.game_metadata.max_players
        &&& (self.player_ids.len() > 0 ==> self.player_ids.contains(self.owner))
        &&& (forall|i: int, j: int|
            0 <= i < j < self.player_ids.len() ==> self.player_ids[i] != self.player_ids[j])
    }
}

impl Clone for Lobby {
    fn clone(&self) -> (r: Self)
        ensures
            r@ == self@,
    {
        let r = Lobby {
            id: self.id.clone(),
            owner: self.owner.clone(),
            player_ids: self.player_ids.clone(),
            game_started: self.game_started,
            game_metadata: self.game_metadata.clone(),
        };
        proof {
            assert(r.player_ids.deep_view() =~= self.player_ids.deep_view());
        }
        r
    }
}

impl Lobby {
    /// Whether the lobby holds as many players as the game allows.
    pub fn is_full(&self) -> (r: bool)
        ensures
            r == (self@.player_ids.len() >= self@.game_metadata.max_players),
    {
        self.player_ids.len() >= self.game_metadata.max_players
    }

    /// A copy of the lobby's game metadata.
    pub fn clone_metadata(&self) -> (m: GameMetadata)
        ensures
            m@ == self@.game_metadata,
    {
        self.game_metadata.clone()
    }
}

/// Hook deciding whether a connection request is authenticated; a
/// deployment extends the request with its own data by implementing this
/// trait.
pub trait ConnectRequestAuth {
    /// Whether the data within authenticates the user.
    spec fn spec_authenticated(&self) -> bool;

    /// Decide authentication from the data within.
    fn authenticate(&self) -> (r: bool)
        ensures
            r == self.spec_authenticated(),
    ;
}

/// The default hook: every connection request is authenticated.
pub struct NoAuth {}

impl ConnectRequestAuth for NoAuth {
    open spec fn spec_authenticated(&self) -> bool {
        true
    }

    fn authenticate(&self) -> (r: bool)
        ensures
            r == self.spec_authenticated(),
    {
        true
    }
}

/// The data of a connection request, carrying the authentication data.
pub struct ConnectRequest<T> where T: ConnectRequestAuth {
    auth_data: T,
}

impl<T> ConnectRequest<T> where T: ConnectRequestAuth {
    /// The authentication data carried by the request.
    pub closed spec fn spec_auth_data(&self) -> T {
        self.auth_data
    }

    /// Wrap authentication data in a connection request.
    pub fn new(auth_data: T) -> (r: Self)
        ensures
            r.spec_auth_data() == auth_data,
    {
        Self { auth_data }
    }

    /// Whether the request's data authenticates the user.
    pub fn authenticate(&self) -> (r: bool)
        ensures
            r == self.spec_auth_data().spec_authenticated(),
    {
        self.auth_data.authenticate()
    }
}

/// Payload of a successful connection reply: the assigned client id.
#[derive(Debug)]
pub struct ConnectResponse {
    pub client_id: String,
}

/// Payload listing the sequence numbers the server found missing.
#[derive(Debug)]
pub struct MissingMessageResponse {
    pub missing_message_ids: Vec<u32>,
}

/// Payload of a free-form server notice.
#[derive(Debug)]
pub struct UnsolicitedMessage {
    pub message: String,
}

/// Payload asking to join a lobby.
#[derive(Debug)]
pub struct JoinLobbyRequest {
    pub lobby_id: String,
}

/// Payload carrying the full current lobby list.
#[derive(Debug)]
pub struct LobbyListResponse {
    pub lobbies: Vec<Lobby>,
}

/// Payload listing the game type ids the server supports.
#[derive(Debug)]
pub struct SupportedGamesResponse {
    pub games: Vec<String>,
}

/// Payload asking to create a lobby for a game type.
#[derive(Debug)]
pub struct CreateLobbyRequest {
    pub game_type_id: String,
}

/// Payload asking to start the game of a lobby.
#[derive(Debug)]
pub struct StartGameRequest {
    pub lobby_id: String,
}

/// Payload carrying one lobby snapshot.
#[derive(Debug)]
pub struct LobbyInfoResponse {
    pub lobby: Lobby,
}

} // verus!
