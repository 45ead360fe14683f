//! The client-side session handler: the per-connection state machine
//! driving requests and reacting to server pushes. Each request
//! operation records the previous protocol state, moves to the pending
//! state, and returns the encoded frame to send with the current
//! sequence number; each inbound message settles or reverts the state
//! and refreshes the local snapshots. The transport around it owns the
//! socket and threads.

use vstd::prelude::*;

use crate::client_message_utils::{
    build_client_headers, build_connect_request, build_create_lobby_request,
    build_join_lobby_request, build_move_request, build_start_game_request, parse_connect_response,
    parse_game_state_response, parse_lobby_info_response, parse_lobby_list_response,
    parse_supported_games_response, parse_server_message_header, spec_client_header,
};
use crate::byte_order::spec_u16_from_be_bytes;
use crate::common_message_utils::{spec_body_bytes, spec_decode_payload};
use crate::enums::{
    spec_message_type_of_code, spec_status_of_code, ConnectionStatus, MessageType, ProtocolState,
    StatusCode,
};
use crate::game_module::{GameModule, GameState};
use crate::payloads::{
    spec_connect_response_json, spec_create_lobby_json, spec_join_lobby_json,
    spec_lobby_info_json, spec_lobby_list_json, spec_start_game_json, spec_supported_games_json,
};
use crate::server::{
    game_key_at, game_key_index_of, has_game_key, spec_wrap_inc, wrap_inc,
};
use crate::shared_data::Lobby;

verus! {

broadcast use vstd::seq::group_seq_axioms;

/// Coarse per-connection state: its status and the address it points at.
#[derive(Debug)]
pub struct GameProtocolState {
    pub connection_status: ConnectionStatus,
    pub ip: String,
    pub port: String,
}

/// The games supported by both peers, computed by walking the server's
/// list and keeping each key some local template carries, paired with
/// that template's title.
pub open spec fn matching_of<S: GameModule>(local: Seq<S>, server: Seq<Seq<char>>) -> Seq<
    (Seq<char>, Seq<char>),
>
    decreases server.len(),
{
    if server.len() == 0 {
        Seq::<(Seq<char>, Seq<char>)>::empty()
    } else {
        let rest = matching_of(local, server.drop_first());
        if has_game_key(local, server[0]) {
            seq![
                (
                    local[game_key_index_of(local, server[0])].spec_metadata().game_title,
                    server[0],
                ),
            ] + rest
        } else {
            rest
        }
    }
}

/// Walking one more server entry appends its match, if any.
proof fn lemma_matching_snoc<S: GameModule>(local: Seq<S>, server: Seq<Seq<char>>, x: Seq<char>)
    ensures
        matching_of(local, server.push(x)) == if has_game_key(local, x) {
            matching_of(local, server) + seq![
                (local[game_key_index_of(local, x)].spec_metadata().game_title, x),
            ]
        } else {
            matching_of(local, server)
        },
    decreases server.len(),
{
    if server.len() == 0 {
        assert(server.push(x) =~= seq![x]);
        assert(seq![x].drop_first() =~= Seq::<Seq<char>>::empty());
        assert(server =~= Seq::<Seq<char>>::empty());
        assert(matching_of(local, Seq::<Seq<char>>::empty()) =~= Seq::<
            (Seq<char>, Seq<char>),
        >::empty());
        if has_game_key(local, x) {
            assert(matching_of(local, server.push(x)) =~~= matching_of(local, server) + seq![
                (local[game_key_index_of(local, x)].spec_metadata().game_title, x),
            ]);
        } else {
            assert(matching_of(local, server.push(x)) =~~= matching_of(local, server));
        }
    } else {
        assert(server.push(x).drop_first() =~= server.drop_first().push(x));
        lemma_matching_snoc(local, server.drop_first(), x);
        assert(server.push(x)[0] == server[0]);
        if has_game_key(local, x) {
            assert(matching_of(local, server.push(x)) =~~= matching_of(local, server) + seq![
                (local[game_key_index_of(local, x)].spec_metadata().game_title, x),
            ]);
        } else {
            assert(matching_of(local, server.push(x)) =~~= matching_of(local, server));
        }
    }
}

/// The client session handler's local state: the protocol state and the
/// one recorded before the pending request, the outgoing sequence
/// counter, the assigned id, and the eventually-consistent snapshots the
/// server's replies refresh. None of it is authoritative.
pub struct GameProtocolClient<S: GameModule> {
    /// The current protocol state.
    pub protocol_state: ProtocolState,
    /// The state recorded before the pending request, restored on a
    /// protocol error.
    pub previous_protocol_state: ProtocolState,
    /// The sequence number the next request carries.
    pub next_message_num: u32,
    /// The server-assigned client id; empty until connected.
    pub client_id: String,
    /// The last lobby snapshot received.
    pub current_lobby: Option<Lobby>,
    /// The last lobby list received.
    pub lobbies: Vec<Lobby>,
    /// The locally registered game module templates.
    pub supported_games: Vec<S>,
    /// Title and key of each game both peers support.
    pub matching_supported_games: Vec<(String, String)>,
    /// The live game session, adopted from server pushes.
    pub game_in_progress: Option<S>,
}

impl<S: GameModule> GameProtocolClient<S> {
    /// Locally registered template keys are unique.
    pub open spec fn wf(self) -> bool {
        forall|i: int, j: int|
            0 <= i < j < self.supported_games@.len() ==> game_key_at(self.supported_games@, i)
                != game_key_at(self.supported_games@, j)
    }

    /// Everything but the protocol states and the sequence counter is
    /// unchanged.
    pub open spec fn same_snapshots(self, other: Self) -> bool {
        &&& self.client_id@ == other.client_id@
        &&& self.current_lobby == other.current_lobby
        &&& self.lobbies@ == other.lobbies@
        &&& self.supported_games@ == other.supported_games@
        &&& self.matching_supported_games@ == other.matching_supported_games@
        &&& self.game_in_progress == other.game_in_progress
    }

    /// A fresh handler: closed, nothing cached, sequence number zero.
    pub fn new() -> (r: Self)
        ensures
            r.wf(),
            r.protocol_state == ProtocolState::Closed,
            r.previous_protocol_state == ProtocolState::Closed,
            r.next_message_num == 0,
            r.client_id@.len() == 0,
            r.current_lobby is None,
            r.lobbies@.len() == 0,
            r.supported_games@.len() == 0,
            r.matching_supported_games@.len() == 0,
            r.game_in_progress is None,
    {
        GameProtocolClient {
            protocol_state: ProtocolState::Closed,
            previous_protocol_state: ProtocolState::Closed,
            next_message_num: 0,
            client_id: String::new(),
            current_lobby: None,
            lobbies: Vec::new(),
            supported_games: Vec::new(),
            matching_supported_games: Vec::new(),
            game_in_progress: None,
        }
    }

    /// The current protocol state.
    pub fn get_protocol_state(&self) -> (r: ProtocolState)
        ensures
            r == self.protocol_state,
    {
        self.protocol_state
    }

    /// The assigned client id.
    pub fn get_client_id(&self) -> (r: String)
        ensures
            r@ == self.client_id@,
    {
        self.client_id.clone()
    }

    /// The games supported by both peers, as title and key pairs.
    pub fn get_supported_games(&self) -> (r: Vec<(String, String)>)
        ensures
            r@.len() == self.matching_supported_games@.len(),
            forall|i: int|
                0 <= i < r@.len() ==> (#[trigger] r@[i]).0@ == self.matching_supported_games@[
                    i
                ].0@ && r@[i].1@ == self.matching_supported_games@[i].1@,
    {
        let mut r: Vec<(String, String)> = Vec::new();
        let mut i: usize = 0;
        while i < self.matching_supported_games.len()
            invariant
                i <= self.matching_supported_games@.len(),
                r@.len() == i,
                forall|k: int|
                    0 <= k < i ==> (#[trigger] r@[k]).0@ == self.matching_supported_games@[k].0@
                        && r@[k].1@ == self.matching_supported_games@[k].1@,
            decreases self.matching_supported_games@.len() - i,
        {
            let pair = (
                self.matching_supported_games[i].0.clone(),
                self.matching_supported_games[i].1.clone(),
            );
            r.push(pair);
            i += 1;
        }
        r
    }

    /// The last lobby list received.
    pub fn get_lobby_list(&self) -> (r: Vec<Lobby>)
        ensures
            r@.len() == self.lobbies@.len(),
            forall|i: int| 0 <= i < r@.len() ==> (#[trigger] r@[i])@ == self.lobbies@[i]@,
    {
        let mut r: Vec<Lobby> = Vec::new();
        let mut i: usize = 0;
        while i < self.lobbies.len()
            invariant
                i <= self.lobbies@.len(),
                r@.len() == i,
                forall|k: int| 0 <= k < i ==> (#[trigger] r@[k])@ == self.lobbies@[k]@,
            decreases self.lobbies@.len() - i,
        {
            r.push(self.lobbies[i].clone());
            i += 1;
        }
        r
    }

    /// The last lobby snapshot received.
    pub fn get_current_lobby(&self) -> (r: Option<Lobby>)
        ensures
            r is Some <==> self.current_lobby is Some,
            r matches Some(l) ==> (self.current_lobby matches Some(c) && l@ == c@),
    {
        match &self.current_lobby {
            Some(l) => Some(l.clone()),
            None => None,
        }
    }

    /// The live game's state.
    pub fn get_game_state(&self) -> (r: Option<S::State>)
        ensures
            r is Some <==> self.game_in_progress is Some,
            r matches Some(st) ==> (self.game_in_progress matches Some(g) && st@
                == g.spec_state()@),
    {
        match &self.game_in_progress {
            Some(game) => Some(game.get_game_state().duplicate()),
            None => None,
        }
    }

    /// Whether the live game has ended, and who won.
    pub fn get_game_end_result(&self) -> (r: Option<(bool, Option<String>)>)
        ensures
            r is Some <==> self.game_in_progress is Some,
            r matches Some(p) ==> (self.game_in_progress matches Some(g) && p.0
                == g.spec_ended()),
    {
        match &self.game_in_progress {
            Some(game) => Some(game.end_condition_met()),
            None => None,
        }
    }

    /// Register a game template, so that pushed game states can be
    /// interpreted. A template whose key is already registered replaces
    /// the old one.
    pub fn register_game(&mut self, game: S)
        requires
            old(self).wf(),
        ensures
            final(self).wf(),
            final(self).has_local_template(
                crate::game_module::spec_game_type_id(
                    game.spec_metadata().game_title,
                    game.spec_metadata().version,
                ),
            ),
    {
        let key = game.get_metadata().get_game_type_id();
        match self.find_local_template(&key) {
            Some(i) => {
                self.supported_games[i] = game;
                proof {
                    assert forall|k: int|
                        0 <= k < self.supported_games@.len() implies #[trigger] game_key_at(
                        self.supported_games@,
                        k,
                    ) == game_key_at(old(self).supported_games@, k) by {
                        if k != i as int {
                            assert(self.supported_games@[k] == old(self).supported_games@[k]);
                        }
                    }
                    assert(game_key_at(self.supported_games@, i as int) == key@);
                }
            },
            None => {
                self.supported_games.push(game);
                proof {
                    let n = self.supported_games@.len() - 1;
                    assert forall|k: int|
                        0 <= k < n implies #[trigger] game_key_at(self.supported_games@, k)
                        == game_key_at(old(self).supported_games@, k) by {
                        assert(self.supported_games@[k] == old(self).supported_games@[k]);
                    }
                    assert(game_key_at(self.supported_games@, n) == key@);
                    assert forall|i: int, j: int|
                        0 <= i < j < self.supported_games@.len() implies game_key_at(
                        self.supported_games@,
                        i,
                    ) != game_key_at(self.supported_games@, j) by {
                        if j == n {
                            if game_key_at(self.supported_games@, i) == key@ {
                                assert(has_game_key(old(self).supported_games@, key@));
                            }
                        } else {
                            assert(game_key_at(old(self).supported_games@, i) != game_key_at(
                                old(self).supported_games@,
                                j,
                            ));
                        }
                    }
                }
            },
        }
    }

    /// Whether a local template carries the key.
    pub open spec fn has_local_template(self, key: Seq<char>) -> bool {
        has_game_key(self.supported_games@, key)
    }

    /// Find the index of the local template with the key.
    fn find_local_template(&self, game_type_id: &String) -> (r: Option<usize>)
        ensures
            match r {
                Some(i) => i < self.supported_games@.len() && game_key_at(
                    self.supported_games@,
                    i as int,
                ) == game_type_id@,
                None => !has_game_key(self.supported_games@, game_type_id@),
            },
    {
        let mut i: usize = 0;
        while i < self.supported_games.len()
            invariant
                i <= self.supported_games@.len(),
                forall|k: int|
                    0 <= k < i ==> #[trigger] game_key_at(self.supported_games@, k)
                        != game_type_id@,
            decreases self.supported_games@.len() - i,
        {
            let key = self.supported_games[i].get_metadata().get_game_type_id();
            if key == *game_type_id {
                return Some(i);
            }
            i += 1;
        }
        None
    }

    /// Record the pending state and claim the next sequence number,
    /// wrapping at the largest value.
    fn begin_request(&mut self, pending: ProtocolState) -> (seq_num: u32)
        ensures
            final(self).previous_protocol_state == old(self).protocol_state,
            final(self).protocol_state == pending,
            final(self).next_message_num == spec_wrap_inc(old(self).next_message_num),
            seq_num == old(self).next_message_num,
            final(self).same_snapshots(*old(self)),
            final(self).supported_games@ == old(self).supported_games@,
    {
        self.previous_protocol_state = self.protocol_state;
        self.protocol_state = pending;
        let seq_num = self.next_message_num;
        self.next_message_num = wrap_inc(seq_num);
        seq_num
    }

    /// Begin connecting: move to `Authenticating` and build the
    /// connection request. The transport sends it after opening the
    /// socket.
    pub fn connect(&mut self) -> (r: Vec<u8>)
        ensures
            final(self).previous_protocol_state == old(self).protocol_state,
            final(self).protocol_state == ProtocolState::Authenticating,
            final(self).next_message_num == spec_wrap_inc(old(self).next_message_num),
            final(self).same_snapshots(*old(self)),
            r@ == spec_client_header(old(self).next_message_num, MessageType::ConnectRequest)
                + spec_body_bytes(None),
    {
        let seq_num = self.begin_request(ProtocolState::Authenticating);
        build_connect_request(seq_num, None)
    }

    /// Begin disconnecting: move to `ClosingConnection` and build the
    /// disconnect request.
    pub fn disconnect(&mut self) -> (r: Vec<u8>)
        ensures
            final(self).previous_protocol_state == old(self).protocol_state,
            final(self).protocol_state == ProtocolState::ClosingConnection,
            final(self).next_message_num == spec_wrap_inc(old(self).next_message_num),
            final(self).same_snapshots(*old(self)),
            r@ == spec_client_header(old(self).next_message_num, MessageType::DisconnectRequest),
    {
        let seq_num = self.begin_request(ProtocolState::ClosingConnection);
        build_client_headers(seq_num, MessageType::DisconnectRequest)
    }

    /// Ask for the lobby list: move to `GettingLobbies` and build the
    /// request.
    pub fn request_lobby_list(&mut self) -> (r: Vec<u8>)
        ensures
            final(self).previous_protocol_state == old(self).protocol_state,
            final(self).protocol_state == ProtocolState::GettingLobbies,
            final(self).next_message_num == spec_wrap_inc(old(self).next_message_num),
            final(self).same_snapshots(*old(self)),
            r@ == spec_client_header(old(self).next_message_num, MessageType::LobbyListRequest),
    {
        let seq_num = self.begin_request(ProtocolState::GettingLobbies);
        build_client_headers(seq_num, MessageType::LobbyListRequest)
    }

    /// Ask for the games the server supports: move to
    /// `GettingSupportedGames` and build the request.
    pub fn request_supported_games(&mut self) -> (r: Vec<u8>)
        ensures
            final(self).previous_protocol_state == old(self).protocol_state,
            final(self).protocol_state == ProtocolState::GettingSupportedGames,
            final(self).next_message_num == spec_wrap_inc(old(self).next_message_num),
            final(self).same_snapshots(*old(self)),
            r@ == spec_client_header(
                old(self).next_message_num,
                MessageType::SupportedGamesRequest,
            ),
    {
        let seq_num = self.begin_request(ProtocolState::GettingSupportedGames);
        build_client_headers(seq_num, MessageType::SupportedGamesRequest)
    }

    /// Ask for the current lobby snapshot: move to `GettingLobbyInfo` and
    /// build the request.
    pub fn refresh_current_lobby(&mut self) -> (r: Vec<u8>)
        ensures
            final(self).previous_protocol_state == old(self).protocol_state,
            final(self).protocol_state == ProtocolState::GettingLobbyInfo,
            final(self).next_message_num == spec_wrap_inc(old(self).next_message_num),
            final(self).same_snapshots(*old(self)),
            r@ == spec_client_header(old(self).next_message_num, MessageType::LobbyInfoRequest),
    {
        let seq_num = self.begin_request(ProtocolState::GettingLobbyInfo);
        build_client_headers(seq_num, MessageType::LobbyInfoRequest)
    }

    /// Ask to create a lobby: move to `CreatingLobby` and build the
    /// request.
    pub fn create_lobby(&mut self, game_type_id: &str) -> (r: Vec<u8>)
        ensures
            final(self).previous_protocol_state == old(self).protocol_state,
            final(self).protocol_state == ProtocolState::CreatingLobby,
            final(self).next_message_num == spec_wrap_inc(old(self).next_message_num),
            final(self).same_snapshots(*old(self)),
            r@ == spec_client_header(old(self).next_message_num, MessageType::CreateLobbyRequest)
                + spec_body_bytes(Some(spec_create_lobby_json(game_type_id@))),
    {
        let seq_num = self.begin_request(ProtocolState::CreatingLobby);
        build_create_lobby_request(seq_num, game_type_id.to_owned())
    }

    /// Ask to join a lobby: move to `JoiningLobby` and build the request.
    pub fn join_lobby(&mut self, lobby_id: &str) -> (r: Vec<u8>)
        ensures
            final(self).previous_protocol_state == old(self).protocol_state,
            final(self).protocol_state == ProtocolState::JoiningLobby,
            final(self).next_message_num == spec_wrap_inc(old(self).next_message_num),
            final(self).same_snapshots(*old(self)),
            r@ == spec_client_header(old(self).next_message_num, MessageType::JoinLobbyRequest)
                + spec_body_bytes(Some(spec_join_lobby_json(lobby_id@))),
    {
        let seq_num = self.begin_request(ProtocolState::JoiningLobby);
        build_join_lobby_request(seq_num, lobby_id.to_owned())
    }

    /// Ask to leave the lobby: move to `LeavingLobby` and build the
    /// request.
    pub fn leave_lobby(&mut self) -> (r: Vec<u8>)
        ensures
            final(self).previous_protocol_state == old(self).protocol_state,
            final(self).protocol_state == ProtocolState::LeavingLobby,
            final(self).next_message_num == spec_wrap_inc(old(self).next_message_num),
            final(self).same_snapshots(*old(self)),
            r@ == spec_client_header(old(self).next_message_num, MessageType::LeaveLobbyRequest),
    {
        let seq_num = self.begin_request(ProtocolState::LeavingLobby);
        build_client_headers(seq_num, MessageType::LeaveLobbyRequest)
    }

    /// Ask to start the game: move to `CreatingGameSession` and build the
    /// request.
    pub fn start_game(&mut self, lobby_id: &String) -> (r: Vec<u8>)
        ensures
            final(self).previous_protocol_state == old(self).protocol_state,
            final(self).protocol_state == ProtocolState::CreatingGameSession,
            final(self).next_message_num == spec_wrap_inc(old(self).next_message_num),
            final(self).same_snapshots(*old(self)),
            r@ == spec_client_header(old(self).next_message_num, MessageType::StartGameRequest)
                + spec_body_bytes(Some(spec_start_game_json(lobby_id@))),
    {
        let seq_num = self.begin_request(ProtocolState::CreatingGameSession);
        build_start_game_request(seq_num, lobby_id.clone())
    }

    /// Build a move request. The protocol state is left alone: the
    /// resulting game state arrives as a push.
    pub fn make_move(&mut self, game_move: &S::Move) -> (r: Vec<u8>)
        ensures
            final(self).protocol_state == old(self).protocol_state,
            final(self).previous_protocol_state == old(self).previous_protocol_state,
            final(self).next_message_num == spec_wrap_inc(old(self).next_message_num),
            final(self).same_snapshots(*old(self)),
            r@.len() >= 6,
            r@.subrange(0, 6) == spec_client_header(
                old(self).next_message_num,
                MessageType::MoveRequest,
            ),
    {
        let seq_num = self.next_message_num;
        self.next_message_num = wrap_inc(seq_num);
        build_move_request(seq_num, game_move)
    }

    /// Process one inbound server message: dispatch on its type, settle
    /// or revert the protocol state, and refresh the local snapshots. A
    /// message whose body cannot be decoded, or that arrives without the
    /// context it needs, is ignored and changes nothing.
    #[verifier::rlimit(100)]
    pub fn handle_server_message(&mut self, raw_message: &[u8])
        requires
            old(self).wf(),
            raw_message@.len() >= 4,
        ensures
            final(self).wf(),
            final(self).supported_games@ == old(self).supported_games@,
            ({
                let status = spec_status_of_code(
                    spec_u16_from_be_bytes(raw_message@.subrange(0, 2)),
                );
                let mtype = spec_message_type_of_code(
                    spec_u16_from_be_bytes(raw_message@.subrange(2, 4)),
                );
                let body = raw_message@.subrange(4, raw_message@.len() as int);
                &&& (status != StatusCode::Success && mtype != MessageType::GameStateResponse
                    && mtype != MessageType::ProtocolError ==> *final(self) == *old(self))
                &&& (mtype == MessageType::ConnectResponse && status == StatusCode::Success
                    ==> (forall|c: Seq<char>|
                    spec_decode_payload(body) == Ok::<Seq<char>, crate::enums::ServerError>(
                        spec_connect_response_json(c),
                    ) ==> final(self).client_id@ == c && final(self).protocol_state
                        == ProtocolState::Idle))
                &&& (mtype == MessageType::DisconnectResponse && status == StatusCode::Success
                    ==> final(self).protocol_state == ProtocolState::Closed && final(self).client_id@.len() == 0 && final(self).current_lobby is None && final(self).lobbies@.len() == 0 && final(self).matching_supported_games@.len() == 0 && final(self).next_message_num == 0)
                &&& (mtype == MessageType::LobbyListResponse && status == StatusCode::Success ==> (
                {
                    ||| *final(self) == *old(self)
                    ||| (final(self).protocol_state == ProtocolState::Idle && spec_decode_payload(
                        body,
                    ) == Ok::<Seq<char>, crate::enums::ServerError>(
                        spec_lobby_list_json(final(self).lobbies@.map_values(|l: Lobby| l@)),
                    ))
                }))
                &&& (mtype == MessageType::SupportedGamesResponse && status == StatusCode::Success
                    ==> ({
                    &&& ((exists|games: Seq<Seq<char>>|
                        spec_decode_payload(body) == Ok::<Seq<char>, crate::enums::ServerError>(
                            #[trigger] spec_supported_games_json(games),
                        )) ==> (final(self).protocol_state == ProtocolState::Idle && exists|
                        games: Seq<Seq<char>>,
                    |
                        spec_decode_payload(body) == Ok::<Seq<char>, crate::enums::ServerError>(
                            spec_supported_games_json(games),
                        ) && #[trigger] matching_of(old(self).supported_games@, games) == final(self).matching_supported_games@.map_values(
                            |p: (String, String)| (p.0@, p.1@),
                        )))
                    &&& (!(exists|games: Seq<Seq<char>>|
                        spec_decode_payload(body) == Ok::<Seq<char>, crate::enums::ServerError>(
                            #[trigger] spec_supported_games_json(games),
                        )) ==> *final(self) == *old(self))
                }))
                &&& (mtype == MessageType::LobbyInfoResponse && status == StatusCode::Success
                    ==> ({
                    ||| *final(self) == *old(self)
                    ||| (final(self).protocol_state == ProtocolState::InLobby && (final(self).current_lobby matches Some(l) && spec_decode_payload(body) == Ok::<
                        Seq<char>,
                        crate::enums::ServerError,
                    >(spec_lobby_info_json(l@))))
                }))
                &&& (mtype == MessageType::LeaveLobbyResponse && status == StatusCode::Success
                    ==> final(self).protocol_state == ProtocolState::Idle && final(self).current_lobby is None)
                &&& (mtype == MessageType::ProtocolError ==> final(self).protocol_state == old(
                    self,
                ).previous_protocol_state && final(self).same_snapshots(*old(self)) && final(self).next_message_num == old(self).next_message_num)
                &&& (mtype == MessageType::GameStateResponse ==> ({
                    ||| *final(self) == *old(self)
                    ||| (final(self).protocol_state == ProtocolState::GameRunning && final(self).game_in_progress is Some)
                    ||| (final(self).protocol_state == old(self).protocol_state && old(
                        self,
                    ).game_in_progress is Some && final(self).game_in_progress is Some)
                }))
                &&& (mtype == MessageType::Unsupported || mtype == MessageType::ConnectRequest
                    || mtype == MessageType::DisconnectRequest
                    || mtype == MessageType::SupportedGamesRequest
                    || mtype == MessageType::LobbyListRequest
                    || mtype == MessageType::CreateLobbyRequest
                    || mtype == MessageType::JoinLobbyRequest
                    || mtype == MessageType::ReturnToLobbyRequest
                    || mtype == MessageType::LobbyInfoRequest
                    || mtype == MessageType::LeaveLobbyRequest
                    || mtype == MessageType::StartGameRequest || mtype == MessageType::MoveRequest
                    || mtype == MessageType::MissingMessageResponse
                    || mtype == MessageType::UnsolicitedMessage ==> *final(self) == *old(self))
            }),
    {
        let (status_code, message_type, remainder) = parse_server_message_header(raw_message);
        match message_type {
            MessageType::ConnectResponse => {
                if matches!(status_code, StatusCode::Success) {
                    match parse_connect_response(remainder) {
                        Ok(response) => {
                            self.client_id = response.client_id;
                            self.protocol_state = ProtocolState::Idle;
                            proof {
                                assert forall|c: Seq<char>|
                                    spec_decode_payload(remainder@) == Ok::<
                                        Seq<char>,
                                        crate::enums::ServerError,
                                    >(spec_connect_response_json(c)) implies self.client_id@
                                    == c by {
                                    crate::payloads::lemma_obj1_injective(
                                        crate::payloads::key_client_id(),
                                        c,
                                        self.client_id@,
                                    );
                                }
                            }
                        },
                        Err(_) => {},
                    }
                }
            },
            MessageType::DisconnectResponse => {
                if matches!(status_code, StatusCode::Success) {
                    self.protocol_state = ProtocolState::Closed;
                    self.current_lobby = None;
                    self.client_id = String::new();
                    self.lobbies = Vec::new();
                    self.matching_supported_games = Vec::new();
                    self.next_message_num = 0;
                }
            },
            MessageType::LobbyListResponse => {
                if matches!(status_code, StatusCode::Success) {
                    match parse_lobby_list_response(remainder) {
                        Ok(data) => {
                            self.protocol_state = ProtocolState::Idle;
                            self.lobbies = data.lobbies;
                        },
                        Err(_) => {},
                    }
                }
            },
            MessageType::SupportedGamesResponse => {
                if matches!(status_code, StatusCode::Success) {
                    match parse_supported_games_response(remainder) {
                        Ok(data) => {
                            let ghost games_model = data.games.deep_view();
                            let ghost local = self.supported_games@;
                            let mut matching_games: Vec<(String, String)> = Vec::new();
                            let mut k: usize = 0;
                            while k < data.games.len()
                                invariant
                                    self.wf(),
                                    local == self.supported_games@,
                                    games_model == data.games.deep_view(),
                                    games_model.len() == data.games@.len(),
                                    forall|w: int|
                                        0 <= w < games_model.len() ==> games_model[w] == (
                                        #[trigger] data.games@[w])@,
                                    k <= data.games@.len(),
                                    matching_games@.map_values(|p: (String, String)| (p.0@, p.1@))
                                        == matching_of(local, games_model.subrange(0, k as int)),
                                decreases data.games@.len() - k,
                            {
                                let ghost done = games_model.subrange(0, k as int);
                                match self.find_local_template(&data.games[k]) {
                                    Some(ti) => {
                                        let pair = (
                                            self.supported_games[ti].get_metadata()
                                                .game_title.clone(),
                                            data.games[k].clone(),
                                        );
                                        matching_games.push(pair);
                                        proof {
                                            // with unique keys the found index
                                            // is the one the lookup denotes
                                            let w = game_key_index_of(local, games_model[k as int]);
                                            assert(0 <= w < local.len() && game_key_at(local, w)
                                                == games_model[k as int]);
                                            if w < ti as int {
                                                assert(game_key_at(local, w) != game_key_at(
                                                    local,
                                                    ti as int,
                                                ));
                                            } else if (ti as int) < w {
                                                assert(game_key_at(local, ti as int)
                                                    != game_key_at(local, w));
                                            }
                                        }
                                    },
                                    None => {},
                                }
                                proof {
                                    lemma_matching_snoc(local, done, games_model[k as int]);
                                    assert(done.push(games_model[k as int]) =~= games_model
                                        .subrange(0, k + 1));
                                    assert(matching_games@.map_values(
                                        |p: (String, String)| (p.0@, p.1@),
                                    ) =~~= matching_of(local, games_model.subrange(0, k + 1)));
                                }
                                k += 1;
                            }
                            proof {
                                assert(games_model.subrange(0, games_model.len() as int)
                                    =~= games_model);
                                assert(matching_games@.map_values(
                                    |p: (String, String)| (p.0@, p.1@),
                                ) == matching_of(old(self).supported_games@, games_model));
                            }
                            self.protocol_state = ProtocolState::Idle;
                            self.matching_supported_games = matching_games;
                        },
                        Err(_) => {},
                    }
                }
            },
            MessageType::LobbyInfoResponse => {
                if matches!(status_code, StatusCode::Success) {
                    match parse_lobby_info_response(remainder) {
                        Ok(data) => {
                            self.protocol_state = ProtocolState::InLobby;
                            self.current_lobby = Some(data.lobby);
                        },
                        Err(_) => {},
                    }
                }
            },
            MessageType::LeaveLobbyResponse => {
                if matches!(status_code, StatusCode::Success) {
                    self.protocol_state = ProtocolState::Idle;
                    self.current_lobby = None;
                }
            },
            MessageType::GameStateResponse => {
                let game_type_id = match &self.current_lobby {
                    Some(lobby) => Some(lobby.game_metadata.get_game_type_id()),
                    None => None,
                };
                match game_type_id {
                    None => {},
                    Some(gt) => {
                        match parse_game_state_response::<S::State>(remainder) {
                            Err(_) => {},
                            Ok(new_state) => {
                                if matches!(self.protocol_state, ProtocolState::CreatingGameSession)
                                    || matches!(self.protocol_state, ProtocolState::InLobby) {
                                    match self.find_local_template(&gt) {
                                        None => {},
                                        Some(ti) => {
                                            let mut game = self.supported_games[ti].init_new();
                                            game.set_game_state(new_state);
                                            self.game_in_progress = Some(game);
                                            self.protocol_state = ProtocolState::GameRunning;
                                        },
                                    }
                                } else {
                                    match &mut self.game_in_progress {
                                        Some(game) => {
                                            game.set_game_state(new_state);
                                        },
                                        None => {},
                                    }
                                }
                            },
                        }
                    },
                }
            },
            MessageType::ProtocolError => {
                self.protocol_state = self.previous_protocol_state;
            },
            _ => {},
        }
    }

    /// Build a return-to-lobby request. The protocol state is left
    /// alone: the lobby snapshot arrives as the reply.
    pub fn return_to_lobby(&mut self) -> (r: Vec<u8>)
        ensures
            final(self).protocol_state == old(self).protocol_state,
            final(self).previous_protocol_state == old(self).previous_protocol_state,
            final(self).next_message_num == spec_wrap_inc(old(self).next_message_num),
            final(self).same_snapshots(*old(self)),
            r@ == spec_client_header(
                old(self).next_message_num,
                MessageType::ReturnToLobbyRequest,
            ),
    {
        let seq_num = self.next_message_num;
        self.next_message_num = wrap_inc(seq_num);
        build_client_headers(seq_num, MessageType::ReturnToLobbyRequest)
    }
}

} // verus!
