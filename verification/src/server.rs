//! The server-side session manager: the authoritative state machine over
//! connected clients, lobbies and games in progress. Each handler takes
//! one decoded client message and returns the replies to send; the
//! transport around it reads frames, calls a handler under one lock, and
//! writes the replies out.

use vstd::prelude::*;

use crate::common_message_utils::spec_decode_payload;
use crate::enums::{MessageType, StatusCode};
use crate::game_module::{spec_game_type_id, GameMetadataView, GameModule, GameMove, GameState};
use crate::shared_data::{ConnectRequest, ConnectRequestAuth, Lobby};
use vstd::string::{StrSliceExecFns, StringExecFns};

verus! {

broadcast use vstd::seq::group_seq_axioms;

/// The send capability the transport supplies: writing one encoded
/// frame to a peer. The program around the library implements it on its
/// socket type; the library itself never writes to a socket.
pub trait SocketSend {
    /// Write one encoded frame to the peer.
    fn send_message(&self, data: Vec<u8>);
}

/// Server-side record of one connected, authenticated client.
#[derive(Debug)]
pub struct Client {
    /// The server-assigned, globally unique client id.
    pub id: String,
    /// The lobby the client occupies, when it occupies one.
    pub lobby_id: Option<String>,
    /// The next sequence number expected from the client.
    pub next_message_id: u32,
}

/// The body of one server reply, already decoded; the wire codec turns
/// it into framed bytes.
pub enum ResponseBody<St> {
    /// No body at all.
    NoBody,
    /// One lobby snapshot.
    LobbyBody(Lobby),
    /// The full lobby list.
    LobbyListBody(Vec<Lobby>),
    /// The registered game type ids.
    GamesBody(Vec<String>),
    /// The assigned client id.
    ClientIdBody(String),
    /// The missing sequence numbers.
    MissingBody(Vec<u32>),
    /// A free-form notice.
    TextBody(String),
    /// A game state snapshot.
    GameStateBody(St),
}

/// One reply the server owes: the recipient client and the message.
pub struct Outgoing<St> {
    /// Id of the client the reply goes to.
    pub to: String,
    /// The reply's status code.
    pub status: StatusCode,
    /// The reply's message type.
    pub message_type: MessageType,
    /// The reply's body.
    pub body: ResponseBody<St>,
}

/// Whether some client in the sequence carries the id.
pub open spec fn has_client_id(clients: Seq<Client>, id: Seq<char>) -> bool {
    exists|i: int| 0 <= i < clients.len() && clients[i].id@ == id
}

/// The index of the client carrying the id.
pub open spec fn client_index_of(clients: Seq<Client>, id: Seq<char>) -> int {
    choose|i: int| 0 <= i < clients.len() && clients[i].id@ == id
}

/// Whether some lobby in the sequence carries the id.
pub open spec fn has_lobby_id(lobbies: Seq<Lobby>, id: Seq<char>) -> bool {
    exists|i: int| 0 <= i < lobbies.len() && lobbies[i].id@ == id
}

/// The index of the lobby carrying the id.
pub open spec fn lobby_index_of(lobbies: Seq<Lobby>, id: Seq<char>) -> int {
    choose|i: int| 0 <= i < lobbies.len() && lobbies[i].id@ == id
}

/// The authoritative server state: every connected client, every lobby,
/// the registered game templates, and the games in progress keyed by
/// lobby id. One instance exists per server process, behind one lock.
pub struct GameProtocolServer<S: GameModule> {
    /// The connected, authenticated clients.
    pub clients: Vec<Client>,
    /// The lobbies currently open.
    pub lobbies: Vec<Lobby>,
    /// The registered game module templates.
    pub supported_games: Vec<S>,
    /// The games in progress, keyed by the owning lobby's id.
    pub games_in_progress: Vec<(String, S)>,
}

/// The canonical key of the game template at an index.
pub open spec fn game_key_at<S: GameModule>(games: Seq<S>, i: int) -> Seq<char> {
    spec_game_type_id(games[i].spec_metadata().game_title, games[i].spec_metadata().version)
}

/// Whether some template in the sequence carries the key.
pub open spec fn has_game_key<S: GameModule>(games: Seq<S>, game_type_id: Seq<char>) -> bool {
    exists|i: int| 0 <= i < games.len() && game_key_at(games, i) == game_type_id
}

/// The index of the template carrying the key.
pub open spec fn game_key_index_of<S: GameModule>(games: Seq<S>, game_type_id: Seq<char>) -> int {
    choose|i: int| 0 <= i < games.len() && game_key_at(games, i) == game_type_id
}

/// Whether some session in the sequence runs under the lobby id.
pub open spec fn has_session_key<S: GameModule>(
    sessions: Seq<(String, S)>,
    lobby_id: Seq<char>,
) -> bool {
    exists|i: int| 0 <= i < sessions.len() && sessions[i].0@ == lobby_id
}

/// The index of the session running under the lobby id.
pub open spec fn session_index_of<S: GameModule>(
    sessions: Seq<(String, S)>,
    lobby_id: Seq<char>,
) -> int {
    choose|i: int| 0 <= i < sessions.len() && sessions[i].0@ == lobby_id
}

impl<S: GameModule> GameProtocolServer<S> {
    /// The canonical key of the template at an index.
    pub open spec fn spec_template_key(self, i: int) -> Seq<char> {
        game_key_at(self.supported_games@, i)
    }

    /// Whether a game with the key is registered.
    pub open spec fn has_template(self, game_type_id: Seq<char>) -> bool {
        has_game_key(self.supported_games@, game_type_id)
    }

    /// The index of the registered game with the key.
    pub open spec fn template_index_of(self, game_type_id: Seq<char>) -> int {
        game_key_index_of(self.supported_games@, game_type_id)
    }

    /// The metadata of the registered game with the key.
    pub open spec fn spec_template_meta(self, game_type_id: Seq<char>) -> GameMetadataView {
        self.supported_games@[self.template_index_of(game_type_id)].spec_metadata()
    }

    /// The client record carrying the id.
    pub open spec fn spec_client_of(self, id: Seq<char>) -> Client {
        self.clients@[client_index_of(self.clients@, id)]
    }

    /// The lobby carrying the id.
    pub open spec fn spec_lobby_of(self, id: Seq<char>) -> Lobby {
        self.lobbies@[lobby_index_of(self.lobbies@, id)]
    }

    /// Whether a game session is in progress under the lobby id.
    pub open spec fn has_game_session(self, lobby_id: Seq<char>) -> bool {
        has_session_key(self.games_in_progress@, lobby_id)
    }

    /// The index of the game session under the lobby id.
    pub open spec fn game_session_index_of(self, lobby_id: Seq<char>) -> int {
        session_index_of(self.games_in_progress@, lobby_id)
    }

    /// The game session under the lobby id.
    pub open spec fn spec_game_session_of(self, lobby_id: Seq<char>) -> S {
        self.games_in_progress@[self.game_session_index_of(lobby_id)].1
    }

    /// A client's lobby reference is coherent: it names an existing lobby
    /// whose player list contains the client.
    pub open spec fn client_lobby_ok(self, c: Client) -> bool {
        c.lobby_id matches Some(lid) ==> {
            &&& has_lobby_id(self.lobbies@, lid@)
            &&& self.spec_lobby_of(lid@)@.player_ids.contains(c.id@)
        }
    }

    /// Every player listed in a lobby is a connected client whose own
    /// lobby reference points back at that lobby.
    pub open spec fn lobby_players_ok(self) -> bool {
        forall|i: int, j: int|
            0 <= i < self.lobbies@.len() && 0 <= j < (
            #[trigger] self.lobbies@[i])@.player_ids.len() ==> {
                let pid = #[trigger] self.lobbies@[i]@.player_ids[j];
                &&& has_client_id(self.clients@, pid)
                &&& (self.spec_client_of(pid).lobby_id matches Some(lid) && lid@
                    == self.lobbies@[i].id@)
            }
    }

    /// The server invariant: unique client, lobby, template and session
    /// keys; every lobby well-formed, non-empty and backed by a
    /// registered game; every client's lobby reference coherent and
    /// every listed player a client of that lobby.
    pub open spec fn wf(self) -> bool {
        &&& (forall|i: int, j: int|
            0 <= i < j < self.clients@.len() ==> (#[trigger] self.clients@[i]).id@ != (
            #[trigger] self.clients@[j]).id@)
        &&& (forall|i: int, j: int|
            0 <= i < j < self.lobbies@.len() ==> (#[trigger] self.lobbies@[i]).id@ != (
            #[trigger] self.lobbies@[j]).id@)
        &&& (forall|i: int, j: int|
            0 <= i < j < self.supported_games@.len() ==> self.spec_template_key(i)
                != self.spec_template_key(j))
        &&& (forall|i: int, j: int|
            0 <= i < j < self.games_in_progress@.len() ==> (
            #[trigger] self.games_in_progress@[i]).0@ != (
            #[trigger] self.games_in_progress@[j]).0@)
        &&& (forall|i: int|
            0 <= i < self.supported_games@.len() ==> (
            #[trigger] self.supported_games@[i]).spec_metadata().max_players >= 1)
        &&& (forall|i: int|
            0 <= i < self.lobbies@.len() ==> (#[trigger] self.lobbies@[i])@.wf()
                && self.lobbies@[i]@.player_ids.len() > 0 && self.has_template(
                spec_game_type_id(
                    self.lobbies@[i]@.game_metadata.game_title,
                    self.lobbies@[i]@.game_metadata.version,
                ),
            ))
        &&& (forall|i: int|
            0 <= i < self.clients@.len() ==> self.client_lobby_ok(#[trigger] self.clients@[i]))
        &&& self.lobby_players_ok()
    }

    /// A fresh server with nothing registered and nobody connected.
    pub fn new() -> (r: Self)
        ensures
            r.wf(),
            r.clients@.len() == 0,
            r.lobbies@.len() == 0,
            r.supported_games@.len() == 0,
            r.games_in_progress@.len() == 0,
    {
        GameProtocolServer {
            clients: Vec::new(),
            lobbies: Vec::new(),
            supported_games: Vec::new(),
            games_in_progress: Vec::new(),
        }
    }

    /// Register a game template, indexed by its canonical key. A
    /// template whose key is already registered replaces the old one.
    /// Games must admit at least one player.
    pub fn register_game(&mut self, game: S)
        requires
            old(self).wf(),
            game.spec_metadata().max_players >= 1,
        ensures
            final(self).wf(),
            final(self).clients@ == old(self).clients@,
            final(self).lobbies@ == old(self).lobbies@,
            final(self).games_in_progress@ == old(self).games_in_progress@,
            final(self).has_template(
                spec_game_type_id(
                    game.spec_metadata().game_title,
                    game.spec_metadata().version,
                ),
            ),
            final(self).supported_games@[final(self).template_index_of(
                spec_game_type_id(game.spec_metadata().game_title, game.spec_metadata().version),
            )] == game,
            forall|key: Seq<char>| old(self).has_template(key) ==> final(self).has_template(key),
            forall|key: Seq<char>|
                final(self).has_template(key) ==> key == spec_game_type_id(
                    game.spec_metadata().game_title,
                    game.spec_metadata().version,
                ) || old(self).has_template(key),
    {
        let key = game.get_metadata().get_game_type_id();
        match self.find_template(&key) {
            Some(i) => {
                self.supported_games[i] = game;
                proof {
                    // the replaced template carried the same key, so every
                    // key in the table is unchanged
                    assert forall|k: int|
                        0 <= k < self.supported_games@.len() implies #[trigger] self
                        .spec_template_key(k) == old(self).spec_template_key(k) by {
                        if k != i as int {
                            assert(self.supported_games@[k] == old(self).supported_games@[k]);
                        }
                    }
                    assert forall|key2: Seq<char>|
                        old(self).has_template(key2) implies self.has_template(key2) by {
                        let w = old(self).template_index_of(key2);
                        assert(self.spec_template_key(w) == key2);
                    }
                    assert(self.spec_template_key(i as int) == key@);
                    self.lemma_template_index_unique(key@, i as int);
                    assert forall|key2: Seq<char>|
                        self.has_template(key2) implies key2 == key@ || old(self).has_template(
                        key2,
                    ) by {
                        let w = self.template_index_of(key2);
                        assert(old(self).spec_template_key(w) == self.spec_template_key(w));
                    }
                }
            },
            None => {
                self.supported_games.push(game);
                proof {
                    let n = self.supported_games@.len() - 1;
                    assert forall|k: int|
                        0 <= k < n implies #[trigger] self.spec_template_key(k) == old(
                        self,
                    ).spec_template_key(k) by {
                        assert(self.supported_games@[k] == old(self).supported_games@[k]);
                    }
                    assert(self.supported_games@[n] == game);
                    assert(self.spec_template_key(n) == key@);
                    assert forall|key2: Seq<char>|
                        old(self).has_template(key2) implies self.has_template(key2) by {
                        let w = old(self).template_index_of(key2);
                        assert(self.spec_template_key(w) == key2);
                    }
                    assert forall|i: int, j: int|
                        0 <= i < j < self.supported_games@.len() implies self.spec_template_key(i)
                        != self.spec_template_key(j) by {
                        if j == n {
                            // a key equal to the new one would mean the key
                            // was registered before, which the lookup ruled out
                            if self.spec_template_key(i) == key@ {
                                assert(old(self).spec_template_key(i) == key@);
                                assert(old(self).has_template(key@));
                            }
                        } else {
                            assert(old(self).spec_template_key(i) != old(self).spec_template_key(
                                j,
                            ));
                        }
                    }
                    self.lemma_template_index_unique(key@, n);
                    assert forall|key2: Seq<char>|
                        self.has_template(key2) implies key2 == key@ || old(self).has_template(
                        key2,
                    ) by {
                        let w = self.template_index_of(key2);
                        if w < n {
                            assert(old(self).spec_template_key(w) == self.spec_template_key(w));
                        }
                    }
                }
            },
        }
    }

    /// Find the index of the registered game with the key.
    fn find_template(&self, game_type_id: &String) -> (r: Option<usize>)
        ensures
            match r {
                Some(i) => i < self.supported_games@.len() && self.spec_template_key(i as int)
                    == game_type_id@,
                None => !self.has_template(game_type_id@),
            },
    {
        let mut i: usize = 0;
        while i < self.supported_games.len()
            invariant
                i <= self.supported_games@.len(),
                forall|k: int|
                    0 <= k < i ==> #[trigger] game_key_at(self.supported_games@, k)
                        != game_type_id@,
            decreases self.supported_games@.len() - i,
        {
            let key = self.supported_games[i].get_metadata().get_game_type_id();
            if key == *game_type_id {
                return Some(i);
            }
            i += 1;
        }
        None
    }

    /// Find the index of the client carrying the id.
    fn find_client(&self, id: &String) -> (r: Option<usize>)
        ensures
            match r {
                Some(i) => i < self.clients@.len() && self.clients@[i as int].id@ == id@,
                None => !has_client_id(self.clients@, id@),
            },
    {
        let mut i: usize = 0;
        while i < self.clients.len()
            invariant
                i <= self.clients@.len(),
                forall|k: int| 0 <= k < i ==> (#[trigger] self.clients@[k]).id@ != id@,
            decreases self.clients@.len() - i,
        {
            if self.clients[i].id == *id {
                return Some(i);
            }
            i += 1;
        }
        None
    }

    /// Find the index of the lobby carrying the id.
    fn find_lobby(&self, id: &String) -> (r: Option<usize>)
        ensures
            match r {
                Some(i) => i < self.lobbies@.len() && self.lobbies@[i as int].id@ == id@,
                None => !has_lobby_id(self.lobbies@, id@),
            },
    {
        let mut i: usize = 0;
        while i < self.lobbies.len()
            invariant
                i <= self.lobbies@.len(),
                forall|k: int| 0 <= k < i ==> (#[trigger] self.lobbies@[k]).id@ != id@,
            decreases self.lobbies@.len() - i,
        {
            if self.lobbies[i].id == *id {
                return Some(i);
            }
            i += 1;
        }
        None
    }

    /// Find the index of the game session under the lobby id.
    fn find_game_session(&self, lobby_id: &String) -> (r: Option<usize>)
        ensures
            match r {
                Some(i) => i < self.games_in_progress@.len() && self.games_in_progress@[
                    i as int
                ].0@ == lobby_id@,
                None => !self.has_game_session(lobby_id@),
            },
    {
        let mut i: usize = 0;
        while i < self.games_in_progress.len()
            invariant
                i <= self.games_in_progress@.len(),
                forall|k: int|
                    0 <= k < i ==> (#[trigger] self.games_in_progress@[k]).0@ != lobby_id@,
            decreases self.games_in_progress@.len() - i,
        {
            if self.games_in_progress[i].0 == *lobby_id {
                return Some(i);
            }
            i += 1;
        }
        None
    }

    pub open spec fn create_lobby_post(pre: Self, post: Self, cid: Seq<char>, gt: Seq<char>, reply: Outgoing<S::State>) -> bool {
        &&& (post.wf())
        &&& (post.supported_games@ == pre.supported_games@)
        &&& (post.games_in_progress@ == pre.games_in_progress@)
        &&& (reply.to@ == cid)
        &&& (!pre.has_template(gt) ==> post == pre && reply.status
                == StatusCode::UnsupportedGame && reply.message_type == MessageType::ProtocolError
                && reply.body is NoBody)
        &&& (pre.has_template(gt) && pre.spec_client_of(
                cid,
            ).lobby_id is Some ==> post == pre && reply.status
                == StatusCode::AlreadyInALobby && reply.message_type == MessageType::ProtocolError
                && reply.body is NoBody)
        &&& (pre.has_template(gt) && pre.spec_client_of(
                cid,
            ).lobby_id is None ==> ({
                let n = pre.lobbies@.len() as int;
                let ci = client_index_of(pre.clients@, cid);
                let l = post.lobbies@.last();
                &&& post.lobbies@.len() == n + 1
                &&& post.lobbies@.subrange(0, n) == pre.lobbies@
                &&& !has_lobby_id(pre.lobbies@, l.id@)
                &&& l@.owner == cid
                &&& l@.player_ids == seq![cid]
                &&& l@.game_started == false
                &&& l@.game_metadata == pre.spec_template_meta(gt)
                &&& post.clients@.len() == pre.clients@.len()
                &&& (forall|k: int|
                    0 <= k < pre.clients@.len() && k != ci ==> post.clients@[k]
                        == pre.clients@[k])
                &&& post.clients@[ci].id@ == cid
                &&& (post.clients@[ci].lobby_id matches Some(lid) && lid@ == l.id@)
                &&& post.clients@[ci].next_message_id == pre.clients@[
                    ci
                ].next_message_id
                &&& reply.status == StatusCode::Success
                &&& reply.message_type == MessageType::LobbyInfoResponse
                &&& (reply.body matches ResponseBody::LobbyBody(lb) && lb@ == l@)
            }))
    }

    pub open spec fn join_lobby_post(pre: Self, post: Self, cid: Seq<char>, lid_req: Seq<char>, r: Seq<Outgoing<S::State>>) -> bool {
        &&& (post.wf())
        &&& (post.supported_games@ == pre.supported_games@)
        &&& (post.games_in_progress@ == pre.games_in_progress@)
        &&& (pre.spec_client_of(cid).lobby_id is Some ==> post == pre
                && r.len() == 1 && spec_error_reply(
                r[0],
                cid,
                StatusCode::AlreadyInALobby,
            ))
        &&& (pre.spec_client_of(cid).lobby_id is None && !has_lobby_id(
                pre.lobbies@,
                lid_req,
            ) ==> post == pre && r.len() == 1 && spec_error_reply(
                r[0],
                cid,
                StatusCode::LobbyNotFound,
            ))
        &&& (pre.spec_client_of(cid).lobby_id is None && has_lobby_id(
                pre.lobbies@,
                lid_req,
            ) && pre.spec_lobby_of(lid_req)@.player_ids.len() >= pre.spec_lobby_of(
                lid_req,
            )@.game_metadata.max_players ==> post == pre && r.len() == 1
                && spec_error_reply(
                r[0],
                cid,
                if pre.spec_lobby_of(lid_req)@.game_started {
                    StatusCode::GameStarted
                } else {
                    StatusCode::LobbyFull
                },
            ))
        &&& (pre.spec_client_of(cid).lobby_id is None && has_lobby_id(
                pre.lobbies@,
                lid_req,
            ) && pre.spec_lobby_of(lid_req)@.player_ids.len() < pre.spec_lobby_of(
                lid_req,
            )@.game_metadata.max_players ==> ({
                let li = lobby_index_of(pre.lobbies@, lid_req);
                let ci = client_index_of(pre.clients@, cid);
                let oldl = pre.lobbies@[li];
                let newl = post.lobbies@[li];
                &&& post.lobbies@ == pre.lobbies@.update(li, newl)
                &&& newl.id@ == lid_req
                &&& newl@.owner == oldl@.owner
                &&& newl@.game_started == oldl@.game_started
                &&& newl@.game_metadata == oldl@.game_metadata
                &&& newl@.player_ids == oldl@.player_ids.push(cid)
                &&& post.clients@.len() == pre.clients@.len()
                &&& (forall|k: int|
                    0 <= k < pre.clients@.len() && k != ci ==> post.clients@[k]
                        == pre.clients@[k])
                &&& post.clients@[ci].id@ == cid
                &&& (post.clients@[ci].lobby_id matches Some(lid) && lid@ == lid_req)
                &&& post.clients@[ci].next_message_id == pre.clients@[
                    ci
                ].next_message_id
                &&& r.len() == newl@.player_ids.len()
                &&& (forall|k: int|
                    0 <= k < r.len() ==> (#[trigger] r[k]).to@ == newl@.player_ids[k] && r[
                        k
                    ].status == StatusCode::Success && r[k].message_type
                        == MessageType::LobbyInfoResponse && (
                    r[k].body matches ResponseBody::LobbyBody(lb) && lb@ == newl@))
            }))
    }

    pub open spec fn leave_lobby_post(pre: Self, post: Self, cid: Seq<char>, r: Seq<Outgoing<S::State>>) -> bool {
        &&& (post.wf())
        &&& (post.supported_games@ == pre.supported_games@)
        &&& (post.games_in_progress@ == pre.games_in_progress@)
        &&& (pre.spec_client_of(cid).lobby_id is None ==> post == pre
                && r.len() == 1 && r[0].to@ == cid && r[0].status
                == StatusCode::NotInLobby && r[0].message_type == MessageType::LeaveLobbyResponse
                && r[0].body is NoBody)
        &&& (pre.spec_client_of(cid).lobby_id matches Some(lid) ==> ({
                let li = lobby_index_of(pre.lobbies@, lid@);
                let oldl = pre.lobbies@[li];
                let ci = client_index_of(pre.clients@, cid);
                let p = player_index_in(oldl@, cid);
                &&& post.clients@.len() == pre.clients@.len()
                &&& (forall|k: int|
                    0 <= k < pre.clients@.len() && k != ci ==> post.clients@[k]
                        == pre.clients@[k])
                &&& post.clients@[ci].id@ == cid
                &&& post.clients@[ci].lobby_id is None
                &&& post.clients@[ci].next_message_id == pre.clients@[
                    ci
                ].next_message_id
                &&& r.last().to@ == cid
                &&& r.last().status == StatusCode::Success
                &&& r.last().message_type == MessageType::LeaveLobbyResponse
                &&& r.last().body is NoBody
                &&& (oldl@.player_ids.len() == 1 ==> post.lobbies@ == pre.lobbies@.remove(li) && r.len() == 1)
                &&& (oldl@.player_ids.len() > 1 ==> ({
                    let newl = post.lobbies@[li];
                    &&& post.lobbies@ == pre.lobbies@.update(li, newl)
                    &&& newl.id@ == lid@
                    &&& newl@.game_started == oldl@.game_started
                    &&& newl@.game_metadata == oldl@.game_metadata
                    &&& newl@.player_ids == oldl@.player_ids.remove(p)
                    &&& newl@.owner == if oldl@.owner == cid {
                        newl@.player_ids[0]
                    } else {
                        oldl@.owner
                    }
                    &&& r.len() == newl@.player_ids.len() + 1
                    &&& (forall|k: int|
                        0 <= k < newl@.player_ids.len() ==> (#[trigger] r[k]).to@
                            == newl@.player_ids[k] && r[k].status == StatusCode::Success && r[
                            k
                        ].message_type == MessageType::LobbyInfoResponse && (
                        r[k].body matches ResponseBody::LobbyBody(lb) && lb@ == newl@))
                }))
            }))
    }

    pub open spec fn start_game_post(pre: Self, post: Self, cid: Seq<char>, lid_req: Seq<char>, r: Seq<Outgoing<S::State>>) -> bool {
        &&& (post.wf())
        &&& (post.clients@ == pre.clients@)
        &&& (post.supported_games@ == pre.supported_games@)
        &&& (pre.spec_client_of(cid).lobby_id is None ==> post == pre
                && r.len() == 1 && spec_error_reply(r[0], cid, StatusCode::NotInLobby))
        &&& (pre.spec_client_of(cid).lobby_id matches Some(lid) ==> ({
                let li = lobby_index_of(pre.lobbies@, lid@);
                let l = pre.lobbies@[li];
                let key = spec_game_type_id(
                    l@.game_metadata.game_title,
                    l@.game_metadata.version,
                );
                let started = lid_req == lid@ && l@.owner == cid
                    && l@.game_metadata.min_required_players <= l@.player_ids.len()
                    <= l@.game_metadata.max_players;
                &&& (!started ==> post == pre && r.len() == 1 && spec_error_reply(
                    r[0],
                    cid,
                    StatusCode::GameStartCriteriaNotMet,
                ))
                &&& (started ==> ({
                    let newl = post.lobbies@[li];
                    let g = post.spec_game_session_of(lid@);
                    &&& post.lobbies@ == pre.lobbies@.update(li, newl)
                    &&& newl.id@ == lid@
                    &&& newl@.owner == l@.owner
                    &&& newl@.player_ids == l@.player_ids
                    &&& newl@.game_metadata == l@.game_metadata
                    &&& newl@.game_started == true
                    &&& post.has_game_session(lid@)
                    &&& (forall|w: int|
                        0 <= w < pre.games_in_progress@.len() && (
                        #[trigger] pre.games_in_progress@[w]).0@ != lid@ ==> post
                            .games_in_progress@.contains(pre.games_in_progress@[w]))
                    &&& g.spec_metadata() == pre.spec_template_meta(key)
                    &&& (pre.spec_template_meta(key).max_players >= l@.player_ids.len()
                        ==> g.spec_players() == l@.player_ids)
                    &&& r.len() == l@.player_ids.len()
                    &&& (forall|k: int|
                        0 <= k < r.len() ==> (#[trigger] r[k]).to@ == l@.player_ids[k] && r[
                            k
                        ].status == StatusCode::Success && r[k].message_type
                            == MessageType::GameStateResponse && (
                        r[k].body matches ResponseBody::GameStateBody(b) && b@ == g.spec_state()@))
                }))
            }))
    }

    pub open spec fn move_post(pre: Self, post: Self, cid: Seq<char>, mv: S::Move, r: Seq<Outgoing<S::State>>) -> bool {
        &&& (post.wf())
        &&& (post.clients@ == pre.clients@)
        &&& (post.lobbies@ == pre.lobbies@)
        &&& (post.supported_games@ == pre.supported_games@)
        &&& (pre.spec_client_of(cid).lobby_id is None ==> post == pre
                && r.len() == 1 && spec_error_reply(r[0], cid, StatusCode::NotInLobby))
        &&& (pre.spec_client_of(cid).lobby_id matches Some(lid) ==> ({
                let si = session_index_of(pre.games_in_progress@, lid@);
                let g = pre.spec_game_session_of(lid@);
                let li = lobby_index_of(pre.lobbies@, lid@);
                let players = pre.lobbies@[li]@.player_ids;
                &&& (!pre.has_game_session(lid@) ==> post == pre && r.len()
                    == 1 && spec_error_reply(r[0], cid, StatusCode::GameSessionNotFound))
                &&& (pre.has_game_session(lid@) && g.spec_ended() ==> post == pre && r.len() == 1
                    && spec_error_reply(r[0], cid, StatusCode::GameOver))
                &&& (pre.has_game_session(lid@) && !g.spec_ended() && !g.spec_valid_move(
                    (&mv),
                ) ==> post == pre && r.len() == 1 && spec_error_reply(
                    r[0],
                    cid,
                    StatusCode::InvalidMove,
                ))
                &&& (pre.has_game_session(lid@) && !g.spec_ended() && g.spec_valid_move(
                    (&mv),
                ) ==> ({
                    let g2 = post.spec_game_session_of(lid@);
                    &&& post.games_in_progress@ == pre.games_in_progress@.update(
                        si,
                        (pre.games_in_progress@[si].0, g2),
                    )
                    &&& g2.spec_players() == g.spec_players()
                    &&& g2.spec_metadata() == g.spec_metadata()
                    &&& r.len() == players.len()
                    &&& (forall|k: int|
                        0 <= k < r.len() ==> (#[trigger] r[k]).to@ == players[k] && r[k].status
                            == StatusCode::Success && r[k].message_type
                            == MessageType::GameStateResponse && (
                        r[k].body matches ResponseBody::GameStateBody(b) && b@ == g2.spec_state()@))
                }))
            }))
    }

    pub open spec fn return_to_lobby_post(pre: Self, post: Self, cid: Seq<char>, r: Seq<Outgoing<S::State>>) -> bool {
        &&& (post.wf())
        &&& (post.clients@ == pre.clients@)
        &&& (post.supported_games@ == pre.supported_games@)
        &&& (pre.spec_client_of(cid).lobby_id is None ==> post == pre
                && r.len() == 1 && spec_error_reply(r[0], cid, StatusCode::NotInLobby))
        &&& (pre.spec_client_of(cid).lobby_id matches Some(lid) ==> ({
                let si = session_index_of(pre.games_in_progress@, lid@);
                let li = lobby_index_of(pre.lobbies@, lid@);
                let newl = post.lobbies@[li];
                &&& (!pre.has_game_session(lid@) ==> post == pre && r.len()
                    == 1 && spec_error_reply(r[0], cid, StatusCode::GameSessionNotFound))
                &&& (pre.has_game_session(lid@) && post.has_game_session(lid@) ==> ({
                    let g = pre.spec_game_session_of(lid@);
                    let g2 = post.spec_game_session_of(lid@);
                    &&& post.games_in_progress@ == pre.games_in_progress@.update(
                        si,
                        (pre.games_in_progress@[si].0, g2),
                    )
                    // the requester leaves the game's roster
                    &&& g2.spec_players() == (if g.spec_players().contains(cid) {
                        g.spec_players().remove(
                            crate::game_module::first_index_of(g.spec_players(), cid),
                        )
                    } else {
                        g.spec_players()
                    })
                    &&& g2.spec_players().len() > 0
                    &&& post.lobbies@ == pre.lobbies@
                }))
                &&& (pre.has_game_session(lid@) && !post.has_game_session(lid@) ==> ({
                    let g = pre.spec_game_session_of(lid@);
                    // the game was deleted because nobody remained
                    &&& (g.spec_players().contains(cid) ==> g.spec_players().remove(
                        crate::game_module::first_index_of(g.spec_players(), cid),
                    ).len() == 0)
                    &&& (!g.spec_players().contains(cid) ==> g.spec_players().len() == 0)
                }))
                &&& (pre.has_game_session(lid@) && !post.has_game_session(lid@)
                    ==> post.games_in_progress@ == pre.games_in_progress@.remove(si)
                    && post.lobbies@ == pre.lobbies@.update(li, newl)
                    && newl@.game_started == false && newl.id@ == lid@ && newl@.player_ids == pre.lobbies@[li]@.player_ids && newl@.owner == pre.lobbies@[li]@.owner
                    && newl@.game_metadata == pre.lobbies@[li]@.game_metadata)
                &&& (pre.has_game_session(lid@) ==> r.len() == 1 && r[0].to@ == cid
                    && r[0].status == StatusCode::Success && r[0].message_type
                    == MessageType::LobbyInfoResponse && (
                r[0].body matches ResponseBody::LobbyBody(lb) && lb@ == newl@))
            }))
    }

    pub open spec fn connect_post(pre: Self, post: Self, authd: bool, received_seq: u32, new_id: Option<String>, reply: Outgoing<S::State>) -> bool {
        &&& (post.wf())
        &&& (post.lobbies@ == pre.lobbies@)
        &&& (post.supported_games@ == pre.supported_games@)
        &&& (post.games_in_progress@ == pre.games_in_progress@)
        &&& (new_id is Some <==> authd)
        &&& (new_id matches Some(id) ==> {
                &&& !has_client_id(pre.clients@, id@)
                &&& post.clients@.len() == pre.clients@.len() + 1
                &&& post.clients@.subrange(0, pre.clients@.len() as int) == pre.clients@
                &&& post.clients@.last().id@ == id@
                &&& post.clients@.last().lobby_id is None
                &&& post.clients@.last().next_message_id == spec_wrap_inc(received_seq)
                &&& reply.to@ == id@
                &&& reply.status == StatusCode::Success
                &&& reply.message_type == MessageType::ConnectResponse
                &&& (reply.body matches ResponseBody::ClientIdBody(cid) && cid@ == id@)
            })
        &&& (new_id is None ==> {
                &&& post.clients@ == pre.clients@
                &&& reply.status == StatusCode::UnsupportedAuthMethod
                &&& reply.message_type == MessageType::ProtocolError
                &&& reply.body is NoBody
            })
    }

    pub open spec fn advanced_for(pre: Self, post: Self, cid: Seq<char>) -> bool {
        &&& (post.wf())
        &&& (post.lobbies@ == pre.lobbies@)
        &&& (post.supported_games@ == pre.supported_games@)
        &&& (post.games_in_progress@ == pre.games_in_progress@)
        &&& (post.clients@.len() == pre.clients@.len())
        &&& (forall|k: int|
                0 <= k < pre.clients@.len() && k != client_index_of(
                    pre.clients@,
                    cid,
                ) ==> post.clients@[k] == pre.clients@[k])
        &&& (({
                let ci = client_index_of(pre.clients@, cid);
                &&& post.clients@[ci].id@ == cid
                &&& post.clients@[ci].lobby_id == pre.clients@[ci].lobby_id
                &&& post.clients@[ci].next_message_id == spec_wrap_inc(
                    pre.clients@[ci].next_message_id,
                )
            }))
    }

    /// With unique template keys, the index of a matching template is
    /// the one the lookup denotes.
    pub proof fn lemma_template_index_unique(self, gt: Seq<char>, i: int)
        requires
            forall|a: int, b: int|
                0 <= a < b < self.supported_games@.len() ==> self.spec_template_key(a)
                    != self.spec_template_key(b),
            0 <= i < self.supported_games@.len(),
            self.spec_template_key(i) == gt,
        ensures
            self.has_template(gt),
            self.template_index_of(gt) == i,
            self.spec_template_meta(gt) == self.supported_games@[i].spec_metadata(),
    {
        assert(self.has_template(gt));
        let w = self.template_index_of(gt);
        assert(0 <= w < self.supported_games@.len() && self.spec_template_key(w) == gt);
        if w < i {
            assert(self.spec_template_key(w) != self.spec_template_key(i));
        } else if i < w {
            assert(self.spec_template_key(i) != self.spec_template_key(w));
        }
    }

    /// The invariant clauses that do not speak of the clients carry
    /// over unchanged when only the clients changed; the two that do are
    /// supplied by the caller.
    proof fn lemma_wf_after_clients_change(pre: Self, post: Self)
        requires
            pre.wf(),
            post.lobbies@ == pre.lobbies@,
            post.supported_games@ == pre.supported_games@,
            post.games_in_progress@ == pre.games_in_progress@,
            forall|i: int, j: int|
                0 <= i < j < post.clients@.len() ==> (#[trigger] post.clients@[i]).id@ != (
                #[trigger] post.clients@[j]).id@,
            forall|i: int|
                0 <= i < post.clients@.len() ==> post.client_lobby_ok(
                    #[trigger] post.clients@[i],
                ),
            post.lobby_players_ok(),
        ensures
            post.wf(),
    {
        assert forall|i: int, j: int|
            0 <= i < j < post.lobbies@.len() implies (#[trigger] post.lobbies@[i]).id@ != (
        #[trigger] post.lobbies@[j]).id@ by {
            assert((pre.lobbies@[i]).id@ != (pre.lobbies@[j]).id@);
        }
        assert forall|i: int, j: int|
            0 <= i < j < post.supported_games@.len() implies post.spec_template_key(i)
            != post.spec_template_key(j) by {
            assert(pre.spec_template_key(i) != pre.spec_template_key(j));
        }
        assert forall|i: int, j: int|
            0 <= i < j < post.games_in_progress@.len() implies (
        #[trigger] post.games_in_progress@[i]).0@ != (#[trigger] post.games_in_progress@[j]).0@ by {
            assert((pre.games_in_progress@[i]).0@ != (pre.games_in_progress@[j]).0@);
        }
        assert forall|i: int|
            0 <= i < post.supported_games@.len() implies (
        #[trigger] post.supported_games@[i]).spec_metadata().max_players >= 1 by {
            assert((pre.supported_games@[i]).spec_metadata().max_players >= 1);
        }
        assert forall|i: int|
            0 <= i < post.lobbies@.len() implies (#[trigger] post.lobbies@[i])@.wf()
            && post.lobbies@[i]@.player_ids.len() > 0 && post.has_template(
            spec_game_type_id(
                post.lobbies@[i]@.game_metadata.game_title,
                post.lobbies@[i]@.game_metadata.version,
            ),
        ) by {
            assert((pre.lobbies@[i])@.wf());
            assert(pre.lobbies@[i]@.player_ids.len() > 0);
            assert(pre.has_template(
                spec_game_type_id(
                    pre.lobbies@[i]@.game_metadata.game_title,
                    pre.lobbies@[i]@.game_metadata.version,
                ),
            ));
        }
    }

    /// The template clauses of the invariant carry over when the
    /// templates are unchanged.
    proof fn lemma_template_clauses_from(pre: Self, post: Self)
        requires
            pre.wf(),
            post.supported_games@ == pre.supported_games@,
        ensures
            forall|i: int, j: int|
                0 <= i < j < post.supported_games@.len() ==> post.spec_template_key(i)
                    != post.spec_template_key(j),
            forall|i: int|
                0 <= i < post.supported_games@.len() ==> (
                #[trigger] post.supported_games@[i]).spec_metadata().max_players >= 1,
    {
        assert forall|i: int, j: int|
            0 <= i < j < post.supported_games@.len() implies post.spec_template_key(i)
            != post.spec_template_key(j) by {
            assert(pre.spec_template_key(i) != pre.spec_template_key(j));
        }
        assert forall|i: int|
            0 <= i < post.supported_games@.len() implies (
        #[trigger] post.supported_games@[i]).spec_metadata().max_players >= 1 by {
            assert((pre.supported_games@[i]).spec_metadata().max_players >= 1);
        }
    }

    /// The session-key clause of the invariant carries over when the
    /// games in progress are unchanged.
    proof fn lemma_session_clause_from(pre: Self, post: Self)
        requires
            pre.wf(),
            post.games_in_progress@ == pre.games_in_progress@,
        ensures
            forall|i: int, j: int|
                0 <= i < j < post.games_in_progress@.len() ==> (
                #[trigger] post.games_in_progress@[i]).0@ != (
                #[trigger] post.games_in_progress@[j]).0@,
    {
        assert forall|i: int, j: int|
            0 <= i < j < post.games_in_progress@.len() implies (
        #[trigger] post.games_in_progress@[i]).0@ != (#[trigger] post.games_in_progress@[j]).0@ by {
            assert((pre.games_in_progress@[i]).0@ != (pre.games_in_progress@[j]).0@);
        }
    }

    /// The lobby clauses of the invariant carry over when the lobbies
    /// and templates are unchanged.
    proof fn lemma_lobby_clauses_from(pre: Self, post: Self)
        requires
            pre.wf(),
            post.lobbies@ == pre.lobbies@,
            post.supported_games@ == pre.supported_games@,
        ensures
            forall|i: int, j: int|
                0 <= i < j < post.lobbies@.len() ==> (#[trigger] post.lobbies@[i]).id@ != (
                #[trigger] post.lobbies@[j]).id@,
            forall|i: int|
                0 <= i < post.lobbies@.len() ==> (#[trigger] post.lobbies@[i])@.wf()
                    && post.lobbies@[i]@.player_ids.len() > 0 && post.has_template(
                    spec_game_type_id(
                        post.lobbies@[i]@.game_metadata.game_title,
                        post.lobbies@[i]@.game_metadata.version,
                    ),
                ),
    {
        assert forall|i: int, j: int|
            0 <= i < j < post.lobbies@.len() implies (#[trigger] post.lobbies@[i]).id@ != (
        #[trigger] post.lobbies@[j]).id@ by {
            assert((pre.lobbies@[i]).id@ != (pre.lobbies@[j]).id@);
        }
        assert forall|i: int|
            0 <= i < post.lobbies@.len() implies (#[trigger] post.lobbies@[i])@.wf()
            && post.lobbies@[i]@.player_ids.len() > 0 && post.has_template(
            spec_game_type_id(
                post.lobbies@[i]@.game_metadata.game_title,
                post.lobbies@[i]@.game_metadata.version,
            ),
        ) by {
            assert((pre.lobbies@[i])@.wf());
            assert(pre.lobbies@[i]@.player_ids.len() > 0);
            assert(pre.has_template(
                spec_game_type_id(
                    pre.lobbies@[i]@.game_metadata.game_title,
                    pre.lobbies@[i]@.game_metadata.version,
                ),
            ));
        }
    }

    /// The client clauses of the invariant carry over when the clients
    /// and lobbies are unchanged.
    proof fn lemma_client_clauses_from(pre: Self, post: Self)
        requires
            pre.wf(),
            post.clients@ == pre.clients@,
            post.lobbies@ == pre.lobbies@,
        ensures
            forall|i: int, j: int|
                0 <= i < j < post.clients@.len() ==> (#[trigger] post.clients@[i]).id@ != (
                #[trigger] post.clients@[j]).id@,
            forall|i: int|
                0 <= i < post.clients@.len() ==> post.client_lobby_ok(
                    #[trigger] post.clients@[i],
                ),
            post.lobby_players_ok(),
    {
        assert forall|i: int, j: int|
            0 <= i < j < post.clients@.len() implies (#[trigger] post.clients@[i]).id@ != (
        #[trigger] post.clients@[j]).id@ by {
            assert((pre.clients@[i]).id@ != (pre.clients@[j]).id@);
        }
        assert(post.lobby_players_ok()) by {
            assert forall|i: int, j: int|
                0 <= i < post.lobbies@.len() && 0 <= j < (
            #[trigger] post.lobbies@[i])@.player_ids.len() implies {
                let pid = #[trigger] post.lobbies@[i]@.player_ids[j];
                &&& has_client_id(post.clients@, pid)
                &&& (post.spec_client_of(pid).lobby_id matches Some(lid) && lid@
                    == post.lobbies@[i].id@)
            } by {
                assert(pre.lobbies@[i] == post.lobbies@[i]);
                let pid = pre.lobbies@[i]@.player_ids[j];
                assert(has_client_id(pre.clients@, pid) && (pre.spec_client_of(
                    pid,
                ).lobby_id matches Some(lid) && lid@ == pre.lobbies@[i].id@));
            }
        }
        assert forall|i: int|
            0 <= i < post.clients@.len() implies post.client_lobby_ok(
            #[trigger] post.clients@[i],
        ) by {
            assert(pre.client_lobby_ok(pre.clients@[i]));
        }
    }

    /// Pushing a lobby with a fresh id keeps every coherent client
    /// reference coherent.
    proof fn lemma_lobby_ok_after_push(pre: Self, post: Self, newl: Lobby)
        requires
            forall|a: int, b: int|
                0 <= a < b < pre.lobbies@.len() ==> (#[trigger] pre.lobbies@[a]).id@ != (
                #[trigger] pre.lobbies@[b]).id@,
            post.lobbies@ == pre.lobbies@.push(newl),
            !has_lobby_id(pre.lobbies@, newl.id@),
        ensures
            forall|a: int, b: int|
                0 <= a < b < post.lobbies@.len() ==> (#[trigger] post.lobbies@[a]).id@ != (
                #[trigger] post.lobbies@[b]).id@,
            forall|c: Client| pre.client_lobby_ok(c) ==> #[trigger] post.client_lobby_ok(c),
    {
        let n = pre.lobbies@.len() as int;
        assert forall|a: int, b: int|
            0 <= a < b < post.lobbies@.len() implies (#[trigger] post.lobbies@[a]).id@ != (
        #[trigger] post.lobbies@[b]).id@ by {
            if b == n {
                if post.lobbies@[a].id@ == newl.id@ {
                    assert(pre.lobbies@[a].id@ == newl.id@);
                    assert(has_lobby_id(pre.lobbies@, newl.id@));
                }
            } else {
                assert(pre.lobbies@[a].id@ != pre.lobbies@[b].id@);
            }
        }
        assert forall|c: Client| pre.client_lobby_ok(c) implies #[trigger] post.client_lobby_ok(
            c,
        ) by {
            match c.lobby_id {
                Some(lid) => {
                    let w = lobby_index_of(pre.lobbies@, lid@);
                    assert(0 <= w < pre.lobbies@.len() && pre.lobbies@[w].id@ == lid@);
                    assert(post.lobbies@[w] == pre.lobbies@[w]);
                    lemma_lobby_index_unique(post.lobbies@, lid@, w);
                },
                None => {},
            }
        }
    }

    /// A client id no connected client carries. Generated randomly and
    /// regenerated on collision; a collision is recovered internally and
    /// never surfaced.
    fn fresh_client_id(&self) -> (id: String)
        ensures
            !has_client_id(self.clients@, id@),
    {
        let mut ids: Vec<String> = Vec::new();
        let mut i: usize = 0;
        while i < self.clients.len()
            invariant
                i <= self.clients@.len(),
                ids@.len() == i,
                forall|k: int| 0 <= k < i ==> (#[trigger] ids@[k])@ == self.clients@[k].id@,
            decreases self.clients@.len() - i,
        {
            ids.push(self.clients[i].id.clone());
            i += 1;
        }
        let id = fresh_id(&ids);
        proof {
            if has_client_id(self.clients@, id@) {
                let w = client_index_of(self.clients@, id@);
                assert(ids@[w]@ == id@);
            }
        }
        id
    }

    /// A lobby id no open lobby carries.
    fn fresh_lobby_id(&self) -> (id: String)
        ensures
            !has_lobby_id(self.lobbies@, id@),
    {
        let mut ids: Vec<String> = Vec::new();
        let mut i: usize = 0;
        while i < self.lobbies.len()
            invariant
                i <= self.lobbies@.len(),
                ids@.len() == i,
                forall|k: int| 0 <= k < i ==> (#[trigger] ids@[k])@ == self.lobbies@[k].id@,
            decreases self.lobbies@.len() - i,
        {
            ids.push(self.lobbies[i].id.clone());
            i += 1;
        }
        let id = fresh_id(&ids);
        proof {
            if has_lobby_id(self.lobbies@, id@) {
                let w = lobby_index_of(self.lobbies@, id@);
                assert(ids@[w]@ == id@);
            }
        }
        id
    }

    /// A snapshot of the current lobby list.
    fn clone_lobbies(&self) -> (r: Vec<Lobby>)
        ensures
            r@.len() == self.lobbies@.len(),
            forall|i: int| 0 <= i < r@.len() ==> (#[trigger] r@[i])@ == self.lobbies@[i]@,
    {
        let mut r: Vec<Lobby> = Vec::new();
        let mut i: usize = 0;
        while i < self.lobbies.len()
            invariant
                i <= self.lobbies@.len(),
                r@.len() == i,
                forall|k: int| 0 <= k < i ==> (#[trigger] r@[k])@ == self.lobbies@[k]@,
            decreases self.lobbies@.len() - i,
        {
            r.push(self.lobbies[i].clone());
            i += 1;
        }
        r
    }

    /// Handle a connection request from a connection that has no client
    /// id yet. On successful authentication a collision-free client id
    /// is allocated, the client is registered expecting the sequence
    /// number after the received one, and the success reply carries the
    /// id. A request failing authentication registers nothing; the
    /// reply, addressed to the still-anonymous requesting connection,
    /// reports an unsupported authentication method.
    pub fn connect_client<A: ConnectRequestAuth>(
        &mut self,
        request: &ConnectRequest<A>,
        received_seq: u32,
    ) -> (r: (Option<String>, Outgoing<S::State>))
        requires
            old(self).wf(),
        ensures
            Self::connect_post(*old(self), *final(self), request.spec_auth_data().spec_authenticated(), received_seq, r.0, r.1),
    {
        if request.authenticate() {
            let id = self.fresh_client_id();
            let client = Client {
                id: id.clone(),
                lobby_id: None,
                next_message_id: wrap_inc(received_seq),
            };
            self.clients.push(client);
            proof {
                let n = self.clients@.len() - 1;
                assert forall|i: int, j: int|
                    0 <= i < j < self.clients@.len() implies (#[trigger] self.clients@[i]).id@
                    != (#[trigger] self.clients@[j]).id@ by {
                    if j == n {
                        if self.clients@[i].id@ == id@ {
                            assert(old(self).clients@[i].id@ == id@);
                            assert(has_client_id(old(self).clients@, id@));
                        }
                    } else {
                        assert(old(self).clients@[i].id@ != old(self).clients@[j].id@);
                    }
                }
                assert forall|i: int|
                    0 <= i < self.clients@.len() implies self.client_lobby_ok(
                    #[trigger] self.clients@[i],
                ) by {
                    if i < n {
                        assert(old(self).client_lobby_ok(old(self).clients@[i]));
                        assert(self.lobbies@ == old(self).lobbies@);
                    }
                }
                assert(self.clients@.subrange(0, old(self).clients@.len() as int) =~= old(
                    self,
                ).clients@);
                Self::lemma_wf_after_clients_change(*old(self), *self);
            }
            (
                Some(id.clone()),
                Outgoing {
                    to: id.clone(),
                    status: StatusCode::Success,
                    message_type: MessageType::ConnectResponse,
                    body: ResponseBody::ClientIdBody(id),
                },
            )
        } else {
            (
                None,
                Outgoing {
                    to: String::new(),
                    status: StatusCode::UnsupportedAuthMethod,
                    message_type: MessageType::ProtocolError,
                    body: ResponseBody::NoBody,
                },
            )
        }
    }

    /// The reply to a lobby-list request: the full current list.
    pub open spec fn lobby_list_reply(s: Self, cid: Seq<char>, reply: Outgoing<S::State>) -> bool {
        &&& reply.to@ == cid
        &&& reply.status == StatusCode::Success
        &&& reply.message_type == MessageType::LobbyListResponse
        &&& (reply.body matches ResponseBody::LobbyListBody(ls) && ls@.len() == s.lobbies@.len()
            && forall|i: int| 0 <= i < ls@.len() ==> (#[trigger] ls@[i])@ == s.lobbies@[i]@)
    }

    /// The reply to a supported-games request: every registered key.
    pub open spec fn supported_games_reply(s: Self, cid: Seq<char>, reply: Outgoing<S::State>) -> bool {
        &&& reply.to@ == cid
        &&& reply.status == StatusCode::Success
        &&& reply.message_type == MessageType::SupportedGamesResponse
        &&& (reply.body matches ResponseBody::GamesBody(g) && g@.len() == s.supported_games@.len()
            && forall|i: int| 0 <= i < g@.len() ==> (#[trigger] g@[i])@ == s.spec_template_key(i))
    }

    /// The reply to a lobby-info request: the requester's snapshot, or
    /// `NotInLobby` when the requester occupies none.
    pub open spec fn lobby_info_reply(s: Self, cid: Seq<char>, reply: Outgoing<S::State>) -> bool {
        &&& reply.to@ == cid
        &&& (s.spec_client_of(cid).lobby_id is None ==> reply.status == StatusCode::NotInLobby
            && reply.message_type == MessageType::ProtocolError && reply.body is NoBody)
        &&& (s.spec_client_of(cid).lobby_id matches Some(lid) ==> reply.status
            == StatusCode::Success && reply.message_type == MessageType::LobbyInfoResponse && (
        reply.body matches ResponseBody::LobbyBody(l) && l@ == s.spec_lobby_of(lid@)@))
    }

    /// Reply with the full current lobby list.
    pub fn handle_lobby_list(&self, client_id: &String) -> (r: Outgoing<S::State>)
        ensures
            Self::lobby_list_reply(*self, client_id@, r),
    {
        Outgoing {
            to: client_id.clone(),
            status: StatusCode::Success,
            message_type: MessageType::LobbyListResponse,
            body: ResponseBody::LobbyListBody(self.clone_lobbies()),
        }
    }

    /// Reply with the list of registered game type ids.
    pub fn handle_supported_games(&self, client_id: &String) -> (r: Outgoing<S::State>)
        ensures
            Self::supported_games_reply(*self, client_id@, r),
    {
        let mut games: Vec<String> = Vec::new();
        let mut i: usize = 0;
        while i < self.supported_games.len()
            invariant
                i <= self.supported_games@.len(),
                games@.len() == i,
                forall|k: int| 0 <= k < i ==> (#[trigger] games@[k])@ == self.spec_template_key(k),
            decreases self.supported_games@.len() - i,
        {
            games.push(self.supported_games[i].get_metadata().get_game_type_id());
            i += 1;
        }
        Outgoing {
            to: client_id.clone(),
            status: StatusCode::Success,
            message_type: MessageType::SupportedGamesResponse,
            body: ResponseBody::GamesBody(games),
        }
    }

    /// Reply with the requester's current lobby snapshot, or `NotInLobby`
    /// when the requester occupies none.
    pub fn handle_lobby_info(&self, client_id: &String) -> (r: Outgoing<S::State>)
        requires
            self.wf(),
            has_client_id(self.clients@, client_id@),
        ensures
            Self::lobby_info_reply(*self, client_id@, r),
    {
        let ci = self.find_client(client_id).unwrap();
        proof {
            lemma_client_index_unique(self.clients@, client_id@, ci as int);
            assert(self.client_lobby_ok(self.clients@[ci as int]));
        }
        match &self.clients[ci].lobby_id {
            None => Outgoing {
                to: client_id.clone(),
                status: StatusCode::NotInLobby,
                message_type: MessageType::ProtocolError,
                body: ResponseBody::NoBody,
            },
            Some(lobby_id) => {
                let li = self.find_lobby(lobby_id).unwrap();
                proof {
                    lemma_lobby_index_unique(self.lobbies@, lobby_id@, li as int);
                }
                Outgoing {
                    to: client_id.clone(),
                    status: StatusCode::Success,
                    message_type: MessageType::LobbyInfoResponse,
                    body: ResponseBody::LobbyBody(self.lobbies[li].clone()),
                }
            },
        }
    }

    /// Handle a request to create a lobby. A game type the server does
    /// not support never creates a lobby and always draws
    /// `UnsupportedGame`; a requester already in a lobby draws
    /// `AlreadyInALobby`. Otherwise a lobby with a collision-free id is
    /// created, owned and occupied by the requester alone, and the reply
    /// carries its snapshot.
    pub fn handle_create_lobby(&mut self, client_id: &String, game_type_id: &String) -> (r:
        Outgoing<S::State>)
        requires
            old(self).wf(),
            has_client_id(old(self).clients@, client_id@),
        ensures
            Self::create_lobby_post(*old(self), *final(self), client_id@, game_type_id@, r),
    {
        let ti = match self.find_template(game_type_id) {
            Some(t) => t,
            None => {
                return Outgoing {
                    to: client_id.clone(),
                    status: StatusCode::UnsupportedGame,
                    message_type: MessageType::ProtocolError,
                    body: ResponseBody::NoBody,
                };
            },
        };
        let ci = self.find_client(client_id).unwrap();
        proof {
            lemma_client_index_unique(self.clients@, client_id@, ci as int);
        }
        if self.clients[ci].lobby_id.is_some() {
            return Outgoing {
                to: client_id.clone(),
                status: StatusCode::AlreadyInALobby,
                message_type: MessageType::ProtocolError,
                body: ResponseBody::NoBody,
            };
        }
        let lid = self.fresh_lobby_id();
        let meta = self.supported_games[ti].get_metadata().clone();
        let mut players: Vec<String> = Vec::new();
        players.push(client_id.clone());
        proof {
            assert(players.deep_view() =~= seq![client_id@]);
            old(self).lemma_template_index_unique(game_type_id@, ti as int);
        }
        let new_lobby = Lobby {
            id: lid.clone(),
            owner: client_id.clone(),
            player_ids: players,
            game_started: false,
            game_metadata: meta,
        };
        let reply_lobby = new_lobby.clone();
        self.clients[ci].lobby_id = Some(lid.clone());
        let ghost mid = *self;
        self.lobbies.push(new_lobby);
        proof {
            let n = old(self).lobbies@.len() as int;
            let l = self.lobbies@.last();
            assert(self.lobbies@.subrange(0, n) =~= old(self).lobbies@);
            assert(l@.player_ids =~= seq![client_id@]);
            // client ids are unchanged, so they stay unique
            assert forall|i: int, j: int|
                0 <= i < j < self.clients@.len() implies (#[trigger] self.clients@[i]).id@ != (
            #[trigger] self.clients@[j]).id@ by {
                assert((old(self).clients@[i]).id@ != (old(self).clients@[j]).id@);
            }
            // lobby ids stay unique and old references stay coherent
            Self::lemma_lobby_ok_after_push(mid, *self, l);
            // the new lobby is well-formed and backed by its template
            assert(l@.player_ids[0] == client_id@);
            assert(l@.player_ids.contains(client_id@));
            Self::lemma_template_clauses_from(*old(self), *self);
            Self::lemma_session_clause_from(*old(self), *self);
            assert(self.has_template(
                spec_game_type_id(l@.game_metadata.game_title, l@.game_metadata.version),
            )) by {
                assert(self.spec_template_key(ti as int) == game_type_id@);
            }
            assert forall|i: int|
                0 <= i < self.lobbies@.len() implies (#[trigger] self.lobbies@[i])@.wf()
                && self.lobbies@[i]@.player_ids.len() > 0 && self.has_template(
                spec_game_type_id(
                    self.lobbies@[i]@.game_metadata.game_title,
                    self.lobbies@[i]@.game_metadata.version,
                ),
            ) by {
                if i < n {
                    assert(self.lobbies@[i] == old(self).lobbies@[i]);
                    assert((old(self).lobbies@[i])@.wf());
                    assert(old(self).lobbies@[i]@.player_ids.len() > 0);
                    assert(old(self).has_template(
                        spec_game_type_id(
                            old(self).lobbies@[i]@.game_metadata.game_title,
                            old(self).lobbies@[i]@.game_metadata.version,
                        ),
                    ));
                }
            }
            // every client's lobby reference is coherent
            assert forall|i: int|
                0 <= i < self.clients@.len() implies self.client_lobby_ok(
                #[trigger] self.clients@[i],
            ) by {
                if i == ci as int {
                    lemma_lobby_index_unique(self.lobbies@, lid@, n);
                } else {
                    assert(old(self).client_lobby_ok(old(self).clients@[i]));
                    assert(mid.client_lobby_ok(mid.clients@[i]));
                    assert(mid.client_lobby_ok(self.clients@[i]));
                }
            }
            // every listed player points back at its lobby
            assert(self.lobby_players_ok()) by {
                assert forall|i: int, j: int|
                    0 <= i < self.lobbies@.len() && 0 <= j < (
                #[trigger] self.lobbies@[i])@.player_ids.len() implies {
                    let pid = #[trigger] self.lobbies@[i]@.player_ids[j];
                    &&& has_client_id(self.clients@, pid)
                    &&& (self.spec_client_of(pid).lobby_id matches Some(lid2) && lid2@
                        == self.lobbies@[i].id@)
                } by {
                    if i < n {
                        assert(self.lobbies@[i] == old(self).lobbies@[i]);
                        let pid = old(self).lobbies@[i]@.player_ids[j];
                        assert(has_client_id(old(self).clients@, pid) && (old(self).spec_client_of(
                            pid,
                        ).lobby_id matches Some(lid2) && lid2@ == old(self).lobbies@[i].id@));
                        let w = client_index_of(old(self).clients@, pid);
                        // the requester was in no lobby, so the listed player
                        // is another client, whose record is unchanged
                        assert(w != ci as int);
                        assert(self.clients@[w] == old(self).clients@[w]);
                        lemma_client_index_unique(self.clients@, pid, w);
                    } else {
                        assert(self.lobbies@[i]@.player_ids[0] == client_id@);
                        lemma_client_index_unique(self.clients@, client_id@, ci as int);
                    }
                }
            }
        }
        Outgoing {
            to: client_id.clone(),
            status: StatusCode::Success,
            message_type: MessageType::LobbyInfoResponse,
            body: ResponseBody::LobbyBody(reply_lobby),
        }
    }

    /// Handle a request to join a lobby. A requester already in a lobby
    /// draws `AlreadyInALobby`; a missing lobby draws `LobbyNotFound`; a
    /// full lobby is left untouched and draws `GameStarted` when its game
    /// started and `LobbyFull` otherwise. Otherwise the requester is
    /// appended to the player list and every player of the lobby,
    /// including the joiner, is sent the updated snapshot.
    pub fn handle_join_lobby(&mut self, client_id: &String, lobby_id: &String) -> (r: Vec<
        Outgoing<S::State>,
    >)
        requires
            old(self).wf(),
            has_client_id(old(self).clients@, client_id@),
        ensures
            Self::join_lobby_post(*old(self), *final(self), client_id@, lobby_id@, r@),
    {
        let ci = self.find_client(client_id).unwrap();
        proof {
            lemma_client_index_unique(self.clients@, client_id@, ci as int);
        }
        if self.clients[ci].lobby_id.is_some() {
            return protocol_error_reply(client_id, StatusCode::AlreadyInALobby);
        }
        let li = match self.find_lobby(lobby_id) {
            Some(l) => l,
            None => {
                return protocol_error_reply(client_id, StatusCode::LobbyNotFound);
            },
        };
        proof {
            lemma_lobby_index_unique(self.lobbies@, lobby_id@, li as int);
        }
        if self.lobbies[li].is_full() {
            if self.lobbies[li].game_started {
                return protocol_error_reply(client_id, StatusCode::GameStarted);
            } else {
                return protocol_error_reply(client_id, StatusCode::LobbyFull);
            }
        }
        proof {
            // the requester occupies no lobby, so no lobby lists it
            assert forall|i: int, j: int|
                0 <= i < self.lobbies@.len() && 0 <= j
                    < self.lobbies@[i]@.player_ids.len() implies #[trigger] self.lobbies@[
                i
            ]@.player_ids[j] != client_id@ by {
                let pid = self.lobbies@[i]@.player_ids[j];
                assert(has_client_id(self.clients@, pid) && (self.spec_client_of(
                    pid,
                ).lobby_id matches Some(lid2) && lid2@ == self.lobbies@[i].id@));
                if pid == client_id@ {
                    lemma_client_index_unique(self.clients@, pid, ci as int);
                }
            }
        }
        self.lobbies[li].player_ids.push(client_id.clone());
        self.clients[ci].lobby_id = Some(lobby_id.clone());
        proof {
            let lii = li as int;
            let cii = ci as int;
            let oldl = old(self).lobbies@[lii];
            let newl = self.lobbies@[lii];
            assert(newl@.player_ids =~= oldl@.player_ids.push(client_id@));
            assert(self.lobbies@ =~= old(self).lobbies@.update(lii, newl));
            // client ids are unchanged, so they stay unique
            assert forall|i: int, j: int|
                0 <= i < j < self.clients@.len() implies (#[trigger] self.clients@[i]).id@ != (
            #[trigger] self.clients@[j]).id@ by {
                assert((old(self).clients@[i]).id@ != (old(self).clients@[j]).id@);
            }
            // lobby ids are unchanged, so they stay unique
            assert forall|i: int, j: int|
                0 <= i < j < self.lobbies@.len() implies (#[trigger] self.lobbies@[i]).id@ != (
            #[trigger] self.lobbies@[j]).id@ by {
                assert((old(self).lobbies@[i]).id@ != (old(self).lobbies@[j]).id@);
            }
            Self::lemma_template_clauses_from(*old(self), *self);
            Self::lemma_session_clause_from(*old(self), *self);
            // the joined lobby is still well-formed; the rest unchanged
            assert(newl@.wf()) by {
                assert(oldl@.wf());
                let w = choose|w: int|
                    0 <= w < oldl@.player_ids.len() && oldl@.player_ids[w] == oldl@.owner;
                assert(newl@.player_ids[w] == newl@.owner);
            }
            assert forall|i: int|
                0 <= i < self.lobbies@.len() implies (#[trigger] self.lobbies@[i])@.wf()
                && self.lobbies@[i]@.player_ids.len() > 0 && self.has_template(
                spec_game_type_id(
                    self.lobbies@[i]@.game_metadata.game_title,
                    self.lobbies@[i]@.game_metadata.version,
                ),
            ) by {
                assert((old(self).lobbies@[i])@.wf());
                assert(old(self).lobbies@[i]@.player_ids.len() > 0);
                assert(old(self).has_template(
                    spec_game_type_id(
                        old(self).lobbies@[i]@.game_metadata.game_title,
                        old(self).lobbies@[i]@.game_metadata.version,
                    ),
                ));
                if i == lii {
                    assert(old(self).lobbies@[i]@.game_metadata == self.lobbies@[
                        i
                    ]@.game_metadata);
                }
            }
            // every client's lobby reference is coherent
            assert forall|i: int|
                0 <= i < self.clients@.len() implies self.client_lobby_ok(
                #[trigger] self.clients@[i],
            ) by {
                if i == cii {
                    lemma_lobby_index_unique(self.lobbies@, lobby_id@, lii);
                    assert(newl@.player_ids.last() == client_id@);
                } else {
                    let c = self.clients@[i];
                    assert(c == old(self).clients@[i]);
                    assert(old(self).client_lobby_ok(c));
                    match c.lobby_id {
                        Some(lid) => {
                            let w = lobby_index_of(old(self).lobbies@, lid@);
                            lemma_lobby_index_unique(self.lobbies@, lid@, w);
                            if w == lii {
                                let v = choose|v: int|
                                    0 <= v < oldl@.player_ids.len() && oldl@.player_ids[v]
                                        == c.id@;
                                assert(newl@.player_ids[v] == c.id@);
                            }
                        },
                        None => {},
                    }
                }
            }
            // every listed player points back at its lobby
            assert(self.lobby_players_ok()) by {
                assert forall|i: int, j: int|
                    0 <= i < self.lobbies@.len() && 0 <= j < (
                #[trigger] self.lobbies@[i])@.player_ids.len() implies {
                    let pid = #[trigger] self.lobbies@[i]@.player_ids[j];
                    &&& has_client_id(self.clients@, pid)
                    &&& (self.spec_client_of(pid).lobby_id matches Some(lid2) && lid2@
                        == self.lobbies@[i].id@)
                } by {
                    let pid = self.lobbies@[i]@.player_ids[j];
                    if i == lii && j == oldl@.player_ids.len() {
                        assert(pid == client_id@);
                        lemma_client_index_unique(self.clients@, client_id@, cii);
                    } else {
                        assert(old(self).lobbies@[i]@.player_ids[j] == pid);
                        assert(has_client_id(old(self).clients@, pid) && (old(self).spec_client_of(
                            pid,
                        ).lobby_id matches Some(lid2) && lid2@ == old(self).lobbies@[i].id@));
                        let w = client_index_of(old(self).clients@, pid);
                        assert(w != cii);
                        assert(self.clients@[w] == old(self).clients@[w]);
                        lemma_client_index_unique(self.clients@, pid, w);
                    }
                }
            }
        }
        let mut r: Vec<Outgoing<S::State>> = Vec::new();
        let mut k: usize = 0;
        let ghost newl = self.lobbies@[li as int];
        while k < self.lobbies[li].player_ids.len()
            invariant
                li < self.lobbies@.len(),
                self.lobbies@[li as int] == newl,
                k <= newl@.player_ids.len(),
                r@.len() == k,
                forall|m: int|
                    0 <= m < k ==> (#[trigger] r@[m]).to@ == newl@.player_ids[m] && r@[m].status
                        == StatusCode::Success && r@[m].message_type
                        == MessageType::LobbyInfoResponse && (
                    r@[m].body matches ResponseBody::LobbyBody(lb) && lb@ == newl@),
            decreases newl@.player_ids.len() - k,
        {
            r.push(
                Outgoing {
                    to: self.lobbies[li].player_ids[k].clone(),
                    status: StatusCode::Success,
                    message_type: MessageType::LobbyInfoResponse,
                    body: ResponseBody::LobbyBody(self.lobbies[li].clone()),
                },
            );
            k += 1;
        }
        r
    }

    /// Take a client out of the lobby it occupies: remove it from the
    /// player list and clear its lobby reference. A lobby left empty is
    /// destroyed (the result says so); otherwise, when the leaver owned
    /// the lobby, ownership passes to the first remaining player.
    #[verifier::rlimit(100)]
    fn remove_client_from_lobby(&mut self, ci: usize) -> (removed_lobby: bool)
        requires
            old(self).wf(),
            ci < old(self).clients@.len(),
            old(self).clients@[ci as int].lobby_id is Some,
        ensures
            final(self).wf(),
            final(self).supported_games@ == old(self).supported_games@,
            final(self).games_in_progress@ == old(self).games_in_progress@,
            final(self).clients@.len() == old(self).clients@.len(),
            forall|k: int|
                0 <= k < old(self).clients@.len() && k != ci ==> final(self).clients@[k] == old(
                    self,
                ).clients@[k],
            final(self).clients@[ci as int].id@ == old(self).clients@[ci as int].id@,
            final(self).clients@[ci as int].lobby_id is None,
            final(self).clients@[ci as int].next_message_id == old(self).clients@[
                ci as int
            ].next_message_id,
            ({
                let lid = old(self).clients@[ci as int].lobby_id->Some_0;
                let li = lobby_index_of(old(self).lobbies@, lid@);
                let oldl = old(self).lobbies@[li];
                let cid = old(self).clients@[ci as int].id@;
                let p = player_index_in(oldl@, cid);
                if oldl@.player_ids.len() == 1 {
                    removed_lobby == true && final(self).lobbies@ == old(self).lobbies@.remove(li)
                } else {
                    let newl = final(self).lobbies@[li];
                    &&& removed_lobby == false
                    &&& final(self).lobbies@ == old(self).lobbies@.update(li, newl)
                    &&& newl.id@ == oldl.id@
                    &&& newl@.game_started == oldl@.game_started
                    &&& newl@.game_metadata == oldl@.game_metadata
                    &&& newl@.player_ids == oldl@.player_ids.remove(p)
                    &&& newl@.owner == if oldl@.owner == cid {
                        newl@.player_ids[0]
                    } else {
                        oldl@.owner
                    }
                }
            }),
    {
        let cid = self.clients[ci].id.clone();
        let lid = match &self.clients[ci].lobby_id {
            Some(l) => l.clone(),
            None => {
                // ruled out by the precondition
                proof {
                    assert(false);
                }
                String::new()
            },
        };
        let li = self.find_lobby(&lid).unwrap();
        proof {
            assert(old(self).client_lobby_ok(old(self).clients@[ci as int]));
            lemma_lobby_index_unique(self.lobbies@, lid@, li as int);
        }
        // find where the leaver stands in the player list
        let ghost oldl = self.lobbies@[li as int];
        let p = position_of(&self.lobbies[li].player_ids, &cid).unwrap();
        proof {
            assert(oldl@.player_ids[p as int] == cid@);
            assert(oldl@.wf());
            lemma_player_index_unique(oldl@, cid@, p as int);
        }
        self.lobbies[li].player_ids.remove(p);
        self.clients[ci].lobby_id = None;
        let ghost cii = ci as int;
        let ghost lii = li as int;
        proof {
            // clients: ids unchanged, unique; the leaver's reference cleared
            assert forall|i: int, j: int|
                0 <= i < j < self.clients@.len() implies (#[trigger] self.clients@[i]).id@ != (
            #[trigger] self.clients@[j]).id@ by {
                assert((old(self).clients@[i]).id@ != (old(self).clients@[j]).id@);
            }
            // the leaver stood in no other lobby's list, and no other
            // client stood in the left lobby's list under the leaver's id
            assert forall|i: int, j: int|
                0 <= i < self.lobbies@.len() && i != lii && 0 <= j < old(
                    self,
                ).lobbies@[i]@.player_ids.len() implies #[trigger] old(self).lobbies@[
                i
            ]@.player_ids[j] != cid@ by {
                let pid = old(self).lobbies@[i]@.player_ids[j];
                assert(has_client_id(old(self).clients@, pid) && (old(self).spec_client_of(
                    pid,
                ).lobby_id matches Some(lid2) && lid2@ == old(self).lobbies@[i].id@));
                if pid == cid@ {
                    lemma_client_index_unique(old(self).clients@, cid@, cii);
                    assert(old(self).lobbies@[i].id@ == lid@);
                    assert((old(self).lobbies@[i]).id@ != (old(self).lobbies@[lii]).id@);
                }
            }
        }
        if self.lobbies[li].player_ids.len() == 0 {
            self.lobbies.remove(li);
            proof {
                assert(oldl@.player_ids.len() == 1);
                assert(self.lobbies@ =~= old(self).lobbies@.remove(lii));
                assert forall|i: int, j: int|
                    0 <= i < j < self.lobbies@.len() implies (#[trigger] self.lobbies@[i]).id@
                    != (#[trigger] self.lobbies@[j]).id@ by {
                    let oi = if i < lii {
                        i
                    } else {
                        i + 1
                    };
                    let oj = if j < lii {
                        j
                    } else {
                        j + 1
                    };
                    assert((old(self).lobbies@[oi]).id@ != (old(self).lobbies@[oj]).id@);
                }
                Self::lemma_template_clauses_from(*old(self), *self);
                Self::lemma_session_clause_from(*old(self), *self);
                assert forall|i: int|
                    0 <= i < self.lobbies@.len() implies (#[trigger] self.lobbies@[i])@.wf()
                    && self.lobbies@[i]@.player_ids.len() > 0 && self.has_template(
                    spec_game_type_id(
                        self.lobbies@[i]@.game_metadata.game_title,
                        self.lobbies@[i]@.game_metadata.version,
                    ),
                ) by {
                    let oi = if i < lii {
                        i
                    } else {
                        i + 1
                    };
                    assert(self.lobbies@[i] == old(self).lobbies@[oi]);
                    assert((old(self).lobbies@[oi])@.wf());
                    assert(old(self).lobbies@[oi]@.player_ids.len() > 0);
                    assert(old(self).has_template(
                        spec_game_type_id(
                            old(self).lobbies@[oi]@.game_metadata.game_title,
                            old(self).lobbies@[oi]@.game_metadata.version,
                        ),
                    ));
                }
                assert forall|i: int|
                    0 <= i < self.clients@.len() implies self.client_lobby_ok(
                    #[trigger] self.clients@[i],
                ) by {
                    if i != cii {
                        let c = self.clients@[i];
                        assert(c == old(self).clients@[i]);
                        assert(old(self).client_lobby_ok(c));
                        match c.lobby_id {
                            Some(lid2) => {
                                let w = lobby_index_of(old(self).lobbies@, lid2@);
                                // the leaver was alone, so nobody else
                                // pointed at the destroyed lobby
                                assert(old(self).lobbies@[w]@.player_ids.contains(c.id@));
                                let v = choose|v: int|
                                    0 <= v < old(self).lobbies@[w]@.player_ids.len() && old(
                                        self,
                                    ).lobbies@[w]@.player_ids[v] == c.id@;
                                if w == lii {
                                    assert(old(self).lobbies@[w]@.player_ids[v] == cid@);
                                    lemma_client_index_unique(old(self).clients@, cid@, cii);
                                    assert(false);
                                }
                                let ni = if w < lii {
                                    w
                                } else {
                                    w - 1
                                };
                                assert(self.lobbies@[ni] == old(self).lobbies@[w]);
                                lemma_lobby_index_unique(self.lobbies@, lid2@, ni);
                            },
                            None => {},
                        }
                    }
                }
                assert(self.lobby_players_ok()) by {
                    assert forall|i: int, j: int|
                        0 <= i < self.lobbies@.len() && 0 <= j < (
                    #[trigger] self.lobbies@[i])@.player_ids.len() implies {
                        let pid = #[trigger] self.lobbies@[i]@.player_ids[j];
                        &&& has_client_id(self.clients@, pid)
                        &&& (self.spec_client_of(pid).lobby_id matches Some(lid2) && lid2@
                            == self.lobbies@[i].id@)
                    } by {
                        let oi = if i < lii {
                            i
                        } else {
                            i + 1
                        };
                        assert(self.lobbies@[i] == old(self).lobbies@[oi]);
                        let pid = old(self).lobbies@[oi]@.player_ids[j];
                        assert(has_client_id(old(self).clients@, pid) && (old(self).spec_client_of(
                            pid,
                        ).lobby_id matches Some(lid2) && lid2@ == old(self).lobbies@[oi].id@));
                        let w = client_index_of(old(self).clients@, pid);
                        assert(pid != cid@);
                        assert(w != cii) by {
                            if w == cii {
                                assert(old(self).clients@[w].id@ == pid);
                            }
                        }
                        assert(self.clients@[w] == old(self).clients@[w]);
                        lemma_client_index_unique(self.clients@, pid, w);
                    }
                }
            }
            true
        } else {
            let owner_left = self.lobbies[li].owner == self.clients[ci].id;
            if owner_left {
                self.lobbies[li].owner = self.lobbies[li].player_ids[0].clone();
            }
            proof {
                let p = p as int;
                let newl = self.lobbies@[lii];
                assert(self.lobbies@ =~= old(self).lobbies@.update(lii, newl));
                assert(newl@.player_ids == oldl@.player_ids.remove(p));
                assert forall|k: int|
                    0 <= k < newl@.player_ids.len() implies #[trigger] newl@.player_ids[k] == (
                if k < p {
                    oldl@.player_ids[k]
                } else {
                    oldl@.player_ids[k + 1]
                }) by {}
                assert forall|i: int, j: int|
                    0 <= i < j < self.lobbies@.len() implies (#[trigger] self.lobbies@[i]).id@
                    != (#[trigger] self.lobbies@[j]).id@ by {
                    assert((old(self).lobbies@[i]).id@ != (old(self).lobbies@[j]).id@);
                }
                Self::lemma_template_clauses_from(*old(self), *self);
                Self::lemma_session_clause_from(*old(self), *self);
                // the shrunk lobby is still well-formed
                assert(newl@.wf()) by {
                    assert(oldl@.wf());
                    assert forall|a: int, b: int|
                        0 <= a < b < newl@.player_ids.len() implies newl@.player_ids[a]
                        != newl@.player_ids[b] by {
                        let oa = if a < p {
                            a
                        } else {
                            a + 1
                        };
                        let ob = if b < p {
                            b
                        } else {
                            b + 1
                        };
                        assert(oldl@.player_ids[oa] != oldl@.player_ids[ob]);
                    }
                    if newl@.owner == newl@.player_ids[0] {
                    } else {
                        assert(oldl@.owner != cid@);
                        let w = choose|w: int|
                            0 <= w < oldl@.player_ids.len() && oldl@.player_ids[w] == oldl@.owner;
                        assert(w != p);
                        let nw = if w < p {
                            w
                        } else {
                            w - 1
                        };
                        assert(newl@.player_ids[nw] == oldl@.owner);
                        assert(newl@.player_ids.contains(newl@.owner));
                    }
                }
                assert forall|i: int|
                    0 <= i < self.lobbies@.len() implies (#[trigger] self.lobbies@[i])@.wf()
                    && self.lobbies@[i]@.player_ids.len() > 0 && self.has_template(
                    spec_game_type_id(
                        self.lobbies@[i]@.game_metadata.game_title,
                        self.lobbies@[i]@.game_metadata.version,
                    ),
                ) by {
                    assert((old(self).lobbies@[i])@.wf());
                    assert(old(self).lobbies@[i]@.player_ids.len() > 0);
                    assert(old(self).has_template(
                        spec_game_type_id(
                            old(self).lobbies@[i]@.game_metadata.game_title,
                            old(self).lobbies@[i]@.game_metadata.version,
                        ),
                    ));
                    if i == lii {
                        assert(newl@.game_metadata == oldl@.game_metadata);
                    }
                }
                assert forall|i: int|
                    0 <= i < self.clients@.len() implies self.client_lobby_ok(
                    #[trigger] self.clients@[i],
                ) by {
                    if i != cii {
                        let c = self.clients@[i];
                        assert(c == old(self).clients@[i]);
                        assert(old(self).client_lobby_ok(c));
                        match c.lobby_id {
                            Some(lid2) => {
                                let w = lobby_index_of(old(self).lobbies@, lid2@);
                                lemma_lobby_index_unique(self.lobbies@, lid2@, w);
                                if w == lii {
                                    assert(c.id@ != cid@) by {
                                        if c.id@ == cid@ {
                                            assert((old(self).clients@[i]).id@ != (old(
                                                self,
                                            ).clients@[cii]).id@);
                                        }
                                    }
                                    let v = choose|v: int|
                                        0 <= v < oldl@.player_ids.len() && oldl@.player_ids[v]
                                            == c.id@;
                                    assert(v != p);
                                    let nv = if v < p {
                                        v
                                    } else {
                                        v - 1
                                    };
                                    assert(newl@.player_ids[nv] == c.id@);
                                    assert(newl@.player_ids.contains(c.id@));
                                }
                            },
                            None => {},
                        }
                    }
                }
                assert(self.lobby_players_ok()) by {
                    assert forall|i: int, j: int|
                        0 <= i < self.lobbies@.len() && 0 <= j < (
                    #[trigger] self.lobbies@[i])@.player_ids.len() implies {
                        let pid = #[trigger] self.lobbies@[i]@.player_ids[j];
                        &&& has_client_id(self.clients@, pid)
                        &&& (self.spec_client_of(pid).lobby_id matches Some(lid2) && lid2@
                            == self.lobbies@[i].id@)
                    } by {
                        let pid = self.lobbies@[i]@.player_ids[j];
                        let oj = if i == lii && j >= p {
                            j + 1
                        } else {
                            j
                        };
                        assert(pid == old(self).lobbies@[i]@.player_ids[oj]);
                        assert(has_client_id(old(self).clients@, pid) && (old(self).spec_client_of(
                            pid,
                        ).lobby_id matches Some(lid2) && lid2@ == old(self).lobbies@[i].id@));
                        let w = client_index_of(old(self).clients@, pid);
                        assert(w != cii) by {
                            if w == cii {
                                assert(pid == cid@);
                                if i == lii {
                                    assert(oldl@.player_ids[oj] != oldl@.player_ids[p]);
                                } else {
                                    assert(old(self).lobbies@[i]@.player_ids[oj] != cid@);
                                }
                            }
                        }
                        assert(self.clients@[w] == old(self).clients@[w]);
                        lemma_client_index_unique(self.clients@, pid, w);
                    }
                }
            }
            false
        }
    }

    /// Handle a request to leave the lobby. A requester in no lobby
    /// receives an acknowledged no-op: a `LeaveLobbyResponse` with
    /// `NotInLobby`, not a protocol error. Otherwise the requester is
    /// removed; a lobby left empty is destroyed, else ownership passes
    /// on if the leaver owned it and the remaining players get the
    /// updated snapshot. The requester always gets a successful
    /// `LeaveLobbyResponse` last.
    pub fn handle_leave_lobby(&mut self, client_id: &String) -> (r: Vec<Outgoing<S::State>>)
        requires
            old(self).wf(),
            has_client_id(old(self).clients@, client_id@),
        ensures
            Self::leave_lobby_post(*old(self), *final(self), client_id@, r@),
    {
        let ci = self.find_client(client_id).unwrap();
        proof {
            lemma_client_index_unique(self.clients@, client_id@, ci as int);
        }
        if self.clients[ci].lobby_id.is_none() {
            let mut r: Vec<Outgoing<S::State>> = Vec::new();
            r.push(
                Outgoing {
                    to: client_id.clone(),
                    status: StatusCode::NotInLobby,
                    message_type: MessageType::LeaveLobbyResponse,
                    body: ResponseBody::NoBody,
                },
            );
            return r;
        }
        let lid = match &self.clients[ci].lobby_id {
            Some(l) => l.clone(),
            None => {
                // ruled out by the branch above
                proof {
                    assert(false);
                }
                String::new()
            },
        };
        let removed = self.remove_client_from_lobby(ci);
        let mut r: Vec<Outgoing<S::State>> = Vec::new();
        if !removed {
            let li = self.find_lobby(&lid).unwrap();
            proof {
                lemma_lobby_index_unique(old(self).lobbies@, lid@, lobby_index_of(
                    old(self).lobbies@,
                    lid@,
                ));
                lemma_lobby_index_unique(self.lobbies@, lid@, li as int);
            }
            let ghost newl = self.lobbies@[li as int];
            let mut k: usize = 0;
            while k < self.lobbies[li].player_ids.len()
                invariant
                    li < self.lobbies@.len(),
                    self.lobbies@[li as int] == newl,
                    k <= newl@.player_ids.len(),
                    r@.len() == k,
                    forall|m: int|
                        0 <= m < k ==> (#[trigger] r@[m]).to@ == newl@.player_ids[m] && r@[
                            m
                        ].status == StatusCode::Success && r@[m].message_type
                            == MessageType::LobbyInfoResponse && (
                        r@[m].body matches ResponseBody::LobbyBody(lb) && lb@ == newl@),
                decreases newl@.player_ids.len() - k,
            {
                r.push(
                    Outgoing {
                        to: self.lobbies[li].player_ids[k].clone(),
                        status: StatusCode::Success,
                        message_type: MessageType::LobbyInfoResponse,
                        body: ResponseBody::LobbyBody(self.lobbies[li].clone()),
                    },
                );
                k += 1;
            }
        }
        r.push(
            Outgoing {
                to: client_id.clone(),
                status: StatusCode::Success,
                message_type: MessageType::LeaveLobbyResponse,
                body: ResponseBody::NoBody,
            },
        );
        r
    }

    /// Clean up after a connection ends, however it ended: take the
    /// client out of any lobby it occupies (destroying an emptied lobby,
    /// passing ownership on otherwise) and drop the client record. When a
    /// game is in progress under that lobby, the remaining players get
    /// the updated lobby snapshot, sending them back to the lobby view. A
    /// game session whose players all disconnect is left in place.
    pub fn handle_disconnect(&mut self, client_id: &String) -> (r: Vec<Outgoing<S::State>>)
        requires
            old(self).wf(),
            has_client_id(old(self).clients@, client_id@),
        ensures
            final(self).wf(),
            final(self).supported_games@ == old(self).supported_games@,
            final(self).games_in_progress@ == old(self).games_in_progress@,
            !has_client_id(final(self).clients@, client_id@),
            final(self).clients@ == old(self).clients@.remove(
                client_index_of(old(self).clients@, client_id@),
            ),
            old(self).spec_client_of(client_id@).lobby_id is None ==> final(self).lobbies@ == old(
                self,
            ).lobbies@ && r@.len() == 0,
            old(self).spec_client_of(client_id@).lobby_id matches Some(lid) ==> ({
                let li = lobby_index_of(old(self).lobbies@, lid@);
                let oldl = old(self).lobbies@[li];
                &&& (oldl@.player_ids.len() == 1 ==> final(self).lobbies@ == old(
                    self,
                ).lobbies@.remove(li) && !has_lobby_id(final(self).lobbies@, lid@) && r@.len()
                    == 0)
                &&& (oldl@.player_ids.len() > 1 ==> ({
                    let newl = final(self).lobbies@[li];
                    let p = player_index_in(oldl@, client_id@);
                    &&& final(self).lobbies@ == old(self).lobbies@.update(li, newl)
                    &&& newl.id@ == lid@
                    &&& newl@.player_ids == oldl@.player_ids.remove(p)
                    &&& newl@.owner == if oldl@.owner == client_id@ {
                        newl@.player_ids[0]
                    } else {
                        oldl@.owner
                    }
                    &&& (old(self).has_game_session(lid@) ==> r@.len() == newl@.player_ids.len()
                        && (forall|k: int|
                        0 <= k < r@.len() ==> (#[trigger] r@[k]).to@ == newl@.player_ids[k] && r@[
                            k
                        ].status == StatusCode::Success && r@[k].message_type
                            == MessageType::LobbyInfoResponse && (
                        r@[k].body matches ResponseBody::LobbyBody(lb) && lb@ == newl@)))
                    &&& (!old(self).has_game_session(lid@) ==> r@.len() == 0)
                }))
            }),
    {
        let ci = self.find_client(client_id).unwrap();
        proof {
            lemma_client_index_unique(self.clients@, client_id@, ci as int);
        }
        let mut r: Vec<Outgoing<S::State>> = Vec::new();
        if self.clients[ci].lobby_id.is_some() {
            let lid = match &self.clients[ci].lobby_id {
                Some(l) => l.clone(),
                None => {
                    // ruled out by the branch above
                    proof {
                        assert(false);
                    }
                    String::new()
                },
            };
            let removed = self.remove_client_from_lobby(ci);
            if !removed && self.find_game_session(&lid).is_some() {
                let li = self.find_lobby(&lid).unwrap();
                proof {
                    lemma_lobby_index_unique(old(self).lobbies@, lid@, lobby_index_of(
                        old(self).lobbies@,
                        lid@,
                    ));
                    lemma_lobby_index_unique(self.lobbies@, lid@, li as int);
                }
                let ghost newl = self.lobbies@[li as int];
                let mut k: usize = 0;
                while k < self.lobbies[li].player_ids.len()
                    invariant
                        li < self.lobbies@.len(),
                        self.lobbies@[li as int] == newl,
                        k <= newl@.player_ids.len(),
                        r@.len() == k,
                        forall|m: int|
                            0 <= m < k ==> (#[trigger] r@[m]).to@ == newl@.player_ids[m] && r@[
                                m
                            ].status == StatusCode::Success && r@[m].message_type
                                == MessageType::LobbyInfoResponse && (
                            r@[m].body matches ResponseBody::LobbyBody(lb) && lb@ == newl@),
                    decreases newl@.player_ids.len() - k,
                {
                    r.push(
                        Outgoing {
                            to: self.lobbies[li].player_ids[k].clone(),
                            status: StatusCode::Success,
                            message_type: MessageType::LobbyInfoResponse,
                            body: ResponseBody::LobbyBody(self.lobbies[li].clone()),
                        },
                    );
                    k += 1;
                }
            }
        }
        let ghost mid = *self;
        self.clients.remove(ci);
        proof {
            Self::lemma_wf_after_client_removed(mid, *self, ci as int);
            assert(self.clients@ =~= old(self).clients@.remove(ci as int));
            if has_client_id(self.clients@, client_id@) {
                let w = client_index_of(self.clients@, client_id@);
                let ow = if w < ci as int {
                    w
                } else {
                    w + 1
                };
                assert(old(self).clients@[ow].id@ == client_id@);
                lemma_client_index_unique(old(self).clients@, client_id@, ow);
            }
        }
        r
    }

    /// The next sequence number the server expects from a client.
    pub fn expected_sequence(&self, client_id: &String) -> (r: u32)
        requires
            self.wf(),
            has_client_id(self.clients@, client_id@),
        ensures
            r == self.spec_client_of(client_id@).next_message_id,
    {
        let ci = self.find_client(client_id).unwrap();
        proof {
            lemma_client_index_unique(self.clients@, client_id@, ci as int);
        }
        self.clients[ci].next_message_id
    }

    /// Move a client's expected sequence number forward by one, wrapping
    /// from the largest value to zero.
    pub fn advance_sequence(&mut self, client_id: &String)
        requires
            old(self).wf(),
            has_client_id(old(self).clients@, client_id@),
        ensures
            Self::advanced_for(*old(self), *final(self), client_id@),
    {
        let ci = self.find_client(client_id).unwrap();
        proof {
            lemma_client_index_unique(self.clients@, client_id@, ci as int);
        }
        let n = self.clients[ci].next_message_id;
        self.clients[ci].next_message_id = wrap_inc(n);
        proof {
            let cii = ci as int;
            assert forall|i: int, j: int|
                0 <= i < j < self.clients@.len() implies (#[trigger] self.clients@[i]).id@ != (
            #[trigger] self.clients@[j]).id@ by {
                assert((old(self).clients@[i]).id@ != (old(self).clients@[j]).id@);
            }
            assert forall|i: int|
                0 <= i < self.clients@.len() implies self.client_lobby_ok(
                #[trigger] self.clients@[i],
            ) by {
                assert(old(self).client_lobby_ok(old(self).clients@[i]));
                assert(self.clients@[i].id@ == old(self).clients@[i].id@ && self.clients@[
                    i
                ].lobby_id == old(self).clients@[i].lobby_id);
            }
            assert(self.lobby_players_ok()) by {
                assert forall|i: int, j: int|
                    0 <= i < self.lobbies@.len() && 0 <= j < (
                #[trigger] self.lobbies@[i])@.player_ids.len() implies {
                    let pid = #[trigger] self.lobbies@[i]@.player_ids[j];
                    &&& has_client_id(self.clients@, pid)
                    &&& (self.spec_client_of(pid).lobby_id matches Some(lid2) && lid2@
                        == self.lobbies@[i].id@)
                } by {
                    assert(old(self).lobbies@[i] == self.lobbies@[i]);
                    let pid = old(self).lobbies@[i]@.player_ids[j];
                    assert(has_client_id(old(self).clients@, pid) && (old(self).spec_client_of(
                        pid,
                    ).lobby_id matches Some(lid2) && lid2@ == old(self).lobbies@[i].id@));
                    let w = client_index_of(old(self).clients@, pid);
                    assert(self.clients@[w].id@ == pid && self.clients@[w].lobby_id == old(
                        self,
                    ).clients@[w].lobby_id);
                    lemma_client_index_unique(self.clients@, pid, w);
                }
            }
            Self::lemma_wf_after_clients_change(*old(self), *self);
        }
    }

    /// Handle a request to start the game of a lobby. The game starts
    /// exactly when the requester owns the lobby it occupies, named that
    /// lobby in the request, and the player count lies between the
    /// game's minimum and maximum; otherwise nothing changes and the
    /// requester alone is told the criteria are not met. On success a
    /// fresh game instance is built from the registered template, every
    /// lobby player is added to it, it is stored under the lobby id, the
    /// lobby is marked started, and every player receives the opening
    /// game state.
    #[verifier::rlimit(100)]
    pub fn handle_start_game(&mut self, client_id: &String, lobby_id: &String) -> (r: Vec<Outgoing<
        S::State,
    >>)
        requires
            old(self).wf(),
            has_client_id(old(self).clients@, client_id@),
        ensures
            Self::start_game_post(*old(self), *final(self), client_id@, lobby_id@, r@),
    {
        let ci = self.find_client(client_id).unwrap();
        proof {
            lemma_client_index_unique(self.clients@, client_id@, ci as int);
        }
        let lid = match &self.clients[ci].lobby_id {
            Some(l) => l.clone(),
            None => {
                return protocol_error_reply(client_id, StatusCode::NotInLobby);
            },
        };
        let li = self.find_lobby(&lid).unwrap();
        proof {
            assert(old(self).client_lobby_ok(old(self).clients@[ci as int]));
            lemma_lobby_index_unique(self.lobbies@, lid@, li as int);
        }
        let nplayers = self.lobbies[li].player_ids.len();
        let req_met = nplayers >= self.lobbies[li].game_metadata.min_required_players && nplayers
            <= self.lobbies[li].game_metadata.max_players;
        let owner_ok = self.lobbies[li].owner == *client_id;
        let lobby_match = lid == *lobby_id;
        if !(lobby_match && owner_ok && req_met) {
            return protocol_error_reply(client_id, StatusCode::GameStartCriteriaNotMet);
        }
        let key = self.lobbies[li].game_metadata.get_game_type_id();
        proof {
            assert(old(self).has_template(key@));
        }
        let ti = self.find_template(&key).unwrap();
        proof {
            old(self).lemma_template_index_unique(key@, ti as int);
        }
        let mut game = self.supported_games[ti].init_new();
        let ghost players = self.lobbies@[li as int]@.player_ids;
        let ghost tmeta = self.supported_games@[ti as int].spec_metadata();
        let mut k: usize = 0;
        while k < nplayers
            invariant
                li < self.lobbies@.len(),
                nplayers == players.len(),
                players == self.lobbies@[li as int]@.player_ids,
                nplayers == self.lobbies@[li as int].player_ids@.len(),
                forall|a: int, b: int| 0 <= a < b < players.len() ==> players[a] != players[b],
                k <= nplayers,
                game.spec_metadata() == tmeta,
                tmeta.max_players >= players.len() ==> game.spec_players() == players.subrange(
                    0,
                    k as int,
                ),
            decreases nplayers - k,
        {
            proof {
                if tmeta.max_players >= players.len() && game.spec_players().contains(
                    players[k as int],
                ) {
                    let w = choose|w: int|
                        0 <= w < game.spec_players().len() && game.spec_players()[w] == players[
                            k as int
                        ];
                    assert(players[w] == players[k as int]);
                }
            }
            game.add_player(self.lobbies[li].player_ids[k].clone());
            proof {
                if tmeta.max_players >= players.len() {
                    assert(game.spec_players() =~= players.subrange(0, k as int + 1));
                }
            }
            k += 1;
        }
        proof {
            if tmeta.max_players >= players.len() {
                assert(players.subrange(0, players.len() as int) =~= players);
            }
        }
        let state_copy = game.get_game_state().duplicate();
        let ghost gfinal = game;
        let ghost oldgames = self.games_in_progress@;
        match self.find_game_session(&lid) {
            Some(si) => {
                self.games_in_progress[si] = (lid.clone(), game);
                proof {
                    assert forall|i: int, j: int|
                        0 <= i < j < self.games_in_progress@.len() implies (
                    #[trigger] self.games_in_progress@[i]).0@ != (
                    #[trigger] self.games_in_progress@[j]).0@ by {
                        assert((old(self).games_in_progress@[i]).0@ == self.games_in_progress@[
                            i
                        ].0@ || i == si);
                        assert((old(self).games_in_progress@[i]).0@ != (old(
                            self,
                        ).games_in_progress@[j]).0@);
                    }
                    lemma_session_index_unique(self.games_in_progress@, lid@, si as int);
                }
            },
            None => {
                self.games_in_progress.push((lid.clone(), game));
                proof {
                    let n = self.games_in_progress@.len() - 1;
                    assert forall|i: int, j: int|
                        0 <= i < j < self.games_in_progress@.len() implies (
                    #[trigger] self.games_in_progress@[i]).0@ != (
                    #[trigger] self.games_in_progress@[j]).0@ by {
                        if j == n {
                            if self.games_in_progress@[i].0@ == lid@ {
                                assert(old(self).has_game_session(lid@));
                            }
                        } else {
                            assert((old(self).games_in_progress@[i]).0@ != (old(
                                self,
                            ).games_in_progress@[j]).0@);
                        }
                    }
                    lemma_session_index_unique(self.games_in_progress@, lid@, n);
                }
            },
        }
        self.lobbies[li].game_started = true;
        proof {
            let lii = li as int;
            let newl = self.lobbies@[lii];
            assert(self.lobbies@ =~= old(self).lobbies@.update(lii, newl));
            // every session under another lobby id is kept
            assert forall|w: int|
                0 <= w < old(self).games_in_progress@.len() && (
            #[trigger] old(self).games_in_progress@[w]).0@ != lid@ implies self.games_in_progress@
                .contains(old(self).games_in_progress@[w]) by {
                assert(self.games_in_progress@[w] == old(self).games_in_progress@[w]);
            }
            Self::lemma_template_clauses_from(*old(self), *self);
            assert forall|i: int, j: int|
                0 <= i < j < self.lobbies@.len() implies (#[trigger] self.lobbies@[i]).id@ != (
            #[trigger] self.lobbies@[j]).id@ by {
                assert((old(self).lobbies@[i]).id@ != (old(self).lobbies@[j]).id@);
            }
            assert forall|i: int|
                0 <= i < self.lobbies@.len() implies (#[trigger] self.lobbies@[i])@.wf()
                && self.lobbies@[i]@.player_ids.len() > 0 && self.has_template(
                spec_game_type_id(
                    self.lobbies@[i]@.game_metadata.game_title,
                    self.lobbies@[i]@.game_metadata.version,
                ),
            ) by {
                assert((old(self).lobbies@[i])@.wf());
                assert(old(self).lobbies@[i]@.player_ids.len() > 0);
                assert(old(self).has_template(
                    spec_game_type_id(
                        old(self).lobbies@[i]@.game_metadata.game_title,
                        old(self).lobbies@[i]@.game_metadata.version,
                    ),
                ));
                if i == lii {
                    assert(newl@.game_metadata == old(self).lobbies@[i]@.game_metadata);
                    assert(newl@.player_ids == old(self).lobbies@[i]@.player_ids);
                    assert(newl@.owner == old(self).lobbies@[i]@.owner);
                }
            }
            assert forall|i: int|
                0 <= i < self.clients@.len() implies self.client_lobby_ok(
                #[trigger] self.clients@[i],
            ) by {
                let c = self.clients@[i];
                assert(old(self).client_lobby_ok(c));
                match c.lobby_id {
                    Some(lid2) => {
                        let w = lobby_index_of(old(self).lobbies@, lid2@);
                        lemma_lobby_index_unique(self.lobbies@, lid2@, w);
                        if w == lii {
                            assert(self.lobbies@[w]@.player_ids == old(self).lobbies@[
                                w
                            ]@.player_ids);
                        }
                    },
                    None => {},
                }
            }
            assert(self.lobby_players_ok()) by {
                assert forall|i: int, j: int|
                    0 <= i < self.lobbies@.len() && 0 <= j < (
                #[trigger] self.lobbies@[i])@.player_ids.len() implies {
                    let pid = #[trigger] self.lobbies@[i]@.player_ids[j];
                    &&& has_client_id(self.clients@, pid)
                    &&& (self.spec_client_of(pid).lobby_id matches Some(lid2) && lid2@
                        == self.lobbies@[i].id@)
                } by {
                    assert(self.lobbies@[i]@.player_ids == old(self).lobbies@[i]@.player_ids);
                    assert(self.lobbies@[i].id@ == old(self).lobbies@[i].id@);
                    let pid = old(self).lobbies@[i]@.player_ids[j];
                    assert(has_client_id(old(self).clients@, pid) && (old(self).spec_client_of(
                        pid,
                    ).lobby_id matches Some(lid2) && lid2@ == old(self).lobbies@[i].id@));
                }
            }
        }
        let mut r: Vec<Outgoing<S::State>> = Vec::new();
        let mut k2: usize = 0;
        let ghost newl = self.lobbies@[li as int];
        while k2 < self.lobbies[li].player_ids.len()
            invariant
                li < self.lobbies@.len(),
                self.lobbies@[li as int] == newl,
                state_copy@ == gfinal.spec_state()@,
                k2 <= newl@.player_ids.len(),
                r@.len() == k2,
                forall|m: int|
                    0 <= m < k2 ==> (#[trigger] r@[m]).to@ == newl@.player_ids[m] && r@[m].status
                        == StatusCode::Success && r@[m].message_type
                        == MessageType::GameStateResponse && (
                    r@[m].body matches ResponseBody::GameStateBody(b) && b@ == gfinal.spec_state()@),
            decreases newl@.player_ids.len() - k2,
        {
            r.push(
                Outgoing {
                    to: self.lobbies[li].player_ids[k2].clone(),
                    status: StatusCode::Success,
                    message_type: MessageType::GameStateResponse,
                    body: ResponseBody::GameStateBody(state_copy.duplicate()),
                },
            );
            k2 += 1;
        }
        r
    }

    /// Handle a move. A requester in no lobby draws `NotInLobby`; one
    /// whose lobby runs no game draws `GameSessionNotFound`. On a game
    /// that already ended the requester alone is told `GameOver`; an
    /// invalid move never mutates the game and the requester alone is
    /// told `InvalidMove`. A valid move is applied and every player of
    /// the lobby receives the resulting game state.
    #[verifier::rlimit(60)]
    pub fn handle_move(&mut self, client_id: &String, game_move: &S::Move) -> (r: Vec<Outgoing<
        S::State,
    >>)
        requires
            old(self).wf(),
            has_client_id(old(self).clients@, client_id@),
        ensures
            Self::move_post(*old(self), *final(self), client_id@, *game_move, r@),
    {
        let ci = self.find_client(client_id).unwrap();
        proof {
            lemma_client_index_unique(self.clients@, client_id@, ci as int);
        }
        let lid = match &self.clients[ci].lobby_id {
            Some(l) => l.clone(),
            None => {
                return protocol_error_reply(client_id, StatusCode::NotInLobby);
            },
        };
        let si = match self.find_game_session(&lid) {
            Some(s) => s,
            None => {
                return protocol_error_reply(client_id, StatusCode::GameSessionNotFound);
            },
        };
        proof {
            lemma_session_index_unique(self.games_in_progress@, lid@, si as int);
        }
        let game_ended = self.games_in_progress[si].1.end_condition_met().0;
        if game_ended {
            return protocol_error_reply(client_id, StatusCode::GameOver);
        }
        let is_move_valid = self.games_in_progress[si].1.is_valid_move(game_move);
        if !is_move_valid {
            return protocol_error_reply(client_id, StatusCode::InvalidMove);
        }
        self.games_in_progress[si].1.apply_move(game_move);
        proof {
            assert(self.games_in_progress@[si as int].0 == old(self).games_in_progress@[
                si as int
            ].0);
            assert(self.games_in_progress@ =~= old(self).games_in_progress@.update(
                si as int,
                (old(self).games_in_progress@[si as int].0, self.games_in_progress@[si as int].1),
            ));
            assert forall|i: int, j: int|
                0 <= i < j < self.games_in_progress@.len() implies (
            #[trigger] self.games_in_progress@[i]).0@ != (
            #[trigger] self.games_in_progress@[j]).0@ by {
                assert((old(self).games_in_progress@[i]).0@ != (old(self).games_in_progress@[
                    j
                ]).0@);
            }
            lemma_session_index_unique(self.games_in_progress@, lid@, si as int);
            Self::lemma_template_clauses_from(*old(self), *self);
            Self::lemma_lobby_clauses_from(*old(self), *self);
            Self::lemma_client_clauses_from(*old(self), *self);
        }
        let li = self.find_lobby(&lid).unwrap();
        proof {
            assert(old(self).client_lobby_ok(old(self).clients@[ci as int]));
            lemma_lobby_index_unique(self.lobbies@, lid@, li as int);
        }
        let state_copy = self.games_in_progress[si].1.get_game_state().duplicate();
        let ghost g2 = self.games_in_progress@[si as int].1;
        let mut r: Vec<Outgoing<S::State>> = Vec::new();
        let mut k: usize = 0;
        let ghost newl = self.lobbies@[li as int];
        while k < self.lobbies[li].player_ids.len()
            invariant
                li < self.lobbies@.len(),
                self.lobbies@[li as int] == newl,
                state_copy@ == g2.spec_state()@,
                k <= newl@.player_ids.len(),
                r@.len() == k,
                forall|m: int|
                    0 <= m < k ==> (#[trigger] r@[m]).to@ == newl@.player_ids[m] && r@[m].status
                        == StatusCode::Success && r@[m].message_type
                        == MessageType::GameStateResponse && (
                    r@[m].body matches ResponseBody::GameStateBody(b) && b@ == g2.spec_state()@),
            decreases newl@.player_ids.len() - k,
        {
            r.push(
                Outgoing {
                    to: self.lobbies[li].player_ids[k].clone(),
                    status: StatusCode::Success,
                    message_type: MessageType::GameStateResponse,
                    body: ResponseBody::GameStateBody(state_copy.duplicate()),
                },
            );
            k += 1;
        }
        r
    }

    /// Handle a request to return from a running game to its lobby: the
    /// requester is removed from the live game, and a game left without
    /// players is deleted, marking the lobby as not started. The
    /// requester receives the current lobby snapshot.
    #[verifier::rlimit(60)]
    pub fn handle_return_to_lobby(&mut self, client_id: &String) -> (r: Vec<Outgoing<S::State>>)
        requires
            old(self).wf(),
            has_client_id(old(self).clients@, client_id@),
        ensures
            Self::return_to_lobby_post(*old(self), *final(self), client_id@, r@),
    {
        let ci = self.find_client(client_id).unwrap();
        proof {
            lemma_client_index_unique(self.clients@, client_id@, ci as int);
        }
        let lid = match &self.clients[ci].lobby_id {
            Some(l) => l.clone(),
            None => {
                return protocol_error_reply(client_id, StatusCode::NotInLobby);
            },
        };
        let si = match self.find_game_session(&lid) {
            Some(s) => s,
            None => {
                return protocol_error_reply(client_id, StatusCode::GameSessionNotFound);
            },
        };
        let li = self.find_lobby(&lid).unwrap();
        proof {
            assert(old(self).client_lobby_ok(old(self).clients@[ci as int]));
            lemma_session_index_unique(self.games_in_progress@, lid@, si as int);
            lemma_lobby_index_unique(self.lobbies@, lid@, li as int);
        }
        let cid = self.clients[ci].id.clone();
        self.games_in_progress[si].1.remove_player(cid);
        proof {
            assert(self.games_in_progress@ =~= old(self).games_in_progress@.update(
                si as int,
                (old(self).games_in_progress@[si as int].0, self.games_in_progress@[si as int].1),
            ));
            assert forall|i: int, j: int|
                0 <= i < j < self.games_in_progress@.len() implies (
            #[trigger] self.games_in_progress@[i]).0@ != (
            #[trigger] self.games_in_progress@[j]).0@ by {
                assert((old(self).games_in_progress@[i]).0@ != (old(self).games_in_progress@[
                    j
                ]).0@);
            }
            lemma_session_index_unique(self.games_in_progress@, lid@, si as int);
        }
        let ghost mid = *self;
        if self.games_in_progress[si].1.get_player_num() == 0 {
            self.games_in_progress.remove(si);
            self.lobbies[li].game_started = false;
            proof {
                let lii = li as int;
                let sii = si as int;
                let newl = self.lobbies@[lii];
                assert(self.lobbies@ =~= old(self).lobbies@.update(lii, newl));
                assert(self.games_in_progress@ =~= old(self).games_in_progress@.remove(sii));
                assert forall|i: int, j: int|
                    0 <= i < j < self.games_in_progress@.len() implies (
                #[trigger] self.games_in_progress@[i]).0@ != (
                #[trigger] self.games_in_progress@[j]).0@ by {
                    let oi = if i < sii {
                        i
                    } else {
                        i + 1
                    };
                    let oj = if j < sii {
                        j
                    } else {
                        j + 1
                    };
                    assert((old(self).games_in_progress@[oi]).0@ != (old(self).games_in_progress@[
                        oj
                    ]).0@);
                }
                if self.has_game_session(lid@) {
                    let w = session_index_of(self.games_in_progress@, lid@);
                    let ow = if w < sii {
                        w
                    } else {
                        w + 1
                    };
                    assert(old(self).games_in_progress@[ow].0@ == lid@);
                    lemma_session_index_unique(old(self).games_in_progress@, lid@, ow);
                }
                Self::lemma_template_clauses_from(*old(self), *self);
                assert forall|i: int, j: int|
                    0 <= i < j < self.lobbies@.len() implies (#[trigger] self.lobbies@[i]).id@
                    != (#[trigger] self.lobbies@[j]).id@ by {
                    assert((old(self).lobbies@[i]).id@ != (old(self).lobbies@[j]).id@);
                }
                assert forall|i: int|
                    0 <= i < self.lobbies@.len() implies (#[trigger] self.lobbies@[i])@.wf()
                    && self.lobbies@[i]@.player_ids.len() > 0 && self.has_template(
                    spec_game_type_id(
                        self.lobbies@[i]@.game_metadata.game_title,
                        self.lobbies@[i]@.game_metadata.version,
                    ),
                ) by {
                    assert((old(self).lobbies@[i])@.wf());
                    assert(old(self).lobbies@[i]@.player_ids.len() > 0);
                    assert(old(self).has_template(
                        spec_game_type_id(
                            old(self).lobbies@[i]@.game_metadata.game_title,
                            old(self).lobbies@[i]@.game_metadata.version,
                        ),
                    ));
                    if i == lii {
                        assert(newl@.game_metadata == old(self).lobbies@[i]@.game_metadata);
                        assert(newl@.player_ids == old(self).lobbies@[i]@.player_ids);
                        assert(newl@.owner == old(self).lobbies@[i]@.owner);
                    }
                }
                assert forall|i: int|
                    0 <= i < self.clients@.len() implies self.client_lobby_ok(
                    #[trigger] self.clients@[i],
                ) by {
                    let c = self.clients@[i];
                    assert(old(self).client_lobby_ok(c));
                    match c.lobby_id {
                        Some(lid2) => {
                            let w = lobby_index_of(old(self).lobbies@, lid2@);
                            lemma_lobby_index_unique(self.lobbies@, lid2@, w);
                            if w == lii {
                                assert(self.lobbies@[w]@.player_ids == old(self).lobbies@[
                                    w
                                ]@.player_ids);
                            }
                        },
                        None => {},
                    }
                }
                assert(self.lobby_players_ok()) by {
                    assert forall|i: int, j: int|
                        0 <= i < self.lobbies@.len() && 0 <= j < (
                    #[trigger] self.lobbies@[i])@.player_ids.len() implies {
                        let pid = #[trigger] self.lobbies@[i]@.player_ids[j];
                        &&& has_client_id(self.clients@, pid)
                        &&& (self.spec_client_of(pid).lobby_id matches Some(lid2) && lid2@
                            == self.lobbies@[i].id@)
                    } by {
                        assert(self.lobbies@[i]@.player_ids == old(self).lobbies@[i]@.player_ids);
                        assert(self.lobbies@[i].id@ == old(self).lobbies@[i].id@);
                        let pid = old(self).lobbies@[i]@.player_ids[j];
                        assert(has_client_id(old(self).clients@, pid) && (old(self).spec_client_of(
                            pid,
                        ).lobby_id matches Some(lid2) && lid2@ == old(self).lobbies@[i].id@));
                    }
                }
            }
        } else {
            proof {
                Self::lemma_template_clauses_from(*old(self), *self);
                Self::lemma_lobby_clauses_from(*old(self), *self);
                Self::lemma_client_clauses_from(*old(self), *self);
            }
        }
        let reply_lobby = self.lobbies[li].clone();
        let mut r: Vec<Outgoing<S::State>> = Vec::new();
        r.push(
            Outgoing {
                to: client_id.clone(),
                status: StatusCode::Success,
                message_type: MessageType::LobbyInfoResponse,
                body: ResponseBody::LobbyBody(reply_lobby),
            },
        );
        r
    }

    /// What dispatching one authenticated, in-sequence message does,
    /// by message type: the state change and the replies are those the
    /// matching handler documents; a body that cannot be decoded changes
    /// nothing and draws the matching decode error; an unrecognised type
    /// draws `UnsupportedRequestType`.
    pub open spec fn dispatch_post(
        pre: Self,
        post: Self,
        cid: Seq<char>,
        mtype: MessageType,
        body: Seq<u8>,
        r: Seq<Outgoing<S::State>>,
    ) -> bool {
        &&& (mtype == MessageType::DisconnectRequest ==> post == pre && r.len() == 1 && r[0].to@
            == cid && r[0].status == StatusCode::Success && r[0].message_type
            == MessageType::DisconnectResponse && r[0].body is NoBody)
        &&& (mtype == MessageType::LobbyListRequest ==> post == pre && r.len() == 1
            && Self::lobby_list_reply(pre, cid, r[0]))
        &&& (mtype == MessageType::SupportedGamesRequest ==> post == pre && r.len() == 1
            && Self::supported_games_reply(pre, cid, r[0]))
        &&& (mtype == MessageType::LobbyInfoRequest ==> post == pre && r.len() == 1
            && Self::lobby_info_reply(pre, cid, r[0]))
        &&& (mtype == MessageType::CreateLobbyRequest ==> {
            &&& ((exists|g: Seq<char>|
                spec_decode_payload(body) == Ok::<Seq<char>, crate::enums::ServerError>(
                    crate::payloads::spec_create_lobby_json(g),
                )) ==> (exists|g: Seq<char>|
                spec_decode_payload(body) == Ok::<Seq<char>, crate::enums::ServerError>(
                    crate::payloads::spec_create_lobby_json(g),
                ) && r.len() == 1 && #[trigger] Self::create_lobby_post(pre, post, cid, g, r[0])))
            &&& (spec_decode_payload(body) matches Err(e) ==> post == pre && r.len() == 1
                && spec_error_reply(r[0], cid, decode_error_status(e)))
            &&& ((spec_decode_payload(body) matches Ok(p) && (forall|g: Seq<char>|
                p != crate::payloads::spec_create_lobby_json(g))) ==> post == pre && r.len() == 1
                && spec_error_reply(r[0], cid, StatusCode::MalformedBody))
        })
        &&& (mtype == MessageType::JoinLobbyRequest ==> {
            &&& ((exists|g: Seq<char>|
                spec_decode_payload(body) == Ok::<Seq<char>, crate::enums::ServerError>(
                    crate::payloads::spec_join_lobby_json(g),
                )) ==> (exists|g: Seq<char>|
                spec_decode_payload(body) == Ok::<Seq<char>, crate::enums::ServerError>(
                    crate::payloads::spec_join_lobby_json(g),
                ) && #[trigger] Self::join_lobby_post(pre, post, cid, g, r)))
            &&& (spec_decode_payload(body) matches Err(e) ==> post == pre && r.len() == 1
                && spec_error_reply(r[0], cid, decode_error_status(e)))
            &&& ((spec_decode_payload(body) matches Ok(p) && (forall|g: Seq<char>|
                p != crate::payloads::spec_join_lobby_json(g))) ==> post == pre && r.len() == 1
                && spec_error_reply(r[0], cid, StatusCode::MalformedBody))
        })
        &&& (mtype == MessageType::LeaveLobbyRequest ==> Self::leave_lobby_post(
            pre,
            post,
            cid,
            r,
        ))
        &&& (mtype == MessageType::StartGameRequest ==> {
            &&& ((exists|g: Seq<char>|
                spec_decode_payload(body) == Ok::<Seq<char>, crate::enums::ServerError>(
                    crate::payloads::spec_start_game_json(g),
                )) ==> (exists|g: Seq<char>|
                spec_decode_payload(body) == Ok::<Seq<char>, crate::enums::ServerError>(
                    crate::payloads::spec_start_game_json(g),
                ) && #[trigger] Self::start_game_post(pre, post, cid, g, r)))
            &&& (spec_decode_payload(body) matches Err(e) ==> post == pre && r.len() == 1
                && spec_error_reply(r[0], cid, decode_error_status(e)))
            &&& ((spec_decode_payload(body) matches Ok(p) && (forall|g: Seq<char>|
                p != crate::payloads::spec_start_game_json(g))) ==> post == pre && r.len() == 1
                && spec_error_reply(r[0], cid, StatusCode::MalformedBody))
        })
        &&& (mtype == MessageType::MoveRequest ==> {
            &&& ((exists|mv: S::Move|
                spec_decode_payload(body) == Ok::<Seq<char>, crate::enums::ServerError>(
                    mv.spec_json(),
                ) && #[trigger] Self::move_post(pre, post, cid, mv, r)) || (post == pre && r.len()
                == 1 && r[0].to@ == cid && r[0].message_type == MessageType::ProtocolError && r[
                0
            ].body is NoBody))
            &&& (spec_decode_payload(body) matches Err(e) ==> post == pre && r.len() == 1
                && spec_error_reply(r[0], cid, decode_error_status(e)))
        })
        &&& (mtype == MessageType::ReturnToLobbyRequest ==> Self::return_to_lobby_post(
            pre,
            post,
            cid,
            r,
        ))
        &&& ((mtype != MessageType::DisconnectRequest && mtype != MessageType::LobbyListRequest
            && mtype != MessageType::SupportedGamesRequest && mtype
            != MessageType::LobbyInfoRequest && mtype != MessageType::CreateLobbyRequest && mtype
            != MessageType::JoinLobbyRequest && mtype != MessageType::LeaveLobbyRequest && mtype
            != MessageType::StartGameRequest && mtype != MessageType::MoveRequest && mtype
            != MessageType::ReturnToLobbyRequest) ==> post == pre && r.len() == 1
            && spec_error_reply(r[0], cid, StatusCode::UnsupportedRequestType))
    }

    /// A client the dispatch kept: its record still carries the id.
    proof fn lemma_client_kept(pre: Self, post: Self, cid: Seq<char>)
        requires
            has_client_id(pre.clients@, cid),
            post.clients@.len() == pre.clients@.len(),
            forall|k: int|
                0 <= k < pre.clients@.len() && k != client_index_of(pre.clients@, cid)
                    ==> post.clients@[k] == pre.clients@[k],
            post.clients@[client_index_of(pre.clients@, cid)].id@ == cid,
        ensures
            has_client_id(post.clients@, cid),
    {
        let ci = client_index_of(pre.clients@, cid);
        assert(post.clients@[ci].id@ == cid);
    }

    /// Process one raw frame from a connection, as the per-connection
    /// loop does: a connection without a client id may only connect, and
    /// anything else draws `NoActiveSession`; an authenticated
    /// connection has its sequence number checked, a gap drawing the
    /// full list of missing numbers; an in-sequence message is
    /// dispatched by type, a body that cannot be decoded drawing the
    /// matching decode error, and the expected sequence number then
    /// advances. The result carries the replies and whether the
    /// connection is done — a disconnect request, after which the caller
    /// runs the disconnect cleanup.
    pub fn handle_frame(&mut self, conn_client_id: &mut Option<String>, raw: &[u8]) -> (r: (
        Vec<Outgoing<S::State>>,
        bool,
    ))
        requires
            old(self).wf(),
            raw@.len() >= 6,
        ensures
            final(self).wf(),
            final(self).supported_games@ == old(self).supported_games@,
            ({
                let seq_num = crate::byte_order::spec_u32_from_be_bytes(raw@.subrange(0, 4));
                let mtype = crate::enums::spec_message_type_of_code(
                    crate::byte_order::spec_u16_from_be_bytes(raw@.subrange(4, 6)),
                );
                let body = raw@.subrange(6, raw@.len() as int);
                &&& (r.1 ==> mtype == MessageType::DisconnectRequest)
                &&& ((*old(conn_client_id)) is None ==> {
                    &&& (mtype == MessageType::ConnectRequest ==> r.0@.len() == 1 && !r.1
                        && Self::connect_post(
                        *old(self),
                        *final(self),
                        true,
                        seq_num,
                        *final(conn_client_id),
                        r.0@[0],
                    ))
                    &&& (mtype != MessageType::ConnectRequest ==> *final(self) == *old(self) && (
                    *final(conn_client_id)) is None && !r.1 && r.0@.len() == 1 && r.0@[0].status
                        == StatusCode::NoActiveSession && r.0@[0].message_type
                        == MessageType::ConnectResponse && r.0@[0].body is NoBody)
                })
                &&& ((*old(conn_client_id)) matches Some(c) ==> ({
                    let e = old(self).spec_client_of(c@).next_message_id;
                    &&& (!has_client_id(old(self).clients@, c@) ==> *final(self) == *old(self)
                        && *final(conn_client_id) == *old(conn_client_id) && !r.1 && r.0@.len()
                        == 1 && r.0@[0].status == StatusCode::NoActiveSession && r.0@[
                        0
                    ].message_type == MessageType::ConnectResponse && r.0@[0].body is NoBody)
                    &&& (has_client_id(old(self).clients@, c@) ==> *final(conn_client_id) == *old(
                        conn_client_id,
                    ))
                    &&& (has_client_id(old(self).clients@, c@) && seq_num != e ==> *final(self)
                        == *old(self) && !r.1 && r.0@.len() == 1 && r.0@[0].to@ == c@ && r.0@[
                        0
                    ].status == StatusCode::MessageSequenceError && r.0@[0].message_type
                        == MessageType::MissingMessageResponse && (r.0@[
                        0
                    ].body matches ResponseBody::MissingBody(ids) && missing_interval(
                        e,
                        seq_num,
                        ids@,
                    )))
                    &&& (has_client_id(old(self).clients@, c@) && seq_num == e ==> ({
                        &&& r.1 == (mtype == MessageType::DisconnectRequest)
                        &&& exists|mid: Self|
                            #[trigger] Self::dispatch_post(*old(self), mid, c@, mtype, body, r.0@)
                                && Self::advanced_for(mid, *final(self), c@)
                    }))
                }))
            }),
    {
        let ghost pre = *old(self);
        let (message_id, message_type, remainder) =
            crate::server_message_utils::parse_client_message_header(raw);
        let known_client: Option<usize> = match conn_client_id {
            Some(cid) => self.find_client(cid),
            None => None,
        };
        let ci = match known_client {
            Some(ci) => ci,
            None => {
                // no active session yet: only a connection request is accepted
                if matches!(message_type, MessageType::ConnectRequest) && conn_client_id.is_none() {
                    let request = crate::server_message_utils::parse_connect_request(remainder);
                    let (new_id, reply) = self.connect_client(&request, message_id);
                    match new_id {
                        Some(id) => {
                            proof {
                                let n = self.clients@.len() - 1;
                                lemma_client_index_unique(self.clients@, id@, n);
                            }
                            *conn_client_id = Some(id);
                        },
                        None => {
                            // the default request always authenticates
                            proof {
                                assert(false);
                            }
                        },
                    }
                    let mut out: Vec<Outgoing<S::State>> = Vec::new();
                    out.push(reply);
                    return (out, false);
                }
                let mut out: Vec<Outgoing<S::State>> = Vec::new();
                out.push(
                    Outgoing {
                        to: String::new(),
                        status: StatusCode::NoActiveSession,
                        message_type: MessageType::ConnectResponse,
                        body: ResponseBody::NoBody,
                    },
                );
                return (out, false);
            },
        };
        let client_id = self.clients[ci].id.clone();
        proof {
            lemma_client_index_unique(self.clients@, client_id@, ci as int);
            assert((*old(conn_client_id)) is Some);
            assert(client_id@ == ((*old(conn_client_id))->Some_0)@);
        }
        // enforce the per-connection message order
        let expected = self.expected_sequence(&client_id);
        if message_id != expected {
            let missing = missing_message_ids(expected, message_id);
            let mut out: Vec<Outgoing<S::State>> = Vec::new();
            out.push(
                Outgoing {
                    to: client_id,
                    status: StatusCode::MessageSequenceError,
                    message_type: MessageType::MissingMessageResponse,
                    body: ResponseBody::MissingBody(missing),
                },
            );
            return (out, false);
        }
        let mut done = false;
        let replies: Vec<Outgoing<S::State>> = match message_type {
            MessageType::DisconnectRequest => {
                done = true;
                let mut out: Vec<Outgoing<S::State>> = Vec::new();
                out.push(
                    Outgoing {
                        to: client_id.clone(),
                        status: StatusCode::Success,
                        message_type: MessageType::DisconnectResponse,
                        body: ResponseBody::NoBody,
                    },
                );
                proof {
                    assert(Self::dispatch_post(
                        pre,
                        *self,
                        client_id@,
                        message_type,
                        remainder@,
                        out@,
                    ));
                    assert(has_client_id(self.clients@, client_id@));
                    assert(done == (message_type == MessageType::DisconnectRequest));
                }
                out
            },
            MessageType::LobbyListRequest => {
                let mut out: Vec<Outgoing<S::State>> = Vec::new();
                out.push(self.handle_lobby_list(&client_id));
                proof {
                    assert(Self::dispatch_post(
                        pre,
                        *self,
                        client_id@,
                        message_type,
                        remainder@,
                        out@,
                    ));
                    assert(has_client_id(self.clients@, client_id@));
                    assert(done == (message_type == MessageType::DisconnectRequest));
                }
                out
            },
            MessageType::SupportedGamesRequest => {
                let mut out: Vec<Outgoing<S::State>> = Vec::new();
                out.push(self.handle_supported_games(&client_id));
                proof {
                    assert(Self::dispatch_post(
                        pre,
                        *self,
                        client_id@,
                        message_type,
                        remainder@,
                        out@,
                    ));
                    assert(has_client_id(self.clients@, client_id@));
                    assert(done == (message_type == MessageType::DisconnectRequest));
                }
                out
            },
            MessageType::CreateLobbyRequest => {
                let out: Vec<Outgoing<S::State>> =
                    match crate::server_message_utils::parse_create_lobby_request(remainder) {
                    Ok(request) => {
                        let mut single: Vec<Outgoing<S::State>> = Vec::new();
                        single.push(self.handle_create_lobby(&client_id, &request.game_type_id));
                        proof {
                            assert(spec_decode_payload(remainder@) == Ok::<
                                Seq<char>,
                                crate::enums::ServerError,
                            >(crate::payloads::spec_create_lobby_json(request.game_type_id@)));
                            if pre.has_template(request.game_type_id@) && pre.spec_client_of(
                                client_id@,
                            ).lobby_id is None {
                                Self::lemma_client_kept(pre, *self, client_id@);
                            }
                            assert(has_client_id(self.clients@, client_id@));
                        }
                        single
                    },
                    Err(e) => decode_error_reply(&client_id, e),
                };
                proof {
                    assert(Self::dispatch_post(
                        pre,
                        *self,
                        client_id@,
                        message_type,
                        remainder@,
                        out@,
                    ));
                    assert(has_client_id(self.clients@, client_id@));
                    assert(done == (message_type == MessageType::DisconnectRequest));
                }
                out
            },
            MessageType::JoinLobbyRequest => {
                let out: Vec<Outgoing<S::State>> =
                    match crate::server_message_utils::parse_join_lobby_request(remainder) {
                    Ok(request) => {
                        let out2 = self.handle_join_lobby(&client_id, &request.lobby_id);
                        proof {
                            assert(spec_decode_payload(remainder@) == Ok::<
                                Seq<char>,
                                crate::enums::ServerError,
                            >(crate::payloads::spec_join_lobby_json(request.lobby_id@)));
                            if pre.spec_client_of(client_id@).lobby_id is None && has_lobby_id(
                                pre.lobbies@,
                                request.lobby_id@,
                            ) && pre.spec_lobby_of(request.lobby_id@)@.player_ids.len()
                                < pre.spec_lobby_of(
                                request.lobby_id@,
                            )@.game_metadata.max_players {
                                Self::lemma_client_kept(pre, *self, client_id@);
                            }
                            assert(has_client_id(self.clients@, client_id@));
                        }
                        out2
                    },
                    Err(e) => decode_error_reply(&client_id, e),
                };
                proof {
                    assert(Self::dispatch_post(
                        pre,
                        *self,
                        client_id@,
                        message_type,
                        remainder@,
                        out@,
                    ));
                    assert(has_client_id(self.clients@, client_id@));
                    assert(done == (message_type == MessageType::DisconnectRequest));
                }
                out
            },
            MessageType::LobbyInfoRequest => {
                let mut out: Vec<Outgoing<S::State>> = Vec::new();
                out.push(self.handle_lobby_info(&client_id));
                proof {
                    assert(Self::dispatch_post(
                        pre,
                        *self,
                        client_id@,
                        message_type,
                        remainder@,
                        out@,
                    ));
                    assert(has_client_id(self.clients@, client_id@));
                    assert(done == (message_type == MessageType::DisconnectRequest));
                }
                out
            },
            MessageType::LeaveLobbyRequest => {
                let out = self.handle_leave_lobby(&client_id);
                proof {
                    if pre.spec_client_of(client_id@).lobby_id is Some {
                        Self::lemma_client_kept(pre, *self, client_id@);
                    }
                    assert(Self::dispatch_post(
                        pre,
                        *self,
                        client_id@,
                        message_type,
                        remainder@,
                        out@,
                    ));
                    assert(has_client_id(self.clients@, client_id@));
                    assert(done == (message_type == MessageType::DisconnectRequest));
                }
                out
            },
            MessageType::StartGameRequest => {
                let out: Vec<Outgoing<S::State>> =
                    match crate::server_message_utils::parse_start_game_request(remainder) {
                    Ok(request) => {
                        let out2 = self.handle_start_game(&client_id, &request.lobby_id);
                        proof {
                            assert(spec_decode_payload(remainder@) == Ok::<
                                Seq<char>,
                                crate::enums::ServerError,
                            >(crate::payloads::spec_start_game_json(request.lobby_id@)));
                        }
                        out2
                    },
                    Err(e) => decode_error_reply(&client_id, e),
                };
                proof {
                    assert(Self::dispatch_post(
                        pre,
                        *self,
                        client_id@,
                        message_type,
                        remainder@,
                        out@,
                    ));
                    assert(has_client_id(self.clients@, client_id@));
                    assert(done == (message_type == MessageType::DisconnectRequest));
                }
                out
            },
            MessageType::MoveRequest => {
                let out: Vec<Outgoing<S::State>> =
                    match crate::server_message_utils::parse_move_request::<S::Move>(remainder) {
                    Ok(game_move) => {
                        let out2 = self.handle_move(&client_id, &game_move);
                        proof {
                            assert(spec_decode_payload(remainder@) == Ok::<
                                Seq<char>,
                                crate::enums::ServerError,
                            >(game_move.spec_json()));
                            assert(exists|mv: S::Move|
                                spec_decode_payload(remainder@) == Ok::<
                                    Seq<char>,
                                    crate::enums::ServerError,
                                >(mv.spec_json()) && Self::move_post(
                                    pre,
                                    *self,
                                    client_id@,
                                    mv,
                                    out2@,
                                ));
                        }
                        out2
                    },
                    Err(e) => decode_error_reply(&client_id, e),
                };
                proof {
                    assert(Self::dispatch_post(
                        pre,
                        *self,
                        client_id@,
                        message_type,
                        remainder@,
                        out@,
                    ));
                    assert(has_client_id(self.clients@, client_id@));
                    assert(done == (message_type == MessageType::DisconnectRequest));
                }
                out
            },
            MessageType::ReturnToLobbyRequest => {
                let out = self.handle_return_to_lobby(&client_id);
                proof {
                    assert(Self::dispatch_post(
                        pre,
                        *self,
                        client_id@,
                        message_type,
                        remainder@,
                        out@,
                    ));
                    assert(has_client_id(self.clients@, client_id@));
                    assert(done == (message_type == MessageType::DisconnectRequest));
                }
                out
            },
            _ => {
                let out = protocol_error_reply(&client_id, StatusCode::UnsupportedRequestType);
                proof {
                    assert(Self::dispatch_post(
                        pre,
                        *self,
                        client_id@,
                        message_type,
                        remainder@,
                        out@,
                    ));
                    assert(has_client_id(self.clients@, client_id@));
                    assert(done == (message_type == MessageType::DisconnectRequest));
                }
                out
            },
        };
        let ghost mid = *self;
        // the message was processed: expect the next number in sequence
        match self.find_client(&client_id) {
            Some(_) => {
                self.advance_sequence(&client_id);
            },
            None => {
                // every dispatch keeps the client's record
                proof {
                    assert(false);
                }
            },
        }
        proof {
            assert(Self::dispatch_post(pre, mid, client_id@, message_type, remainder@, replies@)
                && Self::advanced_for(mid, *self, client_id@));
        }
        (replies, done)
    }

    /// Dropping a client that occupies no lobby preserves the invariant.
    proof fn lemma_wf_after_client_removed(pre: Self, post: Self, ci: int)
        requires
            pre.wf(),
            0 <= ci < pre.clients@.len(),
            pre.clients@[ci].lobby_id is None,
            post.clients@ == pre.clients@.remove(ci),
            post.lobbies@ == pre.lobbies@,
            post.supported_games@ == pre.supported_games@,
            post.games_in_progress@ == pre.games_in_progress@,
        ensures
            post.wf(),
    {
        assert forall|i: int, j: int|
            0 <= i < j < post.clients@.len() implies (#[trigger] post.clients@[i]).id@ != (
        #[trigger] post.clients@[j]).id@ by {
            let oi = if i < ci {
                i
            } else {
                i + 1
            };
            let oj = if j < ci {
                j
            } else {
                j + 1
            };
            assert((pre.clients@[oi]).id@ != (pre.clients@[oj]).id@);
        }
        Self::lemma_template_clauses_from(pre, post);
        Self::lemma_session_clause_from(pre, post);
        Self::lemma_lobby_clauses_from(pre, post);
        assert forall|i: int|
            0 <= i < post.clients@.len() implies post.client_lobby_ok(
            #[trigger] post.clients@[i],
        ) by {
            let oi = if i < ci {
                i
            } else {
                i + 1
            };
            assert(post.clients@[i] == pre.clients@[oi]);
            assert(pre.client_lobby_ok(pre.clients@[oi]));
        }
        assert(post.lobby_players_ok()) by {
            assert forall|i: int, j: int|
                0 <= i < post.lobbies@.len() && 0 <= j < (
            #[trigger] post.lobbies@[i])@.player_ids.len() implies {
                let pid = #[trigger] post.lobbies@[i]@.player_ids[j];
                &&& has_client_id(post.clients@, pid)
                &&& (post.spec_client_of(pid).lobby_id matches Some(lid2) && lid2@
                    == post.lobbies@[i].id@)
            } by {
                assert(pre.lobbies@[i] == post.lobbies@[i]);
                let pid = pre.lobbies@[i]@.player_ids[j];
                assert(has_client_id(pre.clients@, pid) && (pre.spec_client_of(
                    pid,
                ).lobby_id matches Some(lid2) && lid2@ == pre.lobbies@[i].id@));
                let w = client_index_of(pre.clients@, pid);
                assert(w != ci) by {
                    if w == ci {
                        assert(pre.clients@[ci].lobby_id is Some);
                    }
                }
                let nw = if w < ci {
                    w
                } else {
                    w - 1
                };
                assert(post.clients@[nw] == pre.clients@[w]);
                assert forall|a: int, b: int|
                    0 <= a < b < post.clients@.len() implies (#[trigger] post.clients@[a]).id@
                    != (#[trigger] post.clients@[b]).id@ by {
                    let oa = if a < ci {
                        a
                    } else {
                        a + 1
                    };
                    let ob = if b < ci {
                        b
                    } else {
                        b + 1
                    };
                    assert((pre.clients@[oa]).id@ != (pre.clients@[ob]).id@);
                }
                lemma_client_index_unique(post.clients@, pid, nw);
            }
        }
    }
}

/// With unique session keys, the index of a matching session is the one
/// the lookup denotes.
pub proof fn lemma_session_index_unique<S: GameModule>(
    sessions: Seq<(String, S)>,
    lobby_id: Seq<char>,
    i: int,
)
    requires
        forall|a: int, b: int|
            0 <= a < b < sessions.len() ==> (#[trigger] sessions[a]).0@ != (
            #[trigger] sessions[b]).0@,
        0 <= i < sessions.len(),
        sessions[i].0@ == lobby_id,
    ensures
        has_session_key(sessions, lobby_id),
        session_index_of(sessions, lobby_id) == i,
{
    let w = session_index_of(sessions, lobby_id);
    assert(0 <= w < sessions.len() && sessions[w].0@ == lobby_id);
    if w < i {
        assert(sessions[w].0@ != sessions[i].0@);
    } else if i < w {
        assert(sessions[i].0@ != sessions[w].0@);
    }
}

/// The exact sequence numbers a gap spans: from the expected number up
/// to the received one; when the received number lies behind the
/// expected one, the interval wraps through the largest value and zero.
pub open spec fn missing_interval(expected: u32, received: u32, ids: Seq<u32>) -> bool {
    if received > expected {
        ids.len() == received - expected + 1 && (forall|i: int|
            0 <= i < ids.len() ==> ids[i] == expected + i)
    } else {
        let high = u32::MAX - expected + 1;
        &&& ids.len() == high + received + 1
        &&& (forall|i: int| 0 <= i < high ==> ids[i] == expected + i)
        &&& (forall|i: int| high <= i < ids.len() ==> ids[i] == i - high)
    }
}

/// The sequence numbers a gap spans: from the expected number up to the
/// received one, wrapping through the largest value and zero when the
/// received number lies behind the expected one.
pub fn missing_message_ids(expected: u32, received: u32) -> (r: Vec<u32>)
    requires
        expected != received,
    ensures
        missing_interval(expected, received, r@),
{
    let mut r: Vec<u32> = Vec::new();
    if received > expected {
        let mut id: u64 = expected as u64;
        while id <= received as u64
            invariant
                expected <= id <= received + 1,
                r@.len() == id - expected,
                forall|i: int| 0 <= i < r@.len() ==> r@[i] == expected + i,
            decreases received as u64 + 1 - id,
        {
            r.push(id as u32);
            id += 1;
        }
    } else {
        let ghost high = u32::MAX - expected + 1;
        let mut id: u64 = expected as u64;
        while id <= u32::MAX as u64
            invariant
                expected <= id <= u32::MAX as u64 + 1,
                r@.len() == id - expected,
                forall|i: int| 0 <= i < r@.len() ==> r@[i] == expected + i,
            decreases u32::MAX as u64 + 1 - id,
        {
            r.push(id as u32);
            id += 1;
        }
        let mut id2: u64 = 0;
        while id2 <= received as u64
            invariant
                high == u32::MAX - expected + 1,
                0 <= id2 <= received + 1,
                r@.len() == high + id2,
                forall|i: int| 0 <= i < high ==> r@[i] == expected + i,
                forall|i: int| high <= i < r@.len() ==> r@[i] == i - high,
            decreases received as u64 + 1 - id2,
        {
            r.push(id2 as u32);
            id2 += 1;
        }
    }
    r
}

/// The position of a player id in a lobby's player list.
pub open spec fn player_index_in(l: crate::shared_data::LobbyView, pid: Seq<char>) -> int {
    choose|p: int| 0 <= p < l.player_ids.len() && l.player_ids[p] == pid
}

/// With unique players, the position of a matching player is the one the
/// lookup denotes.
pub proof fn lemma_player_index_unique(l: crate::shared_data::LobbyView, pid: Seq<char>, p: int)
    requires
        forall|i: int, j: int|
            0 <= i < j < l.player_ids.len() ==> l.player_ids[i] != l.player_ids[j],
        0 <= p < l.player_ids.len(),
        l.player_ids[p] == pid,
    ensures
        l.player_ids.contains(pid),
        player_index_in(l, pid) == p,
{
    assert(l.player_ids.contains(pid));
    let w = player_index_in(l, pid);
    assert(0 <= w < l.player_ids.len() && l.player_ids[w] == pid);
    if w < p {
        assert(l.player_ids[w] != l.player_ids[p]);
    } else if p < w {
        assert(l.player_ids[p] != l.player_ids[w]);
    }
}

/// A reply that is a bare protocol error with the given status,
/// addressed to the given client.
pub open spec fn spec_error_reply<St>(o: Outgoing<St>, to: Seq<char>, status: StatusCode) -> bool {
    &&& o.to@ == to
    &&& o.status == status
    &&& o.message_type == MessageType::ProtocolError
    &&& o.body is NoBody
}

/// One bare protocol-error reply to the given client.
fn protocol_error_reply<St>(client_id: &String, status: StatusCode) -> (r: Vec<Outgoing<St>>)
    ensures
        r@.len() == 1,
        spec_error_reply(r@[0], client_id@, status),
{
    let mut r: Vec<Outgoing<St>> = Vec::new();
    r.push(
        Outgoing {
            to: client_id.clone(),
            status,
            message_type: MessageType::ProtocolError,
            body: ResponseBody::NoBody,
        },
    );
    r
}

/// The position of the first string with the same characters.
fn position_of(ids: &Vec<String>, target: &String) -> (r: Option<usize>)
    ensures
        match r {
            Some(p) => p < ids@.len() && (ids@[p as int])@ == target@,
            None => forall|k: int| 0 <= k < ids@.len() ==> (#[trigger] ids@[k])@ != target@,
        },
{
    let mut i: usize = 0;
    while i < ids.len()
        invariant
            i <= ids@.len(),
            forall|k: int| 0 <= k < i ==> (#[trigger] ids@[k])@ != target@,
        decreases ids@.len() - i,
    {
        if ids[i] == *target {
            return Some(i);
        }
        i += 1;
    }
    None
}

/// The status a body-decoding error surfaces as: checksum and size
/// mismatches as `DataIntegrityError`, bad UTF-8 as `DataParseError`,
/// bad JSON as `MalformedBody`.
pub open spec fn decode_error_status(e: crate::enums::ServerError) -> StatusCode {
    match e {
        crate::enums::ServerError::ChecksumError => StatusCode::DataIntegrityError,
        crate::enums::ServerError::BodySizeError => StatusCode::DataIntegrityError,
        crate::enums::ServerError::BytesToStringError => StatusCode::DataParseError,
        crate::enums::ServerError::DeserializeError => StatusCode::MalformedBody,
    }
}

/// One reply telling a client its message body could not be decoded.
fn decode_error_reply<St>(client_id: &String, e: crate::enums::ServerError) -> (r: Vec<
    Outgoing<St>,
>)
    ensures
        r@.len() == 1,
        spec_error_reply(r@[0], client_id@, decode_error_status(e)),
{
    let status = match e {
        crate::enums::ServerError::ChecksumError => StatusCode::DataIntegrityError,
        crate::enums::ServerError::BodySizeError => StatusCode::DataIntegrityError,
        crate::enums::ServerError::BytesToStringError => StatusCode::DataParseError,
        crate::enums::ServerError::DeserializeError => StatusCode::MalformedBody,
    };
    protocol_error_reply(client_id, status)
}

/// Whether the list holds a string with the same characters.
fn contains_string(ids: &Vec<String>, s: &String) -> (r: bool)
    ensures
        r == exists|i: int| 0 <= i < ids@.len() && (#[trigger] ids@[i])@ == s@,
{
    let mut i: usize = 0;
    while i < ids.len()
        invariant
            i <= ids@.len(),
            forall|k: int| 0 <= k < i ==> (#[trigger] ids@[k])@ != s@,
        decreases ids@.len() - i,
    {
        if ids[i] == *s {
            return true;
        }
        i += 1;
    }
    false
}

/// An id none of the given ids equals. Random ids are drawn first;
/// should each draw collide, an id strictly longer than every given id
/// is built, which no given id can equal.
fn fresh_id(ids: &Vec<String>) -> (r: String)
    ensures
        forall|k: int| 0 <= k < ids@.len() ==> r@ != (#[trigger] ids@[k])@,
{
    let mut attempts: usize = 0;
    while attempts < 16
        invariant
            attempts <= 16,
        decreases 16 - attempts,
    {
        let id = new_uuid_string();
        if !contains_string(ids, &id) {
            return id;
        }
        attempts += 1;
    }
    let mut s = new_uuid_string();
    let mut j: usize = 0;
    while j < ids.len()
        invariant
            j <= ids@.len(),
            forall|k: int| 0 <= k < j ==> (#[trigger] ids@[k])@.len() < s@.len(),
        decreases ids@.len() - j,
    {
        while s.as_str().unicode_len() <= ids[j].as_str().unicode_len()
            invariant
                j < ids@.len(),
                forall|k: int| 0 <= k < j ==> (#[trigger] ids@[k])@.len() < s@.len(),
            decreases ids@[j as int]@.len() + 1 - s@.len(),
        {
            proof {
                reveal_strlit("a");
            }
            s.append("a");
        }
        j += 1;
    }
    s
}

/// With unique client ids, the index of a matching client is the one
/// the lookup denotes.
pub proof fn lemma_client_index_unique(clients: Seq<Client>, id: Seq<char>, i: int)
    requires
        forall|a: int, b: int|
            0 <= a < b < clients.len() ==> (#[trigger] clients[a]).id@ != (
            #[trigger] clients[b]).id@,
        0 <= i < clients.len(),
        clients[i].id@ == id,
    ensures
        has_client_id(clients, id),
        client_index_of(clients, id) == i,
{
    let w = client_index_of(clients, id);
    assert(0 <= w < clients.len() && clients[w].id@ == id);
    if w < i {
        assert(clients[w].id@ != clients[i].id@);
    } else if i < w {
        assert(clients[i].id@ != clients[w].id@);
    }
}

/// With unique lobby ids, the index of a matching lobby is the one the
/// lookup denotes.
pub proof fn lemma_lobby_index_unique(lobbies: Seq<Lobby>, id: Seq<char>, i: int)
    requires
        forall|a: int, b: int|
            0 <= a < b < lobbies.len() ==> (#[trigger] lobbies[a]).id@ != (
            #[trigger] lobbies[b]).id@,
        0 <= i < lobbies.len(),
        lobbies[i].id@ == id,
    ensures
        has_lobby_id(lobbies, id),
        lobby_index_of(lobbies, id) == i,
{
    let w = lobby_index_of(lobbies, id);
    assert(0 <= w < lobbies.len() && lobbies[w].id@ == id);
    if w < i {
        assert(lobbies[w].id@ != lobbies[i].id@);
    } else if i < w {
        assert(lobbies[i].id@ != lobbies[w].id@);
    }
}

/// The next sequence number: one more, wrapping from the maximum to
/// zero.
pub open spec fn spec_wrap_inc(n: u32) -> u32 {
    if n == u32::MAX {
        0
    } else {
        (n + 1) as u32
    }
}

/// Increment a sequence number, wrapping from the maximum to zero.
pub fn wrap_inc(n: u32) -> (r: u32)
    ensures
        r == spec_wrap_inc(n),
{
    if n == u32::MAX {
        0
    } else {
        n + 1
    }
}

/// Law: in every well-formed server state — and every handler both
/// requires and re-establishes well-formedness, so after any sequence of
/// join and leave operations — each lobby holds at most its game's
/// maximum of players, and the owner is among the players whenever any
/// player remains.
pub proof fn lemma_lobby_invariant<S: GameModule>(s: GameProtocolServer<S>, i: int)
    requires
        s.wf(),
        0 <= i < s.lobbies@.len(),
    ensures
        s.lobbies@[i]@.player_ids.len() <= s.lobbies@[i]@.game_metadata.max_players,
        s.lobbies@[i]@.player_ids.len() > 0 ==> s.lobbies@[i]@.player_ids.contains(
            s.lobbies@[i]@.owner,
        ),
{
    assert((s.lobbies@[i])@.wf());
}

/// Relies on `uuid::Uuid::new_v4` and its `Display` form: a random
/// version-4 UUID rendered as 36 hyphenated hexadecimal characters.
/// Nothing is assumed about which id comes back.
#[verifier::external_body]
fn new_uuid_string() -> (r: String)
    ensures
        r@.len() == 36,
{
    uuid::Uuid::new_v4().to_string()
}

} // verus!
