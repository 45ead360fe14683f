//! The capability contract every pluggable game must satisfy, plus the
//! game metadata type. The protocol core only ever touches a game
//! through this interface and never interprets game semantics.

use vstd::prelude::*;

use crate::enums::ServerError;
use vstd::string::StringExecFns;

verus! {

/// Immutable description of a game: its title, version string and the
/// allowed range of player counts.
#[derive(Debug)]
pub struct GameMetadata {
    pub game_title: String,
    pub version: String,
    pub max_players: usize,
    pub min_required_players: usize,
}

/// Mathematical model of [`GameMetadata`].
pub struct GameMetadataView {
    pub game_title: Seq<char>,
    pub version: Seq<char>,
    pub max_players: int,
    pub min_required_players: int,
}

impl View for GameMetadata {
    type V = GameMetadataView;

    open spec fn view(&self) -> GameMetadataView {
        GameMetadataView {
            game_title: self.game_title@,
            version: self.version@,
            max_players: self.max_players as int,
            min_required_players: self.min_required_players as int,
        }
    }
}

impl Clone for GameMetadata {
    fn clone(&self) -> (r: Self)
        ensures
            r@ == self@,
    {
        GameMetadata {
            game_title: self.game_title.clone(),
            version: self.version.clone(),
            max_players: self.max_players,
            min_required_players: self.min_required_players,
        }
    }
}

/// The canonical key matching client and server game support: the title,
/// a space, the letter `v`, and the version.
pub open spec fn spec_game_type_id(title: Seq<char>, version: Seq<char>) -> Seq<char> {
    title + " v"@ + version
}

impl GameMetadata {
    /// The canonical key of this game, used to look up its module.
    pub fn get_game_type_id(&self) -> (r: String)
        ensures
            r@ == spec_game_type_id(self.game_title@, self.version@),
    {
        let mut r = self.game_title.clone();
        r.append(" v");
        r.append(self.version.as_str());
        r
    }
}

/// The position of the first occurrence of an id in a roster.
pub open spec fn first_index_of(ids: Seq<Seq<char>>, id: Seq<char>) -> int
    decreases ids.len(),
{
    if ids.len() == 0 {
        0
    } else if ids[0] == id {
        0
    } else {
        1 + first_index_of(ids.drop_first(), id)
    }
}

/// An index with a match, before which nothing matches, is the first
/// occurrence.
pub proof fn lemma_first_index_of(ids: Seq<Seq<char>>, id: Seq<char>, i: int)
    requires
        0 <= i < ids.len(),
        ids[i] == id,
        forall|k: int| 0 <= k < i ==> ids[k] != id,
    ensures
        first_index_of(ids, id) == i,
    decreases i,
{
    if i > 0 {
        assert(ids[0] != id);
        assert forall|k: int| 0 <= k < i - 1 implies ids.drop_first()[k] != id by {
            assert(ids.drop_first()[k] == ids[k + 1]);
        }
        assert(ids.drop_first()[i - 1] == ids[i]);
        lemma_first_index_of(ids.drop_first(), id, i - 1);
    }
}

/// A game's internal state: a polymorphic payload the protocol core
/// carries without interpreting. It must support deep copy and a JSON
/// round trip, tagged so a peer can validate the concrete type.
pub trait GameState: Sized + View {
    /// A deep copy of the state: equal under the state's view.
    fn duplicate(&self) -> (r: Self)
        ensures
            r@ == self@,
    ;

    /// Serialize the state to its tagged JSON form.
    fn to_json(&self) -> String;

    /// Parse the state from its tagged JSON form, validating the tag.
    fn from_json(s: &str) -> Result<Self, ServerError>;
}

/// A move in a game: a polymorphic payload the protocol core carries
/// without interpreting.
pub trait GameMove: Sized {
    /// The move's canonical tagged JSON form.
    spec fn spec_json(&self) -> Seq<char>;

    /// A deep copy of the move.
    fn duplicate(&self) -> (r: Self)
        ensures
            r == *self,
    ;

    /// Serialize the move to its tagged JSON form.
    fn to_json(&self) -> (r: String)
        ensures
            r@ == self.spec_json(),
    ;

    /// Parse the move from its tagged JSON form, validating the tag: a
    /// value only for its own canonical form.
    fn from_json(s: &str) -> (r: Result<Self, ServerError>)
        ensures
            r matches Ok(v) ==> s@ == v.spec_json(),
    ;
}

/// The capability set of a pluggable game module: metadata, roster
/// management, state access, end-condition check, move validation and
/// move application. One instance exists per game session.
pub trait GameModule: Sized {
    /// The game's state payload type.
    type State: GameState;

    /// The game's move payload type.
    type Move: GameMove;

    /// The roster of player ids, in joining order.
    spec fn spec_players(&self) -> Seq<Seq<char>>;

    /// The game's metadata.
    spec fn spec_metadata(&self) -> GameMetadataView;

    /// The game's current state.
    spec fn spec_state(&self) -> Self::State;

    /// Whether a move is valid against the current state.
    spec fn spec_valid_move(&self, mv: &Self::Move) -> bool;

    /// Whether the game's terminal condition holds.
    spec fn spec_ended(&self) -> bool;

    /// A fresh instance with an empty roster, whose game admits at
    /// least one player.
    fn new() -> (r: Self)
        ensures
            r.spec_players() == Seq::<Seq<char>>::empty(),
            r.spec_metadata().max_players >= 1,
    ;

    /// A fresh session instance from an existing one: a factory, since
    /// the registered template is shared and immutable.
    fn init_new(&self) -> (r: Self)
        ensures
            r.spec_players() == Seq::<Seq<char>>::empty(),
            r.spec_metadata() == self.spec_metadata(),
    ;

    /// The game's metadata.
    fn get_metadata(&self) -> (m: &GameMetadata)
        ensures
            m@ == self.spec_metadata(),
    ;

    /// Add a player. A player already in the roster, or arriving when
    /// the roster is at the game's maximum, leaves the roster unchanged;
    /// otherwise the player is appended.
    fn add_player(&mut self, id: String)
        ensures
            final(self).spec_metadata() == old(self).spec_metadata(),
            (old(self).spec_players().contains(id@) || old(self).spec_players().len() >= old(
                self,
            ).spec_metadata().max_players) ==> final(self).spec_players() == old(
                self,
            ).spec_players(),
            !old(self).spec_players().contains(id@) && old(self).spec_players().len() < old(
                self,
            ).spec_metadata().max_players ==> final(self).spec_players() == old(
                self,
            ).spec_players().push(id@),
    ;

    /// Remove a player: the first occurrence of the id leaves the
    /// roster; an absent id leaves the roster unchanged.
    fn remove_player(&mut self, id: String)
        ensures
            final(self).spec_metadata() == old(self).spec_metadata(),
            !old(self).spec_players().contains(id@) ==> final(self).spec_players() == old(
                self,
            ).spec_players(),
            old(self).spec_players().contains(id@) ==> final(self).spec_players() == old(
                self,
            ).spec_players().remove(first_index_of(old(self).spec_players(), id@)),
    ;

    /// The number of players in the session.
    fn get_player_num(&self) -> (n: usize)
        ensures
            n == self.spec_players().len(),
    ;

    /// The current state.
    fn get_game_state(&self) -> (s: &Self::State)
        ensures
            *s == self.spec_state(),
    ;

    /// Replace the internal state with an externally supplied one, as a
    /// client does when adopting a server push.
    fn set_game_state(&mut self, new_state: Self::State)
        ensures
            final(self).spec_state() == new_state,
            final(self).spec_players() == old(self).spec_players(),
            final(self).spec_metadata() == old(self).spec_metadata(),
    ;

    /// Whether the game has ended, and the winning player's id where the
    /// game has one.
    fn end_condition_met(&self) -> (r: (bool, Option<String>))
        ensures
            r.0 == self.spec_ended(),
    ;

    /// Test a candidate move against the current state without mutating.
    fn is_valid_move(&self, mv: &Self::Move) -> (b: bool)
        ensures
            b == self.spec_valid_move(mv),
    ;

    /// Apply a move. An invalid move is a no-op, never an error: the
    /// implementation re-validates defensively.
    fn apply_move(&mut self, mv: &Self::Move)
        ensures
            !old(self).spec_valid_move(mv) ==> *final(self) == *old(self),
            final(self).spec_players() == old(self).spec_players(),
            final(self).spec_metadata() == old(self).spec_metadata(),
    ;
}

} // verus!
