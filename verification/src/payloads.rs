//! The JSON forms of the protocol's payload types, shared by the client
//! and server message builders and parsers. Every encoder states the
//! exact text it writes; every parser returns a value only for text the
//! matching encoder writes.

use vstd::prelude::*;

use crate::game_module::{GameMetadata, GameMetadataView};
use crate::json::{
    append_dec_u64, append_json_bool, append_json_string, append_num_array, append_string_array,
    encode_obj1, expect_lit_at, json_bool, json_num_array, json_obj1, json_string,
    json_string_array, lemma_parse_number_sound, lemma_unescape_escaped, lemma_unescape_sound, parse_json_string_at,
    parse_obj1, parse_string_array_at, parse_u32_array_at, parse_u64_at, spec_dec, spec_unescape,
};
use crate::json::lemma_json_string_prefix_injective;
use crate::shared_data::{Lobby, LobbyView};
use vstd::string::{StrSliceExecFns, StringExecFns};

verus! {

broadcast use vstd::seq::group_seq_axioms;

/// The opening of an object whose single key is `lobby_id`.
pub open spec fn key_lobby_id() -> Seq<char> {
    seq!['{', '"', 'l', 'o', 'b', 'b', 'y', '_', 'i', 'd', '"', ':']
}

/// The opening of an object whose single key is `game_type_id`.
pub open spec fn key_game_type_id() -> Seq<char> {
    seq!['{', '"', 'g', 'a', 'm', 'e', '_', 't', 'y', 'p', 'e', '_', 'i', 'd', '"', ':']
}

/// The opening of an object whose single key is `client_id`.
pub open spec fn key_client_id() -> Seq<char> {
    seq!['{', '"', 'c', 'l', 'i', 'e', 'n', 't', '_', 'i', 'd', '"', ':']
}

/// The opening of an object whose single key is `message`.
pub open spec fn key_message() -> Seq<char> {
    seq!['{', '"', 'm', 'e', 's', 's', 'a', 'g', 'e', '"', ':']
}

/// The JSON form of a join-lobby request.
pub open spec fn spec_join_lobby_json(lobby_id: Seq<char>) -> Seq<char> {
    json_obj1(key_lobby_id(), lobby_id)
}

/// The JSON form of a create-lobby request.
pub open spec fn spec_create_lobby_json(game_type_id: Seq<char>) -> Seq<char> {
    json_obj1(key_game_type_id(), game_type_id)
}

/// The JSON form of a start-game request.
pub open spec fn spec_start_game_json(lobby_id: Seq<char>) -> Seq<char> {
    json_obj1(key_lobby_id(), lobby_id)
}

/// The JSON form of a connect response.
pub open spec fn spec_connect_response_json(client_id: Seq<char>) -> Seq<char> {
    json_obj1(key_client_id(), client_id)
}

/// The JSON form of an unsolicited message.
pub open spec fn spec_unsolicited_json(message: Seq<char>) -> Seq<char> {
    json_obj1(key_message(), message)
}

/// An object with one string field pins the field: equal texts carry
/// equal values.
pub proof fn lemma_obj1_injective(prefix: Seq<char>, v: Seq<char>, w: Seq<char>)
    requires
        json_obj1(prefix, v) == json_obj1(prefix, w),
    ensures
        v == w,
{
    let a = json_obj1(prefix, v);
    let b = json_obj1(prefix, w);
    let n = prefix.len() as int;
    assert(a.skip(n + 1) =~= crate::json::escaped(v) + seq!['"'] + seq!['}']);
    assert(b.skip(n + 1) =~= crate::json::escaped(w) + seq!['"'] + seq!['}']);
    lemma_unescape_escaped(v, seq!['}']);
    lemma_unescape_escaped(w, seq!['}']);
    assert(spec_unescape(a.skip(n + 1)) == Some((v, crate::json::escaped(v).len() + 1 as int)));
    assert(spec_unescape(b.skip(n + 1)) == Some((w, crate::json::escaped(w).len() + 1 as int)));
}

/// Round trip of the single-field payloads: each wire form pins its
/// field, so building a request or response and parsing it back
/// preserves the field. The parsers' contracts supply the other half:
/// they accept every canonical form and nothing else.
pub proof fn lemma_payload_round_trip(v: Seq<char>, w: Seq<char>)
    ensures
        spec_join_lobby_json(v) == spec_join_lobby_json(w) ==> v == w,
        spec_create_lobby_json(v) == spec_create_lobby_json(w) ==> v == w,
        spec_start_game_json(v) == spec_start_game_json(w) ==> v == w,
        spec_connect_response_json(v) == spec_connect_response_json(w) ==> v == w,
        spec_unsolicited_json(v) == spec_unsolicited_json(w) ==> v == w,
{
    if spec_join_lobby_json(v) == spec_join_lobby_json(w) {
        lemma_obj1_injective(key_lobby_id(), v, w);
    }
    if spec_create_lobby_json(v) == spec_create_lobby_json(w) {
        lemma_obj1_injective(key_game_type_id(), v, w);
    }
    if spec_start_game_json(v) == spec_start_game_json(w) {
        lemma_obj1_injective(key_lobby_id(), v, w);
    }
    if spec_connect_response_json(v) == spec_connect_response_json(w) {
        lemma_obj1_injective(key_client_id(), v, w);
    }
    if spec_unsolicited_json(v) == spec_unsolicited_json(w) {
        lemma_obj1_injective(key_message(), v, w);
    }
}

/// Write a join-lobby request.
pub fn encode_join_lobby_json(lobby_id: &str) -> (r: String)
    ensures
        r@ == spec_join_lobby_json(lobby_id@),
{
    let lit = "{\"lobby_id\":";
    proof {
        reveal_strlit("{\"lobby_id\":");
        assert(lit@ =~= key_lobby_id());
    }
    encode_obj1(lit, lobby_id)
}

/// Read a join-lobby request: a value exactly for what
/// [`encode_join_lobby_json`] writes.
pub fn parse_join_lobby_json(s: &str) -> (r: Option<String>)
    ensures
        r matches Some(v) ==> s@ == spec_join_lobby_json(v@),
        r is None ==> forall|v: Seq<char>| s@ != spec_join_lobby_json(v),
{
    let lit = "{\"lobby_id\":";
    proof {
        reveal_strlit("{\"lobby_id\":");
        assert(lit@ =~= key_lobby_id());
    }
    parse_obj1(s, lit)
}

/// Write a create-lobby request.
pub fn encode_create_lobby_json(game_type_id: &str) -> (r: String)
    ensures
        r@ == spec_create_lobby_json(game_type_id@),
{
    let lit = "{\"game_type_id\":";
    proof {
        reveal_strlit("{\"game_type_id\":");
        assert(lit@ =~= key_game_type_id());
    }
    encode_obj1(lit, game_type_id)
}

/// Read a create-lobby request: a value exactly for what
/// [`encode_create_lobby_json`] writes.
pub fn parse_create_lobby_json(s: &str) -> (r: Option<String>)
    ensures
        r matches Some(v) ==> s@ == spec_create_lobby_json(v@),
        r is None ==> forall|v: Seq<char>| s@ != spec_create_lobby_json(v),
{
    let lit = "{\"game_type_id\":";
    proof {
        reveal_strlit("{\"game_type_id\":");
        assert(lit@ =~= key_game_type_id());
    }
    parse_obj1(s, lit)
}

/// Write a connect response.
pub fn encode_connect_response_json(client_id: &str) -> (r: String)
    ensures
        r@ == spec_connect_response_json(client_id@),
{
    let lit = "{\"client_id\":";
    proof {
        reveal_strlit("{\"client_id\":");
        assert(lit@ =~= key_client_id());
    }
    encode_obj1(lit, client_id)
}

/// Read a connect response: a value exactly for what
/// [`encode_connect_response_json`] writes.
pub fn parse_connect_response_json(s: &str) -> (r: Option<String>)
    ensures
        r matches Some(v) ==> s@ == spec_connect_response_json(v@),
        r is None ==> forall|v: Seq<char>| s@ != spec_connect_response_json(v),
{
    let lit = "{\"client_id\":";
    proof {
        reveal_strlit("{\"client_id\":");
        assert(lit@ =~= key_client_id());
    }
    parse_obj1(s, lit)
}

/// Write an unsolicited message.
pub fn encode_unsolicited_json(message: &str) -> (r: String)
    ensures
        r@ == spec_unsolicited_json(message@),
{
    let lit = "{\"message\":";
    proof {
        reveal_strlit("{\"message\":");
        assert(lit@ =~= key_message());
    }
    encode_obj1(lit, message)
}

/// Read an unsolicited message: a value exactly for what
/// [`encode_unsolicited_json`] writes.
pub fn parse_unsolicited_json(s: &str) -> (r: Option<String>)
    ensures
        r matches Some(v) ==> s@ == spec_unsolicited_json(v@),
        r is None ==> forall|v: Seq<char>| s@ != spec_unsolicited_json(v),
{
    let lit = "{\"message\":";
    proof {
        reveal_strlit("{\"message\":");
        assert(lit@ =~= key_message());
    }
    parse_obj1(s, lit)
}

/// The opening of the missing-message payload.
pub open spec fn key_missing() -> Seq<char> {
    seq![
        '{',
        '"',
        'm',
        'i',
        's',
        's',
        'i',
        'n',
        'g',
        '_',
        'm',
        'e',
        's',
        's',
        'a',
        'g',
        'e',
        '_',
        'i',
        'd',
        's',
        '"',
        ':',
    ]
}

/// The JSON form of a missing-message response.
pub open spec fn spec_missing_json(ids: Seq<int>) -> Seq<char> {
    key_missing() + json_num_array(ids) + seq!['}']
}

/// Write a missing-message response.
pub fn encode_missing_json(ids: &Vec<u32>) -> (r: String)
    ensures
        r@ == spec_missing_json(ids@.map_values(|x: u32| x as int)),
{
    let mut out = String::new();
    out.append("{\"missing_message_ids\":");
    proof {
        reveal_strlit("{\"missing_message_ids\":");
        assert("{\"missing_message_ids\":"@ =~= key_missing());
    }
    append_num_array(&mut out, ids);
    out.push('}');
    proof {
        assert(out@ =~= spec_missing_json(ids@.map_values(|x: u32| x as int)));
    }
    out
}

/// Read a missing-message response: a value exactly for what
/// [`encode_missing_json`] writes.
#[verifier::rlimit(100)]
pub fn parse_missing_json(s: &str) -> (r: Option<Vec<u32>>)
    ensures
        r matches Some(v) ==> s@ == spec_missing_json(v@.map_values(|x: u32| x as int)),
        r is None ==> forall|a: Seq<int>|
            !((forall|k: int| 0 <= k < a.len() ==> 0 <= #[trigger] a[k] <= u32::MAX) && s@
                == spec_missing_json(a)),
{
    let lit = "{\"missing_message_ids\":";
    proof {
        reveal_strlit("{\"missing_message_ids\":");
        assert(lit@ =~= key_missing());
    }
    let j0 = match expect_lit_at(s, 0, lit) {
        Some(j) => j,
        None => {
            proof {
                assert forall|a: Seq<int>|
                    !((forall|k: int| 0 <= k < a.len() ==> 0 <= #[trigger] a[k] <= u32::MAX) && s@
                        == spec_missing_json(a)) by {
                    if s@ == spec_missing_json(a) {
                        assert(s@.subrange(0, key_missing().len() as int) =~= key_missing());
                    }
                }
            }
            return None;
        },
    };
    let arr = parse_u32_array_at(s, j0);
    proof {
        assert forall|a: Seq<int>|
            ((forall|k: int| 0 <= k < a.len() ==> 0 <= #[trigger] a[k] <= u32::MAX) && s@
                == spec_missing_json(a)) implies crate::json::num_array_at(s@, j0 as int) by {
            assert(s@.skip(j0 as int) =~= crate::json::json_num_array(a) + seq!['}']);
        }
    }
    let (ids, j1) = match arr {
        Some(p) => p,
        None => {
            return None;
        },
    };
    let n = s.unicode_len();
    if j1 < n && j1 + 1 == n && s.get_char(j1) == '}' {
        proof {
            assert(s@ =~= s@.subrange(0, j0 as int) + s@.subrange(j0 as int, j1 as int) + seq![
                '}',
            ]);
        }
        Some(ids)
    } else {
        proof {
            // the array ends where the parser says; a canonical text
            // would put its closing brace exactly there
            assert forall|a: Seq<int>|
                !((forall|k: int| 0 <= k < a.len() ==> 0 <= #[trigger] a[k] <= u32::MAX) && s@
                    == spec_missing_json(a)) by {
                if (forall|k: int| 0 <= k < a.len() ==> 0 <= #[trigger] a[k] <= u32::MAX) && s@
                    == spec_missing_json(a) {
                    let parsed = ids@.map_values(|x: u32| x as int);
                    assert(s@.skip(j0 as int) =~= crate::json::json_num_array(a) + seq!['}']);
                    assert(s@.subrange(j0 as int, j1 as int) == crate::json::json_num_array(
                        parsed,
                    ));
                    assert(s@.skip(j0 as int) =~= s@.subrange(j0 as int, j1 as int) + s@.skip(
                        j1 as int,
                    ));
                    assert(s@.skip(j0 as int) =~= crate::json::json_num_array(parsed) + s@.skip(
                        j1 as int,
                    ));
                    assert((crate::json::json_num_array(parsed) + s@.skip(j1 as int)).skip(1)
                        =~= crate::json::json_num_items(parsed) + seq![']'] + s@.skip(j1 as int));
                    assert((crate::json::json_num_array(a) + seq!['}']).skip(1)
                        =~= crate::json::json_num_items(a) + seq![']'] + seq!['}']);
                    assert(crate::json::json_num_items(parsed) + seq![']'] + s@.skip(j1 as int)
                        =~= crate::json::json_num_items(a) + seq![']'] + seq!['}']);
                    crate::json::lemma_num_array_prefix_injective(
                        parsed,
                        a,
                        s@.skip(j1 as int),
                        seq!['}'],
                    );
                    assert(s@.skip(j1 as int).len() == 1);
                    assert(s@[j1 as int] == '}');
                }
            }
        }
        None
    }
}

/// The opening of the supported-games payload.
pub open spec fn key_games() -> Seq<char> {
    seq!['{', '"', 'g', 'a', 'm', 'e', 's', '"', ':']
}

/// The JSON form of a supported-games response.
pub open spec fn spec_supported_games_json(games: Seq<Seq<char>>) -> Seq<char> {
    key_games() + json_string_array(games) + seq!['}']
}

/// Write a supported-games response.
pub fn encode_supported_games_json(games: &Vec<String>) -> (r: String)
    ensures
        r@ == spec_supported_games_json(games.deep_view()),
{
    let mut out = String::new();
    out.append("{\"games\":");
    proof {
        reveal_strlit("{\"games\":");
        assert("{\"games\":"@ =~= key_games());
    }
    append_string_array(&mut out, games);
    out.push('}');
    proof {
        assert(out@ =~= spec_supported_games_json(games.deep_view()));
    }
    out
}

/// Read a supported-games response: a value exactly for what
/// [`encode_supported_games_json`] writes.
#[verifier::rlimit(100)]
pub fn parse_supported_games_json(s: &str) -> (r: Option<Vec<String>>)
    ensures
        r matches Some(v) ==> s@ == spec_supported_games_json(v.deep_view()),
        r is None ==> forall|a: Seq<Seq<char>>| s@ != spec_supported_games_json(a),
{
    let lit = "{\"games\":";
    proof {
        reveal_strlit("{\"games\":");
        assert(lit@ =~= key_games());
    }
    let j0 = match expect_lit_at(s, 0, lit) {
        Some(j) => j,
        None => {
            proof {
                assert forall|a: Seq<Seq<char>>| s@ != spec_supported_games_json(a) by {
                    if s@ == spec_supported_games_json(a) {
                        assert(s@.subrange(0, key_games().len() as int) =~= key_games());
                    }
                }
            }
            return None;
        },
    };
    let arr = parse_string_array_at(s, j0);
    proof {
        assert forall|a: Seq<Seq<char>>|
            s@ == spec_supported_games_json(a) implies crate::json::string_array_at(
            s@,
            j0 as int,
        ) by {
            assert(s@.skip(j0 as int) =~= crate::json::json_string_array(a) + seq!['}']);
        }
    }
    let (games, j1) = match arr {
        Some(p) => p,
        None => {
            return None;
        },
    };
    let n = s.unicode_len();
    if j1 < n && j1 + 1 == n && s.get_char(j1) == '}' {
        proof {
            assert(s@ =~= s@.subrange(0, j0 as int) + s@.subrange(j0 as int, j1 as int) + seq![
                '}',
            ]);
        }
        Some(games)
    } else {
        proof {
            assert forall|a: Seq<Seq<char>>| s@ != spec_supported_games_json(a) by {
                if s@ == spec_supported_games_json(a) {
                    let parsed = games.deep_view();
                    assert(s@.skip(j0 as int) =~= crate::json::json_string_array(a) + seq!['}']);
                    assert(s@.subrange(j0 as int, j1 as int) == crate::json::json_string_array(
                        parsed,
                    ));
                    assert(s@.skip(j0 as int) =~= s@.subrange(j0 as int, j1 as int) + s@.skip(
                        j1 as int,
                    ));
                    assert(s@.skip(j0 as int) =~= crate::json::json_string_array(parsed)
                        + s@.skip(j1 as int));
                    assert((crate::json::json_string_array(parsed) + s@.skip(j1 as int)).skip(1)
                        =~= crate::json::json_string_items(parsed) + seq![']'] + s@.skip(
                        j1 as int,
                    ));
                    assert((crate::json::json_string_array(a) + seq!['}']).skip(1)
                        =~= crate::json::json_string_items(a) + seq![']'] + seq!['}']);
                    assert(crate::json::json_string_items(parsed) + seq![']'] + s@.skip(j1 as int)
                        =~= crate::json::json_string_items(a) + seq![']'] + seq!['}']);
                    crate::json::lemma_string_array_prefix_injective(
                        parsed,
                        a,
                        s@.skip(j1 as int),
                        seq!['}'],
                    );
                    assert(s@.skip(j1 as int).len() == 1);
                    assert(s@[j1 as int] == '}');
                }
            }
        }
        None
    }
}

/// Round trip of the missing-message payload: its wire form pins the
/// sequence numbers, so building the response and parsing it back
/// preserves them all.
pub proof fn lemma_missing_json_round_trip(a: Seq<int>, b: Seq<int>)
    requires
        forall|i: int| 0 <= i < a.len() ==> a[i] >= 0,
        forall|i: int| 0 <= i < b.len() ==> b[i] >= 0,
        spec_missing_json(a) == spec_missing_json(b),
    ensures
        a == b,
{
    let t = spec_missing_json(a);
    let n = key_missing().len() as int;
    assert(crate::json::json_num_items(a) =~= t.subrange(n + 1, t.len() - 2));
    assert(crate::json::json_num_items(b) =~= t.subrange(n + 1, t.len() - 2));
    crate::json::lemma_num_items_injective(a, b);
}

/// Round trip of the supported-games payload: its wire form pins the
/// game keys, so building the response and parsing it back preserves
/// them all.
pub proof fn lemma_supported_games_json_round_trip(a: Seq<Seq<char>>, b: Seq<Seq<char>>)
    requires
        spec_supported_games_json(a) == spec_supported_games_json(b),
    ensures
        a == b,
{
    let t = spec_supported_games_json(a);
    let n = key_games().len() as int;
    assert(crate::json::json_string_items(a) =~= t.subrange(n + 1, t.len() - 2));
    assert(crate::json::json_string_items(b) =~= t.subrange(n + 1, t.len() - 2));
    crate::json::lemma_string_items_injective(a, b);
}

/// The opening of the game-metadata object.
pub open spec fn key_game_title() -> Seq<char> {
    seq!['{', '"', 'g', 'a', 'm', 'e', '_', 't', 'i', 't', 'l', 'e', '"', ':']
}

/// The version field of the game-metadata object, after its comma.
pub open spec fn key_version() -> Seq<char> {
    seq![',', '"', 'v', 'e', 'r', 's', 'i', 'o', 'n', '"', ':']
}

/// The maximum-players field of the game-metadata object.
pub open spec fn key_max_players() -> Seq<char> {
    seq![',', '"', 'm', 'a', 'x', '_', 'p', 'l', 'a', 'y', 'e', 'r', 's', '"', ':']
}

/// The minimum-players field of the game-metadata object.
pub open spec fn key_min_required() -> Seq<char> {
    seq![
        ',',
        '"',
        'm',
        'i',
        'n',
        '_',
        'r',
        'e',
        'q',
        'u',
        'i',
        'r',
        'e',
        'd',
        '_',
        'p',
        'l',
        'a',
        'y',
        'e',
        'r',
        's',
        '"',
        ':',
    ]
}

/// The JSON form of a game's metadata.
pub open spec fn spec_metadata_json(m: GameMetadataView) -> Seq<char> {
    key_game_title() + json_string(m.game_title) + key_version() + json_string(m.version)
        + key_max_players() + spec_dec(m.max_players) + key_min_required() + spec_dec(
        m.min_required_players,
    ) + seq!['}']
}

/// Write a game's metadata.
pub fn append_metadata_json(out: &mut String, m: &GameMetadata)
    ensures
        final(out)@ == old(out)@ + spec_metadata_json(m@),
{
    out.append("{\"game_title\":");
    append_json_string(out, m.game_title.as_str());
    out.append(",\"version\":");
    append_json_string(out, m.version.as_str());
    out.append(",\"max_players\":");
    append_dec_u64(out, m.max_players as u64);
    out.append(",\"min_required_players\":");
    append_dec_u64(out, m.min_required_players as u64);
    out.push('}');
    proof {
        reveal_strlit("{\"game_title\":");
        reveal_strlit(",\"version\":");
        reveal_strlit(",\"max_players\":");
        reveal_strlit(",\"min_required_players\":");
        assert("{\"game_title\":"@ =~= key_game_title());
        assert(",\"version\":"@ =~= key_version());
        assert(",\"max_players\":"@ =~= key_max_players());
        assert(",\"min_required_players\":"@ =~= key_min_required());
        assert(final(out)@ =~= old(out)@ + spec_metadata_json(m@));
    }
}

/// Read a JSON string field led by a literal, for composite objects.
fn parse_keyed_string_at(s: &str, i: usize, lit: &str) -> (r: Option<(String, usize)>)
    requires
        i <= s@.len(),
    ensures
        r matches Some(p) ==> i <= p.1 as int <= s@.len() && s@.subrange(i as int, p.1 as int)
            == lit@ + json_string(p.0@),
{
    let j0 = match expect_lit_at(s, i, lit) {
        Some(j) => j,
        None => {
            return None;
        },
    };
    let (v, j1) = match parse_json_string_at(s, j0) {
        Some(p) => p,
        None => {
            return None;
        },
    };
    proof {
        let t = s@.skip(j0 as int);
        assert(t.len() > 0 && t[0] == '"' && spec_unescape(t.skip(1)) is Some);
        let p = spec_unescape(t.skip(1)).unwrap();
        lemma_unescape_sound(t.skip(1));
        assert(t.skip(1).subrange(0, p.1) =~= s@.subrange(j0 + 1, j1 as int));
        assert(s@.subrange(j0 as int, j1 as int) =~= seq![t[0]] + s@.subrange(j0 + 1, j1 as int));
        assert(s@.subrange(j0 as int, j1 as int) == json_string(v@));
        assert(s@.subrange(i as int, j1 as int) =~= lit@ + json_string(v@));
    }
    Some((v, j1))
}

/// Read a decimal field led by a literal, for composite objects; the
/// value must fit a `usize`.
fn parse_keyed_usize_at(s: &str, i: usize, lit: &str) -> (r: Option<(usize, usize)>)
    requires
        i <= s@.len(),
    ensures
        r matches Some(p) ==> i <= p.1 as int <= s@.len() && s@.subrange(i as int, p.1 as int)
            == lit@ + spec_dec(p.0 as int),
{
    let j0 = match expect_lit_at(s, i, lit) {
        Some(j) => j,
        None => {
            return None;
        },
    };
    let (v, j1) = match parse_u64_at(s, j0) {
        Some(p) => p,
        None => {
            return None;
        },
    };
    if v > usize::MAX as u64 {
        return None;
    }
    proof {
        lemma_parse_number_sound(s@.skip(j0 as int));
        let p = crate::json::spec_parse_number(s@.skip(j0 as int)).unwrap();
        assert(s@.skip(j0 as int).subrange(0, p.1) =~= s@.subrange(j0 as int, j1 as int));
        assert(s@.subrange(i as int, j1 as int) =~= lit@ + spec_dec(v as int));
    }
    Some((v as usize, j1))
}

/// Read a game's metadata starting at a character position: a value only
/// for what [`append_metadata_json`] writes.
pub fn parse_metadata_at(s: &str, i: usize) -> (r: Option<(GameMetadata, usize)>)
    requires
        i <= s@.len(),
    ensures
        r matches Some(p) ==> i <= p.1 as int <= s@.len() && s@.subrange(i as int, p.1 as int)
            == spec_metadata_json(p.0@),
{
    proof {
        reveal_strlit("{\"game_title\":");
        reveal_strlit(",\"version\":");
        reveal_strlit(",\"max_players\":");
        reveal_strlit(",\"min_required_players\":");
        assert("{\"game_title\":"@ =~= key_game_title());
        assert(",\"version\":"@ =~= key_version());
        assert(",\"max_players\":"@ =~= key_max_players());
        assert(",\"min_required_players\":"@ =~= key_min_required());
    }
    let (game_title, j1) = match parse_keyed_string_at(s, i, "{\"game_title\":") {
        Some(p) => p,
        None => {
            return None;
        },
    };
    let (version, j2) = match parse_keyed_string_at(s, j1, ",\"version\":") {
        Some(p) => p,
        None => {
            return None;
        },
    };
    let (max_players, j3) = match parse_keyed_usize_at(s, j2, ",\"max_players\":") {
        Some(p) => p,
        None => {
            return None;
        },
    };
    let (min_required_players, j4) = match parse_keyed_usize_at(
        s,
        j3,
        ",\"min_required_players\":",
    ) {
        Some(p) => p,
        None => {
            return None;
        },
    };
    let n = s.unicode_len();
    if j4 < n && s.get_char(j4) == '}' {
        let m = GameMetadata { game_title, version, max_players, min_required_players };
        proof {
            assert(s@.subrange(i as int, j4 + 1) =~= s@.subrange(i as int, j1 as int)
                + s@.subrange(j1 as int, j2 as int) + s@.subrange(j2 as int, j3 as int)
                + s@.subrange(j3 as int, j4 as int) + seq!['}']);
            assert(s@.subrange(i as int, j4 + 1) =~= spec_metadata_json(m@));
        }
        Some((m, j4 + 1))
    } else {
        None
    }
}

/// A metadata object pins its fields and what follows it: two texts
/// that agree carry the same metadata and the same remainder.
#[verifier::rlimit(100)]
pub proof fn lemma_metadata_prefix_injective(
    m1: GameMetadataView,
    m2: GameMetadataView,
    r1: Seq<char>,
    r2: Seq<char>,
)
    requires
        m1.max_players >= 0,
        m1.min_required_players >= 0,
        m2.max_players >= 0,
        m2.min_required_players >= 0,
        spec_metadata_json(m1) + r1 == spec_metadata_json(m2) + r2,
    ensures
        m1 == m2,
        r1 == r2,
{
    let t = spec_metadata_json(m1) + r1;
    let s1a = key_version() + json_string(m1.version) + key_max_players() + spec_dec(
        m1.max_players,
    ) + key_min_required() + spec_dec(m1.min_required_players) + seq!['}'] + r1;
    let s1b = key_version() + json_string(m2.version) + key_max_players() + spec_dec(
        m2.max_players,
    ) + key_min_required() + spec_dec(m2.min_required_players) + seq!['}'] + r2;
    assert(t.skip(key_game_title().len() as int) =~= json_string(m1.game_title) + s1a);
    assert(t.skip(key_game_title().len() as int) =~= json_string(m2.game_title) + s1b);
    lemma_json_string_prefix_injective(m1.game_title, m2.game_title, s1a, s1b);
    let s2a = key_max_players() + spec_dec(m1.max_players) + key_min_required() + spec_dec(
        m1.min_required_players,
    ) + seq!['}'] + r1;
    let s2b = key_max_players() + spec_dec(m2.max_players) + key_min_required() + spec_dec(
        m2.min_required_players,
    ) + seq!['}'] + r2;
    assert(s1a.skip(key_version().len() as int) =~= json_string(m1.version) + s2a);
    assert(s1b.skip(key_version().len() as int) =~= json_string(m2.version) + s2b);
    lemma_json_string_prefix_injective(m1.version, m2.version, s2a, s2b);
    let s3a = key_min_required() + spec_dec(m1.min_required_players) + seq!['}'] + r1;
    let s3b = key_min_required() + spec_dec(m2.min_required_players) + seq!['}'] + r2;
    assert(s2a.skip(key_max_players().len() as int) =~= spec_dec(m1.max_players) + s3a);
    assert(s2b.skip(key_max_players().len() as int) =~= spec_dec(m2.max_players) + s3b);
    crate::json::lemma_dec_prefix_injective(m1.max_players, m2.max_players, s3a, s3b);
    let s4a = seq!['}'] + r1;
    let s4b = seq!['}'] + r2;
    assert(s3a.skip(key_min_required().len() as int) =~= spec_dec(m1.min_required_players) + s4a);
    assert(s3b.skip(key_min_required().len() as int) =~= spec_dec(m2.min_required_players) + s4b);
    crate::json::lemma_dec_prefix_injective(
        m1.min_required_players,
        m2.min_required_players,
        s4a,
        s4b,
    );
    assert(r1 =~= s4a.skip(1));
    assert(r2 =~= s4b.skip(1));
}

/// The opening of the lobby object.
pub open spec fn key_id() -> Seq<char> {
    seq!['{', '"', 'i', 'd', '"', ':']
}

/// The owner field of the lobby object.
pub open spec fn key_owner() -> Seq<char> {
    seq![',', '"', 'o', 'w', 'n', 'e', 'r', '"', ':']
}

/// The player list field of the lobby object.
pub open spec fn key_player_ids() -> Seq<char> {
    seq![',', '"', 'p', 'l', 'a', 'y', 'e', 'r', '_', 'i', 'd', 's', '"', ':']
}

/// The started flag field of the lobby object.
pub open spec fn key_game_started() -> Seq<char> {
    seq![',', '"', 'g', 'a', 'm', 'e', '_', 's', 't', 'a', 'r', 't', 'e', 'd', '"', ':']
}

/// The metadata field of the lobby object.
pub open spec fn key_game_metadata() -> Seq<char> {
    seq![',', '"', 'g', 'a', 'm', 'e', '_', 'm', 'e', 't', 'a', 'd', 'a', 't', 'a', '"', ':']
}

/// The JSON form of a lobby.
pub open spec fn spec_lobby_json(l: LobbyView) -> Seq<char> {
    key_id() + json_string(l.id) + key_owner() + json_string(l.owner) + key_player_ids()
        + json_string_array(l.player_ids) + key_game_started() + json_bool(l.game_started)
        + key_game_metadata() + spec_metadata_json(l.game_metadata) + seq!['}']
}

/// Write a lobby.
pub fn append_lobby_json(out: &mut String, l: &Lobby)
    ensures
        final(out)@ == old(out)@ + spec_lobby_json(l@),
{
    out.append("{\"id\":");
    append_json_string(out, l.id.as_str());
    out.append(",\"owner\":");
    append_json_string(out, l.owner.as_str());
    out.append(",\"player_ids\":");
    append_string_array(out, &l.player_ids);
    out.append(",\"game_started\":");
    append_json_bool(out, l.game_started);
    out.append(",\"game_metadata\":");
    append_metadata_json(out, &l.game_metadata);
    out.push('}');
    proof {
        reveal_strlit("{\"id\":");
        reveal_strlit(",\"owner\":");
        reveal_strlit(",\"player_ids\":");
        reveal_strlit(",\"game_started\":");
        reveal_strlit(",\"game_metadata\":");
        assert("{\"id\":"@ =~= key_id());
        assert(",\"owner\":"@ =~= key_owner());
        assert(",\"player_ids\":"@ =~= key_player_ids());
        assert(",\"game_started\":"@ =~= key_game_started());
        assert(",\"game_metadata\":"@ =~= key_game_metadata());
        assert(final(out)@ =~= old(out)@ + spec_lobby_json(l@));
    }
}

/// Read a boolean, for composite objects.
fn parse_bool_at(s: &str, i: usize) -> (r: Option<(bool, usize)>)
    requires
        i <= s@.len(),
    ensures
        r matches Some(p) ==> i <= p.1 as int <= s@.len() && s@.subrange(i as int, p.1 as int)
            == json_bool(p.0),
{
    proof {
        reveal_strlit("true");
        reveal_strlit("false");
        assert("true"@ =~= json_bool(true));
        assert("false"@ =~= json_bool(false));
    }
    match expect_lit_at(s, i, "true") {
        Some(j) => Some((true, j)),
        None => match expect_lit_at(s, i, "false") {
            Some(j) => Some((false, j)),
            None => None,
        },
    }
}

/// Read a lobby starting at a character position: a value only for what
/// [`append_lobby_json`] writes.
#[verifier::rlimit(100)]
pub fn parse_lobby_at(s: &str, i: usize) -> (r: Option<(Lobby, usize)>)
    requires
        i <= s@.len(),
    ensures
        r matches Some(p) ==> i <= p.1 as int <= s@.len() && s@.subrange(i as int, p.1 as int)
            == spec_lobby_json(p.0@),
{
    proof {
        reveal_strlit(",\"player_ids\":");
        reveal_strlit(",\"game_started\":");
        reveal_strlit(",\"game_metadata\":");
        assert(",\"player_ids\":"@ =~= key_player_ids());
        assert(",\"game_started\":"@ =~= key_game_started());
        assert(",\"game_metadata\":"@ =~= key_game_metadata());
        reveal_strlit("{\"id\":");
        reveal_strlit(",\"owner\":");
        assert("{\"id\":"@ =~= key_id());
        assert(",\"owner\":"@ =~= key_owner());
    }
    let (id, j1) = match parse_keyed_string_at(s, i, "{\"id\":") {
        Some(p) => p,
        None => {
            return None;
        },
    };
    let (owner, j2) = match parse_keyed_string_at(s, j1, ",\"owner\":") {
        Some(p) => p,
        None => {
            return None;
        },
    };
    let j3 = match expect_lit_at(s, j2, ",\"player_ids\":") {
        Some(j) => j,
        None => {
            return None;
        },
    };
    let (player_ids, j4) = match parse_string_array_at(s, j3) {
        Some(p) => p,
        None => {
            return None;
        },
    };
    let j5 = match expect_lit_at(s, j4, ",\"game_started\":") {
        Some(j) => j,
        None => {
            return None;
        },
    };
    let (game_started, j6) = match parse_bool_at(s, j5) {
        Some(p) => p,
        None => {
            return None;
        },
    };
    let j7 = match expect_lit_at(s, j6, ",\"game_metadata\":") {
        Some(j) => j,
        None => {
            return None;
        },
    };
    let (game_metadata, j8) = match parse_metadata_at(s, j7) {
        Some(p) => p,
        None => {
            return None;
        },
    };
    let n = s.unicode_len();
    if j8 < n && s.get_char(j8) == '}' {
        let l = Lobby { id, owner, player_ids, game_started, game_metadata };
        proof {
            assert(s@.subrange(i as int, j8 + 1) =~= s@.subrange(i as int, j1 as int)
                + s@.subrange(j1 as int, j2 as int) + s@.subrange(j2 as int, j3 as int)
                + s@.subrange(j3 as int, j4 as int) + s@.subrange(j4 as int, j5 as int)
                + s@.subrange(j5 as int, j6 as int) + s@.subrange(j6 as int, j7 as int)
                + s@.subrange(j7 as int, j8 as int) + seq!['}']);
            assert(s@.subrange(i as int, j8 + 1) =~= spec_lobby_json(l@));
        }
        Some((l, j8 + 1))
    } else {
        None
    }
}

/// A lobby object pins its fields and what follows it: two texts that
/// agree carry the same lobby and the same remainder.
#[verifier::rlimit(100)]
pub proof fn lemma_lobby_prefix_injective(
    l1: LobbyView,
    l2: LobbyView,
    r1: Seq<char>,
    r2: Seq<char>,
)
    requires
        l1.game_metadata.max_players >= 0,
        l1.game_metadata.min_required_players >= 0,
        l2.game_metadata.max_players >= 0,
        l2.game_metadata.min_required_players >= 0,
        spec_lobby_json(l1) + r1 == spec_lobby_json(l2) + r2,
    ensures
        l1 == l2,
        r1 == r2,
{
    lemma_lobby_head_injective(l1, l2, r1, r2);
    let s2a = key_player_ids() + json_string_array(l1.player_ids) + key_game_started()
        + json_bool(l1.game_started) + key_game_metadata() + spec_metadata_json(l1.game_metadata)
        + seq!['}'] + r1;
    let s3a = key_game_started() + json_bool(l1.game_started) + key_game_metadata()
        + spec_metadata_json(l1.game_metadata) + seq!['}'] + r1;
    let s3b = key_game_started() + json_bool(l2.game_started) + key_game_metadata()
        + spec_metadata_json(l2.game_metadata) + seq!['}'] + r2;
    assert(s2a.skip(key_player_ids().len() as int + 1) =~= crate::json::json_string_items(
        l1.player_ids,
    ) + seq![']'] + s3a);
    assert(s2a.skip(key_player_ids().len() as int + 1) =~= crate::json::json_string_items(
        l2.player_ids,
    ) + seq![']'] + s3b);
    crate::json::lemma_string_items_prefix_injective(l1.player_ids, l2.player_ids, s3a, s3b);
    lemma_lobby_tail_injective(
        l1.game_started,
        l2.game_started,
        l1.game_metadata,
        l2.game_metadata,
        r1,
        r2,
    );
}

/// The head of a lobby object — its id and owner — pins those fields,
/// and the texts agree from the player list on.
#[verifier::rlimit(100)]
proof fn lemma_lobby_head_injective(l1: LobbyView, l2: LobbyView, r1: Seq<char>, r2: Seq<char>)
    requires
        spec_lobby_json(l1) + r1 == spec_lobby_json(l2) + r2,
    ensures
        l1.id == l2.id,
        l1.owner == l2.owner,
        key_player_ids() + json_string_array(l1.player_ids) + key_game_started() + json_bool(
            l1.game_started,
        ) + key_game_metadata() + spec_metadata_json(l1.game_metadata) + seq!['}'] + r1
            == key_player_ids() + json_string_array(l2.player_ids) + key_game_started()
            + json_bool(l2.game_started) + key_game_metadata() + spec_metadata_json(
            l2.game_metadata,
        ) + seq!['}'] + r2,
{
    let t = spec_lobby_json(l1) + r1;
    let s1a = key_owner() + json_string(l1.owner) + key_player_ids() + json_string_array(
        l1.player_ids,
    ) + key_game_started() + json_bool(l1.game_started) + key_game_metadata()
        + spec_metadata_json(l1.game_metadata) + seq!['}'] + r1;
    let s1b = key_owner() + json_string(l2.owner) + key_player_ids() + json_string_array(
        l2.player_ids,
    ) + key_game_started() + json_bool(l2.game_started) + key_game_metadata()
        + spec_metadata_json(l2.game_metadata) + seq!['}'] + r2;
    assert(t.skip(key_id().len() as int) =~= json_string(l1.id) + s1a);
    assert(t.skip(key_id().len() as int) =~= json_string(l2.id) + s1b);
    lemma_json_string_prefix_injective(l1.id, l2.id, s1a, s1b);
    let s2a = key_player_ids() + json_string_array(l1.player_ids) + key_game_started()
        + json_bool(l1.game_started) + key_game_metadata() + spec_metadata_json(l1.game_metadata)
        + seq!['}'] + r1;
    let s2b = key_player_ids() + json_string_array(l2.player_ids) + key_game_started()
        + json_bool(l2.game_started) + key_game_metadata() + spec_metadata_json(l2.game_metadata)
        + seq!['}'] + r2;
    assert(s1a.skip(key_owner().len() as int) =~= json_string(l1.owner) + s2a);
    assert(s1b.skip(key_owner().len() as int) =~= json_string(l2.owner) + s2b);
    lemma_json_string_prefix_injective(l1.owner, l2.owner, s2a, s2b);
}

/// The tail of a lobby object — the started flag, the metadata and the
/// closing brace — pins those fields and what follows.
#[verifier::rlimit(100)]
proof fn lemma_lobby_tail_injective(
    gs1: bool,
    gs2: bool,
    m1: GameMetadataView,
    m2: GameMetadataView,
    r1: Seq<char>,
    r2: Seq<char>,
)
    requires
        m1.max_players >= 0,
        m1.min_required_players >= 0,
        m2.max_players >= 0,
        m2.min_required_players >= 0,
        key_game_started() + json_bool(gs1) + key_game_metadata() + spec_metadata_json(m1) + seq![
            '}',
        ] + r1 == key_game_started() + json_bool(gs2) + key_game_metadata() + spec_metadata_json(
            m2,
        ) + seq!['}'] + r2,
    ensures
        gs1 == gs2,
        m1 == m2,
        r1 == r2,
{
    let s3a = key_game_started() + json_bool(gs1) + key_game_metadata() + spec_metadata_json(m1)
        + seq!['}'] + r1;
    let s4a = key_game_metadata() + spec_metadata_json(m1) + seq!['}'] + r1;
    let s4b = key_game_metadata() + spec_metadata_json(m2) + seq!['}'] + r2;
    assert(s3a.skip(key_game_started().len() as int) =~= json_bool(gs1) + s4a);
    assert(s3a.skip(key_game_started().len() as int) =~= json_bool(gs2) + s4b);
    crate::json::lemma_bool_prefix_injective(gs1, gs2, s4a, s4b);
    let s5a = seq!['}'] + r1;
    let s5b = seq!['}'] + r2;
    assert(s4a.skip(key_game_metadata().len() as int) =~= spec_metadata_json(m1) + s5a);
    assert(s4b.skip(key_game_metadata().len() as int) =~= spec_metadata_json(m2) + s5b);
    lemma_metadata_prefix_injective(m1, m2, s5a, s5b);
    assert(r1 =~= s5a.skip(1));
    assert(r2 =~= s5b.skip(1));
}

/// Round trip of the lobby-info payload: its wire form pins every field
/// of the lobby, so building the response and parsing it back preserves
/// them all.
pub proof fn lemma_lobby_info_json_round_trip(l1: LobbyView, l2: LobbyView)
    requires
        l1.game_metadata.max_players >= 0,
        l1.game_metadata.min_required_players >= 0,
        l2.game_metadata.max_players >= 0,
        l2.game_metadata.min_required_players >= 0,
        spec_lobby_info_json(l1) == spec_lobby_info_json(l2),
    ensures
        l1 == l2,
{
    let t = spec_lobby_info_json(l1);
    assert(t.skip(key_lobby().len() as int) =~= spec_lobby_json(l1) + seq!['}']);
    assert(t.skip(key_lobby().len() as int) =~= spec_lobby_json(l2) + seq!['}']);
    lemma_lobby_prefix_injective(l1, l2, seq!['}'], seq!['}']);
}

/// The opening of the lobby-info payload.
pub open spec fn key_lobby() -> Seq<char> {
    seq!['{', '"', 'l', 'o', 'b', 'b', 'y', '"', ':']
}

/// The JSON form of a lobby-info response.
pub open spec fn spec_lobby_info_json(l: LobbyView) -> Seq<char> {
    key_lobby() + spec_lobby_json(l) + seq!['}']
}

/// Write a lobby-info response.
pub fn encode_lobby_info_json(l: &Lobby) -> (r: String)
    ensures
        r@ == spec_lobby_info_json(l@),
{
    let mut out = String::new();
    out.append("{\"lobby\":");
    proof {
        reveal_strlit("{\"lobby\":");
        assert("{\"lobby\":"@ =~= key_lobby());
    }
    append_lobby_json(&mut out, l);
    out.push('}');
    proof {
        assert(out@ =~= spec_lobby_info_json(l@));
    }
    out
}

/// Read a lobby-info response: a value only for what
/// [`encode_lobby_info_json`] writes.
pub fn parse_lobby_info_json(s: &str) -> (r: Option<Lobby>)
    ensures
        r matches Some(l) ==> s@ == spec_lobby_info_json(l@),
{
    let lit = "{\"lobby\":";
    proof {
        reveal_strlit("{\"lobby\":");
        assert(lit@ =~= key_lobby());
    }
    let j0 = match expect_lit_at(s, 0, lit) {
        Some(j) => j,
        None => {
            return None;
        },
    };
    let (l, j1) = match parse_lobby_at(s, j0) {
        Some(p) => p,
        None => {
            return None;
        },
    };
    let n = s.unicode_len();
    if j1 < n && j1 + 1 == n && s.get_char(j1) == '}' {
        proof {
            assert(s@ =~= s@.subrange(0, j0 as int) + s@.subrange(j0 as int, j1 as int) + seq![
                '}',
            ]);
        }
        Some(l)
    } else {
        None
    }
}

/// The comma-separated items of a JSON array of lobbies.
pub open spec fn json_lobby_items(a: Seq<LobbyView>) -> Seq<char>
    decreases a.len(),
{
    if a.len() == 0 {
        Seq::<char>::empty()
    } else if a.len() == 1 {
        spec_lobby_json(a[0])
    } else {
        spec_lobby_json(a[0]) + seq![','] + json_lobby_items(a.skip(1))
    }
}

/// Appending a lobby to the array appends a comma where items precede,
/// then the lobby.
pub proof fn lemma_lobby_items_snoc(a: Seq<LobbyView>, x: LobbyView)
    ensures
        json_lobby_items(a.push(x)) == if a.len() == 0 {
            spec_lobby_json(x)
        } else {
            json_lobby_items(a) + seq![','] + spec_lobby_json(x)
        },
    decreases a.len(),
{
    if a.len() == 0 {
        assert(a.push(x) =~= seq![x]);
        assert(json_lobby_items(seq![x]) == spec_lobby_json(x));
    } else {
        assert(a.push(x).skip(1) =~= a.skip(1).push(x));
        lemma_lobby_items_snoc(a.skip(1), x);
        assert(a.push(x)[0] == a[0]);
        if a.len() == 1 {
            assert(a.skip(1).len() == 0);
            assert(json_lobby_items(a.push(x)) =~= json_lobby_items(a) + seq![',']
                + spec_lobby_json(x));
        } else {
            assert(json_lobby_items(a.push(x)) =~= json_lobby_items(a) + seq![',']
                + spec_lobby_json(x));
        }
    }
}

/// The opening of the lobby-list payload.
pub open spec fn key_lobbies() -> Seq<char> {
    seq!['{', '"', 'l', 'o', 'b', 'b', 'i', 'e', 's', '"', ':']
}

/// The JSON form of a lobby-list response.
pub open spec fn spec_lobby_list_json(a: Seq<LobbyView>) -> Seq<char> {
    key_lobbies() + seq!['['] + json_lobby_items(a) + seq![']'] + seq!['}']
}

/// Write a lobby-list response.
pub fn encode_lobby_list_json(lobbies: &Vec<Lobby>) -> (r: String)
    ensures
        r@ == spec_lobby_list_json(lobbies@.map_values(|l: Lobby| l@)),
{
    let ghost model = lobbies@.map_values(|l: Lobby| l@);
    let mut out = String::new();
    out.append("{\"lobbies\":[");
    proof {
        reveal_strlit("{\"lobbies\":[");
        assert("{\"lobbies\":["@ =~= key_lobbies() + seq!['[']);
    }
    let ghost start = out@;
    let mut k: usize = 0;
    while k < lobbies.len()
        invariant
            model == lobbies@.map_values(|l: Lobby| l@),
            model.len() == lobbies@.len(),
            k <= lobbies@.len(),
            out@ == start + json_lobby_items(model.subrange(0, k as int)),
        decreases lobbies@.len() - k,
    {
        if k > 0 {
            out.push(',');
        }
        append_lobby_json(&mut out, &lobbies[k]);
        proof {
            assert(model.subrange(0, k as int).push(model[k as int]) =~= model.subrange(
                0,
                k + 1,
            ));
            lemma_lobby_items_snoc(model.subrange(0, k as int), model[k as int]);
            assert(out@ =~= start + json_lobby_items(model.subrange(0, k + 1)));
        }
        k += 1;
    }
    out.push(']');
    out.push('}');
    proof {
        assert(model.subrange(0, model.len() as int) =~= model);
        assert(out@ =~= spec_lobby_list_json(model));
    }
    out
}

/// Read a lobby-list response: a value only for what
/// [`encode_lobby_list_json`] writes.
#[verifier::rlimit(100)]
pub fn parse_lobby_list_json(s: &str) -> (r: Option<Vec<Lobby>>)
    ensures
        r matches Some(v) ==> s@ == spec_lobby_list_json(v@.map_values(|l: Lobby| l@)),
{
    let lit = "{\"lobbies\":[";
    proof {
        reveal_strlit("{\"lobbies\":[");
        assert(lit@ =~= key_lobbies() + seq!['[']);
    }
    let j0 = match expect_lit_at(s, 0, lit) {
        Some(j) => j,
        None => {
            return None;
        },
    };
    let n = s.unicode_len();
    let mut lobbies: Vec<Lobby> = Vec::new();
    let mut cur: usize = j0;
    if cur + 1 < n && cur + 2 == n && s.get_char(cur) == ']' && s.get_char(cur + 1) == '}' {
        proof {
            assert(lobbies@.map_values(|l: Lobby| l@) =~= Seq::<LobbyView>::empty());
            assert(s@ =~= spec_lobby_list_json(Seq::<LobbyView>::empty()));
        }
        return Some(lobbies);
    }
    loop
        invariant
            j0 <= cur <= n,
            n == s@.len(),
            j0 as int == key_lobbies().len() + 1,
            s@.subrange(0, j0 as int) == key_lobbies() + seq!['['],
            s@.subrange(j0 as int, cur as int) == (if lobbies@.len() == 0 {
                Seq::<char>::empty()
            } else {
                json_lobby_items(lobbies@.map_values(|l: Lobby| l@)) + seq![',']
            }),
        decreases n - cur,
    {
        let ghost model = lobbies@.map_values(|l: Lobby| l@);
        let (l, j) = match parse_lobby_at(s, cur) {
            Some(p) => p,
            None => {
                return None;
            },
        };
        proof {
            lemma_lobby_items_snoc(model, l@);
            assert(s@.subrange(j0 as int, j as int) =~= s@.subrange(j0 as int, cur as int)
                + s@.subrange(cur as int, j as int));
        }
        let ghost lv = l@;
        lobbies.push(l);
        proof {
            assert(lobbies@.map_values(|l: Lobby| l@) =~= model.push(lv));
        }
        if j < n && s.get_char(j) == ',' {
            proof {
                assert(s@.subrange(j0 as int, j + 1) =~= s@.subrange(j0 as int, j as int) + seq![
                    ',',
                ]);
            }
            cur = j + 1;
            if cur >= n {
                return None;
            }
        } else if j < n && j + 1 < n && j + 2 == n && s.get_char(j) == ']' && s.get_char(j + 1)
            == '}' {
            proof {
                let full = lobbies@.map_values(|l: Lobby| l@);
                assert(s@ =~= s@.subrange(0, j0 as int) + s@.subrange(j0 as int, j as int) + seq![
                    ']',
                ] + seq!['}']);
                assert(s@ =~= spec_lobby_list_json(full));
            }
            return Some(lobbies);
        } else {
            return None;
        }
    }
}

} // verus!
