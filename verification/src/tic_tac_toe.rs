//! A tic-tac-toe game module: one instance of the pluggable game
//! contract the protocol can host. Two players fill a three-by-three
//! board; the game ends when a row, column or diagonal carries one
//! symbol, or the board fills with no winner.

use vstd::prelude::*;

use crate::enums::ServerError;
use crate::game_module::{GameMetadata, GameMetadataView, GameModule, GameMove, GameState};
use crate::json::{append_json_bool, append_json_string, expect_lit_at, parse_json_string_at};
use vstd::string::{StrSliceExecFns, StringExecFns};

verus! {

broadcast use vstd::seq::group_seq_axioms;

/// The value shown in one cell of the board.
#[derive(Debug, Copy, Clone, PartialEq, Eq, Structural)]
pub enum CellElement {
    Empty,
    X,
    O,
}

impl DeepView for CellElement {
    type V = CellElement;

    open spec fn deep_view(&self) -> CellElement {
        *self
    }
}

/// The tic-tac-toe game state: the board, whose turn it is, which player
/// holds each symbol, and the outcome once the game is over.
#[derive(Debug)]
pub struct TicTacToeState {
    pub board: Vec<Vec<CellElement>>,
    pub this_turn: CellElement,
    pub x_player_id: String,
    pub o_player_id: String,
    pub winner: Option<String>,
    pub game_over: bool,
}

/// Mathematical model of [`TicTacToeState`].
pub struct TicTacToeStateView {
    pub board: Seq<Seq<CellElement>>,
    pub this_turn: CellElement,
    pub x_player_id: Seq<char>,
    pub o_player_id: Seq<char>,
    pub winner: Option<Seq<char>>,
    pub game_over: bool,
}

impl View for TicTacToeState {
    type V = TicTacToeStateView;

    open spec fn view(&self) -> TicTacToeStateView {
        TicTacToeStateView {
            board: self.board.deep_view(),
            this_turn: self.this_turn,
            x_player_id: self.x_player_id@,
            o_player_id: self.o_player_id@,
            winner: self.winner.deep_view(),
            game_over: self.game_over,
        }
    }
}

/// A move: the row and column to claim, and the symbol claiming it.
#[derive(Debug, Copy, Clone)]
pub struct TicTacToeMove {
    pub board_index: (usize, usize),
    pub symbol: CellElement,
}

/// A board of exactly three rows of three cells.
pub open spec fn wf_board(b: Seq<Seq<CellElement>>) -> bool {
    b.len() == 3 && (forall|i: int| 0 <= i < 3 ==> (#[trigger] b[i]).len() == 3)
}

/// Whether a symbol fills some row, column or diagonal.
pub open spec fn line_win(b: Seq<Seq<CellElement>>, s: CellElement) -> bool
    recommends
        wf_board(b),
{
    ||| (b[0][0] == s && b[0][1] == s && b[0][2] == s)
    ||| (b[1][0] == s && b[1][1] == s && b[1][2] == s)
    ||| (b[2][0] == s && b[2][1] == s && b[2][2] == s)
    ||| (b[0][0] == s && b[1][0] == s && b[2][0] == s)
    ||| (b[0][1] == s && b[1][1] == s && b[2][1] == s)
    ||| (b[0][2] == s && b[1][2] == s && b[2][2] == s)
    ||| (b[0][0] == s && b[1][1] == s && b[2][2] == s)
    ||| (b[0][2] == s && b[1][1] == s && b[2][0] == s)
}

/// Whether every cell carries a symbol.
pub open spec fn board_full(b: Seq<Seq<CellElement>>) -> bool
    recommends
        wf_board(b),
{
    forall|i: int, j: int| 0 <= i < 3 && 0 <= j < 3 ==> #[trigger] b[i][j] != CellElement::Empty
}

/// Whether a move is valid against a state: the claimed symbol is the
/// one whose turn it is, and the claimed cell exists and is empty.
pub open spec fn spec_move_valid(v: TicTacToeStateView, mv: TicTacToeMove) -> bool {
    &&& mv.symbol == v.this_turn
    &&& (mv.board_index.0 as int) < v.board.len()
    &&& (mv.board_index.1 as int) < v.board[mv.board_index.0 as int].len()
    &&& v.board[mv.board_index.0 as int][mv.board_index.1 as int] == CellElement::Empty
}

/// The JSON name of a cell value, as characters.
pub open spec fn spec_cell_name(c: CellElement) -> Seq<char> {
    match c {
        CellElement::Empty => seq!['E', 'm', 'p', 't', 'y'],
        CellElement::X => seq!['X'],
        CellElement::O => seq!['O'],
    }
}

/// The opening of the tagged move object.
pub open spec fn key_move_open() -> Seq<char> {
    seq![
        '{',
        '"',
        'T',
        'i',
        'c',
        'T',
        'a',
        'c',
        'T',
        'o',
        'e',
        'M',
        'o',
        'v',
        'e',
        '"',
        ':',
        '{',
        '"',
        'b',
        'o',
        'a',
        'r',
        'd',
        '_',
        'i',
        'n',
        'd',
        'e',
        'x',
        '"',
        ':',
        '[',
    ]
}

/// The symbol field of the tagged move object, after the index pair.
pub open spec fn key_move_symbol() -> Seq<char> {
    seq![']', ',', '"', 's', 'y', 'm', 'b', 'o', 'l', '"', ':']
}

/// The canonical tagged JSON form of a move.
pub open spec fn spec_move_json(mv: TicTacToeMove) -> Seq<char> {
    key_move_open() + crate::json::spec_dec(mv.board_index.0 as int) + seq![',']
        + crate::json::spec_dec(mv.board_index.1 as int) + key_move_symbol() + seq!['"']
        + spec_cell_name(mv.symbol) + seq!['"'] + seq!['}', '}']
}

/// The opening state of a game: a well-formed blank board, X to move,
/// no symbols assigned, no winner, not over.
pub open spec fn opening_state(v: TicTacToeStateView) -> bool {
    &&& wf_board(v.board)
    &&& (forall|i: int, j: int|
        0 <= i < 3 && 0 <= j < 3 ==> #[trigger] v.board[i][j] == CellElement::Empty)
    &&& v.this_turn == CellElement::X
    &&& v.x_player_id.len() == 0
    &&& v.o_player_id.len() == 0
    &&& v.winner is None
    &&& !v.game_over
}

/// The tic-tac-toe game module: roster, state and metadata.
#[derive(Debug)]
pub struct TicTacToe {
    pub players: Vec<String>,
    pub state: TicTacToeState,
    pub metadata: GameMetadata,
}

/// A row of three empty cells.
fn empty_row() -> (r: Vec<CellElement>)
    ensures
        r@ == seq![CellElement::Empty, CellElement::Empty, CellElement::Empty],
{
    let mut r: Vec<CellElement> = Vec::new();
    r.push(CellElement::Empty);
    r.push(CellElement::Empty);
    r.push(CellElement::Empty);
    proof {
        assert(r@ =~= seq![CellElement::Empty, CellElement::Empty, CellElement::Empty]);
    }
    r
}

/// The opening state: an empty board with X to move and no players
/// assigned.
fn fresh_state() -> (r: TicTacToeState)
    ensures
        wf_board(r@.board),
        r@.this_turn == CellElement::X,
        forall|i: int, j: int|
            0 <= i < 3 && 0 <= j < 3 ==> #[trigger] r@.board[i][j] == CellElement::Empty,
        r@.x_player_id.len() == 0,
        r@.o_player_id.len() == 0,
        r@.winner is None,
        !r@.game_over,
{
    let mut board: Vec<Vec<CellElement>> = Vec::new();
    board.push(empty_row());
    board.push(empty_row());
    board.push(empty_row());
    let r = TicTacToeState {
        board,
        this_turn: CellElement::X,
        x_player_id: String::new(),
        o_player_id: String::new(),
        winner: None,
        game_over: false,
    };
    proof {
        assert(r@.board.len() == 3);
        assert forall|i: int| 0 <= i < 3 implies (#[trigger] r@.board[i]).len() == 3 by {
            assert(r@.board[i] == r.board@[i]@);
        }
        assert forall|i: int, j: int|
            0 <= i < 3 && 0 <= j < 3 implies #[trigger] r@.board[i][j] == CellElement::Empty by {
            assert(r@.board[i] == r.board@[i]@);
        }
    }
    r
}

/// Whether the list holds a string with the same characters.
fn roster_contains(ids: &Vec<String>, s: &String) -> (r: bool)
    ensures
        r == ids.deep_view().contains(s@),
{
    let mut i: usize = 0;
    while i < ids.len()
        invariant
            i <= ids@.len(),
            forall|k: int| 0 <= k < i ==> (#[trigger] ids@[k])@ != s@,
        decreases ids@.len() - i,
    {
        if ids[i] == *s {
            proof {
                assert(ids.deep_view()[i as int] == s@);
            }
            return true;
        }
        i += 1;
    }
    proof {
        if ids.deep_view().contains(s@) {
            let w = choose|w: int| 0 <= w < ids.deep_view().len() && ids.deep_view()[w] == s@;
            assert(ids@[w]@ == s@);
        }
    }
    false
}

impl GameState for TicTacToeState {
    /// A deep copy of the state.
    fn duplicate(&self) -> (r: Self)
        ensures
            r@ == self@,
    {
        let mut board: Vec<Vec<CellElement>> = Vec::new();
        let mut i: usize = 0;
        while i < self.board.len()
            invariant
                i <= self.board@.len(),
                board@.len() == i,
                forall|k: int| 0 <= k < i ==> (#[trigger] board@[k])@ == self.board@[k]@,
            decreases self.board@.len() - i,
        {
            let mut row: Vec<CellElement> = Vec::new();
            let mut j: usize = 0;
            while j < self.board[i].len()
                invariant
                    i < self.board@.len(),
                    j <= self.board@[i as int]@.len(),
                    row@ == self.board@[i as int]@.subrange(0, j as int),
                decreases self.board@[i as int]@.len() - j,
            {
                row.push(self.board[i][j]);
                proof {
                    assert(row@ =~= self.board@[i as int]@.subrange(0, j + 1));
                }
                j += 1;
            }
            proof {
                assert(row@ =~= self.board@[i as int]@);
            }
            board.push(row);
            i += 1;
        }
        let r = TicTacToeState {
            board,
            this_turn: self.this_turn,
            x_player_id: self.x_player_id.clone(),
            o_player_id: self.o_player_id.clone(),
            winner: match &self.winner {
                Some(w) => Some(w.clone()),
                None => None,
            },
            game_over: self.game_over,
        };
        proof {
            assert(r@.board =~= self@.board);
        }
        r
    }

    /// Serialize the state to its tagged JSON form.
    fn to_json(&self) -> String {
        let mut out = String::new();
        out.append("{\"TicTacToeState\":{\"board\":[");
        let mut i: usize = 0;
        while i < self.board.len()
            decreases self.board@.len() - i,
        {
            if i > 0 {
                out.push(',');
            }
            out.push('[');
            let mut j: usize = 0;
            while j < self.board[i].len()
                invariant
                    i < self.board@.len(),
                decreases self.board@[i as int]@.len() - j,
            {
                if j > 0 {
                    out.push(',');
                }
                append_json_string(&mut out, cell_name(self.board[i][j]));
                j += 1;
            }
            out.push(']');
            i += 1;
        }
        out.append("],\"this_turn\":");
        append_json_string(&mut out, cell_name(self.this_turn));
        out.append(",\"x_player_id\":");
        append_json_string(&mut out, self.x_player_id.as_str());
        out.append(",\"o_player_id\":");
        append_json_string(&mut out, self.o_player_id.as_str());
        out.append(",\"winner\":");
        match &self.winner {
            Some(w) => append_json_string(&mut out, w.as_str()),
            None => out.append("null"),
        }
        out.append(",\"game_over\":");
        append_json_bool(&mut out, self.game_over);
        out.append("}}");
        out
    }

    /// Parse the state from its tagged JSON form, validating the tag.
    /// Only a three-by-three board is accepted.
    fn from_json(s: &str) -> Result<Self, ServerError> {
        let mut pos = match expect_lit_at(s, 0, "{\"TicTacToeState\":{\"board\":[") {
            Some(j) => j,
            None => {
                return Err(ServerError::DeserializeError);
            },
        };
        let mut board: Vec<Vec<CellElement>> = Vec::new();
        let mut r: usize = 0;
        while r < 3
            invariant
                pos <= s@.len(),
            decreases 3 - r,
        {
            if r > 0 {
                pos = match expect_lit_at(s, pos, ",") {
                    Some(j) => j,
                    None => {
                        return Err(ServerError::DeserializeError);
                    },
                };
            }
            pos = match expect_lit_at(s, pos, "[") {
                Some(j) => j,
                None => {
                    return Err(ServerError::DeserializeError);
                },
            };
            let mut row: Vec<CellElement> = Vec::new();
            let mut c: usize = 0;
            while c < 3
                invariant
                    pos <= s@.len(),
                decreases 3 - c,
            {
                if c > 0 {
                    pos = match expect_lit_at(s, pos, ",") {
                        Some(j) => j,
                        None => {
                            return Err(ServerError::DeserializeError);
                        },
                    };
                }
                let (cell, j) = match parse_cell_at(s, pos) {
                    Some(p) => p,
                    None => {
                        return Err(ServerError::DeserializeError);
                    },
                };
                pos = j;
                row.push(cell);
                c += 1;
            }
            pos = match expect_lit_at(s, pos, "]") {
                Some(j) => j,
                None => {
                    return Err(ServerError::DeserializeError);
                },
            };
            board.push(row);
            r += 1;
        }
        pos = match expect_lit_at(s, pos, "],\"this_turn\":") {
            Some(j) => j,
            None => {
                return Err(ServerError::DeserializeError);
            },
        };
        let (this_turn, j) = match parse_cell_at(s, pos) {
            Some(p) => p,
            None => {
                return Err(ServerError::DeserializeError);
            },
        };
        pos = j;
        pos = match expect_lit_at(s, pos, ",\"x_player_id\":") {
            Some(j) => j,
            None => {
                return Err(ServerError::DeserializeError);
            },
        };
        let (x_player_id, j2) = match parse_json_string_at(s, pos) {
            Some(p) => p,
            None => {
                return Err(ServerError::DeserializeError);
            },
        };
        pos = j2;
        pos = match expect_lit_at(s, pos, ",\"o_player_id\":") {
            Some(j) => j,
            None => {
                return Err(ServerError::DeserializeError);
            },
        };
        let (o_player_id, j3) = match parse_json_string_at(s, pos) {
            Some(p) => p,
            None => {
                return Err(ServerError::DeserializeError);
            },
        };
        pos = j3;
        pos = match expect_lit_at(s, pos, ",\"winner\":") {
            Some(j) => j,
            None => {
                return Err(ServerError::DeserializeError);
            },
        };
        let winner: Option<String> = match expect_lit_at(s, pos, "null") {
            Some(j) => {
                pos = j;
                None
            },
            None => {
                let (w, j4) = match parse_json_string_at(s, pos) {
                    Some(p) => p,
                    None => {
                        return Err(ServerError::DeserializeError);
                    },
                };
                pos = j4;
                Some(w)
            },
        };
        pos = match expect_lit_at(s, pos, ",\"game_over\":") {
            Some(j) => j,
            None => {
                return Err(ServerError::DeserializeError);
            },
        };
        let game_over = match expect_lit_at(s, pos, "true") {
            Some(j) => {
                pos = j;
                true
            },
            None => match expect_lit_at(s, pos, "false") {
                Some(j) => {
                    pos = j;
                    false
                },
                None => {
                    return Err(ServerError::DeserializeError);
                },
            },
        };
        match expect_lit_at(s, pos, "}}") {
            Some(j) => {
                if j == s.unicode_len() {
                    Ok(
                        TicTacToeState {
                            board,
                            this_turn,
                            x_player_id,
                            o_player_id,
                            winner,
                            game_over,
                        },
                    )
                } else {
                    Err(ServerError::DeserializeError)
                }
            },
            None => Err(ServerError::DeserializeError),
        }
    }
}

/// The JSON name of a cell value.
fn cell_name(c: CellElement) -> (r: &'static str)
    ensures
        r@ == spec_cell_name(c),
{
    proof {
        reveal_strlit("Empty");
        reveal_strlit("X");
        reveal_strlit("O");
        assert("Empty"@ =~= spec_cell_name(CellElement::Empty));
        assert("X"@ =~= spec_cell_name(CellElement::X));
        assert("O"@ =~= spec_cell_name(CellElement::O));
    }
    match c {
        CellElement::Empty => "Empty",
        CellElement::X => "X",
        CellElement::O => "O",
    }
}

/// Read one quoted cell value.
fn parse_cell_at(s: &str, i: usize) -> (r: Option<(CellElement, usize)>)
    requires
        i <= s@.len(),
    ensures
        r matches Some(p) ==> i <= p.1 as int <= s@.len() && s@.subrange(i as int, p.1 as int)
            == seq!['"'] + spec_cell_name(p.0) + seq!['"'],
{
    proof {
        reveal_strlit("\"Empty\"");
        reveal_strlit("\"X\"");
        reveal_strlit("\"O\"");
        assert("\"Empty\""@ =~= seq!['"'] + spec_cell_name(CellElement::Empty) + seq!['"']);
        assert("\"X\""@ =~= seq!['"'] + spec_cell_name(CellElement::X) + seq!['"']);
        assert("\"O\""@ =~= seq!['"'] + spec_cell_name(CellElement::O) + seq!['"']);
    }
    match expect_lit_at(s, i, "\"Empty\"") {
        Some(j) => Some((CellElement::Empty, j)),
        None => match expect_lit_at(s, i, "\"X\"") {
            Some(j) => Some((CellElement::X, j)),
            None => match expect_lit_at(s, i, "\"O\"") {
                Some(j) => Some((CellElement::O, j)),
                None => None,
            },
        },
    }
}

impl GameMove for TicTacToeMove {
    open spec fn spec_json(&self) -> Seq<char> {
        spec_move_json(*self)
    }

    /// A deep copy of the move.
    fn duplicate(&self) -> (r: Self)
        ensures
            r == *self,
    {
        TicTacToeMove { board_index: (self.board_index.0, self.board_index.1), symbol: self.symbol }
    }

    /// Serialize the move to its tagged JSON form.
    fn to_json(&self) -> (r: String)
        ensures
            r@ == self.spec_json(),
    {
        let mut out = String::new();
        out.append("{\"TicTacToeMove\":{\"board_index\":[");
        crate::json::append_dec_u64(&mut out, self.board_index.0 as u64);
        out.push(',');
        crate::json::append_dec_u64(&mut out, self.board_index.1 as u64);
        out.append("],\"symbol\":");
        out.push('"');
        out.append(cell_name(self.symbol));
        out.push('"');
        out.append("}}");
        proof {
            reveal_strlit("{\"TicTacToeMove\":{\"board_index\":[");
            reveal_strlit("],\"symbol\":");
            reveal_strlit("}}");
            assert("{\"TicTacToeMove\":{\"board_index\":["@ =~= key_move_open());
            assert("],\"symbol\":"@ =~= key_move_symbol());
            assert(out@ =~= spec_move_json(*self));
        }
        out
    }

    /// Parse the move from its tagged JSON form, validating the tag: a
    /// value only for its own canonical form.
    #[verifier::rlimit(100)]
    fn from_json(s: &str) -> (r: Result<Self, ServerError>)
        ensures
            r matches Ok(v) ==> s@ == v.spec_json(),
    {
        proof {
            reveal_strlit("{\"TicTacToeMove\":{\"board_index\":[");
            reveal_strlit("],\"symbol\":");
            reveal_strlit(",");
            reveal_strlit("}}");
            assert("{\"TicTacToeMove\":{\"board_index\":["@ =~= key_move_open());
            assert("],\"symbol\":"@ =~= key_move_symbol());
            assert(","@ =~= seq![',']);
            assert("}}"@ =~= seq!['}', '}']);
        }
        let p0 = match expect_lit_at(s, 0, "{\"TicTacToeMove\":{\"board_index\":[") {
            Some(j) => j,
            None => {
                return Err(ServerError::DeserializeError);
            },
        };
        let (row, j_row) = match crate::json::parse_u64_at(s, p0) {
            Some(p) => p,
            None => {
                return Err(ServerError::DeserializeError);
            },
        };
        let p1 = match expect_lit_at(s, j_row, ",") {
            Some(j) => j,
            None => {
                return Err(ServerError::DeserializeError);
            },
        };
        let (col, j_col) = match crate::json::parse_u64_at(s, p1) {
            Some(p) => p,
            None => {
                return Err(ServerError::DeserializeError);
            },
        };
        let p2 = match expect_lit_at(s, j_col, "],\"symbol\":") {
            Some(j) => j,
            None => {
                return Err(ServerError::DeserializeError);
            },
        };
        let (symbol, j_sym) = match parse_cell_at(s, p2) {
            Some(p) => p,
            None => {
                return Err(ServerError::DeserializeError);
            },
        };
        if row > usize::MAX as u64 || col > usize::MAX as u64 {
            return Err(ServerError::DeserializeError);
        }
        let p3 = match expect_lit_at(s, j_sym, "}}") {
            Some(j) => j,
            None => {
                return Err(ServerError::DeserializeError);
            },
        };
        if p3 != s.unicode_len() {
            return Err(ServerError::DeserializeError);
        }
        let mv = TicTacToeMove { board_index: (row as usize, col as usize), symbol };
        proof {
            crate::json::lemma_parse_number_sound(s@.skip(p0 as int));
            let q1 = crate::json::spec_parse_number(s@.skip(p0 as int)).unwrap();
            assert(s@.skip(p0 as int).subrange(0, q1.1) =~= s@.subrange(p0 as int, j_row as int));
            assert(s@.subrange(p0 as int, j_row as int) == crate::json::spec_dec(row as int));
            crate::json::lemma_parse_number_sound(s@.skip(p1 as int));
            let q2 = crate::json::spec_parse_number(s@.skip(p1 as int)).unwrap();
            assert(s@.skip(p1 as int).subrange(0, q2.1) =~= s@.subrange(p1 as int, j_col as int));
            assert(s@.subrange(p1 as int, j_col as int) == crate::json::spec_dec(col as int));
            assert(s@ =~= s@.subrange(0, p0 as int) + s@.subrange(p0 as int, j_row as int)
                + s@.subrange(j_row as int, p1 as int) + s@.subrange(p1 as int, j_col as int)
                + s@.subrange(j_col as int, p2 as int) + s@.subrange(p2 as int, j_sym as int)
                + s@.subrange(j_sym as int, p3 as int));
            assert(s@ =~= spec_move_json(mv));
        }
        Ok(mv)
    }
}

impl GameModule for TicTacToe {
    type State = TicTacToeState;

    type Move = TicTacToeMove;

    open spec fn spec_players(&self) -> Seq<Seq<char>> {
        self.players.deep_view()
    }

    open spec fn spec_metadata(&self) -> GameMetadataView {
        self.metadata@
    }

    open spec fn spec_state(&self) -> TicTacToeState {
        self.state
    }

    open spec fn spec_valid_move(&self, mv: &TicTacToeMove) -> bool {
        spec_move_valid(self.state@, *mv)
    }

    open spec fn spec_ended(&self) -> bool {
        wf_board(self.state@.board) && (line_win(self.state@.board, CellElement::X) || line_win(
            self.state@.board,
            CellElement::O,
        ) || board_full(self.state@.board))
    }

    /// A fresh module: an empty board, X to move, exactly two players
    /// wanted.
    fn new() -> (r: Self)
        ensures
            r.players@.len() == 0,
            opening_state(r.state@),
            r.metadata.game_title@ == "Tic-tac-toe"@,
            r.metadata.version@ == "1.0"@,
            r.metadata.max_players == 2,
            r.metadata.min_required_players == 2,
    {
        let r = TicTacToe {
            players: Vec::new(),
            state: fresh_state(),
            metadata: GameMetadata {
                game_title: "Tic-tac-toe".to_owned(),
                version: "1.0".to_owned(),
                max_players: 2,
                min_required_players: 2,
            },
        };
        proof {
            assert(r.players.deep_view() =~= Seq::<Seq<char>>::empty());
        }
        r
    }

    /// A fresh session instance: the opening state, an empty roster, and
    /// this instance's metadata — never its session state.
    fn init_new(&self) -> (r: Self)
        ensures
            r.players@.len() == 0,
            opening_state(r.state@),
            r.metadata@ == self.metadata@,
    {
        let r = TicTacToe {
            players: Vec::new(),
            state: fresh_state(),
            metadata: self.metadata.clone(),
        };
        proof {
            assert(r.players.deep_view() =~= Seq::<Seq<char>>::empty());
        }
        r
    }

    fn get_metadata(&self) -> (m: &GameMetadata) {
        &self.metadata
    }

    /// Add a player; the first two arrivals take the X and O symbols in
    /// order. The board, the turn and the outcome are never touched.
    fn add_player(&mut self, id: String)
        ensures
            final(self).metadata@ == old(self).metadata@,
            final(self).state@.board == old(self).state@.board,
            final(self).state@.this_turn == old(self).state@.this_turn,
            final(self).state@.winner == old(self).state@.winner,
            final(self).state@.game_over == old(self).state@.game_over,
            (old(self).players.deep_view().contains(id@) || old(self).players@.len() >= old(
                self,
            ).metadata.max_players) ==> *final(self) == *old(self),
            (!old(self).players.deep_view().contains(id@) && old(self).players@.len() < old(
                self,
            ).metadata.max_players) ==> ({
                &&& (old(self).state@.x_player_id.len() == 0 ==> final(self).state@.x_player_id
                    == id@ && final(self).state@.o_player_id == old(self).state@.o_player_id)
                &&& (old(self).state@.x_player_id.len() > 0 && old(
                    self,
                ).state@.o_player_id.len() == 0 ==> final(self).state@.o_player_id == id@ && final(self).state@.x_player_id == old(self).state@.x_player_id)
                &&& (old(self).state@.x_player_id.len() > 0 && old(self).state@.o_player_id.len()
                    > 0 ==> final(self).state@.x_player_id == old(self).state@.x_player_id
                    && final(self).state@.o_player_id == old(self).state@.o_player_id)
            }),
    {
        if roster_contains(&self.players, &id) || self.players.len() >= self.metadata.max_players {
            return ;
        }
        let ghost idv = id@;
        if self.state.x_player_id.as_str().is_empty() {
            self.state.x_player_id = id.clone();
        } else if self.state.o_player_id.as_str().is_empty() {
            self.state.o_player_id = id.clone();
        }
        self.players.push(id);
        proof {
            assert(self.players.deep_view() =~= old(self).players.deep_view().push(idv));
        }
    }

    /// Remove a player, clearing its symbol assignment. The board, the
    /// turn and the outcome are never touched.
    fn remove_player(&mut self, id: String)
        ensures
            final(self).metadata@ == old(self).metadata@,
            final(self).state@.board == old(self).state@.board,
            final(self).state@.this_turn == old(self).state@.this_turn,
            final(self).state@.winner == old(self).state@.winner,
            final(self).state@.game_over == old(self).state@.game_over,
            !old(self).players.deep_view().contains(id@) ==> *final(self) == *old(self),
            old(self).players.deep_view().contains(id@) ==> ({
                &&& (old(self).state@.x_player_id == id@ ==> final(self).state@.x_player_id.len()
                    == 0 && final(self).state@.o_player_id == old(self).state@.o_player_id)
                &&& (old(self).state@.x_player_id != id@ && old(self).state@.o_player_id == id@
                    ==> final(self).state@.o_player_id.len() == 0 && final(self).state@.x_player_id == old(self).state@.x_player_id)
                &&& (old(self).state@.x_player_id != id@ && old(self).state@.o_player_id != id@
                    ==> final(self).state@.x_player_id == old(self).state@.x_player_id && final(self).state@.o_player_id == old(self).state@.o_player_id)
            }),
    {
        let mut i: usize = 0;
        while i < self.players.len()
            invariant
                *self == *old(self),
                i <= self.players@.len(),
                forall|k: int| 0 <= k < i ==> (#[trigger] self.players@[k])@ != id@,
            decreases self.players@.len() - i,
        {
            if self.players[i] == id {
                proof {
                    assert(self.players.deep_view()[i as int] == id@);
                    assert(self.players.deep_view().contains(id@));
                    assert forall|k: int|
                        0 <= k < i implies old(self).players.deep_view()[k] != id@ by {
                        assert(old(self).players@[k]@ != id@);
                    }
                    crate::game_module::lemma_first_index_of(
                        old(self).players.deep_view(),
                        id@,
                        i as int,
                    );
                }
                self.players.remove(i);
                if self.state.x_player_id == id {
                    self.state.x_player_id = String::new();
                } else if self.state.o_player_id == id {
                    self.state.o_player_id = String::new();
                }
                proof {
                    assert(self.players.deep_view() =~= old(self).players.deep_view().remove(
                        i as int,
                    ));
                }
                return ;
            }
            i += 1;
        }
        proof {
            if old(self).players.deep_view().contains(id@) {
                let w = choose|w: int|
                    0 <= w < old(self).players.deep_view().len() && old(
                        self,
                    ).players.deep_view()[w] == id@;
                assert(old(self).players@[w]@ == id@);
            }
        }
    }

    fn get_player_num(&self) -> (n: usize) {
        self.players.len()
    }

    fn get_game_state(&self) -> (s: &TicTacToeState) {
        &self.state
    }

    fn set_game_state(&mut self, new_state: TicTacToeState) {
        self.state = new_state;
    }

    /// Whether the game has ended, and who won: a symbol filling a line
    /// wins for its player; a full board with no winner is a draw.
    #[verifier::rlimit(60)]
    fn end_condition_met(&self) -> (r: (bool, Option<String>))
        ensures
            (line_win(self.state@.board, CellElement::O) && !line_win(
                self.state@.board,
                CellElement::X,
            ) && wf_board(self.state@.board)) ==> (r.1 matches Some(w) && w@
                == self.state@.o_player_id),
            (line_win(self.state@.board, CellElement::X) && !line_win(
                self.state@.board,
                CellElement::O,
            ) && wf_board(self.state@.board)) ==> (r.1 matches Some(w) && w@
                == self.state@.x_player_id),
            (!wf_board(self.state@.board) || (!line_win(self.state@.board, CellElement::X)
                && !line_win(self.state@.board, CellElement::O))) ==> r.1 is None,
    {
        let b = &self.state.board;
        if !(b.len() == 3 && b[0].len() == 3 && b[1].len() == 3 && b[2].len() == 3) {
            proof {
                if self.state@.board.len() == 3 {
                    assert(self.state@.board[0] == b@[0]@);
                    assert(self.state@.board[1] == b@[1]@);
                    assert(self.state@.board[2] == b@[2]@);
                }
                assert(!wf_board(self.state@.board));
            }
            return (false, None);
        }
        proof {
            assert(wf_board(self.state@.board)) by {
                assert(self.state@.board.len() == 3);
                assert forall|i: int|
                    0 <= i < 3 implies (#[trigger] self.state@.board[i]).len() == 3 by {
                    assert(self.state@.board[i] == b@[i]@);
                }
            }
        }
        let mut winner: Option<String> = None;
        let mut ended = false;
        let top_row = b[0][0] == b[0][1] && b[0][1] == b[0][2];
        let mid_row = b[1][0] == b[1][1] && b[1][1] == b[1][2];
        let bot_row = b[2][0] == b[2][1] && b[2][1] == b[2][2];
        let left_col = b[0][0] == b[1][0] && b[1][0] == b[2][0];
        let mid_col = b[0][1] == b[1][1] && b[1][1] == b[2][1];
        let right_col = b[0][2] == b[1][2] && b[1][2] == b[2][2];
        let tl_to_br = b[0][0] == b[1][1] && b[1][1] == b[2][2];
        let tr_to_bl = b[0][2] == b[1][1] && b[1][1] == b[2][0];
        proof {
            assert forall|i: int, j: int|
                0 <= i < 3 && 0 <= j < 3 implies #[trigger] self.state@.board[i][j]
                == b@[i]@[j] by {
                assert(self.state@.board[i] == b@[i]@);
            }
        }
        if mid_row || mid_col || tl_to_br || tr_to_bl {
            if matches!(b[1][1], CellElement::O) {
                winner = Some(self.state.o_player_id.clone());
                ended = true;
            } else if matches!(b[1][1], CellElement::X) {
                winner = Some(self.state.x_player_id.clone());
                ended = true;
            }
        }
        if top_row || right_col {
            if matches!(b[0][2], CellElement::O) {
                winner = Some(self.state.o_player_id.clone());
                ended = true;
            } else if matches!(b[0][2], CellElement::X) {
                winner = Some(self.state.x_player_id.clone());
                ended = true;
            }
        }
        if bot_row || left_col {
            if matches!(b[2][0], CellElement::O) {
                winner = Some(self.state.o_player_id.clone());
                ended = true;
            } else if matches!(b[2][0], CellElement::X) {
                winner = Some(self.state.x_player_id.clone());
                ended = true;
            }
        }
        let is_full = b[0][0] != CellElement::Empty && b[0][1] != CellElement::Empty && b[0][2]
            != CellElement::Empty && b[1][0] != CellElement::Empty && b[1][1]
            != CellElement::Empty && b[1][2] != CellElement::Empty && b[2][0]
            != CellElement::Empty && b[2][1] != CellElement::Empty && b[2][2]
            != CellElement::Empty;
        if winner.is_none() && is_full {
            ended = true;
        }
        proof {
            let v = self.state@.board;
            assert(is_full == board_full(v)) by {
                if is_full {
                    assert forall|i: int, j: int|
                        0 <= i < 3 && 0 <= j < 3 implies #[trigger] v[i][j]
                        != CellElement::Empty by {
                        if i == 0 {
                            if j == 0 {
                            } else if j == 1 {
                            } else {
                            }
                        } else if i == 1 {
                            if j == 0 {
                            } else if j == 1 {
                            } else {
                            }
                        } else {
                            if j == 0 {
                            } else if j == 1 {
                            } else {
                            }
                        }
                    }
                }
                if board_full(v) {
                    assert(v[0][0] != CellElement::Empty && v[0][1] != CellElement::Empty && v[0][2]
                        != CellElement::Empty && v[1][0] != CellElement::Empty && v[1][1]
                        != CellElement::Empty && v[1][2] != CellElement::Empty && v[2][0]
                        != CellElement::Empty && v[2][1] != CellElement::Empty && v[2][2]
                        != CellElement::Empty);
                }
            }
        }
        (ended, winner)
    }

    /// Test a candidate move: the symbol must be the one to move, the
    /// cell must exist and be empty.
    fn is_valid_move(&self, mv: &TicTacToeMove) -> (b: bool) {
        let ri = mv.board_index.0;
        let ci = mv.board_index.1;
        if !(ri < self.state.board.len()) {
            return false;
        }
        if !(ci < self.state.board[ri].len()) {
            proof {
                assert(self.state@.board[ri as int] == self.state.board@[ri as int]@);
            }
            return false;
        }
        proof {
            assert(self.state@.board[ri as int] == self.state.board@[ri as int]@);
        }
        mv.symbol == self.state.this_turn && self.state.board[ri][ci] == CellElement::Empty
    }

    /// Apply a move: an invalid move is a no-op; a valid one claims the
    /// cell, passes the turn to the other symbol, and changes nothing
    /// else.
    fn apply_move(&mut self, mv: &TicTacToeMove)
        ensures
            !old(self).spec_valid_move(mv) ==> *final(self) == *old(self),
            old(self).spec_valid_move(mv) ==> ({
                let ri = mv.board_index.0 as int;
                let ci = mv.board_index.1 as int;
                let pre = old(self).state@;
                let post = final(self).state@;
                &&& post.board == pre.board.update(ri, pre.board[ri].update(ci, mv.symbol))
                &&& post.this_turn == (match mv.symbol {
                    CellElement::Empty => pre.this_turn,
                    CellElement::X => CellElement::O,
                    CellElement::O => CellElement::X,
                })
                &&& post.x_player_id == pre.x_player_id
                &&& post.o_player_id == pre.o_player_id
                &&& post.winner == pre.winner
                &&& post.game_over == pre.game_over
                &&& final(self).players@ == old(self).players@
                &&& final(self).metadata@ == old(self).metadata@
            }),
    {
        if !self.is_valid_move(mv) {
            return ;
        }
        match mv.symbol {
            CellElement::Empty => {},
            CellElement::X => {
                self.state.this_turn = CellElement::O;
            },
            CellElement::O => {
                self.state.this_turn = CellElement::X;
            },
        }
        let ri = mv.board_index.0;
        let ci = mv.board_index.1;
        proof {
            assert(self.state@.board[ri as int] == self.state.board@[ri as int]@);
        }
        self.state.board[ri][ci] = mv.symbol;
        proof {
            let pre = old(self).state@;
            assert(final(self).state@.board =~= pre.board.update(
                ri as int,
                pre.board[ri as int].update(ci as int, mv.symbol),
            )) by {
                assert forall|k: int|
                    0 <= k < final(self).state@.board.len() implies #[trigger] final(self).state@.board[k] == pre.board.update(
                    ri as int,
                    pre.board[ri as int].update(ci as int, mv.symbol),
                )[k] by {
                    assert(final(self).state@.board[k] == self.state.board@[k]@);
                    assert(pre.board[k] == old(self).state.board@[k]@);
                    if k == ri as int {
                        assert(self.state.board@[k]@ =~= old(self).state.board@[k]@.update(
                            ci as int,
                            mv.symbol,
                        ));
                    }
                }
            }
        }
    }
}

} // verus!
