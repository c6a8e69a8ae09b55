pub mod command;

use vstd::prelude::*;
use vstd::string::StringExecFns;
use regex::Regex;
use crate::text::{chars_of, string_of, push_char};
use crate::position::board::Board;
use crate::moving::mv::Move;
use crate::moving::move_list::MoveList;
use crate::moving::generation::{generate_moves, legal_moves};
use crate::moving::move_making::{position_wf, made, move_fits, law_unmake_undoes_make};
use crate::search::pv_table::move_text;

verus! {

/// The position a new game starts from.
pub const START_POS: &'static str = "rnbqkbnr/pppppppp/8/8/8/8/PPPPPPPP/RNBQKBNR w KQkq - 0 1";

/// Whitespace by the Unicode property White_Space.
pub open spec fn is_white(c: char) -> bool {
    ('\t' <= c && c <= '\r') || c == ' ' || c == '\u{85}' || c == '\u{a0}' || c == '\u{1680}' || ('\u{2000}' <= c
        && c <= '\u{200a}') || c == '\u{2028}' || c == '\u{2029}' || c == '\u{202f}' || c == '\u{205f}' || c
        == '\u{3000}'
}

/// `s` without its leading whitespace.
pub open spec fn trim_start_ws(s: Seq<char>) -> Seq<char>
    decreases s.len(),
{
    if s.len() > 0 && is_white(s[0]) {
        trim_start_ws(s.drop_first())
    } else {
        s
    }
}

/// `s` without its trailing whitespace.
pub open spec fn trim_end_ws(s: Seq<char>) -> Seq<char>
    decreases s.len(),
{
    if s.len() > 0 && is_white(s.last()) {
        trim_end_ws(s.drop_last())
    } else {
        s
    }
}

/// `s` without leading and trailing whitespace.
pub open spec fn trim_ws(s: Seq<char>) -> Seq<char> {
    trim_end_ws(trim_start_ws(s))
}

/// `s` with every run of whitespace replaced by one space.
pub open spec fn collapse_ws(s: Seq<char>) -> Seq<char>
    decreases s.len(),
{
    if s.len() == 0 {
        Seq::empty()
    } else if is_white(s.last()) {
        let init = s.drop_last();
        if init.len() > 0 && is_white(init.last()) {
            collapse_ws(init)
        } else {
            collapse_ws(init).push(' ')
        }
    } else {
        collapse_ws(s.drop_last()).push(s.last())
    }
}

/// `str::trim`: its documentation promises the slice without leading and
/// trailing whitespace, whitespace being the Unicode property White_Space;
/// the contract claims exactly that.
#[verifier::external_body]
fn trim_str<'a>(s: &'a str) -> (r: &'a str)
    ensures
        r@ == trim_ws(s@),
{
    s.trim()
}

/// `regex::Regex::replace_all` with the pattern `\s+` and the replacement
/// " ": the crate documents `\s` as the Unicode class White_Space and
/// `replace_all` as replacing every leftmost non-overlapping match, which a
/// greedy `\s+` makes every maximal run of whitespace; the contract claims
/// the string with each such run replaced by one space.
#[verifier::external_body]
fn collapse_whitespace(s: &str) -> (r: String)
    ensures
        r@ == collapse_ws(s@),
{
    let re = Regex::new(r"\s+").unwrap();
    re.replace_all(s, " ").to_string()
}

/// A command line with its whitespace normalised: trimmed, every run of
/// whitespace made one space.
pub fn merge_spaces(s: &str) -> (r: String)
    ensures
        r@ == collapse_ws(trim_ws(s@)),
{
    let t = trim_str(s);
    collapse_whitespace(t)
}

/// The index of the first space of `s`, if any.
pub open spec fn first_space(s: Seq<char>) -> Option<int> {
    if exists|i: int| 0 <= i < s.len() && s[i] == ' ' {
        Some(choose|i: int| 0 <= i < s.len() && s[i] == ' ' && forall|j: int| 0 <= j < i ==> s[j] != ' ')
    } else {
        None
    }
}

/// What `pop_token` gives and leaves: the part of the command before its
/// first space and the part after it; no token when the command starts with
/// a space (and the rest is dropped), the whole command when it has no
/// space, and nothing for an empty or no command.
pub open spec fn pop_spec(c: Option<Seq<char>>) -> (Option<Seq<char>>, Option<Seq<char>>) {
    match c {
        None => (None, None),
        Some(s) => match first_space(s) {
            Some(i) => if i == 0 {
                (None, None)
            } else {
                (Some(s.subrange(0, i)), Some(s.subrange(i + 1, s.len() as int)))
            },
            None => if s.len() == 0 {
                (None, Some(s))
            } else {
                (Some(s), None)
            },
        },
    }
}

/// What `push_token_to_front` leaves: the token, a space and the command,
/// or the token alone when there is no command.
pub open spec fn push_spec(c: Option<Seq<char>>, t: Seq<char>) -> Option<Seq<char>> {
    match c {
        None => Some(t),
        Some(s) => Some(t + seq![' '] + s),
    }
}

/// The rest of a UCI command still to be read, split into tokens at spaces.
pub struct CommandLine {
    parsed_command: Option<String>,
}

impl CommandLine {
    /// The rest of the command.
    pub closed spec fn rest(&self) -> Option<Seq<char>> {
        match self.parsed_command {
            Some(s) => Some(s@),
            None => None,
        }
    }

    /// A command to read.
    pub fn new(command: String) -> (r: Self)
        ensures
            r.rest() == Some(command@),
    {
        CommandLine { parsed_command: Some(command) }
    }

    /// Drops what is left of the command.
    pub fn reset(&mut self)
        ensures
            final(self).rest() is None,
    {
        self.parsed_command = None;
    }

    /// The next token of the command (see `pop_spec`).
    pub fn pop_token(&mut self) -> (r: Option<String>)
        ensures
            ({
                let (t, rest) = pop_spec(old(self).rest());
                &&& match r {
                    Some(x) => t == Some(x@),
                    None => t is None,
                }
                &&& final(self).rest() == rest
            }),
    {
        let command = match &self.parsed_command {
            Some(c) => chars_of(c.as_str()),
            None => {
                return None;
            },
        };
        let ghost s = command@;
        let mut i: usize = 0;
        while i < command.len() && command[i] != ' '
            invariant
                0 <= i <= command@.len(),
                s == command@,
                forall|j: int| 0 <= j < i ==> s[j] != ' ',
            decreases command@.len() - i,
        {
            i += 1;
        }
        if i < command.len() {
            proof {
                assert(first_space(s) == Some(i as int)) by {
                    assert(s[i as int] == ' ');
                    let k = choose|k: int| 0 <= k < s.len() && s[k] == ' ' && forall|j: int| 0 <= j < k ==> s[j] != ' ';
                    if k < i {
                    } else if k > i {
                    }
                }
            }
            if i == 0 {
                self.parsed_command = None;
                return None;
            }
            let mut next: Vec<char> = Vec::new();
            let mut j: usize = 0;
            while j < i
                invariant
                    0 <= j <= i < command@.len(),
                    s == command@,
                    next@ == s.subrange(0, j as int),
                decreases i - j,
            {
                next.push(command[j]);
                j += 1;
                proof {
                    assert(next@ =~= s.subrange(0, j as int));
                }
            }
            let mut rest: Vec<char> = Vec::new();
            let mut k: usize = i + 1;
            while k < command.len()
                invariant
                    i + 1 <= k <= command@.len(),
                    s == command@,
                    rest@ == s.subrange(i + 1, k as int),
                decreases command@.len() - k,
            {
                rest.push(command[k]);
                k += 1;
                proof {
                    assert(rest@ =~= s.subrange(i + 1, k as int));
                }
            }
            self.parsed_command = Some(string_of(&rest));
            Some(string_of(&next))
        } else {
            proof {
                assert(first_space(s) is None);
            }
            if command.len() == 0 {
                None
            } else {
                self.parsed_command = None;
                Some(string_of(&command))
            }
        }
    }

    /// Puts a token back in front of the command.
    pub fn push_token_to_front(&mut self, token: String)
        ensures
            final(self).rest() == push_spec(old(self).rest(), token@),
    {
        match &self.parsed_command {
            Some(s) => {
                let mut t = token;
                push_char(&mut t, ' ');
                t.append(s.as_str());
                proof {
                    assert(t@ =~= token@ + seq![' '] + s@);
                }
                self.parsed_command = Some(t);
            },
            None => {
                self.parsed_command = Some(token);
            },
        }
    }
}

/// A token put back in front of a command is the next one read, and reading
/// it gives back the command as it was (for a token that is not empty and
/// holds no space).
pub proof fn law_pop_after_push(c: Option<Seq<char>>, t: Seq<char>)
    requires
        t.len() > 0,
        forall|i: int| 0 <= i < t.len() ==> t[i] != ' ',
    ensures
        pop_spec(push_spec(c, t)) == (Some(t), c),
{
    match c {
        None => {
            assert(!(exists|i: int| 0 <= i < t.len() && t[i] == ' '));
        },
        Some(s) => {
            let u = t + seq![' '] + s;
            let n = t.len() as int;
            assert(u[n] == ' ');
            let k = choose|k: int| 0 <= k < u.len() && u[k] == ' ' && forall|j: int| 0 <= j < k ==> u[j] != ' ';
            if k < n {
                assert(u[k] == t[k]);
            } else if k > n {
                assert(u[n] == ' ');
            }
            assert(first_space(u) == Some(n));
            assert(u.subrange(0, n) =~= t);
            assert(u.subrange(n + 1, u.len() as int) =~= s);
        },
    }
}

/// The first legal move of the position written `mv_s` in coordinate notation.
pub open spec fn move_named(ms: Seq<u16>, name: Seq<char>, k: int) -> Option<int>
    decreases k,
{
    if k <= 0 {
        None
    } else {
        match move_named(ms, name, k - 1) {
            Some(i) => Some(i),
            None => if move_text(ms[k - 1]) == name {
                Some(k - 1)
            } else {
                None
            },
        }
    }
}

proof fn lemma_named_first(ms: Seq<u16>, name: Seq<char>, k: int, n: int)
    requires
        0 <= k <= n,
        move_named(ms, name, k) is Some,
    ensures
        move_named(ms, name, n) == move_named(ms, name, k),
    decreases n - k,
{
    if k < n {
        lemma_named_first(ms, name, k, n - 1);
    }
}

/// Plays the legal move written `mv_s` in coordinate notation ("e2e4"); an
/// error naming it when the position has no such move.
pub fn make_move_str(board: &mut Board, mv_s: &str) -> (r: Result<(), String>)
    requires
        position_wf(old(board)@, old(board).gen()),
    ensures
        final(board).gen() == old(board).gen(),
        ({
            let ms = legal_moves(old(board).gen(), *old(board));
            match move_named(ms, mv_s@, ms.len() as int) {
                Some(i) => if move_fits(old(board)@, ms[i]) {
                    r is Ok && final(board)@ == made(old(board)@, old(board).gen(), ms[i])
                } else {
                    r is Err && final(board)@ == old(board)@
                },
                None => (r matches Err(e) && e@ == "Move "@ + mv_s@ + " not found"@) && final(board)@ == old(
                    board,
                )@,
            }
        }),
{
    proof {
        crate::moving::soundness::lemma_wf_sound(*board);
    }
    let mut mvs = MoveList::new();
    generate_moves(&mut mvs, board);
    let list = mvs.moves();
    let ghost ms = legal_moves(board.gen(), *board);
    let mut i: usize = 0;
    while i < list.len()
        invariant
            list@.map_values(|m: Move| m@) == ms,
            ms == legal_moves(old(board).gen(), *old(board)),
            *board == *old(board),
            position_wf(board@, board.gen()),
            board.us < 2 && board.enemy < 2,
            0 <= i <= list@.len(),
            move_named(ms, mv_s@, i as int) is None,
        decreases list@.len() - i,
    {
        let mv = list[i];
        let mv_str = mv.to_str();
        proof {
            assert(ms[i as int] == mv@);
        }
        if crate::text::str_eq(mv_str.as_str(), mv_s) {
            proof {
                assert(move_named(ms, mv_s@, i as int + 1) == Some(i as int));
                lemma_named_first(ms, mv_s@, i as int + 1, ms.len() as int);
            }
            if board.fits_move(&mv) {
                proof {
                    law_unmake_undoes_make(board@, board.gen(), mv@);
                }
                board.make_move(&mv);
                return Ok(());
            }
            let mut e = String::from_str("Move ");
            e.append(mv_s);
            e.append(" does not fit the position");
            return Err(e);
        }
        i += 1;
    }
    proof {
        assert(move_named(ms, mv_s@, ms.len() as int) is None);
    }
    let mut e = String::from_str("Move ");
    e.append(mv_s);
    e.append(" not found");
    Err(e)
}

/// What ends a search: a depth, a number of nodes, a time in
/// milliseconds, or nothing but a stop command.
#[derive(Clone, Copy, PartialEq, Eq, Structural, Debug)]
pub enum SearchLimit {
    Depth(i32),
    Nodes(u64),
    Time(u128),
    Infinite,
}

impl SearchLimit {
    /// Whether no new iteration should start: the depth passed, the nodes
    /// used up, or half the time gone.
    pub fn soft_stop(&self, nodes_searched: u64, depth_reached: i32, time_passed: u128) -> (r: bool)
        ensures
            r == match *self {
                SearchLimit::Infinite => false,
                SearchLimit::Depth(num) => depth_reached > num,
                SearchLimit::Nodes(nodes) => nodes_searched >= nodes,
                SearchLimit::Time(t) => time_passed >= t / 2,
            },
    {
        match self {
            SearchLimit::Infinite => false,
            SearchLimit::Depth(num) => depth_reached > *num,
            SearchLimit::Nodes(nodes) => nodes_searched >= *nodes,
            SearchLimit::Time(t) => time_passed >= *t / 2,
        }
    }

    /// Whether the running iteration must be cut off: only when the whole
    /// time is gone.
    pub fn hard_stop(&self, time_passed: u128) -> (r: bool)
        ensures
            r == match *self {
                SearchLimit::Time(t) => time_passed >= t,
                _ => false,
            },
    {
        match self {
            SearchLimit::Infinite => false,
            SearchLimit::Depth(_) => false,
            SearchLimit::Nodes(_) => false,
            SearchLimit::Time(t) => time_passed >= *t,
        }
    }
}

/// The time to spend on a move: a twentieth of the clock and half the increment.
pub fn calc_time(time: u64, inc: u64) -> (r: SearchLimit)
    ensures
        r == SearchLimit::Time((time / 20 + inc / 2) as u128),
{
    let to_use = (time / 20 + inc / 2) as u128;
    SearchLimit::Time(to_use)
}

/// The time limit of the side to move from both clocks and increments.
pub fn time_limit_for(us: usize, wtime: u64, btime: u64, winc: u64, binc: u64) -> (r: SearchLimit)
    ensures
        r == (if us == crate::constants::WHITE {
            SearchLimit::Time((wtime / 20 + winc / 2) as u128)
        } else {
            SearchLimit::Time((btime / 20 + binc / 2) as u128)
        }),
{
    if us == crate::constants::WHITE {
        calc_time(wtime, winc)
    } else {
        calc_time(btime, binc)
    }
}

} // verus!
