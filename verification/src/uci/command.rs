use vstd::prelude::*;
use vstd::string::StringExecFns;
use crate::text::{str_eq, parse_i32, parse_u64, parse_i32_spec, parse_u64_spec, push_char};
use crate::uci::{CommandLine, pop_spec, first_space, START_POS};

verus! {

/// The measure that reading a token shrinks: what is left of the command.
pub open spec fn rest_len(c: Option<Seq<char>>) -> int {
    match c {
        Some(s) => s.len() as int + 1,
        None => 0,
    }
}

/// A token read from a command is not empty, holds no space, and leaves less
/// of the command.
pub proof fn lemma_pop_token(c: Option<Seq<char>>)
    ensures
        pop_spec(c).0 matches Some(t) ==> {
            &&& t.len() > 0
            &&& forall|i: int| 0 <= i < t.len() ==> t[i] != ' '
            &&& rest_len(pop_spec(c).1) < rest_len(c)
        },
{
    if let Some(s) = c {
        if let Some(i) = first_space(s) {
            assert(exists|k: int| 0 <= k < s.len() && s[k] == ' ');
            let k = choose|k: int| 0 <= k < s.len() && s[k] == ' ' && forall|j: int| 0 <= j < k ==> s[j] != ' ';
            assert(0 <= k < s.len() && s[k] == ' ' && forall|j: int| 0 <= j < k ==> s[j] != ' ') by {
                let k0 = choose|k: int| 0 <= k < s.len() && s[k] == ' ';
                assert(exists|k: int| 0 <= k < s.len() && s[k] == ' ' && forall|j: int| 0 <= j < k ==> s[j] != ' ')
                    by {
                    lemma_first_space_min(s, k0);
                }
            }
            assert(i == k);
        } else {
            if s.len() > 0 {
                assert forall|j: int| 0 <= j < s.len() implies s[j] != ' ' by {
                    if s[j] == ' ' {
                        assert(exists|k: int| 0 <= k < s.len() && s[k] == ' ');
                    }
                }
            }
        }
    }
}

/// A text with a space at `k0` has a first space.
proof fn lemma_first_space_min(s: Seq<char>, k0: int)
    requires
        0 <= k0 < s.len(),
        s[k0] == ' ',
    ensures
        exists|k: int| 0 <= k < s.len() && s[k] == ' ' && forall|j: int| 0 <= j < k ==> s[j] != ' ',
    decreases k0,
{
    if exists|j: int| 0 <= j < k0 && s[j] == ' ' {
        let j = choose|j: int| 0 <= j < k0 && s[j] == ' ';
        lemma_first_space_min(s, j);
    } else {
        assert(forall|j: int| 0 <= j < k0 ==> s[j] != ' ');
    }
}

/// The tokens of what is left of a command, read one by one until none comes.
pub open spec fn tokens(c: Option<Seq<char>>) -> Seq<Seq<char>>
    decreases rest_len(c),
{
    proof {
        lemma_pop_token(c);
    }
    match pop_spec(c).0 {
        Some(t) => seq![t] + tokens(pop_spec(c).1),
        None => Seq::empty(),
    }
}


/// What a `go` command asks for.
#[derive(Clone, Copy, PartialEq, Eq, Structural, Debug)]
pub enum GoRequest {
    /// Search until told to stop.
    Infinite,
    /// Count the move sequences to a depth.
    Perft(i32),
    /// Search to a depth; `warn` when the depth is below 1 (the search still runs).
    Depth { depth: i32, warn: bool },
    /// Search for a number of milliseconds.
    MoveTime(u64),
    /// Search on the clocks and increments of both sides.
    Time { wtime: u64, btime: u64, winc: u64, binc: u64 },
    /// The argument of `perft` or `depth` is no number.
    InvalidArgument,
    /// An argument is missing (or the move time is no number): nothing to do.
    Ignored,
    /// A word `go` does not know.
    UnknownWord,
    /// Clock values missing.
    MissingTimes,
}

/// What a command line asks for.
pub enum UciAction {
    /// No command.
    Empty,
    Go(GoRequest),
    /// Set up the position of a FEN text and play the moves after it.
    SetPosition { fen: String, moves: Vec<String> },
    /// A `position` command without a position to set.
    PositionIgnored,
    IsReady,
    Stop,
    Help,
    Uci,
    Quit,
    NewGame,
    IterTest,
    /// A command word nobody knows.
    Unknown(String),
}

/// The mathematical content of a `UciAction`.
pub enum Action {
    Empty,
    Go(GoRequest),
    SetPosition(Seq<char>, Seq<Seq<char>>),
    PositionIgnored,
    IsReady,
    Stop,
    Help,
    Uci,
    Quit,
    NewGame,
    IterTest,
    Unknown(Seq<char>),
}

/// The characters of each of a list of strings.
pub open spec fn views(ts: Seq<String>) -> Seq<Seq<char>> {
    ts.map_values(|t: String| t@)
}

impl View for UciAction {
    type V = Action;

    open spec fn view(&self) -> Action {
        match self {
            UciAction::Empty => Action::Empty,
            UciAction::Go(g) => Action::Go(*g),
            UciAction::SetPosition { fen, moves } => Action::SetPosition(fen@, views(moves@)),
            UciAction::PositionIgnored => Action::PositionIgnored,
            UciAction::IsReady => Action::IsReady,
            UciAction::Stop => Action::Stop,
            UciAction::Help => Action::Help,
            UciAction::Uci => Action::Uci,
            UciAction::Quit => Action::Quit,
            UciAction::NewGame => Action::NewGame,
            UciAction::IterTest => Action::IterTest,
            UciAction::Unknown(t) => Action::Unknown(t@),
        }
    }
}

/// The clocks set by the first `k` pairs of name and value of `ts`: a value
/// that is no number counts 0, a name that is no clock sets nothing.
pub open spec fn clocks(ts: Seq<Seq<char>>, k: int) -> (u64, u64, u64, u64)
    decreases k,
{
    if k <= 0 {
        (0, 0, 0, 0)
    } else {
        let (w, b, wi, bi) = clocks(ts, k - 1);
        let name = ts[2 * k - 2];
        let v = match parse_u64_spec(ts[2 * k - 1]) {
            Some(n) => n,
            None => 0,
        };
        if name == "wtime"@ {
            (v, b, wi, bi)
        } else if name == "btime"@ {
            (w, v, wi, bi)
        } else if name == "winc"@ {
            (w, b, v, bi)
        } else if name == "binc"@ {
            (w, b, wi, v)
        } else {
            (w, b, wi, bi)
        }
    }
}

/// What the words after `go` ask for.
pub open spec fn go_spec(ts: Seq<Seq<char>>) -> GoRequest {
    if ts.len() == 0 {
        GoRequest::Infinite
    } else {
        let t = ts[0];
        if t == "perft"@ {
            if ts.len() < 2 {
                GoRequest::Ignored
            } else {
                match parse_i32_spec(ts[1]) {
                    Some(d) => GoRequest::Perft(d),
                    None => GoRequest::InvalidArgument,
                }
            }
        } else if t == "depth"@ {
            if ts.len() < 2 {
                GoRequest::Ignored
            } else {
                match parse_i32_spec(ts[1]) {
                    Some(d) => GoRequest::Depth { depth: d, warn: d <= 0 },
                    None => GoRequest::InvalidArgument,
                }
            }
        } else if t == "wtime"@ || t == "btime"@ || t == "winc"@ || t == "binc"@ {
            if ts.len() < 8 {
                GoRequest::MissingTimes
            } else {
                let (w, b, wi, bi) = clocks(ts, 4);
                GoRequest::Time { wtime: w, btime: b, winc: wi, binc: bi }
            }
        } else if t == "movetime"@ {
            if ts.len() < 2 {
                GoRequest::Ignored
            } else {
                match parse_u64_spec(ts[1]) {
                    Some(m) => GoRequest::MoveTime(m),
                    None => GoRequest::Ignored,
                }
            }
        } else {
            GoRequest::UnknownWord
        }
    }
}

/// The words joined with one space between each two.
pub open spec fn join_words(ts: Seq<Seq<char>>) -> Seq<char>
    decreases ts.len(),
{
    if ts.len() == 0 {
        Seq::empty()
    } else if ts.len() == 1 {
        ts[0]
    } else {
        join_words(ts.drop_last()) + seq![' '] + ts.last()
    }
}

/// The index of the first word `moves` from `k` on, or the number of words.
pub open spec fn moves_index(ts: Seq<Seq<char>>, k: int) -> int
    decreases ts.len() - k,
{
    if k >= ts.len() {
        ts.len() as int
    } else if ts[k] == "moves"@ {
        k
    } else {
        moves_index(ts, k + 1)
    }
}

/// What the words after `position` ask for.
pub open spec fn position_spec(ts: Seq<Seq<char>>) -> Action {
    if ts.len() == 0 {
        Action::PositionIgnored
    } else if ts[0] == "startpos"@ {
        if ts.len() == 1 {
            Action::SetPosition(START_POS@, Seq::empty())
        } else if ts[1] == "moves"@ {
            Action::SetPosition(START_POS@, ts.subrange(2, ts.len() as int))
        } else {
            Action::PositionIgnored
        }
    } else if ts[0] == "fen"@ {
        let k = moves_index(ts, 1);
        Action::SetPosition(
            join_words(ts.subrange(1, k)),
            if k < ts.len() { ts.subrange(k + 1, ts.len() as int) } else { Seq::empty() },
        )
    } else {
        Action::PositionIgnored
    }
}

/// What the words of a command ask for, by its first word.
pub open spec fn words_spec(ts: Seq<Seq<char>>) -> Action {
    if ts.len() == 0 {
        Action::Empty
    } else {
        let t = ts[0];
        let rest = ts.drop_first();
        if t == "go"@ {
            Action::Go(go_spec(rest))
        } else if t == "position"@ {
            position_spec(rest)
        } else if t == "isready"@ {
            Action::IsReady
        } else if t == "stop"@ {
            Action::Stop
        } else if t == "help"@ {
            Action::Help
        } else if t == "uci"@ {
            Action::Uci
        } else if t == "quit"@ {
            Action::Quit
        } else if t == "ucinewgame"@ {
            Action::NewGame
        } else if t == "iter_test"@ {
            Action::IterTest
        } else {
            Action::Unknown(t)
        }
    }
}

/// What a command line asks for: its words read one by one, then read by
/// their first word.
pub open spec fn command_spec(command: Seq<char>) -> Action {
    words_spec(tokens(Some(command)))
}

/// A command whose first word is `stop` stops the search (and does not quit
/// the engine), and only a command whose first word is `quit` quits it.
pub proof fn law_stop_is_not_quit(command: Seq<char>)
    ensures
        tokens(Some(command)).len() > 0 && tokens(Some(command))[0] == "stop"@ ==> command_spec(command)
            == Action::Stop,
        command_spec(command) == Action::Quit ==> tokens(Some(command)).len() > 0 && tokens(Some(command))[0]
            == "quit"@,
{
    reveal_strlit("go");
    reveal_strlit("position");
    reveal_strlit("isready");
    reveal_strlit("stop");
    reveal_strlit("help");
    reveal_strlit("uci");
    reveal_strlit("quit");
    reveal_strlit("ucinewgame");
    reveal_strlit("iter_test");
    let ts = tokens(Some(command));
    if ts.len() > 0 {
        let t = ts[0];
        if t == "stop"@ {
            assert("stop"@.len() == 4 && "go"@.len() == 2 && "position"@.len() == 8 && "isready"@.len() == 7);
            assert(t.len() == 4);
        }
        if command_spec(command) == Action::Quit {
            if t != "quit"@ {
                if t == "go"@ || t == "position"@ {
                    assert(position_spec(ts.drop_first()) != Action::Quit);
                }
            }
        }
    }
}

/// The one-word commands read by their first word: `isready`, `stop`,
/// `help`, `uci`, `quit`, `ucinewgame` and `iter_test` each ask for their own
/// action whatever follows, an empty line asks for nothing, and a first word
/// no command has is reported back as unknown.
pub proof fn law_command_words(command: Seq<char>)
    ensures
        ({
            let ts = tokens(Some(command));
            &&& ts.len() == 0 ==> command_spec(command) == Action::Empty
            &&& ts.len() > 0 && ts[0] == "isready"@ ==> command_spec(command) == Action::IsReady
            &&& ts.len() > 0 && ts[0] == "stop"@ ==> command_spec(command) == Action::Stop
            &&& ts.len() > 0 && ts[0] == "help"@ ==> command_spec(command) == Action::Help
            &&& ts.len() > 0 && ts[0] == "uci"@ ==> command_spec(command) == Action::Uci
            &&& ts.len() > 0 && ts[0] == "quit"@ ==> command_spec(command) == Action::Quit
            &&& ts.len() > 0 && ts[0] == "ucinewgame"@ ==> command_spec(command) == Action::NewGame
            &&& ts.len() > 0 && ts[0] == "iter_test"@ ==> command_spec(command) == Action::IterTest
            &&& ts.len() > 0 && ts[0] != "go"@ && ts[0] != "position"@ && ts[0] != "isready"@ && ts[0] != "stop"@
                && ts[0] != "help"@ && ts[0] != "uci"@ && ts[0] != "quit"@ && ts[0] != "ucinewgame"@ && ts[0]
                != "iter_test"@ ==> command_spec(command) == Action::Unknown(ts[0])
        }),
{
    reveal_strlit("go");
    reveal_strlit("position");
    reveal_strlit("isready");
    reveal_strlit("stop");
    reveal_strlit("help");
    reveal_strlit("uci");
    reveal_strlit("quit");
    reveal_strlit("ucinewgame");
    reveal_strlit("iter_test");
    assert("go"@.len() == 2 && "position"@.len() == 8 && "isready"@.len() == 7 && "stop"@.len() == 4
        && "help"@.len() == 4 && "uci"@.len() == 3 && "quit"@.len() == 4 && "ucinewgame"@.len() == 10
        && "iter_test"@.len() == 9);
    assert("stop"@ != "help"@ && "stop"@ != "quit"@ && "help"@ != "quit"@) by {
        assert("stop"@[0] != "help"@[0]);
        assert("stop"@[0] != "quit"@[0]);
        assert("help"@[0] != "quit"@[0]);
    }
}

proof fn lemma_moves_index(ts: Seq<Seq<char>>, j: int, k: int)
    requires
        1 <= j <= k < ts.len(),
        ts[k] == "moves"@,
        forall|i: int| j <= i < k ==> ts[i] != "moves"@,
    ensures
        moves_index(ts, j) == k,
    decreases k - j,
{
    if j < k {
        lemma_moves_index(ts, j + 1, k);
    }
}

proof fn lemma_no_moves_index(ts: Seq<Seq<char>>, j: int)
    requires
        1 <= j <= ts.len(),
        forall|i: int| j <= i < ts.len() ==> ts[i] != "moves"@,
    ensures
        moves_index(ts, j) == ts.len(),
    decreases ts.len() - j,
{
    if j < ts.len() {
        lemma_no_moves_index(ts, j + 1);
    }
}

/// The `go` and `position` commands: `go` alone searches without end;
/// `go depth n`, `go perft n` and `go movetime n` ask for a search to depth
/// `n` (with a warning when `n` is not positive), a count of move sequences
/// to depth `n`, and a search of `n` milliseconds; `position startpos` sets
/// the start position, followed by the words after `moves` as the moves to
/// play; `position fen ..` sets the position whose FEN text is the words up
/// to the first `moves` (joined by single spaces), the words after it being
/// the moves.
pub proof fn law_go_and_position(command: Seq<char>)
    ensures
        ({
            let ts = tokens(Some(command));
            &&& ts.len() == 1 && ts[0] == "go"@ ==> command_spec(command) == Action::Go(GoRequest::Infinite)
            &&& ts.len() >= 3 && ts[0] == "go"@ && ts[1] == "depth"@ && parse_i32_spec(ts[2]) is Some ==> command_spec(
                command,
            ) == Action::Go(GoRequest::Depth { depth: parse_i32_spec(ts[2])->0, warn: parse_i32_spec(ts[2])->0 < 1 })
            &&& ts.len() >= 3 && ts[0] == "go"@ && ts[1] == "perft"@ && parse_i32_spec(ts[2]) is Some ==> command_spec(
                command,
            ) == Action::Go(GoRequest::Perft(parse_i32_spec(ts[2])->0))
            &&& ts.len() >= 3 && ts[0] == "go"@ && ts[1] == "movetime"@ && parse_u64_spec(ts[2]) is Some
                ==> command_spec(command) == Action::Go(GoRequest::MoveTime(parse_u64_spec(ts[2])->0))
            &&& ts.len() == 2 && ts[0] == "position"@ && ts[1] == "startpos"@ ==> command_spec(command)
                == Action::SetPosition(START_POS@, Seq::empty())
            &&& ts.len() >= 3 && ts[0] == "position"@ && ts[1] == "startpos"@ && ts[2] == "moves"@ ==> command_spec(
                command,
            ) == Action::SetPosition(START_POS@, ts.subrange(3, ts.len() as int))
            &&& ts.len() >= 2 && ts[0] == "position"@ && ts[1] == "fen"@ && (forall|i: int|
                2 <= i < ts.len() ==> ts[i] != "moves"@) ==> command_spec(command) == Action::SetPosition(
                join_words(ts.subrange(2, ts.len() as int)),
                Seq::empty(),
            )
            &&& forall|k: int|
                #![trigger ts[k]]
                ts.len() >= 2 && ts[0] == "position"@ && ts[1] == "fen"@ && 2 <= k < ts.len() && ts[k] == "moves"@
                    && (forall|i: int| 2 <= i < k ==> ts[i] != "moves"@) ==> command_spec(command)
                    == Action::SetPosition(join_words(ts.subrange(2, k)), ts.subrange(k + 1, ts.len() as int))
        }),
{
    reveal_strlit("go");
    reveal_strlit("position");
    reveal_strlit("depth");
    reveal_strlit("perft");
    reveal_strlit("movetime");
    reveal_strlit("wtime");
    reveal_strlit("btime");
    reveal_strlit("winc");
    reveal_strlit("binc");
    reveal_strlit("startpos");
    reveal_strlit("fen");
    reveal_strlit("moves");
    assert("go"@.len() == 2 && "position"@.len() == 8);
    assert("depth"@[0] == 'd' && "perft"@[0] == 'p' && "movetime"@[0] == 'm' && "wtime"@[0] == 'w'
        && "btime"@[0] == 'b' && "winc"@[0] == 'w' && "binc"@[0] == 'b');
    assert("startpos"@[0] == 's' && "fen"@[0] == 'f');
    let ts = tokens(Some(command));
    if ts.len() >= 2 && ts[0] == "position"@ {
        let rest = ts.drop_first();
        if ts[1] == "fen"@ && (forall|i: int| 2 <= i < ts.len() ==> ts[i] != "moves"@) {
            assert forall|i: int| 1 <= i < rest.len() implies rest[i] != "moves"@ by {
                assert(rest[i] == ts[i + 1]);
            }
            lemma_no_moves_index(rest, 1);
            assert(rest.subrange(1, rest.len() as int) =~= ts.subrange(2, ts.len() as int));
        }
        if ts[1] == "fen"@ {
            assert forall|k: int|
                #![trigger ts[k]]
                2 <= k < ts.len() && ts[k] == "moves"@ && (forall|i: int| 2 <= i < k ==> ts[i] != "moves"@) implies command_spec(command)
                    == Action::SetPosition(join_words(ts.subrange(2, k)), ts.subrange(k + 1, ts.len() as int)) by {
                assert(rest[k - 1] == ts[k]);
                assert forall|i: int| 1 <= i < k - 1 implies rest[i] != "moves"@ by {
                    assert(rest[i] == ts[i + 1]);
                }
                lemma_moves_index(rest, 1, k - 1);
                assert(rest.subrange(1, k - 1) =~= ts.subrange(2, k));
                assert(rest.subrange(k, rest.len() as int) =~= ts.subrange(k + 1, ts.len() as int));
            }
        }
        if ts.len() >= 3 && ts[1] == "startpos"@ && ts[2] == "moves"@ {
            assert(rest.subrange(2, rest.len() as int) =~= ts.subrange(3, ts.len() as int));
        }
    }
}

/// Reads the next word of a command whose words from the `k`-th on are left.
fn next_word(cl: &mut CommandLine, Ghost(ts): Ghost<Seq<Seq<char>>>, Ghost(k): Ghost<int>) -> (r: Option<String>)
    requires
        0 <= k <= ts.len(),
        tokens(old(cl).rest()) == ts.subrange(k, ts.len() as int),
    ensures
        match r {
            Some(t) => {
                &&& k < ts.len()
                &&& t@ == ts[k]
                &&& tokens(final(cl).rest()) == ts.subrange(k + 1, ts.len() as int)
            },
            None => {
                &&& k == ts.len()
                &&& tokens(final(cl).rest()) == Seq::<Seq<char>>::empty()
            },
        },
{
    let ghost before = cl.rest();
    let r = cl.pop_token();
    proof {
        lemma_pop_token(before);
        if r is Some {
            assert(ts.subrange(k, ts.len() as int)[0] == ts[k]);
            assert(ts.subrange(k, ts.len() as int).drop_first() =~= ts.subrange(k + 1, ts.len() as int));
        } else {
            if k < ts.len() {
                assert(ts.subrange(k, ts.len() as int).len() > 0);
            }
            assert(pop_spec(final(cl).rest()).0 is None) by {
                match before {
                    None => {},
                    Some(s) => {},
                }
            }
        }
    }
    r
}

/// Reads the rest of the words of a command whose words from the `k`-th on are left.
fn read_all(cl: &mut CommandLine, Ghost(ts): Ghost<Seq<Seq<char>>>, Ghost(k): Ghost<int>) -> (r: Vec<String>)
    requires
        0 <= k <= ts.len(),
        tokens(old(cl).rest()) == ts.subrange(k, ts.len() as int),
    ensures
        views(r@) == ts.subrange(k, ts.len() as int),
{
    let mut words: Vec<String> = Vec::new();
    let ghost mut i: int = k;
    loop
        invariant
            0 <= k <= i <= ts.len(),
            tokens(cl.rest()) == ts.subrange(i, ts.len() as int),
            views(words@) == ts.subrange(k, i),
        ensures
            views(words@) == ts.subrange(k, ts.len() as int),
        decreases ts.len() - i,
    {
        match next_word(cl, Ghost(ts), Ghost(i)) {
            Some(t) => {
                let ghost old_words = words@;
                let ghost tv = t@;
                words.push(t);
                proof {
                    assert(tv == ts[i]);
                    assert(words@ =~= old_words.push(words@.last()));
                    assert(views(words@) =~= views(old_words).push(tv));
                    i = i + 1;
                    assert(views(words@) =~= ts.subrange(k, i));
                }
            },
            None => {
                break;
            },
        }
    }
    words
}

/// The clocks after one more pair of name and value.
fn set_clock(c: (u64, u64, u64, u64), name: &str, value: &str) -> (r: (u64, u64, u64, u64))
    ensures
        ({
            let (w, b, wi, bi) = c;
            let v = match parse_u64_spec(value@) {
                Some(n) => n,
                None => 0,
            };
            r == if name@ == "wtime"@ {
                (v, b, wi, bi)
            } else if name@ == "btime"@ {
                (w, v, wi, bi)
            } else if name@ == "winc"@ {
                (w, b, v, bi)
            } else if name@ == "binc"@ {
                (w, b, wi, v)
            } else {
                (w, b, wi, bi)
            }
        }),
{
    let (w, b, wi, bi) = c;
    let v = match parse_u64(value) {
        Some(n) => n,
        None => 0,
    };
    if str_eq(name, "wtime") {
        (v, b, wi, bi)
    } else if str_eq(name, "btime") {
        (w, v, wi, bi)
    } else if str_eq(name, "winc") {
        (w, b, v, bi)
    } else if str_eq(name, "binc") {
        (w, b, wi, v)
    } else {
        (w, b, wi, bi)
    }
}

/// Reads the clocks of `go`, its first clock word `first` (the word at index
/// 1) already read.
fn read_clocks(cl: &mut CommandLine, first: String, Ghost(ts): Ghost<Seq<Seq<char>>>) -> (r: GoRequest)
    requires
        ts.len() >= 2,
        first@ == ts[1],
        tokens(old(cl).rest()) == ts.subrange(2, ts.len() as int),
    ensures
        r == (if ts.drop_first().len() < 8 {
            GoRequest::MissingTimes
        } else {
            let (w, b, wi, bi) = clocks(ts.drop_first(), 4);
            GoRequest::Time { wtime: w, btime: b, winc: wi, binc: bi }
        }),
{
    let ghost rest = ts.drop_first();
    let mut c: (u64, u64, u64, u64) = (0, 0, 0, 0);
    let mut name = first;
    let mut k: usize = 1;
    loop
        invariant_except_break
            name@ == ts[2 * k - 1],
            tokens(cl.rest()) == ts.subrange(2 * k as int, ts.len() as int),
            c == clocks(rest, k - 1),
        invariant
            1 <= k <= 4,
            ts.len() >= 2 * k,
            rest == ts.drop_first(),
        ensures
            clocks_done(c, rest),
        decreases 4 - k,
    {
        let value = match next_word(cl, Ghost(ts), Ghost(2 * k as int)) {
            Some(v) => v,
            None => {
                return GoRequest::MissingTimes;
            },
        };
        c = set_clock(c, name.as_str(), value.as_str());
        proof {
            assert(rest[2 * k - 2] == ts[2 * k - 1]);
            assert(rest[2 * k - 1] == ts[2 * k as int]);
        }
        if k == 4 {
            break;
        }
        name = match next_word(cl, Ghost(ts), Ghost(2 * k as int + 1)) {
            Some(n) => n,
            None => {
                return GoRequest::MissingTimes;
            },
        };
        k = k + 1;
    }
    let (w, b, wi, bi) = c;
    GoRequest::Time { wtime: w, btime: b, winc: wi, binc: bi }
}

/// The clocks of all four pairs are read.
pub open spec fn clocks_done(c: (u64, u64, u64, u64), rest: Seq<Seq<char>>) -> bool {
    rest.len() >= 8 && c == clocks(rest, 4)
}

/// Reads what follows `go` (the words from index 1 on).
fn read_go(cl: &mut CommandLine, Ghost(ts): Ghost<Seq<Seq<char>>>) -> (r: GoRequest)
    requires
        ts.len() >= 1,
        tokens(old(cl).rest()) == ts.subrange(1, ts.len() as int),
    ensures
        r == go_spec(ts.drop_first()),
{
    let ghost rest = ts.drop_first();
    let t = match next_word(cl, Ghost(ts), Ghost(1)) {
        Some(t) => t,
        None => {
            return GoRequest::Infinite;
        },
    };
    proof {
        assert(rest[0] == ts[1]);
    }
    if str_eq(t.as_str(), "perft") || str_eq(t.as_str(), "depth") {
        let perft = str_eq(t.as_str(), "perft");
        match next_word(cl, Ghost(ts), Ghost(2)) {
            None => GoRequest::Ignored,
            Some(a) => {
                proof {
                    assert(rest[1] == ts[2]);
                }
                match parse_i32(a.as_str()) {
                    Some(d) => if perft {
                        GoRequest::Perft(d)
                    } else {
                        GoRequest::Depth { depth: d, warn: d <= 0 }
                    },
                    None => GoRequest::InvalidArgument,
                }
            },
        }
    } else if str_eq(t.as_str(), "wtime") || str_eq(t.as_str(), "btime") || str_eq(t.as_str(), "winc") || str_eq(
        t.as_str(),
        "binc",
    ) {
        read_clocks(cl, t, Ghost(ts))
    } else if str_eq(t.as_str(), "movetime") {
        match next_word(cl, Ghost(ts), Ghost(2)) {
            None => GoRequest::Ignored,
            Some(a) => {
                proof {
                    assert(rest[1] == ts[2]);
                }
                match parse_u64(a.as_str()) {
                    Some(m) => GoRequest::MoveTime(m),
                    None => GoRequest::Ignored,
                }
            },
        }
    } else {
        GoRequest::UnknownWord
    }
}

/// Joining one more word.
proof fn lemma_join_push(ws: Seq<Seq<char>>, w: Seq<char>)
    ensures
        join_words(ws.push(w)) == if ws.len() == 0 {
            w
        } else {
            join_words(ws) + seq![' '] + w
        },
{
    assert(ws.push(w).drop_last() =~= ws);
}

/// No word `moves` between `a` and `b`: the search for it goes on from `b`.
proof fn lemma_moves_index_skip(ts: Seq<Seq<char>>, a: int, b: int)
    requires
        0 <= a <= b <= ts.len(),
        forall|j: int| a <= j < b ==> ts[j] != "moves"@,
    ensures
        moves_index(ts, a) == moves_index(ts, b),
    decreases b - a,
{
    if a < b {
        lemma_moves_index_skip(ts, a + 1, b);
    }
}

/// Reads what follows `position` (the words from index 1 on).
fn read_position(cl: &mut CommandLine, Ghost(ts): Ghost<Seq<Seq<char>>>) -> (r: UciAction)
    requires
        ts.len() >= 1,
        tokens(old(cl).rest()) == ts.subrange(1, ts.len() as int),
    ensures
        r@ == position_spec(ts.drop_first()),
{
    let ghost rest = ts.drop_first();
    let p = match next_word(cl, Ghost(ts), Ghost(1)) {
        Some(p) => p,
        None => {
            return UciAction::PositionIgnored;
        },
    };
    proof {
        assert(rest[0] == ts[1]);
    }
    if str_eq(p.as_str(), "startpos") {
        match next_word(cl, Ghost(ts), Ghost(2)) {
            None => {
                let moves: Vec<String> = Vec::new();
                proof {
                    assert(views(moves@) =~= Seq::<Seq<char>>::empty());
                }
                UciAction::SetPosition { fen: String::from_str(START_POS), moves }
            },
            Some(m) => {
                proof {
                    assert(rest[1] == ts[2]);
                }
                if str_eq(m.as_str(), "moves") {
                    let moves = read_all(cl, Ghost(ts), Ghost(3));
                    proof {
                        assert(ts.subrange(3, ts.len() as int) =~= rest.subrange(2, rest.len() as int));
                    }
                    UciAction::SetPosition { fen: String::from_str(START_POS), moves }
                } else {
                    UciAction::PositionIgnored
                }
            },
        }
    } else if str_eq(p.as_str(), "fen") {
        let mut fen = String::new();
        let mut first = true;
        let ghost mut k: int = 2;
        let mut moves: Vec<String> = Vec::new();
        proof {
            assert(rest.subrange(1, 1) =~= Seq::<Seq<char>>::empty());
            assert(fen@ =~= join_words(rest.subrange(1, 1)));
        }
        loop
            invariant_except_break
                tokens(cl.rest()) == ts.subrange(k, ts.len() as int),
                fen@ == join_words(rest.subrange(1, k - 1)),
                forall|j: int| 1 <= j < k - 1 ==> rest[j] != "moves"@,
                first == (k == 2),
                moves@.len() == 0,
            invariant
                2 <= k <= ts.len(),
                rest == ts.drop_first(),
            ensures
                fen@ == join_words(rest.subrange(1, moves_index(rest, 1))),
                views(moves@) == (if moves_index(rest, 1) < rest.len() {
                    rest.subrange(moves_index(rest, 1) + 1, rest.len() as int)
                } else {
                    Seq::<Seq<char>>::empty()
                }),
            decreases ts.len() - k,
        {
            match next_word(cl, Ghost(ts), Ghost(k)) {
                None => {
                    proof {
                        lemma_moves_index_skip(rest, 1, k - 1);
                        assert(moves_index(rest, 1) == rest.len());
                        assert(views(moves@) =~= Seq::<Seq<char>>::empty());
                    }
                    break;
                },
                Some(t) => {
                    proof {
                        assert(rest[k - 1] == ts[k]);
                    }
                    if str_eq(t.as_str(), "moves") {
                        moves = read_all(cl, Ghost(ts), Ghost(k + 1));
                        proof {
                            lemma_moves_index_skip(rest, 1, k - 1);
                            assert(moves_index(rest, 1) == k - 1);
                            assert(ts.subrange(k + 1, ts.len() as int) =~= rest.subrange(k, rest.len() as int));
                        }
                        break;
                    }
                    let ghost before = fen@;
                    proof {
                        lemma_join_push(rest.subrange(1, k - 1), t@);
                        assert(rest.subrange(1, k - 1).push(t@) =~= rest.subrange(1, k));
                    }
                    if !first {
                        push_char(&mut fen, ' ');
                    }
                    fen.append(t.as_str());
                    proof {
                        if !first {
                            assert(fen@ =~= before + seq![' '] + t@);
                        } else {
                            assert(fen@ =~= t@);
                        }
                        k = k + 1;
                    }
                    first = false;
                },
            }
        }
        UciAction::SetPosition { fen, moves }
    } else {
        UciAction::PositionIgnored
    }
}

/// Reads a command line and says what it asks for (see `command_spec`).
pub fn read_command(command: String) -> (r: UciAction)
    ensures
        r@ == command_spec(command@),
{
    let ghost ts = tokens(Some(command@));
    let mut cl = CommandLine::new(command);
    proof {
        assert(ts.subrange(0, ts.len() as int) =~= ts);
    }
    let t = match next_word(&mut cl, Ghost(ts), Ghost(0)) {
        Some(t) => t,
        None => {
            return UciAction::Empty;
        },
    };
    if str_eq(t.as_str(), "go") {
        UciAction::Go(read_go(&mut cl, Ghost(ts)))
    } else if str_eq(t.as_str(), "position") {
        read_position(&mut cl, Ghost(ts))
    } else if str_eq(t.as_str(), "isready") {
        UciAction::IsReady
    } else if str_eq(t.as_str(), "stop") {
        UciAction::Stop
    } else if str_eq(t.as_str(), "help") {
        UciAction::Help
    } else if str_eq(t.as_str(), "uci") {
        UciAction::Uci
    } else if str_eq(t.as_str(), "quit") {
        UciAction::Quit
    } else if str_eq(t.as_str(), "ucinewgame") {
        UciAction::NewGame
    } else if str_eq(t.as_str(), "iter_test") {
        UciAction::IterTest
    } else {
        UciAction::Unknown(t)
    }
}
} // verus!
