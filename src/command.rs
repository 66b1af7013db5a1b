//! The text protocol: a line of whitespace-separated words, the first of
//! which names the command. Parsing never panics; a malformed line yields a
//! `ParseError` and leaves the registry alone.

use crate::registry::{
    after_exit, first_named, has_id, has_name, id_index, remove_id, update_id, Server,
};
use crate::room::{AiOutcome, Difficulty, RoomType, RoomView, Turn};
use vstd::prelude::*;

verus! {

pub enum Command {
    Login(String),
    GetUpdate,
    CreateRoom(String),
    CreateSingleRoom(String),
    SetDifficulty(Option<Difficulty>, String),
    JoinRoom(u32, Turn, String),
    MoveMouse(u32, u32, u32),
    PlaceTrap(u32, u32, u32),
    AiMove(u32),
    GameOver(u32, Option<Turn>),
    ExitRoom(u32, String),
    AfterExitRoom(u32, Turn),
    DeleteRoom(u32),
    DeleteRoomByName(String),
    /// A first word that names no command; the line is sent back as it came.
    Unknown,
}

/// A command with its names as plain character sequences.
pub enum CommandView {
    Login(Seq<char>),
    GetUpdate,
    CreateRoom(Seq<char>),
    CreateSingleRoom(Seq<char>),
    SetDifficulty(Option<Difficulty>, Seq<char>),
    JoinRoom(u32, Turn, Seq<char>),
    MoveMouse(u32, u32, u32),
    PlaceTrap(u32, u32, u32),
    AiMove(u32),
    GameOver(u32, Option<Turn>),
    ExitRoom(u32, Seq<char>),
    AfterExitRoom(u32, Turn),
    DeleteRoom(u32),
    DeleteRoomByName(Seq<char>),
    Unknown,
}

impl View for Command {
    type V = CommandView;

    open spec fn view(&self) -> CommandView {
        match self {
            Command::Login(n) => CommandView::Login(n@),
            Command::GetUpdate => CommandView::GetUpdate,
            Command::CreateRoom(n) => CommandView::CreateRoom(n@),
            Command::CreateSingleRoom(n) => CommandView::CreateSingleRoom(n@),
            Command::SetDifficulty(d, n) => CommandView::SetDifficulty(*d, n@),
            Command::JoinRoom(id, role, n) => CommandView::JoinRoom(*id, *role, n@),
            Command::MoveMouse(id, x, y) => CommandView::MoveMouse(*id, *x, *y),
            Command::PlaceTrap(id, x, y) => CommandView::PlaceTrap(*id, *x, *y),
            Command::AiMove(id) => CommandView::AiMove(*id),
            Command::GameOver(id, w) => CommandView::GameOver(*id, *w),
            Command::ExitRoom(id, n) => CommandView::ExitRoom(*id, n@),
            Command::AfterExitRoom(id, role) => CommandView::AfterExitRoom(*id, *role),
            Command::DeleteRoom(id) => CommandView::DeleteRoom(*id),
            Command::DeleteRoomByName(n) => CommandView::DeleteRoomByName(n@),
            Command::Unknown => CommandView::Unknown,
        }
    }
}

#[derive(Clone, Copy, Debug, PartialEq, Eq, Structural)]
pub enum ParseError {
    /// The line holds no word.
    Empty,
    /// The command needs more words than the line holds.
    MissingArgument,
    /// A word that should be a number is not one that fits in 32 bits.
    BadNumber,
    /// A role other than `mouse` or `trapper`.
    BadRole,
    /// A winner other than `mouse`, `trapper` or `none`.
    BadWinner,
}

/// What the connection sends back after a command.
#[derive(Clone, Copy, Debug, PartialEq, Eq, Structural)]
pub enum Reply {
    /// Nothing is sent.
    Nothing,
    /// A snapshot of the whole registry is sent.
    Snapshot,
    /// The line is sent back unchanged.
    Echo,
    /// The command asked for something the server cannot do: the built-in
    /// mouse of a hard room.
    Unsupported,
}

pub open spec fn is_space(c: char) -> bool {
    c == ' ' || c == '\t' || c == '\n' || c == '\r' || c == '\x0C'
}

/// The words finished so far and the word being read, after reading `s`.
pub open spec fn scan(s: Seq<char>) -> (Seq<Seq<char>>, Seq<char>)
    decreases s.len(),
{
    if s.len() == 0 {
        (seq![], seq![])
    } else {
        let (done, cur) = scan(s.drop_last());
        if is_space(s.last()) {
            if cur.len() > 0 {
                (done.push(cur), seq![])
            } else {
                (done, cur)
            }
        } else {
            (done, cur.push(s.last()))
        }
    }
}

/// The maximal runs of non-space characters of `s`, in order.
pub open spec fn words(s: Seq<char>) -> Seq<Seq<char>> {
    let (done, cur) = scan(s);
    if cur.len() > 0 {
        done.push(cur)
    } else {
        done
    }
}

pub open spec fn is_digit(c: char) -> bool {
    '0' <= c <= '9'
}

pub open spec fn all_digits(s: Seq<char>) -> bool {
    forall|i: int| 0 <= i < s.len() ==> is_digit(#[trigger] s[i])
}

/// The value of a string of decimal digits.
pub open spec fn decimal(s: Seq<char>) -> nat
    decreases s.len(),
{
    if s.len() == 0 {
        0
    } else {
        decimal(s.drop_last()) * 10 + (s.last() as nat - '0' as nat) as nat
    }
}

/// `s` read as a number: one or more digits whose value fits in 32 bits.
pub open spec fn number(s: Seq<char>) -> Option<u32> {
    if s.len() > 0 && all_digits(s) && decimal(s) <= u32::MAX {
        Some(decimal(s) as u32)
    } else {
        None
    }
}

pub open spec fn role_word(s: Seq<char>) -> Option<Turn> {
    if s == "mouse"@ {
        Some(Turn::MousePlayer)
    } else if s == "trapper"@ {
        Some(Turn::TrapperPlayer)
    } else {
        None
    }
}

/// A difficulty word; any other word clears the difficulty.
pub open spec fn level_word(s: Seq<char>) -> Option<Difficulty> {
    if s == "easy"@ {
        Some(Difficulty::Easy)
    } else if s == "medium"@ {
        Some(Difficulty::Medium)
    } else if s == "hard"@ {
        Some(Difficulty::Hard)
    } else {
        None
    }
}

/// The number in word `i` of `w`, or the error for it.
pub open spec fn arg_number(w: Seq<Seq<char>>, i: int) -> Result<u32, ParseError> {
    match number(w[i]) {
        Some(n) => Ok(n),
        None => Err(ParseError::BadNumber),
    }
}

/// The command words of the protocol.
#[derive(Clone, Copy, Debug, PartialEq, Eq, Structural)]
pub enum Keyword {
    Login,
    GetUpdate,
    CreateRoom,
    CreateSingleRoom,
    SetDifficulty,
    JoinRoom,
    MoveMouse,
    PlaceTrap,
    AiMove,
    GameOver,
    ExitRoom,
    AfterExitRoom,
    DeleteRoom,
    DeleteRoomByName,
}

pub open spec fn keyword(s: Seq<char>) -> Option<Keyword> {
    if s == "login"@ {
        Some(Keyword::Login)
    } else if s == "get_update"@ {
        Some(Keyword::GetUpdate)
    } else if s == "create_room"@ {
        Some(Keyword::CreateRoom)
    } else if s == "create_single_room"@ {
        Some(Keyword::CreateSingleRoom)
    } else if s == "set_difficulty"@ {
        Some(Keyword::SetDifficulty)
    } else if s == "join_room"@ {
        Some(Keyword::JoinRoom)
    } else if s == "move_mouse"@ {
        Some(Keyword::MoveMouse)
    } else if s == "place_trap"@ {
        Some(Keyword::PlaceTrap)
    } else if s == "AI_Move"@ {
        Some(Keyword::AiMove)
    } else if s == "game_over"@ {
        Some(Keyword::GameOver)
    } else if s == "exit_room"@ {
        Some(Keyword::ExitRoom)
    } else if s == "after_exit_room"@ {
        Some(Keyword::AfterExitRoom)
    } else if s == "delete_room"@ {
        Some(Keyword::DeleteRoom)
    } else if s == "delete_room_by_name"@ {
        Some(Keyword::DeleteRoomByName)
    } else {
        None
    }
}

/// How many words follow the command word.
pub open spec fn arity(k: Keyword) -> int {
    match k {
        Keyword::GetUpdate => 0,
        Keyword::Login | Keyword::CreateRoom | Keyword::CreateSingleRoom | Keyword::AiMove
        | Keyword::DeleteRoom | Keyword::DeleteRoomByName => 1,
        Keyword::SetDifficulty | Keyword::GameOver | Keyword::ExitRoom
        | Keyword::AfterExitRoom => 2,
        Keyword::JoinRoom | Keyword::MoveMouse | Keyword::PlaceTrap => 3,
    }
}

pub open spec fn winner_word(s: Seq<char>) -> Result<Option<Turn>, ParseError> {
    if s == "trapper"@ {
        Ok(Some(Turn::TrapperPlayer))
    } else if s == "mouse"@ {
        Ok(Some(Turn::MousePlayer))
    } else if s == "none"@ {
        Ok(None)
    } else {
        Err(ParseError::BadWinner)
    }
}

/// The command that the words `w` spell. Words after those a command
/// needs are ignored; a first word that is no command gives `Unknown`.
pub open spec fn parse_words(w: Seq<Seq<char>>) -> Result<CommandView, ParseError> {
    if w.len() == 0 {
        Err(ParseError::Empty)
    } else {
        match keyword(w[0]) {
            None => Ok(CommandView::Unknown),
            Some(k) => if w.len() < arity(k) + 1 {
                Err(ParseError::MissingArgument)
            } else {
                match k {
                    Keyword::Login => Ok(CommandView::Login(w[1])),
                    Keyword::GetUpdate => Ok(CommandView::GetUpdate),
                    Keyword::CreateRoom => Ok(CommandView::CreateRoom(w[1])),
                    Keyword::CreateSingleRoom => Ok(CommandView::CreateSingleRoom(w[1])),
                    Keyword::SetDifficulty => Ok(
                        CommandView::SetDifficulty(level_word(w[1]), w[2]),
                    ),
                    Keyword::DeleteRoomByName => Ok(CommandView::DeleteRoomByName(w[1])),
                    _ => match arg_number(w, 1) {
                        Err(e) => Err(e),
                        Ok(id) => match k {
                            Keyword::AiMove => Ok(CommandView::AiMove(id)),
                            Keyword::DeleteRoom => Ok(CommandView::DeleteRoom(id)),
                            Keyword::ExitRoom => Ok(CommandView::ExitRoom(id, w[2])),
                            Keyword::JoinRoom => match role_word(w[2]) {
                                Some(role) => Ok(CommandView::JoinRoom(id, role, w[3])),
                                None => Err(ParseError::BadRole),
                            },
                            Keyword::AfterExitRoom => match role_word(w[2]) {
                                Some(role) => Ok(CommandView::AfterExitRoom(id, role)),
                                None => Err(ParseError::BadRole),
                            },
                            Keyword::GameOver => match winner_word(w[2]) {
                                Ok(winner) => Ok(CommandView::GameOver(id, winner)),
                                Err(e) => Err(e),
                            },
                            _ => match arg_number(w, 2) {
                                Err(e) => Err(e),
                                Ok(x) => match arg_number(w, 3) {
                                    Err(e) => Err(e),
                                    Ok(y) => if k == Keyword::MoveMouse {
                                        Ok(CommandView::MoveMouse(id, x, y))
                                    } else {
                                        Ok(CommandView::PlaceTrap(id, x, y))
                                    },
                                },
                            },
                        },
                    },
                }
            },
        }
    }
}

pub open spec fn word_views(w: Seq<String>) -> Seq<Seq<char>> {
    w.map_values(|s: String| s@)
}

fn is_space_char(c: char) -> (r: bool)
    ensures
        r == is_space(c),
{
    c == ' ' || c == '\t' || c == '\n' || c == '\r' || c == '\x0C'
}

/// Splits `line` into its words.
pub fn split_words(line: &str) -> (r: Vec<String>)
    ensures
        word_views(r@) == words(line@),
{
    let n = line.unicode_len();
    let mut out: Vec<String> = Vec::new();
    let mut start: usize = 0;
    let mut i: usize = 0;
    while i < n
        invariant
            n == line@.len(),
            start <= i <= n,
            scan(line@.take(i as int)) == (word_views(out@), line@.subrange(start as int, i as int)),
        decreases n - i,
    {
        let c = line.get_char(i);
        let ghost prev = out@;
        assert(line@.take(i + 1).drop_last() =~= line@.take(i as int));
        assert(line@.take(i + 1).last() == c);
        if is_space_char(c) {
            if start < i {
                let word = line.substring_char(start, i).to_owned();
                out.push(word);
                assert(word_views(out@) =~= word_views(prev).push(
                    line@.subrange(start as int, i as int),
                ));
            }
            start = i + 1;
            assert(line@.subrange(start as int, i + 1) =~= Seq::<char>::empty());
        } else {
            assert(line@.subrange(start as int, i + 1) =~= line@.subrange(
                start as int,
                i as int,
            ).push(c));
        }
        i += 1;
    }
    assert(line@.take(n as int) =~= line@);
    if start < n {
        let ghost prev = out@;
        let word = line.substring_char(start, n).to_owned();
        out.push(word);
        assert(word_views(out@) =~= word_views(prev).push(line@.subrange(start as int, n as int)));
    }
    out
}

/// Whether `tok` is exactly the word `w`.
fn is_word(tok: &String, w: &str) -> (r: bool)
    ensures
        r == (tok@ == w@),
{
    let t = tok.as_str();
    let n = t.unicode_len();
    if n != w.unicode_len() {
        return false;
    }
    let mut i: usize = 0;
    while i < n
        invariant
            n == t@.len(),
            n == w@.len(),
            t@ == tok@,
            i <= n,
            forall|j: int| 0 <= j < i ==> t@[j] == w@[j],
        decreases n - i,
    {
        if t.get_char(i) != w.get_char(i) {
            return false;
        }
        i += 1;
    }
    assert(t@ =~= w@);
    true
}

proof fn lemma_decimal_grows(s: Seq<char>, i: int)
    requires
        0 <= i <= s.len(),
        all_digits(s),
    ensures
        decimal(s.take(i)) <= decimal(s),
    decreases s.len(),
{
    if i < s.len() {
        assert(all_digits(s.drop_last()));
        lemma_decimal_grows(s.drop_last(), i);
        assert(s.drop_last().take(i) =~= s.take(i));
    } else {
        assert(s.take(i) =~= s);
    }
}

/// Reads `tok` as a decimal number that fits in 32 bits.
pub fn parse_u32(tok: &String) -> (r: Option<u32>)
    ensures
        r == number(tok@),
{
    let t = tok.as_str();
    let n = t.unicode_len();
    if n == 0 {
        return None;
    }
    let mut acc: u64 = 0;
    let mut i: usize = 0;
    while i < n
        invariant
            n == t@.len(),
            t@ == tok@,
            i <= n,
            acc <= u32::MAX,
            acc == decimal(t@.take(i as int)),
            all_digits(t@.take(i as int)),
        decreases n - i,
    {
        let c = t.get_char(i);
        assert(t@.take(i + 1).drop_last() =~= t@.take(i as int));
        assert(t@.take(i + 1).last() == c);
        if !('0' <= c && c <= '9') {
            assert(!all_digits(t@)) by {
                assert(t@[i as int] == c);
            }
            return None;
        }
        acc = acc * 10 + (c as u64 - '0' as u64);
        assert(all_digits(t@.take(i + 1))) by {
            assert forall|j: int| 0 <= j < i + 1 implies is_digit(#[trigger] t@.take(i + 1)[j]) by {
                if j < i {
                    assert(t@.take(i + 1)[j] == t@.take(i as int)[j]);
                }
            }
        }
        if acc > u32::MAX as u64 {
            proof {
                if all_digits(t@) {
                    lemma_decimal_grows(t@, i + 1);
                }
            }
            return None;
        }
        i += 1;
    }
    assert(t@.take(n as int) =~= t@);
    Some(acc as u32)
}

fn role_of(tok: &String) -> (r: Option<Turn>)
    ensures
        r == role_word(tok@),
{
    if is_word(tok, "mouse") {
        Some(Turn::MousePlayer)
    } else if is_word(tok, "trapper") {
        Some(Turn::TrapperPlayer)
    } else {
        None
    }
}

fn level_of(tok: &String) -> (r: Option<Difficulty>)
    ensures
        r == level_word(tok@),
{
    if is_word(tok, "easy") {
        Some(Difficulty::Easy)
    } else if is_word(tok, "medium") {
        Some(Difficulty::Medium)
    } else if is_word(tok, "hard") {
        Some(Difficulty::Hard)
    } else {
        None
    }
}

fn number_arg(w: &Vec<String>, i: usize) -> (r: Result<u32, ParseError>)
    requires
        i < w@.len(),
    ensures
        r == arg_number(word_views(w@), i as int),
{
    match parse_u32(&w[i]) {
        Some(n) => Ok(n),
        None => Err(ParseError::BadNumber),
    }
}

fn keyword_of(tok: &String) -> (r: Option<Keyword>)
    ensures
        r == keyword(tok@),
{
    if is_word(tok, "login") {
        Some(Keyword::Login)
    } else if is_word(tok, "get_update") {
        Some(Keyword::GetUpdate)
    } else if is_word(tok, "create_room") {
        Some(Keyword::CreateRoom)
    } else if is_word(tok, "create_single_room") {
        Some(Keyword::CreateSingleRoom)
    } else if is_word(tok, "set_difficulty") {
        Some(Keyword::SetDifficulty)
    } else if is_word(tok, "join_room") {
        Some(Keyword::JoinRoom)
    } else if is_word(tok, "move_mouse") {
        Some(Keyword::MoveMouse)
    } else if is_word(tok, "place_trap") {
        Some(Keyword::PlaceTrap)
    } else if is_word(tok, "AI_Move") {
        Some(Keyword::AiMove)
    } else if is_word(tok, "game_over") {
        Some(Keyword::GameOver)
    } else if is_word(tok, "exit_room") {
        Some(Keyword::ExitRoom)
    } else if is_word(tok, "after_exit_room") {
        Some(Keyword::AfterExitRoom)
    } else if is_word(tok, "delete_room") {
        Some(Keyword::DeleteRoom)
    } else if is_word(tok, "delete_room_by_name") {
        Some(Keyword::DeleteRoomByName)
    } else {
        None
    }
}

fn arity_of(k: Keyword) -> (r: usize)
    ensures
        r == arity(k),
{
    match k {
        Keyword::GetUpdate => 0,
        Keyword::Login | Keyword::CreateRoom | Keyword::CreateSingleRoom | Keyword::AiMove
        | Keyword::DeleteRoom | Keyword::DeleteRoomByName => 1,
        Keyword::SetDifficulty | Keyword::GameOver | Keyword::ExitRoom
        | Keyword::AfterExitRoom => 2,
        Keyword::JoinRoom | Keyword::MoveMouse | Keyword::PlaceTrap => 3,
    }
}

fn winner_of(tok: &String) -> (r: Result<Option<Turn>, ParseError>)
    ensures
        r == winner_word(tok@),
{
    if is_word(tok, "trapper") {
        Ok(Some(Turn::TrapperPlayer))
    } else if is_word(tok, "mouse") {
        Ok(Some(Turn::MousePlayer))
    } else if is_word(tok, "none") {
        Ok(None)
    } else {
        Err(ParseError::BadWinner)
    }
}

/// The command that the words `w` spell.
pub fn parse_words_exec(w: &Vec<String>) -> (r: Result<Command, ParseError>)
    ensures
        match r {
            Ok(c) => parse_words(word_views(w@)) == Ok::<CommandView, ParseError>(c@),
            Err(e) => parse_words(word_views(w@)) == Err::<CommandView, ParseError>(e),
        },
{
    let ghost ws = word_views(w@);
    if w.len() == 0 {
        return Err(ParseError::Empty);
    }
    assert(ws[0] == w@[0]@);
    let k = match keyword_of(&w[0]) {
        None => return Ok(Command::Unknown),
        Some(k) => k,
    };
    if w.len() < arity_of(k) + 1 {
        return Err(ParseError::MissingArgument);
    }
    if k == Keyword::GetUpdate {
        return Ok(Command::GetUpdate);
    }
    assert(ws[1] == w@[1]@);
    match k {
        Keyword::Login => return Ok(Command::Login(w[1].clone())),
        Keyword::CreateRoom => return Ok(Command::CreateRoom(w[1].clone())),
        Keyword::CreateSingleRoom => return Ok(Command::CreateSingleRoom(w[1].clone())),
        Keyword::SetDifficulty => {
            assert(ws[2] == w@[2]@);
            return Ok(Command::SetDifficulty(level_of(&w[1]), w[2].clone()));
        },
        Keyword::DeleteRoomByName => return Ok(Command::DeleteRoomByName(w[1].clone())),
        _ => {},
    }
    let id = match number_arg(w, 1) {
        Ok(id) => id,
        Err(e) => return Err(e),
    };
    match k {
        Keyword::AiMove => return Ok(Command::AiMove(id)),
        Keyword::DeleteRoom => return Ok(Command::DeleteRoom(id)),
        _ => {},
    }
    assert(ws[2] == w@[2]@);
    match k {
        Keyword::ExitRoom => return Ok(Command::ExitRoom(id, w[2].clone())),
        Keyword::JoinRoom => {
            assert(ws[3] == w@[3]@);
            return match role_of(&w[2]) {
                Some(role) => Ok(Command::JoinRoom(id, role, w[3].clone())),
                None => Err(ParseError::BadRole),
            };
        },
        Keyword::AfterExitRoom => {
            return match role_of(&w[2]) {
                Some(role) => Ok(Command::AfterExitRoom(id, role)),
                None => Err(ParseError::BadRole),
            };
        },
        Keyword::GameOver => {
            return match winner_of(&w[2]) {
                Ok(winner) => Ok(Command::GameOver(id, winner)),
                Err(e) => Err(e),
            };
        },
        _ => {},
    }
    let x = match number_arg(w, 2) {
        Ok(x) => x,
        Err(e) => return Err(e),
    };
    let y = match number_arg(w, 3) {
        Ok(y) => y,
        Err(e) => return Err(e),
    };
    if k == Keyword::MoveMouse {
        Ok(Command::MoveMouse(id, x, y))
    } else {
        Ok(Command::PlaceTrap(id, x, y))
    }
}

/// Parses one line of the protocol.
pub fn parse_command(line: &str) -> (r: Result<Command, ParseError>)
    ensures
        match r {
            Ok(c) => parse_words(words(line@)) == Ok::<CommandView, ParseError>(c@),
            Err(e) => parse_words(words(line@)) == Err::<CommandView, ParseError>(e),
        },
{
    let w = split_words(line);
    parse_words_exec(&w)
}

/// How command `c`, answered with `r`, takes registry `s` to `t`.
pub open spec fn applied(s: Server, t: Server, c: CommandView, r: Reply) -> bool {
    match c {
        CommandView::GetUpdate => r == Reply::Snapshot && t@ == s@ && t.next_id == s.next_id,
        CommandView::Unknown => r == Reply::Echo && t@ == s@ && t.next_id == s.next_id,
        CommandView::Login(_) => r == Reply::Nothing && t@ == s@ && t.next_id == s.next_id,
        CommandView::CreateRoom(n) => r == Reply::Nothing && if s.next_id < u32::MAX {
            s.created(t, n, RoomType::MultiPlayer)
        } else {
            t == s
        },
        CommandView::CreateSingleRoom(n) => r == Reply::Nothing && if s.next_id < u32::MAX {
            s.created(t, "!"@ + n, RoomType::SinglePlayer)
        } else {
            t == s
        },
        CommandView::SetDifficulty(d, n) => r == Reply::Nothing && t.next_id == s.next_id && if has_name(
            s@,
            n,
        ) {
            exists|i: int| first_named(s@, n, i) && t@ == s@.update(i, s@[i].with_difficulty(d))
        } else {
            t@ == s@
        },
        CommandView::JoinRoom(id, role, n) => r == Reply::Nothing && t.next_id == s.next_id && t@
            == update_id(s@, id, |v: RoomView| v.joined(role, n)),
        CommandView::MoveMouse(id, x, y) => r == Reply::Nothing && t.next_id == s.next_id && t@
            == update_id(s@, id, |v: RoomView| v.with_mouse_at((x, y))),
        CommandView::PlaceTrap(id, x, y) => r == Reply::Nothing && t.next_id == s.next_id && t@
            == update_id(s@, id, |v: RoomView| v.with_trap((x, y))),
        CommandView::GameOver(id, w) => r == Reply::Nothing && t.next_id == s.next_id && t@
            == update_id(s@, id, |v: RoomView| v.finished(w)),
        CommandView::ExitRoom(id, n) => r == Reply::Nothing && t.next_id == s.next_id && t@
            == update_id(s@, id, |v: RoomView| v.left(n)),
        CommandView::AiMove(id) => t.next_id == s.next_id && if has_id(s@, id) {
            let i = id_index(s@, id);
            &&& r == (if s@[i].game_difficulty == Some(Difficulty::Hard) {
                Reply::Unsupported
            } else {
                Reply::Nothing
            })
            &&& t@.len() == s@.len()
            &&& exists|o: AiOutcome| s@[i].ai_step(t@[i], o)
            &&& t@ == s@.update(i, t@[i])
        } else {
            r == Reply::Nothing && t@ == s@
        },
        CommandView::AfterExitRoom(id, role) => r == Reply::Nothing && t.next_id == s.next_id
            && t@ == after_exit(s@, id, role),
        CommandView::DeleteRoom(id) => r == Reply::Nothing && t.next_id == s.next_id && t@
            == remove_id(s@, id),
        CommandView::DeleteRoomByName(n) => r == Reply::Nothing && t.next_id == s.next_id && t@
            == s@.filter(|v: RoomView| v.room_name != n),
    }
}

/// Carries out one command on the registry and says what to send back.
pub fn dispatch(server: &mut Server, cmd: Command) -> (r: Reply)
    requires
        old(server).wf(),
    ensures
        final(server).wf(),
        applied(*old(server), *final(server), cmd@, r),
{
    match cmd {
        Command::Login(_) => Reply::Nothing,
        Command::GetUpdate => Reply::Snapshot,
        Command::Unknown => Reply::Echo,
        Command::CreateRoom(name) => {
            let _ = server.create_room(name);
            Reply::Nothing
        },
        Command::CreateSingleRoom(name) => {
            let mut marked = String::from_str("!");
            marked.append(name.as_str());
            let _ = server.create_single_room(marked);
            Reply::Nothing
        },
        Command::SetDifficulty(level, name) => {
            let _ = server.set_difficulty(level, &name);
            Reply::Nothing
        },
        Command::JoinRoom(id, role, name) => {
            let _ = server.join_room(id, role, name);
            Reply::Nothing
        },
        Command::MoveMouse(id, x, y) => {
            let _ = server.move_mouse(id, x, y);
            Reply::Nothing
        },
        Command::PlaceTrap(id, x, y) => {
            let _ = server.place_trap(id, x, y);
            Reply::Nothing
        },
        Command::AiMove(id) => match server.ai_move(id) {
            Some(AiOutcome::Unimplemented) => Reply::Unsupported,
            _ => Reply::Nothing,
        },
        Command::GameOver(id, winner) => {
            let _ = server.game_over(id, winner);
            Reply::Nothing
        },
        Command::ExitRoom(id, name) => {
            let _ = server.exit_room(id, &name);
            Reply::Nothing
        },
        Command::AfterExitRoom(id, role) => {
            let _ = server.after_exit_room(id, role);
            Reply::Nothing
        },
        Command::DeleteRoom(id) => {
            let _ = server.delete_room(id);
            Reply::Nothing
        },
        Command::DeleteRoomByName(name) => {
            server.delete_room_by_name(&name);
            Reply::Nothing
        },
    }
}

/// Parses `line` and carries it out; a line that does not parse leaves the
/// registry as it was.
pub fn handle_line(server: &mut Server, line: &str) -> (r: Result<Reply, ParseError>)
    requires
        old(server).wf(),
    ensures
        final(server).wf(),
        match parse_words(words(line@)) {
            Ok(c) => r matches Ok(reply) && applied(*old(server), *final(server), c, reply),
            Err(e) => r == Err::<Reply, ParseError>(e) && *final(server) == *old(server),
        },
{
    match parse_command(line) {
        Ok(cmd) => Ok(dispatch(server, cmd)),
        Err(e) => Err(e),
    }
}

/// Where the first command line of `buf` ends: the index of its first
/// newline, if it holds one.
pub fn frame_end(buf: &Vec<u8>) -> (r: Option<usize>)
    ensures
        r matches Some(i) ==> i < buf@.len() && buf@[i as int] == 10 && forall|j: int|
            0 <= j < i ==> buf@[j] != 10,
        r is None ==> forall|j: int| 0 <= j < buf@.len() ==> buf@[j] != 10,
{
    let mut i: usize = 0;
    while i < buf.len()
        invariant
            i <= buf@.len(),
            forall|j: int| 0 <= j < i ==> buf@[j] != 10,
        decreases buf.len() - i,
    {
        if buf[i] == 10 {
            return Some(i);
        }
        i += 1;
    }
    None
}

} // verus!
