//! The client driver's decisions: the session configuration, the
//! identity handshake, the one-to-one translation of player intents
//! into wire commands, and the session connector's redirect step.
//!
//! The blocking work around these decisions — opening sockets, reading
//! the locator line, the channel loop — lives outside the library and
//! calls in with plain values.

use vstd::prelude::*;

use crate::codec::Command;
use crate::codec::CommandV;
use crate::json::chars_to_string;
use crate::json::is_ws;
use crate::json::str_to_chars;
use crate::message::FromGuiMessage;

verus! {

/// One client session's configuration: where to connect and who to
/// join as. The socket itself, the channels and the shared snapshot
/// handle are wired up by the surrounding program.
#[derive(Debug, Clone, PartialEq)]
pub struct EpochClient {
    pub address: String,
    pub name: String,
    pub token: Option<String>,
}

impl EpochClient {
    /// Remembers the session configuration: the address to connect to,
    /// the player name for a fresh join, and the rejoin token, if the
    /// caller has one from an earlier session.
    pub fn new(address: &str, name: &str, token: Option<&str>) -> (r: EpochClient)
        ensures
            r.address@ == address@,
            r.name@ == name@,
            (match (token, r.token) {
                (Some(t), Some(rt)) => rt@ == t@,
                (None, None) => true,
                _ => false,
            }),
    {
        EpochClient {
            address: String::from_str(address),
            name: String::from_str(name),
            token: match token {
                Some(t) => Some(String::from_str(t)),
                None => None,
            },
        }
    }

    /// The identity handshake this session opens with: rejoin by token
    /// when one was supplied, else a fresh join under the player name.
    pub fn handshake_command(&self) -> (r: Command)
        ensures
            self.token matches Some(t) ==> r@ == (CommandV::Rejoin { token: t@ }),
            self.token is None ==> r@ == (CommandV::Welcome { name: self.name@ }),
    {
        match &self.token {
            Some(t) => Command::Rejoin { token: t.clone() },
            None => Command::Welcome { name: self.name.clone() },
        }
    }
}

/// One player intent becomes exactly one wire command, and the quit
/// intent becomes none: the driver then stops consuming intents and
/// lets the session end.
pub fn intent_to_command(msg: FromGuiMessage) -> (r: Option<Command>)
    ensures
        msg matches FromGuiMessage::Build(pos, b) ==> r matches Some(c) && c@ == (CommandV::Build {
            x: pos.0,
            y: pos.1,
            building: b,
        }),
        msg matches FromGuiMessage::Excavate(pos) ==> r matches Some(c) && c@ == (
        CommandV::Excavate { x: pos.0, y: pos.1 }),
        msg is Skip ==> (r matches Some(c) && c@ == CommandV::EndTurn),
        msg is Quit ==> r is None,
{
    match msg {
        FromGuiMessage::Build(pos, building) => Some(
            Command::Build { x: pos.0, y: pos.1, building },
        ),
        FromGuiMessage::Excavate(pos) => Some(Command::Excavate { x: pos.0, y: pos.1 }),
        FromGuiMessage::Skip => Some(Command::EndTurn),
        FromGuiMessage::Quit => None,
    }
}

/// The first position at or after `i` holding no whitespace.
pub open spec fn trim_start_idx(s: Seq<char>, i: int) -> int
    decreases s.len() - i,
{
    if 0 <= i < s.len() && is_ws(s[i]) {
        trim_start_idx(s, i + 1)
    } else {
        i
    }
}

/// The first position at or before `i` with no whitespace right before
/// it.
pub open spec fn trim_end_idx(s: Seq<char>, i: int) -> int
    decreases i,
{
    if 0 < i <= s.len() && is_ws(s[i - 1]) {
        trim_end_idx(s, i - 1)
    } else {
        i
    }
}

/// The line with surrounding whitespace removed.
pub open spec fn trim_spec(s: Seq<char>) -> Seq<char> {
    let a = trim_start_idx(s, 0);
    let b = trim_end_idx(s, s.len() as int);
    if a <= b {
        s.subrange(a, b)
    } else {
        Seq::empty()
    }
}

/// The address the session connector's second hop targets: the line
/// the locator sent, stripped of its newline and surrounding blanks —
/// and of nothing else.
pub fn locator_target(line: &str) -> (r: String)
    ensures
        r@ == trim_spec(line@),
{
    let chars = str_to_chars(line);
    let n = chars.len();
    let mut a: usize = 0;
    while a < n && (chars[a] == ' ' || chars[a] == '\n' || chars[a] == '\t' || chars[a] == '\r')
        invariant
            a <= n,
            n == chars@.len(),
            chars@ == line@,
            trim_start_idx(line@, 0) == trim_start_idx(line@, a as int),
        decreases n - a,
    {
        proof {
            assert(trim_start_idx(line@, a as int) == trim_start_idx(line@, a + 1));
        }
        a += 1;
    }
    let mut b: usize = n;
    while b > 0 && (chars[b - 1] == ' ' || chars[b - 1] == '\n' || chars[b - 1] == '\t' || chars[b
        - 1] == '\r')
        invariant
            b <= n,
            n == chars@.len(),
            chars@ == line@,
            trim_end_idx(line@, n as int) == trim_end_idx(line@, b as int),
        decreases b,
    {
        proof {
            assert(trim_end_idx(line@, b as int) == trim_end_idx(line@, b - 1));
        }
        b -= 1;
    }
    let mut out: Vec<char> = Vec::new();
    if a < b {
        let mut k = a;
        while k < b
            invariant
                a <= k <= b <= n,
                n == chars@.len(),
                chars@ == line@,
                out@ == line@.subrange(a as int, k as int),
            decreases b - k,
        {
            out.push(chars[k]);
            proof {
                assert(line@.subrange(a as int, k + 1) =~= line@.subrange(a as int, k as int).push(
                    line@[k as int],
                ));
            }
            k += 1;
        }
    }
    proof {
        assert(trim_start_idx(line@, a as int) == a as int);
        assert(trim_end_idx(line@, b as int) == b as int);
        if a < b {
            assert(out@ == line@.subrange(a as int, b as int));
        } else if a == b {
            assert(line@.subrange(a as int, b as int) =~= Seq::<char>::empty());
            assert(out@ =~= Seq::<char>::empty());
        } else {
            assert(out@ =~= Seq::<char>::empty());
        }
        assert(out@ == trim_spec(line@));
    }
    chars_to_string(&out)
}

} // verus!
