//! The networked bot's reading of the server's text frames: which event a
//! frame carries and the fields the bot acts on, and what an authoritative
//! snapshot does to the bot's view of the bout. The JSON itself is read by
//! `serde_json`; each field read is a wrapper whose result is named.

use vstd::prelude::*;
use crate::policy::{first_shown, opponent_is_high};
use crate::roam::Listed;

verus! {

/// The string at JSON pointer `pointer` in the JSON text `text`, if the text
/// parses and a string stands there.
pub uninterp spec fn json_str(text: Seq<char>, pointer: Seq<char>) -> Option<Seq<char>>;

/// The unsigned integer at JSON pointer `pointer` in `text`, if one fits `u64`.
pub uninterp spec fn json_u64(text: Seq<char>, pointer: Seq<char>) -> Option<u64>;

/// The integer at JSON pointer `pointer` in `text`, if one fits `i64`.
pub uninterp spec fn json_i64(text: Seq<char>, pointer: Seq<char>) -> Option<i64>;

/// The boolean at JSON pointer `pointer` in `text`.
pub uninterp spec fn json_bool(text: Seq<char>, pointer: Seq<char>) -> Option<bool>;

/// The elements of the array at `pointer` in `text`, each as an unsigned
/// integer when it is one that fits `u64`.
pub uninterp spec fn json_u64s(text: Seq<char>, pointer: Seq<char>) -> Option<Seq<Option<u64>>>;

/// The elements of the array at `pointer` in `text`, each as an integer when
/// it is one that fits `i64`.
pub uninterp spec fn json_i64s(text: Seq<char>, pointer: Seq<char>) -> Option<Seq<Option<i64>>>;

/// The length of the array at `pointer` in `text`.
pub uninterp spec fn json_len(text: Seq<char>, pointer: Seq<char>) -> Option<nat>;

/// The string under key `key` of element `index` of the array at `pointer`.
pub uninterp spec fn json_item_str(text: Seq<char>, pointer: Seq<char>, index: nat, key: Seq<char>) -> Option<Seq<char>>;

/// The boolean under key `key` of element `index` of the array at `pointer`.
pub uninterp spec fn json_item_bool(text: Seq<char>, pointer: Seq<char>, index: nat, key: Seq<char>) -> Option<bool>;

/// Reads the string at a JSON pointer: `serde_json::from_str` into a
/// `Value`, then `Value::pointer` and `Value::as_str`. Claims only that the
/// result is the one named by [`json_str`] for this text and pointer.
#[verifier::external_body]
fn json_str_at(text: &str, pointer: &str) -> (r: Option<String>)
    ensures
        match r {
            Some(s) => json_str(text@, pointer@) == Some(s@),
            None => json_str(text@, pointer@) is None,
        },
{
    let v: serde_json::Value = serde_json::from_str(text).ok()?;
    v.pointer(pointer)?.as_str().map(|s| s.to_string())
}

/// Reads the unsigned integer at a JSON pointer (`from_str`, `pointer`,
/// `as_u64`); the result is the one named by [`json_u64`].
#[verifier::external_body]
fn json_u64_at(text: &str, pointer: &str) -> (r: Option<u64>)
    ensures
        r == json_u64(text@, pointer@),
{
    let v: serde_json::Value = serde_json::from_str(text).ok()?;
    v.pointer(pointer)?.as_u64()
}

/// Reads the integer at a JSON pointer (`from_str`, `pointer`, `as_i64`); the
/// result is the one named by [`json_i64`].
#[verifier::external_body]
fn json_i64_at(text: &str, pointer: &str) -> (r: Option<i64>)
    ensures
        r == json_i64(text@, pointer@),
{
    let v: serde_json::Value = serde_json::from_str(text).ok()?;
    v.pointer(pointer)?.as_i64()
}

/// Reads the boolean at a JSON pointer (`from_str`, `pointer`, `as_bool`);
/// the result is the one named by [`json_bool`].
#[verifier::external_body]
fn json_bool_at(text: &str, pointer: &str) -> (r: Option<bool>)
    ensures
        r == json_bool(text@, pointer@),
{
    let v: serde_json::Value = serde_json::from_str(text).ok()?;
    v.pointer(pointer)?.as_bool()
}

/// Reads the elements of the array at a JSON pointer (`from_str`, `pointer`,
/// `as_array`, then `as_u64` on each element); the result is the one named by
/// [`json_u64s`].
#[verifier::external_body]
fn json_u64s_at(text: &str, pointer: &str) -> (r: Option<Vec<Option<u64>>>)
    ensures
        match r {
            Some(v) => json_u64s(text@, pointer@) == Some(v@),
            None => json_u64s(text@, pointer@) is None,
        },
{
    let v: serde_json::Value = serde_json::from_str(text).ok()?;
    Some(v.pointer(pointer)?.as_array()?.iter().map(|n| n.as_u64()).collect())
}

/// Reads the elements of the array at a JSON pointer (`from_str`, `pointer`,
/// `as_array`, then `as_i64` on each element); the result is the one named by
/// [`json_i64s`].
#[verifier::external_body]
fn json_i64s_at(text: &str, pointer: &str) -> (r: Option<Vec<Option<i64>>>)
    ensures
        match r {
            Some(v) => json_i64s(text@, pointer@) == Some(v@),
            None => json_i64s(text@, pointer@) is None,
        },
{
    let v: serde_json::Value = serde_json::from_str(text).ok()?;
    Some(v.pointer(pointer)?.as_array()?.iter().map(|n| n.as_i64()).collect())
}

/// Reads the length of the array at a JSON pointer (`from_str`, `pointer`,
/// `as_array`, `len`); the result is the one named by [`json_len`].
#[verifier::external_body]
fn json_len_at(text: &str, pointer: &str) -> (r: Option<usize>)
    ensures
        match r {
            Some(n) => json_len(text@, pointer@) == Some(n as nat),
            None => json_len(text@, pointer@) is None,
        },
{
    let v: serde_json::Value = serde_json::from_str(text).ok()?;
    Some(v.pointer(pointer)?.as_array()?.len())
}

/// Reads the string under `key` of element `index` of the array at a JSON
/// pointer (`from_str`, `pointer`, `as_array`, `get`, `Value::get`,
/// `as_str`); the result is the one named by [`json_item_str`].
#[verifier::external_body]
fn json_item_str_at(text: &str, pointer: &str, index: usize, key: &str) -> (r: Option<String>)
    ensures
        match r {
            Some(s) => json_item_str(text@, pointer@, index as nat, key@) == Some(s@),
            None => json_item_str(text@, pointer@, index as nat, key@) is None,
        },
{
    let v: serde_json::Value = serde_json::from_str(text).ok()?;
    v.pointer(pointer)?.as_array()?.get(index)?.get(key)?.as_str().map(|s| s.to_string())
}

/// Reads the boolean under `key` of element `index` of the array at a JSON
/// pointer (`from_str`, `pointer`, `as_array`, `get`, `Value::get`,
/// `as_bool`); the result is the one named by [`json_item_bool`].
#[verifier::external_body]
fn json_item_bool_at(text: &str, pointer: &str, index: usize, key: &str) -> (r: Option<bool>)
    ensures
        r == json_item_bool(text@, pointer@, index as nat, key@),
{
    let v: serde_json::Value = serde_json::from_str(text).ok()?;
    v.pointer(pointer)?.as_array()?.get(index)?.get(key)?.as_bool()
}

/// An authoritative snapshot as the bot reads it.
#[derive(Clone, Debug)]
pub struct Snapshot {
    /// The last input the server confirmed, when the frame says.
    pub ack: Option<u64>,
    /// The match result (0 while the match runs).
    pub result: i64,
    /// The server has us, and the opponent, in the bazaar.
    pub you_bazaar: bool,
    pub opp_bazaar: bool,
    /// The keyframe bytes, when the frame carries one.
    pub keyframe: Option<Vec<u8>>,
    /// The opponent's board as a spy shows it, when one of our spies is active.
    pub spy_board: Option<Vec<i32>>,
}

/// What a server frame tells the bot.
#[derive(Clone, Debug)]
pub enum Frame {
    /// A challenge from `from`: accept it.
    Challenged { from: String },
    /// A match starts.
    MatchStart { seed: u64, opponent: String, opp_elo: i64 },
    /// The lobby roster (when the frame lists one).
    Players(Option<Vec<Listed>>),
    /// Our challenge was declined by `by`.
    Declined { by: String },
    /// An authoritative snapshot.
    Snapshot(Snapshot),
    /// Anything else, or text that is not a JSON frame.
    Other,
}

/// A string field read with a default.
pub open spec fn str_or(s: Option<Seq<char>>, d: Seq<char>) -> Seq<char> {
    match s {
        Some(v) => v,
        None => d,
    }
}

/// The roster entries among the first `n` elements of the frame's player
/// list: those with a name, with their status being "available" and their
/// bot flag (false when absent).
pub open spec fn listed_spec(t: Seq<char>, n: nat) -> Seq<(Seq<char>, bool, bool)>
    decreases n,
{
    if n == 0 {
        seq![]
    } else {
        let rest = listed_spec(t, (n - 1) as nat);
        match json_item_str(t, "/players"@, (n - 1) as nat, "name"@) {
            Some(name) => rest.push(
                (
                    name,
                    json_item_str(t, "/players"@, (n - 1) as nat, "status"@) == Some("available"@),
                    json_item_bool(t, "/players"@, (n - 1) as nat, "bot"@) == Some(true),
                ),
            ),
            None => rest,
        }
    }
}

/// The integers among array elements `s`, each cut to a byte, in order.
pub open spec fn kept_bytes(s: Seq<Option<u64>>) -> Seq<u8>
    decreases s.len(),
{
    if s.len() == 0 {
        seq![]
    } else {
        let rest = kept_bytes(s.drop_last());
        match s.last() {
            Some(n) => rest.push(n as u8),
            None => rest,
        }
    }
}

/// The integers among array elements `s`, each cut to 32 bits, in order.
pub open spec fn kept_words(s: Seq<Option<i64>>) -> Seq<i32>
    decreases s.len(),
{
    if s.len() == 0 {
        seq![]
    } else {
        let rest = kept_words(s.drop_last());
        match s.last() {
            Some(n) => rest.push(n as i32),
            None => rest,
        }
    }
}

/// A roster as plain values.
pub open spec fn listed_view(l: Seq<Listed>) -> Seq<(Seq<char>, bool, bool)> {
    l.map_values(|p: Listed| (p.name@, p.available, p.bot))
}

/// The snapshot fields frame `t` carries.
pub open spec fn snapshot_of(s: Snapshot, t: Seq<char>) -> bool {
    &&& s.ack == json_u64(t, "/ack"@)
    &&& s.result == match json_i64(t, "/result"@) {
        Some(r) => r,
        None => 0i64,
    }
    &&& s.you_bazaar == (json_bool(t, "/you/in_bazaar"@) == Some(true))
    &&& s.opp_bazaar == (json_bool(t, "/opp/in_bazaar"@) == Some(true))
    &&& match s.keyframe {
        Some(k) => json_u64s(t, "/keyframe"@) matches Some(ns) && k@ == kept_bytes(ns),
        None => json_u64s(t, "/keyframe"@) is None,
    }
    &&& match s.spy_board {
        Some(g) => json_i64s(t, "/spy_board"@) matches Some(ns) && g@ == kept_words(ns),
        None => json_i64s(t, "/spy_board"@) is None,
    }
}

fn is_word(s: &String, w: &str) -> (b: bool)
    ensures
        b == (s@ == w@),
{
    let o = w.to_owned();
    *s == o
}

fn bytes_of(ns: Vec<Option<u64>>) -> (out: Vec<u8>)
    ensures
        out@ == kept_bytes(ns@),
{
    let mut out: Vec<u8> = Vec::new();
    let mut i: usize = 0;
    while i < ns.len()
        invariant
            0 <= i <= ns@.len(),
            out@ == kept_bytes(ns@.take(i as int)),
        decreases ns@.len() - i,
    {
        assert(ns@.take(i + 1).drop_last() == ns@.take(i as int));
        if let Some(n) = ns[i] {
            out.push(#[verifier::truncate] (n as u8));
        }
        i = i + 1;
    }
    assert(ns@.take(ns@.len() as int) == ns@);
    out
}

fn words_of(ns: Vec<Option<i64>>) -> (out: Vec<i32>)
    ensures
        out@ == kept_words(ns@),
{
    let mut out: Vec<i32> = Vec::new();
    let mut i: usize = 0;
    while i < ns.len()
        invariant
            0 <= i <= ns@.len(),
            out@ == kept_words(ns@.take(i as int)),
        decreases ns@.len() - i,
    {
        assert(ns@.take(i + 1).drop_last() == ns@.take(i as int));
        if let Some(n) = ns[i] {
            out.push(#[verifier::truncate] (n as i32));
        }
        i = i + 1;
    }
    assert(ns@.take(ns@.len() as int) == ns@);
    out
}

fn read_roster(text: &str, n: usize) -> (out: Vec<Listed>)
    ensures
        listed_view(out@) == listed_spec(text@, n as nat),
{
    let mut out: Vec<Listed> = Vec::new();
    let mut i: usize = 0;
    while i < n
        invariant
            0 <= i <= n,
            listed_view(out@) == listed_spec(text@, i as nat),
        decreases n - i,
    {
        let ghost before = out@;
        match json_item_str_at(text, "/players", i, "name") {
            Some(name) => {
                let available = match json_item_str_at(text, "/players", i, "status") {
                    Some(s) => is_word(&s, "available"),
                    None => false,
                };
                let bot = match json_item_bool_at(text, "/players", i, "bot") {
                    Some(b) => b,
                    None => false,
                };
                out.push(Listed { name, available, bot });
                assert(listed_view(out@) =~= listed_view(before).push((out@.last().name@, available, bot)));
            },
            None => {},
        }
        i = i + 1;
    }
    out
}

/// Read a server frame: its `type` says which event it is, and the event's
/// fields are read with the defaults the bot uses (an empty name, `?` for an
/// unnamed opponent, seed 0, rating 1000, result 0, not in the bazaar).
pub fn read_frame(text: &str) -> (f: Frame)
    ensures
        ({
            let t = text@;
            let kind = json_str(t, "/type"@);
            if kind == Some("challenged"@) {
                f matches Frame::Challenged { from } && from@ == str_or(json_str(t, "/from"@), seq![])
            } else if kind == Some("matchStart"@) {
                f matches Frame::MatchStart { seed, opponent, opp_elo } && seed == match json_u64(t, "/seed"@) {
                    Some(s) => s,
                    None => 0u64,
                } && opponent@ == str_or(json_str(t, "/opponent"@), "?"@) && opp_elo == match json_i64(t, "/opp_elo"@) {
                    Some(e) => e,
                    None => 1000i64,
                }
            } else if kind == Some("players"@) {
                f matches Frame::Players(l) && match json_len(t, "/players"@) {
                    Some(n) => l matches Some(v) && listed_view(v@) == listed_spec(t, n),
                    None => l is None,
                }
            } else if kind == Some("challengeDeclined"@) {
                f matches Frame::Declined { by } && by@ == str_or(json_str(t, "/by"@), seq![])
            } else if kind == Some("snapshot"@) {
                f matches Frame::Snapshot(s) && snapshot_of(s, t)
            } else {
                f is Other
            }
        }),
{
    let kind = match json_str_at(text, "/type") {
        Some(k) => k,
        None => {
            return Frame::Other;
        },
    };
    if is_word(&kind, "challenged") {
        let from = match json_str_at(text, "/from") {
            Some(s) => s,
            None => String::new(),
        };
        Frame::Challenged { from }
    } else if is_word(&kind, "matchStart") {
        let seed = match json_u64_at(text, "/seed") {
            Some(s) => s,
            None => 0,
        };
        let opponent = match json_str_at(text, "/opponent") {
            Some(s) => s,
            None => "?".to_owned(),
        };
        let opp_elo = match json_i64_at(text, "/opp_elo") {
            Some(e) => e,
            None => 1000,
        };
        Frame::MatchStart { seed, opponent, opp_elo }
    } else if is_word(&kind, "players") {
        match json_len_at(text, "/players") {
            Some(n) => Frame::Players(Some(read_roster(text, n))),
            None => Frame::Players(None),
        }
    } else if is_word(&kind, "challengeDeclined") {
        let by = match json_str_at(text, "/by") {
            Some(s) => s,
            None => String::new(),
        };
        Frame::Declined { by }
    } else if is_word(&kind, "snapshot") {
        let ack = json_u64_at(text, "/ack");
        let result = match json_i64_at(text, "/result") {
            Some(r) => r,
            None => 0,
        };
        let you_bazaar = match json_bool_at(text, "/you/in_bazaar") {
            Some(b) => b,
            None => false,
        };
        let opp_bazaar = match json_bool_at(text, "/opp/in_bazaar") {
            Some(b) => b,
            None => false,
        };
        let keyframe = match json_u64s_at(text, "/keyframe") {
            Some(ns) => Some(bytes_of(ns)),
            None => None,
        };
        let spy_board = match json_i64s_at(text, "/spy_board") {
            Some(ns) => Some(words_of(ns)),
            None => None,
        };
        Frame::Snapshot(Snapshot { ack, result, you_bazaar, opp_bazaar, keyframe, spy_board })
    } else {
        Frame::Other
    }
}

/// The bot's view of a bout, kept from the server's snapshots.
#[derive(Clone, Copy, Debug)]
pub struct BotState {
    /// Ticks since the last snapshot.
    pub idle_ticks: u32,
    /// The last input the server confirmed.
    pub acked: u64,
    /// The match has a result.
    pub done: bool,
    /// The server has us, and the opponent, in the bazaar.
    pub in_bazaar: bool,
    pub opp_in_bazaar: bool,
    /// We bought and left during this bazaar visit.
    pub bazaar_bought: bool,
    /// A spy showed the opponent's stack high, and how long that reading stays fresh.
    pub opp_high: bool,
    pub spy_fresh: u32,
}

impl BotState {
    /// The view at the start of a bout.
    pub fn new() -> (s: BotState)
        ensures
            s == (BotState {
                idle_ticks: 0,
                acked: 0,
                done: false,
                in_bazaar: false,
                opp_in_bazaar: false,
                bazaar_bought: false,
                opp_high: false,
                spy_fresh: 0,
            }),
    {
        BotState {
            idle_ticks: 0,
            acked: 0,
            done: false,
            in_bazaar: false,
            opp_in_bazaar: false,
            bazaar_bought: false,
            opp_high: false,
            spy_fresh: 0,
        }
    }

    /// Take in a snapshot for our `w` by `h` board: the bout is alive again;
    /// the confirmed input moves to the snapshot's (kept when it has none); a
    /// result ends the bout; the bazaar flags follow the server, a purchase
    /// being forgotten once we are out of the bazaar; a spy board refreshes
    /// whether the opponent stands high, fresh for `fresh` ticks.
    pub fn on_snapshot(&mut self, s: &Snapshot, w: i32, h: i32, fresh: u32)
        requires
            w <= 0 || h <= 0 || w * h <= i32::MAX,
        ensures
            *final(self) == (BotState {
                idle_ticks: 0,
                acked: match s.ack {
                    Some(a) => a,
                    None => old(self).acked,
                },
                done: old(self).done || s.result != 0,
                in_bazaar: s.you_bazaar,
                opp_in_bazaar: s.opp_bazaar,
                bazaar_bought: s.you_bazaar && old(self).bazaar_bought,
                opp_high: match s.spy_board {
                    Some(g) => w > 0 && h > 0 && g@.len() >= w * h && 5 * (h - first_shown(g@, w as int, h as int, 0)) >= 3 * h,
                    None => old(self).opp_high,
                },
                spy_fresh: if s.spy_board is Some { fresh } else { old(self).spy_fresh },
            }),
    {
        self.idle_ticks = 0;
        if let Some(a) = s.ack {
            self.acked = a;
        }
        if s.result != 0 {
            self.done = true;
        }
        self.in_bazaar = s.you_bazaar;
        if !s.you_bazaar {
            self.bazaar_bought = false;
        }
        self.opp_in_bazaar = s.opp_bazaar;
        if let Some(g) = &s.spy_board {
            self.opp_high = opponent_is_high(g, w, h);
            self.spy_fresh = fresh;
        }
    }
}

} // verus!
