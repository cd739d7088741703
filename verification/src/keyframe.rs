//! The full-game keyframe: a flat, versioned `i64` record of a game's state
//! (frame, score, random stream, piece-selection state, weapon flags and
//! durations, arsenal, falling piece, pending weapons, board squares and board
//! flags), and its bounds-checked reader.

use vstd::prelude::*;
use crate::cell::{Cell, decode_spec, encode_spec, lemma_decode_encode};
use crate::constants::{BT_PIECE_HEIGHT, BT_PIECE_WIDTH};
use crate::piece::{Piece, PieceKind, kind_id, kind_of_id, lemma_kind_id_round_trip};
use crate::weapons::{WeaponToken, token_at, token_index, lemma_token_at_index};

verus! {

/// A player's scoreboard.
#[derive(Clone, Copy, Debug, PartialEq, Eq, Structural)]
pub struct Score {
    /// Drop bonus points.
    pub score: i64,
    pub op_score: i64,
    /// Lines cleared.
    pub lines: i64,
    pub op_lines: i64,
    /// Funds banked from cleared lines.
    pub funds: i64,
    pub op_funds: i64,
}

impl Default for Score {
    fn default() -> (s: Score)
        ensures
            s == (Score { score: 0, op_score: 0, lines: 0, op_lines: 0, funds: 0, op_funds: 0 }),
    {
        Score { score: 0, op_score: 0, lines: 0, op_lines: 0, funds: 0, op_funds: 0 }
    }
}

/// Keyframe format version.
pub const KEYFRAME_VERSION: i64 = 1;

/// A bounds-checked forward cursor over an `i64` keyframe: a read past the end
/// yields 0 and clears `ok`.
pub struct Cur<'a> {
    pub d: &'a [i64],
    pub i: usize,
    pub ok: bool,
}

impl<'a> Cur<'a> {
    /// Read the next word (0, and `ok` cleared, past the end).
    pub fn next(&mut self) -> (v: i64)
        ensures
            final(self).d@ == old(self).d@,
            old(self).i < old(self).d@.len() ==> v == old(self).d@[old(self).i as int] && final(self).i == old(self).i + 1
                && final(self).ok == old(self).ok,
            old(self).i >= old(self).d@.len() ==> v == 0 && final(self).i == old(self).i && !final(self).ok,
    {
        if self.i < self.d.len() {
            let v = self.d[self.i];
            self.i = self.i + 1;
            v
        } else {
            self.ok = false;
            0
        }
    }
}

/// A game's full state as it rides in a keyframe. `frame` holds, in order:
/// x, y, the spawn x and y, the fall direction, the left and right steps, the
/// base, fast and current drop intervals, the slide interval, the fast-drop
/// flag, the slide counter, the phase code (0 falling, 1 sliding, 2 over), the
/// drop and slide timers, the pause flag, the Mad Hatter and Slick Willy timers,
/// the Slick direction, the bazaar flag and the lines left until the bazaar
/// (flags: nonzero is set). `keep_bits` are the bit patterns of the piece
/// keep-probabilities; `board` holds four words per board square, row-major.
#[derive(Clone, Debug)]
pub struct Keyframe {
    pub frame: [i32; 22],
    pub score: Score,
    pub rng: u64,
    pub keep_bits: [u64; 19],
    pub hap_on: i32,
    pub broken: bool,
    pub old_piece: i32,
    pub counts: [i32; 34],
    pub remaining: [i32; 34],
    pub arsenal: [i32; 20],
    pub piece: Option<Piece>,
    pub pending: Vec<WeaponToken>,
    pub board: Vec<i32>,
    pub board_active: [i32; 34],
    pub board_upside: bool,
    pub board_computer: bool,
    pub board_idiot: bool,
    pub board_reason: i16,
}

/// A flag as a word.
pub open spec fn b64(b: bool) -> i64 {
    if b { 1 } else { 0 }
}

/// Word `n` (0..256) of a piece's grid: column-major, four words per square,
/// an empty square being four zeros.
pub open spec fn grid_word(p: Piece, n: int) -> i64 {
    let col = n / 32;
    let row = (n % 32) / 4;
    match p.cells[col][row] {
        Some(c) => encode_spec(c)[n % 4] as i64,
        None => 0,
    }
}

/// The words of a falling piece: kind id, x, y, color, rotation side,
/// orientation, orientation count, step, then its grid.
pub open spec fn piece_words(p: Piece) -> Seq<i64> {
    seq![
        kind_id(p.kind) as i64,
        p.x as i64,
        p.y as i64,
        p.color as i64,
        #[verifier::truncate] (p.rot as i32) as i64,
        p.orientation as i64,
        p.orientations as i64,
        p.state as i64,
    ] + Seq::new(256, |n: int| grid_word(p, n))
}

/// Widen `i32` words.
pub open spec fn words32(a: Seq<i32>) -> Seq<i64> {
    Seq::new(a.len(), |i: int| a[i] as i64)
}

impl Keyframe {
    /// The leading words: version, frame, score, random state, piece-selection
    /// state, weapon flags and durations, arsenal.
    pub open spec fn head_words(&self) -> Seq<i64> {
        seq![KEYFRAME_VERSION] + words32(self.frame@) + seq![
            self.score.score,
            self.score.op_score,
            self.score.lines,
            self.score.op_lines,
            self.score.funds,
            self.score.op_funds,
            self.rng as i64,
        ] + Seq::new(19, |i: int| self.keep_bits@[i] as i64) + seq![self.hap_on as i64, b64(self.broken), self.old_piece as i64]
            + words32(self.counts@) + words32(self.remaining@) + words32(self.arsenal@)
    }

    /// The falling piece's words: 1 and the piece, or a lone 0.
    pub open spec fn piece_block(&self) -> Seq<i64> {
        match self.piece {
            Some(p) => seq![1i64] + piece_words(p),
            None => seq![0i64],
        }
    }

    /// The trailing words: pending weapons (count, then indices), board
    /// squares, board flags.
    pub open spec fn tail_words(&self) -> Seq<i64> {
        seq![self.pending@.len() as i64] + Seq::new(self.pending@.len(), |i: int| token_index(self.pending@[i]) as i64)
            + words32(self.board@) + words32(self.board_active@) + seq![
            b64(self.board_upside),
            b64(self.board_computer),
            b64(self.board_idiot),
            self.board_reason as i64,
        ]
    }

    /// The keyframe's words.
    pub open spec fn words(&self) -> Seq<i64> {
        self.head_words() + self.piece_block() + self.tail_words()
    }
}

fn push_words(o: &mut Vec<i64>, a: &[i32])
    ensures
        final(o)@ == old(o)@ + words32(a@),
{
    let mut k: usize = 0;
    while k < a.len()
        invariant
            0 <= k <= a.len(),
            o@ == old(o)@ + words32(a@.take(k as int)),
        decreases a.len() - k,
    {
        o.push(a[k] as i64);
        assert(words32(a@.take(k + 1)) =~= words32(a@.take(k as int)).push(a@[k as int] as i64));
        k = k + 1;
    }
    assert(a@.take(a.len() as int) =~= a@);
}

fn push_piece(o: &mut Vec<i64>, p: &Piece)
    ensures
        final(o)@ == old(o)@ + piece_words(*p),
{
    let head = o.len();
    o.push(p.kind.id() as i64);
    o.push(p.x as i64);
    o.push(p.y as i64);
    o.push(p.color as i64);
    o.push(#[verifier::truncate] (p.rot as i32) as i64);
    o.push(p.orientation as i64);
    o.push(p.orientations as i64);
    o.push(p.state as i64);
    let ghost base = o@;
    assert(base =~= old(o)@ + seq![
        kind_id(p.kind) as i64,
        p.x as i64,
        p.y as i64,
        p.color as i64,
        (p.rot as i32) as i64,
        p.orientation as i64,
        p.orientations as i64,
        p.state as i64,
    ]);
    let mut col: usize = 0;
    while col < BT_PIECE_WIDTH
        invariant
            0 <= col <= 8,
            o@.len() == base.len() + col * 32,
            forall|n: int| 0 <= n < base.len() ==> #[trigger] o@[n] == base[n],
            forall|n: int| 0 <= n < col * 32 ==> #[trigger] o@[base.len() + n] == grid_word(*p, n),
        decreases 8 - col,
    {
        let mut row: usize = 0;
        while row < BT_PIECE_HEIGHT
            invariant
                0 <= col < 8,
                0 <= row <= 8,
                o@.len() == base.len() + col * 32 + row * 4,
                forall|n: int| 0 <= n < base.len() ==> #[trigger] o@[n] == base[n],
                forall|n: int| 0 <= n < col * 32 + row * 4 ==> #[trigger] o@[base.len() + n] == grid_word(*p, n),
            decreases 8 - row,
        {
            let q: [i32; 4] = match p.cells[col][row] {
                Some(c) => c.encode(),
                None => [0, 0, 0, 0],
            };
            let ghost at = (col * 32 + row * 4) as int;
            o.push(q[0] as i64);
            o.push(q[1] as i64);
            o.push(q[2] as i64);
            o.push(q[3] as i64);
            proof {
                assert forall|n: int| 0 <= n < at + 4 implies #[trigger] o@[base.len() + n] == grid_word(*p, n) by {
                    if n >= at {
                        assert(n / 32 == col as int);
                        assert((n % 32) / 4 == row as int);
                        assert(n % 4 == n - at);
                    }
                }
            }
            row = row + 1;
        }
        col = col + 1;
    }
    assert forall|i: int| 0 <= i < o@.len() implies o@[i] == (base + Seq::new(256, |n: int| grid_word(*p, n)))[i] by {
        if i >= base.len() {
            let n = i - base.len();
            assert(o@[base.len() + n] == grid_word(*p, n));
        }
    }
    assert(o@ =~= base + Seq::new(256, |n: int| grid_word(*p, n)));
    assert(o@ =~= old(o)@ + piece_words(*p));
}

impl Keyframe {
    fn push_head(&self, o: &mut Vec<i64>)
        ensures
            final(o)@ == old(o)@ + self.head_words(),
    {
        let ghost start = o@;
        o.push(KEYFRAME_VERSION);
        push_words(o, self.frame.as_slice());
        o.push(self.score.score);
        o.push(self.score.op_score);
        o.push(self.score.lines);
        o.push(self.score.op_lines);
        o.push(self.score.funds);
        o.push(self.score.op_funds);
        o.push(self.rng as i64);
        let ghost before_keep = o@;
        let mut k: usize = 0;
        while k < 19
            invariant
                0 <= k <= 19,
                o@ == before_keep + Seq::new(k as nat, |i: int| self.keep_bits@[i] as i64),
            decreases 19 - k,
        {
            o.push(self.keep_bits[k] as i64);
            assert(Seq::new((k + 1) as nat, |i: int| self.keep_bits@[i] as i64) =~= Seq::new(k as nat, |i: int| self.keep_bits@[i] as i64).push(self.keep_bits@[k as int] as i64));
            k = k + 1;
        }
        o.push(self.hap_on as i64);
        o.push(if self.broken { 1 } else { 0 });
        o.push(self.old_piece as i64);
        push_words(o, self.counts.as_slice());
        push_words(o, self.remaining.as_slice());
        push_words(o, self.arsenal.as_slice());
        assert(o@ =~= start + self.head_words());
    }

    fn push_tail(&self, o: &mut Vec<i64>)
        ensures
            final(o)@ == old(o)@ + self.tail_words(),
    {
        let ghost start = o@;
        o.push(self.pending.len() as i64);
        let ghost before_pending = o@;
        let mut k: usize = 0;
        while k < self.pending.len()
            invariant
                0 <= k <= self.pending@.len(),
                o@ == before_pending + Seq::new(k as nat, |i: int| token_index(self.pending@[i]) as i64),
            decreases self.pending@.len() - k,
        {
            o.push(self.pending[k].index() as i64);
            assert(Seq::new((k + 1) as nat, |i: int| token_index(self.pending@[i]) as i64) =~= Seq::new(k as nat, |i: int| token_index(self.pending@[i]) as i64).push(token_index(self.pending@[k as int]) as i64));
            k = k + 1;
        }
        push_words(o, self.board.as_slice());
        push_words(o, self.board_active.as_slice());
        o.push(if self.board_upside { 1 } else { 0 });
        o.push(if self.board_computer { 1 } else { 0 });
        o.push(if self.board_idiot { 1 } else { 0 });
        o.push(self.board_reason as i64);
        assert(o@ =~= start + self.tail_words());
    }

    /// The keyframe as words (see [`Keyframe::words`]).
    pub fn encode(&self) -> (o: Vec<i64>)
        ensures
            o@ == self.words(),
    {
        let mut o: Vec<i64> = Vec::new();
        self.push_head(&mut o);
        match &self.piece {
            Some(p) => {
                o.push(1);
                push_piece(&mut o, p);
            },
            None => {
                o.push(0);
            },
        }
        self.push_tail(&mut o);
        assert(o@ =~= self.words());
        o
    }
}

/// Where the pending-weapon count sits in keyframe words `d`: right after the
/// piece flag when it is 0, after the piece otherwise.
pub open spec fn pending_at(d: Seq<i64>) -> int {
    if d[140] != 0 {
        405
    } else {
        141
    }
}

/// The four words of grid square `(col, row)` of the piece stored in `d`.
pub open spec fn square_words(d: Seq<i64>, col: int, row: int) -> Seq<i32> {
    let at = 149 + col * 32 + row * 4;
    seq![d[at] as i32, d[at + 1] as i32, d[at + 2] as i32, d[at + 3] as i32]
}

/// The stored piece's header is sound: a known kind, a rotation side of 0, 3,
/// 4 or 8, a positive orientation count and an orientation below it.
pub open spec fn piece_header_ok(d: Seq<i64>) -> bool {
    let rot = d[145] as usize;
    &&& kind_of_id(d[141] as i32) is Some
    &&& (rot == 0 || rot == 3 || rot == 4 || rot == 8)
    &&& d[147] as i32 > 0
    &&& 0 <= d[146] as i32
    &&& (d[146] as i32) < (d[147] as i32)
}

/// Words `d` are a well-formed keyframe for a board of `board_len` words:
/// the version matches, the phase code is 0, 1 or 2, a stored piece has a
/// sound header, at most 1024 weapons are pending and each names a weapon,
/// and the words end exactly after the board flags.
pub open spec fn well_formed(d: Seq<i64>, board_len: int) -> bool {
    let p = pending_at(d);
    &&& d.len() > 140
    &&& d[0] == KEYFRAME_VERSION
    &&& 0 <= d[14] <= 2
    &&& d[140] != 0 ==> d.len() > 148 && piece_header_ok(d)
    &&& d.len() > p
    &&& 0 <= d[p] <= 1024
    &&& d.len() == p + 1 + d[p] + board_len + 38
    &&& forall|k: int| 0 <= k < d[p] ==> 0 <= #[trigger] (d[p + 1 + k] as i32) < 34
}

impl Piece {
    /// This piece is the one stored in keyframe words `d`.
    pub open spec fn read_from(&self, d: Seq<i64>) -> bool {
        &&& kind_of_id(d[141] as i32) == Some(self.kind)
        &&& self.x == d[142] as i32
        &&& self.y == d[143] as i32
        &&& self.color == d[144] as i32
        &&& self.rot == d[145] as usize
        &&& self.orientation == d[146] as i32
        &&& self.orientations == d[147] as i32
        &&& self.state == d[148] as i32
        &&& forall|col: int, row: int| 0 <= col < 8 && 0 <= row < 8 ==> #[trigger] self.cells[col][row] == decode_spec(square_words(d, col, row))
    }
}

impl Keyframe {
    /// This keyframe is the one read from words `d` for a board of `board_len`
    /// words (words narrowed to their field's width; flags are nonzero words).
    pub open spec fn read_from(&self, d: Seq<i64>, board_len: int) -> bool {
        let p = pending_at(d);
        let n = d[p];
        let b = p + 1 + n;
        &&& self.frame@ == Seq::new(22, |i: int| d[1 + i] as i32)
        &&& self.score == (Score { score: d[23], op_score: d[24], lines: d[25], op_lines: d[26], funds: d[27], op_funds: d[28] })
        &&& self.rng == d[29] as u64
        &&& self.keep_bits@ == Seq::new(19, |i: int| d[30 + i] as u64)
        &&& self.hap_on == d[49] as i32
        &&& self.broken == (d[50] != 0)
        &&& self.old_piece == d[51] as i32
        &&& self.counts@ == Seq::new(34, |i: int| d[52 + i] as i32)
        &&& self.remaining@ == Seq::new(34, |i: int| d[86 + i] as i32)
        &&& self.arsenal@ == Seq::new(20, |i: int| d[120 + i] as i32)
        &&& if d[140] != 0 {
            self.piece matches Some(pc) && pc.read_from(d)
        } else {
            self.piece is None
        }
        &&& self.pending@ == Seq::new(n as nat, |i: int| token_at(d[p + 1 + i] as i32 as int))
        &&& self.board@ == Seq::new(board_len as nat, |i: int| d[b + i] as i32)
        &&& self.board_active@ == Seq::new(34, |i: int| d[b + board_len + i] as i32)
        &&& self.board_upside == (d[b + board_len + 34] != 0)
        &&& self.board_computer == (d[b + board_len + 35] != 0)
        &&& self.board_idiot == (d[b + board_len + 36] != 0)
        &&& self.board_reason == d[b + board_len + 37] as i16
    }
}

impl<'a> Cur<'a> {
    /// The cursor has made `pos` reads: all in range when `ok`, and one past
    /// the end otherwise.
    pub open spec fn after(&self, pos: int) -> bool {
        &&& 0 <= pos
        &&& self.i <= self.d@.len()
        &&& self.ok ==> self.i == pos
        &&& !self.ok ==> self.d@.len() < pos && self.i == self.d@.len()
    }
}

fn read_n<const N: usize>(c: &mut Cur, Ghost(pos): Ghost<int>) -> (a: [i64; N])
    requires
        old(c).after(pos),
    ensures
        final(c).d@ == old(c).d@,
        final(c).after(pos + N),
        final(c).ok ==> old(c).ok,
        final(c).ok ==> forall|k: int| 0 <= k < N ==> #[trigger] a@[k] == old(c).d@[pos + k],
{
    let mut a: [i64; N] = [0i64; N];
    let mut k: usize = 0;
    while k < N
        invariant
            c.d@ == old(c).d@,
            0 <= k <= N,
            c.after(pos + k),
            c.ok ==> old(c).ok,
            c.ok ==> forall|m: int| 0 <= m < k ==> #[trigger] a@[m] == old(c).d@[pos + m],
        decreases N - k,
    {
        let v = c.next();
        a[k] = v;
        k = k + 1;
    }
    a
}

/// The fields before the piece flag.
pub struct Front {
    pub frame: [i32; 22],
    pub score: Score,
    pub rng: u64,
    pub keep_bits: [u64; 19],
    pub hap_on: i32,
    pub broken: bool,
    pub old_piece: i32,
    pub counts: [i32; 34],
    pub remaining: [i32; 34],
    pub arsenal: [i32; 20],
}

/// The words before the piece flag are sound: enough of them, the version
/// matches and the phase code is 0, 1 or 2.
pub open spec fn front_ok(d: Seq<i64>) -> bool {
    d.len() >= 140 && d[0] == KEYFRAME_VERSION && 0 <= d[14] <= 2
}

impl Front {
    /// These are the fields stored before the piece flag in words `d`.
    pub open spec fn read_from(&self, d: Seq<i64>) -> bool {
        &&& self.frame@ == Seq::new(22, |i: int| d[1 + i] as i32)
        &&& self.score == (Score { score: d[23], op_score: d[24], lines: d[25], op_lines: d[26], funds: d[27], op_funds: d[28] })
        &&& self.rng == d[29] as u64
        &&& self.keep_bits@ == Seq::new(19, |i: int| d[30 + i] as u64)
        &&& self.hap_on == d[49] as i32
        &&& self.broken == (d[50] != 0)
        &&& self.old_piece == d[51] as i32
        &&& self.counts@ == Seq::new(34, |i: int| d[52 + i] as i32)
        &&& self.remaining@ == Seq::new(34, |i: int| d[86 + i] as i32)
        &&& self.arsenal@ == Seq::new(20, |i: int| d[120 + i] as i32)
    }
}

fn narrow<const N: usize>(a: [i64; N]) -> (r: [i32; N])
    ensures
        forall|k: int| 0 <= k < N ==> #[trigger] r@[k] == a@[k] as i32,
{
    let mut r: [i32; N] = [0i32; N];
    let mut k: usize = 0;
    while k < N
        invariant
            0 <= k <= N,
            forall|m: int| 0 <= m < k ==> #[trigger] r@[m] == a@[m] as i32,
        decreases N - k,
    {
        r[k] = #[verifier::truncate] (a[k] as i32);
        k = k + 1;
    }
    r
}

fn read_front(c: &mut Cur) -> (r: Option<Front>)
    requires
        old(c).after(0),
    ensures
        final(c).d@ == old(c).d@,
        r is Some ==> final(c).after(140),
        r is None ==> !front_ok(old(c).d@),
        r matches Some(f) ==> (final(c).ok ==> front_ok(old(c).d@) && f.read_from(old(c).d@)),
{
    let ghost d = c.d@;
    let version = c.next();
    if version != KEYFRAME_VERSION {
        return None;
    }
    let raw = read_n::<22>(c, Ghost(1));
    if !(0 <= raw[13] && raw[13] <= 2) {
        return None;
    }
    let frame = narrow::<22>(raw);
    let s = read_n::<6>(c, Ghost(23));
    let score = Score { score: s[0], op_score: s[1], lines: s[2], op_lines: s[3], funds: s[4], op_funds: s[5] };
    let rng = #[verifier::truncate] (c.next() as u64);
    let kraw = read_n::<19>(c, Ghost(30));
    let mut keep_bits: [u64; 19] = [0u64; 19];
    let mut k: usize = 0;
    while k < 19
        invariant
            0 <= k <= 19,
            forall|m: int| 0 <= m < k ==> #[trigger] keep_bits@[m] == kraw@[m] as u64,
        decreases 19 - k,
    {
        keep_bits[k] = #[verifier::truncate] (kraw[k] as u64);
        k = k + 1;
    }
    let hap_on = #[verifier::truncate] (c.next() as i32);
    let broken = c.next() != 0;
    let old_piece = #[verifier::truncate] (c.next() as i32);
    let counts = narrow::<34>(read_n::<34>(c, Ghost(52)));
    let remaining = narrow::<34>(read_n::<34>(c, Ghost(86)));
    let arsenal = narrow::<20>(read_n::<20>(c, Ghost(120)));
    if !c.ok {
        return None;
    }
    let f = Front { frame, score, rng, keep_bits, hap_on, broken, old_piece, counts, remaining, arsenal };
    proof {
        assert(f.frame@ =~= Seq::new(22, |i: int| d[1 + i] as i32));
        assert(f.keep_bits@ =~= Seq::new(19, |i: int| d[30 + i] as u64));
        assert(f.counts@ =~= Seq::new(34, |i: int| d[52 + i] as i32));
        assert(f.remaining@ =~= Seq::new(34, |i: int| d[86 + i] as i32));
        assert(f.arsenal@ =~= Seq::new(20, |i: int| d[120 + i] as i32));
    }
    Some(f)
}

fn read_piece(c: &mut Cur) -> (r: Option<Piece>)
    requires
        old(c).after(141),
    ensures
        final(c).d@ == old(c).d@,
        r is Some ==> final(c).after(405),
        r is None ==> !(old(c).ok && old(c).d@.len() > 148 && piece_header_ok(old(c).d@)),
        r matches Some(p) ==> (final(c).ok ==> p.read_from(old(c).d@)),
        r is Some ==> (final(c).ok ==> old(c).d@.len() > 148 && piece_header_ok(old(c).d@)),
{
    let ghost d = c.d@;
    let ghost ok0 = c.ok;
    let id = c.next();
    let kind = match PieceKind::from_id(#[verifier::truncate] (id as i32)) {
        Some(k) => k,
        None => {
            return None;
        },
    };
    let px = #[verifier::truncate] (c.next() as i32);
    let py = #[verifier::truncate] (c.next() as i32);
    let color = #[verifier::truncate] (c.next() as i32);
    let rot = #[verifier::truncate] (c.next() as usize);
    let orientation = #[verifier::truncate] (c.next() as i32);
    let orientations = #[verifier::truncate] (c.next() as i32);
    let state = #[verifier::truncate] (c.next() as i32);
    if !(rot == 0 || rot == 3 || rot == 4 || rot == 8) || orientations <= 0 || orientation < 0 || orientation >= orientations {
        return None;
    }
    let ghost hdr_ok = c.ok;
    let mut cells: [[Option<Cell>; BT_PIECE_HEIGHT]; BT_PIECE_WIDTH] = [[None; BT_PIECE_HEIGHT]; BT_PIECE_WIDTH];
    let mut col: usize = 0;
    while col < BT_PIECE_WIDTH
        invariant
            c.d@ == d,
            0 <= col <= 8,
            c.after(149 + col * 32),
            c.ok ==> hdr_ok,
            c.ok ==> forall|a: int, b: int| 0 <= a < col && 0 <= b < 8 ==> #[trigger] cells[a][b] == decode_spec(square_words(d, a, b)),
        decreases 8 - col,
    {
        let mut row: usize = 0;
        while row < BT_PIECE_HEIGHT
            invariant
                c.d@ == d,
                0 <= col < 8,
                0 <= row <= 8,
                c.after(149 + col * 32 + row * 4),
                c.ok ==> hdr_ok,
                c.ok ==> forall|a: int, b: int| (0 <= a < col && 0 <= b < 8 || a == col && 0 <= b < row) ==> #[trigger] cells[a][b] == decode_spec(square_words(d, a, b)),
            decreases 8 - row,
        {
            let q0 = #[verifier::truncate] (c.next() as i32);
            let q1 = #[verifier::truncate] (c.next() as i32);
            let q2 = #[verifier::truncate] (c.next() as i32);
            let q3 = #[verifier::truncate] (c.next() as i32);
            let q: [i32; 4] = [q0, q1, q2, q3];
            let v = Cell::decode(q);
            proof {
                if c.ok {
                    assert(q@ =~= square_words(d, col as int, row as int));
                }
            }
            cells[col][row] = v;
            row = row + 1;
        }
        col = col + 1;
    }
    Some(Piece { kind, x: px, y: py, color, rot, orientation, orientations, state, cells })
}

/// The fields after the piece.
pub struct Tail {
    pub pending: Vec<WeaponToken>,
    pub board: Vec<i32>,
    pub board_active: [i32; 34],
    pub board_upside: bool,
    pub board_computer: bool,
    pub board_idiot: bool,
    pub board_reason: i16,
}

/// The words from `p` on are sound: at most 1024 pending weapons, each naming
/// a weapon, then `board_len` board words and the board flags, and nothing more.
pub open spec fn tail_ok(d: Seq<i64>, p: int, board_len: int) -> bool {
    &&& d.len() > p
    &&& 0 <= d[p] <= 1024
    &&& d.len() == p + 1 + d[p] + board_len + 38
    &&& forall|k: int| 0 <= k < d[p] ==> 0 <= #[trigger] (d[p + 1 + k] as i32) < 34
}

impl Tail {
    /// These are the fields stored from word `p` on in words `d`.
    pub open spec fn read_from(&self, d: Seq<i64>, p: int, board_len: int) -> bool {
        let n = d[p];
        let b = p + 1 + n;
        &&& self.pending@ == Seq::new(n as nat, |i: int| token_at(d[p + 1 + i] as i32 as int))
        &&& self.board@ == Seq::new(board_len as nat, |i: int| d[b + i] as i32)
        &&& self.board_active@ == Seq::new(34, |i: int| d[b + board_len + i] as i32)
        &&& self.board_upside == (d[b + board_len + 34] != 0)
        &&& self.board_computer == (d[b + board_len + 35] != 0)
        &&& self.board_idiot == (d[b + board_len + 36] != 0)
        &&& self.board_reason == d[b + board_len + 37] as i16
    }
}

fn read_tail(c: &mut Cur, board_len: usize, Ghost(p): Ghost<int>) -> (r: Option<Tail>)
    requires
        old(c).after(p),
    ensures
        final(c).d@ == old(c).d@,
        r is None ==> !(old(c).ok && tail_ok(old(c).d@, p, board_len as int)),
        r matches Some(t) ==> final(c).after(p + 1 + t.pending@.len() + board_len + 38),
        r matches Some(t) ==> (old(c).ok && old(c).d@.len() > p ==> t.pending@.len() == old(c).d@[p]),
        r matches Some(t) ==> (final(c).ok ==> {
            &&& t.read_from(old(c).d@, p, board_len as int)
            &&& 0 <= old(c).d@[p] <= 1024
            &&& t.pending@.len() == old(c).d@[p]
            &&& forall|k: int| 0 <= k < old(c).d@[p] ==> 0 <= #[trigger] (old(c).d@[p + 1 + k] as i32) < 34
        }),
{
    let ghost d = c.d@;
    let n = c.next();
    if !(0 <= n && n <= 1024) {
        return None;
    }
    let ghost n_ok = c.ok;
    let mut pending: Vec<WeaponToken> = Vec::new();
    let mut k: i64 = 0;
    while k < n
        invariant
            c.d@ == d,
            d == old(c).d@,
            n_ok ==> old(c).ok,
            0 <= k <= n <= 1024,
            pending@.len() == k,
            c.after(p + 1 + k),
            c.ok ==> n_ok,
            n_ok ==> n == d[p],
            c.ok ==> forall|m: int| 0 <= m < k ==> 0 <= #[trigger] (d[p + 1 + m] as i32) < 34,
            c.ok ==> forall|m: int| 0 <= m < k ==> #[trigger] pending@[m] == token_at(d[p + 1 + m] as i32 as int),
        decreases n - k,
    {
        let ghost ok_before = c.ok;
        let v = c.next();
        assert(!c.ok ==> v == 0);
        match WeaponToken::from_index(#[verifier::truncate] (v as i32)) {
            Some(t) => {
                pending.push(t);
            },
            None => {
                return None;
            },
        }
        k = k + 1;
    }
    let mut board: Vec<i32> = Vec::new();
    let mut m: usize = 0;
    while m < board_len
        invariant
            c.d@ == d,
            0 <= m <= board_len,
            board@.len() == m,
            c.after(p + 1 + n + m),
            c.ok ==> n_ok,
            c.ok ==> forall|j: int| 0 <= j < m ==> #[trigger] board@[j] == d[p + 1 + n + j] as i32,
        decreases board_len - m,
    {
        let v = c.next();
        board.push(#[verifier::truncate] (v as i32));
        m = m + 1;
    }
    let ghost b = p + 1 + n + board_len;
    let board_active = narrow::<34>(read_n::<34>(c, Ghost(b)));
    let board_upside = c.next() != 0;
    let board_computer = c.next() != 0;
    let board_idiot = c.next() != 0;
    let board_reason = #[verifier::truncate] (c.next() as i16);
    let t = Tail { pending, board, board_active, board_upside, board_computer, board_idiot, board_reason };
    proof {
        if c.ok {
            assert(t.pending@ =~= Seq::new(n as nat, |i: int| token_at(d[p + 1 + i] as i32 as int)));
            assert(t.board@ =~= Seq::new(board_len as nat, |i: int| d[p + 1 + n + i] as i32));
            assert(t.board_active@ =~= Seq::new(34, |i: int| d[b + i] as i32));
        }
    }
    Some(t)
}

impl Keyframe {
    /// Read a keyframe for a board of `board_len` words from `data`: `Some`
    /// exactly when the words are well formed (see [`well_formed`]), holding
    /// the fields they store (see [`Keyframe::read_from`]).
    pub fn decode(data: &[i64], board_len: usize) -> (r: Option<Keyframe>)
        ensures
            r is Some <==> well_formed(data@, board_len as int),
            r matches Some(k) ==> k.read_from(data@, board_len as int),
    {
        let ghost d = data@;
        let mut c = Cur { d: data, i: 0, ok: true };
        let f = match read_front(&mut c) {
            Some(f) => f,
            None => {
                return None;
            },
        };
        let ghost ok140 = c.ok;
        let flag = c.next();
        let ghost p: int = if flag != 0 { 405 } else { 141 };
        let piece = if flag != 0 {
            match read_piece(&mut c) {
                Some(pc) => Some(pc),
                None => {
                    return None;
                },
            }
        } else {
            None
        };
        let ghost okp = c.ok;
        let t = match read_tail(&mut c, board_len, Ghost(p)) {
            Some(t) => t,
            None => {
                return None;
            },
        };
        proof {
            if well_formed(d, board_len as int) {
                assert(ok140);
                assert(flag == d[140]);
                assert(p == pending_at(d));
                assert(okp);
                assert(t.pending@.len() == d[p]);
            }
        }
        if !c.ok || c.i != data.len() {
            return None;
        }
        let k = Keyframe {
            frame: f.frame,
            score: f.score,
            rng: f.rng,
            keep_bits: f.keep_bits,
            hap_on: f.hap_on,
            broken: f.broken,
            old_piece: f.old_piece,
            counts: f.counts,
            remaining: f.remaining,
            arsenal: f.arsenal,
            piece,
            pending: t.pending,
            board: t.board,
            board_active: t.board_active,
            board_upside: t.board_upside,
            board_computer: t.board_computer,
            board_idiot: t.board_idiot,
            board_reason: t.board_reason,
        };
        proof {
            assert(flag == d[140]);
            assert(p == pending_at(d));
        }
        Some(k)
    }
}

impl Keyframe {
    /// The keyframe can be written: its phase code is 0, 1 or 2, a falling
    /// piece has a rotation side of 0, 3, 4 or 8 and an orientation in range, at
    /// most 1024 weapons are pending, and the board has `board_len` words.
    pub open spec fn writable(&self, board_len: int) -> bool {
        &&& 0 <= self.frame@[13] <= 2
        &&& self.piece matches Some(p) ==> {
            &&& (p.rot == 0 || p.rot == 3 || p.rot == 4 || p.rot == 8)
            &&& p.orientations > 0
            &&& 0 <= p.orientation < p.orientations
        }
        &&& self.pending@.len() <= 1024
        &&& self.board@.len() == board_len
    }
}

/// A `u64` survives a trip through `i64`.
proof fn lemma_bits_round_trip(x: u64)
    ensures
        (x as i64) as u64 == x,
{
    assert((x as i64) as u64 == x) by (bit_vector);
}

proof fn lemma_head_read_back(k: &Keyframe, d: Seq<i64>)
    requires
        d.len() >= 140,
        d.subrange(0, 140) == k.head_words(),
    ensures
        front_ok(d) <== 0 <= k.frame@[13] <= 2,
        d[0] == KEYFRAME_VERSION,
        d[14] == k.frame@[13] as i64,
        Seq::new(22, |i: int| d[1 + i] as i32) == k.frame@,
        (Score { score: d[23], op_score: d[24], lines: d[25], op_lines: d[26], funds: d[27], op_funds: d[28] }) == k.score,
        d[29] as u64 == k.rng,
        Seq::new(19, |i: int| d[30 + i] as u64) == k.keep_bits@,
        d[49] as i32 == k.hap_on,
        (d[50] != 0) == k.broken,
        d[51] as i32 == k.old_piece,
        Seq::new(34, |i: int| d[52 + i] as i32) == k.counts@,
        Seq::new(34, |i: int| d[86 + i] as i32) == k.remaining@,
        Seq::new(20, |i: int| d[120 + i] as i32) == k.arsenal@,
{
    let h = k.head_words();
    assert forall|i: int| 0 <= i < 140 implies d[i] == h[i] by {
        assert(d.subrange(0, 140)[i] == d[i]);
    }
    assert(Seq::new(22, |i: int| d[1 + i] as i32) =~= k.frame@) by {
        assert forall|i: int| 0 <= i < 22 implies d[1 + i] as i32 == k.frame@[i] by {
            assert(d[1 + i] == h[1 + i]);
        }
    }
    assert(Seq::new(19, |i: int| d[30 + i] as u64) =~= k.keep_bits@) by {
        assert forall|i: int| 0 <= i < 19 implies d[30 + i] as u64 == k.keep_bits@[i] by {
            assert(d[30 + i] == h[30 + i]);
            lemma_bits_round_trip(k.keep_bits@[i]);
        }
    }
    lemma_bits_round_trip(k.rng);
    assert(Seq::new(34, |i: int| d[52 + i] as i32) =~= k.counts@) by {
        assert forall|i: int| 0 <= i < 34 implies d[52 + i] as i32 == k.counts@[i] by {
            assert(d[52 + i] == h[52 + i]);
        }
    }
    assert(Seq::new(34, |i: int| d[86 + i] as i32) =~= k.remaining@) by {
        assert forall|i: int| 0 <= i < 34 implies d[86 + i] as i32 == k.remaining@[i] by {
            assert(d[86 + i] == h[86 + i]);
        }
    }
    assert(Seq::new(20, |i: int| d[120 + i] as i32) =~= k.arsenal@) by {
        assert forall|i: int| 0 <= i < 20 implies d[120 + i] as i32 == k.arsenal@[i] by {
            assert(d[120 + i] == h[120 + i]);
        }
    }
    assert(d[14] == h[14]);
    assert(d[23] == h[23] && d[24] == h[24] && d[25] == h[25] && d[26] == h[26] && d[27] == h[27] && d[28] == h[28]);
    assert(d[29] == h[29] && d[49] == h[49] && d[50] == h[50] && d[51] == h[51]);
}

proof fn lemma_grid_position(col: int, row: int, q: int)
    requires
        0 <= col < 8,
        0 <= row < 8,
        0 <= q < 4,
    ensures
        (col * 32 + row * 4 + q) / 32 == col,
        ((col * 32 + row * 4 + q) % 32) / 4 == row,
        (col * 32 + row * 4 + q) % 4 == q,
        0 <= col * 32 + row * 4 + q < 256,
{
    assert((col * 32 + row * 4 + q) / 32 == col) by (nonlinear_arith)
        requires
            0 <= col < 8,
            0 <= row < 8,
            0 <= q < 4,
    ;
    assert((col * 32 + row * 4 + q) % 32 == row * 4 + q) by (nonlinear_arith)
        requires
            0 <= col < 8,
            0 <= row < 8,
            0 <= q < 4,
    ;
    assert((row * 4 + q) / 4 == row) by (nonlinear_arith)
        requires
            0 <= row < 8,
            0 <= q < 4,
    ;
    assert((col * 32 + row * 4 + q) % 4 == q) by (nonlinear_arith)
        requires
            0 <= col < 8,
            0 <= row < 8,
            0 <= q < 4,
    ;
}

proof fn lemma_piece_read_back(p: Piece, d: Seq<i64>)
    requires
        d.len() >= 405,
        d.subrange(140, 405) == seq![1i64] + piece_words(p),
        p.rot == 0 || p.rot == 3 || p.rot == 4 || p.rot == 8,
        p.orientations > 0,
        0 <= p.orientation < p.orientations,
    ensures
        d[140] != 0,
        piece_header_ok(d),
        p.read_from(d),
{
    let w = seq![1i64] + piece_words(p);
    assert forall|i: int| 140 <= i < 405 implies d[i] == w[i - 140] by {
        assert(d.subrange(140, 405)[i - 140] == d[i]);
    }
    assert(d[140] == 1);
    assert(d[141] == kind_id(p.kind) as i64);
    lemma_kind_id_round_trip(p.kind, 0);
    assert(d[145] == (p.rot as i32) as i64);
    assert forall|n: int| 0 <= n < 256 implies #[trigger] d[149 + n] == grid_word(p, n) by {
        assert(d[149 + n] == w[9 + n]);
    }
    assert forall|col: int, row: int| 0 <= col < 8 && 0 <= row < 8 implies #[trigger] p.cells[col][row] == decode_spec(square_words(d, col, row)) by {
        lemma_square_read_back(p, d, col, row);
    }
}

proof fn lemma_square_read_back(p: Piece, d: Seq<i64>, col: int, row: int)
    requires
        d.len() >= 405,
        0 <= col < 8,
        0 <= row < 8,
        forall|n: int| 0 <= n < 256 ==> #[trigger] d[149 + n] == grid_word(p, n),
    ensures
        p.cells[col][row] == decode_spec(square_words(d, col, row)),
{
    let base = col * 32 + row * 4;
    lemma_grid_position(col, row, 0);
    lemma_grid_position(col, row, 1);
    lemma_grid_position(col, row, 2);
    lemma_grid_position(col, row, 3);
    assert(d[149 + base] == grid_word(p, base));
    assert(d[149 + (base + 1)] == grid_word(p, base + 1));
    assert(d[149 + (base + 2)] == grid_word(p, base + 2));
    assert(d[149 + (base + 3)] == grid_word(p, base + 3));
    match p.cells[col][row] {
        Some(c) => {
            lemma_decode_encode(c);
            assert(square_words(d, col, row) =~= encode_spec(c));
        },
        None => {
            assert(square_words(d, col, row) =~= seq![0i32, 0i32, 0i32, 0i32]);
        },
    }
}

proof fn lemma_tail_read_back(k: &Keyframe, d: Seq<i64>, p: int, board_len: int)
    requires
        0 <= p,
        d.len() == p + k.tail_words().len(),
        d.subrange(p, d.len() as int) == k.tail_words(),
        k.pending@.len() <= 1024,
        k.board@.len() == board_len,
    ensures
        tail_ok(d, p, board_len),
        d[p] == k.pending@.len(),
        Seq::new(d[p] as nat, |i: int| token_at(d[p + 1 + i] as i32 as int)) == k.pending@,
        Seq::new(board_len as nat, |i: int| d[p + 1 + d[p] + i] as i32) == k.board@,
        Seq::new(34, |i: int| d[p + 1 + d[p] + board_len + i] as i32) == k.board_active@,
        (d[p + 1 + d[p] + board_len + 34] != 0) == k.board_upside,
        (d[p + 1 + d[p] + board_len + 35] != 0) == k.board_computer,
        (d[p + 1 + d[p] + board_len + 36] != 0) == k.board_idiot,
        d[p + 1 + d[p] + board_len + 37] as i16 == k.board_reason,
{
    let t = k.tail_words();
    let n = k.pending@.len() as int;
    assert forall|i: int| p <= i < d.len() implies d[i] == t[i - p] by {
        assert(d.subrange(p, d.len() as int)[i - p] == d[i]);
    }
    assert(d[p] == n);
    assert forall|i: int| 0 <= i < n implies #[trigger] d[p + 1 + i] == token_index(k.pending@[i]) as i64 by {
        assert(d[p + 1 + i] == t[1 + i]);
    }
    assert forall|i: int| 0 <= i < n implies 0 <= #[trigger] (d[p + 1 + i] as i32) < 34 && token_at(d[p + 1 + i] as i32 as int) == k.pending@[i] by {
        assert(d[p + 1 + i] == token_index(k.pending@[i]) as i64);
        lemma_token_at_index(k.pending@[i]);
    }
    assert(Seq::new(n as nat, |i: int| token_at(d[p + 1 + i] as i32 as int)) =~= k.pending@);
    let b = p + 1 + n;
    assert(Seq::new(board_len as nat, |i: int| d[b + i] as i32) =~= k.board@) by {
        assert forall|i: int| 0 <= i < board_len implies d[b + i] as i32 == k.board@[i] by {
            assert(d[b + i] == t[1 + n + i]);
        }
    }
    assert(Seq::new(34, |i: int| d[b + board_len + i] as i32) =~= k.board_active@) by {
        assert forall|i: int| 0 <= i < 34 implies d[b + board_len + i] as i32 == k.board_active@[i] by {
            assert(d[b + board_len + i] == t[1 + n + board_len + i]);
        }
    }
    assert(d[b + board_len + 34] == t[1 + n + board_len + 34]);
    assert(d[b + board_len + 35] == t[1 + n + board_len + 35]);
    assert(d[b + board_len + 36] == t[1 + n + board_len + 36]);
    assert(d[b + board_len + 37] == t[1 + n + board_len + 37]);
}

/// Writing a keyframe and reading it back gives the same keyframe: the words
/// are well formed, and they store exactly its fields.
pub proof fn lemma_keyframe_round_trip(k: Keyframe, board_len: int)
    requires
        k.writable(board_len),
    ensures
        well_formed(k.words(), board_len),
        k.read_from(k.words(), board_len),
{
    let d = k.words();
    let h = k.head_words();
    let pb = k.piece_block();
    let t = k.tail_words();
    assert(h.len() == 140);
    let p: int = 140 + pb.len() as int;
    assert(d.subrange(0, 140) =~= h);
    lemma_head_read_back(&k, d);
    assert(d.subrange(140, p) =~= pb);
    match k.piece {
        Some(pc) => {
            assert(pb.len() == 265);
            lemma_piece_read_back(pc, d);
        },
        None => {
            assert(d[140] == pb[0]);
        },
    }
    assert(p == pending_at(d));
    assert(d.subrange(p, d.len() as int) =~= t);
    lemma_tail_read_back(&k, d, p, board_len);
}

} // verus!
