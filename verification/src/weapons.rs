//! Weapon tokens, the active-weapon flags, and the weapon database.
//!
//! A token's index (0..34, in declaration order) is its identity on the arsenal
//! and wire protocol and its position in [`weapon_table`].

use vstd::prelude::*;

verus! {

/// Number of weapon tokens.
pub const BT_MAX_WEAPONS: usize = 34;

/// The 34 weapons, in protocol order.
#[derive(Clone, Copy, PartialEq, Eq, Debug, Structural)]
pub enum WeaponToken {
    /// Floods the opponent with hard-to-place "weird" pieces.
    FearedWeird,
    /// Replaces the opponent's box piece with a hollow 4x4 ring.
    FourByFour,
    /// The opponent's pieces spin nonstop (Mad Hatter).
    Hatter,
    /// Flips the opponent's board upside-down and reverses their controls.
    Upbyside,
    /// Opens a hole in the middle of the opponent's floor (Fallout).
    FallOut,
    /// Exchanges the two boards (cross-player; never queued).
    Swap,
    /// Every line you clear raises the opponent's stack one row (Lawyer's Delite).
    Lawyers,
    /// Raises the opponent's stack one solid row with a random gap.
    RiseUp,
    /// Mirrors the opponent's board left↔right.
    FlipOut,
    /// Doubles the opponent's drop speed (Speedy Gonzales).
    Speedy,
    /// Removes one of the opponent's blocks at random.
    Missing,
    /// Drops a random block onto the opponent's board (Piece It Together).
    PieceIt,
    /// Bombs out a region of the opponent's board (Blind Cleric).
    Blind,
    /// Taxes the opponent's earned funds to you (Mondale '96).
    Mondale,
    /// Seizes all the opponent's funds and hands them to you (Keating Five).
    Keating,
    /// Doubles the prices at the opponent's bazaar (Carter Years).
    Carter,
    /// Negates the opponent's funds (Reagan Era).
    Reagan,
    /// Cheapest spy, shortest reveal of the opponent's board/funds (William Ames).
    Ames,
    /// Mid-cost spy, longer reveal (Ace of Spies).
    Ace,
    /// Priciest spy, longest reveal (The Condor).
    Condor,
    /// Gives the opponent a smiley piece (Have a Nice Day).
    NiceDay,
    /// Denies the opponent long pieces (So Long).
    SoLong,
    /// Denies the opponent dice (No Dice).
    NoDice,
    /// Drops an INVISIBLE block onto the opponent's board (Bug Report).
    Bug,
    /// Squeezes the opponent's board to a narrow neck (Bottle neck).
    Bottle,
    /// Removes the opponent's slide window — pieces lock instantly (Slide Denied).
    NoSlide,
    /// Exchanges the two arsenals (cross-player Lazy Susan; never queued).
    Susan,
    /// Halves the opponent's drop speed (Meadow).
    Meadow,
    /// some simply fizzle (see `mirror_nullifies`).
    Mirror,
    /// Cloaks every block on the opponent's board (Twilight Zone).
    Twilight,
    /// The opponent's piece slides side to side endlessly (Slick Willy).
    Slick,
    /// The opponent keeps getting the same piece (Broken Record).
    Broken,
    /// The opponent's board won't collapse after a line clears (The Force).
    Force,
    /// Distracts the opponent with a cosmetic gimp overlay (The Gimp).
    Gimp,
}

/// The protocol index of a token: its position in declaration order.
pub open spec fn token_index(t: WeaponToken) -> int {
    match t {
        WeaponToken::FearedWeird => 0,
        WeaponToken::FourByFour => 1,
        WeaponToken::Hatter => 2,
        WeaponToken::Upbyside => 3,
        WeaponToken::FallOut => 4,
        WeaponToken::Swap => 5,
        WeaponToken::Lawyers => 6,
        WeaponToken::RiseUp => 7,
        WeaponToken::FlipOut => 8,
        WeaponToken::Speedy => 9,
        WeaponToken::Missing => 10,
        WeaponToken::PieceIt => 11,
        WeaponToken::Blind => 12,
        WeaponToken::Mondale => 13,
        WeaponToken::Keating => 14,
        WeaponToken::Carter => 15,
        WeaponToken::Reagan => 16,
        WeaponToken::Ames => 17,
        WeaponToken::Ace => 18,
        WeaponToken::Condor => 19,
        WeaponToken::NiceDay => 20,
        WeaponToken::SoLong => 21,
        WeaponToken::NoDice => 22,
        WeaponToken::Bug => 23,
        WeaponToken::Bottle => 24,
        WeaponToken::NoSlide => 25,
        WeaponToken::Susan => 26,
        WeaponToken::Meadow => 27,
        WeaponToken::Mirror => 28,
        WeaponToken::Twilight => 29,
        WeaponToken::Slick => 30,
        WeaponToken::Broken => 31,
        WeaponToken::Force => 32,
        WeaponToken::Gimp => 33,
    }
}

/// The token at protocol index `i` (meaningful for `0 <= i < 34`).
pub open spec fn token_at(i: int) -> WeaponToken {
    if i == 0 {
        WeaponToken::FearedWeird
    } else if i == 1 {
        WeaponToken::FourByFour
    } else if i == 2 {
        WeaponToken::Hatter
    } else if i == 3 {
        WeaponToken::Upbyside
    } else if i == 4 {
        WeaponToken::FallOut
    } else if i == 5 {
        WeaponToken::Swap
    } else if i == 6 {
        WeaponToken::Lawyers
    } else if i == 7 {
        WeaponToken::RiseUp
    } else if i == 8 {
        WeaponToken::FlipOut
    } else if i == 9 {
        WeaponToken::Speedy
    } else if i == 10 {
        WeaponToken::Missing
    } else if i == 11 {
        WeaponToken::PieceIt
    } else if i == 12 {
        WeaponToken::Blind
    } else if i == 13 {
        WeaponToken::Mondale
    } else if i == 14 {
        WeaponToken::Keating
    } else if i == 15 {
        WeaponToken::Carter
    } else if i == 16 {
        WeaponToken::Reagan
    } else if i == 17 {
        WeaponToken::Ames
    } else if i == 18 {
        WeaponToken::Ace
    } else if i == 19 {
        WeaponToken::Condor
    } else if i == 20 {
        WeaponToken::NiceDay
    } else if i == 21 {
        WeaponToken::SoLong
    } else if i == 22 {
        WeaponToken::NoDice
    } else if i == 23 {
        WeaponToken::Bug
    } else if i == 24 {
        WeaponToken::Bottle
    } else if i == 25 {
        WeaponToken::NoSlide
    } else if i == 26 {
        WeaponToken::Susan
    } else if i == 27 {
        WeaponToken::Meadow
    } else if i == 28 {
        WeaponToken::Mirror
    } else if i == 29 {
        WeaponToken::Twilight
    } else if i == 30 {
        WeaponToken::Slick
    } else if i == 31 {
        WeaponToken::Broken
    } else if i == 32 {
        WeaponToken::Force
    } else {
        WeaponToken::Gimp
    }
}

/// `token_at` undoes `token_index`.
pub proof fn lemma_token_at_index(t: WeaponToken)
    ensures
        0 <= token_index(t) < BT_MAX_WEAPONS,
        token_at(token_index(t)) == t,
{
}

/// `token_index` undoes `token_at` on the protocol range.
pub proof fn lemma_token_index_at(i: int)
    requires
        0 <= i < BT_MAX_WEAPONS,
    ensures
        token_index(token_at(i)) == i,
{
}

impl WeaponToken {
    /// Every token in protocol order (entry `i` has index `i`).
    pub const ALL: [WeaponToken; BT_MAX_WEAPONS] = [
        WeaponToken::FearedWeird,
        WeaponToken::FourByFour,
        WeaponToken::Hatter,
        WeaponToken::Upbyside,
        WeaponToken::FallOut,
        WeaponToken::Swap,
        WeaponToken::Lawyers,
        WeaponToken::RiseUp,
        WeaponToken::FlipOut,
        WeaponToken::Speedy,
        WeaponToken::Missing,
        WeaponToken::PieceIt,
        WeaponToken::Blind,
        WeaponToken::Mondale,
        WeaponToken::Keating,
        WeaponToken::Carter,
        WeaponToken::Reagan,
        WeaponToken::Ames,
        WeaponToken::Ace,
        WeaponToken::Condor,
        WeaponToken::NiceDay,
        WeaponToken::SoLong,
        WeaponToken::NoDice,
        WeaponToken::Bug,
        WeaponToken::Bottle,
        WeaponToken::NoSlide,
        WeaponToken::Susan,
        WeaponToken::Meadow,
        WeaponToken::Mirror,
        WeaponToken::Twilight,
        WeaponToken::Slick,
        WeaponToken::Broken,
        WeaponToken::Force,
        WeaponToken::Gimp,
    ];

    /// The token's array index.
    pub fn index(self) -> (i: usize)
        ensures
            i == token_index(self),
            i < BT_MAX_WEAPONS,
    {
        match self {
            WeaponToken::FearedWeird => 0,
            WeaponToken::FourByFour => 1,
            WeaponToken::Hatter => 2,
            WeaponToken::Upbyside => 3,
            WeaponToken::FallOut => 4,
            WeaponToken::Swap => 5,
            WeaponToken::Lawyers => 6,
            WeaponToken::RiseUp => 7,
            WeaponToken::FlipOut => 8,
            WeaponToken::Speedy => 9,
            WeaponToken::Missing => 10,
            WeaponToken::PieceIt => 11,
            WeaponToken::Blind => 12,
            WeaponToken::Mondale => 13,
            WeaponToken::Keating => 14,
            WeaponToken::Carter => 15,
            WeaponToken::Reagan => 16,
            WeaponToken::Ames => 17,
            WeaponToken::Ace => 18,
            WeaponToken::Condor => 19,
            WeaponToken::NiceDay => 20,
            WeaponToken::SoLong => 21,
            WeaponToken::NoDice => 22,
            WeaponToken::Bug => 23,
            WeaponToken::Bottle => 24,
            WeaponToken::NoSlide => 25,
            WeaponToken::Susan => 26,
            WeaponToken::Meadow => 27,
            WeaponToken::Mirror => 28,
            WeaponToken::Twilight => 29,
            WeaponToken::Slick => 30,
            WeaponToken::Broken => 31,
            WeaponToken::Force => 32,
            WeaponToken::Gimp => 33,
        }
    }

    /// The token for index `i`, or `None` if out of range.
    pub fn from_index(i: i32) -> (t: Option<WeaponToken>)
        ensures
            t == (if 0 <= i < BT_MAX_WEAPONS { Some(token_at(i as int)) } else { None::<WeaponToken> }),
    {
        match i {
            0 => Some(WeaponToken::FearedWeird),
            1 => Some(WeaponToken::FourByFour),
            2 => Some(WeaponToken::Hatter),
            3 => Some(WeaponToken::Upbyside),
            4 => Some(WeaponToken::FallOut),
            5 => Some(WeaponToken::Swap),
            6 => Some(WeaponToken::Lawyers),
            7 => Some(WeaponToken::RiseUp),
            8 => Some(WeaponToken::FlipOut),
            9 => Some(WeaponToken::Speedy),
            10 => Some(WeaponToken::Missing),
            11 => Some(WeaponToken::PieceIt),
            12 => Some(WeaponToken::Blind),
            13 => Some(WeaponToken::Mondale),
            14 => Some(WeaponToken::Keating),
            15 => Some(WeaponToken::Carter),
            16 => Some(WeaponToken::Reagan),
            17 => Some(WeaponToken::Ames),
            18 => Some(WeaponToken::Ace),
            19 => Some(WeaponToken::Condor),
            20 => Some(WeaponToken::NiceDay),
            21 => Some(WeaponToken::SoLong),
            22 => Some(WeaponToken::NoDice),
            23 => Some(WeaponToken::Bug),
            24 => Some(WeaponToken::Bottle),
            25 => Some(WeaponToken::NoSlide),
            26 => Some(WeaponToken::Susan),
            27 => Some(WeaponToken::Meadow),
            28 => Some(WeaponToken::Mirror),
            29 => Some(WeaponToken::Twilight),
            30 => Some(WeaponToken::Slick),
            31 => Some(WeaponToken::Broken),
            32 => Some(WeaponToken::Force),
            33 => Some(WeaponToken::Gimp),
            _ => None,
        }
    }
}

/// Which weapons are currently in effect. A per-weapon count, used as a flag
/// (nonzero = on) by gameplay.
#[derive(Clone, Copy, Debug)]
pub struct ActiveFlags {
    counts: [i32; 34],
}

impl View for ActiveFlags {
    type V = Seq<i32>;

    closed spec fn view(&self) -> Seq<i32> {
        self.counts@
    }
}

impl Default for ActiveFlags {
    fn default() -> (a: Self)
        ensures
            a@ == Seq::new(34, |i: int| 0i32),
    {
        ActiveFlags::new()
    }
}

impl ActiveFlags {
    /// All weapons off.
    pub fn new() -> (a: Self)
        ensures
            a@ == Seq::new(34, |i: int| 0i32),
    {
        let a = ActiveFlags { counts: [0i32; 34] };
        assert(a@ =~= Seq::new(34, |i: int| 0i32));
        a
    }

    /// Whether `token`'s effect is in force.
    pub fn is_active(&self, token: WeaponToken) -> (b: bool)
        ensures
            b == (self@[token_index(token)] != 0),
    {
        self.counts[token.index()] != 0
    }

    /// The raw count for `token`.
    pub fn count(&self, token: WeaponToken) -> (c: i32)
        ensures
            c == self@[token_index(token)],
    {
        self.counts[token.index()]
    }

    /// Counting activate: one more level of `token`.
    pub fn activate(&mut self, token: WeaponToken)
        requires
            old(self)@[token_index(token)] < i32::MAX,
        ensures
            final(self)@ == old(self)@.update(token_index(token), (old(self)@[token_index(token)] + 1) as i32),
    {
        let i = token.index();
        self.counts[i] = self.counts[i] + 1;
    }

    /// Counting deactivate: one level less of `token`.
    pub fn deactivate(&mut self, token: WeaponToken)
        requires
            old(self)@[token_index(token)] > i32::MIN,
        ensures
            final(self)@ == old(self)@.update(token_index(token), (old(self)@[token_index(token)] - 1) as i32),
    {
        let i = token.index();
        self.counts[i] = self.counts[i] - 1;
    }

    /// Set `token` on (1) or off (0) as a flat boolean.
    pub fn set(&mut self, token: WeaponToken, on: bool)
        ensures
            final(self)@ == old(self)@.update(token_index(token), if on { 1i32 } else { 0i32 }),
    {
        let i = token.index();
        self.counts[i] = if on { 1 } else { 0 };
    }

    /// Turn every weapon off.
    pub fn clear(&mut self)
        ensures
            final(self)@ == Seq::new(34, |i: int| 0i32),
    {
        self.counts = [0i32; 34];
        assert(self@ =~= Seq::new(34, |i: int| 0i32));
    }

    /// The raw per-weapon counts.
    pub fn raw(&self) -> (r: [i32; 34])
        ensures
            r@ == self@,
    {
        self.counts
    }

    /// Restore counts captured by [`ActiveFlags::raw`].
    pub fn set_raw(&mut self, counts: [i32; 34])
        ensures
            final(self)@ == counts@,
    {
        self.counts = counts;
    }
}

/// A flag set to a value reads back as that value, and no other flag moves.
pub proof fn lemma_set_reads_back(a: ActiveFlags, b: ActiveFlags, t: WeaponToken, on: bool, u: WeaponToken)
    requires
        b@ == a@.update(token_index(t), if on { 1i32 } else { 0i32 }),
        a@.len() == BT_MAX_WEAPONS,
    ensures
        (b@[token_index(t)] != 0) == on,
        u != t ==> b@[token_index(u)] == a@[token_index(u)],
{
    lemma_token_at_index(u);
    lemma_token_at_index(t);
}

/// Display and economy data for one weapon.
#[derive(Clone, Debug, PartialEq, Eq)]
pub struct WeaponInfo {
    /// Which weapon this row describes.
    pub token: WeaponToken,
    /// Display name shown in the bazaar.
    pub name: &'static str,
    /// Bazaar blurb describing the effect.
    pub description: &'static str,
    /// Cost in funds to buy in the bazaar.
    pub price: u16,
    /// Effect lifetime in lines cleared (0 = one-shot).
    pub duration: u16,
}

/// The bazaar price of a weapon.
pub open spec fn price_spec(t: WeaponToken) -> u16 {
    match t {
        WeaponToken::FearedWeird => 400,
        WeaponToken::FourByFour => 425,
        WeaponToken::Hatter => 375,
        WeaponToken::Upbyside => 125,
        WeaponToken::FallOut => 250,
        WeaponToken::Swap => 1200,
        WeaponToken::Lawyers => 350,
        WeaponToken::RiseUp => 75,
        WeaponToken::FlipOut => 15,
        WeaponToken::Speedy => 275,
        WeaponToken::Missing => 50,
        WeaponToken::PieceIt => 100,
        WeaponToken::Blind => 400,
        WeaponToken::Mondale => 150,
        WeaponToken::Keating => 425,
        WeaponToken::Carter => 250,
        WeaponToken::Reagan => 425,
        WeaponToken::Ames => 50,
        WeaponToken::Ace => 100,
        WeaponToken::Condor => 225,
        WeaponToken::NiceDay => 50,
        WeaponToken::SoLong => 100,
        WeaponToken::NoDice => 600,
        WeaponToken::Bug => 320,
        WeaponToken::Bottle => 150,
        WeaponToken::NoSlide => 125,
        WeaponToken::Susan => 600,
        WeaponToken::Meadow => 475,
        WeaponToken::Mirror => 500,
        WeaponToken::Twilight => 450,
        WeaponToken::Slick => 650,
        WeaponToken::Broken => 325,
        WeaponToken::Force => 325,
        WeaponToken::Gimp => 25,
    }
}

/// How many lines a weapon's effect lasts (0 = one-shot).
pub open spec fn duration_spec(t: WeaponToken) -> u16 {
    match t {
        WeaponToken::FearedWeird => 3,
        WeaponToken::FourByFour => 10,
        WeaponToken::Hatter => 5,
        WeaponToken::Upbyside => 10,
        WeaponToken::FallOut => 10,
        WeaponToken::Swap => 0,
        WeaponToken::Lawyers => 5,
        WeaponToken::RiseUp => 0,
        WeaponToken::FlipOut => 0,
        WeaponToken::Speedy => 10,
        WeaponToken::Missing => 0,
        WeaponToken::PieceIt => 0,
        WeaponToken::Blind => 0,
        WeaponToken::Mondale => 50,
        WeaponToken::Keating => 0,
        WeaponToken::Carter => 20,
        WeaponToken::Reagan => 0,
        WeaponToken::Ames => 20,
        WeaponToken::Ace => 30,
        WeaponToken::Condor => 40,
        WeaponToken::NiceDay => 0,
        WeaponToken::SoLong => 10,
        WeaponToken::NoDice => 35,
        WeaponToken::Bug => 0,
        WeaponToken::Bottle => 10,
        WeaponToken::NoSlide => 10,
        WeaponToken::Susan => 0,
        WeaponToken::Meadow => 10,
        WeaponToken::Mirror => 10,
        WeaponToken::Twilight => 0,
        WeaponToken::Slick => 3,
        WeaponToken::Broken => 5,
        WeaponToken::Force => 5,
        WeaponToken::Gimp => 0,
    }
}

/// The bazaar price of `t`.
pub fn weapon_price(t: WeaponToken) -> (p: u16)
    ensures
        p == price_spec(t),
{
    match t {
        WeaponToken::FearedWeird => 400,
        WeaponToken::FourByFour => 425,
        WeaponToken::Hatter => 375,
        WeaponToken::Upbyside => 125,
        WeaponToken::FallOut => 250,
        WeaponToken::Swap => 1200,
        WeaponToken::Lawyers => 350,
        WeaponToken::RiseUp => 75,
        WeaponToken::FlipOut => 15,
        WeaponToken::Speedy => 275,
        WeaponToken::Missing => 50,
        WeaponToken::PieceIt => 100,
        WeaponToken::Blind => 400,
        WeaponToken::Mondale => 150,
        WeaponToken::Keating => 425,
        WeaponToken::Carter => 250,
        WeaponToken::Reagan => 425,
        WeaponToken::Ames => 50,
        WeaponToken::Ace => 100,
        WeaponToken::Condor => 225,
        WeaponToken::NiceDay => 50,
        WeaponToken::SoLong => 100,
        WeaponToken::NoDice => 600,
        WeaponToken::Bug => 320,
        WeaponToken::Bottle => 150,
        WeaponToken::NoSlide => 125,
        WeaponToken::Susan => 600,
        WeaponToken::Meadow => 475,
        WeaponToken::Mirror => 500,
        WeaponToken::Twilight => 450,
        WeaponToken::Slick => 650,
        WeaponToken::Broken => 325,
        WeaponToken::Force => 325,
        WeaponToken::Gimp => 25,
    }
}

/// The effect duration of `t` in lines.
pub fn weapon_duration(t: WeaponToken) -> (d: u16)
    ensures
        d == duration_spec(t),
{
    match t {
        WeaponToken::FearedWeird => 3,
        WeaponToken::FourByFour => 10,
        WeaponToken::Hatter => 5,
        WeaponToken::Upbyside => 10,
        WeaponToken::FallOut => 10,
        WeaponToken::Swap => 0,
        WeaponToken::Lawyers => 5,
        WeaponToken::RiseUp => 0,
        WeaponToken::FlipOut => 0,
        WeaponToken::Speedy => 10,
        WeaponToken::Missing => 0,
        WeaponToken::PieceIt => 0,
        WeaponToken::Blind => 0,
        WeaponToken::Mondale => 50,
        WeaponToken::Keating => 0,
        WeaponToken::Carter => 20,
        WeaponToken::Reagan => 0,
        WeaponToken::Ames => 20,
        WeaponToken::Ace => 30,
        WeaponToken::Condor => 40,
        WeaponToken::NiceDay => 0,
        WeaponToken::SoLong => 10,
        WeaponToken::NoDice => 35,
        WeaponToken::Bug => 0,
        WeaponToken::Bottle => 10,
        WeaponToken::NoSlide => 10,
        WeaponToken::Susan => 0,
        WeaponToken::Meadow => 10,
        WeaponToken::Mirror => 10,
        WeaponToken::Twilight => 0,
        WeaponToken::Slick => 3,
        WeaponToken::Broken => 5,
        WeaponToken::Force => 5,
        WeaponToken::Gimp => 0,
    }
}

/// The display name of `t`, as characters.
pub open spec fn name_spec(t: WeaponToken) -> Seq<char> {
    match t {
        WeaponToken::FearedWeird => "The Feared Weird"@,
        WeaponToken::FourByFour => "Four-by-Four"@,
        WeaponToken::Hatter => "The Mad Hatter"@,
        WeaponToken::Upbyside => "Upbyside-down"@,
        WeaponToken::FallOut => "Fallout"@,
        WeaponToken::Swap => "Swap meet"@,
        WeaponToken::Lawyers => "Lawyer's delite"@,
        WeaponToken::RiseUp => "Rise up"@,
        WeaponToken::FlipOut => "Flip out"@,
        WeaponToken::Speedy => "Speedy Gonzales"@,
        WeaponToken::Missing => "Missing Pieces"@,
        WeaponToken::PieceIt => "Piece It Together"@,
        WeaponToken::Blind => "The Blind Cleric"@,
        WeaponToken::Mondale => "Mondale '96"@,
        WeaponToken::Keating => "Keating Five"@,
        WeaponToken::Carter => "Carter Years"@,
        WeaponToken::Reagan => "Reagan Era"@,
        WeaponToken::Ames => "William Ames"@,
        WeaponToken::Ace => "Ace of Spies"@,
        WeaponToken::Condor => "The Condor"@,
        WeaponToken::NiceDay => "Have a Nice Day"@,
        WeaponToken::SoLong => "So Long"@,
        WeaponToken::NoDice => "No Dice"@,
        WeaponToken::Bug => "Bug Report"@,
        WeaponToken::Bottle => "Bottle neck"@,
        WeaponToken::NoSlide => "Slide Denied"@,
        WeaponToken::Susan => "Lazy Susan"@,
        WeaponToken::Meadow => "Meadow"@,
        WeaponToken::Mirror => "Mirror Mirror"@,
        WeaponToken::Twilight => "The Twilight Zone"@,
        WeaponToken::Slick => "Slick Willy"@,
        WeaponToken::Broken => "Broken Record"@,
        WeaponToken::Force => "The Force"@,
        WeaponToken::Gimp => "The Gimp"@,
    }
}

/// The display name of `t`.
pub fn weapon_name(t: WeaponToken) -> (r: &'static str)
    ensures
        r@ == name_spec(t),
{
    match t {
        WeaponToken::FearedWeird => "The Feared Weird",
        WeaponToken::FourByFour => "Four-by-Four",
        WeaponToken::Hatter => "The Mad Hatter",
        WeaponToken::Upbyside => "Upbyside-down",
        WeaponToken::FallOut => "Fallout",
        WeaponToken::Swap => "Swap meet",
        WeaponToken::Lawyers => "Lawyer's delite",
        WeaponToken::RiseUp => "Rise up",
        WeaponToken::FlipOut => "Flip out",
        WeaponToken::Speedy => "Speedy Gonzales",
        WeaponToken::Missing => "Missing Pieces",
        WeaponToken::PieceIt => "Piece It Together",
        WeaponToken::Blind => "The Blind Cleric",
        WeaponToken::Mondale => "Mondale '96",
        WeaponToken::Keating => "Keating Five",
        WeaponToken::Carter => "Carter Years",
        WeaponToken::Reagan => "Reagan Era",
        WeaponToken::Ames => "William Ames",
        WeaponToken::Ace => "Ace of Spies",
        WeaponToken::Condor => "The Condor",
        WeaponToken::NiceDay => "Have a Nice Day",
        WeaponToken::SoLong => "So Long",
        WeaponToken::NoDice => "No Dice",
        WeaponToken::Bug => "Bug Report",
        WeaponToken::Bottle => "Bottle neck",
        WeaponToken::NoSlide => "Slide Denied",
        WeaponToken::Susan => "Lazy Susan",
        WeaponToken::Meadow => "Meadow",
        WeaponToken::Mirror => "Mirror Mirror",
        WeaponToken::Twilight => "The Twilight Zone",
        WeaponToken::Slick => "Slick Willy",
        WeaponToken::Broken => "Broken Record",
        WeaponToken::Force => "The Force",
        WeaponToken::Gimp => "The Gimp",
    }
}

/// The bazaar description of `t`, as characters.
pub open spec fn description_spec(t: WeaponToken) -> Seq<char> {
    match t {
        WeaponToken::FearedWeird => "Gives your opponent bizarre, disjointed pieces. None of the pieces are easily placed; particularly deadly when used in conjunction with either the Mad Hatter or No Dice."@,
        WeaponToken::FourByFour => "Evil incarnate. Replaces your opponent's box piece with one that is a four block by four block hollow box."@,
        WeaponToken::Hatter => "Your opponent's pieces never stop spinning (unless pinned up against the wall). Quickly frustrates opponent. Very good combination weapon."@,
        WeaponToken::Upbyside => "Flips your opponent's screen upside-down. Their direction keys are reversed, and pieces rotate the opposite way."@,
        WeaponToken::FallOut => "The middle six columns of your board \"fall out.\" The gap that they leave represents a black hole. Any pieces dropped into this black hole will just disappear. The player must instead build a \"bridge\" of pieces over the hole in order to get lines."@,
        WeaponToken::Swap => "Swaps your screen with your opponent's. Screw up your own board, and then swap it out. Of course, the other opponent may launch another Swap, but such is life."@,
        WeaponToken::Lawyers => "Outright stolen from the original 2-player arcade version of tetris. Every line you get, your opponent's screen \"rises\" up by one line."@,
        WeaponToken::RiseUp => "Raises the opponent's screen one level (the bottom level will be solid with one, random, block missing)."@,
        WeaponToken::FlipOut => "Flips your opponents screen on a vertical axis.  Can be extremely annoying if done often enough."@,
        WeaponToken::Speedy => "Doubles the speed of the opponent's game. Several of these launched at once get make things pretty interesting for your opponent."@,
        WeaponToken::Missing => "Randomly removes one of your opponent's blocks."@,
        WeaponToken::PieceIt => "Randomly adds a piece to your opponent's board. More than one great player has fallen on a lucky Piece It Together."@,
        WeaponToken::Blind => "Bombs a region of your opponent's screen. Can be particularly annoying when an elaborate setup develops a large hole in its center."@,
        WeaponToken::Mondale => "Taxes your opponent with a hefty 30 percent rate. Whenever they get funds, you swipe a certain percentage."@,
        WeaponToken::Keating => "Your opponent's funds are all taken away...and given to you."@,
        WeaponToken::Carter => "Relives the inflationary years of Jimmy Carter -- the prices double at your opponent's bazaar."@,
        WeaponToken::Reagan => "Relives that era of debt -- your opponent's funds are multiplied by -1."@,
        WeaponToken::Ames => "Displays your opponent's screen and your opponent's funds next to your own.  Remember that cheap spies are easily bought and sold..."@,
        WeaponToken::Ace => "Send Reilly over the border.  A more expensive spy, but such is the price of greater accuracy.  Reilly's still human though...you never know when he's going to flake out on the Russian border."@,
        WeaponToken::Condor => "Launch the world's most advanced spy satellite.  Guaranteed accuracy, but you probably had to sell arms to the Contras in order to afford it."@,
        WeaponToken::NiceDay => "Gives your opponent a smiley face. Why give your opponent the opportunity to make an extra 150 beans? Hit them with a Reagan Era shortly after. God Bless America."@,
        WeaponToken::SoLong => "Deprives your opponent of long pieces."@,
        WeaponToken::NoDice => "Deprives your opponent of dice."@,
        WeaponToken::Bug => "Like Piece It Together, except the block is invisible (which leads your opponent to file a bug report)."@,
        WeaponToken::Bottle => "Your opponent's board suddenly develops a 4-block wide bottle neck."@,
        WeaponToken::NoSlide => "Take the famous BattleTris slide out of your opponent's diet."@,
        WeaponToken::Susan => "Turns the tables on you opponent by swapping your arsenal with theirs."@,
        WeaponToken::Meadow => "This weapon lineup simulates Meadow running on your opponent's machine:  the drop speed of their pieces is halved."@,
        WeaponToken::Mirror => "An oft requested defensive weapon:  when launched, your opponent's weapons will be reflected back on to them.  Note that some weapons (Swap Meet, Keating Five, Have a Nice Day, etc.) are simply nullified."@,
        WeaponToken::Twilight => "All of the bricks in your opponents screen becomes invisible."@,
        WeaponToken::Slick => "Your opponent's pieces move endlessly from left to right and back."@,
        WeaponToken::Broken => "Gives your opponent the same piece the same piece the same piece ..."@,
        WeaponToken::Force => "When your opponent gets a line, his board won't drop to fill the empty space."@,
        WeaponToken::Gimp => "Distracts your opponent from the game."@,
    }
}

/// The bazaar description of `t`.
pub fn weapon_description(t: WeaponToken) -> (r: &'static str)
    ensures
        r@ == description_spec(t),
{
    match t {
        WeaponToken::FearedWeird => "Gives your opponent bizarre, disjointed pieces. None of the pieces are easily placed; particularly deadly when used in conjunction with either the Mad Hatter or No Dice.",
        WeaponToken::FourByFour => "Evil incarnate. Replaces your opponent's box piece with one that is a four block by four block hollow box.",
        WeaponToken::Hatter => "Your opponent's pieces never stop spinning (unless pinned up against the wall). Quickly frustrates opponent. Very good combination weapon.",
        WeaponToken::Upbyside => "Flips your opponent's screen upside-down. Their direction keys are reversed, and pieces rotate the opposite way.",
        WeaponToken::FallOut => "The middle six columns of your board \"fall out.\" The gap that they leave represents a black hole. Any pieces dropped into this black hole will just disappear. The player must instead build a \"bridge\" of pieces over the hole in order to get lines.",
        WeaponToken::Swap => "Swaps your screen with your opponent's. Screw up your own board, and then swap it out. Of course, the other opponent may launch another Swap, but such is life.",
        WeaponToken::Lawyers => "Outright stolen from the original 2-player arcade version of tetris. Every line you get, your opponent's screen \"rises\" up by one line.",
        WeaponToken::RiseUp => "Raises the opponent's screen one level (the bottom level will be solid with one, random, block missing).",
        WeaponToken::FlipOut => "Flips your opponents screen on a vertical axis.  Can be extremely annoying if done often enough.",
        WeaponToken::Speedy => "Doubles the speed of the opponent's game. Several of these launched at once get make things pretty interesting for your opponent.",
        WeaponToken::Missing => "Randomly removes one of your opponent's blocks.",
        WeaponToken::PieceIt => "Randomly adds a piece to your opponent's board. More than one great player has fallen on a lucky Piece It Together.",
        WeaponToken::Blind => "Bombs a region of your opponent's screen. Can be particularly annoying when an elaborate setup develops a large hole in its center.",
        WeaponToken::Mondale => "Taxes your opponent with a hefty 30 percent rate. Whenever they get funds, you swipe a certain percentage.",
        WeaponToken::Keating => "Your opponent's funds are all taken away...and given to you.",
        WeaponToken::Carter => "Relives the inflationary years of Jimmy Carter -- the prices double at your opponent's bazaar.",
        WeaponToken::Reagan => "Relives that era of debt -- your opponent's funds are multiplied by -1.",
        WeaponToken::Ames => "Displays your opponent's screen and your opponent's funds next to your own.  Remember that cheap spies are easily bought and sold...",
        WeaponToken::Ace => "Send Reilly over the border.  A more expensive spy, but such is the price of greater accuracy.  Reilly's still human though...you never know when he's going to flake out on the Russian border.",
        WeaponToken::Condor => "Launch the world's most advanced spy satellite.  Guaranteed accuracy, but you probably had to sell arms to the Contras in order to afford it.",
        WeaponToken::NiceDay => "Gives your opponent a smiley face. Why give your opponent the opportunity to make an extra 150 beans? Hit them with a Reagan Era shortly after. God Bless America.",
        WeaponToken::SoLong => "Deprives your opponent of long pieces.",
        WeaponToken::NoDice => "Deprives your opponent of dice.",
        WeaponToken::Bug => "Like Piece It Together, except the block is invisible (which leads your opponent to file a bug report).",
        WeaponToken::Bottle => "Your opponent's board suddenly develops a 4-block wide bottle neck.",
        WeaponToken::NoSlide => "Take the famous BattleTris slide out of your opponent's diet.",
        WeaponToken::Susan => "Turns the tables on you opponent by swapping your arsenal with theirs.",
        WeaponToken::Meadow => "This weapon lineup simulates Meadow running on your opponent's machine:  the drop speed of their pieces is halved.",
        WeaponToken::Mirror => "An oft requested defensive weapon:  when launched, your opponent's weapons will be reflected back on to them.  Note that some weapons (Swap Meet, Keating Five, Have a Nice Day, etc.) are simply nullified.",
        WeaponToken::Twilight => "All of the bricks in your opponents screen becomes invisible.",
        WeaponToken::Slick => "Your opponent's pieces move endlessly from left to right and back.",
        WeaponToken::Broken => "Gives your opponent the same piece the same piece the same piece ...",
        WeaponToken::Force => "When your opponent gets a line, his board won't drop to fill the empty space.",
        WeaponToken::Gimp => "Distracts your opponent from the game.",
    }
}

fn weapon_info(t: WeaponToken) -> (w: WeaponInfo)
    ensures
        w.token == t,
        w.price == price_spec(t),
        w.duration == duration_spec(t),
        w.name@ == name_spec(t),
        w.description@ == description_spec(t),
{
    WeaponInfo {
        token: t,
        name: weapon_name(t),
        description: weapon_description(t),
        price: weapon_price(t),
        duration: weapon_duration(t),
    }
}

/// The full weapon table, in protocol order: row `i` describes token `i`.
pub fn weapon_table() -> (r: [WeaponInfo; 34])
    ensures
        forall|i: int|
            0 <= i < BT_MAX_WEAPONS ==> {
                &&& (#[trigger] r@[i]).token == token_at(i)
                &&& r@[i].price == price_spec(token_at(i))
                &&& r@[i].duration == duration_spec(token_at(i))
                &&& r@[i].name@ == name_spec(token_at(i))
                &&& r@[i].description@ == description_spec(token_at(i))
            },
{
    let r = [
        weapon_info(WeaponToken::FearedWeird),
        weapon_info(WeaponToken::FourByFour),
        weapon_info(WeaponToken::Hatter),
        weapon_info(WeaponToken::Upbyside),
        weapon_info(WeaponToken::FallOut),
        weapon_info(WeaponToken::Swap),
        weapon_info(WeaponToken::Lawyers),
        weapon_info(WeaponToken::RiseUp),
        weapon_info(WeaponToken::FlipOut),
        weapon_info(WeaponToken::Speedy),
        weapon_info(WeaponToken::Missing),
        weapon_info(WeaponToken::PieceIt),
        weapon_info(WeaponToken::Blind),
        weapon_info(WeaponToken::Mondale),
        weapon_info(WeaponToken::Keating),
        weapon_info(WeaponToken::Carter),
        weapon_info(WeaponToken::Reagan),
        weapon_info(WeaponToken::Ames),
        weapon_info(WeaponToken::Ace),
        weapon_info(WeaponToken::Condor),
        weapon_info(WeaponToken::NiceDay),
        weapon_info(WeaponToken::SoLong),
        weapon_info(WeaponToken::NoDice),
        weapon_info(WeaponToken::Bug),
        weapon_info(WeaponToken::Bottle),
        weapon_info(WeaponToken::NoSlide),
        weapon_info(WeaponToken::Susan),
        weapon_info(WeaponToken::Meadow),
        weapon_info(WeaponToken::Mirror),
        weapon_info(WeaponToken::Twilight),
        weapon_info(WeaponToken::Slick),
        weapon_info(WeaponToken::Broken),
        weapon_info(WeaponToken::Force),
        weapon_info(WeaponToken::Gimp),
    ];
    assert forall|i: int| 0 <= i < BT_MAX_WEAPONS implies {
        &&& (#[trigger] r@[i]).token == token_at(i)
        &&& r@[i].price == price_spec(token_at(i))
        &&& r@[i].duration == duration_spec(token_at(i))
        &&& r@[i].name@ == name_spec(token_at(i))
        &&& r@[i].description@ == description_spec(token_at(i))
    } by {
        assert(r@[i] == r[i]);
    }
    r
}

} // verus!
