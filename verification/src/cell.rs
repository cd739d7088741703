//! A single occupied board square. An empty square is `None` in the board grid.

use vstd::prelude::*;
use crate::constants::{BT_DIE_1, BT_GIMP_ID, BT_HAPPY, BT_HAPPY_VAL, BT_STRUCT, BT_UNHAPPY};

verus! {

/// The kind of box occupying a square.
#[derive(Clone, Copy, PartialEq, Eq, Debug)]
pub enum CellKind {
    /// Ordinary colored box; `id == color`, `value == 0`.
    Color(i32),
    /// Die box with a pip value 1..=6.
    Die(u8),
    /// Happy face: un-landed is worth funds, landed is a worthless frown.
    Happy { landed: bool },
    /// Bottle-neck structure box; not removable.
    Structure,
    /// Gimp box carrying an underlying value.
    Gimp(i32),
    /// Invisible box with an explicit id and value.
    Invisible { id: i32, value: i32 },
}

impl CellKind {
    /// Funds contribution when cleared in a line.
    #[verifier::allow_in_spec]
    pub fn value(&self) -> i32
        returns
            match *self {
                CellKind::Die(v) => v as i32,
                CellKind::Happy { landed } => if landed { 0 } else { BT_HAPPY_VAL },
                CellKind::Gimp(v) => v,
                CellKind::Invisible { value, .. } => value,
                CellKind::Color(_) => 0,
                CellKind::Structure => 0,
            },
    {
        match *self {
            CellKind::Die(v) => v as i32,
            CellKind::Happy { landed } => {
                if landed {
                    0
                } else {
                    BT_HAPPY_VAL
                }
            },
            CellKind::Gimp(v) => v,
            CellKind::Invisible { value, .. } => value,
            CellKind::Color(_) => 0,
            CellKind::Structure => 0,
        }
    }

    /// Render id, ignoring the hidden flag.
    #[verifier::allow_in_spec]
    pub fn raw_id(&self) -> i32
        returns
            match *self {
                CellKind::Color(c) => c,
                CellKind::Die(v) => (BT_DIE_1 + v as i32 - 1) as i32,
                CellKind::Happy { landed } => if landed { BT_UNHAPPY } else { BT_HAPPY },
                CellKind::Structure => BT_STRUCT,
                CellKind::Gimp(_) => BT_GIMP_ID,
                CellKind::Invisible { id, .. } => id,
            },
    {
        match *self {
            CellKind::Color(c) => c,
            CellKind::Die(v) => BT_DIE_1 + v as i32 - 1,
            CellKind::Happy { landed } => {
                if landed {
                    BT_UNHAPPY
                } else {
                    BT_HAPPY
                }
            },
            CellKind::Structure => BT_STRUCT,
            CellKind::Gimp(_) => BT_GIMP_ID,
            CellKind::Invisible { id, .. } => id,
        }
    }

    /// Structure boxes resist line clears and weapons; everything else is removable.
    #[verifier::allow_in_spec]
    pub fn is_removable(&self) -> bool
        returns
            !(*self is Structure),
    {
        match *self {
            CellKind::Structure => false,
            _ => true,
        }
    }
}

/// An occupied board square: a kind plus the hidden flag (Twilight Zone).
#[derive(Clone, Copy, PartialEq, Eq, Debug)]
pub struct Cell {
    pub kind: CellKind,
    /// Set by the Twilight Zone weapon; makes `id()` return -1.
    pub hidden: bool,
}

impl Cell {
    pub fn new(kind: CellKind) -> (c: Self)
        ensures
            c == (Cell { kind, hidden: false }),
    {
        Cell { kind, hidden: false }
    }

    /// A normal colored box.
    pub fn color(color: i32) -> (c: Self)
        ensures
            c == (Cell { kind: CellKind::Color(color), hidden: false }),
    {
        Cell::new(CellKind::Color(color))
    }

    /// A die box with `value` pips.
    pub fn die(value: u8) -> (c: Self)
        ensures
            c == (Cell { kind: CellKind::Die(value), hidden: false }),
    {
        Cell::new(CellKind::Die(value))
    }

    /// An un-landed happy face.
    pub fn happy() -> (c: Self)
        ensures
            c == (Cell { kind: CellKind::Happy { landed: false }, hidden: false }),
    {
        Cell::new(CellKind::Happy { landed: false })
    }

    /// A bottle-neck structure box.
    pub fn structure() -> (c: Self)
        ensures
            c == (Cell { kind: CellKind::Structure, hidden: false }),
    {
        Cell::new(CellKind::Structure)
    }

    /// A gimp box carrying `value`.
    pub fn gimp(value: i32) -> (c: Self)
        ensures
            c == (Cell { kind: CellKind::Gimp(value), hidden: false }),
    {
        Cell::new(CellKind::Gimp(value))
    }

    /// Funds contribution when cleared.
    #[verifier::allow_in_spec]
    pub fn value(&self) -> i32
        returns
            self.kind.value(),
    {
        self.kind.value()
    }

    /// Render id; -1 when hidden.
    #[verifier::allow_in_spec]
    pub fn id(&self) -> i32
        returns
            if self.hidden { -1i32 } else { self.kind.raw_id() },
    {
        if self.hidden {
            -1
        } else {
            self.kind.raw_id()
        }
    }

    /// Whether line clears and weapons may remove this box.
    #[verifier::allow_in_spec]
    pub fn is_removable(&self) -> bool
        returns
            self.kind.is_removable(),
    {
        self.kind.is_removable()
    }

    /// Conceal the box (Twilight Zone): it keeps its kind but renders as -1.
    pub fn conceal(&mut self)
        ensures
            *final(self) == (Cell { kind: old(self).kind, hidden: true }),
    {
        self.hidden = true;
    }

    /// A happy face that lands becomes a frown; any other box is unchanged.
    pub fn landed(&mut self)
        ensures
            *final(self) == landed_spec(*old(self)),
    {
        if let CellKind::Happy { .. } = self.kind {
            self.kind = CellKind::Happy { landed: true };
        }
    }

    /// Encode as `[tag, a, b, hidden]` for cross-player board transfer.
    pub fn encode(&self) -> (q: [i32; 4])
        ensures
            q@ == encode_spec(*self),
    {
        let h: i32 = if self.hidden { 1 } else { 0 };
        match self.kind {
            CellKind::Color(c) => [1, c, 0, h],
            CellKind::Die(v) => [2, v as i32, 0, h],
            CellKind::Happy { landed } => [3, if landed { 1i32 } else { 0i32 }, 0, h],
            CellKind::Structure => [4, 0, 0, h],
            CellKind::Gimp(v) => [5, v, 0, h],
            CellKind::Invisible { id, value } => [6, id, value, h],
        }
    }

    /// Decode `[tag, a, b, hidden]`; a tag outside 1..=6 is an empty square.
    pub fn decode(q: [i32; 4]) -> (c: Option<Cell>)
        ensures
            c == decode_spec(q@),
    {
        let kind = match q[0] {
            1 => CellKind::Color(q[1]),
            2 => CellKind::Die(q[1] as u8),
            3 => CellKind::Happy { landed: q[1] != 0 },
            4 => CellKind::Structure,
            5 => CellKind::Gimp(q[1]),
            6 => CellKind::Invisible { id: q[1], value: q[2] },
            _ => {
                return None;
            },
        };
        Some(Cell { kind, hidden: q[3] != 0 })
    }
}

/// What landing does to a box: a happy face turns into a frown.
pub open spec fn landed_spec(c: Cell) -> Cell {
    match c.kind {
        CellKind::Happy { .. } => Cell { kind: CellKind::Happy { landed: true }, hidden: c.hidden },
        _ => c,
    }
}

/// The wire quad of a box.
pub open spec fn encode_spec(c: Cell) -> Seq<i32> {
    let h: i32 = if c.hidden { 1 } else { 0 };
    match c.kind {
        CellKind::Color(v) => seq![1i32, v, 0i32, h],
        CellKind::Die(v) => seq![2i32, v as i32, 0i32, h],
        CellKind::Happy { landed } => seq![3i32, if landed { 1i32 } else { 0i32 }, 0i32, h],
        CellKind::Structure => seq![4i32, 0i32, 0i32, h],
        CellKind::Gimp(v) => seq![5i32, v, 0i32, h],
        CellKind::Invisible { id, value } => seq![6i32, id, value, h],
    }
}

/// The box a wire quad denotes, if any.
pub open spec fn decode_spec(q: Seq<i32>) -> Option<Cell> {
    let tag = q[0];
    if 1 <= tag <= 6 {
        let kind = if tag == 1 {
            CellKind::Color(q[1])
        } else if tag == 2 {
            CellKind::Die(q[1] as u8)
        } else if tag == 3 {
            CellKind::Happy { landed: q[1] != 0 }
        } else if tag == 4 {
            CellKind::Structure
        } else if tag == 5 {
            CellKind::Gimp(q[1])
        } else {
            CellKind::Invisible { id: q[1], value: q[2] }
        };
        Some(Cell { kind, hidden: q[3] != 0 })
    } else {
        None
    }
}

/// Every box survives a trip over the wire: decoding its encoding gives it back.
pub proof fn lemma_decode_encode(c: Cell)
    ensures
        decode_spec(encode_spec(c)) == Some(c),
{
    match c.kind {
        CellKind::Die(v) => {
            assert((v as i32) as u8 == v);
        },
        _ => {},
    }
}

} // verus!
