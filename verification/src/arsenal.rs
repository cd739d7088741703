//! The player's weapon arsenal: a fixed bank of slots, each holding a weapon
//! token and a quantity. Purchases stack onto a matching slot or fill the first
//! empty one; slot positions are stable.

use vstd::prelude::*;
use crate::constants::BT_ARSENAL_SIZE;
use crate::weapons::WeaponToken;

verus! {

/// A fixed bank of weapon slots.
#[derive(Clone, Debug)]
pub struct Arsenal {
    rep: [Option<WeaponToken>; 10],
    quantity: [u16; 10],
}

/// The first slot at or after `i` holding `w`; `10` when there is none.
pub open spec fn first_with(tokens: Seq<Option<WeaponToken>>, w: WeaponToken, i: int) -> int
    decreases 10 - i,
{
    if i >= 10 || i < 0 {
        10
    } else if tokens[i] == Some(w) {
        i
    } else {
        first_with(tokens, w, i + 1)
    }
}

/// The first empty slot at or after `i`; `10` when there is none.
pub open spec fn first_empty(tokens: Seq<Option<WeaponToken>>, i: int) -> int
    decreases 10 - i,
{
    if i >= 10 || i < 0 {
        10
    } else if tokens[i] is None {
        i
    } else {
        first_empty(tokens, i + 1)
    }
}

/// The slot at or after `i` that a purchase of `w` lands in: the first one
/// already holding `w`, and only when none does, the first empty one. `10`
/// when there is neither.
pub open spec fn first_fit(tokens: Seq<Option<WeaponToken>>, w: WeaponToken, i: int) -> int {
    if first_with(tokens, w, i) < 10 {
        first_with(tokens, w, i)
    } else {
        first_empty(tokens, i)
    }
}

/// The first slot at or after `i` holding at least one `w`; `10` when there is none.
pub open spec fn first_held(tokens: Seq<Option<WeaponToken>>, qty: Seq<u16>, w: WeaponToken, i: int) -> int
    decreases 10 - i,
{
    if i >= 10 || i < 0 {
        10
    } else if tokens[i] == Some(w) && qty[i] > 0 {
        i
    } else {
        first_held(tokens, qty, w, i + 1)
    }
}

proof fn lemma_first_with_bounds(tokens: Seq<Option<WeaponToken>>, w: WeaponToken, i: int)
    requires
        0 <= i <= 10,
    ensures
        i <= first_with(tokens, w, i) <= 10,
        first_with(tokens, w, i) < 10 ==> tokens[first_with(tokens, w, i)] == Some(w),
        forall|j: int| i <= j < first_with(tokens, w, i) ==> tokens[j] != Some(w),
    decreases 10 - i,
{
    if i < 10 && tokens[i] != Some(w) {
        lemma_first_with_bounds(tokens, w, i + 1);
    }
}

proof fn lemma_first_empty_bounds(tokens: Seq<Option<WeaponToken>>, i: int)
    requires
        0 <= i <= 10,
    ensures
        i <= first_empty(tokens, i) <= 10,
        first_empty(tokens, i) < 10 ==> tokens[first_empty(tokens, i)] is None,
        forall|j: int| i <= j < first_empty(tokens, i) ==> tokens[j] is Some,
    decreases 10 - i,
{
    if i < 10 && tokens[i] is Some {
        lemma_first_empty_bounds(tokens, i + 1);
    }
}

proof fn lemma_first_fit_bounds(tokens: Seq<Option<WeaponToken>>, w: WeaponToken)
    ensures
        0 <= first_fit(tokens, w, 0) <= 10,
        first_fit(tokens, w, 0) < 10 ==> (tokens[first_fit(tokens, w, 0)] == Some(w) || tokens[first_fit(tokens, w, 0)] is None),
        forall|j: int| 0 <= j < first_fit(tokens, w, 0) ==> tokens[j] != Some(w),
        first_fit(tokens, w, 0) == 10 ==> forall|j: int| 0 <= j < 10 ==> (#[trigger] tokens[j]) is Some && tokens[j] != Some(w),
{
    lemma_first_with_bounds(tokens, w, 0);
    lemma_first_empty_bounds(tokens, 0);
}

pub proof fn lemma_first_held_bounds(tokens: Seq<Option<WeaponToken>>, qty: Seq<u16>, w: WeaponToken, i: int)
    requires
        0 <= i <= 10,
    ensures
        i <= first_held(tokens, qty, w, i) <= 10,
        first_held(tokens, qty, w, i) < 10 ==> (tokens[first_held(tokens, qty, w, i)] == Some(w)
            && qty[first_held(tokens, qty, w, i)] > 0),
        forall|j: int| i <= j < first_held(tokens, qty, w, i) ==> !(tokens[j] == Some(w) && qty[j] > 0),
    decreases 10 - i,
{
    if i < 10 && !(tokens[i] == Some(w) && qty[i] > 0) {
        lemma_first_held_bounds(tokens, qty, w, i + 1);
    }
}

/// `first_with` is the least slot holding `w`.
proof fn lemma_first_with_is(tokens: Seq<Option<WeaponToken>>, w: WeaponToken, k: int)
    requires
        0 <= k <= 10,
        k < 10 ==> tokens[k] == Some(w),
        forall|j: int| 0 <= j < k ==> tokens[j] != Some(w),
    ensures
        first_with(tokens, w, 0) == k,
{
    lemma_first_with_bounds(tokens, w, 0);
}

/// `first_empty` is the least empty slot.
proof fn lemma_first_empty_is(tokens: Seq<Option<WeaponToken>>, k: int)
    requires
        0 <= k <= 10,
        k < 10 ==> tokens[k] is None,
        forall|j: int| 0 <= j < k ==> tokens[j] is Some,
    ensures
        first_empty(tokens, 0) == k,
{
    lemma_first_empty_bounds(tokens, 0);
}

/// `first_held` is the least slot satisfying its condition.
pub proof fn lemma_first_held_is(tokens: Seq<Option<WeaponToken>>, qty: Seq<u16>, w: WeaponToken, k: int)
    requires
        0 <= k <= 10,
        k < 10 ==> (tokens[k] == Some(w) && qty[k] > 0),
        forall|j: int| 0 <= j < k ==> !(tokens[j] == Some(w) && qty[j] > 0),
    ensures
        first_held(tokens, qty, w, 0) == k,
{
    lemma_first_held_bounds(tokens, qty, w, 0);
}

/// What consuming one weapon from slot `index` does to the two slot rows.
pub open spec fn use_slot_spec(tokens: Seq<Option<WeaponToken>>, qty: Seq<u16>, index: int) -> (Seq<Option<WeaponToken>>, Seq<u16>) {
    if index < 0 || index >= 10 || qty[index] == 0 {
        (tokens, qty)
    } else if qty[index] == 1 {
        (tokens.update(index, None), qty.update(index, 0u16))
    } else {
        (tokens, qty.update(index, (qty[index] - 1) as u16))
    }
}

impl Arsenal {
    /// The weapon in each slot.
    pub closed spec fn tokens(&self) -> Seq<Option<WeaponToken>> {
        self.rep@
    }

    /// How many copies are stacked in each slot.
    pub closed spec fn quantities(&self) -> Seq<u16> {
        self.quantity@
    }

    /// A slot is empty exactly when its quantity is zero.
    pub open spec fn wf(&self) -> bool {
        &&& self.tokens().len() == 10
        &&& self.quantities().len() == 10
        &&& forall|i: int| 0 <= i < 10 ==> (#[trigger] self.tokens()[i] is None <==> self.quantities()[i] == 0)
    }

    /// Both slot rows have ten entries.
    pub proof fn lemma_len(&self)
        ensures
            self.tokens().len() == 10,
            self.quantities().len() == 10,
    {
    }

    /// An empty arsenal.
    pub fn new() -> (a: Arsenal)
        ensures
            a.wf(),
            a.tokens() == Seq::new(10, |i: int| None::<WeaponToken>),
            a.quantities() == Seq::new(10, |i: int| 0u16),
    {
        let a = Arsenal { rep: [None; 10], quantity: [0u16; 10] };
        assert(a.tokens() =~= Seq::new(10, |i: int| None::<WeaponToken>));
        assert(a.quantities() =~= Seq::new(10, |i: int| 0u16));
        a
    }

    /// Stack `w` onto the first slot that holds it, or else into the first
    /// empty slot. Returns false, changing nothing, when there is neither (the
    /// arsenal is full of other weapons).
    pub fn buy(&mut self, w: WeaponToken) -> (ok: bool)
        requires
            first_fit(old(self).tokens(), w, 0) < 10 ==> old(self).quantities()[first_fit(old(self).tokens(), w, 0)] < u16::MAX,
        ensures
            ok == (first_fit(old(self).tokens(), w, 0) < 10),
            ok ==> final(self).tokens() == old(self).tokens().update(first_fit(old(self).tokens(), w, 0), Some(w)),
            ok ==> final(self).quantities() == old(self).quantities().update(
                first_fit(old(self).tokens(), w, 0),
                (old(self).quantities()[first_fit(old(self).tokens(), w, 0)] + 1) as u16,
            ),
            !ok ==> *final(self) == *old(self),
            old(self).wf() ==> final(self).wf(),
    {
        let i = self.fit_slot(w);
        if i >= BT_ARSENAL_SIZE {
            return false;
        }
        proof {
            lemma_first_fit_bounds(self.tokens(), w);
        }
        self.rep[i] = Some(w);
        self.quantity[i] = self.quantity[i] + 1;
        true
    }

    /// The slot a purchase of `w` would land in (`10` when none fits).
    pub(crate) fn fit_slot(&self, w: WeaponToken) -> (k: usize)
        ensures
            k == first_fit(self.tokens(), w, 0),
    {
        let mut i: usize = 0;
        while i < BT_ARSENAL_SIZE
            invariant
                0 <= i <= 10,
                forall|j: int| 0 <= j < i ==> self.tokens()[j] != Some(w),
            decreases 10 - i,
        {
            let held = match self.rep[i] {
                Some(t) => t == w,
                None => false,
            };
            if held {
                proof {
                    lemma_first_with_is(self.tokens(), w, i as int);
                }
                return i;
            }
            i = i + 1;
        }
        proof {
            lemma_first_with_is(self.tokens(), w, 10);
        }
        let mut e: usize = 0;
        while e < BT_ARSENAL_SIZE
            invariant
                0 <= e <= 10,
                first_with(self.tokens(), w, 0) == 10,
                forall|j: int| 0 <= j < e ==> self.tokens()[j] is Some,
            decreases 10 - e,
        {
            if self.rep[e].is_none() {
                proof {
                    lemma_first_empty_is(self.tokens(), e as int);
                }
                return e;
            }
            e = e + 1;
        }
        proof {
            lemma_first_empty_is(self.tokens(), 10);
        }
        10
    }

    /// Remove one `w` from the first slot holding it. Returns whether one was present.
    pub fn sell(&mut self, w: WeaponToken) -> (ok: bool)
        ensures
            ok == (first_held(old(self).tokens(), old(self).quantities(), w, 0) < 10),
            (final(self).tokens(), final(self).quantities()) == use_slot_spec(
                old(self).tokens(),
                old(self).quantities(),
                first_held(old(self).tokens(), old(self).quantities(), w, 0),
            ),
            old(self).wf() ==> final(self).wf(),
    {
        let mut i: usize = 0;
        while i < BT_ARSENAL_SIZE
            invariant
                0 <= i <= 10,
                *self == *old(self),
                forall|j: int| 0 <= j < i ==> !(self.tokens()[j] == Some(w) && self.quantities()[j] > 0),
            decreases 10 - i,
        {
            let held = match self.rep[i] {
                Some(t) => t == w && self.quantity[i] > 0,
                None => false,
            };
            if held {
                proof {
                    lemma_first_held_is(self.tokens(), self.quantities(), w, i as int);
                }
                self.use_slot(i);
                return true;
            }
            i = i + 1;
        }
        proof {
            lemma_first_held_is(self.tokens(), self.quantities(), w, 10);
        }
        false
    }

    /// Consume one weapon from slot `index`; the slot empties when its quantity
    /// reaches zero. Out-of-range or empty slots are left alone.
    pub fn use_slot(&mut self, index: usize)
        ensures
            (final(self).tokens(), final(self).quantities()) == use_slot_spec(
                old(self).tokens(),
                old(self).quantities(),
                index as int,
            ),
            old(self).wf() ==> final(self).wf(),
    {
        if index >= BT_ARSENAL_SIZE || self.quantity[index] == 0 {
            return;
        }
        self.quantity[index] = self.quantity[index] - 1;
        if self.quantity[index] == 0 {
            self.rep[index] = None;
        }
    }

    /// Set slot `index` to `token` times `qty`, keeping every other slot in
    /// place. `None` or a zero quantity empties the slot; out of range does nothing.
    pub fn set_slot(&mut self, index: usize, token: Option<WeaponToken>, qty: u16)
        ensures
            index >= 10 ==> *final(self) == *old(self),
            index < 10 && (token is None || qty == 0) ==> final(self).tokens() == old(self).tokens().update(index as int, None)
                && final(self).quantities() == old(self).quantities().update(index as int, 0u16),
            index < 10 && !(token is None || qty == 0) ==> final(self).tokens() == old(self).tokens().update(index as int, token)
                && final(self).quantities() == old(self).quantities().update(index as int, qty),
            old(self).wf() ==> final(self).wf(),
    {
        if index >= BT_ARSENAL_SIZE {
            return;
        }
        if token.is_none() || qty == 0 {
            self.rep[index] = None;
            self.quantity[index] = 0;
        } else {
            self.rep[index] = token;
            self.quantity[index] = qty;
        }
    }

    /// The weapon in slot `index`; out-of-range slots read as empty.
    pub fn token(&self, index: usize) -> (t: Option<WeaponToken>)
        ensures
            t == (if index < 10 { self.tokens()[index as int] } else { None::<WeaponToken> }),
    {
        if index < BT_ARSENAL_SIZE {
            self.rep[index]
        } else {
            None
        }
    }

    /// How many copies are in slot `index` (0 for out of range).
    pub fn quantity(&self, index: usize) -> (q: u16)
        ensures
            q == (if index < 10 { self.quantities()[index as int] } else { 0u16 }),
    {
        if index < BT_ARSENAL_SIZE {
            self.quantity[index]
        } else {
            0
        }
    }

    /// Empty every slot.
    pub fn clear(&mut self)
        ensures
            final(self).wf(),
            final(self).tokens() == Seq::new(10, |i: int| None::<WeaponToken>),
            final(self).quantities() == Seq::new(10, |i: int| 0u16),
    {
        self.rep = [None; 10];
        self.quantity = [0u16; 10];
        assert(self.tokens() =~= Seq::new(10, |i: int| None::<WeaponToken>));
        assert(self.quantities() =~= Seq::new(10, |i: int| 0u16));
    }
}

impl Default for Arsenal {
    fn default() -> (a: Arsenal)
        ensures
            a.wf(),
            a.tokens() == Seq::new(10, |i: int| None::<WeaponToken>),
            a.quantities() == Seq::new(10, |i: int| 0u16),
    {
        Arsenal::new()
    }
}

/// Selling a weapon right after buying it undoes the purchase: the slot rows
/// are exactly what they were before.
pub proof fn lemma_sell_undoes_buy(
    tokens: Seq<Option<WeaponToken>>,
    qty: Seq<u16>,
    w: WeaponToken,
)
    requires
        tokens.len() == 10,
        qty.len() == 10,
        forall|i: int| 0 <= i < 10 ==> (#[trigger] tokens[i] is None <==> qty[i] == 0),
        first_fit(tokens, w, 0) < 10,
        qty[first_fit(tokens, w, 0)] < u16::MAX,
    ensures
        ({
            let k = first_fit(tokens, w, 0);
            let t1 = tokens.update(k, Some(w));
            let q1 = qty.update(k, (qty[k] + 1) as u16);
            use_slot_spec(t1, q1, first_held(t1, q1, w, 0)) == (tokens, qty)
        }),
{
    let k = first_fit(tokens, w, 0);
    lemma_first_fit_bounds(tokens, w);
    let t1 = tokens.update(k, Some(w));
    let q1 = qty.update(k, (qty[k] + 1) as u16);
    assert forall|j: int| 0 <= j < k implies !(t1[j] == Some(w) && q1[j] > 0) by {
        assert(tokens[j] != Some(w));
    }
    lemma_first_held_is(t1, q1, w, k);
    if qty[k] == 0 {
        assert(tokens[k] is None);
        assert(t1.update(k, None) =~= tokens);
        assert(q1.update(k, 0u16) =~= qty);
    } else {
        assert(tokens[k] == Some(w));
        assert(t1 =~= tokens);
        assert(q1.update(k, (q1[k] - 1) as u16) =~= qty);
    }
}

} // verus!
