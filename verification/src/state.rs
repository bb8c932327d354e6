//! The state tracker: holds the last known address and classifies each new
//! observation as initialized, replaced or unchanged.

use vstd::prelude::*;

use crate::ip::IpAddress;

verus! {

/// The resulting effect of a state update.
#[derive(Clone, Copy, Debug, PartialEq, Eq, Structural)]
pub enum UpdateEffect {
    /// The state was initialized with the passed value; it was empty before the update.
    Initialized,
    /// The state was replaced with the passed value; it held the carried value before.
    Replaced(IpAddress),
    /// The state was unchanged, since the new value is equal to the old value.
    Unchanged,
}

/// A container that encapsulates the state update logic.
///
/// Its abstract value is the stored optional address: `None` until the first
/// successful update, then always the most recently stored address.
pub struct State {
    current: Option<IpAddress>,
}

impl View for State {
    type V = Option<IpAddress>;

    closed spec fn view(&self) -> Option<IpAddress> {
        self.current
    }
}

/// What one update does: the stored value after the call, and the effect
/// reported to the caller, as a function of the stored value before the call
/// and the new observation.
pub open spec fn spec_update(prev: Option<IpAddress>, new: IpAddress) -> (Option<IpAddress>,
    UpdateEffect) {
    match prev {
        None => (Some(new), UpdateEffect::Initialized),
        Some(p) => if p == new {
            (Some(p), UpdateEffect::Unchanged)
        } else {
            (Some(new), UpdateEffect::Replaced(p))
        },
    }
}

impl State {
    /// Create an uninitialized `State`.
    pub fn uninitialized() -> (r: Self)
        ensures
            r@ is None,
    {
        State { current: None }
    }

    /// The stored address, if any.
    pub fn current(&self) -> (r: Option<IpAddress>)
        ensures
            r == self@,
    {
        self.current
    }

    /// Update the `State` with the new value, returning how the stored value
    /// changed.
    pub fn update(&mut self, new: IpAddress) -> (e: UpdateEffect)
        ensures
            (final(self)@, e) == spec_update(old(self)@, new),
    {
        let prev = self.current;
        match prev {
            None => {
                self.current = Some(new);
                UpdateEffect::Initialized
            },
            Some(o) => {
                if o == new {
                    UpdateEffect::Unchanged
                } else {
                    self.current = Some(new);
                    UpdateEffect::Replaced(o)
                }
            },
        }
    }
}

/// The value a fresh tracker stores after it has seen the addresses of
/// `addrs`, in order.
pub open spec fn state_after(addrs: Seq<IpAddress>) -> Option<IpAddress>
    decreases addrs.len(),
{
    if addrs.len() == 0 {
        None
    } else {
        spec_update(state_after(addrs.drop_last()), addrs.last()).0
    }
}

/// The effect a fresh tracker reports for the `i`-th update when fed the
/// addresses of `addrs`, in order.
pub open spec fn effect_at(addrs: Seq<IpAddress>, i: int) -> UpdateEffect
    recommends
        0 <= i < addrs.len(),
{
    spec_update(state_after(addrs.take(i)), addrs[i]).1
}

/// After any updates, the tracker stores exactly the last address it saw.
pub proof fn lemma_state_after_last(addrs: Seq<IpAddress>)
    ensures
        addrs.len() == 0 ==> state_after(addrs) is None,
        addrs.len() > 0 ==> state_after(addrs) == Some(addrs.last()),
    decreases addrs.len(),
{
    if addrs.len() > 0 {
        lemma_state_after_last(addrs.drop_last());
    }
}

/// Law: across any sequence of resolved addresses fed to a fresh tracker,
/// exactly the first update reports `Initialized`; every later update
/// reports `Replaced` of the immediately preceding address when the new
/// address differs from it, and `Unchanged` otherwise.
pub proof fn lemma_update_sequence(addrs: Seq<IpAddress>, i: int)
    requires
        0 <= i < addrs.len(),
    ensures
        effect_at(addrs, i) == if i == 0 {
            UpdateEffect::Initialized
        } else if addrs[i] != addrs[i - 1] {
            UpdateEffect::Replaced(addrs[i - 1])
        } else {
            UpdateEffect::Unchanged
        },
{
    lemma_state_after_last(addrs.take(i));
}

/// How many of the first `n` updates report an effect that triggers a
/// report, that is `Initialized` or `Replaced`.
pub open spec fn report_count(addrs: Seq<IpAddress>, n: int) -> int
    decreases n,
{
    if n <= 0 {
        0
    } else {
        report_count(addrs, n - 1) + if effect_at(addrs, n - 1) is Unchanged {
            0int
        } else {
            1int
        }
    }
}

/// How many of the first `n` addresses differ from the address immediately
/// before them.
pub open spec fn change_count(addrs: Seq<IpAddress>, n: int) -> int
    decreases n,
{
    if n <= 1 {
        0
    } else {
        change_count(addrs, n - 1) + if addrs[n - 1] != addrs[n - 2] {
            1int
        } else {
            0int
        }
    }
}

/// Law: the number of report-triggering effects across a sequence of
/// updates equals one (for the initializing first update) plus the number
/// of updates whose address differs from the immediately preceding one.
pub proof fn lemma_report_count(addrs: Seq<IpAddress>, n: int)
    requires
        0 <= n <= addrs.len(),
    ensures
        n == 0 ==> report_count(addrs, n) == 0,
        n > 0 ==> report_count(addrs, n) == 1 + change_count(addrs, n),
    decreases n,
{
    if n > 0 {
        lemma_report_count(addrs, n - 1);
        lemma_update_sequence(addrs, n - 1);
    }
}

/// Law: updating twice with the same address after initialization yields
/// `Initialized` and then `Unchanged`, never two `Initialized`.
pub proof fn lemma_update_idempotent(a: IpAddress)
    ensures
        spec_update(None::<IpAddress>, a).1 == UpdateEffect::Initialized,
        spec_update(spec_update(None::<IpAddress>, a).0, a).1 == UpdateEffect::Unchanged,
{
}

} // verus!
