//! Which virtual terminals there are, and which one comes next.
//!
//! Switching itself is the kernel's business and independent of anything that
//! runs on a terminal: a shell, an X server or a Wayland compositor just
//! happens to own whichever one is active.
use vstd::prelude::*;

use crate::gesture::SwipeDirection;
use crate::text::{decimal, numbered};

verus! {

/// The kernel's reply about the state of the terminals.
#[derive(Debug, Clone, Copy, PartialEq, Eq, Structural)]
pub struct VtStat {
    pub v_active: u16,
    pub v_signal: u16,
    /// Bit `n` is set when terminal `n` is allocated.
    pub v_state: u16,
}

/// Terminal `vt` is allocated.
pub open spec fn is_allocated(v_state: u16, vt: u16) -> bool {
    v_state & (1u16 << vt) != 0
}

/// The allocated terminals from 1 on and below `end`, in order.
pub open spec fn allocated_below(v_state: u16, end: nat) -> Seq<u16>
    decreases end,
{
    if end <= 1 {
        Seq::empty()
    } else {
        let before = allocated_below(v_state, (end - 1) as nat);
        if is_allocated(v_state, (end - 1) as u16) {
            before.push((end - 1) as u16)
        } else {
            before
        }
    }
}

/// All terminals that the kernel reports as allocated. The reply has sixteen
/// bits, so that it only shows terminals 1 to 15.
pub open spec fn allocated(v_state: u16) -> Seq<u16> {
    allocated_below(v_state, 16)
}

/// The first terminal in the list that is above `vt`.
pub open spec fn first_above(vts: Seq<u16>, vt: u16) -> Option<u16>
    decreases vts.len(),
{
    if vts.len() == 0 {
        None
    } else if vts[0] > vt {
        Some(vts[0])
    } else {
        first_above(vts.drop_first(), vt)
    }
}

/// The last terminal in the list that is below `vt`.
pub open spec fn last_below(vts: Seq<u16>, vt: u16) -> Option<u16>
    decreases vts.len(),
{
    if vts.len() == 0 {
        None
    } else if vts.last() < vt {
        Some(vts.last())
    } else {
        last_below(vts.drop_last(), vt)
    }
}

/// The terminal after, or before, the active one in the list, wrapping around.
/// The active one need not be in the list itself. With no terminal in the list
/// it is the active one.
pub open spec fn neighbour(vts: Seq<u16>, active: u16, forward: bool) -> u16 {
    if vts.len() == 0 {
        active
    } else if forward {
        match first_above(vts, active) {
            Some(vt) => vt,
            None => vts[0],
        }
    } else {
        match last_below(vts, active) {
            Some(vt) => vt,
            None => vts.last(),
        }
    }
}

/// `to` is the least of the list above `active`, or where there is none, the
/// first of the list.
pub open spec fn comes_next(vts: Seq<u16>, active: u16, to: u16) -> bool {
    if exists|i: int| 0 <= i < vts.len() && #[trigger] vts[i] > active {
        &&& vts.contains(to)
        &&& to > active
        &&& forall|i: int| 0 <= i < vts.len() && #[trigger] vts[i] > active ==> to <= vts[i]
    } else {
        to == vts[0]
    }
}

/// `to` is the greatest of the list below `active`, or where there is none, the
/// last of the list.
pub open spec fn comes_before(vts: Seq<u16>, active: u16, to: u16) -> bool {
    if exists|i: int| 0 <= i < vts.len() && #[trigger] vts[i] < active {
        &&& vts.contains(to)
        &&& to < active
        &&& forall|i: int| 0 <= i < vts.len() && #[trigger] vts[i] < active ==> to >= vts[i]
    } else {
        to == vts.last()
    }
}

/// Each element is larger than those before it.
pub open spec fn increasing(vts: Seq<u16>) -> bool {
    forall|i: int, j: int| 0 <= i < j < vts.len() ==> vts[i] < vts[j]
}

/// The list of allocated terminals is in order, without repetition, and holds
/// exactly those whose bit is set.
pub proof fn law_allocated(v_state: u16, end: nat)
    requires
        end <= 16,
    ensures
        increasing(allocated_below(v_state, end)),
        forall|vt: u16| #[trigger]
            allocated_below(v_state, end).contains(vt) <==> 1 <= vt < end && is_allocated(
                v_state,
                vt,
            ),
    decreases end,
{
    let vts = allocated_below(v_state, end);
    if end > 1 {
        let last = (end - 1) as u16;
        let before = allocated_below(v_state, (end - 1) as nat);
        law_allocated(v_state, (end - 1) as nat);
        assert forall|i: int| 0 <= i < before.len() implies before[i] < last by {
            assert(before.contains(before[i]));
        }
        assert forall|vt: u16| #[trigger] vts.contains(vt) <==> 1 <= vt < end && is_allocated(
            v_state,
            vt,
        ) by {
            if vts.contains(vt) {
                let i = vts.index_of(vt);
                if i < before.len() {
                    assert(before[i] == vt);
                    assert(before.contains(vt));
                }
            }
            if 1 <= vt < end && is_allocated(v_state, vt) {
                if vt == last {
                    assert(vts[before.len() as int] == vt);
                } else {
                    assert(before.contains(vt));
                    assert(vts[before.index_of(vt)] == vt);
                }
            }
        }
    }
}

/// Where none of the first `k` is above `vt` and the next one is, that is the
/// first above it.
proof fn lemma_first_above(vts: Seq<u16>, vt: u16, k: int)
    requires
        0 <= k <= vts.len(),
        forall|i: int| 0 <= i < k ==> vts[i] <= vt,
        k < vts.len() ==> vts[k] > vt,
    ensures
        first_above(vts, vt) == if k < vts.len() {
            Some(vts[k])
        } else {
            None
        },
    decreases k,
{
    if k > 0 {
        lemma_first_above(vts.drop_first(), vt, k - 1);
    }
}

/// Where none from the one at `k` on is below `vt` and the one before is, that is
/// the last below it.
proof fn lemma_last_below(vts: Seq<u16>, vt: u16, k: int)
    requires
        0 <= k <= vts.len(),
        forall|i: int| k <= i < vts.len() ==> vts[i] >= vt,
        k > 0 ==> vts[k - 1] < vt,
    ensures
        last_below(vts, vt) == if k > 0 {
            Some(vts[k - 1])
        } else {
            None
        },
    decreases vts.len(),
{
    if k < vts.len() {
        lemma_last_below(vts.drop_last(), vt, k);
    }
}

/// How many of the list are not above `vt`.
pub open spec fn up_to(vts: Seq<u16>, vt: u16) -> nat
    decreases vts.len(),
{
    if vts.len() == 0 {
        0
    } else {
        up_to(vts.drop_last(), vt) + if vts.last() <= vt {
            1nat
        } else {
            0
        }
    }
}

/// Those of an increasing list that are not above `vt` stand in front.
proof fn lemma_up_to(vts: Seq<u16>, vt: u16)
    requires
        increasing(vts),
    ensures
        up_to(vts, vt) <= vts.len(),
        forall|i: int| 0 <= i < vts.len() ==> (vts[i] <= vt <==> i < up_to(vts, vt)),
    decreases vts.len(),
{
    if vts.len() > 0 {
        lemma_up_to(vts.drop_last(), vt);
        assert forall|i: int| 0 <= i < vts.len() implies (vts[i] <= vt <==> i < up_to(vts, vt)) by {
            if i < vts.len() - 1 {
                assert(vts.drop_last()[i] == vts[i]);
                assert(vts[i] < vts[vts.len() - 1]);
            }
        }
        if vts.last() <= vt && vts.len() > 1 {
            assert(vts[vts.len() - 2] < vts[vts.len() - 1]);
            assert(vts.drop_last()[vts.len() - 2] == vts[vts.len() - 2]);
        }
    }
}

/// The neighbours in an increasing list, by where they stand.
proof fn lemma_neighbour_at(vts: Seq<u16>, active: u16)
    requires
        increasing(vts),
        vts.len() > 0,
    ensures
        ({
            let k = up_to(vts, active) as int;
            let j = if k > 0 && vts[k - 1] == active {
                k - 1
            } else {
                k
            };
            &&& neighbour(vts, active, true) == vts[if k < vts.len() {
                k
            } else {
                0
            }]
            &&& neighbour(vts, active, false) == vts[if j > 0 {
                j - 1
            } else {
                vts.len() - 1
            }]
        }),
{
    let k = up_to(vts, active) as int;
    lemma_up_to(vts, active);
    lemma_first_above(vts, active, k);
    let j = if k > 0 && vts[k - 1] == active {
        k - 1
    } else {
        k
    };
    assert forall|i: int| j <= i < vts.len() implies vts[i] >= active by {
        if i < k {
            assert(i == k - 1);
        }
    }
    if j > 0 {
        assert(vts[j - 1] < active) by {
            if j == k - 1 {
                assert(vts[j - 1] < vts[j]);
            }
        }
    }
    lemma_last_below(vts, active, j);
}

/// Those not above the one at `i` of an increasing list are it and those before.
proof fn lemma_up_to_at(vts: Seq<u16>, i: int)
    requires
        increasing(vts),
        0 <= i < vts.len(),
    ensures
        up_to(vts, vts[i]) == i + 1,
{
    let k = up_to(vts, vts[i]) as int;
    lemma_up_to(vts, vts[i]);
    if i + 1 < vts.len() {
        assert(vts[i] < vts[i + 1]);
    }
}

impl VtStat {
    /// The currently active terminal, and all allocated ones.
    pub fn state(&self) -> (s: (u16, Vec<u16>))
        ensures
            s.0 == self.v_active,
            s.1@ == allocated(self.v_state),
            forall|i: int, j: int| 0 <= i < j < s.1@.len() ==> s.1@[i] < s.1@[j],
            forall|vt: u16| #[trigger]
                s.1@.contains(vt) <==> 1 <= vt <= 15 && self.v_state & (1u16 << vt) != 0,
    {
        let mut vts: Vec<u16> = Vec::new();
        let mut vt: u16 = 1;
        while vt < 16
            invariant
                1 <= vt <= 16,
                vts@ == allocated_below(self.v_state, vt as nat),
            decreases 16 - vt,
        {
            if self.v_state & (1u16 << vt) != 0 {
                vts.push(vt);
            }
            vt = vt + 1;
        }
        proof {
            law_allocated_bits(self.v_state);
            assert(vts@ == allocated(self.v_state));
        }
        (self.v_active, vts)
    }

    /// The currently active terminal.
    pub fn active_vt(&self) -> (vt: u16)
        ensures
            vt == self.v_active,
    {
        self.v_active
    }

    /// The current terminal, and the next or previous allocated one, wrapping
    /// around.
    pub fn targets(&self, forward: bool) -> (t: (u16, u16))
        ensures
            t.0 == self.v_active,
            t.1 == neighbour(allocated(self.v_state), self.v_active, forward),
            allocated(self.v_state).len() == 0 ==> t.1 == t.0,
            allocated(self.v_state).len() > 0 ==> if forward {
                comes_next(allocated(self.v_state), self.v_active, t.1)
            } else {
                comes_before(allocated(self.v_state), self.v_active, t.1)
            },
    {
        let (active, vts) = self.state();
        let n: usize = vts.len();
        if n == 0 {
            return (active, active);
        }
        proof {
            law_allocated(self.v_state, 16);
            law_next_in_order(self.v_state, active);
        }
        if forward {
            let mut i: usize = 0;
            while i < n && vts[i] <= active
                invariant
                    i <= n,
                    n == vts@.len(),
                    forall|j: int| 0 <= j < i ==> vts@[j] <= active,
                ensures
                    i <= n,
                    i < n ==> vts@[i as int] > active,
                    forall|j: int| 0 <= j < i ==> vts@[j] <= active,
                decreases n - i,
            {
                i = i + 1;
            }
            proof {
                lemma_first_above(vts@, active, i as int);
            }
            (active, vts[if i < n {
                i
            } else {
                0
            }])
        } else {
            let mut i: usize = n;
            while i > 0 && vts[i - 1] >= active
                invariant
                    i <= n,
                    n == vts@.len(),
                    forall|j: int| i <= j < n ==> vts@[j] >= active,
                ensures
                    i <= n,
                    i > 0 ==> vts@[i - 1] < active,
                    forall|j: int| i <= j < n ==> vts@[j] >= active,
                decreases i,
            {
                i = i - 1;
            }
            proof {
                lemma_last_below(vts@, active, i as int);
            }
            (active, vts[if i > 0 {
                i - 1
            } else {
                n - 1
            }])
        }
    }
}

/// Where a swipe leads: left to the next terminal, right to the previous one.
/// Up and down lead nowhere.
pub open spec fn is_forward(direction: SwipeDirection) -> Option<bool> {
    match direction {
        SwipeDirection::Left => Some(true),
        SwipeDirection::Right => Some(false),
        SwipeDirection::Up | SwipeDirection::Down => None,
    }
}

/// The current terminal and the one that a swipe leads to, if that is another.
pub fn swipe_targets(stat: &VtStat, direction: SwipeDirection) -> (t: Option<(u16, u16)>)
    ensures
        direction is Up || direction is Down ==> t is None,
        direction is Left && neighbour(allocated(stat.v_state), stat.v_active, true)
            != stat.v_active ==> t == Some(
            (stat.v_active, neighbour(allocated(stat.v_state), stat.v_active, true)),
        ),
        direction is Right && neighbour(allocated(stat.v_state), stat.v_active, false)
            != stat.v_active ==> t == Some(
            (stat.v_active, neighbour(allocated(stat.v_state), stat.v_active, false)),
        ),
        t == match is_forward(direction) {
            Some(forward) => {
                let to = neighbour(allocated(stat.v_state), stat.v_active, forward);
                if to != stat.v_active {
                    Some((stat.v_active, to))
                } else {
                    None
                }
            },
            None => None,
        },
{
    let (from, to) = match direction {
        SwipeDirection::Left => stat.targets(true),
        SwipeDirection::Right => stat.targets(false),
        SwipeDirection::Up | SwipeDirection::Down => return None,
    };
    if to != from {
        Some((from, to))
    } else {
        None
    }
}

/// The device file of a terminal.
pub fn tty_path(vt: u16) -> (path: String)
    ensures
        path@ == "/dev/tty"@ + decimal(vt as nat),
{
    numbered("/dev/tty", vt as u32)
}

/// A swipe only ever leads to an allocated terminal.
pub proof fn law_target_is_allocated(v_state: u16, active: u16, forward: bool)
    requires
        allocated(v_state).len() > 0,
    ensures
        allocated(v_state).contains(neighbour(allocated(v_state), active, forward)),
{
    law_allocated(v_state, 16);
    lemma_up_to(allocated(v_state), active);
    lemma_neighbour_at(allocated(v_state), active);
}

/// From any terminal, allocated or not, swiping forward leads to the least
/// allocated one above it, or if there is none, to the lowest of all; swiping
/// back leads to the greatest below it, or if there is none, to the highest.
pub proof fn law_next_in_order(v_state: u16, active: u16)
    requires
        allocated(v_state).len() > 0,
    ensures
        comes_next(
            allocated(v_state),
            active,
            neighbour(allocated(v_state), active, true),
        ),
        comes_before(
            allocated(v_state),
            active,
            neighbour(allocated(v_state), active, false),
        ),
{
    let vts = allocated(v_state);
    let n = vts.len() as int;
    let k = up_to(vts, active) as int;
    law_allocated(v_state, 16);
    lemma_up_to(vts, active);
    lemma_neighbour_at(vts, active);
    if k < n {
        assert(vts[k] > active);
    }
    if k > 0 && vts[k - 1] == active {
        if k > 1 {
            assert(vts[k - 2] < vts[k - 1]);
        }
    } else if k > 0 {
        assert(vts[k - 1] < active);
    }
}

/// From an allocated terminal, swiping one way and back again leads to where
/// it started.
pub proof fn law_there_and_back(v_state: u16, active: u16, forward: bool)
    requires
        allocated(v_state).contains(active),
    ensures
        neighbour(
            allocated(v_state),
            neighbour(allocated(v_state), active, forward),
            !forward,
        ) == active,
{
    let vts = allocated(v_state);
    let n = vts.len() as int;
    law_allocated(v_state, 16);
    let p = vts.index_of(active);
    assert(0 <= p < n && vts[p] == active);
    lemma_up_to_at(vts, p);
    lemma_neighbour_at(vts, active);
    let k = if forward {
        if p + 1 < n {
            p + 1
        } else {
            0
        }
    } else {
        if p > 0 {
            p - 1
        } else {
            n - 1
        }
    };
    assert(neighbour(vts, active, forward) == vts[k]);
    lemma_up_to_at(vts, k);
    lemma_neighbour_at(vts, vts[k]);
}

/// The terminal reached after a number of swipes forward.
pub open spec fn after_swipes(vts: Seq<u16>, active: u16, swipes: nat) -> u16
    decreases swipes,
{
    if swipes == 0 {
        active
    } else {
        neighbour(vts, after_swipes(vts, active, (swipes - 1) as nat), true)
    }
}

/// From any terminal, swiping forward goes through all allocated ones in turn,
/// over and over, from the first above it on.
pub proof fn law_cycles_through_all(v_state: u16, active: u16, swipes: nat)
    requires
        allocated(v_state).len() > 0,
        swipes > 0,
    ensures
        after_swipes(allocated(v_state), active, swipes) == allocated(v_state)[(up_to(
            allocated(v_state),
            active,
        ) + swipes - 1) % allocated(v_state).len() as int],
    decreases swipes,
{
    let vts = allocated(v_state);
    let n = vts.len() as int;
    let k = up_to(vts, active) as int;
    law_allocated(v_state, 16);
    lemma_up_to(vts, active);
    if swipes == 1 {
        assert(after_swipes(vts, active, 0) == active);
        lemma_neighbour_at(vts, active);
        lemma_wrap(k, n);
    } else {
        law_cycles_through_all(v_state, active, (swipes - 1) as nat);
        let at = (k + swipes - 2) % n;
        vstd::arithmetic::div_mod::lemma_mod_bound(k + swipes - 2, n);
        vstd::arithmetic::div_mod::lemma_add_mod_noop_right(1, k + swipes - 2, n);
        lemma_up_to_at(vts, at);
        lemma_neighbour_at(vts, vts[at]);
        lemma_wrap(at + 1, n);
    }
}

/// The place after the last in a ring of `n` is the first.
proof fn lemma_wrap(p: int, n: int)
    requires
        0 <= p <= n,
        n > 0,
    ensures
        p % n == if p < n {
            p
        } else {
            0
        },
{
    if p < n {
        vstd::arithmetic::div_mod::lemma_small_mod(p as nat, n as nat);
    } else {
        vstd::arithmetic::div_mod::lemma_mod_self_0(n);
    }
}

/// The steps in which a terminal is activated.
#[derive(Debug, Clone, Copy, PartialEq, Eq, Structural)]
pub enum ActivateStep {
    /// Ask the kernel for the switch.
    Request,
    /// Wait until the kernel reports the terminal as active.
    WaitActive,
    Done,
    Fail,
}

impl ActivateStep {
    /// The step after this one, which went well or not. A switch that could not
    /// be asked for is not waited for.
    pub open spec fn after(self, ok: bool) -> ActivateStep {
        match self {
            ActivateStep::Request if ok => ActivateStep::WaitActive,
            ActivateStep::WaitActive if ok => ActivateStep::Done,
            ActivateStep::Done => ActivateStep::Done,
            _ => ActivateStep::Fail,
        }
    }

    /// The step that comes next, after this one went well or not.
    pub fn next(self, ok: bool) -> (step: ActivateStep)
        ensures
            step == self.after(ok),
    {
        match self {
            ActivateStep::Request => if ok {
                ActivateStep::WaitActive
            } else {
                ActivateStep::Fail
            },
            ActivateStep::WaitActive => if ok {
                ActivateStep::Done
            } else {
                ActivateStep::Fail
            },
            ActivateStep::Done => ActivateStep::Done,
            ActivateStep::Fail => ActivateStep::Fail,
        }
    }
}

/// The first step towards activating a terminal.
pub fn activate() -> (step: ActivateStep)
    ensures
        step == ActivateStep::Request,
{
    ActivateStep::Request
}

/// A terminal is activated exactly when both the request and the wait for it go
/// well.
pub proof fn law_activation(requested: bool, waited: bool)
    ensures
        ActivateStep::Request.after(requested).after(waited) is Done <==> requested && waited,
        ActivateStep::Request.after(requested) is WaitActive <==> requested,
        !requested ==> ActivateStep::Request.after(requested) is Fail,
{
}

/// The list of allocated terminals is increasing, and holds exactly those from 1
/// to 15 whose bit is set.
pub proof fn law_allocated_bits(v_state: u16)
    ensures
        forall|i: int, j: int|
            0 <= i < j < allocated(v_state).len() ==> allocated(v_state)[i] < allocated(v_state)[j],
        forall|vt: u16| #[trigger]
            allocated(v_state).contains(vt) <==> 1 <= vt <= 15 && v_state & (1u16 << vt) != 0,
{
    law_allocated(v_state, 16);
}

/// No allocated terminal lies between a terminal and its neighbours: none above
/// it is nearer than the next, none below it nearer than the previous. Only where
/// none is left on that side does a swipe wrap around, to the far end.
pub proof fn law_nothing_in_between(v_state: u16, active: u16, vt: u16)
    requires
        1 <= vt <= 15,
        v_state & (1u16 << vt) != 0,
    ensures
        ({
            let next = neighbour(allocated(v_state), active, true);
            &&& 1 <= next <= 15 && v_state & (1u16 << next) != 0
            &&& vt > active ==> active < next <= vt
            &&& next <= active ==> vt <= active && next <= vt
        }),
        ({
            let previous = neighbour(allocated(v_state), active, false);
            &&& 1 <= previous <= 15 && v_state & (1u16 << previous) != 0
            &&& vt < active ==> vt <= previous < active
            &&& previous >= active ==> vt >= active && previous >= vt
        }),
{
    let vts = allocated(v_state);
    law_allocated_bits(v_state);
    assert(vts.contains(vt));
    let q = vts.index_of(vt);
    assert(vts[q] == vt);
    law_target_is_allocated(v_state, active, true);
    law_target_is_allocated(v_state, active, false);
    law_next_in_order(v_state, active);
    let next = neighbour(vts, active, true);
    let previous = neighbour(vts, active, false);
    if !(exists|i: int| 0 <= i < vts.len() && #[trigger] vts[i] > active) {
        assert(vts[0] <= vts[q]);
        assert(next == vts[0]);
    }
    if !(exists|i: int| 0 <= i < vts.len() && #[trigger] vts[i] < active) {
        assert(vts[q] <= vts[vts.len() - 1]);
        assert(previous == vts[vts.len() - 1]);
    }
}

/// Without an allocated terminal a swipe leads nowhere.
pub proof fn law_nowhere_to_go(v_state: u16, active: u16, forward: bool)
    requires
        forall|vt: u16| 1 <= vt <= 15 ==> #[trigger] (v_state & (1u16 << vt)) == 0,
    ensures
        neighbour(allocated(v_state), active, forward) == active,
{
    law_allocated_bits(v_state);
    let vts = allocated(v_state);
    if vts.len() > 0 {
        assert(vts.contains(vts[0]));
    }
}

} // verus!
