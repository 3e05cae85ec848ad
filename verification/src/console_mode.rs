//! Text or graphics mode of a terminal, the same flag that a GUI sets when it
//! takes one over, and the marker that remembers a text terminal while it is
//! borrowed for an animation.
use vstd::prelude::*;

use crate::text::{
    decimal, decimal_text, digits_value, law_number_is_read, law_parse_decimal,
    law_trim_decimal, law_trimmed, parse_number, parsed, trim, trimmed, white_space,
};

verus! {

/// The kernel's number for text mode.
pub const KD_TEXT: i32 = 0;

/// The kernel's number for graphics mode.
pub const KD_GRAPHICS: i32 = 1;

/// Whether a terminal in this mode shows graphics.
pub fn is_graphics_mode(mode: i32) -> (graphics: bool)
    ensures
        graphics == (mode != KD_TEXT),
        graphics == (mode != 0),
{
    mode != KD_TEXT
}

/// The steps in which a terminal's mode is set.
#[derive(Debug, Clone, Copy, PartialEq, Eq, Structural)]
pub enum ModeStep {
    /// Write down which terminal is borrowed.
    WriteMarker,
    /// Open the terminal's device.
    Open,
    /// Set this mode.
    SetMode(i32),
    /// The terminal is no longer borrowed.
    RemoveMarker,
    Done,
    Fail,
}

/// The first step towards graphics or text mode. A terminal is written down
/// before it is borrowed.
pub open spec fn first_step(graphics: bool) -> ModeStep {
    if graphics {
        ModeStep::WriteMarker
    } else {
        ModeStep::Open
    }
}

/// The step after `step`, which went well or not. The marker is only a
/// precaution: the mode is set whether or not it could be written or removed.
pub open spec fn step_after(graphics: bool, step: ModeStep, ok: bool) -> ModeStep {
    match step {
        ModeStep::WriteMarker => ModeStep::Open,
        ModeStep::Open => if ok {
            ModeStep::SetMode(
                if graphics {
                    KD_GRAPHICS
                } else {
                    KD_TEXT
                },
            )
        } else {
            ModeStep::Fail
        },
        ModeStep::SetMode(_) => if !ok {
            ModeStep::Fail
        } else if graphics {
            ModeStep::Done
        } else {
            ModeStep::RemoveMarker
        },
        ModeStep::RemoveMarker => ModeStep::Done,
        ModeStep::Done => ModeStep::Done,
        ModeStep::Fail => ModeStep::Fail,
    }
}

/// The first step towards graphics or text mode.
pub fn set_graphics_mode(graphics: bool) -> (step: ModeStep)
    ensures
        step == first_step(graphics),
{
    if graphics {
        ModeStep::WriteMarker
    } else {
        ModeStep::Open
    }
}

impl ModeStep {
    /// The step that comes next on the way to graphics or text mode, after this
    /// one went well or not.
    pub fn next(self, graphics: bool, ok: bool) -> (step: ModeStep)
        ensures
            step == step_after(graphics, self, ok),
    {
        match self {
            ModeStep::WriteMarker => ModeStep::Open,
            ModeStep::Open => if ok {
                ModeStep::SetMode(
                    if graphics {
                        KD_GRAPHICS
                    } else {
                        KD_TEXT
                    },
                )
            } else {
                ModeStep::Fail
            },
            ModeStep::SetMode(_) => if !ok {
                ModeStep::Fail
            } else if graphics {
                ModeStep::Done
            } else {
                ModeStep::RemoveMarker
            },
            ModeStep::RemoveMarker => ModeStep::Done,
            ModeStep::Done => ModeStep::Done,
            ModeStep::Fail => ModeStep::Fail,
        }
    }
}

/// What the marker says while terminal `vt` is borrowed.
pub fn marker_text(vt: u16) -> (text: String)
    ensures
        text@ == decimal(vt as nat),
{
    decimal_text(vt as u32)
}

/// The terminal that a marker names.
pub open spec fn marked_vt(text: Seq<char>) -> Option<nat> {
    parsed(trimmed(text), u16::MAX as nat)
}

/// What to do about a marker that an earlier run left behind.
#[derive(Debug, Clone, Copy, PartialEq, Eq, Structural)]
pub struct Restore {
    /// The terminal to put back into text mode.
    pub vt: Option<u16>,
    /// Whether to remove the marker afterwards.
    pub remove: bool,
}

/// What to do about the marker on starting, given its text if there is one: an
/// earlier run that was interrupted mid-transition may have left a text
/// terminal in graphics mode.
pub fn restore_borrowed(marker: Option<&str>) -> (plan: Restore)
    ensures
        plan.remove == marker is Some,
        marker is Some ==> match plan.vt {
            Some(vt) => parsed(trimmed(marker->0@), 65535) == Some(vt as nat),
            None => parsed(trimmed(marker->0@), 65535) is None,
        },
        match plan.vt {
            Some(vt) => marker is Some && marked_vt(marker->0@) == Some(vt as nat),
            None => marker is Some ==> marked_vt(marker->0@) is None,
        },
{
    match marker {
        None => Restore { vt: None, remove: false },
        Some(text) => {
            let chars = trim(text);
            match parse_number(chars.as_slice(), 65535) {
                Some(vt) => Restore { vt: Some(vt as u16), remove: true },
                None => Restore { vt: None, remove: true },
            }
        },
    }
}

/// A marker names the terminal that it was written for.
pub proof fn law_marker_round_trip(vt: u16)
    ensures
        marked_vt(decimal(vt as nat)) == Some(vt as nat),
{
    law_trim_decimal(vt as nat);
    law_parse_decimal(vt as nat, u16::MAX as nat);
}

/// What outlasts a crash: the marker, and whether the terminal is in graphics
/// mode on our behalf.
pub struct Traces {
    pub marker: Option<Seq<char>>,
    pub borrowed: bool,
}

/// What a step leaves behind.
pub open spec fn leaves(t: Traces, vt: u16, step: ModeStep, ok: bool) -> Traces {
    if !ok {
        t
    } else {
        match step {
            ModeStep::WriteMarker => Traces {
                marker: Some(decimal(vt as nat)),
                borrowed: t.borrowed,
            },
            ModeStep::SetMode(mode) => Traces { marker: t.marker, borrowed: mode != KD_TEXT },
            ModeStep::RemoveMarker => Traces { marker: None, borrowed: t.borrowed },
            _ => t,
        }
    }
}

/// The step due after the steps so far went as told.
pub open spec fn due(graphics: bool, outcomes: Seq<bool>) -> ModeStep
    decreases outcomes.len(),
{
    if outcomes.len() == 0 {
        first_step(graphics)
    } else {
        step_after(graphics, due(graphics, outcomes.drop_last()), outcomes.last())
    }
}

/// What is left behind when a run stops after the steps so far.
pub open spec fn left_behind(t: Traces, vt: u16, graphics: bool, outcomes: Seq<bool>) -> Traces
    decreases outcomes.len(),
{
    if outcomes.len() == 0 {
        t
    } else {
        leaves(
            left_behind(t, vt, graphics, outcomes.drop_last()),
            vt,
            due(graphics, outcomes.drop_last()),
            outcomes.last(),
        )
    }
}

/// While the terminal is borrowed, the marker names it.
pub open spec fn recoverable(t: Traces, vt: u16) -> bool {
    t.borrowed ==> t.marker is Some && marked_vt(t.marker->0) == Some(vt as nat)
}

/// Wherever a run is interrupted, on the way to graphics mode or back, a
/// terminal that it leaves borrowed is named by the marker, provided that the
/// marker could be written.
pub proof fn law_crash_is_recoverable(t: Traces, vt: u16, graphics: bool, outcomes: Seq<bool>)
    requires
        recoverable(t, vt),
        graphics && outcomes.len() > 0 ==> outcomes[0],
    ensures
        recoverable(left_behind(t, vt, graphics, outcomes), vt),
{
    lemma_run(t, vt, graphics, outcomes);
}

/// What holds at each point of a run.
proof fn lemma_run(t: Traces, vt: u16, graphics: bool, outcomes: Seq<bool>)
    requires
        recoverable(t, vt),
        graphics && outcomes.len() > 0 ==> outcomes[0],
    ensures
        ({
            let now = left_behind(t, vt, graphics, outcomes);
            let step = due(graphics, outcomes);
            &&& recoverable(now, vt)
            &&& graphics && outcomes.len() > 0 ==> now.marker == Some(decimal(vt as nat))
            &&& step is RemoveMarker ==> !graphics && !now.borrowed
            &&& step is WriteMarker ==> outcomes.len() == 0
            &&& step matches ModeStep::SetMode(mode) ==> (mode != KD_TEXT) == graphics
                && outcomes.len() > 0
        }),
    decreases outcomes.len(),
{
    law_marker_round_trip(vt);
    if outcomes.len() > 0 {
        let before = outcomes.drop_last();
        if before.len() > 0 {
            assert(before[0] == outcomes[0]);
        }
        lemma_run(t, vt, graphics, before);
    }
}

/// Borrowing a terminal and giving it back, with nothing going wrong, leaves it
/// in text mode and no marker behind.
pub proof fn law_borrow_and_return(t: Traces, vt: u16)
    ensures
        ({
            let fine = seq![true, true, true];
            let during = left_behind(t, vt, true, fine);
            let after = left_behind(during, vt, false, fine);
            &&& due(true, fine) is Done
            &&& during.borrowed
            &&& during.marker == Some(decimal(vt as nat))
            &&& due(false, fine) is Done
            &&& !after.borrowed
            &&& after.marker is None
        }),
{
    let fine = seq![true, true, true];
    reveal_with_fuel(due, 4);
    reveal_with_fuel(left_behind, 4);
    assert(fine.drop_last() =~= seq![true, true]);
    assert(fine.drop_last().drop_last() =~= seq![true]);
    assert(fine.drop_last().drop_last().drop_last() =~= Seq::<bool>::empty());
}

/// The kernel's numbers for the two modes.
pub proof fn law_mode_numbers()
    ensures
        KD_TEXT == 0,
        KD_GRAPHICS == 1,
{
}

/// A marker is read whatever white space surrounds the number, and whatever
/// zeros stand in front of it.
pub proof fn law_marker_is_read_leniently(
    before: Seq<char>,
    digits: Seq<char>,
    after: Seq<char>,
)
    requires
        forall|i: int| 0 <= i < before.len() ==> white_space(#[trigger] before[i]),
        forall|i: int| 0 <= i < after.len() ==> white_space(#[trigger] after[i]),
        digits.len() > 0,
        forall|i: int| 0 <= i < digits.len() ==> '0' <= #[trigger] digits[i] <= '9',
    ensures
        marked_vt(before + digits + after) == if digits_value(digits) <= 65535 {
            Some(digits_value(digits))
        } else {
            None
        },
{
    assert('0' <= digits[0] <= '9');
    assert('0' <= digits[digits.len() - 1] <= '9');
    law_trimmed(before, digits, after);
    law_number_is_read(digits, 65535);
}

/// A terminal is written down before it is opened for borrowing, and struck out
/// only once it is back in text mode; failing to write or to strike it out stops
/// nothing, failing to open it or to set its mode stops everything.
pub proof fn law_mode_order(ok: bool)
    ensures
        first_step(true) is WriteMarker,
        first_step(false) is Open,
        step_after(true, ModeStep::WriteMarker, ok) is Open,
        step_after(true, ModeStep::Open, true) == ModeStep::SetMode(1),
        step_after(false, ModeStep::Open, true) == ModeStep::SetMode(0),
        step_after(ok, ModeStep::Open, false) is Fail,
        step_after(true, ModeStep::SetMode(1), true) is Done,
        step_after(false, ModeStep::SetMode(0), true) is RemoveMarker,
        step_after(true, ModeStep::SetMode(1), false) is Fail,
        step_after(false, ModeStep::SetMode(0), false) is Fail,
        step_after(false, ModeStep::RemoveMarker, ok) is Done,
{
}

} // verus!
