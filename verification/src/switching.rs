//! The course of a switch from one terminal to another, animated where that
//! works and instant where it does not.
//!
//! The program takes one step at a time and tells how it went; which step comes
//! next is decided here.
use vstd::prelude::*;

use crate::transition::{Incoming, Outgoing};

verus! {

/// Whose the display is.
#[derive(Debug, Clone, Copy, PartialEq, Eq, Structural)]
pub enum Display {
    /// Not ours so far.
    Theirs,
    /// Ours.
    Held,
    /// No longer ours.
    Released,
}

/// Whether the terminals have been switched.
#[derive(Debug, Clone, Copy, PartialEq, Eq, Structural)]
pub enum Target {
    /// Not yet.
    Pending,
    /// The kernel reports the target as active.
    Active,
    /// The kernel would not switch.
    Refused,
}

/// A step of a switch.
#[derive(Debug, Clone, Copy, PartialEq, Eq, Structural)]
pub enum SwitchStep {
    /// Take a picture of the terminal that is left.
    CaptureLeft,
    /// Get a picture of the terminal that is entered, live or the last one.
    GetPicture,
    /// Find the display, make buffers for it and fit the pictures to it.
    OpenDisplay,
    /// Ask for the switch without waiting: an X server lets go of the display
    /// on its way out.
    Request,
    /// Take the display over.
    TakeDisplay,
    /// Show the picture of the terminal that is left, frozen.
    ShowLeft,
    /// Wait until the switch that was asked for has happened.
    WaitActive,
    /// Switch, and wait until it has happened.
    Activate,
    /// Let the console that was entered settle, and take a picture of it.
    CaptureEntered,
    /// Slide from one picture to the other.
    Slide,
    /// Put the console that was entered into graphics mode.
    BorrowConsole,
    /// Let go of the display.
    DropDisplay,
    /// Put the console back into text mode, on which it redraws everything.
    ReturnConsole,
    /// Wait until the X server shows its own picture again.
    WaitReleased,
    Done,
}

/// A switch under way.
#[derive(Debug, Clone, Copy)]
pub struct Switch {
    /// The pictures that it is animated with, if it is.
    pub pictures: Option<(Outgoing, Incoming)>,
    /// There is a picture of the terminal that is entered.
    pub picture: bool,
    pub display: Display,
    pub target: Target,
    /// The animation is over, or was given up.
    pub over: bool,
    /// The console that was entered has been borrowed.
    pub borrowed: bool,
    /// The step to take.
    pub step: SwitchStep,
}

impl Switch {
    /// The terminal that is left belongs to an X server.
    pub open spec fn leaves_x(self) -> bool {
        self.pictures matches Some((Outgoing::XServer, _))
    }

    /// The terminal that is entered belongs to an X server.
    pub open spec fn enters_x(self) -> bool {
        self.pictures matches Some((_, Incoming::XServerOrLast))
    }

    /// A picture of the terminal that is entered can be taken after the switch.
    pub open spec fn can_wait(self) -> bool {
        self.pictures matches Some((_, Incoming::LastConsole))
    }

    /// A switch before its first step.
    pub open spec fn started(pictures: Option<(Outgoing, Incoming)>) -> Switch {
        Switch {
            pictures,
            picture: false,
            display: Display::Theirs,
            target: Target::Pending,
            over: pictures is None,
            borrowed: false,
            step: if pictures is None {
                SwitchStep::Activate
            } else {
                SwitchStep::CaptureLeft
            },
        }
    }

    /// The same switch with another step to take.
    pub open spec fn at(self, step: SwitchStep) -> Switch {
        Switch { step, ..self }
    }

    /// What is left to do once the animation is over or given up: switch if
    /// that has not been tried, and give the display back to whoever owns the
    /// target. A console has to be active to take it back, an X server can only
    /// become active once it is free.
    pub open spec fn wound_up(self) -> Switch {
        let step = if self.display is Held {
            if self.enters_x() {
                SwitchStep::DropDisplay
            } else {
                match self.target {
                    Target::Pending => SwitchStep::Activate,
                    Target::Active => SwitchStep::BorrowConsole,
                    Target::Refused => SwitchStep::DropDisplay,
                }
            }
        } else if self.target is Pending {
            SwitchStep::Activate
        } else if self.target is Active && self.display is Released && self.enters_x() {
            SwitchStep::WaitReleased
        } else {
            SwitchStep::Done
        };
        Switch { over: true, step, ..self }
    }

    /// The switch after its step, which went well or not.
    pub open spec fn after(self, ok: bool) -> Switch {
        match self.step {
            SwitchStep::CaptureLeft => if !ok {
                self.wound_up()
            } else if self.enters_x() || self.can_wait() {
                self.at(SwitchStep::GetPicture)
            } else {
                self.at(SwitchStep::OpenDisplay)
            },
            SwitchStep::GetPicture => if ok || self.can_wait() {
                Switch { picture: ok, step: SwitchStep::OpenDisplay, ..self }
            } else {
                self.wound_up()
            },
            SwitchStep::OpenDisplay => if !ok {
                self.wound_up()
            } else if self.leaves_x() {
                self.at(SwitchStep::Request)
            } else {
                self.at(SwitchStep::TakeDisplay)
            },
            SwitchStep::Request => if ok {
                self.at(SwitchStep::TakeDisplay)
            } else {
                self.wound_up()
            },
            SwitchStep::TakeDisplay => if ok {
                Switch { display: Display::Held, step: SwitchStep::ShowLeft, ..self }
            } else {
                self.wound_up()
            },
            SwitchStep::ShowLeft => if !ok {
                self.wound_up()
            } else if self.leaves_x() {
                self.at(SwitchStep::WaitActive)
            } else if self.picture {
                self.at(SwitchStep::Slide)
            } else {
                self.at(SwitchStep::Activate)
            },
            SwitchStep::WaitActive => if !ok {
                self.wound_up()
            } else {
                Switch {
                    target: Target::Active,
                    step: if self.picture {
                        SwitchStep::Slide
                    } else {
                        SwitchStep::CaptureEntered
                    },
                    ..self
                }
            },
            SwitchStep::Activate => if !ok {
                Switch { target: Target::Refused, ..self }.wound_up()
            } else if self.over {
                Switch { target: Target::Active, ..self }.wound_up()
            } else {
                Switch { target: Target::Active, step: SwitchStep::CaptureEntered, ..self }
            },
            SwitchStep::CaptureEntered => if ok {
                Switch { picture: true, step: SwitchStep::Slide, ..self }
            } else {
                self.wound_up()
            },
            SwitchStep::Slide => self.wound_up(),
            SwitchStep::BorrowConsole => Switch {
                borrowed: true,
                step: SwitchStep::DropDisplay,
                ..self
            },
            SwitchStep::DropDisplay => if self.borrowed {
                Switch { display: Display::Released, step: SwitchStep::ReturnConsole, ..self }
            } else {
                Switch { display: Display::Released, ..self }.wound_up()
            },
            SwitchStep::ReturnConsole | SwitchStep::WaitReleased | SwitchStep::Done => self.at(
                SwitchStep::Done,
            ),
        }
    }

    /// A switch with the given pictures, or an instant one.
    pub fn start(pictures: Option<(Outgoing, Incoming)>) -> (s: Switch)
        ensures
            s == Switch::started(pictures),
    {
        let animated = pictures.is_some();
        Switch {
            pictures,
            picture: false,
            display: Display::Theirs,
            target: Target::Pending,
            over: !animated,
            borrowed: false,
            step: if animated {
                SwitchStep::CaptureLeft
            } else {
                SwitchStep::Activate
            },
        }
    }

    /// Goes on to what is left once the animation is over or given up.
    fn wind_up(&mut self)
        ensures
            *final(self) == old(self).wound_up(),
    {
        let enters_x = matches!(self.pictures, Some((_, Incoming::XServerOrLast)));
        self.over = true;
        self.step = match self.display {
            Display::Held => if enters_x {
                SwitchStep::DropDisplay
            } else {
                match self.target {
                    Target::Pending => SwitchStep::Activate,
                    Target::Active => SwitchStep::BorrowConsole,
                    Target::Refused => SwitchStep::DropDisplay,
                }
            },
            Display::Theirs => match self.target {
                Target::Pending => SwitchStep::Activate,
                Target::Active | Target::Refused => SwitchStep::Done,
            },
            Display::Released => match self.target {
                Target::Pending => SwitchStep::Activate,
                Target::Active => if enters_x {
                    SwitchStep::WaitReleased
                } else {
                    SwitchStep::Done
                },
                Target::Refused => SwitchStep::Done,
            },
        };
    }

    /// Goes on to the next step, after the one that was due went well or not.
    pub fn next(&mut self, ok: bool)
        ensures
            *final(self) == old(self).after(ok),
    {
        let leaves_x = matches!(self.pictures, Some((Outgoing::XServer, _)));
        let enters_x = matches!(self.pictures, Some((_, Incoming::XServerOrLast)));
        let can_wait = matches!(self.pictures, Some((_, Incoming::LastConsole)));
        match self.step {
            SwitchStep::CaptureLeft => if !ok {
                self.wind_up();
            } else if enters_x || can_wait {
                self.step = SwitchStep::GetPicture;
            } else {
                self.step = SwitchStep::OpenDisplay;
            },
            SwitchStep::GetPicture => if ok || can_wait {
                self.picture = ok;
                self.step = SwitchStep::OpenDisplay;
            } else {
                self.wind_up();
            },
            SwitchStep::OpenDisplay => if !ok {
                self.wind_up();
            } else if leaves_x {
                self.step = SwitchStep::Request;
            } else {
                self.step = SwitchStep::TakeDisplay;
            },
            SwitchStep::Request => if ok {
                self.step = SwitchStep::TakeDisplay;
            } else {
                self.wind_up();
            },
            SwitchStep::TakeDisplay => if ok {
                self.display = Display::Held;
                self.step = SwitchStep::ShowLeft;
            } else {
                self.wind_up();
            },
            SwitchStep::ShowLeft => if !ok {
                self.wind_up();
            } else if leaves_x {
                self.step = SwitchStep::WaitActive;
            } else if self.picture {
                self.step = SwitchStep::Slide;
            } else {
                self.step = SwitchStep::Activate;
            },
            SwitchStep::WaitActive => if !ok {
                self.wind_up();
            } else {
                self.target = Target::Active;
                self.step = if self.picture {
                    SwitchStep::Slide
                } else {
                    SwitchStep::CaptureEntered
                };
            },
            SwitchStep::Activate => if !ok {
                self.target = Target::Refused;
                self.wind_up();
            } else {
                self.target = Target::Active;
                if self.over {
                    self.wind_up();
                } else {
                    self.step = SwitchStep::CaptureEntered;
                }
            },
            SwitchStep::CaptureEntered => if ok {
                self.picture = true;
                self.step = SwitchStep::Slide;
            } else {
                self.wind_up();
            },
            SwitchStep::Slide => {
                self.wind_up();
            },
            SwitchStep::BorrowConsole => {
                self.borrowed = true;
                self.step = SwitchStep::DropDisplay;
            },
            SwitchStep::DropDisplay => {
                self.display = Display::Released;
                if self.borrowed {
                    self.step = SwitchStep::ReturnConsole;
                } else {
                    self.wind_up();
                }
            },
            SwitchStep::ReturnConsole | SwitchStep::WaitReleased | SwitchStep::Done => {
                self.step = SwitchStep::Done;
            },
        }
    }
}

/// The switch after its steps so far went as told.
pub open spec fn switched(pictures: Option<(Outgoing, Incoming)>, outcomes: Seq<bool>) -> Switch
    decreases outcomes.len(),
{
    if outcomes.len() == 0 {
        Switch::started(pictures)
    } else {
        switched(pictures, outcomes.drop_last()).after(outcomes.last())
    }
}

/// One of the steps so far was `step`, and it went well.
pub open spec fn has_done(
    pictures: Option<(Outgoing, Incoming)>,
    outcomes: Seq<bool>,
    step: SwitchStep,
) -> bool
    decreases outcomes.len(),
{
    outcomes.len() > 0 && (has_done(pictures, outcomes.drop_last(), step) || outcomes.last()
        && switched(pictures, outcomes.drop_last()).step == step)
}

/// How often the console that is entered was borrowed and not returned.
pub open spec fn on_loan(pictures: Option<(Outgoing, Incoming)>, outcomes: Seq<bool>) -> int
    decreases outcomes.len(),
{
    if outcomes.len() == 0 {
        0
    } else {
        on_loan(pictures, outcomes.drop_last()) + match switched(
            pictures,
            outcomes.drop_last(),
        ).step {
            SwitchStep::BorrowConsole => 1int,
            SwitchStep::ReturnConsole => -1,
            _ => 0,
        }
    }
}

/// What is known of a switch by the step that it is at.
spec fn consistent(s: Switch) -> bool {
    &&& s.borrowed ==> s.over && s.target is Active && !s.enters_x()
    &&& match s.step {
        SwitchStep::CaptureLeft | SwitchStep::GetPicture => s.target is Pending && s.display
            is Theirs && !s.over && s.pictures is Some && !s.picture,
        SwitchStep::OpenDisplay | SwitchStep::Request | SwitchStep::TakeDisplay => s.target
            is Pending && s.display is Theirs && !s.over && s.pictures is Some && (s.enters_x()
            ==> s.picture),
        SwitchStep::ShowLeft | SwitchStep::WaitActive => s.target is Pending && s.display is Held
            && !s.over && s.pictures is Some && (s.enters_x() ==> s.picture),
        SwitchStep::Activate => s.target is Pending && !s.borrowed && (!s.over ==> s.display is Held
            && s.pictures is Some) && (s.display is Held ==> !s.enters_x()),
        SwitchStep::CaptureEntered => s.target is Active && s.display is Held && !s.over
            && s.pictures is Some && !s.enters_x(),
        SwitchStep::Slide => s.display is Held && !s.over && s.pictures is Some && s.picture,
        SwitchStep::BorrowConsole => s.display is Held && s.target is Active && !s.enters_x()
            && s.over && !s.borrowed,
        SwitchStep::DropDisplay => s.display is Held && s.over,
        SwitchStep::ReturnConsole => s.display is Released && s.over && s.borrowed,
        SwitchStep::WaitReleased => s.display is Released && s.over && s.target is Active
            && s.enters_x(),
        SwitchStep::Done => s.display !is Held && s.target !is Pending && s.over,
    }
}

proof fn lemma_consistent(pictures: Option<(Outgoing, Incoming)>, outcomes: Seq<bool>)
    ensures
        consistent(switched(pictures, outcomes)),
        switched(pictures, outcomes).pictures == pictures,
    decreases outcomes.len(),
{
    if outcomes.len() > 0 {
        lemma_consistent(pictures, outcomes.drop_last());
    }
}

/// Whatever goes wrong, the terminals are switched: a switch only ends with the
/// target active, or refused by the kernel.
pub proof fn law_switch_is_made(pictures: Option<(Outgoing, Incoming)>, outcomes: Seq<bool>)
    requires
        switched(pictures, outcomes).step is Done,
    ensures
        switched(pictures, outcomes).target !is Pending,
{
    lemma_consistent(pictures, outcomes);
}

/// The target only counts as active once the kernel has said so.
pub proof fn law_active_means_active(pictures: Option<(Outgoing, Incoming)>, outcomes: Seq<bool>)
    ensures
        switched(pictures, outcomes).target is Active <==> has_done(
            pictures,
            outcomes,
            SwitchStep::WaitActive,
        ) || has_done(pictures, outcomes, SwitchStep::Activate),
    decreases outcomes.len(),
{
    if outcomes.len() > 0 {
        law_active_means_active(pictures, outcomes.drop_last());
        lemma_consistent(pictures, outcomes.drop_last());
    }
}

/// Frames are only shown while the display is ours, and whatever goes wrong, it
/// is not ours in the end.
pub proof fn law_display_is_given_back(pictures: Option<(Outgoing, Incoming)>, outcomes: Seq<bool>)
    ensures
        ({
            let s = switched(pictures, outcomes);
            &&& s.step is ShowLeft || s.step is Slide ==> s.display is Held
            &&& s.step is Done ==> s.display !is Held
        }),
{
    lemma_consistent(pictures, outcomes);
}

/// Only a text console that is active is ever borrowed, and whatever goes
/// wrong, it is given back.
pub proof fn law_console_is_given_back(pictures: Option<(Outgoing, Incoming)>, outcomes: Seq<bool>)
    ensures
        ({
            let s = switched(pictures, outcomes);
            &&& s.step is BorrowConsole ==> s.target is Active && !s.enters_x()
            &&& on_loan(pictures, outcomes) == if s.borrowed && s.step !is Done {
                1int
            } else {
                0
            }
        }),
    decreases outcomes.len(),
{
    lemma_consistent(pictures, outcomes);
    if outcomes.len() > 0 {
        law_console_is_given_back(pictures, outcomes.drop_last());
        lemma_consistent(pictures, outcomes.drop_last());
    }
}

/// A console is captured after the switch, while a frozen frame of ours hides
/// it.
pub proof fn law_capture_is_hidden(pictures: Option<(Outgoing, Incoming)>, outcomes: Seq<bool>)
    requires
        switched(pictures, outcomes).step is CaptureEntered,
    ensures
        switched(pictures, outcomes).target is Active,
        switched(pictures, outcomes).display is Held,
        has_done(pictures, outcomes, SwitchStep::ShowLeft),
{
    lemma_consistent(pictures, outcomes);
    lemma_frozen(pictures, outcomes);
}

/// Past the frozen frame, it was shown.
proof fn lemma_frozen(pictures: Option<(Outgoing, Incoming)>, outcomes: Seq<bool>)
    ensures
        ({
            let s = switched(pictures, outcomes);
            !s.over && s.display is Held && s.step !is ShowLeft ==> has_done(
                pictures,
                outcomes,
                SwitchStep::ShowLeft,
            )
        }),
    decreases outcomes.len(),
{
    if outcomes.len() > 0 {
        lemma_frozen(pictures, outcomes.drop_last());
        lemma_consistent(pictures, outcomes.drop_last());
    }
}

/// Each step went well, except that there was no earlier picture of a console
/// that can also be captured after the switch.
pub open spec fn went_well(pictures: Option<(Outgoing, Incoming)>, outcomes: Seq<bool>) -> bool
    decreases outcomes.len(),
{
    outcomes.len() > 0 ==> {
        let before = switched(pictures, outcomes.drop_last());
        &&& went_well(pictures, outcomes.drop_last())
        &&& outcomes.last() || before.step is GetPicture && before.can_wait()
    }
}

/// A switch that has pictures, and whose steps go well, is animated: it ends
/// with the slide shown and the target active.
pub proof fn law_animated_switch(pictures: Option<(Outgoing, Incoming)>, outcomes: Seq<bool>)
    requires
        pictures is Some,
        went_well(pictures, outcomes),
        switched(pictures, outcomes).step is Done,
    ensures
        has_done(pictures, outcomes, SwitchStep::ShowLeft),
        has_done(pictures, outcomes, SwitchStep::Slide),
        switched(pictures, outcomes).target is Active,
{
    lemma_consistent(pictures, outcomes);
    lemma_going_well(pictures, outcomes);
}

proof fn lemma_going_well(pictures: Option<(Outgoing, Incoming)>, outcomes: Seq<bool>)
    requires
        pictures is Some,
        went_well(pictures, outcomes),
    ensures
        ({
            let s = switched(pictures, outcomes);
            &&& s.target !is Refused
            &&& s.over ==> has_done(pictures, outcomes, SwitchStep::ShowLeft) && has_done(
                pictures,
                outcomes,
                SwitchStep::Slide,
            )
        }),
    decreases outcomes.len(),
{
    if outcomes.len() > 0 {
        lemma_going_well(pictures, outcomes.drop_last());
        lemma_consistent(pictures, outcomes.drop_last());
        lemma_frozen(pictures, outcomes.drop_last());
    }
}

/// How many steps are left at most.
pub open spec fn steps_left(s: Switch) -> nat {
    match s.step {
        SwitchStep::CaptureLeft => 14,
        SwitchStep::GetPicture => 13,
        SwitchStep::OpenDisplay => 12,
        SwitchStep::Request => 11,
        SwitchStep::TakeDisplay => 10,
        SwitchStep::ShowLeft => 9,
        SwitchStep::WaitActive => 8,
        SwitchStep::Activate => if !s.over {
            7
        } else if s.display is Held {
            4
        } else {
            2
        },
        SwitchStep::CaptureEntered => 6,
        SwitchStep::Slide => 5,
        SwitchStep::BorrowConsole => 3,
        SwitchStep::DropDisplay => if s.borrowed {
            2
        } else {
            3
        },
        SwitchStep::ReturnConsole | SwitchStep::WaitReleased => 1,
        SwitchStep::Done => 0,
    }
}

/// A switch is over after fourteen steps at the latest.
pub proof fn law_switch_ends(pictures: Option<(Outgoing, Incoming)>, outcomes: Seq<bool>)
    ensures
        steps_left(switched(pictures, outcomes)) + outcomes.len() <= 14 || switched(
            pictures,
            outcomes,
        ).step is Done,
    decreases outcomes.len(),
{
    if outcomes.len() > 0 {
        law_switch_ends(pictures, outcomes.drop_last());
        lemma_consistent(pictures, outcomes.drop_last());
    }
}

/// One of the steps so far was `step`, however it went.
pub open spec fn has_taken(
    pictures: Option<(Outgoing, Incoming)>,
    outcomes: Seq<bool>,
    step: SwitchStep,
) -> bool
    decreases outcomes.len(),
{
    outcomes.len() > 0 && (has_taken(pictures, outcomes.drop_last(), step) || switched(
        pictures,
        outcomes.drop_last(),
    ).step == step)
}

/// What has gone before, by the step that a switch is at.
spec fn remembers(pictures: Option<(Outgoing, Incoming)>, outcomes: Seq<bool>) -> bool {
    let s = switched(pictures, outcomes);
    &&& s.picture <==> has_done(pictures, outcomes, SwitchStep::GetPicture) || has_done(
        pictures,
        outcomes,
        SwitchStep::CaptureEntered,
    )
    &&& !s.over && !(s.step is CaptureLeft) ==> has_done(
        pictures,
        outcomes,
        SwitchStep::CaptureLeft,
    )
    &&& s.display !is Theirs <==> has_done(pictures, outcomes, SwitchStep::TakeDisplay)
    &&& s.display is Released <==> has_taken(pictures, outcomes, SwitchStep::DropDisplay)
    &&& s.borrowed <==> has_taken(pictures, outcomes, SwitchStep::BorrowConsole)
    &&& s.borrowed && s.step is Done ==> has_taken(pictures, outcomes, SwitchStep::ReturnConsole)
    &&& s.step is Done && s.display is Released && s.target is Active ==> if s.enters_x() {
        has_taken(pictures, outcomes, SwitchStep::WaitReleased)
    } else {
        s.borrowed
    }
    &&& s.step is ReturnConsole || s.step is WaitReleased ==> s.display is Released
    &&& s.step is DropDisplay && !s.enters_x() && !s.borrowed ==> s.target is Refused
    &&& s.step is Activate && s.display is Released ==> s.enters_x()
    &&& s.step is TakeDisplay && s.leaves_x() ==> has_done(pictures, outcomes, SwitchStep::Request)
    &&& s.step is Request ==> s.leaves_x()
    &&& s.step is WaitActive ==> s.leaves_x()
    &&& s.step is CaptureEntered ==> !s.picture
    &&& s.step is Activate && !s.over ==> !s.picture && !s.leaves_x()
    &&& s.step is Slide && !s.leaves_x() && s.enters_x() ==> s.target is Pending
}

proof fn lemma_remembers(pictures: Option<(Outgoing, Incoming)>, outcomes: Seq<bool>)
    ensures
        remembers(pictures, outcomes),
    decreases outcomes.len(),
{
    lemma_consistent(pictures, outcomes);
    if outcomes.len() > 0 {
        lemma_consistent(pictures, outcomes.drop_last());
        lemma_remembers(pictures, outcomes.drop_last());
    }
}

/// A slide is only shown between two pictures: one taken of the terminal that is
/// left, and one of the terminal that is entered, got before or taken after the
/// switch.
pub proof fn law_slide_has_pictures(pictures: Option<(Outgoing, Incoming)>, outcomes: Seq<bool>)
    requires
        switched(pictures, outcomes).step is Slide,
    ensures
        has_done(pictures, outcomes, SwitchStep::CaptureLeft),
        has_done(pictures, outcomes, SwitchStep::GetPicture) || has_done(
            pictures,
            outcomes,
            SwitchStep::CaptureEntered,
        ),
        has_done(pictures, outcomes, SwitchStep::TakeDisplay),
        has_done(pictures, outcomes, SwitchStep::ShowLeft),
{
    lemma_remembers(pictures, outcomes);
    lemma_consistent(pictures, outcomes);
    lemma_frozen(pictures, outcomes);
}

/// A console whose last picture there is, is not captured after the switch, so
/// that nothing flashes; and the slide to an X server comes before the switch.
pub proof fn law_nothing_flashes(pictures: Option<(Outgoing, Incoming)>, outcomes: Seq<bool>)
    ensures
        switched(pictures, outcomes).step is CaptureEntered ==> !has_done(
            pictures,
            outcomes,
            SwitchStep::GetPicture,
        ),
        switched(pictures, outcomes).step is Slide && pictures == Some(
            (Outgoing::Console, Incoming::XServerOrLast),
        ) ==> switched(pictures, outcomes).target is Pending,
{
    lemma_remembers(pictures, outcomes);
    lemma_consistent(pictures, outcomes);
}

/// An X server that is left is asked to let go before the display is taken, and
/// one that is entered is only activated while the display is not ours.
pub proof fn law_x_server_first(pictures: Option<(Outgoing, Incoming)>, outcomes: Seq<bool>)
    ensures
        ({
            let s = switched(pictures, outcomes);
            &&& s.step is TakeDisplay && pictures is Some && (pictures->0).0 is XServer ==> has_done(
                pictures,
                outcomes,
                SwitchStep::Request,
            )
            &&& s.step is Request ==> pictures is Some && (pictures->0).0 is XServer
            &&& s.step is Activate && pictures is Some && (pictures->0).1 is XServerOrLast
                ==> s.display !is Held
        }),
{
    lemma_remembers(pictures, outcomes);
    lemma_consistent(pictures, outcomes);
}

/// After the display was ours, its owner is made to show its own picture again: a
/// console by being borrowed and given back, an X server by being waited for.
pub proof fn law_owner_shows_again(pictures: Option<(Outgoing, Incoming)>, outcomes: Seq<bool>)
    requires
        switched(pictures, outcomes).step is Done,
        switched(pictures, outcomes).target is Active,
        has_done(pictures, outcomes, SwitchStep::TakeDisplay),
    ensures
        has_taken(pictures, outcomes, SwitchStep::DropDisplay),
        pictures is Some && (pictures->0).1 is XServerOrLast ==> has_taken(
            pictures,
            outcomes,
            SwitchStep::WaitReleased,
        ),
        !(pictures is Some && (pictures->0).1 is XServerOrLast) ==> has_taken(
            pictures,
            outcomes,
            SwitchStep::BorrowConsole,
        ) && has_taken(pictures, outcomes, SwitchStep::ReturnConsole),
{
    lemma_remembers(pictures, outcomes);
    lemma_consistent(pictures, outcomes);
}

/// An animation is only given up when a step fails: as long as all go well, it is
/// not over before the slide.
pub proof fn law_given_up_only_on_failure(
    pictures: Option<(Outgoing, Incoming)>,
    outcomes: Seq<bool>,
)
    requires
        pictures is Some,
        forall|i: int| 0 <= i < outcomes.len() ==> #[trigger] outcomes[i],
        !has_done(pictures, outcomes, SwitchStep::Slide),
    ensures
        !switched(pictures, outcomes).over,
{
    lemma_all_well(pictures, outcomes);
    lemma_going_well(pictures, outcomes);
}

proof fn lemma_all_well(pictures: Option<(Outgoing, Incoming)>, outcomes: Seq<bool>)
    requires
        forall|i: int| 0 <= i < outcomes.len() ==> #[trigger] outcomes[i],
    ensures
        went_well(pictures, outcomes),
    decreases outcomes.len(),
{
    if outcomes.len() > 0 {
        assert(outcomes[outcomes.len() - 1]);
        let before = outcomes.drop_last();
        assert forall|i: int| 0 <= i < before.len() implies #[trigger] before[i] by {
            assert(outcomes[i]);
        }
        lemma_all_well(pictures, before);
    }
}

/// Where no pictures can be had, the terminals are switched at once, and that is
/// all.
pub proof fn law_instant_switch(ok: bool)
    ensures
        switched(None, Seq::empty()).step is Activate,
        switched(None, seq![ok]).step is Done,
        switched(None, seq![ok]).target is Active <==> ok,
{
    assert(seq![ok].drop_last() =~= Seq::<bool>::empty());
    assert(switched(None, seq![ok].drop_last()) == Switch::started(None));
}

/// Once a step has failed, the animation is over: only a console that can also
/// be captured after the switch goes on without an earlier picture.
pub proof fn law_failure_ends_animation(
    pictures: Option<(Outgoing, Incoming)>,
    outcomes: Seq<bool>,
    k: int,
)
    requires
        0 <= k < outcomes.len(),
        !outcomes[k],
        !(switched(pictures, outcomes.take(k)).step is GetPicture && pictures is Some && (
        pictures->0).1 is LastConsole),
    ensures
        switched(pictures, outcomes).over,
    decreases outcomes.len(),
{
    let before = outcomes.drop_last();
    lemma_consistent(pictures, before);
    if k < before.len() {
        assert(before.take(k) =~= outcomes.take(k));
        law_failure_ends_animation(pictures, before, k);
    } else {
        assert(before =~= outcomes.take(k));
    }
}

/// When the animation is over, no picture is taken or shown any more, and the
/// display is not taken.
pub proof fn law_over_is_over(pictures: Option<(Outgoing, Incoming)>, outcomes: Seq<bool>)
    requires
        switched(pictures, outcomes).over,
    ensures
        ({
            let step = switched(pictures, outcomes).step;
            ||| step is Activate
            ||| step is BorrowConsole
            ||| step is DropDisplay
            ||| step is ReturnConsole
            ||| step is WaitReleased
            ||| step is Done
        }),
{
    lemma_consistent(pictures, outcomes);
}

/// What is left to do at the end depends only on whose the display is, on
/// whether the terminals have been switched, and on whether an X server is
/// entered; and it changes nothing else.
pub proof fn law_winding_up(s: Switch)
    ensures
        ({
            let x = s.pictures is Some && (s.pictures->0).1 is XServerOrLast;
            let t = s.wound_up();
            &&& t.over
            &&& t.pictures == s.pictures && t.picture == s.picture && t.display == s.display
                && t.target == s.target && t.borrowed == s.borrowed
            &&& s.display is Held && x ==> t.step is DropDisplay
            &&& s.display is Held && !x && s.target is Pending ==> t.step is Activate
            &&& s.display is Held && !x && s.target is Active ==> t.step is BorrowConsole
            &&& s.display is Held && !x && s.target is Refused ==> t.step is DropDisplay
            &&& s.display !is Held && s.target is Pending ==> t.step is Activate
            &&& s.display !is Held && s.target is Refused ==> t.step is Done
            &&& s.display is Theirs && s.target is Active ==> t.step is Done
            &&& s.display is Released && s.target is Active && x ==> t.step is WaitReleased
            &&& s.display is Released && s.target is Active && !x ==> t.step is Done
        }),
{
}

/// Where each step of the animation leads when it goes well, and what it notes.
pub proof fn law_animation_goes_on(s: Switch)
    ensures
        ({
            let t = s.after(true);
            let from_x = s.pictures is Some && (s.pictures->0).0 is XServer;
            let later = s.pictures is Some && (s.pictures->0).1 is ConsoleAfterSwitch;
            &&& t.pictures == s.pictures
            &&& s.step is CaptureLeft && s.pictures is Some && !later ==> t == s.at(
                SwitchStep::GetPicture,
            )
            &&& s.step is CaptureLeft && later ==> t == s.at(SwitchStep::OpenDisplay)
            &&& s.step is GetPicture ==> t.step is OpenDisplay && t.picture && t.display == s.display
                && t.target == s.target && t.over == s.over
            &&& s.step is OpenDisplay && from_x ==> t == s.at(SwitchStep::Request)
            &&& s.step is OpenDisplay && !from_x ==> t == s.at(SwitchStep::TakeDisplay)
            &&& s.step is Request ==> t == s.at(SwitchStep::TakeDisplay)
            &&& s.step is TakeDisplay ==> t.step is ShowLeft && t.display is Held && t.picture
                == s.picture && t.target == s.target && t.over == s.over
            &&& s.step is ShowLeft && from_x ==> t == s.at(SwitchStep::WaitActive)
            &&& s.step is ShowLeft && !from_x && s.picture ==> t == s.at(SwitchStep::Slide)
            &&& s.step is ShowLeft && !from_x && !s.picture ==> t == s.at(SwitchStep::Activate)
            &&& s.step is WaitActive ==> t.target is Active && (t.step is Slide <==> s.picture) && (
            t.step is CaptureEntered <==> !s.picture)
            &&& s.step is Activate && !s.over ==> t.target is Active && t.step is CaptureEntered
            &&& s.step is CaptureEntered ==> t.step is Slide && t.picture
            &&& s.step is Slide ==> t == s.wound_up()
        }),
{
}

} // verus!
