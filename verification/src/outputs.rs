//! Finding the card and the output that are showing something.
//!
//! The device calls are made by the program, one at a time: an answer decides
//! which question comes next.
use vstd::prelude::*;

use crate::kms::KmsError;
use crate::text::{decimal, numbered};

verus! {

/// How many cards are looked at.
pub const CARDS: u32 = 8;

/// Where a card's device file is.
pub fn card_path(n: u32) -> (path: String)
    ensures
        path@ == "/dev/dri/card"@ + decimal(n as nat),
{
    numbered("/dev/dri/card", n)
}

/// What became of one card in the search.
pub enum CardOutcome<E> {
    /// It could not be opened.
    Unopened,
    /// It drives no display.
    Failed(E),
    /// It drives a display.
    Serves,
}

/// Why no display could be set up.
#[derive(Debug, PartialEq, Eq)]
pub enum CardError<E> {
    /// This went wrong with a card.
    Card(E),
    /// No card could be opened.
    NoCard,
}

/// The search for the first card that drives a display. `E` is the error that
/// looking at a card, or setting it up, can end in.
pub struct CardSearch<E> {
    /// The card to look at next.
    pub next: u32,
    /// What went wrong with the last card that could be opened.
    pub last: Option<E>,
    /// The card that serves.
    pub chosen: Option<u32>,
}

impl<E> CardSearch<E> {
    /// A search before the first card.
    pub open spec fn started() -> CardSearch<E> {
        CardSearch { next: 0, last: None, chosen: None }
    }

    /// The card to look at, until one serves or all have been looked at.
    pub open spec fn due(self) -> Option<u32> {
        if self.chosen is None && self.next < CARDS {
            Some(self.next)
        } else {
            None
        }
    }

    /// The search after what became of the card that was due.
    pub open spec fn after(self, outcome: CardOutcome<E>) -> CardSearch<E> {
        CardSearch {
            next: (self.next + 1) as u32,
            last: match outcome {
                CardOutcome::Failed(e) => Some(e),
                _ => self.last,
            },
            chosen: if outcome is Serves {
                Some(self.next)
            } else {
                self.chosen
            },
        }
    }

    /// A search that starts with the first card.
    pub fn new() -> (s: Self)
        ensures
            s == CardSearch::<E>::started(),
    {
        CardSearch { next: 0, last: None, chosen: None }
    }

    /// The card to look at, until one serves or all have been looked at.
    pub fn card(&self) -> (n: Option<u32>)
        ensures
            n == self.due(),
    {
        if self.chosen.is_none() && self.next < CARDS {
            Some(self.next)
        } else {
            None
        }
    }

    /// Goes on to the next card: this one could not be opened.
    pub fn unopened(&mut self)
        requires
            old(self).due() is Some,
        ensures
            *final(self) == old(self).after(CardOutcome::Unopened),
    {
        self.next = self.next + 1;
    }

    /// Goes on to the next card: this one drives no display.
    pub fn failed(&mut self, error: E)
        requires
            old(self).due() is Some,
        ensures
            *final(self) == old(self).after(CardOutcome::Failed(error)),
    {
        self.next = self.next + 1;
        self.last = Some(error);
    }

    /// Ends the search: this card drives a display.
    pub fn serves(&mut self)
        requires
            old(self).due() is Some,
        ensures
            *final(self) == old(self).after(CardOutcome::Serves),
    {
        self.chosen = Some(self.next);
        self.next = self.next + 1;
    }

    /// What the search comes to, given what setting up the card that serves came
    /// to, if there is one. That is final, an error too. Without such a card it
    /// is the error of the last card that could be opened, or that there was
    /// none.
    pub fn finish<T>(self, setup: Option<Result<T, E>>) -> (answer: Result<T, CardError<E>>)
        requires
            setup is Some <==> self.chosen is Some,
        ensures
            answer == settled(self, setup),
            setup matches Some(Ok(t)) ==> answer == Ok::<T, CardError<E>>(t),
            setup matches Some(Err(e)) ==> answer == Err::<T, CardError<E>>(CardError::Card(e)),
            setup is None && self.last is Some ==> answer == Err::<T, CardError<E>>(
                CardError::Card(self.last->0),
            ),
            setup is None && self.last is None ==> answer == Err::<T, CardError<E>>(
                CardError::NoCard,
            ),
    {
        match setup {
            Some(Ok(t)) => Ok(t),
            Some(Err(e)) => Err(CardError::Card(e)),
            None => match self.last {
                Some(e) => Err(CardError::Card(e)),
                None => Err(CardError::NoCard),
            },
        }
    }
}

/// What a search comes to, given what setting up the card that serves came to.
pub open spec fn settled<T, E>(s: CardSearch<E>, setup: Option<Result<T, E>>) -> Result<
    T,
    CardError<E>,
> {
    match setup {
        Some(Ok(t)) => Ok(t),
        Some(Err(e)) => Err(CardError::Card(e)),
        None => match s.last {
            Some(e) => Err(CardError::Card(e)),
            None => Err(CardError::NoCard),
        },
    }
}

/// The end of a search that has come to `s`, where `cards` tells what would
/// become of each card if it were looked at.
pub open spec fn searched<E>(s: CardSearch<E>, cards: Seq<CardOutcome<E>>) -> CardSearch<E>
    decreases CARDS - s.next,
{
    match s.due() {
        Some(n) => searched(s.after(cards[n as int]), cards),
        None => s,
    }
}

/// The search looks at exactly the cards up to and including the first that
/// serves, and that card is its answer.
pub proof fn law_first_card_serves<E>(cards: Seq<CardOutcome<E>>, k: int)
    requires
        0 <= k < CARDS,
        cards.len() == CARDS,
        cards[k] is Serves,
        forall|i: int| 0 <= i < k ==> (#[trigger] cards[i]) !is Serves,
    ensures
        searched(CardSearch::started(), cards).chosen == Some(k as u32),
        searched(CardSearch::started(), cards).next == k + 1,
{
    lemma_until_served(CardSearch::started(), cards, k);
}

/// What opening the display comes to, where `cards` tells what would become of
/// each card if it were looked at, and `setups` what setting it up would come to.
pub open spec fn opened<T, E>(
    cards: Seq<CardOutcome<E>>,
    setups: Seq<Result<T, E>>,
) -> Result<T, CardError<E>> {
    let end = searched(CardSearch::started(), cards);
    settled(
        end,
        match end.chosen {
            Some(n) => Some(setups[n as int]),
            None => None,
        },
    )
}

/// Opening the display comes to what setting up the first card that serves comes
/// to. If that is an error, no later card makes up for it.
pub proof fn law_first_card_is_opened<T, E>(
    cards: Seq<CardOutcome<E>>,
    setups: Seq<Result<T, E>>,
    k: int,
)
    requires
        0 <= k < CARDS,
        cards.len() == CARDS,
        setups.len() == CARDS,
        cards[k] is Serves,
        forall|i: int| 0 <= i < k ==> (#[trigger] cards[i]) !is Serves,
    ensures
        opened(cards, setups) == match setups[k] {
            Ok(t) => Ok::<T, CardError<E>>(t),
            Err(e) => Err(CardError::Card(e)),
        },
{
    law_first_card_serves(cards, k);
}

proof fn lemma_until_served<E>(s: CardSearch<E>, cards: Seq<CardOutcome<E>>, k: int)
    requires
        0 <= s.next <= k < CARDS,
        s.chosen is None,
        cards.len() == CARDS,
        cards[k] is Serves,
        forall|i: int| s.next <= i < k ==> (#[trigger] cards[i]) !is Serves,
    ensures
        searched(s, cards).chosen == Some(k as u32),
        searched(s, cards).next == k + 1,
    decreases k - s.next,
{
    let then = s.after(cards[s.next as int]);
    if s.next < k {
        assert(cards[s.next as int] !is Serves);
        lemma_until_served(then, cards, k);
    } else {
        assert(searched(then, cards) == then);
    }
}

/// Where no card serves, all are looked at, and the error kept is that of the
/// last one that could be opened.
pub proof fn law_last_error_is_reported<E>(cards: Seq<CardOutcome<E>>, k: int)
    requires
        0 <= k < CARDS,
        cards.len() == CARDS,
        forall|i: int| 0 <= i < CARDS ==> (#[trigger] cards[i]) !is Serves,
        cards[k] is Failed,
        forall|i: int| k < i < CARDS ==> (#[trigger] cards[i]) is Unopened,
    ensures
        searched(CardSearch::started(), cards).next == CARDS,
        searched(CardSearch::started(), cards).chosen is None,
        searched(CardSearch::started(), cards).last == Some(cards[k]->Failed_0),
{
    lemma_none_serves(CardSearch::started(), cards, k);
}

/// Where no card can be opened, all are looked at, and no error is kept.
pub proof fn law_no_card<E>(cards: Seq<CardOutcome<E>>)
    requires
        cards.len() == CARDS,
        forall|i: int| 0 <= i < CARDS ==> (#[trigger] cards[i]) is Unopened,
    ensures
        searched(CardSearch::started(), cards).next == CARDS,
        searched(CardSearch::started(), cards).chosen is None,
        searched(CardSearch::started(), cards).last is None,
{
    lemma_none_serves(CardSearch::started(), cards, -1);
}

/// The search goes on to the end of cards that do not serve. Up to `k` lies the
/// last that could be opened, if any is left.
proof fn lemma_none_serves<E>(s: CardSearch<E>, cards: Seq<CardOutcome<E>>, k: int)
    requires
        0 <= s.next <= CARDS,
        k < CARDS,
        s.chosen is None,
        cards.len() == CARDS,
        forall|i: int| s.next <= i < CARDS ==> (#[trigger] cards[i]) !is Serves,
        s.next <= k ==> cards[k] is Failed,
        forall|i: int| s.next <= i < CARDS && k < i ==> (#[trigger] cards[i]) is Unopened,
    ensures
        searched(s, cards).next == CARDS,
        searched(s, cards).chosen is None,
        searched(s, cards).last == if s.next <= k {
            Some(cards[k]->Failed_0)
        } else {
            s.last
        },
    decreases CARDS - s.next,
{
    if s.next < CARDS {
        assert(cards[s.next as int] !is Serves);
        lemma_none_serves(s.after(cards[s.next as int]), cards, k);
    }
}

/// What is known of one connector.
pub struct ConnReport<M> {
    pub conn: u32,
    /// The CRTC that drives it, if it is connected and driven at all.
    pub crtc: Option<u32>,
    /// The mode of that CRTC, if it is showing a framebuffer.
    pub mode: Option<M>,
}

/// The search for the CRTC that is showing something, and for all connectors
/// that show the same. `M` is a display mode, which is only passed on.
pub struct OutputSearch<M> {
    pub found: Option<(u32, M)>,
    pub conns: Vec<u32>,
}

/// The CRTC found so far with its mode, and its connectors.
#[verifier::ext_equal]
pub struct OutputState<M> {
    pub found: Option<(u32, M)>,
    pub conns: Seq<u32>,
}

/// What one more connector adds: the first that shows something fixes the
/// CRTC, later ones count when they show the same CRTC.
pub open spec fn with_report<M>(s: OutputState<M>, r: ConnReport<M>) -> OutputState<M> {
    match (s.found, r.crtc) {
        (None, Some(c)) => match r.mode {
            Some(m) => OutputState { found: Some((c, m)), conns: s.conns.push(r.conn) },
            None => s,
        },
        (Some(f), Some(c)) if f.0 == c => OutputState {
            found: s.found,
            conns: s.conns.push(r.conn),
        },
        _ => s,
    }
}

/// The search after the given connectors.
pub open spec fn with_reports<M>(reports: Seq<ConnReport<M>>) -> OutputState<M>
    decreases reports.len(),
{
    if reports.len() == 0 {
        OutputState { found: None, conns: Seq::empty() }
    } else {
        with_report(with_reports(reports.drop_last()), reports.last())
    }
}

impl<M> View for OutputSearch<M> {
    type V = OutputState<M>;

    open spec fn view(&self) -> OutputState<M> {
        OutputState { found: self.found, conns: self.conns@ }
    }
}

impl<M> OutputSearch<M> {
    /// A search before the first connector.
    pub fn new() -> (s: Self)
        ensures
            s@ == with_reports(Seq::<ConnReport<M>>::empty()),
    {
        OutputSearch { found: None, conns: Vec::new() }
    }

    /// The encoder to ask about, if the connector is worth it.
    pub fn on_connector(&self, connected: bool, encoder: Option<u32>) -> (ask: Option<u32>)
        ensures
            ask == if connected {
                encoder
            } else {
                None
            },
    {
        if connected {
            encoder
        } else {
            None
        }
    }

    /// Takes in the CRTC of the connector's encoder. Returns the CRTC to ask
    /// about while none is found; otherwise the connector is dealt with.
    pub fn on_encoder(&mut self, conn: u32, crtc: Option<u32>) -> (ask: Option<u32>)
        ensures
            ask == if old(self).found is None {
                crtc
            } else {
                None
            },
            final(self)@ == if ask is Some {
                old(self)@
            } else {
                with_report(old(self)@, ConnReport { conn, crtc, mode: None })
            },
    {
        let c = match crtc {
            Some(c) => c,
            None => return None,
        };
        let found = match &self.found {
            Some((f, _)) => *f,
            None => return Some(c),
        };
        if found == c {
            self.conns.push(conn);
        }
        None
    }

    /// Takes in what the CRTC is showing, for the first connector that has
    /// one.
    pub fn on_crtc(&mut self, conn: u32, crtc: u32, mode: Option<M>, framebuffer: Option<u32>)
        requires
            old(self).found is None,
        ensures
            final(self)@ == with_report(
                old(self)@,
                ConnReport {
                    conn,
                    crtc: Some(crtc),
                    mode: if framebuffer is Some {
                        mode
                    } else {
                        None
                    },
                },
            ),
    {
        if framebuffer.is_some() {
            if let Some(m) = mode {
                self.found = Some((crtc, m));
                self.conns.push(conn);
            }
        }
    }

    /// The CRTC, its connectors and its mode, once all connectors are dealt
    /// with.
    pub fn finish(self) -> (output: Result<(u32, Vec<u32>, M), KmsError>)
        ensures
            match output {
                Ok((crtc, conns, mode)) => self@.found == Some((crtc, mode)) && conns@
                    == self@.conns,
                Err(e) => e == KmsError::NoActiveCrtc && self@.found is None,
            },
    {
        match self.found {
            Some((crtc, mode)) => Ok((crtc, self.conns, mode)),
            None => Err(KmsError::NoActiveCrtc),
        }
    }
}

/// The connector shows something.
pub open spec fn lit<M>(r: ConnReport<M>) -> bool {
    r.crtc is Some && r.mode is Some
}

/// The connectors, in order, that the given CRTC drives.
pub open spec fn driven_by<M>(reports: Seq<ConnReport<M>>, crtc: u32) -> Seq<u32>
    decreases reports.len(),
{
    if reports.len() == 0 {
        Seq::empty()
    } else {
        let before = driven_by(reports.drop_last(), crtc);
        if reports.last().crtc == Some(crtc) {
            before.push(reports.last().conn)
        } else {
            before
        }
    }
}

/// Without a connector that shows something, nothing is found.
pub proof fn law_dark_outputs<M>(reports: Seq<ConnReport<M>>)
    requires
        forall|i: int| 0 <= i < reports.len() ==> !lit(#[trigger] reports[i]),
    ensures
        with_reports(reports).found is None,
        with_reports(reports).conns == Seq::<u32>::empty(),
    decreases reports.len(),
{
    if reports.len() > 0 {
        law_dark_outputs(reports.drop_last());
        assert(!lit(reports[reports.len() - 1]));
    }
}

/// The output found is that of the first connector that shows something, with
/// its own connector and all later ones that the same CRTC drives.
pub proof fn law_first_lit_output<M>(reports: Seq<ConnReport<M>>, k: int)
    requires
        0 <= k < reports.len(),
        lit(reports[k]),
        forall|i: int| 0 <= i < k ==> !lit(#[trigger] reports[i]),
    ensures
        with_reports(reports).found == Some((reports[k].crtc->0, reports[k].mode->0)),
        with_reports(reports).conns == driven_by(reports.skip(k), reports[k].crtc->0),
    decreases reports.len(),
{
    let crtc = reports[k].crtc->0;
    if k == reports.len() - 1 {
        law_dark_outputs(reports.drop_last());
        assert(reports.skip(k).drop_last() =~= Seq::empty());
        assert(driven_by(reports.skip(k).drop_last(), crtc) =~= Seq::empty());
        assert(reports.skip(k).last() == reports[k]);
    } else {
        law_first_lit_output(reports.drop_last(), k);
        assert(reports.drop_last().skip(k) =~= reports.skip(k).drop_last());
        assert(reports.skip(k).last() == reports.last());
    }
}

/// The connectors of the output found are, in order, the first that shows
/// something and all later ones with the same CRTC, and no others.
pub proof fn law_connectors_of_output<M>(reports: Seq<ConnReport<M>>, k: int)
    requires
        0 <= k < reports.len(),
        reports[k].crtc is Some && reports[k].mode is Some,
        forall|i: int| 0 <= i < k ==> (#[trigger] reports[i]).crtc is None || reports[i].mode is None,
    ensures
        with_reports(reports).found == Some((reports[k].crtc->0, reports[k].mode->0)),
        with_reports(reports).conns == reports.skip(k).filter(
            |r: ConnReport<M>| r.crtc == reports[k].crtc,
        ).map_values(|r: ConnReport<M>| r.conn),
{
    assert forall|i: int| 0 <= i < k implies !lit(#[trigger] reports[i]) by {
        assert(reports[i].crtc is None || reports[i].mode is None);
    }
    law_first_lit_output(reports, k);
    lemma_driven_by(
        reports.skip(k),
        reports[k].crtc->0,
        |r: ConnReport<M>| r.crtc == reports[k].crtc,
        |r: ConnReport<M>| r.conn,
    );
}

proof fn lemma_driven_by<M>(
    reports: Seq<ConnReport<M>>,
    crtc: u32,
    same: spec_fn(ConnReport<M>) -> bool,
    conn: spec_fn(ConnReport<M>) -> u32,
)
    requires
        forall|r: ConnReport<M>| #[trigger] same(r) <==> r.crtc == Some(crtc),
        forall|r: ConnReport<M>| #[trigger] conn(r) == r.conn,
    ensures
        driven_by(reports, crtc) == reports.filter(same).map_values(conn),
    decreases reports.len(),
{
    reveal(Seq::filter);
    if reports.len() > 0 {
        lemma_driven_by(reports.drop_last(), crtc, same, conn);
    }
    assert(driven_by(reports, crtc) =~= reports.filter(same).map_values(conn));
}

/// Without a connector that shows something no output is found.
pub proof fn law_no_output<M>(reports: Seq<ConnReport<M>>)
    requires
        forall|i: int|
            0 <= i < reports.len() ==> (#[trigger] reports[i]).crtc is None || reports[i].mode
                is None,
    ensures
        with_reports(reports).found is None,
{
    assert forall|i: int| 0 <= i < reports.len() implies !lit(#[trigger] reports[i]) by {
        assert(reports[i].crtc is None || reports[i].mode is None);
    }
    law_dark_outputs(reports);
}

/// Eight cards are looked at, one after the other, until one serves.
pub proof fn law_cards_in_turn<E>(s: CardSearch<E>, outcome: CardOutcome<E>)
    ensures
        CardSearch::<E>::started().due() == Some(0u32),
        s.due() is Some <==> s.chosen is None && s.next < 8,
        s.due() is Some ==> s.due() == Some(s.next) && s.after(outcome).next == s.next + 1,
        s.due() is Some && outcome is Serves ==> s.after(outcome).due() is None && s.after(
            outcome,
        ).chosen == Some(s.next),
        s.due() is Some && !(outcome is Serves) ==> s.after(outcome).chosen is None,
{
}

} // verus!
