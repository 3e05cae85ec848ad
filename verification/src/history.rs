//! The last picture taken of each terminal.
use vstd::prelude::*;

use crate::snapshot::Snapshot;

verus! {

/// The last picture taken of each terminal that one was taken of.
pub struct History {
    pub shots: Vec<(u16, Snapshot)>,
}

/// The picture that a list holds for terminal `vt`.
pub open spec fn shot_of(shots: Seq<(u16, Snapshot)>, vt: u16) -> Option<Snapshot>
    decreases shots.len(),
{
    if shots.len() == 0 {
        None
    } else if shots[0].0 == vt {
        Some(shots[0].1)
    } else {
        shot_of(shots.drop_first(), vt)
    }
}

impl History {
    /// The picture held for terminal `vt`.
    pub open spec fn last(&self, vt: u16) -> Option<Snapshot> {
        shot_of(self.shots@, vt)
    }

    /// No picture of any terminal.
    pub fn new() -> (h: History)
        ensures
            forall|vt: u16| (#[trigger] h.last(vt)) is None,
    {
        History { shots: Vec::new() }
    }

    /// Where the picture of terminal `vt` stands, or the end of the list.
    fn place(&self, vt: u16) -> (i: usize)
        ensures
            i <= self.shots@.len(),
            i < self.shots@.len() ==> self.shots@[i as int].0 == vt,
            forall|j: int| 0 <= j < i ==> (#[trigger] self.shots@[j]).0 != vt,
    {
        let n: usize = self.shots.len();
        let mut i: usize = 0;
        while i < n && self.shots[i].0 != vt
            invariant
                i <= n,
                n == self.shots@.len(),
                forall|j: int| 0 <= j < i ==> (#[trigger] self.shots@[j]).0 != vt,
            ensures
                i <= n,
                i < n ==> self.shots@[i as int].0 == vt,
                forall|j: int| 0 <= j < i ==> (#[trigger] self.shots@[j]).0 != vt,
            decreases n - i,
        {
            i = i + 1;
        }
        i
    }

    /// Keeps a picture as the last one of terminal `vt`.
    pub fn remember(&mut self, vt: u16, shot: Snapshot)
        ensures
            final(self).last(vt) == Some(shot),
            forall|other: u16| other != vt ==> #[trigger] final(self).last(other) == old(self).last(
                other,
            ),
    {
        let i = self.place(vt);
        let ghost before = self.shots@;
        if i < self.shots.len() {
            self.shots.set(i, (vt, shot));
        } else {
            self.shots.push((vt, shot));
        }
        proof {
            lemma_shot_at(self.shots@, vt, i as int);
            assert forall|other: u16| other != vt implies shot_of(self.shots@, other) == shot_of(
                before,
                other,
            ) by {
                lemma_shot_elsewhere(before, self.shots@, other, i as int);
            }
        }
    }

    /// The last picture of terminal `vt`, if there is one.
    pub fn recall(&self, vt: u16) -> (shot: Option<&Snapshot>)
        ensures
            match shot {
                Some(s) => self.last(vt) == Some(*s),
                None => self.last(vt) is None,
            },
    {
        let i = self.place(vt);
        proof {
            if i < self.shots@.len() {
                lemma_shot_at(self.shots@, vt, i as int);
            } else {
                lemma_no_shot(self.shots@, vt);
            }
        }
        if i < self.shots.len() {
            Some(&self.shots[i].1)
        } else {
            None
        }
    }
}

proof fn lemma_shot_at(shots: Seq<(u16, Snapshot)>, vt: u16, i: int)
    requires
        0 <= i < shots.len(),
        shots[i].0 == vt,
        forall|j: int| 0 <= j < i ==> (#[trigger] shots[j]).0 != vt,
    ensures
        shot_of(shots, vt) == Some(shots[i].1),
    decreases i,
{
    if i > 0 {
        assert(shots[0].0 != vt);
        assert forall|j: int| 0 <= j < i - 1 implies (#[trigger] shots.drop_first()[j]).0 != vt by {
            assert(shots[j + 1].0 != vt);
        }
        lemma_shot_at(shots.drop_first(), vt, i - 1);
    }
}

proof fn lemma_no_shot(shots: Seq<(u16, Snapshot)>, vt: u16)
    requires
        forall|j: int| 0 <= j < shots.len() ==> (#[trigger] shots[j]).0 != vt,
    ensures
        shot_of(shots, vt) is None,
    decreases shots.len(),
{
    if shots.len() > 0 {
        assert(shots[0].0 != vt);
        assert forall|j: int| 0 <= j < shots.len() - 1 implies (
        #[trigger] shots.drop_first()[j]).0 != vt by {
            assert(shots[j + 1].0 != vt);
        }
        lemma_no_shot(shots.drop_first(), vt);
    }
}

/// Lists that differ only in one picture, which is of another terminal, hold
/// the same for `vt`. The one may lack the last entry of the other.
proof fn lemma_shot_elsewhere(
    a: Seq<(u16, Snapshot)>,
    b: Seq<(u16, Snapshot)>,
    vt: u16,
    i: int,
)
    requires
        0 <= i < b.len(),
        a.len() == b.len() || a.len() == i && b.len() == i + 1,
        forall|j: int| 0 <= j < b.len() && j != i ==> a[j] == b[j],
        b[i].0 != vt,
        i < a.len() ==> a[i].0 != vt,
    ensures
        shot_of(b, vt) == shot_of(a, vt),
    decreases b.len(),
{
    if i > 0 {
        assert(a[0] == b[0]);
        lemma_shot_elsewhere(a.drop_first(), b.drop_first(), vt, i - 1);
    } else if a.len() > 0 {
        assert(a.drop_first() =~= b.drop_first());
    } else {
        assert(b.drop_first() =~= a);
    }
}

} // verus!
