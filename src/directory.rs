use crate::message::SessionEntry;
use crate::navigator::name_views;
use vstd::prelude::*;

verus! {

/// Why a roster could not be taken in.
#[derive(Clone, Copy, Debug, PartialEq, Eq, Structural)]
pub enum UpdateError {
    /// No entry of the roster is flagged as the current session.
    CurrentSessionMissingFromUpdate,
}

/// The known sessions, in the host's order, and the current one.
pub struct SessionDirectory {
    pub sessions: Vec<String>,
    pub current: String,
}

/// The names of a roster, in roster order.
pub open spec fn roster_names(r: Seq<SessionEntry>) -> Seq<Seq<char>> {
    r.map_values(|e: SessionEntry| e.name@)
}

/// Some entry of the roster is flagged current.
pub open spec fn has_current(r: Seq<SessionEntry>) -> bool {
    exists|i: int| 0 <= i < r.len() && #[trigger] r[i].is_current
}

/// `i` is the first entry flagged current.
pub open spec fn is_first_current(r: Seq<SessionEntry>, i: int) -> bool {
    &&& 0 <= i < r.len()
    &&& r[i].is_current
    &&& forall|j: int| 0 <= j < i ==> !(#[trigger] r[j].is_current)
}

/// The name of the first entry flagged current; meaningful only when one is.
pub open spec fn roster_current(r: Seq<SessionEntry>) -> Seq<char> {
    r[choose|i: int| is_first_current(r, i)].name@
}

/// A roster with a current entry has a first one.
pub proof fn lemma_first_current_unique(r: Seq<SessionEntry>, i: int)
    requires
        is_first_current(r, i),
    ensures
        roster_current(r) == r[i].name@,
{
    let k = choose|k: int| is_first_current(r, k);
    assert(is_first_current(r, k));
    if k < i {
        assert(!r[k].is_current);
    } else if i < k {
        assert(!r[i].is_current);
    }
}

impl SessionDirectory {
    /// An empty directory.
    pub fn new() -> (d: SessionDirectory)
        ensures
            d.sessions@.len() == 0,
            d.current@ == Seq::<char>::empty(),
    {
        SessionDirectory { sessions: Vec::new(), current: String::new() }
    }

    /// The directory a roster describes: its names in order, and the first
    /// entry flagged current. A roster with no such entry is refused.
    pub fn from_roster(roster: &Vec<SessionEntry>) -> (r: Result<SessionDirectory, UpdateError>)
        ensures
            match r {
                Ok(d) => has_current(roster@) && name_views(d.sessions@) == roster_names(roster@)
                    && d.current@ == roster_current(roster@) && name_views(d.sessions@).contains(
                    d.current@,
                ),
                Err(e) => !has_current(roster@) && e == UpdateError::CurrentSessionMissingFromUpdate,
            },
    {
        let mut sessions: Vec<String> = Vec::new();
        let mut current: Option<String> = None;
        let mut i: usize = 0;
        while i < roster.len()
            invariant
                0 <= i <= roster@.len(),
                sessions@.len() == i,
                name_views(sessions@) == roster_names(roster@.subrange(0, i as int)),
                match current {
                    Some(c) => exists|k: int|
                        0 <= k < i && is_first_current(roster@, k) && c@ == roster@[k].name@,
                    None => forall|j: int| 0 <= j < i ==> !(#[trigger] roster@[j].is_current),
                },
            decreases roster@.len() - i,
        {
            let e = &roster[i];
            if current.is_none() && e.is_current {
                current = Some(e.name.clone());
                assert(is_first_current(roster@, i as int));
            }
            let ghost prev = sessions@;
            let n = e.name.clone();
            sessions.push(n);
            proof {
                let sub = roster@.subrange(0, i + 1);
                assert(sessions@ == prev.push(n));
                assert(n@ == roster@[i as int].name@);
                assert(roster@.subrange(0, i as int) =~= sub.drop_last());
                assert forall|j: int| 0 <= j < i + 1 implies name_views(sessions@)[j] == roster_names(
                    sub,
                )[j] by {
                    if j < i {
                        assert(name_views(prev)[j] == roster_names(sub.drop_last())[j]);
                        assert(sessions@[j] == prev[j]);
                    } else {
                        assert(sessions@[j] == n);
                        assert(sub[j] == roster@[j]);
                    }
                }
                assert(name_views(sessions@) =~= roster_names(sub));
            }
            i = i + 1;
        }
        assert(roster@.subrange(0, i as int) =~= roster@);
        match current {
            Some(c) => {
                proof {
                    let k = choose|k: int|
                        0 <= k < i && is_first_current(roster@, k) && c@ == roster@[k].name@;
                    lemma_first_current_unique(roster@, k);
                    assert(name_views(sessions@)[k] == roster_names(roster@)[k]);
                }
                Ok(SessionDirectory { sessions, current: c })
            },
            None => Err(UpdateError::CurrentSessionMissingFromUpdate),
        }
    }
}

} // verus!
