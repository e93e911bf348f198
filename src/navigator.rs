use vstd::arithmetic::div_mod::{lemma_mod_add_multiples_vanish, lemma_mod_self_0, lemma_small_mod};
use vstd::prelude::*;

verus! {

/// The way a switch moves through the session list.
#[derive(Clone, Copy, Debug, PartialEq, Eq, Structural)]
pub enum Direction {
    Forward,
    Backward,
}

/// Why no target session could be computed.
#[derive(Clone, Copy, Debug, PartialEq, Eq, Structural)]
pub enum NavError {
    /// Fewer than two sessions are known.
    InsufficientSessions,
    /// The current session's name is not in the list.
    CurrentSessionNotFound,
}

/// The views of a list of names.
pub open spec fn name_views(v: Seq<String>) -> Seq<Seq<char>> {
    v.map_values(|s: String| s@)
}

/// `i` is the first position at which `x` stands in `s`.
pub open spec fn is_first_index(s: Seq<Seq<char>>, x: Seq<char>, i: int) -> bool {
    &&& 0 <= i < s.len()
    &&& s[i] == x
    &&& forall|j: int| 0 <= j < i ==> s[j] != x
}

/// The first position of `x` in `s`; meaningful only when `s` contains `x`.
pub open spec fn first_index(s: Seq<Seq<char>>, x: Seq<char>) -> int {
    choose|i: int| is_first_index(s, x, i)
}

/// The position reached from `i` in a circular list of length `n`.
pub open spec fn step_index(i: int, n: int, dir: Direction) -> int {
    match dir {
        Direction::Forward => (i + 1) % n,
        Direction::Backward => (i + n - 1) % n,
    }
}

/// The session that a switch from `current` in direction `dir` lands on.
pub open spec fn nav_target(names: Seq<Seq<char>>, current: Seq<char>, dir: Direction) -> Result<
    Seq<char>,
    NavError,
> {
    if names.len() < 2 {
        Err(NavError::InsufficientSessions)
    } else if !names.contains(current) {
        Err(NavError::CurrentSessionNotFound)
    } else {
        Ok(names[step_index(first_index(names, current), names.len() as int, dir)])
    }
}

/// Two first positions of one name are the same position.
pub proof fn lemma_first_index_unique(s: Seq<Seq<char>>, x: Seq<char>, i: int)
    requires
        is_first_index(s, x, i),
    ensures
        first_index(s, x) == i,
{
    let k = first_index(s, x);
    assert(is_first_index(s, x, k));
    if k < i {
        assert(s[k] != x);
    } else if i < k {
        assert(s[i] != x);
    }
}

/// The backward step, written without a negative intermediate value.
pub proof fn lemma_step_index(i: int, n: int, dir: Direction)
    requires
        0 <= i < n,
    ensures
        0 <= step_index(i, n, dir) < n,
        dir == Direction::Forward ==> step_index(i, n, dir) == if i + 1 == n {
            0
        } else {
            i + 1
        },
        dir == Direction::Backward ==> step_index(i, n, dir) == if i == 0 {
            n - 1
        } else {
            i - 1
        },
{
    if i + 1 == n {
        lemma_mod_self_0(n);
    } else {
        lemma_small_mod((i + 1) as nat, n as nat);
    }
    if i == 0 {
        lemma_small_mod((n - 1) as nat, n as nat);
    } else {
        lemma_mod_add_multiples_vanish(i - 1, n);
        lemma_small_mod((i - 1) as nat, n as nat);
    }
}

/// The other direction.
pub open spec fn opposite(dir: Direction) -> Direction {
    match dir {
        Direction::Forward => Direction::Backward,
        Direction::Backward => Direction::Forward,
    }
}

/// In a list of distinct names, a name's only position is its first.
pub proof fn lemma_distinct_first_index(s: Seq<Seq<char>>, i: int)
    requires
        s.no_duplicates(),
        0 <= i < s.len(),
    ensures
        first_index(s, s[i]) == i,
{
    assert(is_first_index(s, s[i], i));
    lemma_first_index_unique(s, s[i], i);
}

/// Over at least two distinct names that hold the current one, a switch in
/// one direction followed by a switch in the other from where it landed comes
/// back to the current name.
pub proof fn lemma_round_trip(names: Seq<Seq<char>>, current: Seq<char>, dir: Direction)
    requires
        names.len() >= 2,
        names.no_duplicates(),
        names.contains(current),
    ensures
        nav_target(names, current, dir) is Ok,
        nav_target(names, nav_target(names, current, dir)->Ok_0, opposite(dir)) == Ok::<
            Seq<char>,
            NavError,
        >(current),
{
    let n = names.len() as int;
    let j = choose|j: int| 0 <= j < names.len() && names[j] == current;
    lemma_distinct_first_index(names, j);
    let k = step_index(j, n, dir);
    lemma_step_index(j, n, dir);
    lemma_step_index(j, n, opposite(dir));
    lemma_distinct_first_index(names, k);
    lemma_step_index(k, n, opposite(dir));
    assert(names.contains(names[k]));
    assert(step_index(k, n, opposite(dir)) == j);
}

/// Computes the name of the session to switch to from `current` in
/// direction `dir`, over `sessions` in the order the host reported them.
pub fn compute(sessions: &Vec<String>, current: &String, dir: Direction) -> (r: Result<
    String,
    NavError,
>)
    ensures
        match r {
            Ok(t) => nav_target(name_views(sessions@), current@, dir) == Ok::<Seq<char>, NavError>(
                t@,
            ),
            Err(e) => nav_target(name_views(sessions@), current@, dir) == Err::<Seq<char>, NavError>(
                e,
            ),
        },
{
    let ghost names = name_views(sessions@);
    let len = sessions.len();
    if len < 2 {
        return Err(NavError::InsufficientSessions);
    }
    let mut i: usize = 0;
    while i < len
        invariant
            len == sessions@.len(),
            len >= 2,
            names == name_views(sessions@),
            0 <= i <= len,
            forall|j: int| 0 <= j < i ==> names[j] != current@,
        decreases len - i,
    {
        if sessions[i] == *current {
            proof {
                assert(is_first_index(names, current@, i as int));
                lemma_first_index_unique(names, current@, i as int);
                }
            let next: usize = match dir {
                Direction::Forward => (i + 1) % len,
                Direction::Backward => if i == 0 {
                    len - 1
                } else {
                    i - 1
                },
            };
            proof {
                lemma_step_index(i as int, len as int, dir);
                assert(next == step_index(i as int, len as int, dir));
                assert(names[next as int] == sessions@[next as int]@);
            }
            let t = sessions[next].clone();
            return Ok(t);
        }
        i = i + 1;
    }
    proof {
        assert(!names.contains(current@)) by {
            if names.contains(current@) {
                let j = choose|j: int| 0 <= j < names.len() && names[j] == current@;
                assert(names[j] != current@);
            }
        }
    }
    Err(NavError::CurrentSessionNotFound)
}

} // verus!
