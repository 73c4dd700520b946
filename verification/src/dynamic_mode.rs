//! The modes of system dynamics, and how three signals vote on one.
use vstd::prelude::*;

verus! {

/// Classification of system dynamics.
#[derive(Debug, Clone, Copy, PartialEq, Eq, Hash, Structural)]
pub enum DynamicMode {
    /// Population is converging to a fixed point.
    Converging,
    /// Population is oscillating between states.
    Oscillating,
    /// Population behavior is chaotic / unpredictable.
    Chaotic,
    /// Population is stable (little change).
    Stable,
}

impl DynamicMode {
    /// The lower-case name of the mode.
    pub open spec fn name(self) -> Seq<char> {
        match self {
            DynamicMode::Converging => "converging"@,
            DynamicMode::Oscillating => "oscillating"@,
            DynamicMode::Chaotic => "chaotic"@,
            DynamicMode::Stable => "stable"@,
        }
    }

    /// The lower-case name of the mode, as the mode prints.
    pub fn to_string(&self) -> (s: String)
        ensures
            s@ == self.name(),
    {
        let name: &str = match self {
            DynamicMode::Converging => "converging",
            DynamicMode::Oscillating => "oscillating",
            DynamicMode::Chaotic => "chaotic",
            DynamicMode::Stable => "stable",
        };
        let s = name.to_string();
        proof {
            vstd::string::to_string_from_display_ensures_for_str(name, s);
        }
        s
    }
}

/// Law: the vote of a mode counts the signals that show it, so it lies
/// between none and all three, and the three modes of distinct signals get
/// one vote each.
pub proof fn lemma_votes_count(modes: [DynamicMode; 3], m: DynamicMode)
    ensures
        0 <= votes_for(modes, m) <= 3,
        votes_for(modes, m) == 3 <==> (modes[0] == m && modes[1] == m && modes[2] == m),
        votes_for(modes, m) == 0 <==> (modes[0] != m && modes[1] != m && modes[2] != m),
        (modes[0] != modes[1] && modes[0] != modes[2] && modes[1] != modes[2]) ==> votes_for(
            modes,
            modes[0],
        ) == 1,
{
}

/// Law: different modes have different names.
pub proof fn lemma_names_distinct(a: DynamicMode, b: DynamicMode)
    ensures
        a != b ==> a.name() != b.name(),
{
    reveal_strlit("converging");
    reveal_strlit("oscillating");
    reveal_strlit("chaotic");
    reveal_strlit("stable");
    if a != b {
        assert(a.name().len() != b.name().len() || a.name()[0] != b.name()[0]);
    }
}

/// How many of the three modes equal `m`.
pub open spec fn votes_for(modes: [DynamicMode; 3], m: DynamicMode) -> int {
    (if modes[0] == m { 1int } else { 0int }) + (if modes[1] == m { 1int } else { 0int }) + (
    if modes[2] == m {
        1int
    } else {
        0int
    })
}

/// The outcome of the vote: the mode that at least two signals agree on, or,
/// where all three differ, the first signal's mode.
pub open spec fn vote_outcome(modes: [DynamicMode; 3]) -> DynamicMode {
    if modes[1] == modes[2] {
        modes[1]
    } else {
        modes[0]
    }
}

fn votes(modes: &[DynamicMode; 3], m: DynamicMode) -> (r: usize)
    ensures
        r == votes_for(*modes, m),
{
    let mut count: usize = 0;
    if modes[0] == m {
        count = count + 1;
    }
    if modes[1] == m {
        count = count + 1;
    }
    if modes[2] == m {
        count = count + 1;
    }
    count
}

/// Majority vote among three modes: each mode in turn, from the first, takes
/// the lead when more signals vote for it than for the mode leading so far.
pub fn majority_vote(modes: [DynamicMode; 3]) -> (r: DynamicMode)
    ensures
        r == vote_outcome(modes),
        r == modes[0] || r == modes[1] || r == modes[2],
        forall|m: DynamicMode| #[trigger] votes_for(modes, m) >= 2 ==> r == m,
        forall|m: DynamicMode| votes_for(modes, r) >= #[trigger] votes_for(modes, m),
        modes[0] == modes[1] ==> r == modes[0],
        modes[0] == modes[2] ==> r == modes[0],
        modes[1] == modes[2] ==> r == modes[1],
        (modes[0] != modes[1] && modes[0] != modes[2] && modes[1] != modes[2]) ==> r == modes[0],
{
    let mut best_mode = DynamicMode::Stable;
    let mut best_count: usize = 0;
    let c0 = votes(&modes, modes[0]);
    if c0 > best_count {
        best_count = c0;
        best_mode = modes[0];
    }
    let c1 = votes(&modes, modes[1]);
    if c1 > best_count {
        best_count = c1;
        best_mode = modes[1];
    }
    let c2 = votes(&modes, modes[2]);
    if c2 > best_count {
        best_count = c2;
        best_mode = modes[2];
    }
    best_mode
}

} // verus!
