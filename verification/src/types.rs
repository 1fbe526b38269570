//! Core types for ternary decisions.

use vstd::prelude::*;

verus! {

/// A ternary action: negative (-1), neutral (0), or positive (+1).
#[derive(Debug, Clone, Copy, PartialEq, Eq, Hash, Structural)]
pub enum TernaryAction {
    /// Negative / oppose / sell / reject
    Negative,
    /// Neutral / hold / abstain / skip
    Neutral,
    /// Positive / support / buy / accept
    Positive,
}

/// The integer value of an action.
pub open spec fn action_value(a: TernaryAction) -> int {
    match a {
        TernaryAction::Negative => -1,
        TernaryAction::Neutral => 0,
        TernaryAction::Positive => 1,
    }
}

/// The action whose integer value is `v`, if `v` is one of -1, 0, 1.
pub open spec fn action_of_value(v: int) -> Option<TernaryAction> {
    if v == -1 {
        Some(TernaryAction::Negative)
    } else if v == 0 {
        Some(TernaryAction::Neutral)
    } else if v == 1 {
        Some(TernaryAction::Positive)
    } else {
        None
    }
}

/// The action with the opposite sign.
pub open spec fn opposite_action(a: TernaryAction) -> TernaryAction {
    match a {
        TernaryAction::Negative => TernaryAction::Positive,
        TernaryAction::Neutral => TernaryAction::Neutral,
        TernaryAction::Positive => TernaryAction::Negative,
    }
}

/// The human-readable label of an action.
pub open spec fn action_label(a: TernaryAction) -> Seq<char> {
    match a {
        TernaryAction::Negative => "Negative (-1)"@,
        TernaryAction::Neutral => "Neutral (0)"@,
        TernaryAction::Positive => "Positive (+1)"@,
    }
}

/// All actions, in the order -1, 0, +1.
pub open spec fn all_actions() -> Seq<TernaryAction> {
    seq![TernaryAction::Negative, TernaryAction::Neutral, TernaryAction::Positive]
}

/// The two actions other than `a`, in the order of `all_actions`.
pub open spec fn other_actions(a: TernaryAction) -> Seq<TernaryAction> {
    all_actions().filter(|x: TernaryAction| x != a)
}

/// Converting an action to its integer value and back gives the action again;
/// an integer that converts to an action is that action's value.
pub proof fn lemma_value_roundtrip(a: TernaryAction, v: int)
    ensures
        action_of_value(action_value(a)) == Some(a),
        action_of_value(v) matches Some(b) ==> action_value(b) == v,
        action_of_value(v) is Some <==> -1 <= v <= 1,
{
}

/// The opposite flips the sign of an action's value, is its own inverse, and
/// leaves only the neutral action unchanged.
pub proof fn lemma_opposite(a: TernaryAction)
    ensures
        action_value(opposite_action(a)) == -action_value(a),
        opposite_action(opposite_action(a)) == a,
        opposite_action(a) == a <==> a == TernaryAction::Neutral,
{
}

/// `all_actions` lists each action exactly once, by increasing value.
pub proof fn lemma_all_actions(a: TernaryAction)
    ensures
        all_actions().len() == 3,
        all_actions().contains(a),
        forall|i: int| 0 <= i < 3 ==> action_value(#[trigger] all_actions()[i]) == i - 1,
        forall|i: int, j: int| 0 <= i < j < 3 ==> all_actions()[i] != all_actions()[j],
{
    assert(all_actions()[action_value(a) + 1] == a);
}

/// The actions other than `a` are exactly the two actions distinct from it,
/// in the order of `all_actions`.
pub proof fn lemma_other_actions(a: TernaryAction)
    ensures
        other_actions(a).len() == 2,
        !other_actions(a).contains(a),
        forall|b: TernaryAction| b != a ==> #[trigger] other_actions(a).contains(b),
        action_value(other_actions(a)[0]) < action_value(other_actions(a)[1]),
{
    reveal_with_fuel(Seq::filter, 4);
    let s = all_actions();
    assert(s.drop_last().drop_last().drop_last() == Seq::<TernaryAction>::empty());
    match a {
        TernaryAction::Negative => {
            assert(other_actions(a) == seq![TernaryAction::Neutral, TernaryAction::Positive]);
        },
        TernaryAction::Neutral => {
            assert(other_actions(a) == seq![TernaryAction::Negative, TernaryAction::Positive]);
        },
        TernaryAction::Positive => {
            assert(other_actions(a) == seq![TernaryAction::Negative, TernaryAction::Neutral]);
        },
    }
    assert forall|b: TernaryAction| b != a implies #[trigger] other_actions(a).contains(b) by {
        match b {
            TernaryAction::Negative => assert(other_actions(a)[0] == b),
            TernaryAction::Neutral => {
                if a == TernaryAction::Negative {
                    assert(other_actions(a)[0] == b);
                } else {
                    assert(other_actions(a)[1] == b);
                }
            },
            TernaryAction::Positive => assert(other_actions(a)[1] == b),
        }
    }
}

impl TernaryAction {
    /// Convert from integer value (-1, 0, 1) to TernaryAction.
    pub fn from_i8(v: i8) -> (r: Option<Self>)
        ensures
            r == action_of_value(v as int),
            r is Some <==> -1 <= v <= 1,
            r matches Some(a) ==> action_value(a) == v,
    {
        match v {
            -1 => Some(TernaryAction::Negative),
            0 => Some(TernaryAction::Neutral),
            1 => Some(TernaryAction::Positive),
            _ => None,
        }
    }

    /// Convert to integer value.
    pub fn as_i8(self) -> (r: i8)
        ensures
            r == action_value(self),
    {
        match self {
            TernaryAction::Negative => -1,
            TernaryAction::Neutral => 0,
            TernaryAction::Positive => 1,
        }
    }

    /// Human-readable label.
    pub fn label(self) -> (r: &'static str)
        ensures
            r@ == action_label(self),
    {
        match self {
            TernaryAction::Negative => "Negative (-1)",
            TernaryAction::Neutral => "Neutral (0)",
            TernaryAction::Positive => "Positive (+1)",
        }
    }

    /// All variants.
    pub fn all() -> (r: [TernaryAction; 3])
        ensures
            r@ == all_actions(),
    {
        [TernaryAction::Negative, TernaryAction::Neutral, TernaryAction::Positive]
    }

    /// The actions other than this one, in the order of `all`.
    pub fn others(self) -> (r: [TernaryAction; 2])
        ensures
            r@ == other_actions(self),
    {
        proof {
            lemma_other_actions(self);
        }
        match self {
            TernaryAction::Negative => [TernaryAction::Neutral, TernaryAction::Positive],
            TernaryAction::Neutral => [TernaryAction::Negative, TernaryAction::Positive],
            TernaryAction::Positive => [TernaryAction::Negative, TernaryAction::Neutral],
        }
    }

    /// The opposite action (flip sign).
    pub fn opposite(self) -> (r: Self)
        ensures
            r == opposite_action(self),
    {
        match self {
            TernaryAction::Negative => TernaryAction::Positive,
            TernaryAction::Neutral => TernaryAction::Neutral,
            TernaryAction::Positive => TernaryAction::Negative,
        }
    }
}

/// Timestamp in milliseconds since Unix epoch.
pub type Timestamp = u64;

/// A deterministic clock in milliseconds: it hands out the current time and
/// moves forward by the step it is asked for.
#[derive(Debug, Clone)]
pub struct Clock {
    /// Current time in ms.
    now_ms: u64,
}

impl View for Clock {
    type V = u64;

    open spec fn view(&self) -> u64 {
        self.spec_now()
    }
}

impl Clock {
    /// The current time of the clock.
    pub closed spec fn spec_now(&self) -> u64 {
        self.now_ms
    }

    /// Create a new clock starting at the given time.
    pub fn new(start_ms: u64) -> (r: Self)
        ensures
            r@ == start_ms,
    {
        Clock { now_ms: start_ms }
    }

    /// Get current time and advance by `step_ms`.
    pub fn tick(&mut self, step_ms: u64) -> (t: u64)
        requires
            old(self)@ + step_ms <= u64::MAX,
        ensures
            t == old(self)@,
            final(self)@ == old(self)@ + step_ms,
    {
        let t = self.now_ms;
        self.now_ms = self.now_ms + step_ms;
        t
    }

    /// Current time without advancing.
    pub fn now(&self) -> (r: u64)
        ensures
            r == self@,
    {
        self.now_ms
    }
}

impl Default for Clock {
    fn default() -> (r: Self)
        ensures
            r@ == 1_700_000_000_000u64,
    {
        Clock::new(1_700_000_000_000)
    }
}

} // verus!
