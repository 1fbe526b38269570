//! Finding the first entry that matches: a score by its action, an input by
//! its feature name.

use vstd::prelude::*;
use crate::types::TernaryAction;

verus! {

/// `i` is the position of the first occurrence of `x` in `s`.
pub open spec fn is_first_position<T>(s: Seq<T>, x: T, i: int) -> bool {
    &&& 0 <= i < s.len()
    &&& s[i] == x
    &&& forall|j: int| 0 <= j < i ==> s[j] != x
}

/// The position of the first entry of `actions` equal to `action`.
pub fn position_of_action(actions: &Vec<TernaryAction>, action: TernaryAction) -> (r: Option<
    usize,
>)
    ensures
        r matches Some(i) ==> is_first_position(actions@, action, i as int),
        r is None <==> !actions@.contains(action),
{
    let n = actions.len();
    let mut i: usize = 0;
    while i < n
        invariant
            n == actions@.len(),
            i <= n,
            forall|j: int| 0 <= j < i ==> actions@[j] != action,
        decreases n - i,
    {
        if actions[i] == action {
            return Some(i);
        }
        i = i + 1;
    }
    None
}

/// The position of the first name in `names` equal to `name`.
pub fn position_of_name(names: &Vec<String>, name: &String) -> (r: Option<usize>)
    ensures
        r matches Some(i) ==> is_first_position(names@.map_values(|s: String| s@), name@, i as int),
        r is None <==> !names@.map_values(|s: String| s@).contains(name@),
{
    let ghost views = names@.map_values(|s: String| s@);
    let n = names.len();
    let mut i: usize = 0;
    while i < n
        invariant
            n == names@.len(),
            views == names@.map_values(|s: String| s@),
            i <= n,
            forall|j: int| 0 <= j < i ==> views[j] != name@,
        decreases n - i,
    {
        if names[i] == *name {
            assert(views[i as int] == name@);
            return Some(i);
        }
        i = i + 1;
    }
    None
}

} // verus!
