//! Explainability for ternary agent decisions: why did the agent choose
//! -1, 0 or +1?
//!
//! The verified core: the ternary action type and its laws, a deterministic
//! clock, the decision index that an audit log is searched through, a stable
//! ranking of items by key, and the text layout of explanations.

pub mod audit;
pub mod explanation;
pub mod lookup;
pub mod ranking;
pub mod types;

pub use crate::audit::{DecisionIndex, DecisionLog, DecisionRecord};
pub use crate::explanation::{format_explanation, Explanation};
pub use crate::lookup::{position_of_action, position_of_name};
pub use crate::ranking::rank_by_key_desc;
pub use crate::types::{Clock, TernaryAction, Timestamp};
