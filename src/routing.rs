pub mod cache;
pub mod matchers;
pub mod router;
pub mod rule_sets;
