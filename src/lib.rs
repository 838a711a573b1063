//! Reactive state propagation: diffs over ordered collections, change
//! events, bound properties and the flat-map collection transform, with the
//! widget-level decisions that consume them.

pub mod vec_diff;
pub mod collection;
pub mod event;
pub mod flat_map;
pub mod observable_vec;
pub mod property;
pub mod counter;
pub mod event_processor;
pub mod menu;
pub mod window;
