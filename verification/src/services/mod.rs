//! The logic of the services: alarm groups, alarm timers, user layouts and alarm lists.

pub mod alarm_timers;
pub mod user_layouts;
pub mod alarm_groups;
pub mod alarm_lists;
