//! Access to persistent alarm data: the request validation, query construction and
//! result shaping behind the alarm groups, alarm timers, user layouts and alarm lists
//! services. A caller runs each query on its data store and hands the outcome back.

pub mod datetime;
pub mod error;
pub mod keyed;
pub mod row;
pub mod services;
pub mod text;
pub mod timer_type;
