//! Integer parts of the GPU engine: the diagnostic workload, the
//! double-float generator's lanes and the boss lock rule.

pub mod boss_probe;
pub mod diagnostic;
pub mod lua_random;
