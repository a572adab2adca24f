//! A transactional planner for LVM2 provisioning: parsing of the command
//! line, planning of the system calls, state-convergence checks against
//! probed system facts, and compilation of the plan into commands.
pub mod domain;
pub mod text;
pub mod parser;
pub mod planner;
pub mod convergence;
pub mod execution;
pub mod pipeline;
pub mod probing;
