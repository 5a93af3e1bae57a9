//! Verified logic of the sgc demo programs: the AdGuard Home dashboard, the IR
//! remote test screen and the input test harness.

pub mod text;
pub mod agh;
pub mod config;
pub mod view;
pub mod dashboard;
pub mod selfcheck;
pub mod keys;
pub mod raw;
pub mod uinput;
pub mod steal;
