//! The logic of a desktop system monitor: what it shows of the machine's
//! readings, how it orders processes, how it reads the operating system's
//! release file and the graphics card's report, and how its state changes.

pub mod text;
pub mod processes;
pub mod uptime;
pub mod os_release;
pub mod gpu;
pub mod usage;
pub mod model;
