//! The core of a desktop dashboard for one machine: the log subsystem (line
//! parsing, a bounded rolling buffer, stream lifecycle decisions, historical
//! queries and per-source activity summaries), and the rules by which
//! processes, services and the hardware are described.

pub mod logs;
pub mod numeral;
pub mod processes;
pub mod services;
pub mod system_info;
pub mod text;
