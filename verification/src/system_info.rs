//! The machine: how an uptime is written, and what is said of the hardware.

use vstd::prelude::*;
use crate::numeral::{decimal, push_decimal};
use crate::text::{chars_of, holds, str_holds, text_of};

verus! {

/// An uptime of `secs` seconds in days, hours and minutes; the larger units
/// are left out while they are zero.
pub open spec fn uptime_text(secs: nat) -> Seq<char> {
    let days = secs / 86400;
    let hours = (secs % 86400) / 3600;
    let mins = (secs % 3600) / 60;
    let with_minutes = decimal(mins).push('m');
    let with_hours = decimal(hours).push('h').push(' ') + with_minutes;
    if days > 0 {
        decimal(days).push('d').push(' ') + with_hours
    } else if hours > 0 {
        with_hours
    } else {
        with_minutes
    }
}

/// Writes an uptime of `secs` seconds.
pub fn format_uptime(secs: u64) -> (text: String)
    ensures
        text@ == uptime_text(secs as nat),
{
    let days: u64 = secs / 86400;
    let hours: u64 = (secs % 86400) / 3600;
    let mins: u64 = (secs % 3600) / 60;
    let mut text = String::new();
    if days > 0 {
        push_decimal(&mut text, days);
        text.push('d');
        text.push(' ');
    }
    if days > 0 || hours > 0 {
        push_decimal(&mut text, hours);
        text.push('h');
        text.push(' ');
    }
    push_decimal(&mut text, mins);
    text.push('m');
    assert(text@ == uptime_text(secs as nat));
    text
}

/// What is known of the hardware.
#[derive(Debug, PartialEq, Eq)]
pub struct HardwareInfo {
    pub model: String,
    pub cpu: String,
    pub cores: usize,
    pub memory: u64,
    pub os_version: String,
    pub hostname: String,
    pub serial_number: Option<String>,
}

/// The kind of machine that a processor name tells of.
pub open spec fn model_of(cpu: Seq<char>) -> Seq<char> {
    if holds(cpu, "Apple"@) {
        "Apple Silicon Mac"@
    } else {
        "Intel Mac"@
    }
}

/// Describes the hardware from what the system reports: the name of the
/// first processor (empty where there is none), the number of processors,
/// the memory in bytes, and the system's version and host name where it
/// gives them.
pub fn get_hardware_info(
    cpu: String,
    cores: usize,
    memory: u64,
    os_version: Option<String>,
    hostname: Option<String>,
) -> (info: HardwareInfo)
    ensures
        info.model@ == model_of(cpu@),
        info.cpu@ == cpu@,
        info.cores == cores,
        info.memory == memory,
        info.os_version@ == (match text_of(os_version) {
            Some(v) => v,
            None => "unknown"@,
        }),
        info.hostname@ == (match text_of(hostname) {
            Some(h) => h,
            None => "localhost"@,
        }),
        info.serial_number is None,
{
    let chars = chars_of(cpu.as_str());
    let model = if str_holds(&chars, "Apple") {
        "Apple Silicon Mac".to_owned()
    } else {
        "Intel Mac".to_owned()
    };
    HardwareInfo {
        model,
        cpu,
        cores,
        memory,
        os_version: match os_version {
            Some(v) => v,
            None => "unknown".to_owned(),
        },
        hostname: match hostname {
            Some(h) => h,
            None => "localhost".to_owned(),
        },
        serial_number: None,
    }
}

} // verus!
