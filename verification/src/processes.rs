//! Processes: how a running time is written, and how the command that ends
//! a process is made and its outcome read.

use vstd::prelude::*;
use crate::numeral::{decimal, push_decimal};
use crate::text::{chars_of, string_of_range, texts, trim_bounds, trimmed};

verus! {

/// The numeral of `n`, with a zero before a single digit.
pub open spec fn two_digits(n: nat) -> Seq<char> {
    if n < 10 {
        seq!['0'] + decimal(n)
    } else {
        decimal(n)
    }
}

/// A running time of `secs` seconds as `HH:MM:SS`, or as `MM:SS` where it
/// is less than an hour.
pub open spec fn elapsed_text(secs: nat) -> Seq<char> {
    let tail = two_digits((secs % 3600) / 60) + seq![':'] + two_digits(secs % 60);
    if secs >= 3600 {
        two_digits(secs / 3600) + seq![':'] + tail
    } else {
        tail
    }
}

fn push_two_digits(out: &mut String, n: u64)
    ensures
        final(out)@ == old(out)@ + two_digits(n as nat),
{
    if n < 10 {
        out.push('0');
    }
    push_decimal(out, n);
    assert(final(out)@ == old(out)@ + two_digits(n as nat));
}

/// Writes a running time of `secs` seconds.
pub fn format_elapsed(secs: u64) -> (text: String)
    ensures
        text@ == elapsed_text(secs as nat),
{
    let hours: u64 = secs / 3600;
    let mins: u64 = (secs % 3600) / 60;
    let s: u64 = secs % 60;
    let mut text = String::new();
    if hours > 0 {
        push_two_digits(&mut text, hours);
        text.push(':');
    }
    push_two_digits(&mut text, mins);
    text.push(':');
    push_two_digits(&mut text, s);
    assert(text@ == elapsed_text(secs as nat));
    text
}

/// The command that ends the process `pid`: `kill` with the signal 9 where
/// force is asked for, else 15.
pub open spec fn kill_command(pid: u32, force: bool) -> Seq<Seq<char>> {
    seq![
        "kill"@,
        if force {
            "-9"@
        } else {
            "-15"@
        },
        decimal(pid as nat),
    ]
}

/// The command line that ends the process `pid`, the program first.
pub fn kill_process(pid: u32, force: bool) -> (args: Vec<String>)
    ensures
        texts(args@) == kill_command(pid, force),
{
    let mut number = String::new();
    push_decimal(&mut number, pid as u64);
    assert(number@ == decimal(pid as nat));
    let mut args: Vec<String> = Vec::new();
    args.push("kill".to_owned());
    args.push(
        if force {
            "-9".to_owned()
        } else {
            "-15".to_owned()
        },
    );
    args.push(number);
    assert(texts(args@) == kill_command(pid, force));
    args
}

/// What the command that ends a process has achieved: on failure the error
/// is what it wrote to its standard error, trimmed.
pub fn kill_outcome(success: bool, stderr: &str) -> (r: Result<(), String>)
    ensures
        success ==> r is Ok,
        !success ==> r is Err && r->Err_0@ == trimmed(stderr@),
{
    if success {
        Ok(())
    } else {
        let chars = chars_of(stderr);
        let (a, b) = trim_bounds(&chars, 0, chars.len());
        assert(chars@.subrange(0, chars.len() as int) == chars@);
        Err(string_of_range(&chars, a, b))
    }
}

} // verus!
