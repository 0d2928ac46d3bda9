//! The texts shown and written when the editor hits an unrecoverable error.
use vstd::prelude::*;
use crate::text::{all_digits, decimal, decimal_value, law_decimal_reads_back, u64_to_decimal};

verus! {

/// What the crash report says about one CPU.
pub struct CpuReport {
    /// The CPU's name.
    pub name: String,
    /// Its frequency, in MHz as the system reports it.
    pub frequency: u64,
    /// Its brand.
    pub brand: String,
    /// Its usage, already written as text (a percentage).
    pub usage: String,
}

/// What the crash report says about the system and the error.
pub struct CrashReport {
    /// The long name of the operating system's version, if it is known.
    pub os_version: Option<String>,
    /// Used memory, in bytes.
    pub used_memory: u64,
    /// Total memory, in bytes.
    pub total_memory: u64,
    /// The CPUs, in the order the system lists them.
    pub cpus: Vec<CpuReport>,
    /// The error message.
    pub message: String,
    /// Where the error occurred.
    pub location: String,
    /// The raw (debug) form of the panic information.
    pub raw: String,
}

/// A line of text: `s` followed by a line feed.
pub open spec fn line(s: Seq<char>) -> Seq<char> {
    s.push('\n')
}

/// The message of a panic: its payload when that is a string, else a generic one.
pub open spec fn spec_panic_message(payload: Option<Seq<char>>) -> Seq<char> {
    match payload {
        Some(m) => m,
        None => "An unrecoverable error has occurred."@,
    }
}

/// The location of a panic, or a placeholder when it has none.
pub open spec fn spec_panic_location(location: Option<Seq<char>>) -> Seq<char> {
    match location {
        Some(l) => l,
        None => "Unknown location"@,
    }
}

/// The operating system version, or a placeholder when it is unknown.
pub open spec fn spec_os_version(version: Option<Seq<char>>) -> Seq<char> {
    match version {
        Some(v) => v,
        None => "Unknown"@,
    }
}

/// The message to report for a panic whose payload (if it is a string) is `payload`.
pub fn panic_message(payload: Option<String>) -> (message: String)
    ensures
        message@ == spec_panic_message(crate::packs::opt_view(payload)),
{
    match payload {
        Some(m) => m,
        None => "An unrecoverable error has occurred.".to_owned(),
    }
}

/// The location to report for a panic.
pub fn panic_location(location: Option<String>) -> (text: String)
    ensures
        text@ == spec_panic_location(crate::packs::opt_view(location)),
{
    match location {
        Some(l) => l,
        None => "Unknown location".to_owned(),
    }
}

/// A panic whose payload is a string is reported with that string, whole and
/// unchanged, whatever its length.
pub proof fn law_panic_message_kept(m: Seq<char>)
    ensures
        spec_panic_message(Some(m)) == m,
{
}

/// A panic's location, when it has one, is reported unchanged.
pub proof fn law_panic_location_kept(l: Seq<char>)
    ensures
        spec_panic_location(Some(l)) == l,
{
}

/// The description shown in the error dialog.
pub open spec fn spec_dialog_text(message: Seq<char>, location: Seq<char>, path_debug: Seq<char>) -> Seq<char> {
    "An unrecoverable error has occurred, the editor will shut down.\nThe error was: "@ + message
        + "\n\nError occurred at: "@ + location + "\n\nA crash file will be generated at "@
        + path_debug
}

/// The description shown in the error dialog; `path_debug` is the debug form
/// of the path of the crash file.
pub fn crash_dialog_text(message: &str, location: &str, path_debug: &str) -> (text: String)
    ensures
        text@ == spec_dialog_text(message@, location@, path_debug@),
{
    let mut text = "An unrecoverable error has occurred, the editor will shut down.\nThe error was: ".to_owned();
    text.append(message);
    text.append("\n\nError occurred at: ");
    text.append(location);
    text.append("\n\nA crash file will be generated at ");
    text.append(path_debug);
    text
}

/// The report line for one CPU.
pub open spec fn spec_cpu_line(cpu: CpuReport) -> Seq<char> {
    line(cpu.name@ + ": "@ + decimal(cpu.frequency as nat) + "Hz ("@ + cpu.brand@ + ") "@ + cpu.usage@ + "%"@)
}

/// The report lines for the CPUs, in order.
pub open spec fn spec_cpu_lines(cpus: Seq<CpuReport>) -> Seq<char>
    decreases cpus.len(),
{
    if cpus.len() == 0 {
        Seq::empty()
    } else {
        spec_cpu_lines(cpus.drop_last()) + spec_cpu_line(cpus.last())
    }
}

/// The first lines of the crash file: the header, the operating system and
/// the memory, which come before anything about the CPUs.
pub open spec fn spec_report_head(os_version: Option<Seq<char>>, used_memory: u64, total_memory: u64) -> Seq<char> {
    line("--- DungeonRS Crash Report ---"@)
        + line("Please provide the contents of this file when creating a bug report."@)
        + line(Seq::empty()) + line(Seq::empty())
        + line("Operating System: "@ + spec_os_version(os_version))
        + line("Memory: "@ + decimal(used_memory as nat) + "/"@ + decimal(total_memory as nat))
}

/// The memory line of a crash report: `Memory: used/total`.
pub open spec fn memory_line(used: Seq<char>, total: Seq<char>) -> Seq<char> {
    line("Memory: "@ + used + "/"@ + total)
}

/// The crash file's head ends with the memory line, `Memory: used/total`,
/// where the two numbers are written in full in decimal: each reads back to
/// the value reported, for every `u64` (values of 2^32 and above included).
pub proof fn law_memory_line_holds_full_values(os_version: Option<Seq<char>>, used_memory: u64, total_memory: u64)
    ensures
        exists|before: Seq<char>, used: Seq<char>, total: Seq<char>|
            #![trigger before.add(memory_line(used, total))]
            spec_report_head(os_version, used_memory, total_memory) == before.add(memory_line(used, total))
            && all_digits(used) && all_digits(total)
            && decimal_value(used) == used_memory && decimal_value(total) == total_memory,
{
    law_decimal_reads_back(used_memory as nat);
    law_decimal_reads_back(total_memory as nat);
    let before = line("--- DungeonRS Crash Report ---"@)
        + line("Please provide the contents of this file when creating a bug report."@)
        + line(Seq::empty()) + line(Seq::empty())
        + line("Operating System: "@ + spec_os_version(os_version));
    let used = decimal(used_memory as nat);
    let total = decimal(total_memory as nat);
    assert(spec_report_head(os_version, used_memory, total_memory) == before.add(memory_line(used, total)));
    assert(decimal_value(used) == used_memory && decimal_value(total) == total_memory);
}

/// The contents of the crash file.
pub open spec fn spec_report_text(r: CrashReport) -> Seq<char> {
    spec_report_head(crate::packs::opt_view(r.os_version), r.used_memory, r.total_memory)
        + line("CPU: "@ + decimal(r.cpus@.len()) + " Cores "@ + r.cpus@[0].brand@)
        + spec_cpu_lines(r.cpus@)
        + line(Seq::empty())
        + line("---"@)
        + line("Error: "@ + r.message@)
        + line("Location: "@ + r.location@)
        + line("---"@)
        + line("Raw: "@ + r.raw@)
}

/// The whole crash file begins with its head, so its memory line too holds the
/// full values (see [`law_memory_line_holds_full_values`]).
pub proof fn law_report_starts_with_head(r: CrashReport)
    ensures
        spec_report_text(r).subrange(0, spec_report_head(crate::packs::opt_view(r.os_version), r.used_memory, r.total_memory).len() as int)
            == spec_report_head(crate::packs::opt_view(r.os_version), r.used_memory, r.total_memory),
{
    let head = spec_report_head(crate::packs::opt_view(r.os_version), r.used_memory, r.total_memory);
    assert(spec_report_text(r).subrange(0, head.len() as int) =~= head);
}

fn push_line(text: &mut String, s: &str)
    ensures
        final(text)@ == old(text)@ + line(s@),
{
    text.append(s);
    crate::text::push_char(text, '\n');
}

/// The first lines of the crash file (see [`spec_report_head`]), which the
/// file holds whatever is known of the CPUs.
pub fn crash_report_head(os_version: &Option<String>, used_memory: u64, total_memory: u64) -> (text: String)
    ensures
        text@ == spec_report_head(crate::packs::opt_view(*os_version), used_memory, total_memory),
{
    proof {
        reveal_strlit("");
    }
    let mut text = String::new();
    push_line(&mut text, "--- DungeonRS Crash Report ---");
    push_line(&mut text, "Please provide the contents of this file when creating a bug report.");
    push_line(&mut text, "");
    push_line(&mut text, "");
    let mut os = "Operating System: ".to_owned();
    match os_version {
        Some(v) => os.append(v.as_str()),
        None => os.append("Unknown"),
    }
    push_line(&mut text, os.as_str());
    let mut memory = "Memory: ".to_owned();
    memory.append(u64_to_decimal(used_memory).as_str());
    memory.append("/");
    memory.append(u64_to_decimal(total_memory).as_str());
    push_line(&mut text, memory.as_str());
    text
}

/// The contents of the crash file. The report must list at least one CPU
/// (the header names the brand of the first).
pub fn crash_report_text(report: &CrashReport) -> (text: String)
    requires
        report.cpus@.len() > 0,
    ensures
        text@ == spec_report_text(*report),
{
    proof {
        reveal_strlit("");
    }
    let mut text = crash_report_head(&report.os_version, report.used_memory, report.total_memory);
    let mut header = "CPU: ".to_owned();
    header.append(u64_to_decimal(report.cpus.len() as u64).as_str());
    header.append(" Cores ");
    header.append(report.cpus[0].brand.as_str());
    push_line(&mut text, header.as_str());
    let ghost start = text@;
    let mut i: usize = 0;
    while i < report.cpus.len()
        invariant
            i <= report.cpus@.len(),
            text@ == start + spec_cpu_lines(report.cpus@.subrange(0, i as int)),
        decreases report.cpus@.len() - i,
    {
        let cpu = &report.cpus[i];
        let mut l = cpu.name.clone();
        l.append(": ");
        l.append(u64_to_decimal(cpu.frequency).as_str());
        l.append("Hz (");
        l.append(cpu.brand.as_str());
        l.append(") ");
        l.append(cpu.usage.as_str());
        l.append("%");
        push_line(&mut text, l.as_str());
        proof {
            let prefix = report.cpus@.subrange(0, i + 1);
            assert(prefix.drop_last() =~= report.cpus@.subrange(0, i as int));
            assert(prefix.last() == *cpu);
        }
        i = i + 1;
    }
    assert(report.cpus@.subrange(0, report.cpus@.len() as int) =~= report.cpus@);
    push_line(&mut text, "");
    push_line(&mut text, "---");
    let mut error = "Error: ".to_owned();
    error.append(report.message.as_str());
    push_line(&mut text, error.as_str());
    let mut location = "Location: ".to_owned();
    location.append(report.location.as_str());
    push_line(&mut text, location.as_str());
    push_line(&mut text, "---");
    let mut raw = "Raw: ".to_owned();
    raw.append(report.raw.as_str());
    push_line(&mut text, raw.as_str());
    assert(text@ =~= spec_report_text(*report));
    text
}

} // verus!
