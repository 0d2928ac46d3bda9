use dungeonrs::crash::{crash_dialog_text, crash_report_text, panic_location, panic_message, CpuReport, CrashReport};

#[test]
fn panic_message_falls_back_to_generic_text() {
    assert_eq!(panic_message(Some("boom".to_string())), "boom");
    assert_eq!(panic_message(None), "An unrecoverable error has occurred.");
    assert_eq!(panic_location(Some("src/main.rs:3:5".to_string())), "src/main.rs:3:5");
    assert_eq!(panic_location(None), "Unknown location");
}

#[test]
fn dialog_text_names_error_location_and_file() {
    let text = crash_dialog_text("boom", "src/main.rs:3:5", "\"/tmp/crash_report.txt\"");
    assert_eq!(
        text,
        "An unrecoverable error has occurred, the editor will shut down.\nThe error was: boom\n\nError occurred at: src/main.rs:3:5\n\nA crash file will be generated at \"/tmp/crash_report.txt\""
    );
}

#[test]
fn report_lists_system_and_error() {
    let report = CrashReport {
        os_version: None,
        used_memory: 512,
        total_memory: 2048,
        cpus: vec![
            CpuReport { name: "cpu0".to_string(), frequency: 3000, brand: "Acme".to_string(), usage: "12.5".to_string() },
            CpuReport { name: "cpu1".to_string(), frequency: 2900, brand: "Acme".to_string(), usage: "0".to_string() },
        ],
        message: "boom".to_string(),
        location: "src/main.rs:3:5".to_string(),
        raw: "PanicHookInfo { .. }".to_string(),
    };
    let expected = "--- DungeonRS Crash Report ---\n\
Please provide the contents of this file when creating a bug report.\n\
\n\
\n\
Operating System: Unknown\n\
Memory: 512/2048\n\
CPU: 2 Cores Acme\n\
cpu0: 3000Hz (Acme) 12.5%\n\
cpu1: 2900Hz (Acme) 0%\n\
\n\
---\n\
Error: boom\n\
Location: src/main.rs:3:5\n\
---\n\
Raw: PanicHookInfo { .. }\n";
    assert_eq!(crash_report_text(&report), expected);
}

#[test]
fn report_names_known_os() {
    let report = CrashReport {
        os_version: Some("Linux 6.1".to_string()),
        used_memory: 0,
        total_memory: 1,
        cpus: vec![CpuReport { name: "c".to_string(), frequency: 1, brand: "B".to_string(), usage: "1".to_string() }],
        message: "m".to_string(),
        location: "l".to_string(),
        raw: "r".to_string(),
    };
    assert!(crash_report_text(&report).contains("Operating System: Linux 6.1\n"));
}
