use rfetch::env::EnvSnapshot;
use rfetch::orchestrator::{run, SystemSnapshot};
use rfetch::probes::{PciDevice, ProbeError};
use rfetch::render::logo_row;

fn env_of(pairs: &[(&str, &str)]) -> EnvSnapshot {
    EnvSnapshot::new(pairs.iter().map(|(k, v)| (k.to_string(), v.to_string())).collect())
}

fn snapshot() -> SystemSnapshot {
    SystemSnapshot {
        env_vars: env_of(&[
            ("USER", "alice"),
            ("LANG", "en_US.UTF-8"),
            ("SHELL", "/bin/sh"),
            ("TERM", "xterm"),
        ]),
        hostname: String::from("box\n"),
        os_release: String::from("NAME=\"Deb OS\"\nID=deb\n"),
        kernel_version: String::from("Linux version 6.1.0-x (gcc)\n"),
        cpuinfo: String::from("processor: 0\nmodel name\t: Ryzen 7\n"),
        loadavg: String::from("0.10 0.20 0.30 1/100 999\n"),
        meminfo: String::from(
            "MemTotal: 8000000 kB\nMemAvailable: 2000000 kB\nSwapTotal: 1000000 kB\nSwapFree: 400000 kB\n",
        ),
        uptime: String::from("7200.00 14000.00\n"),
        proc_entries: vec![String::from("1"), String::from("22"), String::from("self")],
        pacman_entries: Some(5),
        dpkg_output: None,
        lspci_output: None,
        pci_devices: Vec::new(),
        fast: false,
    }
}

#[test]
fn full_run_renders_every_probe_in_order() {
    let out = run(&snapshot()).unwrap();
    let expected_labels = [
        "Operating System: ",
        "Kernel version: ",
        "CPU Model:",
        "Session type: ",
        "Load average: ",
        "Installed package count: ",
        "Process count: ",
        "Shell: ",
        "Language: ",
        "Terminal: ",
        "Uptime: ",
        "Swap: ",
        "Memory: ",
    ];
    let mut pos: usize = 0;
    for label in expected_labels {
        let at = out[pos..].find(label).unwrap_or_else(|| panic!("missing {label}"));
        pos += at + label.len();
    }
    assert!(out.starts_with(&format!("{} \u{1b}[33malice@box\n", logo_row(0))));
    assert!(out.contains("Language: \u{1b}[97men_US"));
    assert!(out.contains("Memory: \u{1b}[97m6000.00 MB / 8000.00 MB"));
    assert!(out.contains("Swap: \u{1b}[97m600.00 MB / 1000.00 MB"));
    assert!(out.contains("Uptime: \u{1b}[97m2.00 h"));
    assert!(out.contains("Process count: \u{1b}[97m2"));
    assert!(out.contains("Installed package count: \u{1b}[97m5"));
    assert!(out.ends_with("\u{1b}[00m"));
    assert!(!out.contains("Editor: "));
    assert!(!out.contains("Environment: "));
}

#[test]
fn full_run_consumes_one_logo_row_per_line() {
    let out = run(&snapshot()).unwrap();
    for i in 0..10 {
        assert!(out.contains(logo_row(i)), "logo row {i} missing");
    }
    // 15 display lines pair with 10 logo rows and 5 blank fields; logo
    // rows 7 and 8 are themselves all-space and look just like the blanks.
    assert_eq!(out.matches("\n              ").count(), 7);
}

#[test]
fn a_failing_probe_fails_the_whole_run() {
    let mut snap = snapshot();
    snap.meminfo = String::from("MemTotal: what kB\n");
    assert_eq!(run(&snap), Err(ProbeError::BadNumber));
    let mut snap1 = snapshot();
    snap1.os_release = String::from("NAME=deb\n");
    assert_eq!(run(&snap1), Err(ProbeError::FieldMissing));
    let mut snap2 = snapshot();
    snap2.env_vars = env_of(&[("LANG", "C")]);
    assert_eq!(run(&snap2), Err(ProbeError::MissingEnv));
}

#[test]
fn fast_run_uses_device_metadata_not_command_output() {
    let mut snap = snapshot();
    snap.fast = true;
    snap.pci_devices = vec![PciDevice {
        label: Some(String::from("Fast GPU\n")),
        class: String::from("0x030000\n"),
    }];
    snap.lspci_output = Some(String::from("ignored: VGA compatible: nonsense\n"));
    let out = run(&snap).unwrap();
    assert!(out.contains("Display controller(s) - GPU(s):"));
    assert!(out.contains("Fast GPU"));
    assert!(!out.contains("nonsense"));
}
