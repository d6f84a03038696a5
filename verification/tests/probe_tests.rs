use rfetch::env::EnvSnapshot;
use rfetch::probes::{
    classify_pci_devices, display_cpu_model, display_env_var, display_kernel_version,
    display_language, display_load_avg, display_lspci_data, display_mem_info, display_os_name,
    display_package_count, display_process_count, display_session_type, display_uptime,
    display_user_hostname, helper_mem_line, parse_lspci, PciDevice, ProbeError,
};
use rfetch::render::{logo_row, Renderer};

const HEADER: &str = "\x1b[33m";
const TEXT: &str = "\x1b[97m";

fn styled(label: &str, value: &str) -> String {
    format!("{HEADER}{label}{TEXT}{value}\n")
}

fn logo(i: usize) -> String {
    format!("{} ", logo_row(i))
}

fn env_of(pairs: &[(&str, &str)]) -> EnvSnapshot {
    EnvSnapshot::new(pairs.iter().map(|(k, v)| (k.to_string(), v.to_string())).collect())
}

#[test]
fn helper_mem_line_reads_the_kilobyte_count() {
    assert_eq!(helper_mem_line("MemTotal:        8000000 kB"), Some(8000000));
    assert_eq!(helper_mem_line("SwapFree: 400000 kB"), Some(400000));
    assert_eq!(helper_mem_line("no colon here"), None);
    assert_eq!(helper_mem_line("MemTotal:    "), None);
    assert_eq!(helper_mem_line("MemTotal: lots kB"), None);
}

#[test]
fn mem_info_end_to_end() {
    let meminfo = "MemTotal: 8000000 kB\nMemAvailable: 2000000 kB\nSwapTotal: 1000000 kB\nSwapFree: 400000 kB\n";
    let mut r = Renderer::new();
    assert_eq!(display_mem_info(&mut r, meminfo), Ok(()));
    let expected = format!(
        "{}{}{}{}",
        logo(0),
        styled("Swap: ", "600.00 MB / 1000.00 MB"),
        logo(1),
        styled("Memory: ", "6000.00 MB / 8000.00 MB"),
    );
    assert_eq!(r.out, expected);
    assert_eq!(r.cursor, 2);
}

#[test]
fn mem_info_used_is_total_minus_available() {
    let meminfo = "MemTotal: 500 kB\nMemAvailable: 123 kB\nSwapTotal: 90 kB\nSwapFree: 90 kB\n";
    let mut r = Renderer::new();
    assert_eq!(display_mem_info(&mut r, meminfo), Ok(()));
    assert!(r.out.contains("Memory: \u{1b}[97m0.38 MB / 0.50 MB"));
    assert!(r.out.contains("Swap: \u{1b}[97m0.00 MB / 0.09 MB"));
}

#[test]
fn mem_info_rejects_available_above_total() {
    let meminfo = "MemTotal: 100 kB\nMemAvailable: 200 kB\nSwapTotal: 10 kB\nSwapFree: 5 kB\n";
    let mut r = Renderer::new();
    assert_eq!(display_mem_info(&mut r, meminfo), Err(ProbeError::BadNumber));
    assert_eq!(r.out, "");
    assert_eq!(r.cursor, 0);
}

#[test]
fn mem_info_reports_missing_line() {
    let meminfo = "MemTotal: 100 kB\nSwapTotal: 10 kB\nSwapFree: 5 kB\n";
    let mut r = Renderer::new();
    assert_eq!(display_mem_info(&mut r, meminfo), Err(ProbeError::FieldMissing));
}

#[test]
fn mem_info_reports_bad_number() {
    let meminfo = "MemTotal: x kB\nMemAvailable: 1 kB\nSwapTotal: 1 kB\nSwapFree: 1 kB\n";
    let mut r = Renderer::new();
    assert_eq!(display_mem_info(&mut r, meminfo), Err(ProbeError::BadNumber));
}

#[test]
fn language_splits_at_the_first_dot() {
    let env = env_of(&[("LANG", "en_US.UTF-8")]);
    let mut r = Renderer::new();
    assert_eq!(display_language(&mut r, &env), Ok(()));
    assert_eq!(r.out, format!("{}{}", logo(0), styled("Language: ", "en_US")));
    assert_eq!(r.cursor, 1);
}

#[test]
fn language_without_lang_is_an_error() {
    let env = env_of(&[]);
    let mut r = Renderer::new();
    assert_eq!(display_language(&mut r, &env), Err(ProbeError::MissingEnv));
    assert_eq!(r.out, "");
}

#[test]
fn optional_env_var_absent_renders_nothing() {
    let env = env_of(&[("SHELL", "/bin/sh")]);
    let mut r = Renderer::new();
    display_env_var(&mut r, &env, "Editor: ", "EDITOR");
    assert_eq!(r.out, "");
    assert_eq!(r.cursor, 0);
}

#[test]
fn optional_env_var_present_renders_one_line() {
    let env = env_of(&[("SHELL", "/bin/sh")]);
    let mut r = Renderer::new();
    display_env_var(&mut r, &env, "Shell: ", "SHELL");
    assert_eq!(r.out, format!("{}{}", logo(0), styled("Shell: ", "/bin/sh")));
    assert_eq!(r.cursor, 1);
}

#[test]
fn session_type_is_wayland_when_the_variable_is_set() {
    let mut r = Renderer::new();
    display_session_type(&mut r, &env_of(&[("WAYLAND_DISPLAY", "wayland-0")]));
    assert_eq!(r.out, format!("{}{}", logo(0), styled("Session type: ", "Wayland")));
}

#[test]
fn session_type_is_x11_otherwise() {
    let mut r = Renderer::new();
    display_session_type(&mut r, &env_of(&[]));
    assert_eq!(r.out, format!("{}{}", logo(0), styled("Session type: ", "X11")));
}

#[test]
fn package_count_prefers_the_package_directory() {
    let mut r = Renderer::new();
    display_package_count(&mut r, Some(42), Some("line\n".repeat(20).as_str()));
    assert_eq!(r.out, format!("{}{}", logo(0), styled("Installed package count: ", "42")));
}

#[test]
fn package_count_uses_query_output_lines() {
    let mut r = Renderer::new();
    let out = "line\n".repeat(12);
    display_package_count(&mut r, None, Some(out.as_str()));
    assert_eq!(r.out, format!("{}{}", logo(0), styled("Installed package count: ", "12")));
}

#[test]
fn package_count_under_eleven_lines_shows_zero() {
    let mut r = Renderer::new();
    let out = "line\n".repeat(10);
    display_package_count(&mut r, None, Some(out.as_str()));
    assert_eq!(r.out, format!("{}{}", logo(0), styled("Installed package count: ", "0")));
}

#[test]
fn package_count_without_any_source_renders_nothing() {
    let mut r = Renderer::new();
    display_package_count(&mut r, None, None);
    assert_eq!(r.out, "");
    assert_eq!(r.cursor, 0);
}

#[test]
fn process_count_counts_numeric_names() {
    let mut r = Renderer::new();
    let entries = vec![
        String::from("123"),
        String::from("cpuinfo"),
        String::from("456"),
        String::from("1x"),
    ];
    display_process_count(&mut r, &entries);
    assert_eq!(r.out, format!("{}{}", logo(0), styled("Process count: ", "2")));
}

#[test]
fn cpu_model_takes_the_value_after_the_colon() {
    let cpuinfo = "processor\t: 0\nmodel name\t: AMD Ryzen 7 5800X\nstepping: 2\n";
    let mut r = Renderer::new();
    assert_eq!(display_cpu_model(&mut r, cpuinfo), Ok(()));
    assert_eq!(r.out, format!("{}{}", logo(0), styled("CPU Model:", " AMD Ryzen 7 5800X")));
}

#[test]
fn cpu_model_missing_is_an_error() {
    let mut r = Renderer::new();
    assert_eq!(display_cpu_model(&mut r, "processor: 0\n"), Err(ProbeError::FieldMissing));
    assert_eq!(r.out, "");
    assert_eq!(r.cursor, 0);
}

#[test]
fn kernel_version_is_the_third_field() {
    let mut r = Renderer::new();
    assert_eq!(display_kernel_version(&mut r, "Linux version 6.1.0-x (gcc)\n"), Ok(()));
    assert_eq!(r.out, format!("{}{}", logo(0), styled("Kernel version: ", "6.1.0-x")));
}

#[test]
fn kernel_version_too_few_fields_is_an_error() {
    let mut r = Renderer::new();
    assert_eq!(
        display_kernel_version(&mut r, "Linux_version_6.1.0"),
        Err(ProbeError::FieldMissing)
    );
}

#[test]
fn os_name_reads_the_quoted_field() {
    let mut r = Renderer::new();
    let os = "NAME=\"Debian GNU/Linux\"\nID=debian\n";
    assert_eq!(display_os_name(&mut r, os), Ok(()));
    assert_eq!(r.out, format!("{}{}", logo(0), styled("Operating System: ", "Debian GNU/Linux")));
}

#[test]
fn os_name_without_quotes_is_an_error() {
    let mut r = Renderer::new();
    assert_eq!(display_os_name(&mut r, "NAME=debian\n"), Err(ProbeError::FieldMissing));
    assert_eq!(display_os_name(&mut r, ""), Err(ProbeError::FieldMissing));
}

#[test]
fn load_avg_shows_three_numbers() {
    let mut r = Renderer::new();
    assert_eq!(display_load_avg(&mut r, "0.52 0.58 0.59 1/2144 123\n"), Ok(()));
    assert_eq!(r.out, format!("{}{}", logo(0), styled("Load average: ", "0.52 0.58 0.59")));
}

#[test]
fn uptime_divides_seconds_by_3600() {
    let mut r = Renderer::new();
    assert_eq!(display_uptime(&mut r, "7200.00 14000.00\n"), Ok(()));
    assert_eq!(r.out, format!("{}{}", logo(0), styled("Uptime: ", "2.00 h")));
}

#[test]
fn uptime_rounds_to_two_decimal_places() {
    let mut r = Renderer::new();
    assert_eq!(display_uptime(&mut r, "1800 0"), Ok(()));
    assert_eq!(r.out, format!("{}{}", logo(0), styled("Uptime: ", "0.50 h")));
    let mut r2 = Renderer::new();
    assert_eq!(display_uptime(&mut r2, "5000.55 1"), Ok(()));
    assert!(r2.out.contains("Uptime: \u{1b}[97m1.39 h"));
}

#[test]
fn uptime_rejects_a_non_number() {
    let mut r = Renderer::new();
    assert_eq!(display_uptime(&mut r, "soon 0"), Err(ProbeError::BadNumber));
    assert_eq!(display_uptime(&mut r, "1.2.3 0"), Err(ProbeError::BadNumber));
}

#[test]
fn banner_shows_user_at_hostname_with_underline() {
    let env = env_of(&[("USER", "alice")]);
    let mut r = Renderer::new();
    assert_eq!(display_user_hostname(&mut r, &env, "box\n"), Ok(()));
    let expected = format!(
        "{}{HEADER}alice@box\n{TEXT}{}{}\n",
        logo(0),
        logo(1),
        "=".repeat(9),
    );
    assert_eq!(r.out, expected);
    assert_eq!(r.cursor, 2);
}

#[test]
fn banner_without_user_is_an_error() {
    let mut r = Renderer::new();
    assert_eq!(
        display_user_hostname(&mut r, &env_of(&[]), "box\n"),
        Err(ProbeError::MissingEnv)
    );
}

fn device(label: Option<&str>, class: &str) -> PciDevice {
    PciDevice { label: label.map(|l| l.to_string()), class: class.to_string() }
}

#[test]
fn classify_sorts_devices_by_class_code() {
    let devices = vec![
        device(Some(" Some GPU \n"), "0x030000\n"),
        device(None, "0x030000\n"),
        device(Some("Wired\n"), "0x020000\n"),
        device(Some("Wireless\n"), "0x0d0000\n"),
        device(Some("Bridge\n"), "0x060000\n"),
    ];
    let (gpus, nets) = classify_pci_devices(&devices).unwrap();
    assert_eq!(gpus, vec!["Some GPU"]);
    assert_eq!(nets, vec!["Wired", "Wireless"]);
}

#[test]
fn classify_skips_devices_without_a_label() {
    let devices = vec![device(None, "0x030000\n"), device(None, "0x020000\n")];
    let (gpus, nets) = classify_pci_devices(&devices).unwrap();
    assert!(gpus.is_empty());
    assert!(nets.is_empty());
}

#[test]
fn classify_rejects_a_short_class_code() {
    let devices = vec![device(Some("GPU"), "0x")];
    assert_eq!(classify_pci_devices(&devices), Err(ProbeError::FieldMissing));
}

#[test]
fn parse_lspci_takes_the_third_colon_field() {
    let out = "00:02.0 VGA compatible controller: Intel UHD\n00:1f.3 Audio device: Intel HDA\n00:1f.6 Ethernet controller: Intel I219\n00:14.0 USB controller: Intel USB\n";
    let (gpus, nets, auds) = parse_lspci(out).unwrap();
    assert_eq!(gpus, vec![" Intel UHD"]);
    assert_eq!(nets, vec![" Intel I219"]);
    assert_eq!(auds, vec![" Intel HDA"]);
}

#[test]
fn parse_lspci_needs_three_fields_on_matching_lines() {
    assert_eq!(parse_lspci("VGA compatible controller\n"), Err(ProbeError::FieldMissing));
}

#[test]
fn fast_inventory_ignores_command_output() {
    let devices = vec![device(Some("GPU one"), "0x030000\n")];
    let mut with_output = Renderer::new();
    assert_eq!(
        display_lspci_data(&mut with_output, true, &devices, Some("garbage: VGA compatible\n")),
        Ok(())
    );
    let mut without_output = Renderer::new();
    assert_eq!(display_lspci_data(&mut without_output, true, &devices, None), Ok(()));
    assert_eq!(with_output.out, without_output.out);
    assert!(with_output.out.contains("GPU one"));
}

#[test]
fn normal_inventory_without_command_output_renders_nothing() {
    let devices: Vec<PciDevice> = Vec::new();
    let mut r = Renderer::new();
    assert_eq!(display_lspci_data(&mut r, false, &devices, None), Ok(()));
    assert_eq!(r.out, "");
    assert_eq!(r.cursor, 0);
}
