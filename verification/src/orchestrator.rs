//! The orchestrator: runs every probe once, in a fixed order, over a
//! snapshot of the host's files, environment and command output, and
//! yields the full rendered text of one run.
use vstd::prelude::*;
use vstd::string::*;
use crate::env::EnvSnapshot;
use crate::probes::{
    banner_spec, cpu_model_spec, display_cpu_model, display_env_var, display_kernel_version,
    display_language, display_load_avg, display_lspci_data, display_mem_info, display_os_name,
    display_package_count, display_process_count, display_session_type, display_uptime,
    display_user_hostname, env_var_spec, kernel_spec, language_spec, load_avg_spec, lspci_spec,
    mem_info_spec, os_name_spec, package_count_spec, process_probe_spec, session_probe_spec,
    uptime_spec, PciDevice, ProbeError,
};
use crate::render::{reset_seq, Renderer};

verus! {

/// Everything one run reads, gathered up front by the caller: file
/// contents, the environment snapshot, directory listings, external
/// command output where it was available, and the fast-mode switch.
pub struct SystemSnapshot {
    pub env_vars: EnvSnapshot,
    pub hostname: String,
    pub os_release: String,
    pub kernel_version: String,
    pub cpuinfo: String,
    pub loadavg: String,
    pub meminfo: String,
    pub uptime: String,
    pub proc_entries: Vec<String>,
    pub pacman_entries: Option<u64>,
    pub dpkg_output: Option<String>,
    pub lspci_output: Option<String>,
    pub pci_devices: Vec<PciDevice>,
    pub fast: bool,
}

/// The whole text of one run: every probe's output in the fixed probe
/// order, starting the logo at its first row, closed by the style reset;
/// or the first probe failure.
pub open spec fn run_spec(snap: SystemSnapshot) -> Result<Seq<char>, ProbeError> {
    let envv = snap.env_vars@;
    match banner_spec(0, envv, snap.hostname@) {
        Err(e) => Err(e),
        Ok(p1) => match os_name_spec(p1.1, snap.os_release@) {
            Err(e) => Err(e),
            Ok(p2) => match kernel_spec(p2.1, snap.kernel_version@) {
                Err(e) => Err(e),
                Ok(p3) => match cpu_model_spec(p3.1, snap.cpuinfo@) {
                    Err(e) => Err(e),
                    Ok(p4) => match lspci_spec(
                        p4.1,
                        snap.fast,
                        snap.pci_devices.deep_view(),
                        snap.lspci_output.deep_view(),
                    ) {
                        Err(e) => Err(e),
                        Ok(p5) => {
                            let p6 = session_probe_spec(p5.1, envv);
                            match load_avg_spec(p6.1, snap.loadavg@) {
                                Err(e) => Err(e),
                                Ok(p7) => {
                                    let p8 = package_count_spec(
                                        p7.1,
                                        snap.pacman_entries,
                                        snap.dpkg_output.deep_view(),
                                    );
                                    let p9 = process_probe_spec(
                                        p8.1,
                                        snap.proc_entries.deep_view(),
                                    );
                                    let p10 = env_var_spec(p9.1, envv, "Shell: "@, "SHELL"@);
                                    let p11 = env_var_spec(p10.1, envv, "Editor: "@, "EDITOR"@);
                                    match language_spec(p11.1, envv) {
                                        Err(e) => Err(e),
                                        Ok(p12) => {
                                            let p13 = env_var_spec(
                                                p12.1,
                                                envv,
                                                "Environment: "@,
                                                "XDG_CURRENT_DESKTOP"@,
                                            );
                                            let p14 = env_var_spec(
                                                p13.1,
                                                envv,
                                                "Terminal: "@,
                                                "TERM"@,
                                            );
                                            match uptime_spec(p14.1, snap.uptime@) {
                                                Err(e) => Err(e),
                                                Ok(p15) => match mem_info_spec(
                                                    p15.1,
                                                    snap.meminfo@,
                                                ) {
                                                    Err(e) => Err(e),
                                                    Ok(p16) => Ok(
                                                        p1.0 + p2.0 + p3.0 + p4.0 + p5.0 + p6.0
                                                            + p7.0 + p8.0 + p9.0 + p10.0 + p11.0
                                                            + p12.0 + p13.0 + p14.0 + p15.0 + p16.0
                                                            + reset_seq(),
                                                    ),
                                                },
                                            }
                                        },
                                    }
                                },
                            }
                        },
                    },
                },
            },
        },
    }
}

/// Runs every probe in the fixed order over the snapshot and returns the
/// rendered text, or the first probe's failure, rendering nothing then.
#[verifier::rlimit(100)]
pub fn run(snap: &SystemSnapshot) -> (res: Result<String, ProbeError>)
    ensures
        res matches Ok(s) ==> run_spec(*snap) == Ok::<Seq<char>, ProbeError>(s@),
        res matches Err(e) ==> run_spec(*snap) == Result::<Seq<char>, ProbeError>::Err(e),
{
    let mut r = Renderer::new();
    let ghost envv = snap.env_vars@;
    let ghost s1 = banner_spec(0, envv, snap.hostname@);
    match display_user_hostname(&mut r, &snap.env_vars, snap.hostname.as_str()) {
        Err(e) => {
            proof {
                assert(run_spec(*snap) == Result::<Seq<char>, ProbeError>::Err(e));
            }
            return Err(e);
        },
        Ok(_) => {},
    }
    let ghost p1 = s1->Ok_0;
    let ghost acc = p1.0;
    let ghost s2 = os_name_spec(p1.1, snap.os_release@);
    match display_os_name(&mut r, snap.os_release.as_str()) {
        Err(e) => {
            proof {
                assert(run_spec(*snap) == Result::<Seq<char>, ProbeError>::Err(e));
            }
            return Err(e);
        },
        Ok(_) => {},
    }
    let ghost p2 = s2->Ok_0;
    let ghost acc = acc + p2.0;
    let ghost s3 = kernel_spec(p2.1, snap.kernel_version@);
    match display_kernel_version(&mut r, snap.kernel_version.as_str()) {
        Err(e) => {
            proof {
                assert(run_spec(*snap) == Result::<Seq<char>, ProbeError>::Err(e));
            }
            return Err(e);
        },
        Ok(_) => {},
    }
    let ghost p3 = s3->Ok_0;
    let ghost acc = acc + p3.0;
    let ghost s4 = cpu_model_spec(p3.1, snap.cpuinfo@);
    match display_cpu_model(&mut r, snap.cpuinfo.as_str()) {
        Err(e) => {
            proof {
                assert(run_spec(*snap) == Result::<Seq<char>, ProbeError>::Err(e));
            }
            return Err(e);
        },
        Ok(_) => {},
    }
    let ghost p4 = s4->Ok_0;
    let ghost acc = acc + p4.0;
    let lspci_ref: Option<&str> = match &snap.lspci_output {
        Some(s) => Some(s.as_str()),
        None => None,
    };
    proof {
        assert(lspci_ref.deep_view() == snap.lspci_output.deep_view());
    }
    let ghost s5 = lspci_spec(p4.1, snap.fast, snap.pci_devices.deep_view(), snap.lspci_output.deep_view());
    match display_lspci_data(&mut r, snap.fast, &snap.pci_devices, lspci_ref) {
        Err(e) => {
            proof {
                assert(run_spec(*snap) == Result::<Seq<char>, ProbeError>::Err(e));
            }
            return Err(e);
        },
        Ok(_) => {},
    }
    let ghost p5 = s5->Ok_0;
    let ghost acc = acc + p5.0;
    display_session_type(&mut r, &snap.env_vars);
    let ghost p6 = session_probe_spec(p5.1, envv);
    let ghost acc = acc + p6.0;
    proof {
        assert(r.out@ == acc);
        assert(r.cursor as nat == p6.1);
    }
    let ghost s7 = load_avg_spec(p6.1, snap.loadavg@);
    match display_load_avg(&mut r, snap.loadavg.as_str()) {
        Err(e) => {
            proof {
                assert(run_spec(*snap) == Result::<Seq<char>, ProbeError>::Err(e));
            }
            return Err(e);
        },
        Ok(_) => {},
    }
    let ghost p7 = s7->Ok_0;
    let ghost acc = acc + p7.0;
    let dpkg_ref: Option<&str> = match &snap.dpkg_output {
        Some(s) => Some(s.as_str()),
        None => None,
    };
    proof {
        assert(dpkg_ref.deep_view() == snap.dpkg_output.deep_view());
    }
    display_package_count(&mut r, snap.pacman_entries, dpkg_ref);
    let ghost p8 = package_count_spec(p7.1, snap.pacman_entries, snap.dpkg_output.deep_view());
    let ghost acc = acc + p8.0;
    display_process_count(&mut r, &snap.proc_entries);
    let ghost p9 = process_probe_spec(p8.1, snap.proc_entries.deep_view());
    let ghost acc = acc + p9.0;
    proof {
        assert(r.out@ == acc);
        assert(r.cursor as nat == p9.1);
    }
    display_env_var(&mut r, &snap.env_vars, "Shell: ", "SHELL");
    let ghost p10 = env_var_spec(p9.1, envv, "Shell: "@, "SHELL"@);
    let ghost acc = acc + p10.0;
    display_env_var(&mut r, &snap.env_vars, "Editor: ", "EDITOR");
    let ghost p11 = env_var_spec(p10.1, envv, "Editor: "@, "EDITOR"@);
    let ghost acc = acc + p11.0;
    proof {
        assert(r.out@ == acc);
        assert(r.cursor as nat == p11.1);
    }
    let ghost s12 = language_spec(p11.1, envv);
    match display_language(&mut r, &snap.env_vars) {
        Err(e) => {
            proof {
                assert(run_spec(*snap) == Result::<Seq<char>, ProbeError>::Err(e));
            }
            return Err(e);
        },
        Ok(_) => {},
    }
    let ghost p12 = s12->Ok_0;
    let ghost acc = acc + p12.0;
    display_env_var(&mut r, &snap.env_vars, "Environment: ", "XDG_CURRENT_DESKTOP");
    let ghost p13 = env_var_spec(p12.1, envv, "Environment: "@, "XDG_CURRENT_DESKTOP"@);
    let ghost acc = acc + p13.0;
    display_env_var(&mut r, &snap.env_vars, "Terminal: ", "TERM");
    let ghost p14 = env_var_spec(p13.1, envv, "Terminal: "@, "TERM"@);
    let ghost acc = acc + p14.0;
    proof {
        assert(r.out@ == acc);
        assert(r.cursor as nat == p14.1);
    }
    let ghost s15 = uptime_spec(p14.1, snap.uptime@);
    match display_uptime(&mut r, snap.uptime.as_str()) {
        Err(e) => {
            proof {
                assert(run_spec(*snap) == Result::<Seq<char>, ProbeError>::Err(e));
            }
            return Err(e);
        },
        Ok(_) => {},
    }
    let ghost p15 = s15->Ok_0;
    let ghost acc = acc + p15.0;
    let ghost s16 = mem_info_spec(p15.1, snap.meminfo@);
    match display_mem_info(&mut r, snap.meminfo.as_str()) {
        Err(e) => {
            proof {
                assert(run_spec(*snap) == Result::<Seq<char>, ProbeError>::Err(e));
            }
            return Err(e);
        },
        Ok(_) => {},
    }
    let ghost p16 = s16->Ok_0;
    let ghost acc = acc + p16.0;
    r.emit("\u{1b}[00m");
    let ghost acc = acc + reset_seq();
    proof {
        assert(r.out@ == acc);
        assert(run_spec(*snap) == Ok::<Seq<char>, ProbeError>(acc));
    }
    Ok(r.out)
}

} // verus!
