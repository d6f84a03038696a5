//! The probes: each derives zero or more logo-paired display lines from
//! one data source, handed in as plain text by the caller.  A probe either
//! renders fully or fails without touching the renderer; failures mirror
//! the fail-fast policy for mandatory host files.
use vstd::prelude::*;
use vstd::string::*;
use crate::env::{env_lookup, EnvSnapshot};
use crate::numfmt::{dec_str, fixed2_str, fmt_fixed2, fmt_u64};
use crate::render::{
    bump, display_list_of_data, header_seq, line_seq, list_block, list_bump, logo_chunk, text_seq,
    Renderer,
};
use crate::text::{
    all_digits, contains_sub, digit_of, digits_val, first_token_of, first_token_spec, has_sub,
    lemma_split_len_pos, lines_of, lines_spec, parse_u64, parse_u64_spec, split_all, split_on,
    str_all_digits, str_eq, trim_spec, trim_str,
};

verus! {

/// Why a probe gave up: its target line or delimited field was absent, a
/// numeric token did not denote a number in range, or a mandatory
/// environment variable was unset.
#[derive(Clone, Copy, Debug, PartialEq, Eq, Structural)]
pub enum ProbeError {
    FieldMissing,
    BadNumber,
    MissingEnv,
}

/// How a probe relates the renderer before and after: on success exactly
/// the specified text is appended and the cursor moves as specified; on
/// failure the renderer is untouched and the specified error is returned.
pub open spec fn probe_post(
    pre: Renderer,
    post: Renderer,
    r: Result<(), ProbeError>,
    sp: Result<(Seq<char>, nat), ProbeError>,
) -> bool {
    match sp {
        Ok(p) => r is Ok && post.out@ == pre.out@ + p.0 && post.cursor as nat == p.1,
        Err(e) => r == Result::<(), ProbeError>::Err(e) && post.out@ == pre.out@ && post.cursor
            == pre.cursor,
    }
}

/// Index of the first line containing `pat`; `ls.len()` if none does.
pub open spec fn first_line_with(ls: Seq<Seq<char>>, pat: Seq<char>) -> int
    decreases ls.len(),
{
    if ls.len() == 0 {
        0
    } else if has_sub(ls[0], pat) {
        0
    } else {
        1 + first_line_with(ls.drop_first(), pat)
    }
}

pub proof fn lemma_first_line_with_is(ls: Seq<Seq<char>>, pat: Seq<char>, i: int)
    requires
        0 <= i <= ls.len(),
        forall|k: int| 0 <= k < i ==> !has_sub(#[trigger] ls[k], pat),
        i < ls.len() ==> has_sub(ls[i], pat),
    ensures
        first_line_with(ls, pat) == i,
    decreases i,
{
    if i > 0 {
        assert(forall|k: int| 0 <= k < i - 1 ==> !has_sub(#[trigger] ls.drop_first()[k], pat));
        lemma_first_line_with_is(ls.drop_first(), pat, i - 1);
    }
}

/// Scans `ls` for the first line containing `pat`; returns `ls.len()` when
/// no line does.
pub fn find_line_with(ls: &Vec<String>, pat: &str) -> (r: usize)
    ensures
        r <= ls@.len(),
        r == first_line_with(ls.deep_view(), pat@),
{
    let n = ls.len();
    let mut i: usize = 0;
    loop
        invariant
            i <= n,
            n == ls@.len(),
            forall|k: int| 0 <= k < i ==> !has_sub(#[trigger] ls.deep_view()[k], pat@),
        ensures
            i <= n,
            forall|k: int| 0 <= k < i ==> !has_sub(#[trigger] ls.deep_view()[k], pat@),
            i < n ==> has_sub(ls.deep_view()[i as int], pat@),
        decreases n - i,
    {
        if i == n {
            break;
        }
        if contains_sub(ls[i].as_str(), pat) {
            proof {
                assert(ls.deep_view()[i as int] == ls@[i as int]@);
            }
            break;
        }
        proof {
            assert(ls.deep_view()[i as int] == ls@[i as int]@);
        }
        i = i + 1;
    }
    proof {
        lemma_first_line_with_is(ls.deep_view(), pat@, i as int);
    }
    i
}

/// What the operating-system probe renders for a given release file: the
/// first quote-delimited field of its first line.
pub open spec fn os_name_spec(c: nat, file: Seq<char>) -> Result<(Seq<char>, nat), ProbeError> {
    let ls = lines_spec(file);
    if ls.len() == 0 {
        Err(ProbeError::FieldMissing)
    } else {
        let fs = split_on(ls[0], '"');
        if fs.len() < 2 {
            Err(ProbeError::FieldMissing)
        } else {
            Ok((logo_chunk(c) + line_seq("Operating System: "@, fs[1]), bump(c)))
        }
    }
}

/// Renders the operating-system name from the OS release file.
pub fn display_os_name(r: &mut Renderer, os_release: &str) -> (res: Result<(), ProbeError>)
    requires
        old(r).wf(),
    ensures
        final(r).wf(),
        probe_post(*old(r), *final(r), res, os_name_spec(old(r).cursor as nat, os_release@)),
{
    let ls = lines_of(os_release);
    if ls.len() == 0 {
        return Err(ProbeError::FieldMissing);
    }
    proof {
        assert(ls.deep_view()[0] == ls@[0]@);
    }
    let fs = split_all(ls[0].as_str(), '"');
    if fs.len() < 2 {
        return Err(ProbeError::FieldMissing);
    }
    proof {
        assert(fs.deep_view()[1] == fs@[1]@);
    }
    r.display_logo_line();
    r.display("Operating System: ", fs[1].as_str());
    proof {
        assert(r.out@ =~= old(r).out@ + (logo_chunk(old(r).cursor as nat) + line_seq(
            "Operating System: "@,
            split_on(lines_spec(os_release@)[0], '"')[1],
        )));
    }
    Ok(())
}

/// What the kernel probe renders: the third space-delimited field of the
/// version file.
pub open spec fn kernel_spec(c: nat, file: Seq<char>) -> Result<(Seq<char>, nat), ProbeError> {
    let fs = split_on(file, ' ');
    if fs.len() < 3 {
        Err(ProbeError::FieldMissing)
    } else {
        Ok((logo_chunk(c) + line_seq("Kernel version: "@, fs[2]), bump(c)))
    }
}

/// Renders the kernel version from the kernel version file.
pub fn display_kernel_version(r: &mut Renderer, version: &str) -> (res: Result<(), ProbeError>)
    requires
        old(r).wf(),
    ensures
        final(r).wf(),
        probe_post(*old(r), *final(r), res, kernel_spec(old(r).cursor as nat, version@)),
{
    let fs = split_all(version, ' ');
    if fs.len() < 3 {
        return Err(ProbeError::FieldMissing);
    }
    proof {
        assert(fs.deep_view()[2] == fs@[2]@);
    }
    r.display_logo_line();
    r.display("Kernel version: ", fs[2].as_str());
    proof {
        assert(r.out@ =~= old(r).out@ + (logo_chunk(old(r).cursor as nat) + line_seq(
            "Kernel version: "@,
            split_on(version@, ' ')[2],
        )));
    }
    Ok(())
}

/// What the CPU probe renders: the value after the colon on the first line
/// naming the model.  The CPU file is a mandatory source: a file in which
/// no line names the model is malformed, and the probe fails.
pub open spec fn cpu_model_spec(c: nat, file: Seq<char>) -> Result<(Seq<char>, nat), ProbeError> {
    let ls = lines_spec(file);
    let i = first_line_with(ls, "model name"@);
    if i >= ls.len() {
        Err(ProbeError::FieldMissing)
    } else {
        let fs = split_on(ls[i], ':');
        if fs.len() < 2 {
            Err(ProbeError::FieldMissing)
        } else {
            Ok((logo_chunk(c) + line_seq("CPU Model:"@, fs[1]), bump(c)))
        }
    }
}

/// Renders the CPU model from the CPU information file.
pub fn display_cpu_model(r: &mut Renderer, cpuinfo: &str) -> (res: Result<(), ProbeError>)
    requires
        old(r).wf(),
    ensures
        final(r).wf(),
        probe_post(*old(r), *final(r), res, cpu_model_spec(old(r).cursor as nat, cpuinfo@)),
{
    let ls = lines_of(cpuinfo);
    let i = find_line_with(&ls, "model name");
    if i == ls.len() {
        return Err(ProbeError::FieldMissing);
    }
    proof {
        assert(ls.deep_view()[i as int] == ls@[i as int]@);
    }
    let fs = split_all(ls[i].as_str(), ':');
    if fs.len() < 2 {
        return Err(ProbeError::FieldMissing);
    }
    proof {
        assert(fs.deep_view()[1] == fs@[1]@);
    }
    r.display_logo_line();
    r.display("CPU Model:", fs[1].as_str());
    proof {
        assert(r.out@ =~= old(r).out@ + (logo_chunk(old(r).cursor as nat) + line_seq(
            "CPU Model:"@,
            split_on(lines_spec(cpuinfo@)[i as int], ':')[1],
        )));
    }
    Ok(())
}

/// The number in a memory-information line: the first whitespace-separated
/// token after the colon, read as a decimal, when all of that exists.
pub open spec fn mem_line_val(line: Seq<char>) -> Option<u64> {
    let fs = split_on(line, ':');
    if fs.len() < 2 {
        None
    } else {
        match first_token_spec(fs[1]) {
            None => None,
            Some(t) => parse_u64_spec(t),
        }
    }
}

/// Which failure a memory-information line that yields no number is: a
/// missing field or token, or a token that is not a number in range.
pub open spec fn mem_line_err(line: Seq<char>) -> ProbeError {
    let fs = split_on(line, ':');
    if fs.len() < 2 {
        ProbeError::FieldMissing
    } else if first_token_spec(fs[1]) is None {
        ProbeError::FieldMissing
    } else {
        ProbeError::BadNumber
    }
}

/// Extracts the kilobyte count from one line of the memory-information
/// file, such as a total or available amount.
pub fn helper_mem_line(line: &str) -> (r: Option<u64>)
    ensures
        r == mem_line_val(line@),
{
    let fs = split_all(line, ':');
    if fs.len() < 2 {
        return None;
    }
    proof {
        assert(fs.deep_view()[1] == fs@[1]@);
    }
    match first_token_of(fs[1].as_str()) {
        None => None,
        Some(t) => parse_u64(t.as_str()),
    }
}

/// The value of the first line of `ls` containing `pat`, if such a line
/// exists and holds one.
pub open spec fn meminfo_field(ls: Seq<Seq<char>>, pat: Seq<char>) -> Option<u64> {
    let i = first_line_with(ls, pat);
    if i >= ls.len() {
        None
    } else {
        mem_line_val(ls[i])
    }
}

/// The error for a label whose value could not be had: the label's line is
/// missing entirely, or it is present but malformed.
pub open spec fn meminfo_err(ls: Seq<Seq<char>>, pat: Seq<char>) -> ProbeError {
    let i = first_line_with(ls, pat);
    if i >= ls.len() {
        ProbeError::FieldMissing
    } else {
        mem_line_err(ls[i])
    }
}

/// Kilobytes as hundredths of a megabyte (decimal), rounded half up.
pub open spec fn kb_mb_hundredths(kb: nat) -> nat {
    (kb + 5) / 10
}

/// A `used / total` megabyte pair, both with two decimal places.
pub open spec fn mb_pair(used_kb: nat, total_kb: nat) -> Seq<char> {
    fixed2_str(kb_mb_hundredths(used_kb)) + " MB / "@ + fixed2_str(kb_mb_hundredths(total_kb))
        + " MB"@
}

/// What the memory probe renders: a swap line and a memory line, each
/// `used / total` where used is total minus the available or free amount.
/// All four labelled values must be present and parse, the available
/// amount must not exceed the total, and likewise for swap.
pub open spec fn mem_info_spec(c: nat, file: Seq<char>) -> Result<(Seq<char>, nat), ProbeError> {
    let ls = lines_spec(file);
    let mt = meminfo_field(ls, "MemTotal"@);
    let ma = meminfo_field(ls, "MemAvailable"@);
    let st = meminfo_field(ls, "SwapTotal"@);
    let sf = meminfo_field(ls, "SwapFree"@);
    if mt is None {
        Err(meminfo_err(ls, "MemTotal"@))
    } else if ma is None {
        Err(meminfo_err(ls, "MemAvailable"@))
    } else if st is None {
        Err(meminfo_err(ls, "SwapTotal"@))
    } else if sf is None {
        Err(meminfo_err(ls, "SwapFree"@))
    } else if ma->0 > mt->0 || sf->0 > st->0 {
        Err(ProbeError::BadNumber)
    } else {
        let swap_used = (st->0 - sf->0) as nat;
        let mem_used = (mt->0 - ma->0) as nat;
        Ok(
            (
                logo_chunk(c) + line_seq("Swap: "@, mb_pair(swap_used, st->0 as nat)) + logo_chunk(
                    bump(c),
                ) + line_seq("Memory: "@, mb_pair(mem_used, mt->0 as nat)),
                bump(bump(c)),
            ),
        )
    }
}

/// Renders `kb` kilobytes as megabytes with two decimal places.
fn fmt_kb_as_mb(kb: u64) -> (s: String)
    ensures
        s@ == fixed2_str(kb_mb_hundredths(kb as nat)),
{
    let h128: u128 = (kb as u128 + 5) / 10;
    proof {
        assert(h128 <= u64::MAX as u128) by (nonlinear_arith)
            requires
                h128 == (kb as u128 + 5) / 10,
                kb <= u64::MAX,
        ;
    }
    let h: u64 = h128 as u64;
    fmt_fixed2(h)
}

/// Looks `pat` up in the lines of the memory-information file.
fn lookup_mem_field(ls: &Vec<String>, pat: &str) -> (r: Option<u64>)
    ensures
        r == meminfo_field(ls.deep_view(), pat@),
{
    let i = find_line_with(ls, pat);
    if i == ls.len() {
        return None;
    }
    proof {
        assert(ls.deep_view()[i as int] == ls@[i as int]@);
    }
    helper_mem_line(ls[i].as_str())
}

/// Renders swap and memory usage from the memory-information file.
pub fn display_mem_info(r: &mut Renderer, meminfo: &str) -> (res: Result<(), ProbeError>)
    requires
        old(r).wf(),
    ensures
        final(r).wf(),
        probe_post(*old(r), *final(r), res, mem_info_spec(old(r).cursor as nat, meminfo@)),
{
    let ls = lines_of(meminfo);
    let mt = match lookup_mem_field(&ls, "MemTotal") {
        None => {
            return Err(lookup_mem_err(&ls, "MemTotal"));
        },
        Some(v) => v,
    };
    let ma = match lookup_mem_field(&ls, "MemAvailable") {
        None => {
            return Err(lookup_mem_err(&ls, "MemAvailable"));
        },
        Some(v) => v,
    };
    let st = match lookup_mem_field(&ls, "SwapTotal") {
        None => {
            return Err(lookup_mem_err(&ls, "SwapTotal"));
        },
        Some(v) => v,
    };
    let sf = match lookup_mem_field(&ls, "SwapFree") {
        None => {
            return Err(lookup_mem_err(&ls, "SwapFree"));
        },
        Some(v) => v,
    };
    if ma > mt || sf > st {
        return Err(ProbeError::BadNumber);
    }
    let swap_used = st - sf;
    let mem_used = mt - ma;
    let mut swap_text = fmt_kb_as_mb(swap_used);
    swap_text.append(" MB / ");
    swap_text.append(fmt_kb_as_mb(st).as_str());
    swap_text.append(" MB");
    let mut mem_text = fmt_kb_as_mb(mem_used);
    mem_text.append(" MB / ");
    mem_text.append(fmt_kb_as_mb(mt).as_str());
    mem_text.append(" MB");
    r.display_logo_line();
    r.display("Swap: ", swap_text.as_str());
    r.display_logo_line();
    r.display("Memory: ", mem_text.as_str());
    proof {
        let c = old(r).cursor as nat;
        assert(swap_text@ =~= mb_pair((st - sf) as nat, st as nat));
        assert(mem_text@ =~= mb_pair((mt - ma) as nat, mt as nat));
        assert(r.out@ =~= old(r).out@ + (logo_chunk(c) + line_seq(
            "Swap: "@,
            mb_pair((st - sf) as nat, st as nat),
        ) + logo_chunk(bump(c)) + line_seq("Memory: "@, mb_pair((mt - ma) as nat, mt as nat))));
    }
    Ok(())
}

/// The error to report when `pat`'s value could not be had from `ls`.
fn lookup_mem_err(ls: &Vec<String>, pat: &str) -> (e: ProbeError)
    requires
        meminfo_field(ls.deep_view(), pat@) is None,
    ensures
        e == meminfo_err(ls.deep_view(), pat@),
{
    let i = find_line_with(ls, pat);
    if i == ls.len() {
        return ProbeError::FieldMissing;
    }
    proof {
        assert(ls.deep_view()[i as int] == ls@[i as int]@);
    }
    let fs = split_all(ls[i].as_str(), ':');
    if fs.len() < 2 {
        return ProbeError::FieldMissing;
    }
    proof {
        assert(fs.deep_view()[1] == fs@[1]@);
    }
    match first_token_of(fs[1].as_str()) {
        None => ProbeError::FieldMissing,
        Some(_) => ProbeError::BadNumber,
    }
}

/// What the load-average probe renders: the first three space-delimited
/// fields of the load file, space-separated.
pub open spec fn load_avg_spec(c: nat, file: Seq<char>) -> Result<(Seq<char>, nat), ProbeError> {
    let fs = split_on(file, ' ');
    if fs.len() < 3 {
        Err(ProbeError::FieldMissing)
    } else {
        Ok(
            (
                logo_chunk(c) + line_seq("Load average: "@, fs[0] + " "@ + fs[1] + " "@ + fs[2]),
                bump(c),
            ),
        )
    }
}

/// Renders the three load averages from the load file.
pub fn display_load_avg(r: &mut Renderer, loadavg: &str) -> (res: Result<(), ProbeError>)
    requires
        old(r).wf(),
    ensures
        final(r).wf(),
        probe_post(*old(r), *final(r), res, load_avg_spec(old(r).cursor as nat, loadavg@)),
{
    let fs = split_all(loadavg, ' ');
    if fs.len() < 3 {
        return Err(ProbeError::FieldMissing);
    }
    proof {
        assert(fs.deep_view()[0] == fs@[0]@);
        assert(fs.deep_view()[1] == fs@[1]@);
        assert(fs.deep_view()[2] == fs@[2]@);
    }
    let mut v = fs[0].clone();
    v.append(" ");
    v.append(fs[1].as_str());
    v.append(" ");
    v.append(fs[2].as_str());
    r.display_logo_line();
    r.display("Load average: ", v.as_str());
    proof {
        let sp = split_on(loadavg@, ' ');
        assert(v@ =~= sp[0] + " "@ + sp[1] + " "@ + sp[2]);
        assert(r.out@ =~= old(r).out@ + (logo_chunk(old(r).cursor as nat) + line_seq(
            "Load average: "@,
            sp[0] + " "@ + sp[1] + " "@ + sp[2],
        )));
    }
    Ok(())
}

/// The session type: Wayland when its display variable is set, X11
/// otherwise.
pub open spec fn session_type_spec(envv: Seq<(Seq<char>, Seq<char>)>) -> Seq<char> {
    if env_lookup(envv, "WAYLAND_DISPLAY"@) is Some {
        "Wayland"@
    } else {
        "X11"@
    }
}

/// Renders the session type from the environment snapshot.
pub fn display_session_type(r: &mut Renderer, env_vars: &EnvSnapshot)
    requires
        old(r).wf(),
    ensures
        final(r).wf(),
        final(r).out@ == old(r).out@ + logo_chunk(old(r).cursor as nat) + line_seq(
            "Session type: "@,
            session_type_spec(env_vars@),
        ),
        final(r).cursor as nat == bump(old(r).cursor as nat),
{
    r.display_logo_line();
    let wayland = env_vars.get("WAYLAND_DISPLAY");
    if wayland.is_some() {
        r.display("Session type: ", "Wayland");
    } else {
        r.display("Session type: ", "X11");
    }
}

/// What the package-count probe renders: the package directory's entry
/// count when that directory exists; else the query tool's output line
/// count, shown as zero when eleven lines were not reached (a guard
/// against misparsed output); else, with no output at hand, nothing.
pub open spec fn package_count_spec(c: nat, pacman: Option<u64>, dpkg: Option<Seq<char>>) -> (
    Seq<char>,
    nat,
) {
    match pacman {
        Some(n) => (
            logo_chunk(c) + line_seq("Installed package count: "@, dec_str(n as nat)),
            bump(c),
        ),
        None => match dpkg {
            None => (Seq::empty(), c),
            Some(out) => {
                let n = lines_spec(out).len();
                let shown: nat = if n > 10 {
                    n
                } else {
                    0
                };
                (logo_chunk(c) + line_seq("Installed package count: "@, dec_str(shown)), bump(c))
            },
        },
    }
}

/// Renders the installed package count, from the package directory's
/// entry count or the query tool's output; renders nothing when neither
/// is at hand.
pub fn display_package_count(r: &mut Renderer, pacman_entries: Option<u64>, dpkg_out: Option<&str>)
    requires
        old(r).wf(),
    ensures
        final(r).wf(),
        final(r).out@ == old(r).out@ + package_count_spec(
            old(r).cursor as nat,
            pacman_entries,
            dpkg_out.deep_view(),
        ).0,
        final(r).cursor as nat == package_count_spec(
            old(r).cursor as nat,
            pacman_entries,
            dpkg_out.deep_view(),
        ).1,
{
    match pacman_entries {
        Some(n) => {
            let v = fmt_u64(n);
            r.display_logo_line();
            r.display("Installed package count: ", v.as_str());
            proof {
                assert(r.out@ =~= old(r).out@ + (logo_chunk(old(r).cursor as nat) + line_seq(
                    "Installed package count: "@,
                    dec_str(n as nat),
                )));
            }
        },
        None => match dpkg_out {
            None => {
                proof {
                    assert(r.out@ =~= old(r).out@ + Seq::<char>::empty());
                }
            },
            Some(out) => {
                let n = lines_of(out).len();
                let shown: u64 = if n > 10 {
                    n as u64
                } else {
                    0
                };
                let v = fmt_u64(shown);
                r.display_logo_line();
                r.display("Installed package count: ", v.as_str());
                proof {
                    assert(r.out@ =~= old(r).out@ + (logo_chunk(old(r).cursor as nat) + line_seq(
                        "Installed package count: "@,
                        dec_str(shown as nat),
                    )));
                }
            },
        },
    }
}

/// How many of the given names consist of decimal digits only.
pub open spec fn count_digit_names(ns: Seq<Seq<char>>) -> nat
    decreases ns.len(),
{
    if ns.len() == 0 {
        0
    } else {
        (if all_digits(ns[0]) {
            1 as nat
        } else {
            0 as nat
        }) + count_digit_names(ns.drop_first())
    }
}

/// Renders the process count: how many entries of the process-information
/// root are named by a decimal number.
pub fn display_process_count(r: &mut Renderer, proc_entries: &Vec<String>)
    requires
        old(r).wf(),
    ensures
        final(r).wf(),
        final(r).out@ == old(r).out@ + logo_chunk(old(r).cursor as nat) + line_seq(
            "Process count: "@,
            dec_str(count_digit_names(proc_entries.deep_view())),
        ),
        final(r).cursor as nat == bump(old(r).cursor as nat),
{
    r.display_logo_line();
    let ghost all = proc_entries.deep_view();
    let mut count: u64 = 0;
    let mut i: usize = 0;
    proof {
        assert(all.skip(0) =~= all);
    }
    while i < proc_entries.len()
        invariant
            i <= proc_entries@.len(),
            all == proc_entries.deep_view(),
            count <= i,
            count_digit_names(all) == count + count_digit_names(all.skip(i as int)),
        decreases proc_entries@.len() - i,
    {
        let ghost rem = all.skip(i as int);
        proof {
            assert(rem[0] == all[i as int]);
            assert(all[i as int] == proc_entries@[i as int]@);
            assert(rem.drop_first() =~= all.skip(i + 1));
        }
        if str_all_digits(proc_entries[i].as_str()) {
            count = count + 1;
        }
        i = i + 1;
    }
    proof {
        assert(all.skip(proc_entries@.len() as int) =~= Seq::<Seq<char>>::empty());
    }
    let v = fmt_u64(count);
    r.display("Process count: ", v.as_str());
    proof {
        assert(r.out@ =~= old(r).out@ + logo_chunk(old(r).cursor as nat) + line_seq(
            "Process count: "@,
            dec_str(count_digit_names(all)),
        ));
    }
}

/// What an optional environment-field probe renders: one line when the
/// variable is set, and nothing at all — no logo row either — when not.
pub open spec fn env_var_spec(
    c: nat,
    envv: Seq<(Seq<char>, Seq<char>)>,
    title: Seq<char>,
    var: Seq<char>,
) -> (Seq<char>, nat) {
    match env_lookup(envv, var) {
        Some(v) => (logo_chunk(c) + line_seq(title, v), bump(c)),
        None => (Seq::empty(), c),
    }
}

/// Renders one titled line for the environment variable `var`, when set.
pub fn display_env_var(r: &mut Renderer, env_vars: &EnvSnapshot, title: &str, var: &str)
    requires
        old(r).wf(),
    ensures
        final(r).wf(),
        final(r).out@ == old(r).out@ + env_var_spec(old(r).cursor as nat, env_vars@, title@, var@).0,
        final(r).cursor as nat == env_var_spec(old(r).cursor as nat, env_vars@, title@, var@).1,
{
    match env_vars.get(var) {
        Some(v) => {
            r.display_logo_line();
            r.display(title, v.as_str());
            proof {
                assert(r.out@ =~= old(r).out@ + (logo_chunk(old(r).cursor as nat) + line_seq(
                    title@,
                    env_lookup(env_vars@, var@)->0,
                )));
            }
        },
        None => {
            proof {
                assert(r.out@ =~= old(r).out@ + Seq::<char>::empty());
            }
        },
    }
}

/// What the language probe renders: the locale variable's value up to its
/// first dot.  The variable is mandatory.
pub open spec fn language_spec(c: nat, envv: Seq<(Seq<char>, Seq<char>)>) -> Result<
    (Seq<char>, nat),
    ProbeError,
> {
    match env_lookup(envv, "LANG"@) {
        None => Err(ProbeError::MissingEnv),
        Some(v) => Ok((logo_chunk(c) + line_seq("Language: "@, split_on(v, '.')[0]), bump(c))),
    }
}

/// Renders the language from the locale environment variable.
pub fn display_language(r: &mut Renderer, env_vars: &EnvSnapshot) -> (res: Result<(), ProbeError>)
    requires
        old(r).wf(),
    ensures
        final(r).wf(),
        probe_post(*old(r), *final(r), res, language_spec(old(r).cursor as nat, env_vars@)),
{
    let lang = match env_vars.get("LANG") {
        None => {
            return Err(ProbeError::MissingEnv);
        },
        Some(v) => v,
    };
    let fs = split_all(lang.as_str(), '.');
    proof {
        lemma_split_len_pos(lang@, '.');
        assert(fs.deep_view()[0] == fs@[0]@);
    }
    r.display_logo_line();
    r.display("Language: ", fs[0].as_str());
    proof {
        assert(r.out@ =~= old(r).out@ + (logo_chunk(old(r).cursor as nat) + line_seq(
            "Language: "@,
            split_on(env_lookup(env_vars@, "LANG"@)->0, '.')[0],
        )));
    }
    Ok(())
}

/// A run of `n` equals signs.
pub open spec fn eq_underline(n: nat) -> Seq<char> {
    Seq::new(n, |i: int| '=')
}

/// What the banner renders: the user name and host name joined by an `@`
/// on one logo-paired row, underlined on the next by one `=` per
/// character of the two names.  The user variable is mandatory.
pub open spec fn banner_spec(
    c: nat,
    envv: Seq<(Seq<char>, Seq<char>)>,
    host: Seq<char>,
) -> Result<(Seq<char>, nat), ProbeError> {
    match env_lookup(envv, "USER"@) {
        None => Err(ProbeError::MissingEnv),
        Some(u) => Ok(
            (
                logo_chunk(c) + header_seq() + u + "@"@ + host + text_seq() + logo_chunk(bump(c))
                    + eq_underline(u.len() + host.len()) + "\n"@,
                bump(bump(c)),
            ),
        ),
    }
}

/// Renders the user/hostname banner and its underline.  The host name is
/// taken exactly as given, trailing newline and all, as the hostname file
/// holds it.
pub fn display_user_hostname(r: &mut Renderer, env_vars: &EnvSnapshot, hostname: &str) -> (res:
    Result<(), ProbeError>)
    requires
        old(r).wf(),
    ensures
        final(r).wf(),
        probe_post(*old(r), *final(r), res, banner_spec(old(r).cursor as nat, env_vars@, hostname@)),
{
    let user = match env_vars.get("USER") {
        None => {
            return Err(ProbeError::MissingEnv);
        },
        Some(u) => u,
    };
    let ulen = user.as_str().unicode_len();
    let hlen = hostname.unicode_len();
    let mut eqs = String::new();
    let mut i: usize = 0;
    proof {
        reveal_strlit("=");
        assert(eqs@ =~= eq_underline(0));
    }
    while i < ulen
        invariant
            i <= ulen,
            eqs@ == eq_underline(i as nat),
        decreases ulen - i,
    {
        eqs.append("=");
        proof {
            reveal_strlit("=");
            assert(eqs@ =~= eq_underline(i as nat + 1));
        }
        i = i + 1;
    }
    let mut j: usize = 0;
    while j < hlen
        invariant
            j <= hlen,
            eqs@ == eq_underline(ulen as nat + j as nat),
        decreases hlen - j,
    {
        eqs.append("=");
        proof {
            reveal_strlit("=");
            assert(eqs@ =~= eq_underline(ulen as nat + j as nat + 1));
        }
        j = j + 1;
    }
    r.display_logo_line();
    r.emit("\u{1b}[33m");
    r.emit(user.as_str());
    r.emit("@");
    r.emit(hostname);
    r.emit("\u{1b}[97m");
    r.display_logo_line();
    r.emit(eqs.as_str());
    r.emit("\n");
    proof {
        let c = old(r).cursor as nat;
        let u = env_lookup(env_vars@, "USER"@)->0;
        assert(r.out@ =~= old(r).out@ + (logo_chunk(c) + header_seq() + u + "@"@ + hostname@
            + text_seq() + logo_chunk(bump(c)) + eq_underline(u.len() + hostname@.len()) + "\n"@));
    }
    Ok(())
}

/// The first two fractional digits of an uptime reading, as centiseconds.
pub open spec fn frac2(fr: Seq<char>) -> nat {
    (if fr.len() >= 1 {
        digit_of(fr[0]) * 10
    } else {
        0
    }) + (if fr.len() >= 2 {
        digit_of(fr[1])
    } else {
        0
    })
}

/// The centiseconds an uptime field denotes: whole seconds, a dot, and a
/// fraction taken to two places, where either part (not both) may be
/// empty, the whole part must fit, and anything else is malformed.
pub open spec fn uptime_value(f0: Seq<char>) -> Option<nat> {
    let parts = split_on(f0, '.');
    if parts.len() > 2 {
        None
    } else {
        let ip = parts[0];
        let fp = if parts.len() == 2 {
            parts[1]
        } else {
            Seq::<char>::empty()
        };
        if !all_digits(ip) || !all_digits(fp) || (ip.len() == 0 && fp.len() == 0) {
            None
        } else if digits_val(ip) > u64::MAX {
            None
        } else {
            Some(digits_val(ip) * 100 + frac2(fp))
        }
    }
}

/// What the uptime probe renders: the first field of the uptime file read
/// as seconds, divided by 3600 and shown with two decimal places (rounded
/// half up), suffixed ` h`.
pub open spec fn uptime_spec(c: nat, file: Seq<char>) -> Result<(Seq<char>, nat), ProbeError> {
    let fs = split_on(file, ' ');
    match uptime_value(fs[0]) {
        None => Err(ProbeError::BadNumber),
        Some(centis) => Ok(
            (
                logo_chunk(c) + line_seq("Uptime: "@, fixed2_str((centis + 1800) / 3600) + " h"@),
                bump(c),
            ),
        ),
    }
}

/// Renders the uptime in hours from the uptime file.
pub fn display_uptime(r: &mut Renderer, uptime: &str) -> (res: Result<(), ProbeError>)
    requires
        old(r).wf(),
    ensures
        final(r).wf(),
        probe_post(*old(r), *final(r), res, uptime_spec(old(r).cursor as nat, uptime@)),
{
    let fs = split_all(uptime, ' ');
    proof {
        lemma_split_len_pos(uptime@, ' ');
        assert(fs.deep_view()[0] == fs@[0]@);
    }
    let parts = split_all(fs[0].as_str(), '.');
    proof {
        lemma_split_len_pos(fs@[0]@, '.');
        assert(parts.deep_view()[0] == parts@[0]@);
    }
    if parts.len() > 2 {
        return Err(ProbeError::BadNumber);
    }
    let ip_len = parts[0].as_str().unicode_len();
    let secs: u64;
    if ip_len == 0 {
        secs = 0;
    } else {
        match parse_u64(parts[0].as_str()) {
            None => {
                return Err(ProbeError::BadNumber);
            },
            Some(v) => {
                secs = v;
            },
        }
    }
    let mut f2: u64 = 0;
    let mut fp_len: usize = 0;
    if parts.len() == 2 {
        proof {
            assert(parts.deep_view()[1] == parts@[1]@);
        }
        if !str_all_digits(parts[1].as_str()) {
            return Err(ProbeError::BadNumber);
        }
        fp_len = parts[1].as_str().unicode_len();
        if fp_len >= 1 {
            f2 = ((parts[1].as_str().get_char(0) as u32 - 48) as u64) * 10;
        }
        if fp_len >= 2 {
            f2 = f2 + (parts[1].as_str().get_char(1) as u32 - 48) as u64;
        }
    }
    if ip_len == 0 && fp_len == 0 {
        return Err(ProbeError::BadNumber);
    }
    proof {
        let f0 = split_on(uptime@, ' ')[0];
        let sparts = split_on(f0, '.');
        let fp = if sparts.len() == 2 {
            sparts[1]
        } else {
            Seq::<char>::empty()
        };
        assert(f2 == frac2(fp));
        assert(uptime_value(f0) == Some((secs * 100 + f2) as nat));
    }
    let centis: u128 = secs as u128 * 100 + f2 as u128;
    proof {
        assert(secs as u128 * 100 + f2 as u128 <= u128::MAX) by (nonlinear_arith)
            requires
                secs <= u64::MAX,
                f2 <= 99,
        ;
    }
    let hh128: u128 = (centis + 1800) / 3600;
    proof {
        assert(hh128 <= u64::MAX as u128) by (nonlinear_arith)
            requires
                hh128 == (centis + 1800) / 3600,
                centis <= u64::MAX as u128 * 100 + 99,
        ;
    }
    let hh: u64 = hh128 as u64;
    let mut v = fmt_fixed2(hh);
    v.append(" h");
    r.display_logo_line();
    r.display("Uptime: ", v.as_str());
    proof {
        let f0 = split_on(uptime@, ' ')[0];
        assert(v@ =~= fixed2_str((uptime_value(f0)->0 + 1800) / 3600) + " h"@);
        assert(r.out@ =~= old(r).out@ + (logo_chunk(old(r).cursor as nat) + line_seq(
            "Uptime: "@,
            fixed2_str((uptime_value(f0)->0 + 1800) / 3600) + " h"@,
        )));
    }
    Ok(())
}

/// One PCI device as the filesystem metadata tree shows it: an optional
/// descriptive label and a class-code file's contents.
pub struct PciDevice {
    pub label: Option<String>,
    pub class: String,
}

/// The mathematical image of a device: its label and class text.
pub ghost struct PciDeviceV {
    pub label: Option<Seq<char>>,
    pub class: Seq<char>,
}

impl View for PciDevice {
    type V = PciDeviceV;

    open spec fn view(&self) -> PciDeviceV {
        PciDeviceV { label: self.label.deep_view(), class: self.class@ }
    }
}

impl DeepView for PciDevice {
    type V = PciDeviceV;

    open spec fn deep_view(&self) -> PciDeviceV {
        self.view()
    }
}

/// The first byte of the class code, as the two characters after the
/// leading `0x` of the class file.
pub open spec fn pci_code(d: PciDeviceV) -> Seq<char> {
    d.class.subrange(2, 4)
}

/// A labelled device whose class-code byte marks a display controller.
pub open spec fn is_gpu(d: PciDeviceV) -> bool {
    d.label is Some && d.class.len() >= 4 && pci_code(d) == "03"@
}

/// A labelled device whose class-code byte marks a network controller.
pub open spec fn is_net(d: PciDeviceV) -> bool {
    d.label is Some && d.class.len() >= 4 && (pci_code(d) == "02"@ || pci_code(d) == "0d"@)
}

/// Every labelled device carries a class code long enough to classify.
pub open spec fn pci_classes_ok(ds: Seq<PciDeviceV>) -> bool {
    forall|i: int|
        0 <= i < ds.len() ==> ((#[trigger] ds[i]).label is Some ==> ds[i].class.len() >= 4)
}

/// The trimmed labels of the devices of one category, in device order:
/// the display controllers when `gpu` holds, else the network adapters.
/// A device without a label file belongs to no category.
pub open spec fn fast_labels(ds: Seq<PciDeviceV>, gpu: bool) -> Seq<Seq<char>>
    decreases ds.len(),
{
    if ds.len() == 0 {
        Seq::empty()
    } else {
        let sel = if gpu {
            is_gpu(ds[0])
        } else {
            is_net(ds[0])
        };
        let head: Seq<Seq<char>> = if sel {
            seq![trim_spec(ds[0].label->0)]
        } else {
            Seq::empty()
        };
        head + fast_labels(ds.drop_first(), gpu)
    }
}

/// Classifies the PCI device metadata read from the filesystem: devices
/// lacking the optional label file are skipped silently; the rest go by
/// the first byte of their class code into the display-controller or
/// network-adapter list.  Audio devices are not classified on this path.
pub fn classify_pci_devices(devices: &Vec<PciDevice>) -> (res: Result<
    (Vec<String>, Vec<String>),
    ProbeError,
>)
    ensures
        pci_classes_ok(devices.deep_view()) ==> (res matches Ok(p) && p.0.deep_view()
            == fast_labels(devices.deep_view(), true) && p.1.deep_view() == fast_labels(
            devices.deep_view(),
            false,
        )),
        !pci_classes_ok(devices.deep_view()) ==> res == Result::<
            (Vec<String>, Vec<String>),
            ProbeError,
        >::Err(ProbeError::FieldMissing),
{
    let ghost all = devices.deep_view();
    let mut gpus: Vec<String> = Vec::new();
    let mut nets: Vec<String> = Vec::new();
    let mut i: usize = 0;
    proof {
        assert(all.skip(0) =~= all);
        assert(fast_labels(all, true) =~= gpus.deep_view() + fast_labels(all.skip(0), true));
        assert(fast_labels(all, false) =~= nets.deep_view() + fast_labels(all.skip(0), false));
    }
    while i < devices.len()
        invariant
            i <= devices@.len(),
            all == devices.deep_view(),
            all.len() == devices@.len(),
            forall|k: int|
                0 <= k < i ==> ((#[trigger] all[k]).label is Some ==> all[k].class.len() >= 4),
            fast_labels(all, true) == gpus.deep_view() + fast_labels(all.skip(i as int), true),
            fast_labels(all, false) == nets.deep_view() + fast_labels(all.skip(i as int), false),
        decreases devices@.len() - i,
    {
        let ghost rem = all.skip(i as int);
        proof {
            assert(rem[0] == all[i as int]);
            assert(all[i as int] == devices@[i as int]@);
            assert(rem.drop_first() =~= all.skip(i + 1));
        }
        match &devices[i].label {
            None => {
                proof {
                    assert(!is_gpu(rem[0]) && !is_net(rem[0]));
                    assert(gpus.deep_view() + fast_labels(rem, true) =~= gpus.deep_view()
                        + fast_labels(all.skip(i + 1), true));
                    assert(nets.deep_view() + fast_labels(rem, false) =~= nets.deep_view()
                        + fast_labels(all.skip(i + 1), false));
                }
            },
            Some(l) => {
                if devices[i].class.as_str().unicode_len() < 4 {
                    proof {
                        assert(all[i as int].label is Some && all[i as int].class.len() < 4);
                        assert(!pci_classes_ok(all));
                    }
                    return Err(ProbeError::FieldMissing);
                }
                let code = devices[i].class.as_str().substring_char(2, 4);
                let lab = trim_str(l.as_str());
                proof {
                    assert(code@ == pci_code(rem[0]));
                    assert(lab@ == trim_spec(rem[0].label->0));
                }
                if str_eq(code, "03") {
                    let ghost pre = gpus.deep_view();
                    gpus.push(lab);
                    proof {
                        assert(is_gpu(rem[0]));
                        assert(gpus.deep_view() =~= pre.push(trim_spec(rem[0].label->0)));
                        assert(gpus.deep_view() + fast_labels(all.skip(i + 1), true) =~= pre
                            + fast_labels(rem, true));
                        assert(!is_net(rem[0])) by {
                            reveal_strlit("03");
                            reveal_strlit("02");
                            reveal_strlit("0d");
                            assert("03"@[1] != "02"@[1]);
                            assert("03"@[1] != "0d"@[1]);
                        }
                        assert(nets.deep_view() + fast_labels(rem, false) =~= nets.deep_view()
                            + fast_labels(all.skip(i + 1), false));
                    }
                } else if str_eq(code, "02") || str_eq(code, "0d") {
                    let ghost pre = nets.deep_view();
                    nets.push(lab);
                    proof {
                        assert(is_net(rem[0]) && !is_gpu(rem[0]));
                        assert(nets.deep_view() =~= pre.push(trim_spec(rem[0].label->0)));
                        assert(nets.deep_view() + fast_labels(all.skip(i + 1), false) =~= pre
                            + fast_labels(rem, false));
                        assert(gpus.deep_view() + fast_labels(rem, true) =~= gpus.deep_view()
                            + fast_labels(all.skip(i + 1), true));
                    }
                } else {
                    proof {
                        assert(!is_gpu(rem[0]) && !is_net(rem[0]));
                        assert(gpus.deep_view() + fast_labels(rem, true) =~= gpus.deep_view()
                            + fast_labels(all.skip(i + 1), true));
                        assert(nets.deep_view() + fast_labels(rem, false) =~= nets.deep_view()
                            + fast_labels(all.skip(i + 1), false));
                    }
                }
            },
        }
        i = i + 1;
    }
    proof {
        assert(all.skip(all.len() as int) =~= Seq::<PciDeviceV>::empty());
        assert(fast_labels(all.skip(all.len() as int), true) =~= Seq::<Seq<char>>::empty());
        assert(fast_labels(all.skip(all.len() as int), false) =~= Seq::<Seq<char>>::empty());
        assert(gpus.deep_view() =~= fast_labels(all, true));
        assert(nets.deep_view() =~= fast_labels(all, false));
    }
    Ok((gpus, nets))
}

/// Every line of the inventory command's output that names one of the
/// three device classes carries at least three colon-delimited fields.
pub open spec fn lspci_keys_ok(ls: Seq<Seq<char>>) -> bool {
    forall|i: int|
        0 <= i < ls.len() ==> ((has_sub(#[trigger] ls[i], "VGA compatible"@) || has_sub(
            ls[i],
            "Ethernet controller"@,
        ) || has_sub(ls[i], "Audio device"@)) ==> split_on(ls[i], ':').len() >= 3)
}

/// The third colon-delimited field of every line containing `key`, in
/// line order.
pub open spec fn lspci_list(ls: Seq<Seq<char>>, key: Seq<char>) -> Seq<Seq<char>>
    decreases ls.len(),
{
    if ls.len() == 0 {
        Seq::empty()
    } else {
        let head: Seq<Seq<char>> = if has_sub(ls[0], key) {
            seq![split_on(ls[0], ':')[2]]
        } else {
            Seq::empty()
        };
        head + lspci_list(ls.drop_first(), key)
    }
}

/// Scans the inventory command's output for display, network and audio
/// devices, taking each one's description from the third colon-delimited
/// field of its line.
pub fn parse_lspci(out: &str) -> (res: Result<
    (Vec<String>, Vec<String>, Vec<String>),
    ProbeError,
>)
    ensures
        lspci_keys_ok(lines_spec(out@)) ==> (res matches Ok(p) && p.0.deep_view() == lspci_list(
            lines_spec(out@),
            "VGA compatible"@,
        ) && p.1.deep_view() == lspci_list(lines_spec(out@), "Ethernet controller"@)
            && p.2.deep_view() == lspci_list(lines_spec(out@), "Audio device"@)),
        !lspci_keys_ok(lines_spec(out@)) ==> res == Result::<
            (Vec<String>, Vec<String>, Vec<String>),
            ProbeError,
        >::Err(ProbeError::FieldMissing),
{
    let ghost all = lines_spec(out@);
    let ls = lines_of(out);
    let mut gpus: Vec<String> = Vec::new();
    let mut nets: Vec<String> = Vec::new();
    let mut auds: Vec<String> = Vec::new();
    let mut i: usize = 0;
    proof {
        assert(all.skip(0) =~= all);
        assert(lspci_list(all, "VGA compatible"@) =~= gpus.deep_view() + lspci_list(
            all.skip(0),
            "VGA compatible"@,
        ));
        assert(lspci_list(all, "Ethernet controller"@) =~= nets.deep_view() + lspci_list(
            all.skip(0),
            "Ethernet controller"@,
        ));
        assert(lspci_list(all, "Audio device"@) =~= auds.deep_view() + lspci_list(
            all.skip(0),
            "Audio device"@,
        ));
    }
    while i < ls.len()
        invariant
            i <= ls@.len(),
            all == ls.deep_view(),
            all == lines_spec(out@),
            all.len() == ls@.len(),
            forall|k: int|
                0 <= k < i ==> ((has_sub(#[trigger] all[k], "VGA compatible"@) || has_sub(
                    all[k],
                    "Ethernet controller"@,
                ) || has_sub(all[k], "Audio device"@)) ==> split_on(all[k], ':').len() >= 3),
            lspci_list(all, "VGA compatible"@) == gpus.deep_view() + lspci_list(
                all.skip(i as int),
                "VGA compatible"@,
            ),
            lspci_list(all, "Ethernet controller"@) == nets.deep_view() + lspci_list(
                all.skip(i as int),
                "Ethernet controller"@,
            ),
            lspci_list(all, "Audio device"@) == auds.deep_view() + lspci_list(
                all.skip(i as int),
                "Audio device"@,
            ),
        decreases ls@.len() - i,
    {
        let ghost rem = all.skip(i as int);
        proof {
            assert(rem[0] == all[i as int]);
            assert(all[i as int] == ls@[i as int]@);
            assert(rem.drop_first() =~= all.skip(i + 1));
        }
        let g = contains_sub(ls[i].as_str(), "VGA compatible");
        let e = contains_sub(ls[i].as_str(), "Ethernet controller");
        let a = contains_sub(ls[i].as_str(), "Audio device");
        if g || e || a {
            let fsl = split_all(ls[i].as_str(), ':');
            if fsl.len() < 3 {
                proof {
                    let line = all[i as int];
                    assert(fsl.deep_view().len() == fsl@.len());
                    assert(split_on(line, ':').len() < 3);
                    assert(g == has_sub(line, "VGA compatible"@));
                    assert(e == has_sub(line, "Ethernet controller"@));
                    assert(a == has_sub(line, "Audio device"@));
                    assert(!((has_sub(line, "VGA compatible"@) || has_sub(
                        line,
                        "Ethernet controller"@,
                    ) || has_sub(line, "Audio device"@)) ==> split_on(line, ':').len() >= 3));
                    assert(!lspci_keys_ok(all));
                }
                return Err(ProbeError::FieldMissing);
            }
            proof {
                assert(fsl.deep_view()[2] == fsl@[2]@);
            }
            if g {
                let ghost pre = gpus.deep_view();
                gpus.push(fsl[2].clone());
                proof {
                    assert(gpus.deep_view() =~= pre.push(split_on(rem[0], ':')[2]));
                    assert(gpus.deep_view() + lspci_list(all.skip(i + 1), "VGA compatible"@)
                        =~= pre + lspci_list(rem, "VGA compatible"@));
                }
            } else {
                proof {
                    assert(gpus.deep_view() + lspci_list(rem, "VGA compatible"@)
                        =~= gpus.deep_view() + lspci_list(all.skip(i + 1), "VGA compatible"@));
                }
            }
            if e {
                let ghost pre = nets.deep_view();
                nets.push(fsl[2].clone());
                proof {
                    assert(nets.deep_view() =~= pre.push(split_on(rem[0], ':')[2]));
                    assert(nets.deep_view() + lspci_list(all.skip(i + 1), "Ethernet controller"@)
                        =~= pre + lspci_list(rem, "Ethernet controller"@));
                }
            } else {
                proof {
                    assert(nets.deep_view() + lspci_list(rem, "Ethernet controller"@)
                        =~= nets.deep_view() + lspci_list(
                        all.skip(i + 1),
                        "Ethernet controller"@,
                    ));
                }
            }
            if a {
                let ghost pre = auds.deep_view();
                auds.push(fsl[2].clone());
                proof {
                    assert(auds.deep_view() =~= pre.push(split_on(rem[0], ':')[2]));
                    assert(auds.deep_view() + lspci_list(all.skip(i + 1), "Audio device"@) =~= pre
                        + lspci_list(rem, "Audio device"@));
                }
            } else {
                proof {
                    assert(auds.deep_view() + lspci_list(rem, "Audio device"@)
                        =~= auds.deep_view() + lspci_list(all.skip(i + 1), "Audio device"@));
                }
            }
        } else {
            proof {
                assert(gpus.deep_view() + lspci_list(rem, "VGA compatible"@) =~= gpus.deep_view()
                    + lspci_list(all.skip(i + 1), "VGA compatible"@));
                assert(nets.deep_view() + lspci_list(rem, "Ethernet controller"@)
                    =~= nets.deep_view() + lspci_list(all.skip(i + 1), "Ethernet controller"@));
                assert(auds.deep_view() + lspci_list(rem, "Audio device"@) =~= auds.deep_view()
                    + lspci_list(all.skip(i + 1), "Audio device"@));
            }
        }
        i = i + 1;
    }
    proof {
        assert(all.skip(all.len() as int) =~= Seq::<Seq<char>>::empty());
        assert(lspci_list(all.skip(all.len() as int), "VGA compatible"@) =~= Seq::<
            Seq<char>,
        >::empty());
        assert(lspci_list(all.skip(all.len() as int), "Ethernet controller"@) =~= Seq::<
            Seq<char>,
        >::empty());
        assert(lspci_list(all.skip(all.len() as int), "Audio device"@) =~= Seq::<
            Seq<char>,
        >::empty());
        assert(gpus.deep_view() =~= lspci_list(all, "VGA compatible"@));
        assert(nets.deep_view() =~= lspci_list(all, "Ethernet controller"@));
        assert(auds.deep_view() =~= lspci_list(all, "Audio device"@));
    }
    Ok((gpus, nets, auds))
}

/// What the hardware inventory renders.  In fast mode it classifies the
/// filesystem-read device metadata alone; otherwise it parses the
/// inventory command's output, or renders nothing when that command was
/// unavailable.  Each non-empty category renders a titled, indented group.
pub open spec fn lspci_spec(
    c: nat,
    fast: bool,
    ds: Seq<PciDeviceV>,
    out: Option<Seq<char>>,
) -> Result<(Seq<char>, nat), ProbeError> {
    if fast {
        if !pci_classes_ok(ds) {
            Err(ProbeError::FieldMissing)
        } else {
            let g = fast_labels(ds, true);
            let n = fast_labels(ds, false);
            let c1 = list_bump(c, g.len());
            let c2 = list_bump(c1, n.len());
            Ok(
                (
                    list_block(c, "Display controller(s) - GPU(s):"@, g) + list_block(
                        c1,
                        "Network adapter(s):"@,
                        n,
                    ),
                    c2,
                ),
            )
        }
    } else {
        match out {
            None => Ok((Seq::empty(), c)),
            Some(o) => {
                let ls = lines_spec(o);
                if !lspci_keys_ok(ls) {
                    Err(ProbeError::FieldMissing)
                } else {
                    let g = lspci_list(ls, "VGA compatible"@);
                    let n = lspci_list(ls, "Ethernet controller"@);
                    let a = lspci_list(ls, "Audio device"@);
                    let c1 = list_bump(c, g.len());
                    let c2 = list_bump(c1, n.len());
                    let c3 = list_bump(c2, a.len());
                    Ok(
                        (
                            list_block(c, "Display controller(s) - GPU(s):"@, g) + list_block(
                                c1,
                                "Network adapter(s):"@,
                                n,
                            ) + list_block(c2, "Audio device(s):"@, a),
                            c3,
                        ),
                    )
                }
            },
        }
    }
}

/// Renders the hardware inventory: display controllers, network adapters
/// and audio devices, as titled groups.  In fast mode only the
/// filesystem-read device metadata is consulted (audio devices are not
/// classified there); otherwise the inventory command's output is parsed,
/// and nothing renders when it was unavailable.
pub fn display_lspci_data(
    r: &mut Renderer,
    fast: bool,
    devices: &Vec<PciDevice>,
    lspci_out: Option<&str>,
) -> (res: Result<(), ProbeError>)
    requires
        old(r).wf(),
    ensures
        final(r).wf(),
        probe_post(
            *old(r),
            *final(r),
            res,
            lspci_spec(old(r).cursor as nat, fast, devices.deep_view(), lspci_out.deep_view()),
        ),
{
    if fast {
        let (gpus, nets) = match classify_pci_devices(devices) {
            Err(e) => {
                return Err(e);
            },
            Ok(p) => p,
        };
        let auds: Vec<String> = Vec::new();
        display_list_of_data(r, "Display controller(s) - GPU(s):", &gpus);
        display_list_of_data(r, "Network adapter(s):", &nets);
        display_list_of_data(r, "Audio device(s):", &auds);
        proof {
            let c = old(r).cursor as nat;
            let g = fast_labels(devices.deep_view(), true);
            let n = fast_labels(devices.deep_view(), false);
            assert(auds.deep_view() =~= Seq::<Seq<char>>::empty());
            assert(r.out@ =~= old(r).out@ + (list_block(c, "Display controller(s) - GPU(s):"@, g)
                + list_block(list_bump(c, g.len()), "Network adapter(s):"@, n)));
        }
        Ok(())
    } else {
        match lspci_out {
            None => {
                proof {
                    assert(r.out@ =~= old(r).out@ + Seq::<char>::empty());
                }
                Ok(())
            },
            Some(out) => {
                let (gpus, nets, auds) = match parse_lspci(out) {
                    Err(e) => {
                        return Err(e);
                    },
                    Ok(p) => p,
                };
                display_list_of_data(r, "Display controller(s) - GPU(s):", &gpus);
                display_list_of_data(r, "Network adapter(s):", &nets);
                display_list_of_data(r, "Audio device(s):", &auds);
                proof {
                    let c = old(r).cursor as nat;
                    let ls = lines_spec(out@);
                    let g = lspci_list(ls, "VGA compatible"@);
                    let n = lspci_list(ls, "Ethernet controller"@);
                    let a = lspci_list(ls, "Audio device"@);
                    assert(r.out@ =~= old(r).out@ + (list_block(
                        c,
                        "Display controller(s) - GPU(s):"@,
                        g,
                    ) + list_block(list_bump(c, g.len()), "Network adapter(s):"@, n) + list_block(
                        list_bump(list_bump(c, g.len()), n.len()),
                        "Audio device(s):"@,
                        a,
                    )));
                }
                Ok(())
            },
        }
    }
}

/// What the session-type probe renders.
pub open spec fn session_probe_spec(c: nat, envv: Seq<(Seq<char>, Seq<char>)>) -> (Seq<char>, nat) {
    (logo_chunk(c) + line_seq("Session type: "@, session_type_spec(envv)), bump(c))
}

/// What the process-count probe renders.
pub open spec fn process_probe_spec(c: nat, ns: Seq<Seq<char>>) -> (Seq<char>, nat) {
    (logo_chunk(c) + line_seq("Process count: "@, dec_str(count_digit_names(ns))), bump(c))
}

/// Whenever the memory probe succeeds, the used amounts it renders are
/// exactly the totals minus the available/free amounts, and neither is
/// ever negative: for every well-formed input the available amount is at
/// most the total, so the subtraction cannot go below zero.
pub proof fn lemma_mem_used_nonnegative(c: nat, file: Seq<char>)
    ensures
        mem_info_spec(c, file) matches Ok(p) ==> {
            let ls = lines_spec(file);
            let mt = meminfo_field(ls, "MemTotal"@)->0;
            let ma = meminfo_field(ls, "MemAvailable"@)->0;
            let st = meminfo_field(ls, "SwapTotal"@)->0;
            let sf = meminfo_field(ls, "SwapFree"@)->0;
            ma <= mt && sf <= st && mt - ma >= 0 && st - sf >= 0 && p.0 == logo_chunk(c)
                + line_seq("Swap: "@, mb_pair((st - sf) as nat, st as nat)) + logo_chunk(bump(c))
                + line_seq("Memory: "@, mb_pair((mt - ma) as nat, mt as nat))
        },
{
}

/// With fast mode on, no probe consults an external command: the package
/// probe renders nothing when handed no directory count and no query
/// output, and the fast-mode hardware inventory renders the same thing
/// whatever an inventory command's output might have been, since it reads
/// the filesystem-sourced device metadata alone.
pub proof fn lemma_fast_mode_uses_no_external(
    c: nat,
    ds: Seq<PciDeviceV>,
    o1: Option<Seq<char>>,
    o2: Option<Seq<char>>,
)
    ensures
        package_count_spec(c, None, None) == (Seq::<char>::empty(), c),
        lspci_spec(c, true, ds, o1) == lspci_spec(c, true, ds, o2),
{
}

/// No device is both a display controller and a network adapter: the
/// class-code bytes the two categories go by differ.
pub proof fn lemma_gpu_net_disjoint(d: PciDeviceV)
    ensures
        !(is_gpu(d) && is_net(d)),
{
    reveal_strlit("03");
    reveal_strlit("02");
    reveal_strlit("0d");
    assert("03"@[1] != "02"@[1]);
    assert("03"@[1] != "0d"@[1]);
}

/// Everything in a fast-mode category list comes from a device that has a
/// label file and whose class-code byte selects exactly that category: a
/// device lacking the label file is in neither list, and by the lemma
/// above no device is in both.
pub proof fn lemma_fast_classification(ds: Seq<PciDeviceV>, l: Seq<char>)
    ensures
        fast_labels(ds, true).contains(l) ==> exists|i: int|
            0 <= i < ds.len() && is_gpu(#[trigger] ds[i]) && trim_spec(ds[i].label->0) == l,
        fast_labels(ds, false).contains(l) ==> exists|i: int|
            0 <= i < ds.len() && is_net(#[trigger] ds[i]) && trim_spec(ds[i].label->0) == l,
    decreases ds.len(),
{
    if ds.len() > 0 {
        let tail = ds.drop_first();
        lemma_fast_classification(tail, l);
        if fast_labels(ds, true).contains(l) {
            let head: Seq<Seq<char>> = if is_gpu(ds[0]) {
                seq![trim_spec(ds[0].label->0)]
            } else {
                Seq::empty()
            };
            assert(fast_labels(ds, true) == head + fast_labels(tail, true));
            let k = choose|k: int|
                0 <= k < fast_labels(ds, true).len() && fast_labels(ds, true)[k] == l;
            if k < head.len() {
                assert(is_gpu(ds[0]) && trim_spec(ds[0].label->0) == l);
            } else {
                assert(fast_labels(tail, true)[k - head.len()] == l);
                assert(fast_labels(tail, true).contains(l));
                let i = choose|i: int|
                    0 <= i < tail.len() && is_gpu(#[trigger] tail[i]) && trim_spec(
                        tail[i].label->0,
                    ) == l;
                assert(tail[i] == ds[i + 1]);
                assert(is_gpu(ds[i + 1]) && trim_spec(ds[i + 1].label->0) == l);
            }
        }
        if fast_labels(ds, false).contains(l) {
            let head: Seq<Seq<char>> = if is_net(ds[0]) {
                seq![trim_spec(ds[0].label->0)]
            } else {
                Seq::empty()
            };
            assert(fast_labels(ds, false) == head + fast_labels(tail, false));
            let k = choose|k: int|
                0 <= k < fast_labels(ds, false).len() && fast_labels(ds, false)[k] == l;
            if k < head.len() {
                assert(is_net(ds[0]) && trim_spec(ds[0].label->0) == l);
            } else {
                assert(fast_labels(tail, false)[k - head.len()] == l);
                assert(fast_labels(tail, false).contains(l));
                let i = choose|i: int|
                    0 <= i < tail.len() && is_net(#[trigger] tail[i]) && trim_spec(
                        tail[i].label->0,
                    ) == l;
                assert(tail[i] == ds[i + 1]);
                assert(is_net(ds[i + 1]) && trim_spec(ds[i + 1].label->0) == l);
            }
        }
    }
}

/// An optional-field probe whose environment variable is unset renders
/// zero lines and advances the render cursor by zero.
pub proof fn lemma_env_var_absent(
    c: nat,
    envv: Seq<(Seq<char>, Seq<char>)>,
    title: Seq<char>,
    var: Seq<char>,
)
    requires
        env_lookup(envv, var) is None,
    ensures
        env_var_spec(c, envv, title, var) == (Seq::<char>::empty(), c),
{
}

} // verus!
