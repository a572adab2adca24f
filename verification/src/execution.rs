//! Compilation of a verified draft into the commands that carry it out,
//! and the decisions around running them: confirmation and authorization.
use vstd::prelude::*;
use crate::domain::{
    Call, CallView, Draft, DraftView, Exec, ExecView, Filesystem, Instruction, InstructionView,
    PercentTarget, SizeUnit, call_views, instruction_views, relative_size_message,
};
use crate::parser::{law_filesystem_names_read_back, spec_parse_fs};
use crate::text::{
    concat2, decimal, decimal_string, push_char, push_decimal, str_eq, trim_str, trimmed,
};

verus! {

pub open spec fn iv(shell: Seq<char>, program: Seq<char>, args: Seq<Seq<char>>) -> InstructionView {
    InstructionView { shell_string: shell, program, args }
}

/// `"p"`, the way a path is written inside a shell command.
pub open spec fn dq(p: Seq<char>) -> Seq<char> {
    "\""@ + p + "\""@
}

/// The double-quoted paths separated by single spaces.
pub open spec fn joined_paths(pvs: Seq<Seq<char>>) -> Seq<char>
    decreases pvs.len(),
{
    if pvs.len() == 0 {
        Seq::empty()
    } else if pvs.len() == 1 {
        dq(pvs[0])
    } else {
        joined_paths(pvs.drop_last()) + " "@ + dq(pvs.last())
    }
}

pub open spec fn target_name(t: PercentTarget) -> Seq<char> {
    match t {
        PercentTarget::Free => "FREE"@,
        PercentTarget::Vg => "VG"@,
        PercentTarget::Pvs => "PVS"@,
    }
}

/// The `lvcreate` size flag and its value for a volume size.
pub open spec fn lv_size_arg(size: SizeUnit) -> (Seq<char>, Seq<char>) {
    match size {
        SizeUnit::Percentage(p, t) => (
            "-l"@,
            decimal(p.spec_get() as nat) + "%"@ + target_name(t),
        ),
        SizeUnit::Extents(e) => ("-l"@, decimal(e as nat)),
        _ => ("-L"@, decimal(size.spec_bytes().unwrap()) + "B"@),
    }
}

pub open spec fn fstab_tmp(fs: Filesystem) -> Seq<char> {
    "/etc/fstab."@ + fs.spec_name() + ".tmp"@
}

/// The shell line that appends the fstab entry of `device` to the
/// temporary copy: the device is named by its UUID when `blkid` finds one.
pub open spec fn fstab_line(device: Seq<char>, path: Seq<char>, fs: Filesystem) -> Seq<char> {
    let swap = fs == Filesystem::Swap;
    let mnt = if swap {
        "none"@
    } else {
        path
    };
    let opts = if swap {
        "sw"@
    } else {
        "defaults"@
    };
    let pass = if swap {
        "0"@
    } else {
        "2"@
    };
    "ID=$(blkid -s UUID -o value "@ + device + "); if [ -z \"$ID\" ]; then ID="@ + device
        + "; else ID=\"UUID=$ID\"; fi; echo \"$ID "@ + mnt + " "@ + fs.spec_name() + " "@ + opts
        + " 0 "@ + pass + "\" >> "@ + fstab_tmp(fs)
}

/// The commands of one call, or why it cannot be compiled.
pub open spec fn call_instructions(c: CallView) -> Result<Seq<InstructionView>, Seq<char>> {
    match c {
        CallView::PvCreate(p) => Ok(
            seq![iv("pvcreate -y "@ + dq(p), "pvcreate"@, seq!["-y"@, p])],
        ),
        CallView::VgCreate { name, pvs, pe_size } => match pe_size.spec_bytes() {
            None => Err(relative_size_message()),
            Some(b) => {
                let pe = decimal(b) + "B"@;
                Ok(
                    seq![
                        iv(
                            "vgcreate -s "@ + pe + " "@ + name + " "@ + joined_paths(pvs),
                            "vgcreate"@,
                            seq!["-s"@, pe, name] + pvs,
                        ),
                    ],
                )
            },
        },
        CallView::LvCreate { vg, name, size } => {
            let (flag, val) = lv_size_arg(size);
            Ok(
                seq![
                    iv(
                        "lvcreate -y -n "@ + name + " "@ + flag + " "@ + val + " "@ + vg,
                        "lvcreate"@,
                        seq!["-y"@, "-n"@, name, flag, val, vg],
                    ),
                ],
            )
        },
        CallView::Mkfs { device, fs } => Ok(
            seq![
                iv(
                    "mkfs -t "@ + fs.spec_name() + " "@ + dq(device),
                    "mkfs"@,
                    seq!["-t"@, fs.spec_name(), device],
                ),
            ],
        ),
        CallView::Mkdir(p) => Ok(seq![iv("mkdir -p "@ + dq(p), "mkdir"@, seq!["-p"@, p])]),
        CallView::Mount { device, path } => Ok(
            seq![iv("mount "@ + dq(device) + " "@ + dq(path), "mount"@, seq![device, path])],
        ),
        CallView::Fstab { device, path, fs } => {
            let line = fstab_line(device, path, fs);
            Ok(
                seq![
                    iv(
                        "cp -p /etc/fstab "@ + fstab_tmp(fs),
                        "cp"@,
                        seq!["-p"@, "/etc/fstab"@, fstab_tmp(fs)],
                    ),
                    iv(line, "sh"@, seq!["-c"@, line]),
                    iv(
                        "mv "@ + fstab_tmp(fs) + " /etc/fstab"@,
                        "mv"@,
                        seq![fstab_tmp(fs), "/etc/fstab"@],
                    ),
                ],
            )
        },
        CallView::MkSwap(d) => Ok(
            seq![
                iv("mkswap "@ + dq(d), "mkswap"@, seq![d]),
                iv("swapon "@ + dq(d), "swapon"@, seq![d]),
            ],
        ),
    }
}

/// The commands of the first `n` calls, in order; the first call that
/// cannot be compiled stops the compilation.
pub open spec fn compile(calls: Seq<CallView>, n: nat) -> Result<Seq<InstructionView>, Seq<char>>
    decreases n,
{
    if n == 0 {
        Ok(Seq::empty())
    } else {
        match compile(calls, (n - 1) as nat) {
            Err(e) => Err(e),
            Ok(body) => match call_instructions(calls[n - 1]) {
                Err(e) => Err(e),
                Ok(more) => Ok(body + more),
            },
        }
    }
}

pub open spec fn has_fstab(calls: Seq<CallView>) -> bool {
    exists|i: int| 0 <= i < calls.len() && (#[trigger] calls[i]) is Fstab
}

pub open spec fn backup_instruction() -> InstructionView {
    iv("cp -p /etc/fstab /etc/fstab.bak"@, "cp"@, seq!["-p"@, "/etc/fstab"@, "/etc/fstab.bak"@])
}

pub open spec fn reload_instruction() -> InstructionView {
    iv("systemctl daemon-reload"@, "systemctl"@, seq!["daemon-reload"@])
}

/// The execution list of a draft: when the draft edits `/etc/fstab`, a
/// backup of it first and a reload of the mount units last; in between
/// the commands of every call. The list is not yet allowed to run.
pub open spec fn spec_exec_provision(d: DraftView) -> Result<ExecView, Seq<char>> {
    match compile(d.draft, d.draft.len()) {
        Err(e) => Err(e),
        Ok(body) => {
            let head = if has_fstab(d.draft) {
                seq![backup_instruction()]
            } else {
                Seq::empty()
            };
            let tail = if has_fstab(d.draft) {
                seq![reload_instruction()]
            } else {
                Seq::empty()
            };
            Ok(
                ExecView {
                    list: head + body + tail,
                    auto_confirm: d.auto_confirm,
                    is_allowed: false,
                    warnings: d.warnings,
                },
            )
        },
    }
}

fn str_vec1(a: String) -> (v: Vec<String>)
    ensures
        v.deep_view() == seq![a@],
{
    let mut v = Vec::new();
    v.push(a);
    assert(v.deep_view() =~= seq![a@]);
    v
}

fn str_vec2(a: String, b: String) -> (v: Vec<String>)
    ensures
        v.deep_view() == seq![a@, b@],
{
    let mut v = Vec::new();
    v.push(a);
    v.push(b);
    assert(v.deep_view() =~= seq![a@, b@]);
    v
}

fn str_vec3(a: String, b: String, c: String) -> (v: Vec<String>)
    ensures
        v.deep_view() == seq![a@, b@, c@],
{
    let mut v = Vec::new();
    v.push(a);
    v.push(b);
    v.push(c);
    assert(v.deep_view() =~= seq![a@, b@, c@]);
    v
}

fn push_string(v: &mut Vec<String>, s: String)
    ensures
        final(v).deep_view() == old(v).deep_view().push(s@),
{
    let ghost before = v.deep_view();
    v.push(s);
    assert(v.deep_view() =~= before.push(s@));
}

fn instruction(shell: String, program: &str, args: Vec<String>) -> (r: Instruction)
    ensures
        r@ == iv(shell@, program@, args.deep_view()),
{
    Instruction { shell_string: shell, program: String::from_str(program), args }
}

fn push_instruction(list: &mut Vec<Instruction>, i: Instruction)
    ensures
        instruction_views(final(list)@) == instruction_views(old(list)@).push(i@),
{
    let ghost before = instruction_views(list@);
    list.push(i);
    assert(instruction_views(list@) =~= before.push(i@));
}

fn dquoted(p: &str) -> (s: String)
    ensures
        s@ == dq(p@),
{
    let mut s = String::from_str("\"");
    s.append(p);
    s.append("\"");
    s
}

fn joined(pvs: &Vec<String>) -> (s: String)
    ensures
        s@ == joined_paths(pvs.deep_view()),
{
    let ghost pv = pvs.deep_view();
    let mut s = String::new();
    let mut j: usize = 0;
    assert(pv.take(0) =~= Seq::<Seq<char>>::empty());
    while j < pvs.len()
        invariant
            j <= pvs.len(),
            pv == pvs.deep_view(),
            s@ == joined_paths(pv.take(j as int)),
        decreases pvs.len() - j,
    {
        assert(pv.take(j + 1).drop_last() =~= pv.take(j as int));
        assert(pv.take(j + 1).last() == pvs@[j as int]@);
        if j > 0 {
            s.append(" ");
        }
        let q = dquoted(pvs[j].as_str());
        s.append(q.as_str());
        proof {
            if j == 0 {
                assert(pv.take(1).len() == 1);
                assert(s@ =~= joined_paths(pv.take(1)));
            }
        }
        j = j + 1;
    }
    assert(pv.take(pvs.len() as int) =~= pv);
    s
}

fn target_text(t: PercentTarget) -> (s: String)
    ensures
        s@ == target_name(t),
{
    match t {
        PercentTarget::Free => String::from_str("FREE"),
        PercentTarget::Vg => String::from_str("VG"),
        PercentTarget::Pvs => String::from_str("PVS"),
    }
}

fn fstab_tmp_path(fs: Filesystem) -> (s: String)
    ensures
        s@ == fstab_tmp(fs),
{
    let mut s = String::from_str("/etc/fstab.");
    let n = fs.name();
    s.append(n.as_str());
    s.append(".tmp");
    s
}

fn fstab_shell_line(device: &str, path: &str, fs: Filesystem) -> (s: String)
    ensures
        s@ == fstab_line(device@, path@, fs),
{
    let swap = fs == Filesystem::Swap;
    let mut s = String::from_str("ID=$(blkid -s UUID -o value ");
    s.append(device);
    s.append("); if [ -z \"$ID\" ]; then ID=");
    s.append(device);
    s.append("; else ID=\"UUID=$ID\"; fi; echo \"$ID ");
    if swap {
        s.append("none");
    } else {
        s.append(path);
    }
    s.append(" ");
    let n = fs.name();
    s.append(n.as_str());
    s.append(" ");
    if swap {
        s.append("sw");
    } else {
        s.append("defaults");
    }
    s.append(" 0 ");
    if swap {
        s.append("0");
    } else {
        s.append("2");
    }
    s.append("\" >> ");
    let t = fstab_tmp_path(fs);
    s.append(t.as_str());
    assert(s@ =~= fstab_line(device@, path@, fs));
    s
}

/// Appends the commands of one call (see `call_instructions`).
fn push_call_instructions(list: &mut Vec<Instruction>, call: &Call) -> (r: Result<(), String>)
    ensures
        match call_instructions(call@) {
            Ok(more) => (r is Ok && instruction_views(final(list)@) == instruction_views(
                old(list)@,
            ) + more),
            Err(e) => (r matches Err(m) && m@ == e),
        },
{
    let ghost start = instruction_views(list@);
    match call {
        Call::PvCreate(p) => {
            let mut sh = String::from_str("pvcreate -y ");
            let q = dquoted(p.as_str());
            sh.append(q.as_str());
            push_instruction(
                list,
                instruction(sh, "pvcreate", str_vec2(String::from_str("-y"), p.clone())),
            );
            assert(instruction_views(list@) =~= start + call_instructions(call@)->Ok_0);
        },
        Call::VgCreate { name, pvs, pe_size } => {
            let b = match pe_size.to_bytes() {
                Ok(b) => b,
                Err(e) => {
                    return Err(e);
                },
            };
            let mut pe = decimal_string(b);
            pe.append("B");
            let mut sh = String::from_str("vgcreate -s ");
            sh.append(pe.as_str());
            sh.append(" ");
            sh.append(name.as_str());
            sh.append(" ");
            let j = joined(pvs);
            sh.append(j.as_str());
            let mut args = str_vec3(String::from_str("-s"), pe.clone(), name.clone());
            let ghost a0 = args.deep_view();
            let mut k: usize = 0;
            while k < pvs.len()
                invariant
                    k <= pvs.len(),
                    args.deep_view() == a0 + pvs.deep_view().take(k as int),
                decreases pvs.len() - k,
            {
                push_string(&mut args, pvs[k].clone());
                assert(pvs.deep_view().take(k + 1) =~= pvs.deep_view().take(k as int).push(
                    pvs@[k as int]@,
                ));
                k = k + 1;
            }
            assert(pvs.deep_view().take(pvs.len() as int) =~= pvs.deep_view());
            push_instruction(list, instruction(sh, "vgcreate", args));
            assert(instruction_views(list@) =~= start + call_instructions(call@)->Ok_0);
        },
        Call::LvCreate { vg, name, size } => {
            let (flag, val) = match size {
                SizeUnit::Percentage(p, t) => {
                    let mut v = decimal_string(p.get() as u128);
                    v.append("%");
                    let tt = target_text(*t);
                    v.append(tt.as_str());
                    (String::from_str("-l"), v)
                },
                SizeUnit::Extents(e) => (String::from_str("-l"), decimal_string(*e as u128)),
                _ => {
                    let b = match size.to_bytes() {
                        Ok(b) => b,
                        Err(e) => {
                            return Err(e);
                        },
                    };
                    let mut v = decimal_string(b);
                    v.append("B");
                    (String::from_str("-L"), v)
                },
            };
            assert((flag@, val@) == lv_size_arg(*size));
            let mut sh = String::from_str("lvcreate -y -n ");
            sh.append(name.as_str());
            sh.append(" ");
            sh.append(flag.as_str());
            sh.append(" ");
            sh.append(val.as_str());
            sh.append(" ");
            sh.append(vg.as_str());
            let mut args = str_vec3(String::from_str("-y"), String::from_str("-n"), name.clone());
            let ghost a0 = args.deep_view();
            push_string(&mut args, flag);
            push_string(&mut args, val);
            push_string(&mut args, vg.clone());
            assert(args.deep_view() =~= seq!["-y"@, "-n"@, name@, lv_size_arg(*size).0, lv_size_arg(*size).1, vg@]);
            push_instruction(list, instruction(sh, "lvcreate", args));
            assert(instruction_views(list@) =~= start + call_instructions(call@)->Ok_0);
        },
        Call::Mkfs { device, fs } => {
            let n = fs.name();
            let mut sh = String::from_str("mkfs -t ");
            sh.append(n.as_str());
            sh.append(" ");
            let q = dquoted(device.as_str());
            sh.append(q.as_str());
            push_instruction(
                list,
                instruction(sh, "mkfs", str_vec3(String::from_str("-t"), n, device.clone())),
            );
            assert(instruction_views(list@) =~= start + call_instructions(call@)->Ok_0);
        },
        Call::Mkdir(p) => {
            let mut sh = String::from_str("mkdir -p ");
            let q = dquoted(p.as_str());
            sh.append(q.as_str());
            push_instruction(
                list,
                instruction(sh, "mkdir", str_vec2(String::from_str("-p"), p.clone())),
            );
            assert(instruction_views(list@) =~= start + call_instructions(call@)->Ok_0);
        },
        Call::Mount { device, path } => {
            let mut sh = String::from_str("mount ");
            let q1 = dquoted(device.as_str());
            sh.append(q1.as_str());
            sh.append(" ");
            let q2 = dquoted(path.as_str());
            sh.append(q2.as_str());
            push_instruction(list, instruction(sh, "mount", str_vec2(device.clone(), path.clone())));
            assert(instruction_views(list@) =~= start + call_instructions(call@)->Ok_0);
        },
        Call::Fstab { device, path, fs } => {
            let tmp = fstab_tmp_path(*fs);
            let mut cp = String::from_str("cp -p /etc/fstab ");
            cp.append(tmp.as_str());
            push_instruction(
                list,
                instruction(
                    cp,
                    "cp",
                    str_vec3(String::from_str("-p"), String::from_str("/etc/fstab"), tmp.clone()),
                ),
            );
            let line = fstab_shell_line(device.as_str(), path.as_str(), *fs);
            let line2 = line.clone();
            push_instruction(list, instruction(line, "sh", str_vec2(String::from_str("-c"), line2)));
            let mut mv = String::from_str("mv ");
            mv.append(tmp.as_str());
            mv.append(" /etc/fstab");
            push_instruction(
                list,
                instruction(mv, "mv", str_vec2(tmp, String::from_str("/etc/fstab"))),
            );
            assert(instruction_views(list@) =~= start + call_instructions(call@)->Ok_0);
        },
        Call::MkSwap(d) => {
            let mut mk = String::from_str("mkswap ");
            let q = dquoted(d.as_str());
            mk.append(q.as_str());
            push_instruction(list, instruction(mk, "mkswap", str_vec1(d.clone())));
            let mut on = String::from_str("swapon ");
            on.append(q.as_str());
            push_instruction(list, instruction(on, "swapon", str_vec1(d.clone())));
            assert(instruction_views(list@) =~= start + call_instructions(call@)->Ok_0);
        },
    }
    Ok(())
}

proof fn lemma_compile_stops(calls: Seq<CallView>, m: nat, n: nat)
    requires
        m <= n,
        compile(calls, m) is Err,
    ensures
        compile(calls, n) == compile(calls, m),
    decreases n,
{
    if m < n {
        lemma_compile_stops(calls, m, (n - 1) as nat);
    }
}

/// Compiles a draft into its execution list (see `spec_exec_provision`).
pub fn exec_provision(draft: Draft) -> (r: Result<Exec, String>)
    ensures
        match spec_exec_provision(draft@) {
            Ok(x) => (r matches Ok(e) && e@ == x),
            Err(m) => (r matches Err(e) && e@ == m),
        },
{
    let ghost calls = draft@.draft;
    let n = draft.draft.len();
    let mut has = false;
    let mut i: usize = 0;
    while i < n
        invariant
            n == draft.draft@.len(),
            calls == draft@.draft,
            i <= n,
            has == (exists|k: int| 0 <= k < i && (#[trigger] calls[k]) is Fstab),
        decreases n - i,
    {
        assert(calls[i as int] == draft.draft@[i as int]@);
        match &draft.draft[i] {
            Call::Fstab { .. } => {
                has = true;
            },
            _ => {},
        }
        i = i + 1;
    }
    let mut list: Vec<Instruction> = Vec::new();
    if has {
        push_instruction(
            &mut list,
            instruction(
                String::from_str("cp -p /etc/fstab /etc/fstab.bak"),
                "cp",
                str_vec3(
                    String::from_str("-p"),
                    String::from_str("/etc/fstab"),
                    String::from_str("/etc/fstab.bak"),
                ),
            ),
        );
    }
    let ghost head = instruction_views(list@);
    assert(head =~= (if has_fstab(calls) {
        seq![backup_instruction()]
    } else {
        Seq::empty()
    }));
    let mut i: usize = 0;
    assert(instruction_views(list@) =~= head + compile(calls, 0)->Ok_0);
    while i < n
        invariant
            n == draft.draft@.len(),
            calls == draft@.draft,
            i <= n,
            compile(calls, i as nat) is Ok,
            instruction_views(list@) == head + compile(calls, i as nat)->Ok_0,
        decreases n - i,
    {
        assert(calls[i as int] == draft.draft@[i as int]@);
        let ghost before = instruction_views(list@);
        match push_call_instructions(&mut list, &draft.draft[i]) {
            Ok(()) => {},
            Err(e) => {
                proof {
                    lemma_compile_stops(calls, (i + 1) as nat, n as nat);
                }
                return Err(e);
            },
        }
        assert(instruction_views(list@) =~= head + compile(calls, (i + 1) as nat)->Ok_0);
        i = i + 1;
    }
    let ghost body = instruction_views(list@);
    if has {
        push_instruction(
            &mut list,
            instruction(
                String::from_str("systemctl daemon-reload"),
                "systemctl",
                str_vec1(String::from_str("daemon-reload")),
            ),
        );
    }
    assert(instruction_views(list@) =~= body + (if has_fstab(calls) {
        seq![reload_instruction()]
    } else {
        Seq::empty()
    }));
    let r = Exec { list, auto_confirm: draft.auto_confirm, is_allowed: false, warnings: draft.warnings };
    Ok(r)
}

// ----- confirmation and authorization ----------------------------------

/// Whether the user's reply, trimmed, is exactly `Y`.
pub fn reply_is_yes(reply: &str) -> (b: bool)
    ensures
        b == (trimmed(reply@) == "Y"@),
{
    let t = trim_str(reply);
    str_eq(t.as_str(), "Y")
}

pub open spec fn aborted_message() -> Seq<char> {
    "Execution aborted by user."@
}

/// The confirmation step: a list marked for automatic confirmation is
/// allowed at once; otherwise it is allowed exactly when the user's reply
/// (`None` when none was read) is `Y` once trimmed.
pub fn confirm_execution(exec: &mut Exec, reply: Option<String>) -> (r: Result<(), String>)
    ensures
        ({
            let yes = old(exec).auto_confirm || (reply matches Some(a) && trimmed(a@) == "Y"@);
            &&& final(exec).is_allowed == yes
            &&& r is Ok <==> yes
            &&& r matches Err(m) ==> m@ == aborted_message()
        }),
        final(exec)@.list == old(exec)@.list,
        final(exec).auto_confirm == old(exec).auto_confirm,
        final(exec)@.warnings == old(exec)@.warnings,
{
    if exec.auto_confirm {
        exec.is_allowed = true;
        return Ok(());
    }
    let yes = match &reply {
        Some(a) => reply_is_yes(a.as_str()),
        None => false,
    };
    if yes {
        exec.is_allowed = true;
        Ok(())
    } else {
        exec.is_allowed = false;
        Err(String::from_str("Execution aborted by user."))
    }
}

pub open spec fn unauthorized_message() -> Seq<char> {
    "Security Error: Attempted to apply an unauthorized execution plan."@
}

/// The check before any command runs: only an allowed list may be applied.
pub fn authorize_apply(exec: &Exec) -> (r: Result<(), String>)
    ensures
        r is Ok <==> exec.is_allowed,
        r matches Err(m) ==> m@ == unauthorized_message(),
{
    if !exec.is_allowed {
        return Err(
            String::from_str("Security Error: Attempted to apply an unauthorized execution plan."),
        );
    }
    Ok(())
}

/// The `{:?}` rendering of an exit code.
pub open spec fn exit_code_text(code: Option<i32>) -> Seq<char> {
    match code {
        None => "None"@,
        Some(c) => "Some("@ + (if c < 0 {
            seq!['-'] + decimal((-c) as nat)
        } else {
            decimal(c as nat)
        }) + ")"@,
    }
}

/// The judgement on one command that ran: a failure stops the transaction
/// with the command and its exit code.
pub fn step_outcome(shell: &str, success: bool, code: Option<i32>) -> (r: Result<(), String>)
    ensures
        r is Ok <==> success,
        r matches Err(m) ==> m@ == "Command ["@ + shell@ + "] failed with exit code: "@
            + exit_code_text(code),
{
    if success {
        return Ok(());
    }
    let mut m = String::from_str("Command [");
    m.append(shell);
    m.append("] failed with exit code: ");
    match code {
        None => {
            m.append("None");
        },
        Some(c) => {
            let ghost before = m@;
            m.append("Some(");
            if c < 0 {
                push_char(&mut m, '-');
                let a: i64 = -(c as i64);
                push_decimal(&mut m, a as u128);
            } else {
                push_decimal(&mut m, c as u128);
            }
            m.append(")");
            assert(m@ =~= before + exit_code_text(code));
        },
    }
    Err(m)
}

// ----- journal ----------------------------------------------------------

/// The journal lines written before any command runs: a header, every
/// command of the list indented by two spaces, and the start of the log.
pub open spec fn journal_opening(list: Seq<InstructionView>) -> Seq<Seq<char>> {
    seq!["\n--- Start of Transaction ---"@, "Full execution plan:"@] + list.map_values(
        |i: InstructionView| "  "@ + i.shell_string,
    ) + seq!["------------------------------"@, "\nExecution Log:"@]
}

/// The journal lines before a run (see `journal_opening`).
pub fn journal_lines_before(exec: &Exec) -> (r: Vec<String>)
    ensures
        r.deep_view() == journal_opening(exec@.list),
{
    let ghost list = exec@.list;
    let mut r: Vec<String> = Vec::new();
    r.push(String::from_str("\n--- Start of Transaction ---"));
    r.push(String::from_str("Full execution plan:"));
    let ghost head = seq!["\n--- Start of Transaction ---"@, "Full execution plan:"@];
    assert(r.deep_view() =~= head);
    let mut i: usize = 0;
    while i < exec.list.len()
        invariant
            list == exec@.list,
            i <= exec.list.len(),
            r.deep_view() =~= head + list.take(i as int).map_values(
                |x: InstructionView| "  "@ + x.shell_string,
            ),
        decreases exec.list.len() - i,
    {
        let ghost before = r.deep_view();
        r.push(concat2("  ", exec.list[i].shell_string.as_str()));
        assert(list[i as int] == exec.list@[i as int]@);
        assert(list.take(i + 1).map_values(|x: InstructionView| "  "@ + x.shell_string)
            =~= list.take(i as int).map_values(|x: InstructionView| "  "@ + x.shell_string).push(
            "  "@ + list[i as int].shell_string,
        ));
        assert(r.deep_view() =~= before.push("  "@ + list[i as int].shell_string));
        i = i + 1;
    }
    assert(list.take(exec.list.len() as int) =~= list);
    let ghost mid = r.deep_view();
    r.push(String::from_str("------------------------------"));
    r.push(String::from_str("\nExecution Log:"));
    assert(r.deep_view() =~= mid + seq!["------------------------------"@, "\nExecution Log:"@]);
    r
}

/// The journal line before a command runs.
pub fn journal_intent(shell: &str) -> (r: String)
    ensures
        r@ == "INTENT: "@ + shell@,
{
    concat2("INTENT: ", shell)
}

/// The journal line after a command succeeded.
pub fn journal_success(shell: &str) -> (r: String)
    ensures
        r@ == "SUCCESS: "@ + shell@,
{
    concat2("SUCCESS: ", shell)
}

/// The journal line after a command failed.
pub fn journal_failure(shell: &str) -> (r: String)
    ensures
        r@ == "FAILED: "@ + shell@,
{
    concat2("FAILED: ", shell)
}

/// The journal line after every command succeeded.
pub fn journal_closing() -> (r: String)
    ensures
        r@ == "--- End of Transaction (SUCCESS) ---\n"@,
{
    String::from_str("--- End of Transaction (SUCCESS) ---\n")
}

// ----- laws -------------------------------------------------------------

/// An instruction that replaces `/etc/fstab`: `mv <file> /etc/fstab`.
pub open spec fn replaces_fstab(i: InstructionView) -> bool {
    i.program == "mv"@ && i.args.len() == 2 && i.args[1] == "/etc/fstab"@
}

/// The three steps that update `/etc/fstab` for one entry: copy it to a
/// temporary file, append the entry there, and rename the file over it.
pub open spec fn fstab_update(device: Seq<char>, path: Seq<char>, fs: Filesystem) -> Seq<
    InstructionView,
> {
    call_instructions(CallView::Fstab { device, path, fs })->Ok_0
}

proof fn lemma_only_fstab_calls_replace(c: CallView, j: int)
    requires
        call_instructions(c) is Ok,
        0 <= j < call_instructions(c)->Ok_0.len(),
        replaces_fstab(call_instructions(c)->Ok_0[j]),
    ensures
        c is Fstab,
        j == 2,
{
    reveal_strlit("mv");
    reveal_strlit("pvcreate");
    reveal_strlit("vgcreate");
    reveal_strlit("lvcreate");
    reveal_strlit("mkfs");
    reveal_strlit("mkdir");
    reveal_strlit("mount");
    reveal_strlit("mkswap");
    reveal_strlit("swapon");
    reveal_strlit("cp");
    reveal_strlit("sh");
    let b = call_instructions(c)->Ok_0;
    assert(b[j].program == "mv"@);
    match c {
        CallView::Fstab { .. } => {
            assert(b[0].program == "cp"@);
            assert(b[1].program == "sh"@);
            assert("cp"@[0] != "mv"@[0]);
            assert("sh"@[0] != "mv"@[0]);
        },
        CallView::PvCreate(_) => {
            assert("pvcreate"@.len() != "mv"@.len());
        },
        CallView::VgCreate { .. } => {
            assert("vgcreate"@.len() != "mv"@.len());
        },
        CallView::LvCreate { .. } => {
            assert("lvcreate"@.len() != "mv"@.len());
        },
        CallView::Mkfs { .. } => {
            assert("mkfs"@.len() != "mv"@.len());
        },
        CallView::Mkdir(_) => {
            assert("mkdir"@.len() != "mv"@.len());
        },
        CallView::Mount { .. } => {
            assert("mount"@.len() != "mv"@.len());
        },
        CallView::MkSwap(_) => {
            assert("mkswap"@.len() != "mv"@.len());
            assert("swapon"@.len() != "mv"@.len());
        },
    }
}

/// Whether the instruction at `i` is the last of an fstab update whose
/// three steps end at `i`.
pub open spec fn ends_fstab_update(list: Seq<InstructionView>, i: int) -> bool {
    exists|device: Seq<char>, path: Seq<char>, fs: Filesystem|
        i >= 2 && #[trigger] fstab_update(device, path, fs) == list.subrange(i - 2, i + 1)
}

proof fn lemma_compile_replacements(calls: Seq<CallView>, n: nat)
    requires
        n <= calls.len(),
        compile(calls, n) is Ok,
    ensures
        forall|i: int|
            0 <= i < compile(calls, n)->Ok_0.len() && replaces_fstab(
                #[trigger] compile(calls, n)->Ok_0[i],
            ) ==> ends_fstab_update(compile(calls, n)->Ok_0, i),
    decreases n,
{
    if n > 0 {
        let m = (n - 1) as nat;
        lemma_compile_replacements(calls, m);
        let body = compile(calls, m)->Ok_0;
        let more = call_instructions(calls[m as int])->Ok_0;
        let all = compile(calls, n)->Ok_0;
        assert(all == body + more);
        assert forall|i: int| 0 <= i < all.len() && replaces_fstab(#[trigger] all[i]) implies ends_fstab_update(
            all,
            i,
        ) by {
            if i < body.len() {
                assert(all[i] == body[i]);
                assert(ends_fstab_update(body, i));
                let (device, path, fs) = choose|device: Seq<char>, path: Seq<char>, fs: Filesystem|
                    i >= 2 && #[trigger] fstab_update(device, path, fs) == body.subrange(i - 2, i + 1);
                assert(all.subrange(i - 2, i + 1) =~= body.subrange(i - 2, i + 1));
                assert(fstab_update(device, path, fs) == all.subrange(i - 2, i + 1));
            } else {
                let j = i - body.len();
                assert(all[i] == more[j]);
                lemma_only_fstab_calls_replace(calls[m as int], j);
                match calls[m as int] {
                    CallView::Fstab { device, path, fs } => {
                        assert(all.subrange(i - 2, i + 1) =~= more);
                        assert(fstab_update(device, path, fs) == all.subrange(i - 2, i + 1));
                    },
                    _ => {},
                }
            }
        }
    }
}

/// Safe fstab management: in every execution list, `/etc/fstab` is only
/// ever replaced by renaming a temporary file over it, right after that
/// file was made as a copy of `/etc/fstab` and the entry appended to it;
/// and a list that touches `/etc/fstab` begins with a backup of it and
/// ends with the reload of the mount units.
pub proof fn law_fstab_replaced_atomically(d: DraftView)
    ensures
        spec_exec_provision(d) matches Ok(x) ==> {
            &&& forall|i: int|
                0 <= i < x.list.len() && replaces_fstab(#[trigger] x.list[i]) ==> ends_fstab_update(
                    x.list,
                    i,
                )
            &&& has_fstab(d.draft) ==> x.list.len() >= 2 && x.list[0] == backup_instruction()
                && x.list.last() == reload_instruction()
        },
{
    if let Ok(x) = spec_exec_provision(d) {
        let body = compile(d.draft, d.draft.len())->Ok_0;
        lemma_compile_replacements(d.draft, d.draft.len());
        reveal_strlit("mv");
        reveal_strlit("cp");
        reveal_strlit("systemctl");
        if has_fstab(d.draft) {
            let head = seq![backup_instruction()];
            let tail = seq![reload_instruction()];
            assert(x.list == head + body + tail);
            assert forall|i: int|
                0 <= i < x.list.len() && replaces_fstab(#[trigger] x.list[i]) implies ends_fstab_update(
                    x.list,
                    i,
                ) by {
                if i == 0 {
                    assert("cp"@[0] != "mv"@[0]);
                } else if i == x.list.len() - 1 {
                    assert(x.list[i] == reload_instruction());
                    assert("systemctl"@.len() != "mv"@.len());
                } else {
                    let j = i - 1;
                    assert(x.list[i] == body[j]);
                    let (device, path, fs) = choose|device: Seq<char>, path: Seq<char>, fs: Filesystem|
                        j >= 2 && #[trigger] fstab_update(device, path, fs) == body.subrange(j - 2, j + 1);
                    assert(x.list.subrange(i - 2, i + 1) =~= body.subrange(j - 2, j + 1));
                    assert(fstab_update(device, path, fs) == x.list.subrange(i - 2, i + 1));
                }
            }
        } else {
            assert(x.list =~= body);
        }
    }
}

/// How many commands one call compiles to.
pub open spec fn weight(c: CallView) -> nat {
    match c {
        CallView::Fstab { .. } => 3,
        CallView::MkSwap(_) => 2,
        _ => 1,
    }
}

/// How many commands the first `n` calls compile to.
pub open spec fn total_weight(calls: Seq<CallView>, n: nat) -> nat
    decreases n,
{
    if n == 0 {
        0
    } else {
        total_weight(calls, (n - 1) as nat) + weight(calls[n - 1])
    }
}

/// Whether a group among the first `n` calls has an extent size that is
/// not counted in bytes.
pub open spec fn relative_group_upto(calls: Seq<CallView>, n: nat) -> bool {
    exists|i: int|
        0 <= i < n && (#[trigger] calls[i]) is VgCreate
            && calls[i]->VgCreate_pe_size.spec_bytes() is None
}

proof fn lemma_call_instructions_shape(c: CallView)
    ensures
        call_instructions(c) is Err <==> (c is VgCreate && c->VgCreate_pe_size.spec_bytes() is None),
        call_instructions(c) matches Err(e) ==> e == relative_size_message(),
        call_instructions(c) matches Ok(b) ==> b.len() == weight(c) && forall|j: int|
            0 <= j < b.len() ==> (#[trigger] b[j]).shell_string != backup_instruction().shell_string
                && b[j].shell_string != reload_instruction().shell_string,
{
    reveal_strlit("cp -p /etc/fstab /etc/fstab.bak");
    reveal_strlit("systemctl daemon-reload");
    reveal_strlit("pvcreate -y ");
    reveal_strlit("vgcreate -s ");
    reveal_strlit("lvcreate -y -n ");
    reveal_strlit("mkfs -t ");
    reveal_strlit("mkdir -p ");
    reveal_strlit("mount ");
    reveal_strlit("mkswap ");
    reveal_strlit("swapon ");
    reveal_strlit("cp -p /etc/fstab ");
    reveal_strlit("mv ");
    reveal_strlit("ID=$(blkid -s UUID -o value ");
    reveal_strlit("/etc/fstab.");
    reveal_strlit(".tmp");
    let bk = backup_instruction().shell_string;
    let rl = reload_instruction().shell_string;
    assert(bk[0] == 'c' && rl[0] == 's' && rl[1] == 'y' && bk.len() == 31);
    if let Ok(b) = call_instructions(c) {
        assert forall|j: int| 0 <= j < b.len() implies (#[trigger] b[j]).shell_string != bk
            && b[j].shell_string != rl by {
            let t = b[j].shell_string;
            match c {
                CallView::PvCreate(p) => {
                    assert(t[0] == 'p');
                },
                CallView::VgCreate { .. } => {
                    assert(t[0] == 'v');
                },
                CallView::LvCreate { .. } => {
                    assert(t[0] == 'l');
                },
                CallView::Mkfs { .. } => {
                    assert(t[0] == 'm');
                },
                CallView::Mkdir(_) => {
                    assert(t[0] == 'm');
                },
                CallView::Mount { .. } => {
                    assert(t[0] == 'm');
                },
                CallView::MkSwap(_) => {
                    if j == 0 {
                        assert(t[0] == 'm');
                    } else {
                        assert(t[0] == 's' && t[1] == 'w');
                    }
                },
                CallView::Fstab { device, path, fs } => {
                    if j == 0 {
                        assert(t.len() > 31);
                        assert(t[0] == 'c');
                    } else if j == 1 {
                        assert(t == fstab_line(device, path, fs));
                        assert(t[0] == 'I');
                    } else {
                        assert(t[0] == 'm');
                    }
                },
            }
        }
    }
}

proof fn lemma_compile_shape(calls: Seq<CallView>, n: nat)
    requires
        n <= calls.len(),
    ensures
        compile(calls, n) is Err <==> relative_group_upto(calls, n),
        compile(calls, n) matches Err(e) ==> e == relative_size_message(),
        compile(calls, n) matches Ok(b) ==> b.len() == total_weight(calls, n) && forall|j: int|
            0 <= j < b.len() ==> (#[trigger] b[j]).shell_string != backup_instruction().shell_string
                && b[j].shell_string != reload_instruction().shell_string,
    decreases n,
{
    if n > 0 {
        let m = (n - 1) as nat;
        lemma_compile_shape(calls, m);
        lemma_call_instructions_shape(calls[m as int]);
        if relative_group_upto(calls, m) {
            let i = choose|i: int|
                0 <= i < m && (#[trigger] calls[i]) is VgCreate
                    && calls[i]->VgCreate_pe_size.spec_bytes() is None;
            assert(0 <= i < n && calls[i] is VgCreate);
        }
        if relative_group_upto(calls, n) && !relative_group_upto(calls, m) {
            let i = choose|i: int|
                0 <= i < n && (#[trigger] calls[i]) is VgCreate
                    && calls[i]->VgCreate_pe_size.spec_bytes() is None;
            assert(i == m);
        }
        if compile(calls, n) is Ok {
            let body = compile(calls, m)->Ok_0;
            let more = call_instructions(calls[m as int])->Ok_0;
            assert forall|j: int| 0 <= j < (body + more).len() implies (#[trigger] (body
                + more)[j]).shell_string != backup_instruction().shell_string && (body
                + more)[j].shell_string != reload_instruction().shell_string by {
                if j < body.len() {
                    assert((body + more)[j] == body[j]);
                } else {
                    assert((body + more)[j] == more[j - body.len()]);
                }
            }
        }
    }
}

/// The shape of an execution list: it is refused exactly when a group's
/// extent size is not counted in bytes, with the message of
/// `SizeUnit::to_bytes`; otherwise it holds one command per call (three
/// for an fstab entry, two for swap), plus the fstab backup and the
/// reload when an fstab entry is written. The backup comes only first and
/// the reload only last, each exactly once, and neither appears when no
/// fstab entry is written.
pub proof fn law_exec_list_shape(d: DraftView)
    ensures
        spec_exec_provision(d) is Err <==> relative_group_upto(d.draft, d.draft.len()),
        spec_exec_provision(d) matches Err(e) ==> e == relative_size_message(),
        spec_exec_provision(d) matches Ok(x) ==> {
            &&& x.list.len() == (if has_fstab(d.draft) {
                2nat
            } else {
                0nat
            }) + total_weight(d.draft, d.draft.len())
            &&& has_fstab(d.draft) ==> {
                &&& x.list[0] == backup_instruction()
                &&& x.list.last() == reload_instruction()
                &&& forall|i: int|
                    0 < i < x.list.len() ==> (#[trigger] x.list[i]).shell_string
                        != backup_instruction().shell_string
                &&& forall|i: int|
                    0 <= i < x.list.len() - 1 ==> (#[trigger] x.list[i]).shell_string
                        != reload_instruction().shell_string
            }
            &&& !has_fstab(d.draft) ==> forall|i: int|
                0 <= i < x.list.len() ==> (#[trigger] x.list[i]).shell_string
                    != backup_instruction().shell_string && x.list[i].shell_string
                    != reload_instruction().shell_string
        },
{
    lemma_compile_shape(d.draft, d.draft.len());
    reveal_strlit("cp");
    reveal_strlit("systemctl");
    if let Ok(x) = spec_exec_provision(d) {
        let body = compile(d.draft, d.draft.len())->Ok_0;
        reveal_strlit("cp -p /etc/fstab /etc/fstab.bak");
        reveal_strlit("systemctl daemon-reload");
        assert(backup_instruction().shell_string[0] != reload_instruction().shell_string[0]);
        if has_fstab(d.draft) {
            let l = seq![backup_instruction()] + body + seq![reload_instruction()];
            assert(x.list == l);
            assert forall|i: int| 0 < i < x.list.len() implies (#[trigger] x.list[i]).shell_string
                != backup_instruction().shell_string by {
                if i < x.list.len() - 1 {
                    assert(x.list[i] == body[i - 1]);
                }
            }
            assert forall|i: int| 0 <= i < x.list.len() - 1 implies (#[trigger] x.list[i]).shell_string
                != reload_instruction().shell_string by {
                if i > 0 {
                    assert(x.list[i] == body[i - 1]);
                }
            }
        } else {
            assert(x.list =~= body);
        }
    }
}

proof fn lemma_compile_prefix(a: Seq<CallView>, b: Seq<CallView>, n: nat)
    requires
        n <= a.len(),
    ensures
        compile(a + b, n) == compile(a, n),
    decreases n,
{
    if n > 0 {
        lemma_compile_prefix(a, b, (n - 1) as nat);
        assert((a + b)[n - 1] == a[n - 1]);
    }
}

proof fn lemma_compile_concat(a: Seq<CallView>, b: Seq<CallView>, n: nat)
    requires
        n <= b.len(),
        compile(a, a.len()) is Ok,
        compile(b, n) is Ok,
    ensures
        compile(a + b, a.len() + n) == Ok::<Seq<InstructionView>, Seq<char>>(
            compile(a, a.len())->Ok_0 + compile(b, n)->Ok_0,
        ),
    decreases n,
{
    if n == 0 {
        lemma_compile_prefix(a, b, a.len());
        assert(compile(a, a.len())->Ok_0 + Seq::<InstructionView>::empty() =~= compile(a, a.len())->Ok_0);
    } else {
        let m = (n - 1) as nat;
        lemma_compile_concat(a, b, m);
        assert((a + b)[(a.len() + m) as int] == b[m as int]);
        assert(compile(a, a.len())->Ok_0 + compile(b, m)->Ok_0 + call_instructions(b[m as int])->Ok_0
            =~= compile(a, a.len())->Ok_0 + (compile(b, m)->Ok_0 + call_instructions(
            b[m as int],
        )->Ok_0));
    }
}

/// Calls are compiled one by one, in draft order: when neither draft
/// writes an fstab entry, the list of two drafts one after the other is
/// the two lists joined.
pub proof fn law_exec_lists_join(d1: DraftView, d2: DraftView, d3: DraftView)
    requires
        d3.draft == d1.draft + d2.draft,
        !has_fstab(d1.draft),
        !has_fstab(d2.draft),
        spec_exec_provision(d1) is Ok,
        spec_exec_provision(d2) is Ok,
    ensures
        spec_exec_provision(d3) matches Ok(x3) && x3.list == spec_exec_provision(d1)->Ok_0.list
            + spec_exec_provision(d2)->Ok_0.list,
{
    lemma_compile_concat(d1.draft, d2.draft, d2.draft.len());
    assert(!has_fstab(d3.draft)) by {
        if has_fstab(d3.draft) {
            let i = choose|i: int| 0 <= i < d3.draft.len() && (#[trigger] d3.draft[i]) is Fstab;
            if i < d1.draft.len() {
                assert(d3.draft[i] == d1.draft[i]);
            } else {
                assert(d3.draft[i] == d2.draft[i - d1.draft.len()]);
            }
        }
    }
    let b1 = compile(d1.draft, d1.draft.len())->Ok_0;
    let b2 = compile(d2.draft, d2.draft.len())->Ok_0;
    assert(spec_exec_provision(d1)->Ok_0.list =~= b1);
    assert(spec_exec_provision(d2)->Ok_0.list =~= b2);
    assert(spec_exec_provision(d3)->Ok_0.list =~= b1 + b2);
}

/// The arguments as a shell line shows them: each after a space, the
/// ones marked in `quote` between double quotes.
pub open spec fn rendered(args: Seq<Seq<char>>, quote: Seq<bool>) -> Seq<char>
    decreases args.len(),
{
    if args.len() == 0 {
        Seq::empty()
    } else {
        rendered(args.drop_last(), quote.drop_last()) + " "@ + (if quote.last() {
            dq(args.last())
        } else {
            args.last()
        })
    }
}

/// Whether the text shown for a command is its program and arguments:
/// for `sh`, the script itself; for any other program, the program name
/// and its arguments, paths between double quotes.
pub open spec fn shows_its_command(i: InstructionView) -> bool {
    if i.program == "sh"@ {
        i.args.len() == 2 && i.args[0] == "-c"@ && i.shell_string == i.args[1]
    } else {
        exists|q: Seq<bool>|
            q.len() == i.args.len() && i.shell_string == i.program + #[trigger] rendered(i.args, q)
    }
}

/// A `vgcreate` that names no physical volume: its text ends in a space
/// after the group name.
pub open spec fn bare_group(i: InstructionView) -> bool {
    i.program == "vgcreate"@ && i.args.len() == 3
}

proof fn lemma_rendered_concat(a: Seq<Seq<char>>, qa: Seq<bool>, b: Seq<Seq<char>>, qb: Seq<bool>)
    requires
        qa.len() == a.len(),
        qb.len() == b.len(),
    ensures
        rendered(a + b, qa + qb) == rendered(a, qa) + rendered(b, qb),
    decreases b.len(),
{
    if b.len() == 0 {
        assert(a + b =~= a);
        assert(qa + qb =~= qa);
        assert(rendered(a, qa) + rendered(b, qb) =~= rendered(a, qa));
    } else {
        lemma_rendered_concat(a, qa, b.drop_last(), qb.drop_last());
        assert((a + b).drop_last() =~= a + b.drop_last());
        assert((qa + qb).drop_last() =~= qa + qb.drop_last());
        assert((a + b).last() == b.last());
        assert((qa + qb).last() == qb.last());
        let t = if qb.last() {
            dq(b.last())
        } else {
            b.last()
        };
        assert(rendered(a, qa) + rendered(b.drop_last(), qb.drop_last()) + " "@ + t =~= rendered(
            a,
            qa,
        ) + (rendered(b.drop_last(), qb.drop_last()) + " "@ + t));
    }
}

/// All quoted: a space and the joined paths.
proof fn lemma_rendered_paths(pvs: Seq<Seq<char>>)
    requires
        pvs.len() >= 1,
    ensures
        rendered(pvs, Seq::new(pvs.len(), |k: int| true)) == " "@ + joined_paths(pvs),
    decreases pvs.len(),
{
    let q = Seq::new(pvs.len(), |k: int| true);
    if pvs.len() == 1 {
        assert(pvs.drop_last().len() == 0);
        assert(rendered(pvs.drop_last(), q.drop_last()) =~= Seq::<char>::empty());
        assert(" "@ + dq(pvs[0]) =~= Seq::<char>::empty() + " "@ + dq(pvs.last()));
    } else {
        lemma_rendered_paths(pvs.drop_last());
        assert(q.drop_last() =~= Seq::new(pvs.drop_last().len(), |k: int| true));
        assert(" "@ + joined_paths(pvs.drop_last()) + " "@ + dq(pvs.last()) =~= " "@ + (
        joined_paths(pvs.drop_last()) + " "@ + dq(pvs.last())));
    }
}

proof fn lemma_rendered_push(args: Seq<Seq<char>>, q: Seq<bool>, x: Seq<char>, b: bool)
    ensures
        rendered(args.push(x), q.push(b)) == rendered(args, q) + " "@ + (if b {
            dq(x)
        } else {
            x
        }),
{
    assert(args.push(x).drop_last() =~= args);
    assert(q.push(b).drop_last() =~= q);
}

/// One argument, two, three: the rendering spelled out.
proof fn lemma_rendered_small(x: Seq<char>, y: Seq<char>, z: Seq<char>, bx: bool, by: bool, bz: bool)
    ensures
        rendered(seq![x], seq![bx]) == " "@ + (if bx {
            dq(x)
        } else {
            x
        }),
        rendered(seq![x, y], seq![bx, by]) == " "@ + (if bx {
            dq(x)
        } else {
            x
        }) + " "@ + (if by {
            dq(y)
        } else {
            y
        }),
        rendered(seq![x, y, z], seq![bx, by, bz]) == " "@ + (if bx {
            dq(x)
        } else {
            x
        }) + " "@ + (if by {
            dq(y)
        } else {
            y
        }) + " "@ + (if bz {
            dq(z)
        } else {
            z
        }),
{
    let e = Seq::<Seq<char>>::empty();
    let qe = Seq::<bool>::empty();
    assert(rendered(e, qe) == Seq::<char>::empty());
    lemma_rendered_push(e, qe, x, bx);
    assert(e.push(x) =~= seq![x]);
    assert(qe.push(bx) =~= seq![bx]);
    lemma_rendered_push(seq![x], seq![bx], y, by);
    assert(seq![x].push(y) =~= seq![x, y]);
    assert(seq![bx].push(by) =~= seq![bx, by]);
    lemma_rendered_push(seq![x, y], seq![bx, by], z, bz);
    assert(seq![x, y].push(z) =~= seq![x, y, z]);
    assert(seq![bx, by].push(bz) =~= seq![bx, by, bz]);
    let tx = if bx {
        dq(x)
    } else {
        x
    };
    assert(Seq::<char>::empty() + " "@ + tx =~= " "@ + tx);
}

proof fn lemma_shows_simple(c: CallView)
    requires
        call_instructions(c) is Ok,
        c is PvCreate || c is Mkdir || c is MkSwap || c is Mount || c is Mkfs,
    ensures
        forall|j: int|
            0 <= j < call_instructions(c)->Ok_0.len() ==> shows_its_command(
                #[trigger] call_instructions(c)->Ok_0[j],
            ),
{
    reveal_strlit("sh");
    reveal_strlit("pvcreate");
    reveal_strlit("mkfs");
    reveal_strlit("mkdir");
    reveal_strlit("mount");
    reveal_strlit("mkswap");
    reveal_strlit("swapon");
    reveal_strlit("pvcreate -y ");
    reveal_strlit("-y");
    reveal_strlit("mkdir -p ");
    reveal_strlit("-p");
    reveal_strlit("mkswap ");
    reveal_strlit("swapon ");
    reveal_strlit("mount ");
    reveal_strlit("mkfs -t ");
    reveal_strlit("-t");
    reveal_strlit(" ");
    let b = call_instructions(c)->Ok_0;
    match c {
        CallView::PvCreate(p) => {
            lemma_rendered_small("-y"@, p, p, false, true, true);
            assert(b[0].shell_string =~= b[0].program + rendered(b[0].args, seq![false, true]));
            assert("pvcreate"@[0] != "sh"@[0]);
        },
        CallView::Mkdir(p) => {
            lemma_rendered_small("-p"@, p, p, false, true, true);
            assert(b[0].shell_string =~= b[0].program + rendered(b[0].args, seq![false, true]));
            assert("mkdir"@[0] != "sh"@[0]);
        },
        CallView::MkSwap(d) => {
            lemma_rendered_small(d, d, d, true, true, true);
            assert(b[0].shell_string =~= b[0].program + rendered(b[0].args, seq![true]));
            assert(b[1].shell_string =~= b[1].program + rendered(b[1].args, seq![true]));
            assert("mkswap"@[0] != "sh"@[0] && "swapon"@.len() != "sh"@.len());
        },
        CallView::Mount { device, path } => {
            lemma_rendered_small(device, path, path, true, true, true);
            assert(b[0].shell_string =~= b[0].program + rendered(b[0].args, seq![true, true]));
            assert("mount"@[0] != "sh"@[0]);
        },
        CallView::Mkfs { device, fs } => {
            lemma_rendered_small("-t"@, fs.spec_name(), device, false, false, true);
            assert(b[0].shell_string =~= b[0].program + rendered(
                b[0].args,
                seq![false, false, true],
            ));
            assert("mkfs"@[0] != "sh"@[0]);
        },
        _ => {},
    }
}

proof fn lemma_shows_lv(vg: Seq<char>, name: Seq<char>, size: SizeUnit)
    ensures
        forall|j: int|
            0 <= j < call_instructions(CallView::LvCreate { vg, name, size })->Ok_0.len()
                ==> shows_its_command(
                #[trigger] call_instructions(CallView::LvCreate { vg, name, size })->Ok_0[j],
            ),
{
    reveal_strlit("sh");
    reveal_strlit("lvcreate");
    reveal_strlit("lvcreate -y -n ");
    reveal_strlit("-y");
    reveal_strlit("-n");
    reveal_strlit(" ");
    let b = call_instructions(CallView::LvCreate { vg, name, size })->Ok_0;
    let (flag, val) = lv_size_arg(size);
    let a3 = seq!["-y"@, "-n"@, name];
    let q3 = seq![false, false, false];
    lemma_rendered_small("-y"@, "-n"@, name, false, false, false);
    lemma_rendered_push(a3, q3, flag, false);
    lemma_rendered_push(a3.push(flag), q3.push(false), val, false);
    lemma_rendered_push(a3.push(flag).push(val), q3.push(false).push(false), vg, false);
    let q = q3.push(false).push(false).push(false);
    assert(b[0].args =~= a3.push(flag).push(val).push(vg));
    assert(b[0].shell_string =~= b[0].program + rendered(b[0].args, q));
    assert("lvcreate"@[0] != "sh"@[0]);
}

proof fn lemma_shows_vg(name: Seq<char>, pvs: Seq<Seq<char>>, pe_size: SizeUnit)
    requires
        pe_size.spec_bytes() is Some,
        pvs.len() > 0,
    ensures
        forall|j: int|
            0 <= j < call_instructions(CallView::VgCreate { name, pvs, pe_size })->Ok_0.len()
                ==> shows_its_command(
                #[trigger] call_instructions(CallView::VgCreate { name, pvs, pe_size })->Ok_0[j],
            ),
{
    reveal_strlit("sh");
    reveal_strlit("vgcreate");
    reveal_strlit("vgcreate -s ");
    reveal_strlit("-s");
    reveal_strlit(" ");
    let b = call_instructions(CallView::VgCreate { name, pvs, pe_size })->Ok_0;
    let pe = decimal(pe_size.spec_bytes()->0) + "B"@;
    let head = seq!["-s"@, pe, name];
    let qh = seq![false, false, false];
    let qp = Seq::new(pvs.len(), |k: int| true);
    lemma_rendered_small("-s"@, pe, name, false, false, false);
    lemma_rendered_paths(pvs);
    lemma_rendered_concat(head, qh, pvs, qp);
    assert(b[0].args == head + pvs);
    assert(b[0].shell_string =~= b[0].program + rendered(b[0].args, qh + qp));
    assert((qh + qp).len() == b[0].args.len());
    assert("vgcreate"@[0] != "sh"@[0]);
}

proof fn lemma_shows_fstab(device: Seq<char>, path: Seq<char>, fs: Filesystem)
    ensures
        forall|j: int|
            0 <= j < call_instructions(CallView::Fstab { device, path, fs })->Ok_0.len()
                ==> shows_its_command(
                #[trigger] call_instructions(CallView::Fstab { device, path, fs })->Ok_0[j],
            ),
{
    reveal_strlit("sh");
    reveal_strlit("cp");
    reveal_strlit("mv");
    reveal_strlit("-c");
    reveal_strlit("cp -p /etc/fstab ");
    reveal_strlit("-p");
    reveal_strlit("/etc/fstab");
    reveal_strlit(" ");
    reveal_strlit("mv ");
    reveal_strlit(" /etc/fstab");
    let b = call_instructions(CallView::Fstab { device, path, fs })->Ok_0;
    let t = fstab_tmp(fs);
    lemma_rendered_small("-p"@, "/etc/fstab"@, t, false, false, false);
    assert(b[0].shell_string =~= b[0].program + rendered(b[0].args, seq![false, false, false]));
    lemma_rendered_small(t, "/etc/fstab"@, t, false, false, false);
    assert(b[2].shell_string =~= b[2].program + rendered(b[2].args, seq![false, false]));
    assert("cp"@[0] != "sh"@[0] && "mv"@[0] != "sh"@[0]);
}

proof fn lemma_call_shows(c: CallView)
    requires
        call_instructions(c) is Ok,
    ensures
        forall|j: int|
            0 <= j < call_instructions(c)->Ok_0.len() ==> shows_its_command(
                #[trigger] call_instructions(c)->Ok_0[j],
            ) || bare_group(call_instructions(c)->Ok_0[j]),
{
    match c {
        CallView::LvCreate { vg, name, size } => lemma_shows_lv(vg, name, size),
        CallView::VgCreate { name, pvs, pe_size } => {
            if pvs.len() > 0 {
                lemma_shows_vg(name, pvs, pe_size);
            } else {
                reveal_strlit("vgcreate");
                let b = call_instructions(c)->Ok_0;
                assert(b[0].args.len() == 3);
            }
        },
        CallView::Fstab { device, path, fs } => lemma_shows_fstab(device, path, fs),
        _ => lemma_shows_simple(c),
    }
}

/// What you see is what runs: in every execution list, the text shown
/// for a command is its program and its arguments (paths between double
/// quotes), and a shell step shows exactly the script it runs, on every
/// draft. The one exception is a `vgcreate` that names no physical
/// volume, whose text ends in a space after the group name.
pub proof fn law_shown_text_is_the_command(d: DraftView)
    ensures
        spec_exec_provision(d) matches Ok(x) ==> forall|i: int|
            0 <= i < x.list.len() ==> shows_its_command(#[trigger] x.list[i]) || bare_group(
                x.list[i],
            ),
{
    lemma_compile_shows(d.draft, d.draft.len());
    reveal_strlit("cp");
    reveal_strlit("sh");
    reveal_strlit("systemctl");
    reveal_strlit("-p");
    reveal_strlit("/etc/fstab");
    reveal_strlit("/etc/fstab.bak");
    reveal_strlit("daemon-reload");
    reveal_strlit("cp -p /etc/fstab /etc/fstab.bak");
    reveal_strlit("systemctl daemon-reload");
    reveal_strlit(" ");
    if let Ok(x) = spec_exec_provision(d) {
        let body = compile(d.draft, d.draft.len())->Ok_0;
        let e = Seq::<Seq<char>>::empty();
        let qe = Seq::<bool>::empty();
        assert(rendered(e, qe) == Seq::<char>::empty());
        let bk = backup_instruction();
        let q3 = seq![false, false, false];
        lemma_rendered_small("-p"@, "/etc/fstab"@, "/etc/fstab.bak"@, false, false, false);
        assert(bk.shell_string =~= bk.program + rendered(bk.args, q3));
        assert(shows_its_command(bk)) by {
            assert("cp"@[0] != "sh"@[0]);
        }
        let rl = reload_instruction();
        let q1 = seq![false];
        lemma_rendered_small("daemon-reload"@, "daemon-reload"@, "daemon-reload"@, false, false, false);
        assert(rl.shell_string =~= rl.program + rendered(rl.args, q1));
        assert(shows_its_command(rl)) by {
            assert("systemctl"@.len() != "sh"@.len());
        }
        if has_fstab(d.draft) {
            assert(x.list == seq![bk] + body + seq![rl]);
            assert forall|i: int| 0 <= i < x.list.len() implies shows_its_command(#[trigger] x.list[i])
                || bare_group(x.list[i]) by {
                if i == 0 {
                } else if i == x.list.len() - 1 {
                } else {
                    assert(x.list[i] == body[i - 1]);
                }
            }
        } else {
            assert(x.list =~= body);
        }
    }
}

proof fn lemma_compile_shows(calls: Seq<CallView>, n: nat)
    requires
        n <= calls.len(),
    ensures
        compile(calls, n) matches Ok(b) ==> forall|j: int|
            0 <= j < b.len() ==> shows_its_command(#[trigger] b[j]) || bare_group(b[j]),
    decreases n,
{
    if n > 0 {
        let m = (n - 1) as nat;
        lemma_compile_shows(calls, m);
        if compile(calls, n) is Ok {
            let c = calls[m as int];
            lemma_call_shows(c);
            let body = compile(calls, m)->Ok_0;
            let more = call_instructions(c)->Ok_0;
            assert forall|j: int| 0 <= j < (body + more).len() implies shows_its_command(
                #[trigger] (body + more)[j],
            ) || bare_group((body + more)[j]) by {
                if j < body.len() {
                    assert((body + more)[j] == body[j]);
                } else {
                    assert((body + more)[j] == more[j - body.len()]);
                }
            }
        }
    }
}

/// The size given to `lvcreate`, stated from the size alone: a size in
/// bytes is passed as `-L <bytes>B` with exactly its byte count; an
/// extent count as `-l <count>`; a percentage as `-l <k>%FREE`,
/// `-l <k>%VG` or `-l <k>%PVS`. The command creates the named volume in
/// the group, and its text shows the same arguments.
pub proof fn law_lvcreate_size(vg: Seq<char>, name: Seq<char>, size: SizeUnit)
    ensures
        ({
            let (flag, val) = match size {
                SizeUnit::Extents(e) => ("-l"@, decimal(e as nat)),
                SizeUnit::Percentage(p, t) => (
                    "-l"@,
                    decimal(p.spec_get() as nat) + "%"@ + match t {
                        PercentTarget::Free => "FREE"@,
                        PercentTarget::Vg => "VG"@,
                        PercentTarget::Pvs => "PVS"@,
                    },
                ),
                _ => ("-L"@, decimal(size.spec_bytes()->0) + "B"@),
            };
            call_instructions(CallView::LvCreate { vg, name, size }) == Ok::<
                Seq<InstructionView>,
                Seq<char>,
            >(
                seq![
                    InstructionView {
                        shell_string: "lvcreate -y -n "@ + name + " "@ + flag + " "@ + val + " "@
                            + vg,
                        program: "lvcreate"@,
                        args: seq!["-y"@, "-n"@, name, flag, val, vg],
                    },
                ],
            )
        }),
{
}

/// Formatting uses the filesystem of the call: the `-t` argument of the
/// compiled `mkfs` reads back as that filesystem, and the device is the
/// call's device.
pub proof fn law_mkfs_uses_its_filesystem(device: Seq<char>, fs: Filesystem)
    ensures
        call_instructions(CallView::Mkfs { device, fs }) matches Ok(b) && b.len() == 1
            && b[0].program == "mkfs"@ && b[0].args.len() == 3 && b[0].args[0] == "-t"@
            && spec_parse_fs(b[0].args[1]) == Ok::<Filesystem, Seq<char>>(fs) && b[0].args[2]
            == device,
{
    law_filesystem_names_read_back(fs);
}

} // verus!
