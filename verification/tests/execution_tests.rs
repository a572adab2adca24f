use lib::execution::{journal_closing, journal_failure, journal_intent, journal_lines_before, journal_success};
use lib::domain::{Call, Draft, DraftStatus, Exec, Filesystem, Instruction, SizeUnit, ValidPercentage, PercentTarget};
use lib::execution::{authorize_apply, confirm_execution, exec_provision, reply_is_yes, step_outcome};

fn draft(calls: Vec<Call>) -> Draft {
    Draft {
        draft_type: "provision".into(),
        draft: calls,
        status: DraftStatus::Ready,
        auto_confirm: false,
        warnings: vec!["w".into()],
    }
}

fn shells(e: &Exec) -> Vec<String> {
    e.list.iter().map(|i| i.shell_string.clone()).collect()
}

#[test]
fn compiles_pv_vg_lv() {
    let calls = vec![
        Call::PvCreate("/dev/sdb".into()),
        Call::PvCreate("/dev/sdc".into()),
        Call::VgCreate {
            name: "vg".into(),
            pvs: vec!["/dev/sdb".into(), "/dev/sdc".into()],
            pe_size: SizeUnit::Megabytes(4),
        },
        Call::LvCreate { vg: "vg".into(), name: "a".into(), size: SizeUnit::Gigabytes(10) },
        Call::LvCreate { vg: "vg".into(), name: "b".into(), size: SizeUnit::Extents(100) },
        Call::LvCreate {
            vg: "vg".into(),
            name: "c".into(),
            size: SizeUnit::Percentage(ValidPercentage::new(100).unwrap(), PercentTarget::Free),
        },
    ];
    let e = exec_provision(draft(calls)).unwrap();
    assert_eq!(
        shells(&e),
        vec![
            "pvcreate -y \"/dev/sdb\"",
            "pvcreate -y \"/dev/sdc\"",
            "vgcreate -s 4194304B vg \"/dev/sdb\" \"/dev/sdc\"",
            "lvcreate -y -n a -L 10737418240B vg",
            "lvcreate -y -n b -l 100 vg",
            "lvcreate -y -n c -l 100%FREE vg",
        ]
    );
    assert_eq!(e.list[0], Instruction {
        shell_string: "pvcreate -y \"/dev/sdb\"".into(),
        program: "pvcreate".into(),
        args: vec!["-y".into(), "/dev/sdb".into()],
    });
    assert_eq!(e.list[2].args, vec!["-s", "4194304B", "vg", "/dev/sdb", "/dev/sdc"]);
    assert_eq!(e.list[3].args, vec!["-y", "-n", "a", "-L", "10737418240B", "vg"]);
    assert!(!e.is_allowed);
    assert!(!e.auto_confirm);
    assert_eq!(e.warnings, vec!["w".to_string()]);
}

#[test]
fn compiles_filesystem_mount_and_fstab() {
    let dev = "/dev/vg/data".to_string();
    let calls = vec![
        Call::Mkfs { device: dev.clone(), fs: Filesystem::Xfs },
        Call::Mkdir("/mnt/data".into()),
        Call::Mount { device: dev.clone(), path: "/mnt/data".into() },
        Call::Fstab { device: dev.clone(), path: "/mnt/data".into(), fs: Filesystem::Xfs },
        Call::MkSwap("/dev/vg/swap".into()),
        Call::Fstab { device: "/dev/vg/swap".into(), path: "none".into(), fs: Filesystem::Swap },
    ];
    let e = exec_provision(draft(calls)).unwrap();
    let s = shells(&e);
    assert_eq!(s.len(), 13);
    assert_eq!(s[0], "cp -p /etc/fstab /etc/fstab.bak");
    assert_eq!(s[1], "mkfs -t xfs \"/dev/vg/data\"");
    assert_eq!(s[2], "mkdir -p \"/mnt/data\"");
    assert_eq!(s[3], "mount \"/dev/vg/data\" \"/mnt/data\"");
    assert_eq!(s[4], "cp -p /etc/fstab /etc/fstab.xfs.tmp");
    assert_eq!(
        s[5],
        "ID=$(blkid -s UUID -o value /dev/vg/data); if [ -z \"$ID\" ]; then ID=/dev/vg/data; else ID=\"UUID=$ID\"; fi; echo \"$ID /mnt/data xfs defaults 0 2\" >> /etc/fstab.xfs.tmp"
    );
    assert_eq!(e.list[5].program, "sh");
    assert_eq!(e.list[5].args[0], "-c");
    assert_eq!(e.list[5].args[1], s[5]);
    assert_eq!(s[6], "mv /etc/fstab.xfs.tmp /etc/fstab");
    assert_eq!(s[7], "mkswap \"/dev/vg/swap\"");
    assert_eq!(s[8], "swapon \"/dev/vg/swap\"");
    assert_eq!(
        s[10],
        "ID=$(blkid -s UUID -o value /dev/vg/swap); if [ -z \"$ID\" ]; then ID=/dev/vg/swap; else ID=\"UUID=$ID\"; fi; echo \"$ID none swap sw 0 0\" >> /etc/fstab.swap.tmp"
    );
    assert_eq!(s[12], "systemctl daemon-reload");
    assert_eq!(e.list[12].args, vec!["daemon-reload"]);
}

#[test]
fn no_fstab_no_backup() {
    let e = exec_provision(draft(vec![Call::Mkdir("/x".into())])).unwrap();
    assert_eq!(shells(&e), vec!["mkdir -p \"/x\""]);
}

#[test]
fn relative_pe_size_fails() {
    let calls = vec![Call::VgCreate { name: "vg".into(), pvs: vec![], pe_size: SizeUnit::Extents(1) }];
    assert_eq!(
        exec_provision(draft(calls)).unwrap_err(),
        "Cannot convert a relative size (extents or percentage) to bytes"
    );
}

fn exec(auto_confirm: bool) -> Exec {
    Exec { list: vec![], auto_confirm, is_allowed: false, warnings: vec![] }
}

#[test]
fn confirmation() {
    let mut e = exec(true);
    assert!(confirm_execution(&mut e, None).is_ok());
    assert!(e.is_allowed);
    let mut e = exec(false);
    assert!(confirm_execution(&mut e, Some("  Y\n".into())).is_ok());
    assert!(e.is_allowed);
    let mut e = exec(false);
    assert_eq!(confirm_execution(&mut e, Some("y\n".into())).unwrap_err(), "Execution aborted by user.");
    assert!(!e.is_allowed);
    let mut e = exec(false);
    assert!(confirm_execution(&mut e, None).is_err());
    assert!(reply_is_yes("\tY \r\n"));
    assert!(!reply_is_yes("YY"));
    assert!(!reply_is_yes(""));
}

#[test]
fn authorization_and_steps() {
    let mut e = exec(false);
    assert_eq!(
        authorize_apply(&e).unwrap_err(),
        "Security Error: Attempted to apply an unauthorized execution plan."
    );
    e.is_allowed = true;
    assert!(authorize_apply(&e).is_ok());
    assert!(step_outcome("true", true, Some(0)).is_ok());
    assert_eq!(
        step_outcome("mkfs -t xfs \"/d\"", false, Some(1)).unwrap_err(),
        "Command [mkfs -t xfs \"/d\"] failed with exit code: Some(1)"
    );
    assert_eq!(step_outcome("x", false, None).unwrap_err(), "Command [x] failed with exit code: None");
    assert_eq!(step_outcome("x", false, Some(-2)).unwrap_err(), "Command [x] failed with exit code: Some(-2)");
}

#[test]
fn fstab_is_only_replaced_by_rename_of_a_fresh_copy() {
    let calls = vec![
        Call::Fstab { device: "/dev/vg/a".into(), path: "/a".into(), fs: Filesystem::Ext4 },
        Call::Mkdir("/b".into()),
        Call::Fstab { device: "/dev/vg/b".into(), path: "/b".into(), fs: Filesystem::Btrfs },
    ];
    let e = exec_provision(draft(calls)).unwrap();
    let mut renames = 0;
    for (i, ins) in e.list.iter().enumerate() {
        if ins.program == "mv" && ins.args.len() == 2 && ins.args[1] == "/etc/fstab" {
            renames += 1;
            let tmp = &ins.args[0];
            assert_eq!(e.list[i - 2].program, "cp");
            assert_eq!(e.list[i - 2].args, vec!["-p".to_string(), "/etc/fstab".to_string(), tmp.clone()]);
            assert_eq!(e.list[i - 1].program, "sh");
            assert!(e.list[i - 1].args[1].ends_with(&format!(">> {}", tmp)));
        }
    }
    assert_eq!(renames, 2);
    assert_eq!(e.list[0].shell_string, "cp -p /etc/fstab /etc/fstab.bak");
    assert_eq!(e.list.last().unwrap().shell_string, "systemctl daemon-reload");
}

#[test]
fn list_length_and_bookends() {
    let calls = vec![
        Call::PvCreate("/dev/sdb".into()),
        Call::Fstab { device: "/dev/vg/a".into(), path: "/a".into(), fs: Filesystem::Xfs },
        Call::MkSwap("/dev/vg/s".into()),
    ];
    let e = exec_provision(draft(calls)).unwrap();
    assert_eq!(e.list.len(), 2 + 1 + 3 + 2);
    let s = shells(&e);
    assert_eq!(s.iter().filter(|x| *x == "cp -p /etc/fstab /etc/fstab.bak").count(), 1);
    assert_eq!(s.iter().filter(|x| *x == "systemctl daemon-reload").count(), 1);
}

#[test]
fn lists_of_joined_drafts_are_joined() {
    let a = vec![Call::PvCreate("/dev/sdb".into()), Call::Mkdir("/m".into())];
    let b = vec![Call::MkSwap("/dev/vg/s".into()), Call::Mount { device: "/dev/vg/d".into(), path: "/m".into() }];
    let ea = shells(&exec_provision(draft(a.clone())).unwrap());
    let eb = shells(&exec_provision(draft(b.clone())).unwrap());
    let mut ab = a;
    ab.extend(b);
    let mut joined = ea;
    joined.extend(eb);
    assert_eq!(shells(&exec_provision(draft(ab)).unwrap()), joined);
}

#[test]
fn shown_text_is_program_and_arguments() {
    let calls = vec![
        Call::PvCreate("/dev/sdb".into()),
        Call::VgCreate { name: "vg".into(), pvs: vec!["/dev/sdb".into(), "/dev/sdc".into()], pe_size: SizeUnit::Megabytes(4) },
        Call::Mount { device: "/dev/vg/d".into(), path: "/m".into() },
    ];
    let e = exec_provision(draft(calls)).unwrap();
    assert_eq!(e.list[1].shell_string, "vgcreate -s 4194304B vg \"/dev/sdb\" \"/dev/sdc\"");
    assert_eq!(e.list[1].args, vec!["-s", "4194304B", "vg", "/dev/sdb", "/dev/sdc"]);
    assert_eq!(e.list[2].program, "mount");
    assert_eq!(e.list[2].args, vec!["/dev/vg/d", "/m"]);
}

#[test]
fn journal_text() {
    let e = exec_provision(draft(vec![Call::Mkdir("/m".into())])).unwrap();
    assert_eq!(
        journal_lines_before(&e),
        vec![
            "\n--- Start of Transaction ---",
            "Full execution plan:",
            "  mkdir -p \"/m\"",
            "------------------------------",
            "\nExecution Log:",
        ]
    );
    assert_eq!(journal_intent("x"), "INTENT: x");
    assert_eq!(journal_success("x"), "SUCCESS: x");
    assert_eq!(journal_failure("x"), "FAILED: x");
    assert_eq!(journal_closing(), "--- End of Transaction (SUCCESS) ---\n");
}
