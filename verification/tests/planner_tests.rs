use lib::domain::{Action, Call, Command, DraftStatus, Filesystem, FsMount, LvRequest, SizeUnit};
use lib::planner::{plan, plan_provision};

#[test]
fn test_swap_special_handling() {
    let lvs = vec![LvRequest {
        name: "swap_vol".into(),
        size: SizeUnit::Gigabytes(2),
        fs: Some(FsMount { fs: Filesystem::Swap, mount_path: None }),
    }];

    let plan = plan_provision(vec![], "vg0".into(), SizeUnit::Megabytes(4), lvs).unwrap();

    assert!(plan.iter().any(|c| matches!(c, Call::MkSwap(_))));
    assert!(!plan.iter().any(|c| matches!(c, Call::Mkfs { .. })));

    let has_swap_fstab = plan.iter().any(|c| {
        if let Call::Fstab { path, .. } = c {
            path == "none"
        } else {
            false
        }
    });
    assert!(has_swap_fstab);
}

#[test]
fn test_no_mount_logic() {
    let lvs = vec![LvRequest {
        name: "data".into(),
        size: SizeUnit::Gigabytes(10),
        fs: Some(FsMount { fs: Filesystem::Ext4, mount_path: None }),
    }];

    let plan = plan_provision(vec![], "vg0".into(), SizeUnit::Megabytes(4), lvs).unwrap();

    assert!(plan.iter().any(|c| matches!(c, Call::Mkfs { .. })));
    assert!(!plan.iter().any(|c| matches!(c, Call::Mkdir(_))));
    assert!(!plan.iter().any(|c| matches!(c, Call::Mount { .. })));
    assert!(!plan.iter().any(|c| matches!(c, Call::Fstab { .. })));
}

#[test]
fn plan_full_sequence() {
    let lvs = vec![
        LvRequest {
            name: "logs".into(),
            size: SizeUnit::Gigabytes(10),
            fs: Some(FsMount { fs: Filesystem::Xfs, mount_path: Some("/var/log/app".into()) }),
        },
        LvRequest { name: "raw".into(), size: SizeUnit::Extents(7), fs: None },
    ];
    let pvs = vec!["/dev/sdb".to_string(), "/dev/sdc".to_string()];
    let calls = plan_provision(pvs.clone(), "vg".into(), SizeUnit::Megabytes(4), lvs).unwrap();
    let dev = "/dev/vg/logs".to_string();
    let expected = vec![
        Call::PvCreate("/dev/sdb".into()),
        Call::PvCreate("/dev/sdc".into()),
        Call::VgCreate { name: "vg".into(), pvs, pe_size: SizeUnit::Megabytes(4) },
        Call::LvCreate { vg: "vg".into(), name: "logs".into(), size: SizeUnit::Gigabytes(10) },
        Call::Mkfs { device: dev.clone(), fs: Filesystem::Xfs },
        Call::Mkdir("/var/log/app".into()),
        Call::Mount { device: dev.clone(), path: "/var/log/app".into() },
        Call::Fstab { device: dev, path: "/var/log/app".into(), fs: Filesystem::Xfs },
        Call::LvCreate { vg: "vg".into(), name: "raw".into(), size: SizeUnit::Extents(7) },
    ];
    assert_eq!(calls, expected);
}

#[test]
fn plan_draft_wrapping() {
    for auto_confirm in [true, false] {
        let action = Action {
            auto_confirm,
            command: Command::Provision {
                pvs: vec!["/dev/sdb".into()],
                vg_name: "vg0".into(),
                pe_size: SizeUnit::Megabytes(4),
                lvs: vec![LvRequest { name: "a".into(), size: SizeUnit::Gigabytes(1), fs: None }],
            },
        };
        let draft = plan(action).unwrap();
        assert_eq!(draft.auto_confirm, auto_confirm);
        assert_eq!(draft.draft_type, "provision");
        assert_eq!(draft.status, DraftStatus::Pending);
        assert!(draft.warnings.is_empty());
        assert_eq!(draft.draft.len(), 3);
    }
}
