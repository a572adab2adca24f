use lib::convergence::{exit_code, verify_converged};
use lib::convergence::{
    verification_preconditions, verify_done, verify_possible, verify_provision, CallProbe,
    DiskProbe,
};
use lib::domain::{Call, Draft, DraftStatus, Filesystem, SizeUnit, ValidPercentage, PercentTarget};

const MIB: u64 = 1048576;

fn draft(calls: Vec<Call>) -> Draft {
    Draft {
        draft_type: "provision".into(),
        draft: calls,
        status: DraftStatus::Pending,
        auto_confirm: false,
        warnings: vec![],
    }
}

fn probe(present: bool) -> CallProbe {
    CallProbe { present, full_disk: false, signature: false, fstab_ref: false, mounted: false, disks: vec![] }
}

fn disk(size: u64) -> DiskProbe {
    DiskProbe { exists: true, size: Ok(size) }
}

fn simple_calls(lv_size: SizeUnit) -> Vec<Call> {
    vec![
        Call::PvCreate("/dev/sdb".into()),
        Call::VgCreate { name: "vg".into(), pvs: vec!["/dev/sdb".into()], pe_size: SizeUnit::Megabytes(4) },
        Call::LvCreate { vg: "vg".into(), name: "data".into(), size: lv_size },
        Call::Mkfs { device: "/dev/vg/data".into(), fs: Filesystem::Ext4 },
    ]
}

fn clean_probes(disk_bytes: u64) -> Vec<CallProbe> {
    let mut v = vec![probe(false), probe(false), probe(false), probe(false)];
    v[1].disks = vec![disk(disk_bytes)];
    v
}

#[test]
fn applied_draft_is_done() {
    let mut probes = clean_probes(100 * MIB);
    for p in probes.iter_mut() {
        p.present = true;
    }
    let d = verify_provision(draft(simple_calls(SizeUnit::Gigabytes(1))), &probes).unwrap();
    assert_eq!(d.status, DraftStatus::Done);
    assert!(d.warnings.is_empty());
}

#[test]
fn mkfs_side_step_absent_keeps_draft_from_done() {
    let mut d = draft(simple_calls(SizeUnit::Gigabytes(1)));
    let mut probes = clean_probes(100 * MIB);
    for p in probes.iter_mut().take(3) {
        p.present = true;
    }
    assert!(verify_done(&mut d, &probes).is_err());
    assert_eq!(d.status, DraftStatus::Dirty);
}

#[test]
fn half_applied_draft_is_refused() {
    let mut probes = clean_probes(100 * MIB);
    probes[0].present = true;
    let r = verify_provision(draft(simple_calls(SizeUnit::Gigabytes(1))), &probes);
    assert_eq!(r.unwrap_err(), "Draft is in a dirty/partial state.");
}

#[test]
fn clean_draft_that_fits_is_ready() {
    // 2 GiB + 1 MiB disk, 4 MiB extents: 512 usable extents; 1 GiB needs 256.
    let probes = clean_probes(2048 * MIB + MIB);
    let d = verify_provision(draft(simple_calls(SizeUnit::Gigabytes(1))), &probes).unwrap();
    assert_eq!(d.status, DraftStatus::Ready);
}

#[test]
fn insufficient_space_is_reported_with_counts() {
    let probes = clean_probes(2048 * MIB + MIB);
    let r = verify_provision(draft(simple_calls(SizeUnit::Gigabytes(3))), &probes);
    assert_eq!(
        r.unwrap_err(),
        "Validation Failure: Insufficient disk space. Required 768 extents, but only 512 available."
    );
}

#[test]
fn rounding_up_to_whole_extents() {
    // 5 MiB needs 2 extents of 4 MiB; 1 usable extent is not enough.
    let probes = clean_probes(5 * MIB);
    let r = verify_provision(draft(simple_calls(SizeUnit::Megabytes(5))), &probes);
    assert_eq!(
        r.unwrap_err(),
        "Validation Failure: Insufficient disk space. Required 2 extents, but only 1 available."
    );
}

#[test]
fn percentages_of_free_and_vg() {
    let pct = |v: u8| ValidPercentage::new(v).unwrap();
    let mut calls = simple_calls(SizeUnit::Percentage(pct(50), PercentTarget::Vg));
    calls.push(Call::LvCreate { vg: "vg".into(), name: "b".into(), size: SizeUnit::Percentage(pct(100), PercentTarget::Free) });
    let mut probes = clean_probes(2048 * MIB + MIB);
    probes.push(probe(false));
    let d = verify_provision(draft(calls.clone()), &probes).unwrap();
    assert_eq!(d.status, DraftStatus::Ready);
    calls.push(Call::LvCreate { vg: "vg".into(), name: "c".into(), size: SizeUnit::Extents(1) });
    probes.push(probe(false));
    let r = verify_provision(draft(calls), &probes);
    assert_eq!(
        r.unwrap_err(),
        "Validation Failure: Insufficient disk space. Required 513 extents, but only 512 available."
    );
}

#[test]
fn fstab_referenced_device_is_refused() {
    let mut probes = clean_probes(2048 * MIB);
    probes[0].full_disk = true;
    probes[0].signature = true;
    probes[0].fstab_ref = true;
    let mut d = draft(simple_calls(SizeUnit::Gigabytes(1)));
    d.status = DraftStatus::Clean;
    let r = verify_possible(&mut d, &probes);
    assert_eq!(
        r.unwrap_err(),
        "CRITICAL: Device \"/dev/sdb\" has a filesystem signature that is actively referenced in /etc/fstab! Wiping it would break system boot."
    );
    assert_eq!(d.status, DraftStatus::Dirty);
    assert_eq!(d.warnings.len(), 1);
}

#[test]
fn warnings_for_full_disk_and_signature() {
    let mut probes = clean_probes(2048 * MIB + MIB);
    probes[0].full_disk = true;
    probes[0].signature = true;
    let d = verify_provision(draft(simple_calls(SizeUnit::Gigabytes(1))), &probes).unwrap();
    assert_eq!(d.status, DraftStatus::Ready);
    assert_eq!(d.warnings.len(), 2);
    assert!(d.warnings[0].starts_with("Targeting full disk \"/dev/sdb\" (not a partition)."));
    assert!(d.warnings[1].starts_with("Device \"/dev/sdb\" contains an existing signature."));
}

#[test]
fn missing_small_and_unreadable_disks() {
    let mut probes = clean_probes(MIB);
    let r = verify_provision(draft(simple_calls(SizeUnit::Gigabytes(1))), &probes);
    assert_eq!(r.unwrap_err(), "Device \"/dev/sdb\" is too small for LVM metadata.");
    probes[1].disks[0].exists = false;
    let r = verify_provision(draft(simple_calls(SizeUnit::Gigabytes(1))), &probes);
    assert_eq!(r.unwrap_err(), "Hardware failure: Path \"/dev/sdb\" does not exist.");
    probes[1].disks[0] = DiskProbe { exists: true, size: Err("lsblk failed".into()) };
    let r = verify_provision(draft(simple_calls(SizeUnit::Gigabytes(1))), &probes);
    assert_eq!(r.unwrap_err(), "lsblk failed");
}

#[test]
fn non_clean_draft_is_not_checked() {
    let mut d = draft(simple_calls(SizeUnit::Gigabytes(1)));
    let r = verify_possible(&mut d, &clean_probes(2048 * MIB));
    assert_eq!(r.unwrap_err(), "Cannot run capability check on a non-clean draft.");
    assert_eq!(d.status, DraftStatus::Pending);
}

#[test]
fn relative_extent_size_is_refused() {
    let mut calls = simple_calls(SizeUnit::Gigabytes(1));
    calls[1] = Call::VgCreate { name: "vg".into(), pvs: vec!["/dev/sdb".into()], pe_size: SizeUnit::Extents(4) };
    let r = verify_provision(draft(calls), &clean_probes(2048 * MIB));
    assert_eq!(r.unwrap_err(), "Cannot convert a relative size (extents or percentage) to bytes");
}

#[test]
fn preconditions_are_checked() {
    let d = draft(simple_calls(SizeUnit::Gigabytes(1)));
    assert!(verification_preconditions(&d, &clean_probes(MIB)));
    assert!(!verification_preconditions(&d, &vec![probe(false)]));
    let mut short = clean_probes(MIB);
    short[1].disks = vec![];
    assert!(!verification_preconditions(&d, &short));
}

#[test]
fn zero_extent_size_is_refused_not_divided_by() {
    let mut calls = simple_calls(SizeUnit::Gigabytes(1));
    calls[1] = Call::VgCreate { name: "vg".into(), pvs: vec!["/dev/sdb".into()], pe_size: SizeUnit::Megabytes(0) };
    let r = verify_provision(draft(calls.clone()), &clean_probes(100 * MIB));
    assert_eq!(r.unwrap_err(), "Validation Failure: The physical extent size is zero bytes.");
    let r = verify_provision(draft(calls), &clean_probes(MIB));
    assert_eq!(r.unwrap_err(), "Device \"/dev/sdb\" is too small for LVM metadata.");
    // A volume sized in bytes with no group to take the extent size from.
    let lv_only = draft(vec![Call::LvCreate { vg: "vg".into(), name: "a".into(), size: SizeUnit::Gigabytes(1) }]);
    let r = verify_provision(lv_only.clone(), &vec![probe(false)]);
    assert_eq!(r.unwrap_err(), "Validation Failure: The physical extent size is zero bytes.");
    assert_eq!(verify_provision(lv_only, &vec![probe(true)]).unwrap().status, DraftStatus::Done);
}

#[test]
fn mounted_device_is_refused() {
    let mut probes = clean_probes(100 * MIB);
    probes[0].mounted = true;
    let mut d = draft(simple_calls(SizeUnit::Gigabytes(1)));
    d.status = DraftStatus::Clean;
    let r = verify_possible(&mut d, &probes);
    assert_eq!(
        r.unwrap_err(),
        "CRITICAL: Device \"/dev/sdb\" is currently mounted! Wiping it would destroy a filesystem in use."
    );
    assert_eq!(d.status, DraftStatus::Dirty);
    assert!(verify_provision(draft(simple_calls(SizeUnit::Gigabytes(1))), &probes).is_err());
}

#[test]
fn parsed_plans_meet_the_preconditions() {
    let args: Vec<String> = [
        "lvq", "provision", "-y", "--pv", "/dev/sdb:/dev/sdc", "--vg", "vg0:16M", "--lv",
        "data:10G:xfs:/srv", "--lv", "rest:100%FREE",
    ]
    .iter()
    .map(|s| s.to_string())
    .collect();
    let action = lib::parser::parse(args).unwrap();
    let d = lib::planner::plan(action).unwrap();
    let mut probes: Vec<CallProbe> = d.draft.iter().map(|_| probe(false)).collect();
    probes[2].disks = vec![disk(100 * 1024 * MIB), disk(100 * 1024 * MIB)];
    assert!(verification_preconditions(&d, &probes));
    let ready = verify_provision(d, &probes).unwrap();
    assert_eq!(ready.status, DraftStatus::Ready);
}

#[test]
fn device_paths_are_written_as_debug_text() {
    let calls = vec![
        Call::PvCreate("/dev/x\"y".into()),
        Call::VgCreate { name: "vg".into(), pvs: vec!["/dev/x\"y".into()], pe_size: SizeUnit::Megabytes(4) },
    ];
    let mut probes = vec![probe(false), probe(false)];
    probes[0].full_disk = true;
    probes[1].disks = vec![DiskProbe { exists: false, size: Ok(0) }];
    let mut d = draft(calls);
    d.status = DraftStatus::Clean;
    let r = verify_possible(&mut d, &probes);
    assert_eq!(r.unwrap_err(), "Hardware failure: Path \"/dev/x\\\"y\" does not exist.");
    assert!(d.warnings[0].starts_with("Targeting full disk \"/dev/x\\\"y\" (not a partition)."));
}

#[test]
fn exit_codes_and_final_check() {
    assert_eq!(exit_code("Draft is in a dirty/partial state."), 4);
    assert_eq!(exit_code("System is in a Dirty state. Manual intervention required."), 4);
    assert_eq!(exit_code("Validation Failure: The physical extent size is zero bytes."), 1);
    let d = draft(simple_calls(SizeUnit::Gigabytes(1)));
    let all: Vec<CallProbe> = d.draft.iter().map(|_| probe(true)).collect();
    assert!(verify_converged(&d, &all).is_ok());
    let mut some = all;
    some[2].present = false;
    assert_eq!(
        verify_converged(&d, &some).unwrap_err(),
        "Post-condition failure: the system does not match the plan after execution."
    );
}
