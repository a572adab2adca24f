//! State convergence: a draft is judged against what the machine reported.
//! Pass 1 decides whether the plan is already applied (Done), untouched
//! (Clean) or half applied (Dirty); pass 2 checks that a clean plan can be
//! carried out on the disks at hand (Ready or Invalid). The probing itself
//! is done by the caller, which hands the reports in as `CallProbe`s, one
//! per call of the draft.
use vstd::prelude::*;
use crate::domain::{
    Call, CallView, Draft, DraftStatus, DraftView, PercentTarget, SizeUnit, call_views,
    relative_size_message,
};
use crate::text::{decimal, path_debug, path_debug_string, push_decimal, str_eq};

verus! {

/// What the machine reported about one disk named by a volume group:
/// whether the path exists and its size in bytes (or why it could not be
/// read).
pub struct DiskProbe {
    pub exists: bool,
    pub size: Result<u64, String>,
}

/// What the machine reported about the object of one call.
///
/// `present`: whether the call's result already exists (the physical
/// volume, the group, the logical volume, the mount, the fstab entry, the
/// active swap, the filesystem signature on the device, or the directory).
/// For a `PvCreate`, also: `full_disk` (the device is a whole disk, not a
/// partition), `signature` (the device carries a filesystem signature) and
/// `fstab_ref` (that device is named in `/etc/fstab`) and `mounted` (the
/// device, or a filesystem on it, appears in `/proc/mounts`). For a `VgCreate`,
/// `disks` holds one report per physical volume of the group, in order.
pub struct CallProbe {
    pub present: bool,
    pub full_disk: bool,
    pub signature: bool,
    pub fstab_ref: bool,
    pub mounted: bool,
    pub disks: Vec<DiskProbe>,
}

/// One mebibyte, kept back on each disk for LVM metadata.
pub open spec fn metadata_overhead() -> nat {
    1048576
}

// ----- pass 1 ---------------------------------------------------------

/// Calls whose result is only a side step (formatting, directories): when
/// present they are left out of the count, when absent they count as
/// missing.
pub open spec fn is_side_step(c: CallView) -> bool {
    c is Mkfs || c is Mkdir
}

/// The number of calls among the first `n` whose result is present and
/// that are not side steps.
pub open spec fn matched_upto(calls: Seq<CallView>, probes: Seq<CallProbe>, n: nat) -> nat
    decreases n,
{
    if n == 0 {
        0
    } else {
        matched_upto(calls, probes, (n - 1) as nat) + if !is_side_step(calls[n - 1])
            && probes[n - 1].present {
            1nat
        } else {
            0nat
        }
    }
}

/// The number of side steps among the first `n` calls that are already
/// present.
pub open spec fn settled_upto(calls: Seq<CallView>, probes: Seq<CallProbe>, n: nat) -> nat
    decreases n,
{
    if n == 0 {
        0
    } else {
        settled_upto(calls, probes, (n - 1) as nat) + if is_side_step(calls[n - 1])
            && probes[n - 1].present {
            1nat
        } else {
            0nat
        }
    }
}

/// The outcome of pass 1: Done when every counted call is present, Clean when
/// none is, Dirty otherwise.
pub open spec fn done_status(calls: Seq<CallView>, probes: Seq<CallProbe>) -> DraftStatus {
    let matched = matched_upto(calls, probes, calls.len());
    let total = calls.len() - settled_upto(calls, probes, calls.len());
    if matched == total {
        DraftStatus::Done
    } else if matched == 0 {
        DraftStatus::Clean
    } else {
        DraftStatus::Dirty
    }
}

pub open spec fn dirty_message() -> Seq<char> {
    "Draft is in a dirty/partial state."@
}

// ----- pass 2: physical volume screening -------------------------------

pub open spec fn full_disk_message(path: Seq<char>) -> Seq<char> {
    "Targeting full disk "@ + path_debug(path)
        + " (not a partition). This could cause problems in the future. It is recommended to partition first, then call the program on the target partition instead."@
}

pub open spec fn signature_message(path: Seq<char>) -> Seq<char> {
    "Device "@ + path_debug(path)
        + " contains an existing signature. PV creation will wipe this signature automatically. Make sure no crucial data will be lost"@
}

pub open spec fn fstab_conflict_message(path: Seq<char>) -> Seq<char> {
    "CRITICAL: Device "@ + path_debug(path)
        + " has a filesystem signature that is actively referenced in /etc/fstab! Wiping it would break system boot."@
}

pub open spec fn mounted_conflict_message(path: Seq<char>) -> Seq<char> {
    "CRITICAL: Device "@ + path_debug(path)
        + " is currently mounted! Wiping it would destroy a filesystem in use."@
}

/// A device to be wiped that is mounted, or whose signature `/etc/fstab`
/// refers to.
pub open spec fn pv_conflict(c: CallView, p: CallProbe) -> bool {
    c is PvCreate && (p.mounted || (p.signature && p.fstab_ref))
}

/// Why a conflicting device is refused: being mounted comes first.
pub open spec fn conflict_message(c: CallView, p: CallProbe) -> Seq<char> {
    if p.mounted {
        mounted_conflict_message(c->PvCreate_0)
    } else {
        fstab_conflict_message(c->PvCreate_0)
    }
}

pub open spec fn full_disk_warnings(c: CallView, p: CallProbe) -> Seq<Seq<char>> {
    match c {
        CallView::PvCreate(path) => if p.full_disk {
            seq![full_disk_message(path)]
        } else {
            Seq::empty()
        },
        _ => Seq::empty(),
    }
}

pub open spec fn signature_warnings(c: CallView, p: CallProbe) -> Seq<Seq<char>> {
    match c {
        CallView::PvCreate(path) => if p.signature && !p.fstab_ref {
            seq![signature_message(path)]
        } else {
            Seq::empty()
        },
        _ => Seq::empty(),
    }
}

/// The outcome of screening the physical volumes: the warnings gathered,
/// and the refusal that stopped the screening, if any.
pub struct Screen {
    pub warnings: Seq<Seq<char>>,
    pub conflict: Option<Seq<char>>,
}

pub open spec fn screen(calls: Seq<CallView>, probes: Seq<CallProbe>, n: nat) -> Screen
    decreases n,
{
    if n == 0 {
        Screen { warnings: Seq::empty(), conflict: None }
    } else {
        let s = screen(calls, probes, (n - 1) as nat);
        let c = calls[n - 1];
        let p = probes[n - 1];
        if s.conflict is Some {
            s
        } else if pv_conflict(c, p) {
            Screen {
                warnings: s.warnings + full_disk_warnings(c, p),
                conflict: Some(conflict_message(c, p)),
            }
        } else {
            Screen {
                warnings: s.warnings + full_disk_warnings(c, p) + signature_warnings(c, p),
                conflict: None,
            }
        }
    }
}

// ----- pass 2: capacity -------------------------------------------------

/// Counting usable extents either goes on (`failure` is `None`) with the
/// extent size in bytes of the last group seen and the extents counted so
/// far, or has stopped with the status and message of the failure.
pub struct Capacity {
    pub pe: nat,
    pub usable: nat,
    pub failure: Option<(DraftStatus, Seq<char>)>,
}

pub open spec fn missing_disk_message(path: Seq<char>) -> Seq<char> {
    "Hardware failure: Path "@ + path_debug(path) + " does not exist."@
}

pub open spec fn small_disk_message(path: Seq<char>) -> Seq<char> {
    "Device "@ + path_debug(path) + " is too small for LVM metadata."@
}

/// The refusal when an extent count would need an extent size of zero
/// bytes (a group with a zero extent size, or a volume sized in bytes with
/// no group before it).
pub open spec fn zero_extent_message() -> Seq<char> {
    "Validation Failure: The physical extent size is zero bytes."@
}

/// The refusal when an extent count leaves the 128-bit range.
pub open spec fn extent_overflow_message() -> Seq<char> {
    "Validation Failure: The extent count exceeds the 128-bit range."@
}

pub open spec fn u128_max() -> nat {
    0xFFFF_FFFF_FFFF_FFFF_FFFF_FFFF_FFFF_FFFF
}

/// Counts the extents of the first `n` disks of a group: a missing disk
/// or one no larger than the metadata overhead makes the draft Invalid; a
/// size that could not be read stops the count with its message; so does
/// an extent size of zero bytes, or a count beyond the 128-bit range.
pub open spec fn disk_scan(
    pvs: Seq<Seq<char>>,
    disks: Seq<DiskProbe>,
    start: Capacity,
    n: nat,
) -> Capacity
    decreases n,
{
    if n == 0 {
        start
    } else {
        let c = disk_scan(pvs, disks, start, (n - 1) as nat);
        let d = disks[n - 1];
        if c.failure is Some {
            c
        } else if !d.exists {
            Capacity {
                failure: Some((DraftStatus::Invalid, missing_disk_message(pvs[n - 1]))),
                ..c
            }
        } else {
            match d.size {
                Err(e) => Capacity { failure: Some((DraftStatus::Clean, e@)), ..c },
                Ok(raw) => if raw <= metadata_overhead() {
                    Capacity {
                        failure: Some((DraftStatus::Invalid, small_disk_message(pvs[n - 1]))),
                        ..c
                    }
                } else if c.pe == 0 {
                    Capacity { failure: Some((DraftStatus::Invalid, zero_extent_message())), ..c }
                } else {
                    let u = c.usable + ((raw - metadata_overhead()) as nat) / c.pe;
                    if u > u128_max() {
                        Capacity {
                            failure: Some((DraftStatus::Invalid, extent_overflow_message())),
                            ..c
                        }
                    } else {
                        Capacity { usable: u, ..c }
                    }
                },
            }
        }
    }
}

/// Counts the usable extents of every group among the first `n` calls;
/// a group whose extent size is not absolute stops the count.
pub open spec fn capacity(calls: Seq<CallView>, probes: Seq<CallProbe>, n: nat) -> Capacity
    decreases n,
{
    if n == 0 {
        Capacity { pe: 0, usable: 0, failure: None }
    } else {
        let c = capacity(calls, probes, (n - 1) as nat);
        if c.failure is Some {
            c
        } else {
            match calls[n - 1] {
                CallView::VgCreate { pvs, pe_size, .. } => match pe_size.spec_bytes() {
                    None => Capacity {
                        failure: Some((DraftStatus::Clean, relative_size_message())),
                        ..c
                    },
                    Some(b) => disk_scan(
                        pvs,
                        probes[n - 1].disks@,
                        Capacity { pe: b, ..c },
                        pvs.len(),
                    ),
                },
                _ => c,
            }
        }
    }
}

/// The extents one volume needs: its extent count; a share of all usable
/// extents (`%VG`, `%PVS`) or of those not yet required (`%FREE`); or its
/// bytes rounded up to whole extents.
pub open spec fn lv_extents(size: SizeUnit, usable: nat, required: nat, pe: nat) -> nat {
    match size {
        SizeUnit::Extents(e) => e as nat,
        SizeUnit::Percentage(p, t) => match t {
            PercentTarget::Free => {
                let free: nat = if usable >= required {
                    (usable - required) as nat
                } else {
                    0
                };
                free * (p.spec_get() as nat) / 100
            },
            _ => usable * (p.spec_get() as nat) / 100,
        },
        _ => ((size.spec_bytes().unwrap() + pe - 1) as nat) / pe,
    }
}

/// The extents required by the volumes among the first `n` calls, or why
/// they cannot be counted: a volume sized in bytes while the extent size
/// is zero, or a total beyond the 128-bit range.
pub open spec fn requirement(calls: Seq<CallView>, usable: nat, pe: nat, n: nat) -> Result<
    nat,
    Seq<char>,
>
    decreases n,
{
    if n == 0 {
        Ok(0)
    } else {
        match requirement(calls, usable, pe, (n - 1) as nat) {
            Err(e) => Err(e),
            Ok(r) => match calls[n - 1] {
                CallView::LvCreate { size, .. } => if size.is_absolute() && pe == 0 {
                    Err(zero_extent_message())
                } else if r + lv_extents(size, usable, r, pe) > u128_max() {
                    Err(extent_overflow_message())
                } else {
                    Ok(r + lv_extents(size, usable, r, pe))
                },
                _ => Ok(r),
            },
        }
    }
}

pub open spec fn non_clean_message() -> Seq<char> {
    "Cannot run capability check on a non-clean draft."@
}

pub open spec fn insufficient_message(required: nat, usable: nat) -> Seq<char> {
    "Validation Failure: Insufficient disk space. Required "@ + decimal(required)
        + " extents, but only "@ + decimal(usable) + " available."@
}

/// The outcome of pass 2: the new status, the warnings after the pass, and
/// the error if the draft cannot be carried out.
pub struct Possible {
    pub status: DraftStatus,
    pub warnings: Seq<Seq<char>>,
    pub result: Result<(), Seq<char>>,
}

/// Pass 2 on an untouched draft: the screening may refuse a device; then
/// the usable extents are counted (which may fail), and the draft fits
/// when they cover the extents the volumes need.
pub open spec fn pass_two_result(calls: Seq<CallView>, probes: Seq<CallProbe>) -> Result<
    (),
    (DraftStatus, Seq<char>),
> {
    let n = calls.len();
    match screen(calls, probes, n).conflict {
        Some(e) => Err((DraftStatus::Dirty, e)),
        None => {
            let c = capacity(calls, probes, n);
            match c.failure {
                Some(f) => Err(f),
                None => match requirement(calls, c.usable, c.pe, n) {
                    Err(e) => Err((DraftStatus::Invalid, e)),
                    Ok(req) => if c.usable >= req {
                        Ok(())
                    } else {
                        Err((DraftStatus::Invalid, insufficient_message(req, c.usable)))
                    },
                },
            }
        },
    }
}

pub open spec fn spec_verify_possible(d: DraftView, probes: Seq<CallProbe>) -> Possible {
    if d.status != DraftStatus::Clean {
        Possible { status: d.status, warnings: d.warnings, result: Err(non_clean_message()) }
    } else {
        let w = d.warnings + screen(d.draft, probes, d.draft.len()).warnings;
        match pass_two_result(d.draft, probes) {
            Ok(_) => Possible { status: DraftStatus::Ready, warnings: w, result: Ok(()) },
            Err((st, e)) => Possible { status: st, warnings: w, result: Err(e) },
        }
    }
}

// ----- preconditions ----------------------------------------------------

/// One report per call, and one disk report per physical volume of each
/// group.
pub open spec fn probes_fit(calls: Seq<CallView>, probes: Seq<CallProbe>) -> bool {
    &&& probes.len() == calls.len()
    &&& forall|i: int|
        0 <= i < calls.len() && (#[trigger] calls[i]) is VgCreate ==> probes[i].disks@.len()
            == calls[i]->VgCreate_pvs.len()
}

// ----- lemmas -----------------------------------------------------------

proof fn lemma_share_le(x: nat, p: nat)
    requires
        p <= 100,
    ensures
        x * p / 100 <= x,
{
    assert(x * p <= x * 100) by (nonlinear_arith)
        requires
            p <= 100,
    ;
    assert(x * p / 100 <= x) by (nonlinear_arith)
        requires
            x * p <= x * 100,
    ;
}

proof fn lemma_round_up_le(b: nat, pe: nat)
    requires
        pe >= 1,
    ensures
        ((b + pe - 1) as nat) / pe <= b,
{
    if b == 0 {
        assert(((pe - 1) as nat) / pe == 0) by (nonlinear_arith)
            requires
                pe >= 1,
        ;
    } else {
        assert(((b + pe - 1) as nat) <= b * pe) by (nonlinear_arith)
            requires
                pe >= 1,
                b >= 1,
        ;
        assert(((b + pe - 1) as nat) / pe <= b) by (nonlinear_arith)
            requires
                pe >= 1,
                ((b + pe - 1) as nat) <= b * pe,
        ;
    }
}

proof fn lemma_mul_mono(a: nat, b: nat, c: nat)
    requires
        a <= b,
    ensures
        a * c <= b * c,
{
    assert(a * c <= b * c) by (nonlinear_arith)
        requires
            a <= b,
    ;
}

// ----- pass 1 -----------------------------------------------------------

/// The outcome of pass 1 on the calls of a draft (see `done_status`).
fn pass_one(calls_v: &Vec<Call>, probes: &Vec<CallProbe>) -> (st: DraftStatus)
    requires
        probes@.len() == calls_v@.len(),
    ensures
        st == done_status(call_views(calls_v@), probes@),
{
    let ghost calls = call_views(calls_v@);
    let n = calls_v.len();
    let mut matched: usize = 0;
    let mut settled: usize = 0;
    let mut i: usize = 0;
    while i < n
        invariant
            n == calls_v@.len(),
            calls == call_views(calls_v@),
            probes@.len() == n,
            i <= n,
            matched == matched_upto(calls, probes@, i as nat),
            settled == settled_upto(calls, probes@, i as nat),
            matched + settled <= i,
        decreases n - i,
    {
        assert(calls[i as int] == calls_v@[i as int]@);
        let side = match &calls_v[i] {
            Call::Mkfs { .. } => true,
            Call::Mkdir(_) => true,
            _ => false,
        };
        if probes[i].present {
            if side {
                settled = settled + 1;
            } else {
                matched = matched + 1;
            }
        }
        i = i + 1;
    }
    let total = n - settled;
    if matched == total {
        DraftStatus::Done
    } else if matched == 0 {
        DraftStatus::Clean
    } else {
        DraftStatus::Dirty
    }
}

/// Pass 1: decides whether the draft is already applied, untouched or half
/// applied, and refuses a half-applied one.
pub fn verify_done(draft: &mut Draft, probes: &Vec<CallProbe>) -> (r: Result<(), String>)
    requires
        probes@.len() == old(draft)@.draft.len(),
    ensures
        final(draft).status == done_status(old(draft)@.draft, probes@),
        final(draft)@.draft == old(draft)@.draft,
        final(draft)@.draft_type == old(draft)@.draft_type,
        final(draft).auto_confirm == old(draft).auto_confirm,
        final(draft)@.warnings == old(draft)@.warnings,
        r is Err <==> final(draft).status == DraftStatus::Dirty,
        r matches Err(e) ==> e@ == dirty_message(),
{
    let st = pass_one(&draft.draft, probes);
    draft.status = st;
    if st == DraftStatus::Dirty {
        return Err(String::from_str("Draft is in a dirty/partial state."));
    }
    Ok(())
}

// ----- pass 2 -----------------------------------------------------------

fn full_disk_warning(path: &str) -> (s: String)
    ensures
        s@ == full_disk_message(path@),
{
    let mut s = String::from_str("Targeting full disk ");
    let q = path_debug_string(path);
    s.append(q.as_str());
    s.append(
        " (not a partition). This could cause problems in the future. It is recommended to partition first, then call the program on the target partition instead.",
    );
    s
}

fn signature_warning(path: &str) -> (s: String)
    ensures
        s@ == signature_message(path@),
{
    let mut s = String::from_str("Device ");
    let q = path_debug_string(path);
    s.append(q.as_str());
    s.append(
        " contains an existing signature. PV creation will wipe this signature automatically. Make sure no crucial data will be lost",
    );
    s
}

fn fstab_conflict(path: &str) -> (s: String)
    ensures
        s@ == fstab_conflict_message(path@),
{
    let mut s = String::from_str("CRITICAL: Device ");
    let q = path_debug_string(path);
    s.append(q.as_str());
    s.append(
        " has a filesystem signature that is actively referenced in /etc/fstab! Wiping it would break system boot.",
    );
    s
}

fn missing_disk(path: &str) -> (s: String)
    ensures
        s@ == missing_disk_message(path@),
{
    let mut s = String::from_str("Hardware failure: Path ");
    let q = path_debug_string(path);
    s.append(q.as_str());
    s.append(" does not exist.");
    s
}

fn small_disk(path: &str) -> (s: String)
    ensures
        s@ == small_disk_message(path@),
{
    let mut s = String::from_str("Device ");
    let q = path_debug_string(path);
    s.append(q.as_str());
    s.append(" is too small for LVM metadata.");
    s
}

fn insufficient(required: u128, usable: u128) -> (s: String)
    ensures
        s@ == insufficient_message(required as nat, usable as nat),
{
    let mut s = String::from_str("Validation Failure: Insufficient disk space. Required ");
    push_decimal(&mut s, required);
    s.append(" extents, but only ");
    push_decimal(&mut s, usable);
    s.append(" available.");
    s
}

fn push_warning(warnings: &mut Vec<String>, w: String)
    ensures
        final(warnings).deep_view() == old(warnings).deep_view().push(w@),
{
    let ghost before = warnings.deep_view();
    warnings.push(w);
    assert(warnings.deep_view() =~= before.push(w@));
}

proof fn lemma_screen_stops(calls: Seq<CallView>, probes: Seq<CallProbe>, m: nat, n: nat)
    requires
        m <= n,
        screen(calls, probes, m).conflict is Some,
    ensures
        screen(calls, probes, n) == screen(calls, probes, m),
    decreases n,
{
    if m < n {
        lemma_screen_stops(calls, probes, m, (n - 1) as nat);
    }
}

proof fn lemma_capacity_stops(calls: Seq<CallView>, probes: Seq<CallProbe>, m: nat, n: nat)
    requires
        m <= n,
        capacity(calls, probes, m).failure is Some,
    ensures
        capacity(calls, probes, n) == capacity(calls, probes, m),
    decreases n,
{
    if m < n {
        lemma_capacity_stops(calls, probes, m, (n - 1) as nat);
    }
}

proof fn lemma_disk_scan_stops(
    pvs: Seq<Seq<char>>,
    disks: Seq<DiskProbe>,
    start: Capacity,
    m: nat,
    n: nat,
)
    requires
        m <= n,
        disk_scan(pvs, disks, start, m).failure is Some,
    ensures
        disk_scan(pvs, disks, start, n) == disk_scan(pvs, disks, start, m),
    decreases n,
{
    if m < n {
        lemma_disk_scan_stops(pvs, disks, start, m, (n - 1) as nat);
    }
}

proof fn lemma_disk_scan_keeps_pe(pvs: Seq<Seq<char>>, disks: Seq<DiskProbe>, start: Capacity, n: nat)
    ensures
        disk_scan(pvs, disks, start, n).pe == start.pe,
    decreases n,
{
    if n > 0 {
        lemma_disk_scan_keeps_pe(pvs, disks, start, (n - 1) as nat);
    }
}

/// The largest byte count an absolute size can denote.
pub open spec fn max_size_bytes() -> nat {
    0xFFFF_FFFF_FFFF_FFFF_00_0000_0000
}

proof fn lemma_bytes_bound(s: SizeUnit)
    ensures
        s.spec_bytes() is Some ==> s.spec_bytes()->0 <= max_size_bytes(),
{
    match s {
        SizeUnit::Megabytes(n) => {
            lemma_mul_mono(n as nat, 0xFFFF_FFFF_FFFF_FFFF, 1048576);
            assert(0xFFFF_FFFF_FFFF_FFFFnat * 1048576nat <= max_size_bytes()) by (nonlinear_arith);
        },
        SizeUnit::Gigabytes(n) => {
            lemma_mul_mono(n as nat, 0xFFFF_FFFF_FFFF_FFFF, 1073741824);
            assert(0xFFFF_FFFF_FFFF_FFFFnat * 1073741824nat <= max_size_bytes()) by (nonlinear_arith);
        },
        SizeUnit::Terabytes(n) => {
            lemma_mul_mono(n as nat, 0xFFFF_FFFF_FFFF_FFFF, 1099511627776);
            assert(0xFFFF_FFFF_FFFF_FFFFnat * 1099511627776nat == max_size_bytes()) by (nonlinear_arith);
        },
        _ => {},
    }
}

fn mounted_conflict(path: &str) -> (s: String)
    ensures
        s@ == mounted_conflict_message(path@),
{
    let mut s = String::from_str("CRITICAL: Device ");
    let q = path_debug_string(path);
    s.append(q.as_str());
    s.append(" is currently mounted! Wiping it would destroy a filesystem in use.");
    s
}

fn zero_extent() -> (s: String)
    ensures
        s@ == zero_extent_message(),
{
    String::from_str("Validation Failure: The physical extent size is zero bytes.")
}

fn extent_overflow() -> (s: String)
    ensures
        s@ == extent_overflow_message(),
{
    String::from_str("Validation Failure: The extent count exceeds the 128-bit range.")
}

/// Counts the extents of the disks of one group (see `disk_scan`).
fn scan_disks(pvs: &Vec<String>, disks: &Vec<DiskProbe>, pe: u128, usable: u128) -> (r: Result<
    u128,
    (DraftStatus, String),
>)
    requires
        disks@.len() == pvs@.len(),
    ensures
        ({
            let start = Capacity { pe: pe as nat, usable: usable as nat, failure: None };
            let c = disk_scan(pvs.deep_view(), disks@, start, pvs@.len());
            &&& c.failure is None ==> (r matches Ok(u) && u == c.usable)
            &&& c.failure is Some ==> (r matches Err(f) && f.0 == (c.failure->0).0 && f.1@
                == (c.failure->0).1)
        }),
{
    let ghost pv = pvs.deep_view();
    let ghost start = Capacity { pe: pe as nat, usable: usable as nat, failure: None };
    let ghost len = pvs@.len() as nat;
    let mut u = usable;
    let mut j: usize = 0;
    while j < pvs.len()
        invariant
            disks@.len() == pvs@.len(),
            pv == pvs.deep_view(),
            len == pvs@.len(),
            start == (Capacity { pe: pe as nat, usable: usable as nat, failure: None }),
            j <= pvs@.len(),
            disk_scan(pv, disks@, start, j as nat).failure is None,
            disk_scan(pv, disks@, start, j as nat).usable == u,
            disk_scan(pv, disks@, start, j as nat).pe == pe,
        decreases pvs@.len() - j,
    {
        assert(pv[j as int] == pvs@[j as int]@);
        let d = &disks[j];
        if !d.exists {
            proof {
                lemma_disk_scan_stops(pv, disks@, start, (j + 1) as nat, len);
            }
            return Err((DraftStatus::Invalid, missing_disk(pvs[j].as_str())));
        }
        let raw = match &d.size {
            Ok(v) => *v,
            Err(e) => {
                proof {
                    lemma_disk_scan_stops(pv, disks@, start, (j + 1) as nat, len);
                }
                return Err((DraftStatus::Clean, e.clone()));
            },
        };
        if (raw as u128) <= 1048576 {
            proof {
                lemma_disk_scan_stops(pv, disks@, start, (j + 1) as nat, len);
            }
            return Err((DraftStatus::Invalid, small_disk(pvs[j].as_str())));
        }
        if pe == 0 {
            proof {
                lemma_disk_scan_stops(pv, disks@, start, (j + 1) as nat, len);
            }
            return Err((DraftStatus::Invalid, zero_extent()));
        }
        let extra = ((raw as u128) - 1048576) / pe;
        if u > u128::MAX - extra {
            proof {
                lemma_disk_scan_stops(pv, disks@, start, (j + 1) as nat, len);
            }
            return Err((DraftStatus::Invalid, extent_overflow()));
        }
        u = u + extra;
        j = j + 1;
    }
    Ok(u)
}

proof fn lemma_share(x: nat, p: nat)
    requires
        p <= 100,
    ensures
        (x / 100) * p + (x % 100) * p / 100 == x * p / 100,
        (x / 100) * p <= x,
        (x % 100) * p <= 9900,
        x * p / 100 <= x,
{
    let q = x / 100;
    let r = x % 100;
    vstd::arithmetic::div_mod::lemma_fundamental_div_mod(x as int, 100);
    assert(x * p == r * p + (q * p) * 100) by (nonlinear_arith)
        requires
            x == 100 * q + r,
    ;
    vstd::arithmetic::div_mod::lemma_hoist_over_denominator((r * p) as int, (q * p) as int, 100);
    assert(q * p <= q * 100) by (nonlinear_arith)
        requires
            p <= 100,
    ;
    assert(r * p <= 9900) by (nonlinear_arith)
        requires
            r < 100,
            p <= 100,
    ;
    lemma_share_le(x, p);
}

/// `x * p / 100`, computed without leaving the 128-bit range.
fn share(x: u128, p: u8) -> (v: u128)
    requires
        p <= 100,
    ensures
        v == x * p / 100,
        v <= x,
{
    proof {
        lemma_share(x as nat, p as nat);
    }
    (x / 100) * (p as u128) + ((x % 100) * (p as u128)) / 100
}

/// Pass 2 on the calls of an untouched draft (see `pass_two_result`),
/// with the screening warnings.
fn pass_two(calls_v: &Vec<Call>, probes: &Vec<CallProbe>) -> (r: (
    Result<(), (DraftStatus, String)>,
    Vec<String>,
))
    requires
        probes_fit(call_views(calls_v@), probes@),
    ensures
        ({
            let calls = call_views(calls_v@);
            let n = calls.len();
            &&& r.1.deep_view() == screen(calls, probes@, n).warnings
            &&& match pass_two_result(calls, probes@) {
                Ok(_) => r.0 is Ok,
                Err((st, m)) => (r.0 matches Err(f) && f.0 == st && f.1@ == m),
            }
        }),
{
    let ghost calls = call_views(calls_v@);
    let mut warnings: Vec<String> = Vec::new();
    assert(warnings.deep_view() =~= screen(call_views(calls_v@), probes@, 0).warnings);
    let ghost ps = probes@;
    let n = calls_v.len();
    assert(calls.len() == n);
    // Screening of the physical volumes.
    let mut i: usize = 0;
    while i < n
        invariant
            n == calls_v@.len(),
            calls == call_views(calls_v@),
            ps == probes@,
            ps.len() == n,
            i <= n,
            screen(calls, ps, i as nat).conflict is None,
            warnings.deep_view() == screen(calls, ps, i as nat).warnings,
        decreases n - i,
    {
        assert(calls[i as int] == calls_v@[i as int]@);
        let path: Option<String> = match &calls_v[i] {
            Call::PvCreate(p) => Some(p.clone()),
            _ => None,
        };
        let ghost sw = screen(calls, ps, i as nat).warnings;
        let ghost c = calls[i as int];
        let ghost p = ps[i as int];
        match path {
            Some(path) => {
                let fd = probes[i].full_disk;
                let sig = probes[i].signature;
                let reff = probes[i].fstab_ref;
                let mounted = probes[i].mounted;
                if fd {
                    push_warning(&mut warnings, full_disk_warning(path.as_str()));
                }
                assert(warnings.deep_view() =~= sw + full_disk_warnings(c, p));
                if mounted || (sig && reff) {
                    let msg = if mounted {
                        mounted_conflict(path.as_str())
                    } else {
                        fstab_conflict(path.as_str())
                    };
                    proof {
                        assert(c == Call::PvCreate(path)@);
                        assert(pv_conflict(c, p));
                        assert(screen(calls, ps, (i + 1) as nat).conflict == Some(msg@));
                        assert(screen(calls, ps, (i + 1) as nat).warnings == sw
                            + full_disk_warnings(c, p));
                        lemma_screen_stops(calls, ps, (i + 1) as nat, n as nat);
                        assert(warnings.deep_view() == screen(calls, ps, n as nat).warnings);
                    }
                    return (Err((DraftStatus::Dirty, msg)), warnings);
                }
                if sig {
                    push_warning(&mut warnings, signature_warning(path.as_str()));
                }
                assert(warnings.deep_view() =~= sw + full_disk_warnings(c, p)
                    + signature_warnings(c, p));
            },
            None => {
                assert(warnings.deep_view() =~= sw + full_disk_warnings(c, p)
                    + signature_warnings(c, p));
            },
        }
        i = i + 1;
    }
    let ghost sn = screen(calls, ps, n as nat);
    // Usable extents of every group.
    let mut pe_bytes: u128 = 0;
    let mut usable: u128 = 0;
    let mut i: usize = 0;
    while i < n
        invariant
            n == calls_v@.len(),
            calls == call_views(calls_v@),
            ps == probes@,
            probes_fit(calls, ps),
            sn == screen(calls, ps, n as nat),
            sn.conflict is None,
            warnings.deep_view() == sn.warnings,
            i <= n,
            capacity(calls, ps, i as nat).failure is None,
            capacity(calls, ps, i as nat).pe == pe_bytes,
            capacity(calls, ps, i as nat).usable == usable,
            pe_bytes <= max_size_bytes(),
        decreases n - i,
    {
        assert(calls[i as int] == calls_v@[i as int]@);
        let step: Result<(u128, u128), (DraftStatus, String)> = match &calls_v[i] {
            Call::VgCreate { pvs, pe_size, .. } => {
                match pe_size.to_bytes() {
                    Err(e) => Err((DraftStatus::Clean, e)),
                    Ok(b) => {
                        proof {
                            lemma_bytes_bound(*pe_size);
                            lemma_disk_scan_keeps_pe(
                                pvs.deep_view(),
                                probes@[i as int].disks@,
                                Capacity { pe: b as nat, usable: usable as nat, failure: None },
                                pvs@.len() as nat,
                            );
                        }
                        match scan_disks(pvs, &probes[i].disks, b, usable) {
                            Ok(u) => Ok((b, u)),
                            Err(f) => Err(f),
                        }
                    },
                }
            },
            _ => Ok((pe_bytes, usable)),
        };
        match step {
            Ok((p, u)) => {
                pe_bytes = p;
                usable = u;
            },
            Err((st, e)) => {
                proof {
                    assert(capacity(calls, ps, (i + 1) as nat).failure == Some((st, e@)));
                    lemma_capacity_stops(calls, ps, (i + 1) as nat, n as nat);
                }
                return (Err((st, e)), warnings);
            },
        }
        i = i + 1;
    }
    let ghost cap = capacity(calls, ps, n as nat);
    // Extents required by every volume.
    let mut required: u128 = 0;
    let mut i: usize = 0;
    while i < n
        invariant
            n == calls_v@.len(),
            calls == call_views(calls_v@),
            ps == probes@,
            warnings.deep_view() == sn.warnings,
            sn == screen(calls, ps, n as nat),
            sn.conflict is None,
            cap == capacity(calls, ps, n as nat),
            cap.failure is None,
            cap.pe == pe_bytes,
            cap.usable == usable,
            pe_bytes <= max_size_bytes(),
            i <= n,
            requirement(calls, usable as nat, pe_bytes as nat, i as nat) == Ok::<nat, Seq<char>>(
                required as nat,
            ),
        decreases n - i,
    {
        assert(calls[i as int] == calls_v@[i as int]@);
        let ghost r0 = required as nat;
        let ext: u128 = match &calls_v[i] {
            Call::LvCreate { size, .. } => {
                match size {
                    SizeUnit::Extents(e) => *e as u128,
                    SizeUnit::Percentage(pct, target) => {
                        let p = pct.get();
                        match target {
                            PercentTarget::Free => {
                                let free = if usable >= required {
                                    usable - required
                                } else {
                                    0
                                };
                                share(free, p)
                            },
                            _ => share(usable, p),
                        }
                    },
                    _ => {
                        let b = match size.to_bytes() {
                            Ok(b) => b,
                            Err(e) => {
                                return (Err((DraftStatus::Invalid, e)), warnings);
                            },
                        };
                        if pe_bytes == 0 {
                            proof {
                                lemma_requirement_stops(calls, usable as nat, pe_bytes as nat, (i + 1) as nat, n as nat);
                            }
                            return (Err((DraftStatus::Invalid, zero_extent())), warnings);
                        }
                        proof {
                            lemma_bytes_bound(*size);
                            lemma_round_up_le(b as nat, pe_bytes as nat);
                        }
                        (b + pe_bytes - 1) / pe_bytes
                    },
                }
            },
            _ => 0,
        };
        if required > u128::MAX - ext {
            proof {
                lemma_requirement_stops(calls, usable as nat, pe_bytes as nat, (i + 1) as nat, n as nat);
            }
            return (Err((DraftStatus::Invalid, extent_overflow())), warnings);
        }
        required = required + ext;
        i = i + 1;
    }
    if usable >= required {
        (Ok(()), warnings)
    } else {
        (Err((DraftStatus::Invalid, insufficient(required, usable))), warnings)
    }
}

proof fn lemma_requirement_stops(calls: Seq<CallView>, usable: nat, pe: nat, m: nat, n: nat)
    requires
        m <= n,
        requirement(calls, usable, pe, m) is Err,
    ensures
        requirement(calls, usable, pe, n) == requirement(calls, usable, pe, m),
    decreases n,
{
    if m < n {
        lemma_requirement_stops(calls, usable, pe, m, (n - 1) as nat);
    }
}

/// Pass 2: warns about whole disks and signatures that will be wiped,
/// refuses to wipe a device that is mounted or that `/etc/fstab` refers
/// to, counts the usable extents of every group and the extents every
/// volume needs, and marks the draft Ready when they fit, Invalid
/// otherwise.
pub fn verify_possible(draft: &mut Draft, probes: &Vec<CallProbe>) -> (r: Result<(), String>)
    requires
        probes_fit(old(draft)@.draft, probes@),
    ensures
        ({
            let o = spec_verify_possible(old(draft)@, probes@);
            &&& final(draft).status == o.status
            &&& final(draft)@.warnings == o.warnings
            &&& match o.result {
                Ok(_) => r is Ok,
                Err(e) => r matches Err(m) && m@ == e,
            }
        }),
        final(draft)@.draft == old(draft)@.draft,
        final(draft)@.draft_type == old(draft)@.draft_type,
        final(draft).auto_confirm == old(draft).auto_confirm,
{
    if draft.status != DraftStatus::Clean {
        return Err(String::from_str("Cannot run capability check on a non-clean draft."));
    }
    let (outcome, mut found) = pass_two(&draft.draft, probes);
    let ghost before = draft.warnings@;
    let ghost added = found@;
    draft.warnings.append(&mut found);
    assert(draft.warnings@ == before + added);
    assert(draft@.warnings =~= old(draft)@.warnings + screen(
        old(draft)@.draft,
        probes@,
        old(draft)@.draft.len(),
    ).warnings) by {
        assert(draft@.warnings =~= before.map_values(|w: String| w@) + added.map_values(
            |w: String| w@,
        ));
    }
    match outcome {
        Ok(()) => {
            draft.status = DraftStatus::Ready;
            Ok(())
        },
        Err((st, e)) => {
            draft.status = st;
            Err(e)
        },
    }
}

/// The whole check: pass 1, then, for an untouched draft, pass 2. The
/// result is the new status and warnings, or the refusal.
pub open spec fn spec_verify_provision(d: DraftView, probes: Seq<CallProbe>) -> Result<
    (DraftStatus, Seq<Seq<char>>),
    Seq<char>,
> {
    let st = done_status(d.draft, probes);
    if st == DraftStatus::Dirty {
        Err(dirty_message())
    } else if st == DraftStatus::Done {
        Ok((DraftStatus::Done, d.warnings))
    } else {
        let o = spec_verify_possible(DraftView { status: DraftStatus::Clean, ..d }, probes);
        match o.result {
            Err(e) => Err(e),
            Ok(_) => Ok((DraftStatus::Ready, o.warnings)),
        }
    }
}

/// Verifies a draft against the machine: an already applied draft comes
/// back Done, an untouched one that fits comes back Ready (with its
/// warnings); a half-applied, conflicting or oversized one is refused.
pub fn verify_provision(draft: Draft, probes: &Vec<CallProbe>) -> (r: Result<Draft, String>)
    requires
        probes_fit(draft@.draft, probes@),
    ensures
        match spec_verify_provision(draft@, probes@) {
            Ok((st, w)) => (r matches Ok(d) && d.status == st && d@.warnings == w && d@.draft
                == draft@.draft && d@.draft_type == draft@.draft_type && d.auto_confirm
                == draft.auto_confirm),
            Err(e) => (r matches Err(m) && m@ == e),
        },
{
    let mut draft = draft;
    match verify_done(&mut draft, probes) {
        Err(e) => {
            return Err(e);
        },
        Ok(()) => {},
    }
    match draft.status {
        DraftStatus::Done => Ok(draft),
        DraftStatus::Dirty => Err(
            String::from_str("System is in a Dirty state. Manual intervention required."),
        ),
        DraftStatus::Clean => {
            match verify_possible(&mut draft, probes) {
                Err(e) => {
                    return Err(e);
                },
                Ok(()) => {},
            }
            match draft.status {
                DraftStatus::Ready => Ok(draft),
                DraftStatus::Invalid => Err(
                    String::from_str("System cannot fulfill this plan. Invalid hardware or math."),
                ),
                _ => Err(String::from_str("Architectural Error: Unexpected state after Pass 2.")),
            }
        },
        _ => Err(String::from_str("Architectural Error: Unexpected state after Pass 1.")),
    }
}

/// Whether the probe reports fit the draft (see `probes_fit`): one per
/// call, and one disk report per physical volume of each group. Callers
/// test this before `verify_provision`.
pub fn verification_preconditions(draft: &Draft, probes: &Vec<CallProbe>) -> (b: bool)
    ensures
        b == probes_fit(draft@.draft, probes@),
{
    let ghost calls = draft@.draft;
    let n = draft.draft.len();
    if probes.len() != n {
        return false;
    }
    let mut i: usize = 0;
    while i < n
        invariant
            n == draft.draft@.len(),
            calls == draft@.draft,
            probes@.len() == n,
            i <= n,
            forall|k: int|
                0 <= k < i && (#[trigger] calls[k]) is VgCreate ==> probes@[k].disks@.len()
                    == calls[k]->VgCreate_pvs.len(),
        decreases n - i,
    {
        assert(calls[i as int] == draft.draft@[i as int]@);
        match &draft.draft[i] {
            Call::VgCreate { pvs, .. } => {
                if probes[i].disks.len() != pvs.len() {
                    return false;
                }
            },
            _ => {},
        }
        i = i + 1;
    }
    true
}

pub open spec fn dirty_state_message() -> Seq<char> {
    "System is in a Dirty state. Manual intervention required."@
}

/// The exit status for a refusal of `verify_provision`: 4 for a draft
/// that is half applied, 1 for any other refusal.
pub open spec fn spec_exit_code(message: Seq<char>) -> i32 {
    if message == dirty_message() || message == dirty_state_message() {
        4
    } else {
        1
    }
}

/// The exit status for a refusal (see `spec_exit_code`).
pub fn exit_code(message: &str) -> (c: i32)
    ensures
        c == spec_exit_code(message@),
{
    if str_eq(message, "Draft is in a dirty/partial state.") || str_eq(
        message,
        "System is in a Dirty state. Manual intervention required.",
    ) {
        4
    } else {
        1
    }
}

pub open spec fn not_converged_message() -> Seq<char> {
    "Post-condition failure: the system does not match the plan after execution."@
}

/// The check after a run: the machine must now hold everything the draft
/// creates, that is pass 1 must find it Done.
pub fn verify_converged(draft: &Draft, probes: &Vec<CallProbe>) -> (r: Result<(), String>)
    requires
        probes@.len() == draft@.draft.len(),
    ensures
        r is Ok <==> done_status(draft@.draft, probes@) == DraftStatus::Done,
        r matches Err(m) ==> m@ == not_converged_message(),
{
    if pass_one(&draft.draft, probes) == DraftStatus::Done {
        Ok(())
    } else {
        Err(
            String::from_str(
                "Post-condition failure: the system does not match the plan after execution.",
            ),
        )
    }
}

// ----- laws -------------------------------------------------------------

/// A draft is accepted only as Done (already applied) or Ready (clean and
/// fitting on the disks).
pub proof fn law_accepted_status(d: DraftView, probes: Seq<CallProbe>)
    ensures
        spec_verify_provision(d, probes) matches Ok((st, _)) ==> st == DraftStatus::Done || st
            == DraftStatus::Ready,
{
}

/// A Ready draft needs no more extents than its groups provide.
pub proof fn law_ready_fits(d: DraftView, probes: Seq<CallProbe>)
    ensures
        spec_verify_provision(d, probes) matches Ok((st, _)) && st == DraftStatus::Ready ==> {
            let c = capacity(d.draft, probes, d.draft.len());
            &&& c.failure is None
            &&& requirement(d.draft, c.usable, c.pe, d.draft.len()) matches Ok(req)
            &&& req <= c.usable
        },
{
}

proof fn lemma_all_present(calls: Seq<CallView>, probes: Seq<CallProbe>, n: nat)
    requires
        n <= calls.len(),
        n <= probes.len(),
        forall|i: int| 0 <= i < n ==> (#[trigger] probes[i]).present,
    ensures
        matched_upto(calls, probes, n) + settled_upto(calls, probes, n) == n,
    decreases n,
{
    if n > 0 {
        lemma_all_present(calls, probes, (n - 1) as nat);
    }
}

proof fn lemma_none_present(calls: Seq<CallView>, probes: Seq<CallProbe>, n: nat)
    requires
        n <= calls.len(),
        n <= probes.len(),
        forall|i: int| 0 <= i < n ==> !(#[trigger] probes[i]).present,
    ensures
        matched_upto(calls, probes, n) == 0,
        settled_upto(calls, probes, n) == 0,
    decreases n,
{
    if n > 0 {
        lemma_none_present(calls, probes, (n - 1) as nat);
    }
}

/// Idempotency: when the machine already holds everything the draft
/// would create, the draft is accepted as Done, with nothing to do.
pub proof fn law_applied_draft_is_done(d: DraftView, probes: Seq<CallProbe>)
    requires
        probes.len() == d.draft.len(),
        forall|i: int| 0 <= i < probes.len() ==> (#[trigger] probes[i]).present,
    ensures
        done_status(d.draft, probes) == DraftStatus::Done,
        spec_verify_provision(d, probes) == Ok::<(DraftStatus, Seq<Seq<char>>), Seq<char>>(
            (DraftStatus::Done, d.warnings),
        ),
{
    lemma_all_present(d.draft, probes, d.draft.len());
}

/// A non-empty draft of which nothing exists yet is Clean after pass 1.
pub proof fn law_untouched_draft_is_clean(d: DraftView, probes: Seq<CallProbe>)
    requires
        probes.len() == d.draft.len(),
        d.draft.len() > 0,
        forall|i: int| 0 <= i < probes.len() ==> !(#[trigger] probes[i]).present,
    ensures
        done_status(d.draft, probes) == DraftStatus::Clean,
{
    lemma_none_present(d.draft, probes, d.draft.len());
}

/// Refusal over confusion: a half-applied draft is refused.
pub proof fn law_dirty_is_refused(d: DraftView, probes: Seq<CallProbe>)
    requires
        done_status(d.draft, probes) == DraftStatus::Dirty,
    ensures
        spec_verify_provision(d, probes) == Err::<(DraftStatus, Seq<Seq<char>>), Seq<char>>(
            dirty_message(),
        ),
{
}

proof fn lemma_screen_finds_conflict(calls: Seq<CallView>, probes: Seq<CallProbe>, k: nat, n: nat)
    requires
        k < n,
        pv_conflict(calls[k as int], probes[k as int]),
    ensures
        screen(calls, probes, n).conflict is Some,
    decreases n,
{
    if n > k + 1 {
        lemma_screen_finds_conflict(calls, probes, k, (n - 1) as nat);
    }
}

/// A device named in `/etc/fstab` is never wiped: an untouched draft that
/// would create a physical volume on a device whose signature the fstab
/// refers to (or that is mounted) is refused, and pass 2 marks it Dirty.
pub proof fn law_fstab_device_is_never_wiped(d: DraftView, probes: Seq<CallProbe>, k: int)
    requires
        done_status(d.draft, probes) == DraftStatus::Clean,
        0 <= k < d.draft.len(),
        pv_conflict(d.draft[k], probes[k]),
    ensures
        spec_verify_provision(d, probes) is Err,
        spec_verify_possible(DraftView { status: DraftStatus::Clean, ..d }, probes).status
            == DraftStatus::Dirty,
{
    lemma_screen_finds_conflict(d.draft, probes, k as nat, d.draft.len());
}

/// A mounted device is never wiped: an untouched draft that would create
/// a physical volume on a device that is mounted is refused, and pass 2
/// marks it Dirty; it never becomes Ready.
pub proof fn law_mounted_device_is_never_wiped(d: DraftView, probes: Seq<CallProbe>, k: int)
    requires
        done_status(d.draft, probes) == DraftStatus::Clean,
        0 <= k < d.draft.len(),
        d.draft[k] is PvCreate,
        probes[k].mounted,
    ensures
        spec_verify_provision(d, probes) is Err,
        spec_verify_possible(DraftView { status: DraftStatus::Clean, ..d }, probes).status
            == DraftStatus::Dirty,
{
    law_fstab_device_is_never_wiped(d, probes, k);
}

/// The extents of the first `n` disks, each counted as its size less the
/// metadata overhead, divided by the extent size.
pub open spec fn disk_extents(disks: Seq<DiskProbe>, pe: nat, n: nat) -> nat
    decreases n,
{
    if n == 0 {
        0
    } else {
        disk_extents(disks, pe, (n - 1) as nat) + ((disks[n - 1].size->Ok_0 - metadata_overhead()) as nat) / pe
    }
}

/// A disk that exists, whose size was read, and that is larger than the
/// metadata overhead.
pub open spec fn usable_disk(d: DiskProbe) -> bool {
    d.exists && d.size is Ok && d.size->Ok_0 > metadata_overhead()
}

/// The draft has one group, at `g`, with an extent size of `b` bytes.
pub open spec fn single_group(calls: Seq<CallView>, g: int, b: nat) -> bool {
    &&& 0 <= g < calls.len()
    &&& calls[g] is VgCreate
    &&& calls[g]->VgCreate_pe_size.spec_bytes() == Some(b)
    &&& b > 0
    &&& forall|k: int| 0 <= k < calls.len() && k != g ==> !((#[trigger] calls[k]) is VgCreate)
}

proof fn lemma_disk_extents_mono(disks: Seq<DiskProbe>, pe: nat, i: nat, n: nat)
    requires
        i <= n,
        pe > 0,
    ensures
        disk_extents(disks, pe, i) <= disk_extents(disks, pe, n),
    decreases n,
{
    if i < n {
        lemma_disk_extents_mono(disks, pe, i, (n - 1) as nat);
    }
}

proof fn lemma_disk_scan_closed(pvs: Seq<Seq<char>>, disks: Seq<DiskProbe>, pe: nat, j: nat, n: nat)
    requires
        pe > 0,
        j <= n,
        n <= disks.len(),
        forall|k: int| 0 <= k < j ==> usable_disk(#[trigger] disks[k]),
        disk_extents(disks, pe, n) <= u128_max(),
    ensures
        disk_scan(pvs, disks, Capacity { pe, usable: 0, failure: None }, j) == (Capacity {
            pe,
            usable: disk_extents(disks, pe, j),
            failure: None,
        }),
    decreases j,
{
    if j > 0 {
        lemma_disk_scan_closed(pvs, disks, pe, (j - 1) as nat, n);
        lemma_disk_extents_mono(disks, pe, j, n);
        assert(usable_disk(disks[j - 1]));
    }
}

proof fn lemma_capacity_single(
    calls: Seq<CallView>,
    probes: Seq<CallProbe>,
    g: int,
    b: nat,
    n: nat,
)
    requires
        single_group(calls, g, b),
        n <= calls.len(),
    ensures
        n <= g ==> capacity(calls, probes, n) == (Capacity { pe: 0, usable: 0, failure: None }),
        n > g ==> capacity(calls, probes, n) == capacity(calls, probes, (g + 1) as nat),
        n > g ==> capacity(calls, probes, (g + 1) as nat) == disk_scan(
            calls[g]->VgCreate_pvs,
            probes[g].disks@,
            Capacity { pe: b, usable: 0, failure: None },
            calls[g]->VgCreate_pvs.len(),
        ),
    decreases n,
{
    if n > 0 {
        lemma_capacity_single(calls, probes, g, b, (n - 1) as nat);
        if n - 1 != g {
            assert(!(calls[n - 1] is VgCreate));
        }
    }
}

/// The capacity of a draft with one group, closed form: when every disk
/// of the group exists, has a readable size and is larger than the
/// metadata overhead (and the total fits in 128 bits), the group's extent
/// size is `b` and the usable extents are the sum over its disks of their
/// size less the overhead, divided by `b`. An untouched draft with no
/// conflicting device is then Ready exactly when the extents its volumes
/// require fit, and Invalid with the counts otherwise.
pub proof fn law_capacity_closed_form(d: DraftView, probes: Seq<CallProbe>, g: int, b: nat)
    requires
        probes_fit(d.draft, probes),
        single_group(d.draft, g, b),
        forall|k: int|
            0 <= k < probes[g].disks@.len() ==> usable_disk(#[trigger] probes[g].disks@[k]),
        disk_extents(probes[g].disks@, b, probes[g].disks@.len()) <= u128_max(),
    ensures
        ({
            let u = disk_extents(probes[g].disks@, b, probes[g].disks@.len());
            let o = spec_verify_possible(DraftView { status: DraftStatus::Clean, ..d }, probes);
            &&& capacity(d.draft, probes, d.draft.len()) == (Capacity {
                pe: b,
                usable: u,
                failure: None,
            })
            &&& screen(d.draft, probes, d.draft.len()).conflict is None ==> match requirement(
                d.draft,
                u,
                b,
                d.draft.len(),
            ) {
                Ok(r) => (o.status == DraftStatus::Ready <==> r <= u) && (r > u ==> o.status
                    == DraftStatus::Invalid && o.result == Err::<(), Seq<char>>(
                    insufficient_message(r, u),
                )),
                Err(e) => o.status == DraftStatus::Invalid && o.result == Err::<(), Seq<char>>(e),
            }
        }),
{
    let calls = d.draft;
    let pvs = calls[g]->VgCreate_pvs;
    let disks = probes[g].disks@;
    lemma_capacity_single(calls, probes, g, b, calls.len());
    lemma_disk_scan_closed(pvs, disks, b, pvs.len(), pvs.len());
}

/// The first unusable disk decides: in a draft with one group, when the
/// disks of the group before position `j` are usable (and their extents
/// fit in 128 bits) and disk `j` is missing or no larger than the
/// metadata overhead, an untouched draft with no conflicting device is
/// Invalid, with the message that names disk `j`.
pub proof fn law_first_unusable_disk_decides(
    d: DraftView,
    probes: Seq<CallProbe>,
    g: int,
    b: nat,
    j: int,
)
    requires
        probes_fit(d.draft, probes),
        single_group(d.draft, g, b),
        0 <= j < probes[g].disks@.len(),
        forall|k: int| 0 <= k < j ==> usable_disk(#[trigger] probes[g].disks@[k]),
        disk_extents(probes[g].disks@, b, j as nat) <= u128_max(),
        !probes[g].disks@[j].exists || (probes[g].disks@[j].size matches Ok(s) && s
            <= metadata_overhead()),
        screen(d.draft, probes, d.draft.len()).conflict is None,
    ensures
        ({
            let o = spec_verify_possible(DraftView { status: DraftStatus::Clean, ..d }, probes);
            let path = d.draft[g]->VgCreate_pvs[j];
            &&& o.status == DraftStatus::Invalid
            &&& o.result == Err::<(), Seq<char>>(
                if !probes[g].disks@[j].exists {
                    missing_disk_message(path)
                } else {
                    small_disk_message(path)
                },
            )
        }),
{
    let calls = d.draft;
    let pvs = calls[g]->VgCreate_pvs;
    let disks = probes[g].disks@;
    let start = Capacity { pe: b, usable: 0, failure: None };
    lemma_capacity_single(calls, probes, g, b, calls.len());
    lemma_disk_scan_closed(pvs, disks, b, j as nat, j as nat);
    assert(disk_scan(pvs, disks, start, (j + 1) as nat).failure is Some);
    lemma_disk_scan_stops(pvs, disks, start, (j + 1) as nat, pvs.len());
}

/// The extents that one more volume adds, stated from its size alone: an
/// extent count adds itself; `k%VG` and `k%PVS` add `k` percent of all
/// usable extents, whatever earlier volumes required; `k%FREE` adds `k`
/// percent of the extents not yet required; a size in bytes adds its
/// bytes rounded up to whole extents. The total is refused when it leaves
/// the 128-bit range, and a size in bytes is refused when the extent size
/// is zero. Other calls add nothing.
pub proof fn law_volume_extents(calls: Seq<CallView>, u: nat, pe: nat, i: nat)
    requires
        i < calls.len(),
        requirement(calls, u, pe, i) is Ok,
    ensures
        ({
            let r = requirement(calls, u, pe, i)->Ok_0;
            let next = requirement(calls, u, pe, (i + 1) as nat);
            match calls[i as int] {
                CallView::LvCreate { size, .. } => {
                    let add: nat = match size {
                        SizeUnit::Extents(e) => e as nat,
                        SizeUnit::Percentage(p, PercentTarget::Free) => (if u >= r {
                            (u - r) as nat
                        } else {
                            0nat
                        }) * (p.spec_get() as nat) / 100,
                        SizeUnit::Percentage(p, _) => u * (p.spec_get() as nat) / 100,
                        _ => ((size.spec_bytes()->0 + pe - 1) as nat) / pe,
                    };
                    if size.spec_bytes() is Some && pe == 0 {
                        next == Err::<nat, Seq<char>>(zero_extent_message())
                    } else if r + add > u128_max() {
                        next == Err::<nat, Seq<char>>(extent_overflow_message())
                    } else {
                        next == Ok::<nat, Seq<char>>(r + add)
                    }
                },
                _ => next == Ok::<nat, Seq<char>>(r),
            }
        }),
{
}

/// An existing directory or filesystem never makes a draft half applied:
/// when every call other than a `Mkfs` or `Mkdir` is absent, and there is
/// at least one such call, pass 1 finds the draft Clean, whatever the
/// reports on the formatting and directory calls say.
pub proof fn law_side_steps_never_make_dirty(calls: Seq<CallView>, probes: Seq<CallProbe>)
    requires
        probes.len() == calls.len(),
        forall|i: int|
            0 <= i < calls.len() && !((#[trigger] calls[i]) is Mkfs || calls[i] is Mkdir)
                ==> !probes[i].present,
        exists|i: int| 0 <= i < calls.len() && !((#[trigger] calls[i]) is Mkfs || calls[i] is Mkdir),
    ensures
        done_status(calls, probes) == DraftStatus::Clean,
{
    let w = choose|i: int| 0 <= i < calls.len() && !((#[trigger] calls[i]) is Mkfs || calls[i] is Mkdir);
    lemma_no_counted_match(calls, probes, calls.len());
    lemma_settled_short(calls, probes, calls.len(), w);
}

proof fn lemma_no_counted_match(calls: Seq<CallView>, probes: Seq<CallProbe>, n: nat)
    requires
        n <= calls.len(),
        forall|i: int|
            0 <= i < calls.len() && !((#[trigger] calls[i]) is Mkfs || calls[i] is Mkdir)
                ==> !probes[i].present,
    ensures
        matched_upto(calls, probes, n) == 0,
    decreases n,
{
    if n > 0 {
        lemma_no_counted_match(calls, probes, (n - 1) as nat);
        let c = calls[n - 1];
        if !(c is Mkfs || c is Mkdir) {
            assert(!probes[n - 1].present);
        }
    }
}

proof fn lemma_settled_short(calls: Seq<CallView>, probes: Seq<CallProbe>, n: nat, w: int)
    requires
        n <= calls.len(),
        0 <= w < n,
        !(calls[w] is Mkfs || calls[w] is Mkdir),
    ensures
        settled_upto(calls, probes, n) < n,
    decreases n,
{
    lemma_settled_le(calls, probes, (n - 1) as nat);
    if w < n - 1 {
        lemma_settled_short(calls, probes, (n - 1) as nat, w);
    }
}

proof fn lemma_settled_le(calls: Seq<CallView>, probes: Seq<CallProbe>, n: nat)
    ensures
        settled_upto(calls, probes, n) <= n,
    decreases n,
{
    if n > 0 {
        lemma_settled_le(calls, probes, (n - 1) as nat);
    }
}

} // verus!
