//! Planning: a command becomes an ordered list of system calls.
use vstd::prelude::*;
use crate::domain::{
    Action, Call, CallView, Command, CommandView, Draft, DraftStatus, Filesystem, LvRequest,
    LvRequestView, SizeUnit, call_views, lv_views,
};

verus! {

/// The device node of logical volume `name` in group `vg`.
pub open spec fn device_path(vg: Seq<char>, name: Seq<char>) -> Seq<char> {
    "/dev/"@ + vg + "/"@ + name
}

/// The calls for one volume: create it; then either make and enable swap
/// with an fstab entry on `none`, or make the filesystem and, when a mount
/// point is given, create the directory, mount it and add the fstab entry.
pub open spec fn lv_calls(vg: Seq<char>, lv: LvRequestView) -> Seq<CallView> {
    let dev = device_path(vg, lv.name);
    let create = seq![CallView::LvCreate { vg, name: lv.name, size: lv.size }];
    match lv.fs {
        None => create,
        Some(m) => if m.fs == Filesystem::Swap {
            create + seq![
                CallView::MkSwap(dev),
                CallView::Fstab { device: dev, path: "none"@, fs: Filesystem::Swap },
            ]
        } else {
            create + seq![CallView::Mkfs { device: dev, fs: m.fs }] + match m.mount_path {
                None => Seq::<CallView>::empty(),
                Some(p) => seq![
                    CallView::Mkdir(p),
                    CallView::Mount { device: dev, path: p },
                    CallView::Fstab { device: dev, path: p, fs: m.fs },
                ],
            }
        },
    }
}

/// The calls for all volumes, volume after volume.
pub open spec fn lvs_calls(vg: Seq<char>, lvs: Seq<LvRequestView>) -> Seq<CallView>
    decreases lvs.len(),
{
    if lvs.len() == 0 {
        Seq::empty()
    } else {
        lvs_calls(vg, lvs.drop_last()) + lv_calls(vg, lvs.last())
    }
}

pub open spec fn pv_calls(pvs: Seq<Seq<char>>) -> Seq<CallView> {
    pvs.map_values(|p: Seq<char>| CallView::PvCreate(p))
}

/// The provisioning plan: every physical volume, then the volume group,
/// then the calls of each logical volume.
pub open spec fn spec_plan(
    pvs: Seq<Seq<char>>,
    vg: Seq<char>,
    pe: SizeUnit,
    lvs: Seq<LvRequestView>,
) -> Seq<CallView> {
    pv_calls(pvs) + seq![CallView::VgCreate { name: vg, pvs, pe_size: pe }] + lvs_calls(vg, lvs)
}

fn push_call(calls: &mut Vec<Call>, c: Call)
    ensures
        call_views(final(calls)@) == call_views(old(calls)@).push(c@),
{
    let ghost before = call_views(calls@);
    calls.push(c);
    assert(call_views(calls@) =~= before.push(c@));
}

/// Appends the calls of one volume (see `lv_calls`).
fn push_lv_calls(calls: &mut Vec<Call>, vg: &String, lv: &LvRequest)
    ensures
        call_views(final(calls)@) == call_views(old(calls)@) + lv_calls(vg@, lv@),
{
    let ghost start = call_views(calls@);
    let mut dev = String::from_str("/dev/");
    dev.append(vg.as_str());
    dev.append("/");
    dev.append(lv.name.as_str());
    assert(dev@ =~= device_path(vg@, lv.name@));
    push_call(calls, Call::LvCreate { vg: vg.clone(), name: lv.name.clone(), size: lv.size });
    let ghost c1 = CallView::LvCreate { vg: vg@, name: lv.name@, size: lv.size };
    match &lv.fs {
        None => {
            assert(call_views(calls@) =~= start + lv_calls(vg@, lv@));
        },
        Some(m) => {
            if m.fs == Filesystem::Swap {
                push_call(calls, Call::MkSwap(dev.clone()));
                push_call(
                    calls,
                    Call::Fstab { device: dev.clone(), path: String::from_str("none"), fs: m.fs },
                );
                assert(call_views(calls@) =~= start + lv_calls(vg@, lv@));
            } else {
                push_call(calls, Call::Mkfs { device: dev.clone(), fs: m.fs });
                match &m.mount_path {
                    None => {
                        assert(call_views(calls@) =~= start + lv_calls(vg@, lv@));
                    },
                    Some(p) => {
                        push_call(calls, Call::Mkdir(p.clone()));
                        push_call(calls, Call::Mount { device: dev.clone(), path: p.clone() });
                        push_call(calls, Call::Fstab { device: dev.clone(), path: p.clone(), fs: m.fs });
                        assert(call_views(calls@) =~= start + lv_calls(vg@, lv@));
                    },
                }
            }
        },
    }
}

/// Plans the provisioning of `lvs` in group `vg_name` built from `pvs`
/// (see `spec_plan`). Planning never fails.
pub fn plan_provision(
    pvs: Vec<String>,
    vg_name: String,
    pe_size: SizeUnit,
    lvs: Vec<LvRequest>,
) -> (r: Result<Vec<Call>, String>)
    ensures
        r matches Ok(calls) && call_views(calls@) == spec_plan(
            pvs.deep_view(),
            vg_name@,
            pe_size,
            lv_views(lvs@),
        ),
{
    let ghost pv = pvs.deep_view();
    let ghost lv = lv_views(lvs@);
    let mut calls: Vec<Call> = Vec::new();
    let mut j: usize = 0;
    assert(call_views(calls@) =~= pv_calls(pv.take(0)));
    while j < pvs.len()
        invariant
            j <= pvs.len(),
            pv == pvs.deep_view(),
            call_views(calls@) == pv_calls(pv.take(j as int)),
        decreases pvs.len() - j,
    {
        push_call(&mut calls, Call::PvCreate(pvs[j].clone()));
        assert(pv[j as int] == pvs@[j as int]@);
        assert(pv_calls(pv.take(j + 1)) =~= pv_calls(pv.take(j as int)).push(
            CallView::PvCreate(pv[j as int]),
        ));
        j = j + 1;
    }
    assert(pv.take(pvs.len() as int) =~= pv);
    let vg_create = Call::VgCreate { name: vg_name.clone(), pvs, pe_size };
    assert(vg_create@ == CallView::VgCreate { name: vg_name@, pvs: pv, pe_size });
    push_call(&mut calls, vg_create);
    let ghost head = call_views(calls@);
    let mut k: usize = 0;
    assert(lv.take(0) =~= Seq::<LvRequestView>::empty());
    assert(call_views(calls@) =~= head + lvs_calls(vg_name@, lv.take(0)));
    while k < lvs.len()
        invariant
            k <= lvs.len(),
            lv == lv_views(lvs@),
            call_views(calls@) == head + lvs_calls(vg_name@, lv.take(k as int)),
        decreases lvs.len() - k,
    {
        push_lv_calls(&mut calls, &vg_name, &lvs[k]);
        assert(lv.take(k + 1).drop_last() =~= lv.take(k as int));
        assert(lv.take(k + 1).last() == lvs@[k as int]@);
        assert(call_views(calls@) =~= head + lvs_calls(vg_name@, lv.take(k + 1)));
        k = k + 1;
    }
    assert(lv.take(lvs.len() as int) =~= lv);
    assert(call_views(calls@) =~= spec_plan(pv, vg_name@, pe_size, lv));
    Ok(calls)
}

/// Plans an action into a pending draft with no warnings, keeping the
/// confirmation toggle.
pub fn plan(action: Action) -> (r: Result<Draft, String>)
    ensures
        match action@.command {
            CommandView::Provision { pvs, vg_name, pe_size, lvs } => r matches Ok(d) && {
                &&& d@.draft_type == "provision"@
                &&& d@.draft == spec_plan(pvs, vg_name, pe_size, lvs)
                &&& d.status == DraftStatus::Pending
                &&& d.auto_confirm == action.auto_confirm
                &&& d@.warnings.len() == 0
            },
        },
{
    match action.command {
        Command::Provision { pvs, vg_name, pe_size, lvs } => {
            let calls = match plan_provision(pvs, vg_name, pe_size, lvs) {
                Ok(c) => c,
                Err(e) => {
                    return Err(e);
                },
            };
            Ok(
                Draft {
                    draft_type: String::from_str("provision"),
                    draft: calls,
                    status: DraftStatus::Pending,
                    auto_confirm: action.auto_confirm,
                    warnings: Vec::new(),
                },
            )
        },
    }
}

// ----- laws -------------------------------------------------------------

/// The device node a call acts on, for the calls that act on one.
pub open spec fn device_of(c: CallView) -> Option<Seq<char>> {
    match c {
        CallView::Mkfs { device, .. } => Some(device),
        CallView::MkSwap(d) => Some(d),
        CallView::Mount { device, .. } => Some(device),
        CallView::Fstab { device, .. } => Some(device),
        _ => None,
    }
}

/// Whether call `c` puts a filesystem or swap on device `dev`.
pub open spec fn formats(c: CallView, dev: Seq<char>) -> bool {
    ||| (c is Mkfs && c->Mkfs_device == dev)
    ||| (c is MkSwap && c->MkSwap_0 == dev)
}

/// Whether a call uses a formatted device: a mount or an fstab entry.
pub open spec fn uses_format(c: CallView) -> bool {
    c is Mount || c is Fstab
}

/// The kinds of call that a plan counts.
pub enum CallKind {
    PvCreate,
    VgCreate,
    LvCreate,
    Other,
}

/// The kind of a call.
pub open spec fn kind_of(c: CallView) -> CallKind {
    match c {
        CallView::PvCreate(_) => CallKind::PvCreate,
        CallView::VgCreate { .. } => CallKind::VgCreate,
        CallView::LvCreate { .. } => CallKind::LvCreate,
        _ => CallKind::Other,
    }
}

/// The number of calls of kind `k` in `s`.
pub open spec fn count_calls(s: Seq<CallView>, k: CallKind) -> nat
    decreases s.len(),
{
    if s.len() == 0 {
        0
    } else {
        count_calls(s.drop_last(), k) + if kind_of(s.last()) == k {
            1nat
        } else {
            0nat
        }
    }
}

proof fn lemma_count_concat(a: Seq<CallView>, b: Seq<CallView>, k: CallKind)
    ensures
        count_calls(a + b, k) == count_calls(a, k) + count_calls(b, k),
    decreases b.len(),
{
    if b.len() == 0 {
        assert(a + b =~= a);
    } else {
        assert((a + b).drop_last() =~= a + b.drop_last());
        lemma_count_concat(a, b.drop_last(), k);
    }
}

proof fn lemma_count_none(s: Seq<CallView>, k: CallKind)
    requires
        forall|j: int| 0 <= j < s.len() ==> kind_of(#[trigger] s[j]) != k,
    ensures
        count_calls(s, k) == 0,
    decreases s.len(),
{
    if s.len() > 0 {
        lemma_count_none(s.drop_last(), k);
    }
}

proof fn lemma_count_all(s: Seq<CallView>, k: CallKind)
    requires
        forall|j: int| 0 <= j < s.len() ==> kind_of(#[trigger] s[j]) == k,
    ensures
        count_calls(s, k) == s.len(),
    decreases s.len(),
{
    if s.len() > 0 {
        lemma_count_all(s.drop_last(), k);
    }
}

proof fn lemma_lv_calls_shape(vg: Seq<char>, lv: LvRequestView)
    ensures
        ({
            let b = lv_calls(vg, lv);
            &&& b.len() >= 1
            &&& b[0] == CallView::LvCreate { vg, name: lv.name, size: lv.size }
            &&& forall|j: int|
                1 <= j < b.len() ==> !((#[trigger] b[j]) is LvCreate) && !(b[j] is PvCreate)
                    && !(b[j] is VgCreate)
            &&& forall|j: int|
                1 <= j < b.len() && device_of(#[trigger] b[j]) is Some ==> device_of(b[j])
                    == Some(device_path(vg, lv.name))
            &&& device_of(b[0]) is None
            &&& forall|j: int|
                0 <= j < b.len() && (#[trigger] b[j]) is Mount ==> j >= 1 && b[j - 1]
                    == CallView::Mkdir(b[j]->Mount_path)
            &&& forall|j: int|
                0 <= j < b.len() && uses_format(#[trigger] b[j]) ==> j >= 2 && formats(
                    b[1],
                    device_of(b[j])->0,
                )
        }),
{
    let dev = device_path(vg, lv.name);
    let c = CallView::LvCreate { vg, name: lv.name, size: lv.size };
    match lv.fs {
        None => {
            assert(lv_calls(vg, lv) =~= seq![c]);
        },
        Some(m) => {
            if m.fs == Filesystem::Swap {
                assert(lv_calls(vg, lv) =~= seq![
                    c,
                    CallView::MkSwap(dev),
                    CallView::Fstab { device: dev, path: "none"@, fs: Filesystem::Swap },
                ]);
            } else {
                match m.mount_path {
                    None => {
                        assert(lv_calls(vg, lv) =~= seq![c, CallView::Mkfs { device: dev, fs: m.fs }]);
                    },
                    Some(p) => {
                        assert(lv_calls(vg, lv) =~= seq![
                            c,
                            CallView::Mkfs { device: dev, fs: m.fs },
                            CallView::Mkdir(p),
                            CallView::Mount { device: dev, path: p },
                            CallView::Fstab { device: dev, path: p, fs: m.fs },
                        ]);
                    },
                }
            }
        },
    }
}

/// The order facts of a run of volume calls in group `vg`.
pub open spec fn volume_calls_ordered(calls: Seq<CallView>, vg: Seq<char>) -> bool {
    &&& forall|i: int|
        0 <= i < calls.len() ==> !((#[trigger] calls[i]) is PvCreate) && !(calls[i] is VgCreate)
    &&& forall|i: int|
        0 <= i < calls.len() && (#[trigger] calls[i]) is LvCreate ==> calls[i]->LvCreate_vg == vg
    &&& forall|i: int|
        0 <= i < calls.len() && device_of(#[trigger] calls[i]) is Some ==> exists|k: int|
            0 <= k < i && calls[k] is LvCreate && device_of(calls[i]) == Some(
                device_path(vg, #[trigger] calls[k]->LvCreate_name),
            )
    &&& forall|i: int|
        0 <= i < calls.len() && (#[trigger] calls[i]) is Mount ==> exists|k: int|
            0 <= k < i && #[trigger] calls[k] == CallView::Mkdir(calls[i]->Mount_path)
    &&& forall|i: int|
        0 <= i < calls.len() && uses_format(#[trigger] calls[i]) ==> exists|k: int|
            0 <= k < i && formats(#[trigger] calls[k], device_of(calls[i])->0)
}

proof fn lemma_lvs_calls_ordered(vg: Seq<char>, lvs: Seq<LvRequestView>)
    ensures
        volume_calls_ordered(lvs_calls(vg, lvs), vg),
    decreases lvs.len(),
{
    if lvs.len() > 0 {
        let a = lvs_calls(vg, lvs.drop_last());
        let b = lv_calls(vg, lvs.last());
        let s = lvs_calls(vg, lvs);
        lemma_lvs_calls_ordered(vg, lvs.drop_last());
        lemma_lv_calls_shape(vg, lvs.last());
        assert(s == a + b);
        assert forall|i: int|
            0 <= i < s.len() && device_of(#[trigger] s[i]) is Some implies exists|k: int|
                0 <= k < i && s[k] is LvCreate && device_of(s[i]) == Some(
                    device_path(vg, #[trigger] s[k]->LvCreate_name),
                ) by {
            if i < a.len() {
                assert(s[i] == a[i]);
                let k = choose|k: int|
                    0 <= k < i && a[k] is LvCreate && device_of(a[i]) == Some(
                        device_path(vg, #[trigger] a[k]->LvCreate_name),
                    );
                assert(s[k] == a[k]);
            } else {
                let j = i - a.len();
                assert(s[i] == b[j]);
                assert(s[a.len() as int] == b[0]);
            }
        }
        assert forall|i: int|
            0 <= i < s.len() && (#[trigger] s[i]) is Mount implies exists|k: int|
                0 <= k < i && #[trigger] s[k] == CallView::Mkdir(s[i]->Mount_path) by {
            if i < a.len() {
                assert(s[i] == a[i]);
                let k = choose|k: int|
                    0 <= k < i && #[trigger] a[k] == CallView::Mkdir(a[i]->Mount_path);
                assert(s[k] == a[k]);
            } else {
                let j = i - a.len();
                assert(s[i] == b[j]);
                assert(s[i - 1] == b[j - 1]);
            }
        }
        assert forall|i: int|
            0 <= i < s.len() && uses_format(#[trigger] s[i]) implies exists|k: int|
                0 <= k < i && formats(#[trigger] s[k], device_of(s[i])->0) by {
            if i < a.len() {
                assert(s[i] == a[i]);
                let k = choose|k: int| 0 <= k < i && formats(#[trigger] a[k], device_of(a[i])->0);
                assert(s[k] == a[k]);
            } else {
                let j = i - a.len();
                assert(s[i] == b[j]);
                assert(s[a.len() + 1int] == b[1]);
            }
        }
        assert forall|i: int| 0 <= i < s.len() implies !((#[trigger] s[i]) is PvCreate) && !(
        s[i] is VgCreate) by {
            if i < a.len() {
                assert(s[i] == a[i]);
            } else {
                assert(s[i] == b[i - a.len()]);
            }
        }
        assert forall|i: int|
            0 <= i < s.len() && (#[trigger] s[i]) is LvCreate implies s[i]->LvCreate_vg == vg by {
            if i < a.len() {
                assert(s[i] == a[i]);
            } else {
                assert(s[i] == b[i - a.len()]);
            }
        }
    }
}

/// Dependency order of a plan: the physical volumes come first, in the
/// given order, then the volume group; every logical volume is created
/// in that group after it; every formatting, swap, mount or fstab call
/// acts on the device node of a volume created before it; every mount
/// comes after the creation of its directory; and every mount or fstab
/// entry comes after the formatting (filesystem or swap) of its device.
pub proof fn law_plan_dependencies(
    pvs: Seq<Seq<char>>,
    vg: Seq<char>,
    pe: SizeUnit,
    lvs: Seq<LvRequestView>,
)
    ensures
        ({
            let p = spec_plan(pvs, vg, pe, lvs);
            let m = pvs.len() as int;
            &&& forall|i: int| 0 <= i < m ==> #[trigger] p[i] == CallView::PvCreate(pvs[i])
            &&& p[m] == CallView::VgCreate { name: vg, pvs, pe_size: pe }
            &&& forall|i: int|
                m < i < p.len() ==> !((#[trigger] p[i]) is PvCreate) && !(p[i] is VgCreate)
            &&& forall|i: int|
                0 <= i < p.len() && (#[trigger] p[i]) is LvCreate ==> i > m && p[i]->LvCreate_vg
                    == vg
            &&& forall|i: int|
                0 <= i < p.len() && device_of(#[trigger] p[i]) is Some ==> exists|k: int|
                    m < k < i && p[k] is LvCreate && device_of(p[i]) == Some(
                        device_path(vg, #[trigger] p[k]->LvCreate_name),
                    )
            &&& forall|i: int|
                0 <= i < p.len() && (#[trigger] p[i]) is Mount ==> exists|k: int|
                    m < k < i && #[trigger] p[k] == CallView::Mkdir(p[i]->Mount_path)
            &&& forall|i: int|
                0 <= i < p.len() && uses_format(#[trigger] p[i]) ==> exists|k: int|
                    m < k < i && formats(#[trigger] p[k], device_of(p[i])->0)
        }),
{
    let p = spec_plan(pvs, vg, pe, lvs);
    let m = pvs.len() as int;
    let l = lvs_calls(vg, lvs);
    let h = pv_calls(pvs) + seq![CallView::VgCreate { name: vg, pvs, pe_size: pe }];
    lemma_lvs_calls_ordered(vg, lvs);
    assert(p == h + l);
    assert(h.len() == m + 1);
    assert forall|i: int| 0 <= i < p.len() && (#[trigger] p[i]) is LvCreate implies i > m
        && p[i]->LvCreate_vg == vg by {
        if i <= m {
            assert(p[i] == h[i]);
        } else {
            assert(p[i] == l[i - m - 1]);
        }
    }
    assert forall|i: int|
        0 <= i < p.len() && device_of(#[trigger] p[i]) is Some implies exists|k: int|
            m < k < i && p[k] is LvCreate && device_of(p[i]) == Some(
                device_path(vg, #[trigger] p[k]->LvCreate_name),
            ) by {
        if i <= m {
            assert(p[i] == h[i]);
        } else {
            let j = i - m - 1;
            assert(p[i] == l[j]);
            let k = choose|k: int|
                0 <= k < j && l[k] is LvCreate && device_of(l[j]) == Some(
                    device_path(vg, #[trigger] l[k]->LvCreate_name),
                );
            assert(p[k + m + 1] == l[k]);
        }
    }
    assert forall|i: int| 0 <= i < p.len() && (#[trigger] p[i]) is Mount implies exists|k: int|
        m < k < i && #[trigger] p[k] == CallView::Mkdir(p[i]->Mount_path) by {
        if i <= m {
            assert(p[i] == h[i]);
        } else {
            let j = i - m - 1;
            assert(p[i] == l[j]);
            let k = choose|k: int| 0 <= k < j && #[trigger] l[k] == CallView::Mkdir(l[j]->Mount_path);
            assert(p[k + m + 1] == l[k]);
        }
    }
    assert forall|i: int|
        0 <= i < p.len() && uses_format(#[trigger] p[i]) implies exists|k: int|
            m < k < i && formats(#[trigger] p[k], device_of(p[i])->0) by {
        if i <= m {
            assert(p[i] == h[i]);
        } else {
            let j = i - m - 1;
            assert(p[i] == l[j]);
            let k = choose|k: int| 0 <= k < j && formats(#[trigger] l[k], device_of(l[j])->0);
            assert(p[k + m + 1] == l[k]);
        }
    }
    assert forall|i: int| m < i < p.len() implies !((#[trigger] p[i]) is PvCreate) && !(
    p[i] is VgCreate) by {
        assert(p[i] == l[i - m - 1]);
    }
}

/// Position `i` of the volume calls lies in the block of volume `j`,
/// which begins at `st`.
pub open spec fn in_block(
    calls: Seq<CallView>,
    vg: Seq<char>,
    lvs: Seq<LvRequestView>,
    i: int,
    j: int,
    st: int,
) -> bool {
    let b = lv_calls(vg, lvs[j]);
    &&& 0 <= j < lvs.len()
    &&& 0 <= st <= i < st + b.len()
    &&& st + b.len() <= calls.len()
    &&& forall|o: int| 0 <= o < b.len() ==> calls[st + o] == #[trigger] b[o]
}

/// Position `i` of the volume calls lies in the block of some volume.
pub open spec fn in_some_block(calls: Seq<CallView>, vg: Seq<char>, lvs: Seq<LvRequestView>, i: int) -> bool {
    exists|j: int, st: int| #[trigger] in_block(calls, vg, lvs, i, j, st)
}

proof fn lemma_blocks(vg: Seq<char>, lvs: Seq<LvRequestView>)
    ensures
        forall|i: int|
            0 <= i < lvs_calls(vg, lvs).len() ==> #[trigger] in_some_block(
                lvs_calls(vg, lvs),
                vg,
                lvs,
                i,
            ),
    decreases lvs.len(),
{
    if lvs.len() > 0 {
        let init = lvs.drop_last();
        lemma_blocks(vg, init);
        let a = lvs_calls(vg, init);
        let b = lv_calls(vg, lvs.last());
        let s = lvs_calls(vg, lvs);
        assert(s == a + b);
        assert forall|i: int| 0 <= i < s.len() implies #[trigger] in_some_block(s, vg, lvs, i) by {
            if i < a.len() {
                assert(in_some_block(a, vg, init, i));
                let (j, st) = choose|j: int, st: int| #[trigger] in_block(a, vg, init, i, j, st);
                assert(lvs[j] == init[j]);
                assert forall|o: int| 0 <= o < lv_calls(vg, lvs[j]).len() implies s[st + o]
                    == #[trigger] lv_calls(vg, lvs[j])[o] by {
                    assert(a[st + o] == lv_calls(vg, init[j])[o]);
                }
                assert(in_block(s, vg, lvs, i, j, st));
            } else {
                let j = lvs.len() - 1;
                let st = a.len() as int;
                assert(lvs[j] == lvs.last());
                assert(in_block(s, vg, lvs, i, j, st));
            }
        }
    }
}

/// The phases of a plan and the naming of its devices: every `PvCreate`
/// comes before every `VgCreate`, which comes before every `LvCreate`;
/// every device that a call formats, mounts or lists in fstab is
/// `/dev/<group>/<volume>` for a requested volume, created in that group
/// before the call; and every mount or fstab entry of a volume comes
/// after its creation and then its formatting.
pub proof fn law_plan_phases(pvs: Seq<Seq<char>>, vg: Seq<char>, pe: SizeUnit, lvs: Seq<LvRequestView>)
    ensures
        ({
            let p = spec_plan(pvs, vg, pe, lvs);
            &&& forall|i: int, j: int|
                0 <= i < p.len() && 0 <= j < p.len() && (#[trigger] p[i]) is PvCreate && (
                #[trigger] p[j]) is VgCreate ==> i < j
            &&& forall|i: int, j: int|
                0 <= i < p.len() && 0 <= j < p.len() && (#[trigger] p[i]) is VgCreate && (
                #[trigger] p[j]) is LvCreate ==> i < j
            &&& forall|i: int|
                0 <= i < p.len() && device_of(#[trigger] p[i]) is Some ==> exists|k: int, j: int|
                    #![trigger p[k], lvs[j]]
                    0 <= k < i && 0 <= j < lvs.len() && p[k] == CallView::LvCreate {
                        vg,
                        name: lvs[j].name,
                        size: lvs[j].size,
                    } && device_of(p[i]) == Some(device_path(vg, lvs[j].name))
            &&& forall|i: int|
                0 <= i < p.len() && uses_format(#[trigger] p[i]) ==> exists|k1: int, k2: int|
                    #![trigger p[k1], p[k2]]
                    0 <= k1 < k2 < i && p[k1] is LvCreate && device_of(p[i]) == Some(
                        device_path(vg, p[k1]->LvCreate_name),
                    ) && formats(p[k2], device_of(p[i])->0)
        }),
{
    let p = spec_plan(pvs, vg, pe, lvs);
    let m = pvs.len() as int;
    let l = lvs_calls(vg, lvs);
    law_plan_dependencies(pvs, vg, pe, lvs);
    lemma_blocks(vg, lvs);
    assert(p.len() == m + 1 + l.len());
    assert forall|i: int| 0 <= i < l.len() implies p[m + 1 + i] == #[trigger] l[i] by {}
    assert forall|i: int, j: int|
        0 <= i < p.len() && 0 <= j < p.len() && (#[trigger] p[i]) is PvCreate && (
        #[trigger] p[j]) is VgCreate implies i < j by {
        if i >= m {
            assert(i != m);
        }
        if j != m {
            assert(j > m);
        }
    }
    assert forall|i: int, j: int|
        0 <= i < p.len() && 0 <= j < p.len() && (#[trigger] p[i]) is VgCreate && (
        #[trigger] p[j]) is LvCreate implies i < j by {
        if i != m {
            if i < m {
                assert(p[i] == CallView::PvCreate(pvs[i]));
            }
        }
    }
    assert forall|i: int| 0 <= i < p.len() && device_of(#[trigger] p[i]) is Some implies exists|
        k: int,
        j: int,
    |
        #![trigger p[k], lvs[j]]
        0 <= k < i && 0 <= j < lvs.len() && p[k] == CallView::LvCreate {
            vg,
            name: lvs[j].name,
            size: lvs[j].size,
        } && device_of(p[i]) == Some(device_path(vg, lvs[j].name)) by {
        if i <= m {
            if i < m {
                assert(p[i] == CallView::PvCreate(pvs[i]));
            }
        } else {
            let q = i - m - 1;
            assert(p[i] == l[q]);
            assert(in_some_block(l, vg, lvs, q));
            let (j, st) = choose|j: int, st: int| #[trigger] in_block(l, vg, lvs, q, j, st);
            let b = lv_calls(vg, lvs[j]);
            lemma_lv_calls_shape(vg, lvs[j]);
            assert(l[st + (q - st)] == b[q - st]);
            assert(l[st + 0] == b[0]);
            assert(q - st >= 1);
            assert(p[m + 1 + st] == l[st]);
            assert(p[m + 1 + st] == CallView::LvCreate { vg, name: lvs[j].name, size: lvs[j].size });
        }
    }
    assert forall|i: int| 0 <= i < p.len() && uses_format(#[trigger] p[i]) implies exists|
        k1: int,
        k2: int,
    |
        #![trigger p[k1], p[k2]]
        0 <= k1 < k2 < i && p[k1] is LvCreate && device_of(p[i]) == Some(
            device_path(vg, p[k1]->LvCreate_name),
        ) && formats(p[k2], device_of(p[i])->0) by {
        if i <= m {
            if i < m {
                assert(p[i] == CallView::PvCreate(pvs[i]));
            }
        } else {
            let q = i - m - 1;
            assert(p[i] == l[q]);
            assert(in_some_block(l, vg, lvs, q));
            let (j, st) = choose|j: int, st: int| #[trigger] in_block(l, vg, lvs, q, j, st);
            let b = lv_calls(vg, lvs[j]);
            lemma_lv_calls_shape(vg, lvs[j]);
            assert(l[st + (q - st)] == b[q - st]);
            assert(l[st + 0] == b[0]);
            assert(l[st + 1] == b[1]);
            assert(p[m + 1 + st] == l[st]);
            assert(p[m + 1 + st + 1] == l[st + 1]);
        }
    }
}

proof fn lemma_lvs_count_lv(vg: Seq<char>, lvs: Seq<LvRequestView>)
    ensures
        count_calls(lvs_calls(vg, lvs), CallKind::LvCreate) == lvs.len(),
    decreases lvs.len(),
{
    if lvs.len() > 0 {
        let a = lvs_calls(vg, lvs.drop_last());
        let b = lv_calls(vg, lvs.last());
        lemma_lvs_count_lv(vg, lvs.drop_last());
        lemma_lv_calls_shape(vg, lvs.last());
        lemma_count_concat(a, b, CallKind::LvCreate);
        let first = seq![b[0]];
        let rest = b.skip(1);
        assert(b =~= first + rest);
        lemma_count_concat(first, rest, CallKind::LvCreate);
        assert forall|j: int| 0 <= j < rest.len() implies kind_of(#[trigger] rest[j]) != CallKind::LvCreate by {
            assert(rest[j] == b[j + 1]);
        }
        lemma_count_none(rest, CallKind::LvCreate);
        assert(first.drop_last() =~= Seq::<CallView>::empty());
        assert(count_calls(Seq::<CallView>::empty(), CallKind::LvCreate) == 0);
        assert(kind_of(first.last()) == CallKind::LvCreate);
        assert(count_calls(first, CallKind::LvCreate) == 1);
        assert(count_calls(b, CallKind::LvCreate) == 1);
        assert(lvs_calls(vg, lvs) == a + b);
    }
}

proof fn lemma_head_counts(pvs: Seq<Seq<char>>, vg: Seq<char>, pe: SizeUnit)
    ensures
        ({
            let h = pv_calls(pvs) + seq![CallView::VgCreate { name: vg, pvs, pe_size: pe }];
            &&& count_calls(h, CallKind::PvCreate) == pvs.len()
            &&& count_calls(h, CallKind::VgCreate) == 1
            &&& count_calls(h, CallKind::LvCreate) == 0
        }),
{
    let a = pv_calls(pvs);
    let v = seq![CallView::VgCreate { name: vg, pvs, pe_size: pe }];
    assert forall|j: int| 0 <= j < a.len() implies kind_of(#[trigger] a[j]) == CallKind::PvCreate by {}
    lemma_count_all(a, CallKind::PvCreate);
    lemma_count_none(a, CallKind::LvCreate);
    lemma_count_none(a, CallKind::VgCreate);
    lemma_count_concat(a, v, CallKind::LvCreate);
    lemma_count_concat(a, v, CallKind::PvCreate);
    lemma_count_concat(a, v, CallKind::VgCreate);
    assert(v.drop_last() =~= Seq::<CallView>::empty());
    assert(count_calls(Seq::<CallView>::empty(), CallKind::VgCreate) == 0);
    assert(count_calls(Seq::<CallView>::empty(), CallKind::PvCreate) == 0);
    assert(count_calls(Seq::<CallView>::empty(), CallKind::LvCreate) == 0);
    assert(count_calls(v, CallKind::VgCreate) == 1);
    assert(count_calls(v, CallKind::PvCreate) == 0);
    assert(count_calls(v, CallKind::LvCreate) == 0);
}

/// A plan holds one `PvCreate` per physical volume, one `VgCreate`, and
/// one `LvCreate` per requested volume.
pub proof fn law_plan_counts(
    pvs: Seq<Seq<char>>,
    vg: Seq<char>,
    pe: SizeUnit,
    lvs: Seq<LvRequestView>,
)
    ensures
        count_calls(spec_plan(pvs, vg, pe, lvs), CallKind::PvCreate) == pvs.len(),
        count_calls(spec_plan(pvs, vg, pe, lvs), CallKind::VgCreate) == 1,
        count_calls(spec_plan(pvs, vg, pe, lvs), CallKind::LvCreate) == lvs.len(),
{
    let h = pv_calls(pvs) + seq![CallView::VgCreate { name: vg, pvs, pe_size: pe }];
    let l = lvs_calls(vg, lvs);
    lemma_head_counts(pvs, vg, pe);
    lemma_lvs_count_lv(vg, lvs);
    lemma_lvs_calls_ordered(vg, lvs);
    assert forall|j: int| 0 <= j < l.len() implies kind_of(#[trigger] l[j]) != CallKind::PvCreate
        && kind_of(l[j]) != CallKind::VgCreate by {}
    lemma_count_none(l, CallKind::PvCreate);
    lemma_count_none(l, CallKind::VgCreate);
    lemma_count_concat(h, l, CallKind::LvCreate);
    lemma_count_concat(h, l, CallKind::PvCreate);
    lemma_count_concat(h, l, CallKind::VgCreate);
}

/// `b` stands in `l` from position `st` on.
pub open spec fn block_at(l: Seq<CallView>, b: Seq<CallView>, st: int) -> bool {
    &&& 0 <= st
    &&& st + b.len() <= l.len()
    &&& forall|o: int| 0 <= o < b.len() ==> l[st + o] == #[trigger] b[o]
}

proof fn lemma_each_volume_has_block(vg: Seq<char>, lvs: Seq<LvRequestView>, j: int)
    requires
        0 <= j < lvs.len(),
    ensures
        exists|st: int| #[trigger] block_at(lvs_calls(vg, lvs), lv_calls(vg, lvs[j]), st),
    decreases lvs.len(),
{
    let init = lvs.drop_last();
    let a = lvs_calls(vg, init);
    let b = lv_calls(vg, lvs.last());
    let s = lvs_calls(vg, lvs);
    assert(s == a + b);
    if j < lvs.len() - 1 {
        assert(lvs[j] == init[j]);
        lemma_each_volume_has_block(vg, init, j);
        let st = choose|st: int| #[trigger] block_at(a, lv_calls(vg, init[j]), st);
        assert forall|o: int| 0 <= o < lv_calls(vg, lvs[j]).len() implies s[st + o]
            == #[trigger] lv_calls(vg, lvs[j])[o] by {
            assert(a[st + o] == lv_calls(vg, init[j])[o]);
        }
        assert(block_at(s, lv_calls(vg, lvs[j]), st));
    } else {
        let st = a.len() as int;
        assert(lvs[j] == lvs.last());
        assert(block_at(s, lv_calls(vg, lvs[j]), st));
    }
}

/// Every requested volume gets what it asked for: it is created in the
/// group with its name and size; a filesystem other than swap is made on
/// `/dev/<group>/<name>` with the requested filesystem, and, with a mount
/// point, the directory is made, the device mounted there and an fstab
/// entry written with that filesystem; swap is made and enabled on the
/// device, with an fstab entry on `none`.
pub proof fn law_volumes_get_what_they_ask(
    pvs: Seq<Seq<char>>,
    vg: Seq<char>,
    pe: SizeUnit,
    lvs: Seq<LvRequestView>,
    j: int,
)
    requires
        0 <= j < lvs.len(),
    ensures
        ({
            let p = spec_plan(pvs, vg, pe, lvs);
            let lv = lvs[j];
            let dev = "/dev/"@ + vg + "/"@ + lv.name;
            &&& p.contains(CallView::LvCreate { vg, name: lv.name, size: lv.size })
            &&& match lv.fs {
                None => true,
                Some(m) => if m.fs != Filesystem::Swap {
                    &&& p.contains(CallView::Mkfs { device: dev, fs: m.fs })
                    &&& match m.mount_path {
                        None => true,
                        Some(mp) => p.contains(CallView::Mkdir(mp)) && p.contains(
                            CallView::Mount { device: dev, path: mp },
                        ) && p.contains(CallView::Fstab { device: dev, path: mp, fs: m.fs }),
                    }
                } else {
                    &&& p.contains(CallView::MkSwap(dev))
                    &&& p.contains(
                        CallView::Fstab { device: dev, path: "none"@, fs: Filesystem::Swap },
                    )
                },
            }
        }),
{
    let p = spec_plan(pvs, vg, pe, lvs);
    let l = lvs_calls(vg, lvs);
    let m0 = pvs.len() as int;
    let lv = lvs[j];
    let b = lv_calls(vg, lv);
    lemma_each_volume_has_block(vg, lvs, j);
    let st = choose|st: int| #[trigger] block_at(l, b, st);
    assert(p.len() == m0 + 1 + l.len());
    assert forall|o: int| 0 <= o < b.len() implies p[m0 + 1 + st + o] == #[trigger] b[o] by {
        assert(l[st + o] == b[o]);
        assert(p[m0 + 1 + st + o] == l[st + o]);
    }
    let dev = device_path(vg, lv.name);
    assert(b[0] == CallView::LvCreate { vg, name: lv.name, size: lv.size });
    assert(p[m0 + 1 + st + 0] == b[0]);
    match lv.fs {
        None => {},
        Some(m) => {
            if m.fs == Filesystem::Swap {
                assert(b[1] == CallView::MkSwap(dev));
                assert(b[2] == CallView::Fstab { device: dev, path: "none"@, fs: Filesystem::Swap });
                assert(p[m0 + 1 + st + 1] == b[1]);
                assert(p[m0 + 1 + st + 2] == b[2]);
            } else {
                assert(b[1] == CallView::Mkfs { device: dev, fs: m.fs });
                assert(p[m0 + 1 + st + 1] == b[1]);
                if let Some(mp) = m.mount_path {
                    assert(b[2] == CallView::Mkdir(mp));
                    assert(b[3] == CallView::Mount { device: dev, path: mp });
                    assert(b[4] == CallView::Fstab { device: dev, path: mp, fs: m.fs });
                    assert(p[m0 + 1 + st + 2] == b[2]);
                    assert(p[m0 + 1 + st + 3] == b[3]);
                    assert(p[m0 + 1 + st + 4] == b[4]);
                }
            }
        },
    }
}

} // verus!
