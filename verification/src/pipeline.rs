//! Facts about the whole pipeline: what the parser and the planner hand on
//! to the convergence checks.
use vstd::prelude::*;
use crate::domain::{CallView, CommandView, SizeUnit, mib, gib, tib};
use crate::parser::{ScanState, initial_scan, scan, spec_parse, spec_parse_lv, spec_parse_size};
use crate::planner::{law_plan_dependencies, spec_plan};
use crate::text::{nonempty_pieces, split_on};

verus! {

/// No extent size of zero bytes, and a group to take the extent size from
/// whenever a volume is sized in bytes.
pub open spec fn pe_sound(calls: Seq<CallView>) -> bool {
    &&& forall|i: int|
        0 <= i < calls.len() && (#[trigger] calls[i]) is VgCreate
            ==> calls[i]->VgCreate_pe_size.spec_bytes() != Some(0nat)
    &&& (exists|i: int|
        0 <= i < calls.len() && (#[trigger] calls[i]) is LvCreate
            && calls[i]->LvCreate_size.is_absolute()) ==> (exists|k: int|
        0 <= k < calls.len() && (#[trigger] calls[k]) is VgCreate)
}

/// Whether a size is not zero bytes (relative sizes are never zero bytes).
pub open spec fn nonzero_bytes(u: SizeUnit) -> bool {
    u.spec_bytes() != Some(0nat)
}

proof fn lemma_parsed_size_nonzero(s: Seq<char>)
    ensures
        spec_parse_size(s) matches Ok(u) ==> nonzero_bytes(u),
{
    if let Ok(u) = spec_parse_size(s) {
        match u {
            SizeUnit::Megabytes(n) => {
                assert(n >= 1);
                assert((n as nat) * mib() >= mib()) by (nonlinear_arith)
                    requires
                        n >= 1,
                        mib() == 1048576,
                ;
            },
            SizeUnit::Gigabytes(n) => {
                assert(n >= 1);
                assert((n as nat) * gib() >= gib()) by (nonlinear_arith)
                    requires
                        n >= 1,
                        gib() == 1073741824,
                ;
            },
            SizeUnit::Terabytes(n) => {
                assert(n >= 1);
                assert((n as nat) * tib() >= tib()) by (nonlinear_arith)
                    requires
                        n >= 1,
                        tib() == 1099511627776,
                ;
            },
            _ => {},
        }
    }
}

proof fn lemma_scan_keeps_pe(args: Seq<Seq<char>>, i: nat, st: ScanState)
    requires
        nonzero_bytes(st.pe),
    ensures
        scan(args, i, st) matches Ok(t) ==> nonzero_bytes(t.pe),
    decreases args.len() - i,
{
    if i < args.len() {
        let a = args[i as int];
        if i + 1 < args.len() {
            let v = args[i + 1 as int];
            let parts = split_on(v, ':');
            if parts.len() > 1 {
                lemma_parsed_size_nonzero(parts[1]);
            }
            if a == "--pv"@ {
                let next = ScanState { pvs: st.pvs + nonempty_pieces(v, ':'), ..st };
                lemma_scan_keeps_pe(args, i + 2, next);
            } else if a == "--vg"@ {
                let pe = if parts.len() > 1 && parts[1].len() > 0 {
                    spec_parse_size(parts[1])
                } else {
                    Ok(st.pe)
                };
                if let Ok(pe) = pe {
                    lemma_scan_keeps_pe(args, i + 2, ScanState { vg: parts[0], pe, ..st });
                }
            } else if a == "--lv"@ {
                if let Ok(l) = spec_parse_lv(v) {
                    lemma_scan_keeps_pe(args, i + 2, ScanState { lvs: st.lvs.push(l), ..st });
                }
            }
        }
        lemma_scan_keeps_pe(args, i + 1, st);
    }
}

/// Every command line that parses plans into a draft whose extent size is
/// not zero bytes and which holds its volume group.
pub proof fn law_parsed_plans_are_pe_sound(args: Seq<Seq<char>>)
    ensures
        spec_parse(args) matches Ok(a) ==> match a.command {
            CommandView::Provision { pvs, vg_name, pe_size, lvs } => pe_sound(
                spec_plan(pvs, vg_name, pe_size, lvs),
            ),
        },
{
    if let Ok(a) = spec_parse(args) {
        let st0 = initial_scan();
        assert((4 as nat) * mib() == 4194304) by (nonlinear_arith)
            requires
                mib() == 1048576,
        ;
        lemma_scan_keeps_pe(args, 1, st0);
        match a.command {
            CommandView::Provision { pvs, vg_name, pe_size, lvs } => {
                let p = spec_plan(pvs, vg_name, pe_size, lvs);
                let m = pvs.len() as int;
                law_plan_dependencies(pvs, vg_name, pe_size, lvs);
                assert(p[m] is VgCreate);
                assert forall|i: int| 0 <= i < p.len() && (#[trigger] p[i]) is VgCreate implies p[
                    i
                ]->VgCreate_pe_size.spec_bytes() != Some(0nat) by {
                    if i < m {
                        assert(p[i] == CallView::PvCreate(pvs[i]));
                    }
                }
            },
        }
    }
}

} // verus!
