//! The command line: sizes, filesystems and volume requests as written by
//! the user, the `provision` worker and the command router.
use vstd::prelude::*;
use crate::domain::{
    Action, ActionView, Command, CommandView, Filesystem, FsMount, FsMountView, LvRequest,
    LvRequestView, PercentTarget, SizeUnit, ValidPercentage, lv_views,
};
use crate::text::{
    begins_with_dash, concat2, concat3, decimal, digit_char, free_of, join_on, keep_nonempty, lemma_join_first,
    lemma_keep_all, lemma_split_join, lemma_split_nonempty, lemma_split_single, nonempty_pieces,
    split_at_char, split_on, starts_with_dash, str_eq,
};

verus! {

broadcast use ValidPercentage::lemma_spec_new_get;

pub open spec fn is_digit_char(c: char) -> bool {
    '0' <= c <= '9'
}

pub open spec fn digit_value(c: char) -> nat {
    ((c as u32) - 48) as nat
}

/// The number that a string of decimal digits denotes.
pub open spec fn digits_value(s: Seq<char>) -> nat
    decreases s.len(),
{
    if s.len() == 0 {
        0
    } else {
        digits_value(s.drop_last()) * 10 + digit_value(s.last())
    }
}

/// How many decimal digits `s` begins with.
pub open spec fn lead_digits(s: Seq<char>) -> nat
    decreases s.len(),
{
    if s.len() > 0 && is_digit_char(s[0]) {
        1 + lead_digits(s.drop_first())
    } else {
        0
    }
}

/// The suffixes that a size may carry after its number.
pub open spec fn known_size_suffix(suf: Seq<char>) -> bool {
    ||| suf == ""@
    ||| suf == "M"@
    ||| suf == "G"@
    ||| suf == "T"@
    ||| suf == "%FREE"@
    ||| suf == "%VG"@
    ||| suf == "%PVS"@
}

/// A size: a positive decimal number followed by `M`, `G` or `T` (binary
/// units), by `%FREE`, `%VG` or `%PVS` (a percentage in 1..=100), or by
/// nothing (a count of extents).
pub open spec fn spec_parse_size(s: Seq<char>) -> Result<SizeUnit, Seq<char>> {
    let k = lead_digits(s);
    let suf = s.skip(k as int);
    let v = digits_value(s.take(k as int));
    if k == 0 || !known_size_suffix(suf) {
        Err("Invalid size: "@ + s)
    } else if v > u64::MAX {
        Err("Size out of range: "@ + s)
    } else if v == 0 {
        Err("Size must be greater than zero: "@ + s)
    } else if suf == ""@ {
        Ok(SizeUnit::Extents(v as u64))
    } else if suf == "M"@ {
        Ok(SizeUnit::Megabytes(v as u64))
    } else if suf == "G"@ {
        Ok(SizeUnit::Gigabytes(v as u64))
    } else if suf == "T"@ {
        Ok(SizeUnit::Terabytes(v as u64))
    } else if v > 100 {
        Err("Percentage must be between 1 and 100: "@ + s)
    } else {
        let target = if suf == "%FREE"@ {
            PercentTarget::Free
        } else if suf == "%VG"@ {
            PercentTarget::Vg
        } else {
            PercentTarget::Pvs
        };
        Ok(SizeUnit::Percentage(ValidPercentage::spec_new(v as u8), target))
    }
}

/// A filesystem name: `xfs`, `ext4`, `swap`, `btrfs` or `vfat`.
pub open spec fn spec_parse_fs(s: Seq<char>) -> Result<Filesystem, Seq<char>> {
    if s == "xfs"@ {
        Ok(Filesystem::Xfs)
    } else if s == "ext4"@ {
        Ok(Filesystem::Ext4)
    } else if s == "swap"@ {
        Ok(Filesystem::Swap)
    } else if s == "btrfs"@ {
        Ok(Filesystem::Btrfs)
    } else if s == "vfat"@ {
        Ok(Filesystem::Vfat)
    } else {
        Err("Unsupported filesystem: "@ + s)
    }
}

/// A volume request `name:size[:fs[:mount]]`; an empty mount piece means
/// no mount point.
pub open spec fn spec_parse_lv(s: Seq<char>) -> Result<LvRequestView, Seq<char>> {
    let parts = split_on(s, ':');
    if parts.len() < 2 || parts.len() > 4 {
        Err("Invalid LV format: "@ + s + ". Expected name:size[:fs[:mount]]"@)
    } else if parts[0].len() == 0 {
        Err("LV name cannot be empty: "@ + s)
    } else {
        match spec_parse_size(parts[1]) {
            Err(e) => Err(e),
            Ok(size) => if parts.len() == 2 {
                Ok(LvRequestView { name: parts[0], size, fs: None })
            } else {
                match spec_parse_fs(parts[2]) {
                    Err(e) => Err(e),
                    Ok(fs) => {
                        let mount_path = if parts.len() == 4 && parts[3].len() > 0 {
                            Some(parts[3])
                        } else {
                            None
                        };
                        Ok(
                            LvRequestView {
                                name: parts[0],
                                size,
                                fs: Some(FsMountView { fs, mount_path }),
                            },
                        )
                    },
                }
            },
        }
    }
}

/// What the `provision` worker has gathered so far.
pub struct ScanState {
    pub pvs: Seq<Seq<char>>,
    pub vg: Seq<char>,
    pub pe: SizeUnit,
    pub lvs: Seq<LvRequestView>,
}

pub open spec fn initial_scan() -> ScanState {
    ScanState { pvs: Seq::empty(), vg: Seq::empty(), pe: SizeUnit::Megabytes(4), lvs: Seq::empty() }
}

pub open spec fn flag_value_message(flag: Seq<char>, val: Seq<char>) -> Seq<char> {
    "Expected value after "@ + flag + ", found flag '"@ + val + "'"@
}

pub open spec fn missing_value_message(flag: Seq<char>) -> Seq<char> {
    "Missing value for "@ + flag
}

/// The `provision` worker from argument `i` on: `--pv a:b` adds the
/// non-empty paths, `--vg name[:pe]` sets the group once, `--lv spec`
/// adds a request, `-y`, `--auto-confirm` and `provision` are skipped,
/// anything else is refused.
pub open spec fn scan(args: Seq<Seq<char>>, i: nat, st: ScanState) -> Result<ScanState, Seq<char>>
    decreases args.len() - i,
{
    if i >= args.len() {
        Ok(st)
    } else {
        let a = args[i as int];
        if a == "--pv"@ {
            if i + 1 < args.len() {
                let v = args[i + 1 as int];
                if starts_with_dash(v) {
                    Err(flag_value_message(a, v))
                } else {
                    scan(
                        args,
                        i + 2,
                        ScanState { pvs: st.pvs + nonempty_pieces(v, ':'), ..st },
                    )
                }
            } else {
                Err(missing_value_message(a))
            }
        } else if a == "--vg"@ {
            if st.vg.len() > 0 {
                Err("Volume Group can only be specified once"@)
            } else if i + 1 < args.len() {
                let v = args[i + 1 as int];
                if starts_with_dash(v) {
                    Err(flag_value_message(a, v))
                } else {
                    let parts = split_on(v, ':');
                    let pe = if parts.len() > 1 && parts[1].len() > 0 {
                        spec_parse_size(parts[1])
                    } else {
                        Ok(st.pe)
                    };
                    match pe {
                        Err(e) => Err(e),
                        Ok(pe) => scan(args, i + 2, ScanState { vg: parts[0], pe, ..st }),
                    }
                }
            } else {
                Err(missing_value_message(a))
            }
        } else if a == "--lv"@ {
            if i + 1 < args.len() {
                let v = args[i + 1 as int];
                if starts_with_dash(v) {
                    Err(flag_value_message(a, v))
                } else {
                    match spec_parse_lv(v) {
                        Err(e) => Err(e),
                        Ok(l) => scan(args, i + 2, ScanState { lvs: st.lvs.push(l), ..st }),
                    }
                }
            } else {
                Err(missing_value_message(a))
            }
        } else if a == "-y"@ || a == "--auto-confirm"@ || a == "provision"@ {
            scan(args, i + 1, st)
        } else {
            Err("Unknown argument: "@ + a)
        }
    }
}

pub open spec fn incomplete_message() -> Seq<char> {
    "Provisioning requires at least one --pv, a --vg name, and a valid --lv structure"@
}

/// The `provision` command read from the arguments after the program name.
pub open spec fn spec_parse_provision(args: Seq<Seq<char>>) -> Result<CommandView, Seq<char>> {
    match scan(args, 1, initial_scan()) {
        Err(e) => Err(e),
        Ok(st) => if st.vg.len() == 0 || st.pvs.len() == 0 || st.lvs.len() == 0 {
            Err(incomplete_message())
        } else {
            Ok(CommandView::Provision { pvs: st.pvs, vg_name: st.vg, pe_size: st.pe, lvs: st.lvs })
        },
    }
}

pub open spec fn arg_views(args: Seq<String>) -> Seq<Seq<char>> {
    args.map_values(|s: String| s@)
}

pub open spec fn is_confirm_flag(a: Seq<char>) -> bool {
    a == "-y"@ || a == "--auto-confirm"@
}

/// A flag that consumes the argument after it.
pub open spec fn takes_value(a: Seq<char>) -> bool {
    starts_with_dash(a) && !is_confirm_flag(a)
}

/// Whether the confirmation toggle appears after the program name.
pub open spec fn spec_auto_confirm(args: Seq<Seq<char>>) -> bool {
    exists|j: int| 1 <= j < args.len() && is_confirm_flag(#[trigger] args[j])
}

/// The subcommand: the first argument (after the program name) that is
/// not a flag and does not follow a value-taking flag; empty when none is.
pub open spec fn subcommand_from(args: Seq<Seq<char>>, j: nat, cur: Seq<char>) -> Seq<char>
    decreases args.len() - j,
{
    if j >= args.len() || j == 0 {
        cur
    } else {
        let a = args[j as int];
        let next = if !is_confirm_flag(a) && !starts_with_dash(a) && cur.len() == 0
            && !takes_value(args[j - 1]) {
            a
        } else {
            cur
        };
        subcommand_from(args, j + 1, next)
    }
}

pub open spec fn usage_message() -> Seq<char> {
    "Usage: lvq <command> [options]"@
}

/// The whole command line: the subcommand is routed to its worker, and
/// the confirmation toggle is kept beside the command.
pub open spec fn spec_parse(args: Seq<Seq<char>>) -> Result<ActionView, Seq<char>> {
    if args.len() < 2 {
        Err(usage_message())
    } else {
        let sub = subcommand_from(args, 1, Seq::empty());
        if sub == "provision"@ {
            match spec_parse_provision(args) {
                Err(e) => Err(e),
                Ok(c) => Ok(ActionView { auto_confirm: spec_auto_confirm(args), command: c }),
            }
        } else {
            Err("Unknown command: "@ + sub)
        }
    }
}

pub proof fn lemma_lead_digits(s: Seq<char>, i: nat)
    requires
        i <= s.len(),
        forall|j: int| 0 <= j < i ==> is_digit_char(#[trigger] s[j]),
        i == s.len() || !is_digit_char(s[i as int]),
    ensures
        lead_digits(s) == i,
    decreases i,
{
    if i > 0 {
        let t = s.drop_first();
        assert forall|j: int| 0 <= j < i - 1 implies is_digit_char(#[trigger] t[j]) by {
            assert(t[j] == s[j + 1]);
        }
        lemma_lead_digits(t, (i - 1) as nat);
    }
}

fn is_digit(c: char) -> (r: bool)
    ensures
        r == is_digit_char(c),
{
    '0' <= c && c <= '9'
}

impl SizeUnit {
    /// Reads a size (see `spec_parse_size`).
    pub fn from_str(s: &str) -> (r: Result<SizeUnit, String>)
        ensures
            match spec_parse_size(s@) {
                Ok(u) => r matches Ok(x) && x == u,
                Err(e) => r matches Err(m) && m@ == e,
            },
    {
        let n = s.unicode_len();
        let mut k: usize = 0;
        let mut val: u128 = 0;
        let mut over = false;
        assert(s@.take(0) =~= Seq::<char>::empty());
        while k < n
            invariant
                k <= n,
                n == s@.len(),
                forall|j: int| 0 <= j < k ==> is_digit_char(#[trigger] s@[j]),
                over == (digits_value(s@.take(k as int)) > u64::MAX),
                !over ==> val == digits_value(s@.take(k as int)),
            ensures
                k <= n,
                forall|j: int| 0 <= j < k ==> is_digit_char(#[trigger] s@[j]),
                k == n || !is_digit_char(s@[k as int]),
                over == (digits_value(s@.take(k as int)) > u64::MAX),
                !over ==> val == digits_value(s@.take(k as int)),
            decreases n - k,
        {
            let c = s.get_char(k);
            if !is_digit(c) {
                break ;
            }
            let d = ((c as u32) - 48) as u128;
            assert(s@.take(k + 1).drop_last() =~= s@.take(k as int));
            assert(s@.take(k + 1).last() == c);
            if !over {
                let nv = val * 10 + d;
                if nv > u64::MAX as u128 {
                    over = true;
                } else {
                    val = nv;
                }
            }
            k = k + 1;
        }
        proof {
            lemma_lead_digits(s@, k as nat);
        }
        let suf = s.substring_char(k, n);
        assert(suf@ =~= s@.skip(k as int));
        let is_plain = str_eq(suf, "");
        let is_m = str_eq(suf, "M");
        let is_g = str_eq(suf, "G");
        let is_t = str_eq(suf, "T");
        let is_free = str_eq(suf, "%FREE");
        let is_vg = str_eq(suf, "%VG");
        let is_pvs = str_eq(suf, "%PVS");
        if k == 0 || !(is_plain || is_m || is_g || is_t || is_free || is_vg || is_pvs) {
            return Err(concat2("Invalid size: ", s));
        }
        if over {
            return Err(concat2("Size out of range: ", s));
        }
        if val == 0 {
            return Err(concat2("Size must be greater than zero: ", s));
        }
        let v = val as u64;
        if is_plain {
            Ok(SizeUnit::Extents(v))
        } else if is_m {
            Ok(SizeUnit::Megabytes(v))
        } else if is_g {
            Ok(SizeUnit::Gigabytes(v))
        } else if is_t {
            Ok(SizeUnit::Terabytes(v))
        } else if val > 100 {
            Err(concat2("Percentage must be between 1 and 100: ", s))
        } else {
            let target = if is_free {
                PercentTarget::Free
            } else if is_vg {
                PercentTarget::Vg
            } else {
                PercentTarget::Pvs
            };
            match ValidPercentage::new(val as u8) {
                Some(p) => Ok(SizeUnit::Percentage(p, target)),
                None => Err(concat2("Percentage must be between 1 and 100: ", s)),
            }
        }
    }
}

impl Filesystem {
    /// Reads a filesystem name (see `spec_parse_fs`).
    pub fn from_str(s: &str) -> (r: Result<Filesystem, String>)
        ensures
            match spec_parse_fs(s@) {
                Ok(f) => r matches Ok(x) && x == f,
                Err(e) => r matches Err(m) && m@ == e,
            },
    {
        if str_eq(s, "xfs") {
            Ok(Filesystem::Xfs)
        } else if str_eq(s, "ext4") {
            Ok(Filesystem::Ext4)
        } else if str_eq(s, "swap") {
            Ok(Filesystem::Swap)
        } else if str_eq(s, "btrfs") {
            Ok(Filesystem::Btrfs)
        } else if str_eq(s, "vfat") {
            Ok(Filesystem::Vfat)
        } else {
            Err(concat2("Unsupported filesystem: ", s))
        }
    }
}

impl LvRequest {
    /// Reads a volume request (see `spec_parse_lv`).
    pub fn from_str(s: &str) -> (r: Result<LvRequest, String>)
        ensures
            match spec_parse_lv(s@) {
                Ok(l) => r matches Ok(x) && x@ == l,
                Err(e) => r matches Err(m) && m@ == e,
            },
    {
        let parts = split_at_char(s, ':');
        let np = parts.len();
        let ghost pv = split_on(s@, ':');
        assert(pv.len() == np);
        assert forall|j: int| 0 <= j < np implies #[trigger] pv[j] == parts@[j]@ by {
            assert(parts.deep_view()[j] == parts@[j]@);
        }
        if np < 2 || np > 4 {
            return Err(concat3("Invalid LV format: ", s, ". Expected name:size[:fs[:mount]]"));
        }
        if parts[0].as_str().unicode_len() == 0 {
            return Err(concat2("LV name cannot be empty: ", s));
        }
        let size = match SizeUnit::from_str(parts[1].as_str()) {
            Ok(u) => u,
            Err(e) => {
                return Err(e);
            },
        };
        let name = parts[0].clone();
        if np == 2 {
            return Ok(LvRequest { name, size, fs: None });
        }
        let fs = match Filesystem::from_str(parts[2].as_str()) {
            Ok(f) => f,
            Err(e) => {
                return Err(e);
            },
        };
        let mount_path = if np == 4 && parts[3].as_str().unicode_len() > 0 {
            Some(parts[3].clone())
        } else {
            None
        };
        let r = LvRequest { name, size, fs: Some(FsMount { fs, mount_path }) };
        proof {
            let mp: Option<Seq<char>> = if np == 4 && pv[3].len() > 0 {
                Some(pv[3])
            } else {
                None
            };
            assert(r@.fs == Some(FsMountView { fs, mount_path: mp }));
        }
        Ok(r)
    }
}

pub open spec fn state_of(
    pvs: Seq<Seq<char>>,
    vg: Seq<char>,
    pe: SizeUnit,
    lvs: Seq<LvRequestView>,
) -> ScanState {
    ScanState { pvs, vg, pe, lvs }
}

/// Appends the non-empty pieces of `pieces` to `pvs`.
fn push_nonempty(pvs: &mut Vec<String>, pieces: &Vec<String>)
    ensures
        final(pvs).deep_view() == old(pvs).deep_view() + keep_nonempty(pieces.deep_view()),
{
    let ghost start = pvs.deep_view();
    let ghost pv = pieces.deep_view();
    let mut j: usize = 0;
    assert(pv.take(0) =~= Seq::<Seq<char>>::empty());
    assert(start + keep_nonempty(pv.take(0)) =~= start);
    while j < pieces.len()
        invariant
            j <= pieces.len(),
            pv == pieces.deep_view(),
            pvs.deep_view() == start + keep_nonempty(pv.take(j as int)),
        decreases pieces.len() - j,
    {
        assert(pv.take(j + 1).drop_last() =~= pv.take(j as int));
        assert(pv.take(j + 1).last() == pieces@[j as int]@);
        if pieces[j].as_str().unicode_len() > 0 {
            let ghost before = pvs.deep_view();
            pvs.push(pieces[j].clone());
            assert(pvs.deep_view() =~= before.push(pieces@[j as int]@));
            assert(start + keep_nonempty(pv.take(j + 1)) =~= (start + keep_nonempty(
                pv.take(j as int),
            )).push(pv[j as int]));
        }
        j = j + 1;
    }
    assert(pv.take(pieces.len() as int) =~= pv);
}

/// Reads the `provision` command (see `spec_parse_provision`); the first
/// argument is the program name.
pub fn parse_provision(args: &[String]) -> (r: Result<Command, String>)
    ensures
        match spec_parse_provision(arg_views(args@)) {
            Ok(c) => r matches Ok(x) && x@ == c,
            Err(e) => r matches Err(m) && m@ == e,
        },
{
    let ghost av = arg_views(args@);
    let mut pvs: Vec<String> = Vec::new();
    let mut vg_name = String::new();
    let mut pe_size = SizeUnit::Megabytes(4);
    let mut lvs: Vec<LvRequest> = Vec::new();
    let mut i: usize = 1;
    assert(pvs.deep_view() =~= Seq::<Seq<char>>::empty());
    assert(lv_views(lvs@) =~= Seq::<LvRequestView>::empty());
    assert(state_of(pvs.deep_view(), vg_name@, pe_size, lv_views(lvs@)) == initial_scan());
    while i < args.len()
        invariant
            av == arg_views(args@),
            scan(av, 1, initial_scan()) == scan(
                av,
                i as nat,
                state_of(pvs.deep_view(), vg_name@, pe_size, lv_views(lvs@)),
            ),
        decreases args.len() - i,
    {
        let a = &args[i];
        assert(av[i as int] == a@);
        if str_eq(a.as_str(), "--pv") {
            if i + 1 < args.len() {
                let val = &args[i + 1];
                assert(av[i + 1] == val@);
                if begins_with_dash(val.as_str()) {
                    let mut m = concat3("Expected value after ", a.as_str(), ", found flag '");
                    m.append(val.as_str());
                    m.append("'");
                    return Err(m);
                }
                let pieces = split_at_char(val.as_str(), ':');
                push_nonempty(&mut pvs, &pieces);
                i = i + 2;
            } else {
                return Err(concat2("Missing value for ", a.as_str()));
            }
        } else if str_eq(a.as_str(), "--vg") {
            if vg_name.as_str().unicode_len() > 0 {
                return Err(String::from_str("Volume Group can only be specified once"));
            }
            if i + 1 < args.len() {
                let val = &args[i + 1];
                assert(av[i + 1] == val@);
                if begins_with_dash(val.as_str()) {
                    let mut m = concat3("Expected value after ", a.as_str(), ", found flag '");
                    m.append(val.as_str());
                    m.append("'");
                    return Err(m);
                }
                let parts = split_at_char(val.as_str(), ':');
                proof {
                    lemma_split_nonempty(val@, ':');
                    assert(parts.deep_view()[0] == parts@[0]@);
                }
                vg_name = parts[0].clone();
                if parts.len() > 1 {
                    assert(parts.deep_view()[1] == parts@[1]@);
                    if parts[1].as_str().unicode_len() > 0 {
                        match SizeUnit::from_str(parts[1].as_str()) {
                            Ok(u) => {
                                pe_size = u;
                            },
                            Err(e) => {
                                return Err(e);
                            },
                        }
                    }
                }
                i = i + 2;
            } else {
                return Err(concat2("Missing value for ", a.as_str()));
            }
        } else if str_eq(a.as_str(), "--lv") {
            if i + 1 < args.len() {
                let val = &args[i + 1];
                assert(av[i + 1] == val@);
                if begins_with_dash(val.as_str()) {
                    let mut m = concat3("Expected value after ", a.as_str(), ", found flag '");
                    m.append(val.as_str());
                    m.append("'");
                    return Err(m);
                }
                match LvRequest::from_str(val.as_str()) {
                    Ok(l) => {
                        let ghost before = lv_views(lvs@);
                        lvs.push(l);
                        assert(lv_views(lvs@) =~= before.push(l@));
                    },
                    Err(e) => {
                        return Err(e);
                    },
                }
                i = i + 2;
            } else {
                return Err(concat2("Missing value for ", a.as_str()));
            }
        } else if str_eq(a.as_str(), "-y") || str_eq(a.as_str(), "--auto-confirm") || str_eq(
            a.as_str(),
            "provision",
        ) {
            i = i + 1;
        } else {
            return Err(concat2("Unknown argument: ", a.as_str()));
        }
    }
    if vg_name.as_str().unicode_len() == 0 || pvs.len() == 0 || lvs.len() == 0 {
        return Err(
            String::from_str(
                "Provisioning requires at least one --pv, a --vg name, and a valid --lv structure",
            ),
        );
    }
    Ok(Command::Provision { pvs, vg_name, pe_size, lvs })
}

/// Routes the whole command line (see `spec_parse`): finds the
/// subcommand and the confirmation toggle, then runs the subcommand's
/// worker.
pub fn parse(args: Vec<String>) -> (r: Result<Action, String>)
    ensures
        match spec_parse(arg_views(args@)) {
            Ok(a) => r matches Ok(x) && x@ == a,
            Err(e) => r matches Err(m) && m@ == e,
        },
{
    let ghost av = arg_views(args@);
    if args.len() < 2 {
        return Err(String::from_str("Usage: lvq <command> [options]"));
    }
    let mut auto_confirm = false;
    let mut subcommand = String::new();
    let mut i: usize = 1;
    while i < args.len()
        invariant
            av == arg_views(args@),
            1 <= i <= args.len(),
            auto_confirm == (exists|j: int| 1 <= j < i && is_confirm_flag(#[trigger] av[j])),
            subcommand_from(av, 1, Seq::empty()) == subcommand_from(av, i as nat, subcommand@),
        decreases args.len() - i,
    {
        let a = args[i].as_str();
        assert(av[i as int] == a@);
        assert(av[i - 1] == args@[i - 1]@);
        let confirm = str_eq(a, "-y") || str_eq(a, "--auto-confirm");
        if confirm {
            auto_confirm = true;
        } else if !begins_with_dash(a) && subcommand.as_str().unicode_len() == 0 {
            let prev = args[i - 1].as_str();
            let prev_takes = begins_with_dash(prev) && !(str_eq(prev, "-y") || str_eq(
                prev,
                "--auto-confirm",
            ));
            if !prev_takes {
                subcommand = args[i].clone();
            }
        }
        i = i + 1;
    }
    if str_eq(subcommand.as_str(), "provision") {
        match parse_provision(args.as_slice()) {
            Ok(c) => Ok(Action { auto_confirm, command: c }),
            Err(e) => Err(e),
        }
    } else {
        Err(concat2("Unknown command: ", subcommand.as_str()))
    }
}


// ----- laws -------------------------------------------------------------

/// `--lv spec` for every spec, in order.
pub open spec fn lv_flag_args(specs: Seq<Seq<char>>) -> Seq<Seq<char>>
    decreases specs.len(),
{
    if specs.len() == 0 {
        Seq::empty()
    } else {
        lv_flag_args(specs.drop_last()) + seq!["--lv"@, specs.last()]
    }
}

/// The requests that well-formed specs denote.
pub open spec fn parsed_lvs(specs: Seq<Seq<char>>) -> Seq<LvRequestView> {
    specs.map_values(|s: Seq<char>| spec_parse_lv(s)->Ok_0)
}

/// A spec that may follow `--lv` and reads as a request.
pub open spec fn good_lv_spec(s: Seq<char>) -> bool {
    !starts_with_dash(s) && spec_parse_lv(s) is Ok
}

/// The command line `lvq provision --pv <pvs joined by ':'> --vg <vg>`
/// followed by `--lv <spec>` for every spec.
pub open spec fn provision_args(
    pvs: Seq<Seq<char>>,
    vg: Seq<char>,
    specs: Seq<Seq<char>>,
) -> Seq<Seq<char>> {
    seq!["lvq"@, "provision"@, "--pv"@, join_on(pvs, ':'), "--vg"@, vg] + lv_flag_args(specs)
}

proof fn lemma_scan_lvs(
    pre: Seq<Seq<char>>,
    specs: Seq<Seq<char>>,
    post: Seq<Seq<char>>,
    st: ScanState,
)
    requires
        forall|i: int| 0 <= i < specs.len() ==> good_lv_spec(#[trigger] specs[i]),
    ensures
        scan(pre + lv_flag_args(specs) + post, pre.len(), st) == scan(
            pre + lv_flag_args(specs) + post,
            pre.len() + 2 * specs.len(),
            ScanState { lvs: st.lvs + parsed_lvs(specs), ..st },
        ),
    decreases specs.len(),
{
    let args = pre + lv_flag_args(specs) + post;
    if specs.len() == 0 {
        assert(st.lvs + parsed_lvs(specs) =~= st.lvs);
    } else {
        let init = specs.drop_last();
        let last = specs.last();
        let tail = seq!["--lv"@, last] + post;
        assert forall|i: int| 0 <= i < init.len() implies good_lv_spec(#[trigger] init[i]) by {
            assert(init[i] == specs[i]);
        }
        assert(args =~= pre + lv_flag_args(init) + tail);
        lemma_scan_lvs(pre, init, tail, st);
        let k = pre.len() + 2 * init.len();
        let mid = ScanState { lvs: st.lvs + parsed_lvs(init), ..st };
        assert(lv_flag_args(init).len() == 2 * init.len()) by {
            lemma_lv_flag_args_len(init);
        }
        assert(args[k as int] == "--lv"@);
        assert(args[k + 1 as int] == last);
        assert(good_lv_spec(last));
        reveal_strlit("--lv");
        reveal_strlit("--pv");
        reveal_strlit("--vg");
        assert("--lv"@[2] != "--pv"@[2] && "--lv"@[2] != "--vg"@[2]);
        assert(k + 1 < args.len());
        assert(mid.lvs.push(spec_parse_lv(last)->Ok_0) =~= st.lvs + parsed_lvs(specs));
    }
}

proof fn lemma_lv_flag_args_len(specs: Seq<Seq<char>>)
    ensures
        lv_flag_args(specs).len() == 2 * specs.len(),
    decreases specs.len(),
{
    if specs.len() > 0 {
        lemma_lv_flag_args_len(specs.drop_last());
    }
}

proof fn lemma_lv_flag_args_no_confirm(specs: Seq<Seq<char>>)
    requires
        forall|i: int| 0 <= i < specs.len() ==> good_lv_spec(#[trigger] specs[i]),
    ensures
        forall|i: int|
            0 <= i < lv_flag_args(specs).len() ==> !is_confirm_flag(
                #[trigger] lv_flag_args(specs)[i],
            ),
    decreases specs.len(),
{
    if specs.len() > 0 {
        let init = specs.drop_last();
        assert forall|i: int| 0 <= i < init.len() implies good_lv_spec(#[trigger] init[i]) by {
            assert(init[i] == specs[i]);
        }
        lemma_lv_flag_args_no_confirm(init);
        reveal_strlit("--lv");
        reveal_strlit("-y");
        reveal_strlit("--auto-confirm");
        let a = lv_flag_args(init);
        let b = seq!["--lv"@, specs.last()];
        assert(good_lv_spec(specs.last()));
        assert forall|i: int| 0 <= i < (a + b).len() implies !is_confirm_flag(
            #[trigger] (a + b)[i],
        ) by {
            if i < a.len() {
                assert((a + b)[i] == a[i]);
            } else {
                assert((a + b)[i] == b[i - a.len()]);
                assert("--lv"@.len() != "-y"@.len() && "--lv"@.len() != "--auto-confirm"@.len());
                if i - a.len() == 1 {
                    assert(!starts_with_dash(specs.last()));
                    assert("-y"@[0] == '-' && "--auto-confirm"@[0] == '-');
                }
            }
        }
    }
}

proof fn lemma_subcommand_kept(args: Seq<Seq<char>>, j: nat, cur: Seq<char>)
    requires
        cur.len() > 0,
    ensures
        subcommand_from(args, j, cur) == cur,
    decreases args.len() - j,
{
    if j < args.len() && j != 0 {
        lemma_subcommand_kept(args, j + 1, cur);
    }
}

/// Reading back a written command line: `lvq provision --pv <pvs joined
/// by ':'> --vg <vg> --lv <spec>...` gives back exactly those physical
/// volumes, that group with the default extent size, and the requests
/// that the specs denote, in order, with no confirmation toggle. It
/// holds when every physical volume is a non-empty path without ':', the
/// first does not begin with a dash, the group name is non-empty, has no
/// ':' and does not begin with a dash, and every spec is a well-formed
/// request that does not begin with a dash.
pub proof fn law_provision_roundtrip(pvs: Seq<Seq<char>>, vg: Seq<char>, specs: Seq<Seq<char>>)
    requires
        pvs.len() >= 1,
        forall|i: int| 0 <= i < pvs.len() ==> (#[trigger] pvs[i]).len() > 0 && free_of(pvs[i], ':'),
        !starts_with_dash(pvs[0]),
        vg.len() > 0,
        free_of(vg, ':'),
        !starts_with_dash(vg),
        specs.len() >= 1,
        forall|i: int| 0 <= i < specs.len() ==> good_lv_spec(#[trigger] specs[i]),
    ensures
        ({
            let cmd = CommandView::Provision {
                pvs,
                vg_name: vg,
                pe_size: SizeUnit::Megabytes(4),
                lvs: parsed_lvs(specs),
            };
            &&& spec_parse_provision(provision_args(pvs, vg, specs)) == Ok::<
                CommandView,
                Seq<char>,
            >(cmd)
            &&& spec_parse(provision_args(pvs, vg, specs)) == Ok::<ActionView, Seq<char>>(
                ActionView { auto_confirm: false, command: cmd },
            )
        }),
{
    let args = provision_args(pvs, vg, specs);
    let joined = join_on(pvs, ':');
    let head = seq!["lvq"@, "provision"@, "--pv"@, joined, "--vg"@, vg];
    reveal_strlit("lvq");
    reveal_strlit("provision");
    reveal_strlit("--pv");
    reveal_strlit("--vg");
    reveal_strlit("--lv");
    reveal_strlit("-y");
    reveal_strlit("--auto-confirm");
    lemma_lv_flag_args_len(specs);
    lemma_join_first(pvs, ':');
    lemma_split_join(pvs, ':');
    lemma_keep_all(pvs);
    lemma_split_single(vg, ':');
    assert(args[1] == "provision"@);
    assert(args[2] == "--pv"@);
    assert(args[3] == joined);
    assert(args[4] == "--vg"@);
    assert(args[5] == vg);
    assert(!starts_with_dash(joined));
    let st0 = initial_scan();
    let st1 = ScanState { pvs: st0.pvs + pvs, ..st0 };
    assert(st0.pvs + pvs =~= pvs);
    let st2 = ScanState { vg, pe: st0.pe, ..st1 };
    assert(scan(args, 1, st0) == scan(args, 2, st0));
    assert(scan(args, 2, st0) == scan(args, 4, st1));
    assert(scan(args, 4, st1) == scan(args, 6, st2));
    lemma_scan_lvs(head, specs, Seq::empty(), st2);
    assert(head + lv_flag_args(specs) + Seq::<Seq<char>>::empty() =~= args);
    let st3 = ScanState { lvs: st2.lvs + parsed_lvs(specs), ..st2 };
    assert(st2.lvs + parsed_lvs(specs) =~= parsed_lvs(specs));
    assert(scan(args, 6 + 2 * specs.len(), st3) == Ok::<ScanState, Seq<char>>(st3));
    // routing: the subcommand is `provision` and no toggle is present
    let first = subcommand_from(args, 2, "provision"@);
    assert(subcommand_from(args, 1, Seq::empty()) == first);
    lemma_subcommand_kept(args, 2, "provision"@);
    lemma_lv_flag_args_no_confirm(specs);
    assert forall|j: int| 1 <= j < args.len() implies !is_confirm_flag(#[trigger] args[j]) by {
        if j >= 6 {
            assert(args[j] == lv_flag_args(specs)[j - 6]);
        }
    }
}


proof fn lemma_lv_flag_args_concat(a: Seq<Seq<char>>, b: Seq<Seq<char>>)
    ensures
        lv_flag_args(a + b) == lv_flag_args(a) + lv_flag_args(b),
    decreases b.len(),
{
    if b.len() == 0 {
        assert(a + b =~= a);
        assert(lv_flag_args(a) + lv_flag_args(b) =~= lv_flag_args(a));
    } else {
        assert((a + b).drop_last() =~= a + b.drop_last());
        assert((a + b).last() == b.last());
        lemma_lv_flag_args_concat(a, b.drop_last());
        assert(lv_flag_args(a + b) =~= lv_flag_args(a) + lv_flag_args(b));
    }
}

/// The places where the test of the toggle puts `-y` into a command line
/// of `n` volume specs: before the subcommand, right after it, or before
/// any flag that follows `--pv`'s value, or at the end.
pub open spec fn toggle_position(p: int, n: nat) -> bool {
    p == 1 || p == 2 || (4 <= p <= 6 + 2 * n && p % 2 == 0)
}

proof fn lemma_toggle_early(
    pvs: Seq<Seq<char>>,
    vg: Seq<char>,
    specs: Seq<Seq<char>>,
    p: int,
)
    requires
        pvs.len() >= 1,
        forall|i: int| 0 <= i < pvs.len() ==> (#[trigger] pvs[i]).len() > 0 && free_of(pvs[i], ':'),
        !starts_with_dash(pvs[0]),
        vg.len() > 0,
        free_of(vg, ':'),
        !starts_with_dash(vg),
        specs.len() >= 1,
        forall|i: int| 0 <= i < specs.len() ==> good_lv_spec(#[trigger] specs[i]),
        p == 1 || p == 2 || p == 4,
    ensures
        spec_parse(provision_args(pvs, vg, specs).insert(p, "-y"@)) == Ok::<ActionView, Seq<char>>(
            ActionView {
                auto_confirm: true,
                command: CommandView::Provision {
                    pvs,
                    vg_name: vg,
                    pe_size: SizeUnit::Megabytes(4),
                    lvs: parsed_lvs(specs),
                },
            },
        ),
{
    let args = provision_args(pvs, vg, specs);
    let y = args.insert(p, "-y"@);
    let joined = join_on(pvs, ':');
    let lv = lv_flag_args(specs);
    reveal_strlit("lvq");
    reveal_strlit("provision");
    reveal_strlit("--pv");
    reveal_strlit("--vg");
    reveal_strlit("--lv");
    reveal_strlit("-y");
    reveal_strlit("--auto-confirm");
    lemma_lv_flag_args_len(specs);
    lemma_join_first(pvs, ':');
    lemma_split_join(pvs, ':');
    lemma_keep_all(pvs);
    lemma_split_single(vg, ':');
    lemma_lv_flag_args_no_confirm(specs);
    assert(!starts_with_dash(joined));
    let st0 = initial_scan();
    assert(st0.pvs + pvs =~= pvs);
    let st1 = ScanState { pvs, ..st0 };
    let st2 = ScanState { vg, ..st1 };
    let st3 = ScanState { lvs: parsed_lvs(specs), ..st2 };
    assert(st2.lvs + parsed_lvs(specs) =~= parsed_lvs(specs));
    let n = specs.len();
    let head = if p == 1 {
        seq!["lvq"@, "-y"@, "provision"@, "--pv"@, joined, "--vg"@, vg]
    } else if p == 2 {
        seq!["lvq"@, "provision"@, "-y"@, "--pv"@, joined, "--vg"@, vg]
    } else {
        seq!["lvq"@, "provision"@, "--pv"@, joined, "-y"@, "--vg"@, vg]
    };
    assert(y =~= head + lv + Seq::<Seq<char>>::empty());
    if p == 1 {
        assert(y[1] == "-y"@ && y[2] == "provision"@);
        assert("-y"@.len() == 2 && "--pv"@.len() == 4 && "--vg"@.len() == 4 && "--lv"@.len() == 4);
        assert(scan(y, 1, st0) == scan(y, 2, st0));
        assert(scan(y, 2, st0) == scan(y, 3, st0));
        assert(scan(y, 3, st0) == scan(y, 5, st1));
        assert(scan(y, 5, st1) == scan(y, 7, st2));
    } else if p == 2 {
        assert(scan(y, 1, st0) == scan(y, 3, st0));
        assert(scan(y, 3, st0) == scan(y, 5, st1));
        assert(scan(y, 5, st1) == scan(y, 7, st2));
    } else {
        assert(scan(y, 1, st0) == scan(y, 2, st0));
        assert(scan(y, 2, st0) == scan(y, 4, st1));
        assert(scan(y, 4, st1) == scan(y, 5, st1));
        assert(scan(y, 5, st1) == scan(y, 7, st2));
    }
    lemma_scan_lvs(head, specs, Seq::empty(), st2);
    assert(scan(y, 7 + 2 * n, st3) == Ok::<ScanState, Seq<char>>(st3));
    if p == 1 {
        assert(subcommand_from(y, 1, Seq::empty()) == subcommand_from(y, 2, Seq::empty()));
        assert(subcommand_from(y, 2, Seq::empty()) == subcommand_from(y, 3, "provision"@));
        lemma_subcommand_kept(y, 3, "provision"@);
    } else {
        assert(subcommand_from(y, 1, Seq::empty()) == subcommand_from(y, 2, "provision"@));
        lemma_subcommand_kept(y, 2, "provision"@);
    }
    assert(is_confirm_flag(y[p]));
    assert(spec_auto_confirm(y));
}

proof fn lemma_toggle_late(
    pvs: Seq<Seq<char>>,
    vg: Seq<char>,
    specs: Seq<Seq<char>>,
    p: int,
)
    requires
        pvs.len() >= 1,
        forall|i: int| 0 <= i < pvs.len() ==> (#[trigger] pvs[i]).len() > 0 && free_of(pvs[i], ':'),
        !starts_with_dash(pvs[0]),
        vg.len() > 0,
        free_of(vg, ':'),
        !starts_with_dash(vg),
        specs.len() >= 1,
        forall|i: int| 0 <= i < specs.len() ==> good_lv_spec(#[trigger] specs[i]),
        6 <= p <= 6 + 2 * specs.len(),
        p % 2 == 0,
    ensures
        spec_parse(provision_args(pvs, vg, specs).insert(p, "-y"@)) == Ok::<ActionView, Seq<char>>(
            ActionView {
                auto_confirm: true,
                command: CommandView::Provision {
                    pvs,
                    vg_name: vg,
                    pe_size: SizeUnit::Megabytes(4),
                    lvs: parsed_lvs(specs),
                },
            },
        ),
{
    let args = provision_args(pvs, vg, specs);
    let y = args.insert(p, "-y"@);
    let joined = join_on(pvs, ':');
    let lv = lv_flag_args(specs);
    reveal_strlit("lvq");
    reveal_strlit("provision");
    reveal_strlit("--pv");
    reveal_strlit("--vg");
    reveal_strlit("--lv");
    reveal_strlit("-y");
    reveal_strlit("--auto-confirm");
    lemma_lv_flag_args_len(specs);
    lemma_join_first(pvs, ':');
    lemma_split_join(pvs, ':');
    lemma_keep_all(pvs);
    lemma_split_single(vg, ':');
    lemma_lv_flag_args_no_confirm(specs);
    assert(!starts_with_dash(joined));
    let st0 = initial_scan();
    assert(st0.pvs + pvs =~= pvs);
    let st1 = ScanState { pvs, ..st0 };
    let st2 = ScanState { vg, ..st1 };
    let st3 = ScanState { lvs: parsed_lvs(specs), ..st2 };
    assert(st2.lvs + parsed_lvs(specs) =~= parsed_lvs(specs));
    let n = specs.len();
    let k = (p - 6) / 2;
    assert(0 <= k <= n);
    let a = specs.take(k);
    let b = specs.skip(k);
    assert(a + b =~= specs);
    lemma_lv_flag_args_concat(a, b);
    lemma_lv_flag_args_len(a);
    let head = seq!["lvq"@, "provision"@, "--pv"@, joined, "--vg"@, vg];
    assert forall|i: int| 0 <= i < a.len() implies good_lv_spec(#[trigger] a[i]) by {
        assert(a[i] == specs[i]);
    }
    assert forall|i: int| 0 <= i < b.len() implies good_lv_spec(#[trigger] b[i]) by {
        assert(b[i] == specs[i + k]);
    }
    let pre2 = head + lv_flag_args(a) + seq!["-y"@];
    assert(y =~= head + lv_flag_args(a) + (seq!["-y"@] + lv_flag_args(b)));
    assert(y =~= pre2 + lv_flag_args(b) + Seq::<Seq<char>>::empty());
    assert(scan(y, 1, st0) == scan(y, 2, st0));
    assert(scan(y, 2, st0) == scan(y, 4, st1));
    assert(scan(y, 4, st1) == scan(y, 6, st2));
    lemma_scan_lvs(head, a, seq!["-y"@] + lv_flag_args(b), st2);
    let sta = ScanState { lvs: st2.lvs + parsed_lvs(a), ..st2 };
    assert(y[6 + 2 * k] == "-y"@);
    assert(scan(y, (6 + 2 * k) as nat, sta) == scan(y, (7 + 2 * k) as nat, sta));
    lemma_scan_lvs(pre2, b, Seq::empty(), sta);
    assert(sta.lvs + parsed_lvs(b) =~= parsed_lvs(specs));
    assert(scan(y, 7 + 2 * n, st3) == Ok::<ScanState, Seq<char>>(st3));
    assert(subcommand_from(y, 1, Seq::empty()) == subcommand_from(y, 2, "provision"@));
    lemma_subcommand_kept(y, 2, "provision"@);
    assert(is_confirm_flag(y[p]));
    assert(spec_auto_confirm(y));
}

/// The confirmation toggle floats: `-y` put into the command line of
/// `law_provision_roundtrip` before the subcommand, after it, or between
/// any two flag-value pairs (or at the end) turns the toggle on and
/// leaves the command as it was.
pub proof fn law_floating_toggle(
    pvs: Seq<Seq<char>>,
    vg: Seq<char>,
    specs: Seq<Seq<char>>,
    p: int,
)
    requires
        pvs.len() >= 1,
        forall|i: int| 0 <= i < pvs.len() ==> (#[trigger] pvs[i]).len() > 0 && free_of(pvs[i], ':'),
        !starts_with_dash(pvs[0]),
        vg.len() > 0,
        free_of(vg, ':'),
        !starts_with_dash(vg),
        specs.len() >= 1,
        forall|i: int| 0 <= i < specs.len() ==> good_lv_spec(#[trigger] specs[i]),
        toggle_position(p, specs.len()),
    ensures
        spec_parse(provision_args(pvs, vg, specs).insert(p, "-y"@)) == Ok::<ActionView, Seq<char>>(
            ActionView {
                auto_confirm: true,
                command: CommandView::Provision {
                    pvs,
                    vg_name: vg,
                    pe_size: SizeUnit::Megabytes(4),
                    lvs: parsed_lvs(specs),
                },
            },
        ),
{
    if p <= 4 {
        lemma_toggle_early(pvs, vg, specs, p);
    } else {
        lemma_toggle_late(pvs, vg, specs, p);
    }
}

/// Every piece of `s` split at `sep` is free of `sep`.
proof fn lemma_split_pieces_free(s: Seq<char>, sep: char)
    ensures
        forall|i: int|
            0 <= i < split_on(s, sep).len() ==> free_of(#[trigger] split_on(s, sep)[i], sep),
    decreases s.len(),
{
    if s.len() > 0 {
        lemma_split_pieces_free(s.drop_last(), sep);
        lemma_split_nonempty(s.drop_last(), sep);
        let init = split_on(s.drop_last(), sep);
        if s.last() != sep {
            let p = split_on(s, sep);
            assert forall|i: int| 0 <= i < p.len() implies free_of(#[trigger] p[i], sep) by {
                if i == init.len() - 1 {
                    assert(p[i] == init.last().push(s.last()));
                    assert(free_of(init[i], sep));
                    assert forall|j: int| 0 <= j < p[i].len() implies p[i][j] != sep by {
                        if j < init.last().len() {
                            assert(p[i][j] == init.last()[j]);
                        }
                    }
                } else {
                    assert(p[i] == init[i]);
                }
            }
        } else {
            let p = split_on(s, sep);
            assert forall|i: int| 0 <= i < p.len() implies free_of(#[trigger] p[i], sep) by {
                if i < init.len() {
                    assert(p[i] == init[i]);
                }
            }
        }
    }
}

/// The kept pieces are non-empty, and free of `sep` when all pieces are.
proof fn lemma_kept_pieces(parts: Seq<Seq<char>>, sep: char)
    requires
        forall|i: int| 0 <= i < parts.len() ==> free_of(#[trigger] parts[i], sep),
    ensures
        forall|i: int|
            0 <= i < keep_nonempty(parts).len() ==> (#[trigger] keep_nonempty(parts)[i]).len() > 0
                && free_of(keep_nonempty(parts)[i], sep),
    decreases parts.len(),
{
    if parts.len() > 0 {
        let init = parts.drop_last();
        assert forall|i: int| 0 <= i < init.len() implies free_of(#[trigger] init[i], sep) by {
            assert(init[i] == parts[i]);
        }
        lemma_kept_pieces(init, sep);
        assert(free_of(parts.last(), sep));
        let ki = keep_nonempty(init);
        let k = keep_nonempty(parts);
        if parts.last().len() > 0 {
            assert(k == ki.push(parts.last()));
            assert forall|i: int| 0 <= i < k.len() implies (#[trigger] k[i]).len() > 0 && free_of(
                k[i],
                sep,
            ) by {
                if i < ki.len() {
                    assert(k[i] == ki[i]);
                }
            }
        } else {
            assert(k == ki);
        }
    }
}

/// The physical volumes gathered so far are non-empty paths without
/// ':', and the group name has no ':'.
pub open spec fn gathered_well(st: ScanState) -> bool {
    &&& forall|i: int| 0 <= i < st.pvs.len() ==> (#[trigger] st.pvs[i]).len() > 0 && free_of(st.pvs[i], ':')
    &&& free_of(st.vg, ':')
}

proof fn lemma_scan_gathers_well(args: Seq<Seq<char>>, i: nat, st: ScanState)
    requires
        gathered_well(st),
    ensures
        scan(args, i, st) matches Ok(t) ==> gathered_well(t),
    decreases args.len() - i,
{
    if i < args.len() {
        let a = args[i as int];
        if i + 1 < args.len() {
            let v = args[i + 1 as int];
            let parts = split_on(v, ':');
            lemma_split_pieces_free(v, ':');
            lemma_split_nonempty(v, ':');
            lemma_kept_pieces(parts, ':');
            let kept = nonempty_pieces(v, ':');
            let st1 = ScanState { pvs: st.pvs + kept, ..st };
            assert forall|k: int| 0 <= k < st1.pvs.len() implies (#[trigger] st1.pvs[k]).len() > 0
                && free_of(st1.pvs[k], ':') by {
                if k < st.pvs.len() {
                    assert(st1.pvs[k] == st.pvs[k]);
                } else {
                    assert(st1.pvs[k] == kept[k - st.pvs.len()]);
                }
            }
            lemma_scan_gathers_well(args, i + 2, st1);
            assert(free_of(parts[0], ':'));
            if parts.len() > 1 && parts[1].len() > 0 {
                if let Ok(pe) = spec_parse_size(parts[1]) {
                    lemma_scan_gathers_well(args, i + 2, ScanState { vg: parts[0], pe, ..st });
                }
            } else {
                lemma_scan_gathers_well(args, i + 2, ScanState { vg: parts[0], pe: st.pe, ..st });
            }
            if let Ok(l) = spec_parse_lv(v) {
                lemma_scan_gathers_well(args, i + 2, ScanState { lvs: st.lvs.push(l), ..st });
            }
        }
        lemma_scan_gathers_well(args, i + 1, st);
    }
}

/// What a successful parse gives: at least one physical volume, each a
/// non-empty path without ':'; a non-empty group name without ':'; and
/// at least one volume request.
pub proof fn law_parsed_command_is_well_formed(args: Seq<Seq<char>>)
    ensures
        spec_parse_provision(args) matches Ok(CommandView::Provision { pvs, vg_name, lvs, .. })
            ==> {
            &&& pvs.len() >= 1
            &&& forall|i: int| 0 <= i < pvs.len() ==> (#[trigger] pvs[i]).len() > 0 && free_of(pvs[i], ':')
            &&& vg_name.len() > 0
            &&& free_of(vg_name, ':')
            &&& lvs.len() >= 1
        },
{
    assert(gathered_well(initial_scan()));
    lemma_scan_gathers_well(args, 1, initial_scan());
}

proof fn lemma_scan_suffix(a: Seq<Seq<char>>, b: Seq<Seq<char>>, rest: Seq<Seq<char>>, k: nat, st: ScanState)
    requires
        k <= rest.len(),
    ensures
        scan(a + rest, a.len() + k, st) == scan(b + rest, b.len() + k, st),
    decreases rest.len() - k,
{
    let x = a + rest;
    let y = b + rest;
    if k < rest.len() {
        assert(x[(a.len() + k) as int] == rest[k as int]);
        assert(y[(b.len() + k) as int] == rest[k as int]);
        if k + 1 < rest.len() {
            assert(x[(a.len() + k + 1) as int] == rest[(k + 1) as int]);
            assert(y[(b.len() + k + 1) as int] == rest[(k + 1) as int]);
        }
        lemma_scan_suffix(a, b, rest, k + 1, st);
        if k + 2 <= rest.len() {
            let v = rest[(k + 1) as int];
            let parts = split_on(v, ':');
            let pe = if parts.len() > 1 && parts[1].len() > 0 {
                spec_parse_size(parts[1])
            } else {
                Ok(st.pe)
            };
            lemma_scan_suffix(a, b, rest, k + 2, ScanState { pvs: st.pvs + nonempty_pieces(v, ':'), ..st });
            if let Ok(pe) = pe {
                lemma_scan_suffix(a, b, rest, k + 2, ScanState { vg: parts[0], pe, ..st });
            }
            if let Ok(l) = spec_parse_lv(v) {
                lemma_scan_suffix(a, b, rest, k + 2, ScanState { lvs: st.lvs.push(l), ..st });
            }
        }
    }
}

/// A token that the `provision` worker skips (`-y`, `--auto-confirm` or
/// `provision`) changes nothing where the worker reads a flag: put at the
/// position `i` where reading stands, it is read past and the rest reads
/// as before.
pub proof fn law_skip_token_changes_nothing(args: Seq<Seq<char>>, i: nat, tok: Seq<char>, st: ScanState)
    requires
        i <= args.len(),
        tok == "-y"@ || tok == "--auto-confirm"@ || tok == "provision"@,
    ensures
        scan(args.insert(i as int, tok), i, st) == scan(args, i, st),
{
    reveal_strlit("-y");
    reveal_strlit("--auto-confirm");
    reveal_strlit("provision");
    reveal_strlit("--pv");
    reveal_strlit("--vg");
    reveal_strlit("--lv");
    let pre = args.take(i as int);
    let rest = args.skip(i as int);
    let y = args.insert(i as int, tok);
    assert(y =~= (pre + seq![tok]) + rest);
    assert(args =~= pre + rest);
    assert(y[i as int] == tok);
    assert(tok != "--pv"@ && tok != "--vg"@ && tok != "--lv"@) by {
        assert("--pv"@.len() == 4 && "--vg"@.len() == 4 && "--lv"@.len() == 4);
        assert("-y"@.len() == 2 && "--auto-confirm"@.len() == 14 && "provision"@.len() == 9);
    }
    assert(scan(y, i, st) == scan(y, i + 1, st));
    lemma_scan_suffix(pre + seq![tok], pre, rest, 0, st);
}

// ----- reading a command line item by item ------------------------------

/// A flag that takes the next argument as its value.
pub open spec fn is_pair_flag(a: Seq<char>) -> bool {
    a == "--pv"@ || a == "--vg"@ || a == "--lv"@
}

/// An argument that the `provision` worker reads past.
pub open spec fn is_skip(a: Seq<char>) -> bool {
    a == "-y"@ || a == "--auto-confirm"@ || a == "provision"@
}

/// An item of a command line: one argument that is not a value-taking
/// flag, or such a flag with its value.
pub open spec fn item_shaped(it: Seq<Seq<char>>) -> bool {
    ||| (it.len() == 1 && !is_pair_flag(it[0]))
    ||| (it.len() == 2 && is_pair_flag(it[0]))
}

pub open spec fn all_shaped(items: Seq<Seq<Seq<char>>>) -> bool {
    forall|k: int| 0 <= k < items.len() ==> item_shaped(#[trigger] items[k])
}

/// The arguments of the items, one after another.
pub open spec fn flatten(items: Seq<Seq<Seq<char>>>) -> Seq<Seq<char>>
    decreases items.len(),
{
    if items.len() == 0 {
        Seq::empty()
    } else {
        items[0] + flatten(items.drop_first())
    }
}

/// What the worker makes of one item (as `scan` reads it).
pub open spec fn step_item(st: ScanState, it: Seq<Seq<char>>) -> Result<ScanState, Seq<char>> {
    let a = it[0];
    if it.len() == 1 {
        if is_skip(a) {
            Ok(st)
        } else {
            Err("Unknown argument: "@ + a)
        }
    } else {
        let v = it[1];
        if a == "--pv"@ {
            if starts_with_dash(v) {
                Err(flag_value_message(a, v))
            } else {
                Ok(ScanState { pvs: st.pvs + nonempty_pieces(v, ':'), ..st })
            }
        } else if a == "--vg"@ {
            if st.vg.len() > 0 {
                Err("Volume Group can only be specified once"@)
            } else if starts_with_dash(v) {
                Err(flag_value_message(a, v))
            } else {
                let parts = split_on(v, ':');
                let pe = if parts.len() > 1 && parts[1].len() > 0 {
                    spec_parse_size(parts[1])
                } else {
                    Ok(st.pe)
                };
                match pe {
                    Err(e) => Err(e),
                    Ok(pe) => Ok(ScanState { vg: parts[0], pe, ..st }),
                }
            }
        } else {
            if starts_with_dash(v) {
                Err(flag_value_message(a, v))
            } else {
                match spec_parse_lv(v) {
                    Err(e) => Err(e),
                    Ok(l) => Ok(ScanState { lvs: st.lvs.push(l), ..st }),
                }
            }
        }
    }
}

/// What the worker makes of the items, one after another.
pub open spec fn scan_items(st: ScanState, items: Seq<Seq<Seq<char>>>) -> Result<ScanState, Seq<char>>
    decreases items.len(),
{
    if items.len() == 0 {
        Ok(st)
    } else {
        match step_item(st, items[0]) {
            Err(e) => Err(e),
            Ok(t) => scan_items(t, items.drop_first()),
        }
    }
}

proof fn lemma_scan_items(
    pre: Seq<Seq<char>>,
    items: Seq<Seq<Seq<char>>>,
    post: Seq<Seq<char>>,
    st: ScanState,
)
    requires
        all_shaped(items),
    ensures
        scan(pre + flatten(items) + post, pre.len(), st) == match scan_items(st, items) {
            Err(e) => Err(e),
            Ok(t) => scan(pre + flatten(items) + post, pre.len() + flatten(items).len(), t),
        },
    decreases items.len(),
{
    reveal_strlit("--pv");
    reveal_strlit("--vg");
    reveal_strlit("--lv");
    reveal_strlit("-y");
    reveal_strlit("--auto-confirm");
    reveal_strlit("provision");
    if items.len() > 0 {
        let it = items[0];
        let rest = items.drop_first();
        assert(item_shaped(it));
        assert forall|k: int| 0 <= k < rest.len() implies item_shaped(#[trigger] rest[k]) by {
            assert(rest[k] == items[k + 1]);
        }
        let args = pre + flatten(items) + post;
        assert(args =~= (pre + it) + flatten(rest) + post);
        let i = pre.len();
        assert(args[i as int] == it[0]);
        if it.len() == 2 {
            assert(args[i + 1int] == it[1]);
        }
        assert("--pv"@ != "--vg"@ && "--pv"@ != "--lv"@ && "--vg"@ != "--lv"@) by {
            assert("--pv"@[2] != "--vg"@[2] && "--pv"@[2] != "--lv"@[2] && "--vg"@[2] != "--lv"@[2]);
        }
        lemma_scan_items(pre + it, rest, post, st);
        match step_item(st, it) {
            Err(_) => {},
            Ok(t) => {
                lemma_scan_items(pre + it, rest, post, t);
            },
        }
    }
}

proof fn lemma_scan_items_concat(st: ScanState, a: Seq<Seq<Seq<char>>>, b: Seq<Seq<Seq<char>>>)
    ensures
        scan_items(st, a + b) == match scan_items(st, a) {
            Err(e) => Err(e),
            Ok(t) => scan_items(t, b),
        },
    decreases a.len(),
{
    if a.len() == 0 {
        assert(a + b =~= b);
    } else {
        assert((a + b)[0] == a[0]);
        assert((a + b).drop_first() =~= a.drop_first() + b);
        match step_item(st, a[0]) {
            Err(_) => {},
            Ok(t) => {
                lemma_scan_items_concat(t, a.drop_first(), b);
            },
        }
    }
}

/// The `provision` command read from a program name followed by items.
proof fn lemma_parse_items(a0: Seq<char>, items: Seq<Seq<Seq<char>>>)
    requires
        all_shaped(items),
    ensures
        scan(seq![a0] + flatten(items), 1, initial_scan()) == scan_items(initial_scan(), items),
{
    let args = seq![a0] + flatten(items);
    lemma_scan_items(seq![a0], items, Seq::empty(), initial_scan());
    assert(seq![a0] + flatten(items) + Seq::<Seq<char>>::empty() =~= args);
    if let Ok(t) = scan_items(initial_scan(), items) {
        assert(scan(args, 1 + flatten(items).len(), t) == Ok::<ScanState, Seq<char>>(t));
    }
}

/// Skip tokens change nothing: `-y`, `--auto-confirm` or `provision` put
/// between two items of a command line (or before the first, or after
/// the last) leaves the `provision` command read from it as it was, the
/// same command or the same refusal.
pub proof fn law_skip_token_between_items(
    a0: Seq<char>,
    items: Seq<Seq<Seq<char>>>,
    m: int,
    tok: Seq<char>,
)
    requires
        all_shaped(items),
        0 <= m <= items.len(),
        is_skip(tok),
    ensures
        spec_parse_provision(
            seq![a0] + flatten(items.take(m) + seq![seq![tok]] + items.skip(m)),
        ) == spec_parse_provision(seq![a0] + flatten(items)),
{
    reveal_strlit("--pv");
    reveal_strlit("--vg");
    reveal_strlit("--lv");
    reveal_strlit("-y");
    reveal_strlit("--auto-confirm");
    reveal_strlit("provision");
    let a = items.take(m);
    let b = items.skip(m);
    let t = seq![seq![tok]];
    let items2 = a + t + b;
    assert(items =~= a + b);
    assert(!is_pair_flag(tok)) by {
        assert("--pv"@.len() == 4 && "--vg"@.len() == 4 && "--lv"@.len() == 4);
        assert("-y"@.len() == 2 && "--auto-confirm"@.len() == 14 && "provision"@.len() == 9);
    }
    assert forall|k: int| 0 <= k < items2.len() implies item_shaped(#[trigger] items2[k]) by {
        if k < m {
            assert(items2[k] == items[k]);
        } else if k == m {
            assert(items2[k] == seq![tok]);
        } else {
            assert(items2[k] == items[k - 1]);
        }
    }
    lemma_parse_items(a0, items);
    lemma_parse_items(a0, items2);
    lemma_scan_items_concat(initial_scan(), a, t + b);
    lemma_scan_items_concat(initial_scan(), a, b);
    assert(items2 =~= a + (t + b));
    if let Ok(s) = scan_items(initial_scan(), a) {
        assert((t + b)[0] == seq![tok]);
        assert((t + b).drop_first() =~= b);
        assert(step_item(s, seq![tok]) == Ok::<ScanState, Seq<char>>(s));
    }
}

// ----- the closed form of a well-formed command line ---------------------

/// The physical volumes that the `--pv` items name: the non-empty pieces
/// of each value split at ':', in order.
pub open spec fn items_pvs(items: Seq<Seq<Seq<char>>>) -> Seq<Seq<char>>
    decreases items.len(),
{
    if items.len() == 0 {
        Seq::empty()
    } else {
        (if items[0].len() == 2 && items[0][0] == "--pv"@ {
            nonempty_pieces(items[0][1], ':')
        } else {
            Seq::empty()
        }) + items_pvs(items.drop_first())
    }
}

/// The requests that the `--lv` items name, in order.
pub open spec fn items_lvs(items: Seq<Seq<Seq<char>>>) -> Seq<LvRequestView>
    decreases items.len(),
{
    if items.len() == 0 {
        Seq::empty()
    } else {
        (if items[0].len() == 2 && items[0][0] == "--lv"@ {
            seq![spec_parse_lv(items[0][1])->Ok_0]
        } else {
            Seq::empty()
        }) + items_lvs(items.drop_first())
    }
}

/// The value of the first `--vg` item.
pub open spec fn items_vg(items: Seq<Seq<Seq<char>>>) -> Option<Seq<char>>
    decreases items.len(),
{
    if items.len() == 0 {
        None
    } else if items[0].len() == 2 && items[0][0] == "--vg"@ {
        Some(items[0][1])
    } else {
        items_vg(items.drop_first())
    }
}

/// How many `--vg` items there are.
pub open spec fn vg_items(items: Seq<Seq<Seq<char>>>) -> nat
    decreases items.len(),
{
    if items.len() == 0 {
        0
    } else {
        (if items[0].len() == 2 && items[0][0] == "--vg"@ {
            1nat
        } else {
            0nat
        }) + vg_items(items.drop_first())
    }
}

/// The extent size a `--vg` value names: the size after ':' when there is
/// one, else `default`.
pub open spec fn vg_extent(v: Seq<char>, default: SizeUnit) -> SizeUnit {
    let parts = split_on(v, ':');
    if parts.len() > 1 && parts[1].len() > 0 {
        spec_parse_size(parts[1])->Ok_0
    } else {
        default
    }
}

/// An item that reads without refusal: a skip token, or a value-taking
/// flag whose value does not begin with a dash and reads well (a `--vg`
/// value with a non-empty name and a readable extent size, a `--lv`
/// value that is a well-formed request).
pub open spec fn item_good(it: Seq<Seq<char>>) -> bool {
    &&& item_shaped(it)
    &&& it.len() == 1 ==> is_skip(it[0])
    &&& it.len() == 2 ==> {
        &&& !starts_with_dash(it[1])
        &&& it[0] == "--lv"@ ==> spec_parse_lv(it[1]) is Ok
        &&& it[0] == "--vg"@ ==> {
            let parts = split_on(it[1], ':');
            &&& parts[0].len() > 0
            &&& parts.len() > 1 && parts[1].len() > 0 ==> spec_parse_size(parts[1]) is Ok
        }
    }
}

proof fn lemma_items_closed(st: ScanState, items: Seq<Seq<Seq<char>>>)
    requires
        forall|k: int| 0 <= k < items.len() ==> item_good(#[trigger] items[k]),
        vg_items(items) <= 1,
        st.vg.len() > 0 ==> vg_items(items) == 0,
    ensures
        scan_items(st, items) == Ok::<ScanState, Seq<char>>(
            ScanState {
                pvs: st.pvs + items_pvs(items),
                vg: match items_vg(items) {
                    Some(v) => split_on(v, ':')[0],
                    None => st.vg,
                },
                pe: match items_vg(items) {
                    Some(v) => vg_extent(v, st.pe),
                    None => st.pe,
                },
                lvs: st.lvs + items_lvs(items),
            },
        ),
    decreases items.len(),
{
    reveal_strlit("--pv");
    reveal_strlit("--vg");
    reveal_strlit("--lv");
    assert("--pv"@ != "--vg"@ && "--pv"@ != "--lv"@ && "--vg"@ != "--lv"@) by {
        assert("--pv"@[2] != "--vg"@[2] && "--pv"@[2] != "--lv"@[2] && "--vg"@[2] != "--lv"@[2]);
    }
    if items.len() == 0 {
        assert(st.pvs + Seq::<Seq<char>>::empty() =~= st.pvs);
        assert(st.lvs + Seq::<LvRequestView>::empty() =~= st.lvs);
    } else {
        let it = items[0];
        let rest = items.drop_first();
        assert(item_good(it));
        assert forall|k: int| 0 <= k < rest.len() implies item_good(#[trigger] rest[k]) by {
            assert(rest[k] == items[k + 1]);
        }
        let t = step_item(st, it)->Ok_0;
        if it.len() == 2 && it[0] == "--vg"@ {
            lemma_split_nonempty(it[1], ':');
            assert(vg_items(rest) == 0);
            lemma_items_closed(t, rest);
            lemma_no_vg(rest);
        } else {
            lemma_items_closed(t, rest);
        }
        assert(step_item(st, it) is Ok);
        assert(st.pvs + items_pvs(items) =~= t.pvs + items_pvs(rest));
        assert(st.lvs + items_lvs(items) =~= t.lvs + items_lvs(rest));
    }
}

proof fn lemma_no_vg(items: Seq<Seq<Seq<char>>>)
    requires
        vg_items(items) == 0,
    ensures
        items_vg(items) is None,
    decreases items.len(),
{
    if items.len() > 0 {
        lemma_no_vg(items.drop_first());
    }
}

/// The closed form of a well-formed command line: when the arguments
/// after the program name are items that each read well, with exactly one
/// `--vg`, at least one physical volume and at least one `--lv`, the
/// command has the non-empty ':'-pieces of the `--pv` values in order,
/// the name before ':' of the `--vg` value, the extent size after it (4
/// MiB when none is given), and the `--lv` requests in order.
pub proof fn law_provision_closed_form(a0: Seq<char>, items: Seq<Seq<Seq<char>>>)
    requires
        forall|k: int| 0 <= k < items.len() ==> item_good(#[trigger] items[k]),
        vg_items(items) == 1,
        items_pvs(items).len() >= 1,
        items_lvs(items).len() >= 1,
    ensures
        items_vg(items) matches Some(v) && spec_parse_provision(seq![a0] + flatten(items)) == Ok::<
            CommandView,
            Seq<char>,
        >(
            CommandView::Provision {
                pvs: items_pvs(items),
                vg_name: split_on(v, ':')[0],
                pe_size: vg_extent(v, SizeUnit::Megabytes(4)),
                lvs: items_lvs(items),
            },
        ),
{
    assert(all_shaped(items)) by {
        assert forall|k: int| 0 <= k < items.len() implies item_shaped(#[trigger] items[k]) by {
            assert(item_good(items[k]));
        }
    }
    lemma_parse_items(a0, items);
    lemma_items_closed(initial_scan(), items);
    lemma_vg_found(items);
    assert(initial_scan().pvs + items_pvs(items) =~= items_pvs(items));
    assert(initial_scan().lvs + items_lvs(items) =~= items_lvs(items));
    lemma_vg_item_good(items);
}

proof fn lemma_vg_found(items: Seq<Seq<Seq<char>>>)
    requires
        vg_items(items) >= 1,
    ensures
        items_vg(items) is Some,
    decreases items.len(),
{
    if items.len() > 0 && !(items[0].len() == 2 && items[0][0] == "--vg"@) {
        lemma_vg_found(items.drop_first());
    }
}

proof fn lemma_vg_item_good(items: Seq<Seq<Seq<char>>>)
    requires
        forall|k: int| 0 <= k < items.len() ==> item_good(#[trigger] items[k]),
    ensures
        items_vg(items) matches Some(v) ==> split_on(v, ':')[0].len() > 0,
    decreases items.len(),
{
    reveal_strlit("--vg");
    if items.len() > 0 {
        assert(item_good(items[0]));
        let rest = items.drop_first();
        assert forall|k: int| 0 <= k < rest.len() implies item_good(#[trigger] rest[k]) by {
            assert(rest[k] == items[k + 1]);
        }
        lemma_vg_item_good(rest);
    }
}

/// Reading a filesystem name gives back that filesystem: for every
/// filesystem `f`, the name that `mkfs -t` and fstab use for it reads as
/// `f` (so `xfs` reads as `Xfs`, `ext4` as `Ext4`, and so on).
pub proof fn law_filesystem_names_read_back(f: Filesystem)
    ensures
        spec_parse_fs(f.spec_name()) == Ok::<Filesystem, Seq<char>>(f),
{
    reveal_strlit("xfs");
    reveal_strlit("ext4");
    reveal_strlit("swap");
    reveal_strlit("btrfs");
    reveal_strlit("vfat");
    assert("xfs"@.len() == 3 && "ext4"@.len() == 4 && "swap"@.len() == 4 && "btrfs"@.len() == 5
        && "vfat"@.len() == 4);
    assert("ext4"@[0] != "swap"@[0] && "ext4"@[0] != "vfat"@[0] && "swap"@[0] != "vfat"@[0]);
}

/// Reading distinguishes filesystems: two names that read as filesystems
/// read as the same one only when they are the same name.
pub proof fn law_filesystem_reading_is_one_to_one(a: Seq<char>, b: Seq<char>)
    requires
        spec_parse_fs(a) is Ok,
        spec_parse_fs(a) == spec_parse_fs(b),
    ensures
        a == b,
{
}

proof fn lemma_digit_char(d: nat)
    requires
        d < 10,
    ensures
        is_digit_char(digit_char(d)),
        digit_value(digit_char(d)) == d,
{
    let c = digit_char(d);
    assert(c as u32 == 48 + d);
    assert('0' as u32 == 48 && '9' as u32 == 57);
}

proof fn lemma_decimal_digits(n: nat)
    ensures
        decimal(n).len() >= 1,
        forall|j: int| 0 <= j < decimal(n).len() ==> is_digit_char(#[trigger] decimal(n)[j]),
        digits_value(decimal(n)) == n,
    decreases n,
{
    if n < 10 {
        lemma_digit_char(n);
        assert(decimal(n).drop_last() =~= Seq::<char>::empty());
        assert(digits_value(Seq::<char>::empty()) == 0);
        assert(decimal(n).last() == digit_char(n));
    } else {
        lemma_decimal_digits(n / 10);
        lemma_digit_char(n % 10);
        let d = decimal(n);
        assert(d.drop_last() == decimal(n / 10));
        assert(d.last() == digit_char(n % 10));
        assert(n == (n / 10) * 10 + n % 10);
        assert(digits_value(d) == digits_value(decimal(n / 10)) * 10 + digit_value(digit_char(
            n % 10,
        )));
    }
}

/// A size written back in the notation it is read in reads as that size:
/// for every positive count `n`, `<n>M`, `<n>G`, `<n>T` and `<n>` read as
/// `n` mebibytes, gibibytes, tebibytes and extents; for every percentage
/// `k` in 1..=100, `<k>%FREE`, `<k>%VG` and `<k>%PVS` read as `k` percent
/// of the free space, the group and the physical volumes.
pub proof fn law_sizes_read_back(n: u64, k: u8, suf: Seq<char>)
    requires
        n >= 1,
        1 <= k <= 100,
    ensures
        suf == "M"@ ==> spec_parse_size(decimal(n as nat) + suf) == Ok::<SizeUnit, Seq<char>>(
            SizeUnit::Megabytes(n),
        ),
        suf == "G"@ ==> spec_parse_size(decimal(n as nat) + suf) == Ok::<SizeUnit, Seq<char>>(
            SizeUnit::Gigabytes(n),
        ),
        suf == "T"@ ==> spec_parse_size(decimal(n as nat) + suf) == Ok::<SizeUnit, Seq<char>>(
            SizeUnit::Terabytes(n),
        ),
        suf == ""@ ==> spec_parse_size(decimal(n as nat) + suf) == Ok::<SizeUnit, Seq<char>>(
            SizeUnit::Extents(n),
        ),
        suf == "%FREE"@ ==> spec_parse_size(decimal(k as nat) + suf) == Ok::<SizeUnit, Seq<char>>(
            SizeUnit::Percentage(ValidPercentage::spec_new(k), PercentTarget::Free),
        ),
        suf == "%VG"@ ==> spec_parse_size(decimal(k as nat) + suf) == Ok::<SizeUnit, Seq<char>>(
            SizeUnit::Percentage(ValidPercentage::spec_new(k), PercentTarget::Vg),
        ),
        suf == "%PVS"@ ==> spec_parse_size(decimal(k as nat) + suf) == Ok::<SizeUnit, Seq<char>>(
            SizeUnit::Percentage(ValidPercentage::spec_new(k), PercentTarget::Pvs),
        ),
{
    reveal_strlit("M");
    reveal_strlit("G");
    reveal_strlit("T");
    reveal_strlit("");
    reveal_strlit("%FREE");
    reveal_strlit("%VG");
    reveal_strlit("%PVS");
    let num: nat = if suf == "M"@ || suf == "G"@ || suf == "T"@ || suf == ""@ {
        n as nat
    } else {
        k as nat
    };
    if known_size_suffix(suf) {
        let d = decimal(num);
        lemma_decimal_digits(num);
        let s = d + suf;
        assert forall|j: int| 0 <= j < d.len() implies is_digit_char(#[trigger] s[j]) by {
            assert(s[j] == d[j]);
        }
        if suf.len() > 0 {
            assert(s[d.len() as int] == suf[0]);
            assert(!is_digit_char(suf[0]));
        }
        lemma_lead_digits(s, d.len());
        assert(s.skip(d.len() as int) =~= suf);
        assert(s.take(d.len() as int) =~= d);
        assert("M"@ != "G"@ && "M"@ != "T"@ && "G"@ != "T"@ && "M"@ != ""@ && "G"@ != ""@ && "T"@
            != ""@) by {
            assert("M"@[0] != "G"@[0] && "M"@[0] != "T"@[0] && "G"@[0] != "T"@[0]);
            assert("M"@.len() == 1 && "G"@.len() == 1 && "T"@.len() == 1 && ""@.len() == 0);
        }
        assert("%FREE"@.len() == 5 && "%VG"@.len() == 3 && "%PVS"@.len() == 4);
    }
}

} // verus!
