//! The vocabulary of the provisioning engine: size units, filesystems,
//! volume requests, commands, planned calls, drafts and execution lists,
//! each with a mathematical view that the contracts speak of.
use vstd::prelude::*;

verus! {

/// What a percentage-based logical volume size is relative to.
#[derive(Clone, Copy, Debug, PartialEq, Eq, Structural)]
pub enum PercentTarget {
    Free,
    Vg,
    Pvs,
}

/// A percentage that is known to lie in `1..=100`.
#[derive(Clone, Copy, Debug, PartialEq, Eq)]
pub struct ValidPercentage {
    value: u8,
}

impl ValidPercentage {
    #[verifier::type_invariant]
    spec fn in_range(self) -> bool {
        1 <= self.value <= 100
    }

    /// The percentage held.
    pub closed spec fn spec_get(self) -> u8 {
        self.value
    }

    /// The percentage holding `value`.
    pub closed spec fn spec_new(value: u8) -> ValidPercentage {
        ValidPercentage { value }
    }

    pub broadcast proof fn lemma_spec_new_get(value: u8)
        ensures
            #[trigger] Self::spec_new(value).spec_get() == value,
    {
    }

    /// Builds a percentage; `None` unless `value` lies in `1..=100`.
    pub fn new(value: u8) -> (r: Option<ValidPercentage>)
        ensures
            r is Some <==> 1 <= value <= 100,
            r matches Some(p) ==> p == Self::spec_new(value),
    {
        if 1 <= value && value <= 100 {
            Some(ValidPercentage { value })
        } else {
            None
        }
    }

    /// The percentage held, always in `1..=100`.
    pub fn get(&self) -> (v: u8)
        ensures
            v == self.spec_get(),
            1 <= v <= 100,
    {
        proof {
            use_type_invariant(self);
        }
        self.value
    }
}

/// A size as written on the command line.
#[derive(Clone, Copy, Debug, PartialEq, Eq)]
pub enum SizeUnit {
    Megabytes(u64),
    Gigabytes(u64),
    Terabytes(u64),
    Extents(u64),
    Percentage(ValidPercentage, PercentTarget),
}

pub open spec fn mib() -> nat {
    1048576
}

pub open spec fn gib() -> nat {
    1073741824
}

pub open spec fn tib() -> nat {
    1099511627776
}

/// The message given when a relative size is asked for its byte count.
pub open spec fn relative_size_message() -> Seq<char> {
    "Cannot convert a relative size (extents or percentage) to bytes"@
}

pub fn relative_size_error() -> (s: String)
    ensures
        s@ == relative_size_message(),
{
    String::from_str("Cannot convert a relative size (extents or percentage) to bytes")
}

impl SizeUnit {
    /// The number of bytes of an absolute size (binary units); `None` for
    /// extents and percentages.
    pub open spec fn spec_bytes(self) -> Option<nat> {
        match self {
            SizeUnit::Megabytes(n) => Some((n as nat) * mib()),
            SizeUnit::Gigabytes(n) => Some((n as nat) * gib()),
            SizeUnit::Terabytes(n) => Some((n as nat) * tib()),
            _ => None,
        }
    }

    /// Whether the size is absolute (counted in bytes).
    pub open spec fn is_absolute(self) -> bool {
        self.spec_bytes() is Some
    }

    /// Converts an absolute size to bytes.
    pub fn to_bytes(&self) -> (r: Result<u128, String>)
        ensures
            match self.spec_bytes() {
                Some(b) => r matches Ok(v) && v == b,
                None => r matches Err(e) && e@ == relative_size_message(),
            },
    {
        match self {
            SizeUnit::Megabytes(n) => Ok((*n as u128) * 1048576),
            SizeUnit::Gigabytes(n) => Ok((*n as u128) * 1073741824),
            SizeUnit::Terabytes(n) => Ok((*n as u128) * 1099511627776),
            _ => Err(relative_size_error()),
        }
    }
}

/// A filesystem that a logical volume can be formatted with.
#[derive(Clone, Copy, Debug, PartialEq, Eq, Structural)]
pub enum Filesystem {
    Xfs,
    Ext4,
    Swap,
    Btrfs,
    Vfat,
}

impl Filesystem {
    /// The name used by `mkfs -t` and in `/etc/fstab`.
    pub open spec fn spec_name(self) -> Seq<char> {
        match self {
            Filesystem::Xfs => "xfs"@,
            Filesystem::Ext4 => "ext4"@,
            Filesystem::Swap => "swap"@,
            Filesystem::Btrfs => "btrfs"@,
            Filesystem::Vfat => "vfat"@,
        }
    }

    pub fn name(&self) -> (s: String)
        ensures
            s@ == self.spec_name(),
    {
        match self {
            Filesystem::Xfs => String::from_str("xfs"),
            Filesystem::Ext4 => String::from_str("ext4"),
            Filesystem::Swap => String::from_str("swap"),
            Filesystem::Btrfs => String::from_str("btrfs"),
            Filesystem::Vfat => String::from_str("vfat"),
        }
    }
}

/// A filesystem to create on a logical volume, and where to mount it.
#[derive(Clone, Debug, PartialEq, Eq)]
pub struct FsMount {
    pub fs: Filesystem,
    pub mount_path: Option<String>,
}

pub struct FsMountView {
    pub fs: Filesystem,
    pub mount_path: Option<Seq<char>>,
}

impl View for FsMount {
    type V = FsMountView;

    open spec fn view(&self) -> FsMountView {
        FsMountView {
            fs: self.fs,
            mount_path: match self.mount_path {
                Some(p) => Some(p@),
                None => None,
            },
        }
    }
}

/// One requested logical volume.
#[derive(Clone, Debug, PartialEq, Eq)]
pub struct LvRequest {
    pub name: String,
    pub size: SizeUnit,
    pub fs: Option<FsMount>,
}

pub struct LvRequestView {
    pub name: Seq<char>,
    pub size: SizeUnit,
    pub fs: Option<FsMountView>,
}

impl View for LvRequest {
    type V = LvRequestView;

    open spec fn view(&self) -> LvRequestView {
        LvRequestView {
            name: self.name@,
            size: self.size,
            fs: match self.fs {
                Some(m) => Some(m@),
                None => None,
            },
        }
    }
}

pub open spec fn lv_views(lvs: Seq<LvRequest>) -> Seq<LvRequestView> {
    lvs.map_values(|l: LvRequest| l@)
}

/// A parsed user command.
#[derive(Clone, Debug, PartialEq, Eq)]
pub enum Command {
    Provision { pvs: Vec<String>, vg_name: String, pe_size: SizeUnit, lvs: Vec<LvRequest> },
}

pub enum CommandView {
    Provision {
        pvs: Seq<Seq<char>>,
        vg_name: Seq<char>,
        pe_size: SizeUnit,
        lvs: Seq<LvRequestView>,
    },
}

impl View for Command {
    type V = CommandView;

    open spec fn view(&self) -> CommandView {
        match self {
            Command::Provision { pvs, vg_name, pe_size, lvs } => CommandView::Provision {
                pvs: pvs.deep_view(),
                vg_name: vg_name@,
                pe_size: *pe_size,
                lvs: lv_views(lvs@),
            },
        }
    }
}

/// A command together with the global confirmation toggle.
#[derive(Clone, Debug, PartialEq, Eq)]
pub struct Action {
    pub auto_confirm: bool,
    pub command: Command,
}

pub struct ActionView {
    pub auto_confirm: bool,
    pub command: CommandView,
}

impl View for Action {
    type V = ActionView;

    open spec fn view(&self) -> ActionView {
        ActionView { auto_confirm: self.auto_confirm, command: self.command@ }
    }
}

/// One planned system change.
#[derive(Clone, Debug, PartialEq, Eq)]
pub enum Call {
    PvCreate(String),
    VgCreate { name: String, pvs: Vec<String>, pe_size: SizeUnit },
    LvCreate { vg: String, name: String, size: SizeUnit },
    Mkfs { device: String, fs: Filesystem },
    Mkdir(String),
    Mount { device: String, path: String },
    Fstab { device: String, path: String, fs: Filesystem },
    MkSwap(String),
}

pub enum CallView {
    PvCreate(Seq<char>),
    VgCreate { name: Seq<char>, pvs: Seq<Seq<char>>, pe_size: SizeUnit },
    LvCreate { vg: Seq<char>, name: Seq<char>, size: SizeUnit },
    Mkfs { device: Seq<char>, fs: Filesystem },
    Mkdir(Seq<char>),
    Mount { device: Seq<char>, path: Seq<char> },
    Fstab { device: Seq<char>, path: Seq<char>, fs: Filesystem },
    MkSwap(Seq<char>),
}

impl View for Call {
    type V = CallView;

    open spec fn view(&self) -> CallView {
        match self {
            Call::PvCreate(p) => CallView::PvCreate(p@),
            Call::VgCreate { name, pvs, pe_size } => CallView::VgCreate {
                name: name@,
                pvs: pvs.deep_view(),
                pe_size: *pe_size,
            },
            Call::LvCreate { vg, name, size } => CallView::LvCreate {
                vg: vg@,
                name: name@,
                size: *size,
            },
            Call::Mkfs { device, fs } => CallView::Mkfs { device: device@, fs: *fs },
            Call::Mkdir(p) => CallView::Mkdir(p@),
            Call::Mount { device, path } => CallView::Mount { device: device@, path: path@ },
            Call::Fstab { device, path, fs } => CallView::Fstab {
                device: device@,
                path: path@,
                fs: *fs,
            },
            Call::MkSwap(d) => CallView::MkSwap(d@),
        }
    }
}

pub open spec fn call_views(calls: Seq<Call>) -> Seq<CallView> {
    calls.map_values(|c: Call| c@)
}

/// Where a draft stands in the verification passes.
#[derive(Clone, Copy, Debug, PartialEq, Eq, Structural)]
pub enum DraftStatus {
    Pending,
    Done,
    Clean,
    Dirty,
    Ready,
    Invalid,
}

/// A plan of calls with its verification state.
#[derive(Clone, Debug, PartialEq, Eq)]
pub struct Draft {
    pub draft_type: String,
    pub draft: Vec<Call>,
    pub status: DraftStatus,
    pub auto_confirm: bool,
    pub warnings: Vec<String>,
}

pub struct DraftView {
    pub draft_type: Seq<char>,
    pub draft: Seq<CallView>,
    pub status: DraftStatus,
    pub auto_confirm: bool,
    pub warnings: Seq<Seq<char>>,
}

impl View for Draft {
    type V = DraftView;

    open spec fn view(&self) -> DraftView {
        DraftView {
            draft_type: self.draft_type@,
            draft: call_views(self.draft@),
            status: self.status,
            auto_confirm: self.auto_confirm,
            warnings: self.warnings.deep_view(),
        }
    }
}

/// One system command: the text shown to the user and logged, and the
/// program with its arguments that is actually run.
#[derive(Clone, Debug, PartialEq, Eq)]
pub struct Instruction {
    pub shell_string: String,
    pub program: String,
    pub args: Vec<String>,
}

pub struct InstructionView {
    pub shell_string: Seq<char>,
    pub program: Seq<char>,
    pub args: Seq<Seq<char>>,
}

impl View for Instruction {
    type V = InstructionView;

    open spec fn view(&self) -> InstructionView {
        InstructionView {
            shell_string: self.shell_string@,
            program: self.program@,
            args: self.args.deep_view(),
        }
    }
}

pub open spec fn instruction_views(list: Seq<Instruction>) -> Seq<InstructionView> {
    list.map_values(|i: Instruction| i@)
}

/// An execution list awaiting confirmation.
#[derive(Clone, Debug, PartialEq, Eq)]
pub struct Exec {
    pub list: Vec<Instruction>,
    pub auto_confirm: bool,
    pub is_allowed: bool,
    pub warnings: Vec<String>,
}

pub struct ExecView {
    pub list: Seq<InstructionView>,
    pub auto_confirm: bool,
    pub is_allowed: bool,
    pub warnings: Seq<Seq<char>>,
}

impl View for Exec {
    type V = ExecView;

    open spec fn view(&self) -> ExecView {
        ExecView {
            list: instruction_views(self.list@),
            auto_confirm: self.auto_confirm,
            is_allowed: self.is_allowed,
            warnings: self.warnings.deep_view(),
        }
    }
}

/// Sizes are binary: a mebibyte is 1048576 bytes, a gibibyte 1024
/// mebibytes and a tebibyte 1024 gibibytes; extent counts and
/// percentages have no byte count.
pub proof fn law_binary_units(n: u64, p: ValidPercentage, t: PercentTarget)
    ensures
        SizeUnit::Megabytes(n).spec_bytes() == Some((n as nat) * 1048576),
        SizeUnit::Gigabytes(n).spec_bytes() == Some(1024 * ((n as nat) * 1048576)),
        SizeUnit::Terabytes(n).spec_bytes() == Some(1024 * (1024 * ((n as nat) * 1048576))),
        SizeUnit::Extents(n).spec_bytes() is None,
        SizeUnit::Percentage(p, t).spec_bytes() is None,
{
    assert((n as nat) * 1073741824 == 1024 * ((n as nat) * 1048576)) by (nonlinear_arith);
    assert((n as nat) * 1099511627776 == 1024 * (1024 * ((n as nat) * 1048576))) by (nonlinear_arith);
}

} // verus!
