//! The container manifest: the authoritative per-container declaration,
//! with every validation rule checked exactly.

use vstd::prelude::*;
use crate::container::Container;
use crate::mount::Mount;
use crate::name::Name;
use crate::seccomp::{valid_seccomp, Seccomp};
use crate::text::{is_absolute, no_nul, str_eq};
use crate::version::Version;

verus! {

/// Autostart policy of a container.
#[derive(Debug, Clone, Copy, PartialEq, Eq, Structural)]
pub enum Autostart {
    /// Start at runtime startup; failures are tolerated.
    Relaxed,
    /// Start at runtime startup; an abnormal exit shuts the runtime down.
    Critical,
}

/// Where one standard stream of the container goes.
#[derive(Debug, Clone, Copy, PartialEq, Eq, Structural)]
pub enum Output {
    /// Forward to the runtime's log.
    Pipe,
    /// Discard.
    Discard,
}

/// Stdio routing of a container.
#[derive(Debug, Clone, Copy, PartialEq, Eq, Structural, Default)]
pub struct Io {
    /// Where stdout goes; inherited when absent.
    pub stdout: Option<Output>,
    /// Where stderr goes; inherited when absent.
    pub stderr: Option<Output>,
}

/// Network configuration; when absent a fresh network namespace is
/// unshared.
#[derive(Debug, Clone, PartialEq, Eq)]
pub enum Network {
    /// Share the host network namespace.
    Host,
    /// Join the named network namespace.
    Namespace(String),
}

/// Console access of a container.
#[derive(Debug, Clone, Copy, PartialEq, Eq, Structural)]
pub struct Console {
    /// Granted permissions.
    pub permissions: Permissions,
}

/// Console permissions.
#[derive(Debug, Clone, Copy, PartialEq, Eq, Structural)]
pub enum Permissions {
    /// Every request is allowed.
    Full,
}

/// SELinux settings of a container.
#[derive(Debug, Clone, PartialEq, Eq)]
pub struct Selinux {
    /// The process domain label to execute under.
    pub context: String,
}

/// CPU controller settings.
#[derive(Debug, Clone, PartialEq, Eq)]
pub struct CpuResources {
    /// CPUs the container may run on, in the kernel's list syntax.
    pub cpus: Option<String>,
    /// Relative share of CPU time.
    pub shares: Option<u64>,
    /// Further raw controller attributes.
    pub attrs: Vec<(String, String)>,
}

/// Memory controller settings.
#[derive(Debug, Clone, PartialEq, Eq)]
pub struct MemoryResources {
    /// Hard limit in bytes.
    pub memory_hard_limit: Option<u64>,
    /// Soft limit in bytes.
    pub memory_soft_limit: Option<u64>,
    /// Swappiness.
    pub swappiness: Option<u32>,
    /// Further raw controller attributes.
    pub attrs: Vec<(String, String)>,
}

/// Control group settings of a container.
#[derive(Debug, Clone, PartialEq, Eq)]
pub struct CGroups {
    /// CPU controller.
    pub cpu: Option<CpuResources>,
    /// Memory controller.
    pub memory: Option<MemoryResources>,
}

/// A resource limit: soft and hard value.
#[derive(Debug, Clone, Copy, PartialEq, Eq, Structural)]
pub struct RLimitValue {
    /// Soft limit; unlimited when absent.
    pub soft: Option<u64>,
    /// Hard limit; unlimited when absent.
    pub hard: Option<u64>,
}

/// The resource a limit applies to.
#[derive(Debug, Clone, Copy, PartialEq, Eq, Structural)]
pub enum RLimitResource {
    /// Address space size.
    AddressSpace,
    /// Core file size.
    Core,
    /// CPU time.
    Cpu,
    /// Data segment size.
    Data,
    /// File size.
    Fsize,
    /// File locks.
    Locks,
    /// Locked memory.
    MemLock,
    /// Message queue size.
    MsgQueue,
    /// Nice ceiling.
    Nice,
    /// Open files.
    NoFile,
    /// Processes.
    NProc,
    /// Resident set size.
    Rss,
    /// Real-time priority ceiling.
    RtPrio,
    /// Real-time CPU budget.
    RtTime,
    /// Pending signals.
    SigPending,
    /// Stack size.
    Stack,
}

/// A Linux capability a container may keep; everything not listed is
/// dropped.
#[allow(non_camel_case_types)]
#[derive(Debug, Clone, Copy, PartialEq, Eq, Structural)]
pub enum Capability {
    /// CAP_AUDIT_CONTROL.
    CAP_AUDIT_CONTROL,
    /// CAP_AUDIT_READ.
    CAP_AUDIT_READ,
    /// CAP_AUDIT_WRITE.
    CAP_AUDIT_WRITE,
    /// CAP_BLOCK_SUSPEND.
    CAP_BLOCK_SUSPEND,
    /// CAP_BPF.
    CAP_BPF,
    /// CAP_CHECKPOINT_RESTORE.
    CAP_CHECKPOINT_RESTORE,
    /// CAP_CHOWN.
    CAP_CHOWN,
    /// CAP_DAC_OVERRIDE.
    CAP_DAC_OVERRIDE,
    /// CAP_DAC_READ_SEARCH.
    CAP_DAC_READ_SEARCH,
    /// CAP_FOWNER.
    CAP_FOWNER,
    /// CAP_FSETID.
    CAP_FSETID,
    /// CAP_IPC_LOCK.
    CAP_IPC_LOCK,
    /// CAP_IPC_OWNER.
    CAP_IPC_OWNER,
    /// CAP_KILL.
    CAP_KILL,
    /// CAP_LEASE.
    CAP_LEASE,
    /// CAP_LINUX_IMMUTABLE.
    CAP_LINUX_IMMUTABLE,
    /// CAP_MAC_ADMIN.
    CAP_MAC_ADMIN,
    /// CAP_MAC_OVERRIDE.
    CAP_MAC_OVERRIDE,
    /// CAP_MKNOD.
    CAP_MKNOD,
    /// CAP_NET_ADMIN.
    CAP_NET_ADMIN,
    /// CAP_NET_BIND_SERVICE.
    CAP_NET_BIND_SERVICE,
    /// CAP_NET_BROADCAST.
    CAP_NET_BROADCAST,
    /// CAP_NET_RAW.
    CAP_NET_RAW,
    /// CAP_PERFMON.
    CAP_PERFMON,
    /// CAP_SETFCAP.
    CAP_SETFCAP,
    /// CAP_SETGID.
    CAP_SETGID,
    /// CAP_SETPCAP.
    CAP_SETPCAP,
    /// CAP_SETUID.
    CAP_SETUID,
    /// CAP_SYS_ADMIN.
    CAP_SYS_ADMIN,
    /// CAP_SYS_BOOT.
    CAP_SYS_BOOT,
    /// CAP_SYS_CHROOT.
    CAP_SYS_CHROOT,
    /// CAP_SYS_MODULE.
    CAP_SYS_MODULE,
    /// CAP_SYS_NICE.
    CAP_SYS_NICE,
    /// CAP_SYS_PACCT.
    CAP_SYS_PACCT,
    /// CAP_SYS_PTRACE.
    CAP_SYS_PTRACE,
    /// CAP_SYS_RAWIO.
    CAP_SYS_RAWIO,
    /// CAP_SYS_RESOURCE.
    CAP_SYS_RESOURCE,
    /// CAP_SYS_TIME.
    CAP_SYS_TIME,
    /// CAP_SYS_TTY_CONFIG.
    CAP_SYS_TTY_CONFIG,
    /// CAP_SYSLOG.
    CAP_SYSLOG,
    /// CAP_WAKE_ALARM.
    CAP_WAKE_ALARM,
}

/// Why a manifest was rejected.
#[derive(Debug, Clone, Copy, PartialEq, Eq, Structural)]
pub enum Error {
    /// The name is empty, too long, or holds a character outside its
    /// safe set.
    InvalidName,
    /// The version's pre-release tag or build metadata is malformed.
    InvalidVersion,
    /// The init path is not an absolute NUL-free path.
    InvalidInit,
    /// An argument holds a NUL.
    InvalidArgs,
    /// The environment holds a NUL, a duplicate key, or a reserved key.
    InvalidEnvironment,
    /// The uid is zero.
    InvalidUid,
    /// The gid is zero.
    InvalidGid,
    /// A mount target is not absolute, two targets overlap, or a mount
    /// declaration is malformed.
    InvalidMounts,
    /// The SELinux context holds a character outside its safe set.
    InvalidSelinux,
    /// A supplementary group is empty, too long, duplicated, or holds a
    /// NUL.
    InvalidSupplGroups,
    /// A capability is listed twice.
    InvalidCapabilities,
    /// A resource limit is listed twice.
    InvalidRLimits,
    /// The seccomp declaration is malformed.
    InvalidSeccomp,
    /// The network declaration is malformed.
    InvalidNetwork,
    /// A control group string holds a NUL.
    InvalidCGroups,
}

/// The longest group name the OS accepts.
pub const MAX_GROUP_NAME_LEN: usize = 32;

/// Environment keys the runtime reserves for itself.
pub open spec fn reserved_env_key(k: Seq<char>) -> bool {
    ||| k == "NORTHSTAR_CONSOLE"@
    ||| k == "NORTHSTAR_NAME"@
    ||| k == "NORTHSTAR_CONTAINER"@
    ||| k == "NORTHSTAR_VERSION"@
}

/// A valid init declaration: an absolute NUL-free path.
pub open spec fn init_ok(init: Option<String>) -> bool {
    init matches Some(p) ==> is_absolute(p@) && no_nul(p@)
}

/// Valid arguments: NUL-free.
pub open spec fn args_ok(args: Seq<String>) -> bool {
    forall|i: int| 0 <= i < args.len() ==> no_nul(#[trigger] args[i]@)
}

/// A valid environment: NUL-free keys and values, no reserved key, no
/// duplicate key.
pub open spec fn env_ok(env: Seq<(String, String)>) -> bool {
    &&& forall|i: int| 0 <= i < env.len() ==> no_nul(#[trigger] env[i].0@) && no_nul(env[i].1@)
        && !reserved_env_key(env[i].0@)
    &&& forall|i: int, j: int| 0 <= i < j < env.len() ==> env[i].0@ != env[j].0@
}

/// One valid mount declaration, target aside.
pub open spec fn mount_ok(m: Mount) -> bool {
    match m {
        Mount::Dev => true,
        Mount::Persist => true,
        Mount::Tmpfs(_) => true,
        Mount::Bind(b) => no_nul(b.host@) && is_absolute(b.host@),
        Mount::Resource(r) => r.name.wf() && no_nul(r.dir@) && is_absolute(r.dir@),
    }
}

/// Valid mounts: every target an absolute NUL-free path, no target
/// covering another (which also rules duplicates out), every declaration
/// well formed.
pub open spec fn mounts_ok(mounts: Seq<(String, Mount)>) -> bool {
    &&& forall|i: int| 0 <= i < mounts.len() ==> is_absolute(#[trigger] mounts[i].0@) && no_nul(
        mounts[i].0@,
    ) && mount_ok(mounts[i].1)
    &&& forall|i: int, j: int| 0 <= i < mounts.len() && 0 <= j < mounts.len() && i != j
        ==> !crate::mount::path_covers(#[trigger] mounts[i].0@, #[trigger] mounts[j].0@)
}

/// A character allowed in an SELinux label.
pub open spec fn is_selinux_char(c: char) -> bool {
    ||| 'a' <= c && c <= 'z'
    ||| 'A' <= c && c <= 'Z'
    ||| '0' <= c && c <= '9'
    ||| c == '_'
}

/// A valid SELinux declaration: a non-empty label over its safe set.
pub open spec fn selinux_ok(s: Selinux) -> bool {
    s.context@.len() > 0 && forall|i: int| 0 <= i < s.context@.len() ==> is_selinux_char(
        #[trigger] s.context@[i],
    )
}

/// Valid supplementary groups: each non-empty, NUL-free, at most
/// `MAX_GROUP_NAME_LEN` characters, and no duplicates.
pub open spec fn suppl_groups_ok(groups: Seq<String>) -> bool {
    &&& forall|i: int| 0 <= i < groups.len() ==> no_nul(#[trigger] groups[i]@) && 1 <= groups[i]@.len()
        <= MAX_GROUP_NAME_LEN
    &&& forall|i: int, j: int| 0 <= i < j < groups.len() ==> groups[i]@ != groups[j]@
}

/// Valid capabilities: no duplicates.
pub open spec fn capabilities_ok(caps: Seq<Capability>) -> bool {
    forall|i: int, j: int| 0 <= i < j < caps.len() ==> caps[i] != caps[j]
}

/// Valid resource limits: no resource listed twice.
pub open spec fn rlimits_ok(rlimits: Seq<(RLimitResource, RLimitValue)>) -> bool {
    forall|i: int, j: int| 0 <= i < j < rlimits.len() ==> rlimits[i].0 != rlimits[j].0
}

/// A valid network declaration: a named namespace is non-empty and
/// NUL-free.
pub open spec fn network_ok(n: Network) -> bool {
    match n {
        Network::Host => true,
        Network::Namespace(name) => name@.len() > 0 && no_nul(name@),
    }
}

/// Valid raw controller attributes: NUL-free keys and values.
pub open spec fn attrs_ok(attrs: Seq<(String, String)>) -> bool {
    forall|i: int| 0 <= i < attrs.len() ==> no_nul(#[trigger] attrs[i].0@) && no_nul(attrs[i].1@)
}

/// Valid control group settings: every string NUL-free.
pub open spec fn cgroups_ok(c: CGroups) -> bool {
    &&& (c.cpu matches Some(cpu) ==> (cpu.cpus matches Some(s) ==> no_nul(s@)) && attrs_ok(
        cpu.attrs@,
    ))
    &&& (c.memory matches Some(m) ==> attrs_ok(m.attrs@))
}

/// The control group rule lifted to an optional declaration.
pub open spec fn cgroups_opt_ok(c: Option<CGroups>) -> bool {
    match c {
        Some(x) => cgroups_ok(x),
        None => true,
    }
}

/// The SELinux rule lifted to an optional declaration.
pub open spec fn selinux_opt_ok(s: Option<Selinux>) -> bool {
    match s {
        Some(x) => selinux_ok(x),
        None => true,
    }
}

/// The seccomp rule lifted to an optional declaration.
pub open spec fn seccomp_opt_ok(s: Option<Seccomp>) -> bool {
    match s {
        Some(x) => valid_seccomp(x),
        None => true,
    }
}

/// The network rule lifted to an optional declaration.
pub open spec fn network_opt_ok(n: Option<Network>) -> bool {
    match n {
        Some(x) => network_ok(x),
        None => true,
    }
}

/// The container manifest.
#[derive(Debug, Clone, PartialEq, Eq)]
pub struct Manifest {
    /// Name of the container.
    pub name: Name,
    /// Version of the container.
    pub version: Version,
    /// Console access; none when absent.
    pub console: Option<Console>,
    /// Path to init; a container without init is a resource.
    pub init: Option<String>,
    /// Additional arguments for the invocation of init.
    pub args: Vec<String>,
    /// Environment passed to the container.
    pub env: Vec<(String, String)>,
    /// UID to run as; never zero.
    pub uid: u16,
    /// GID to run as; never zero.
    pub gid: u16,
    /// Mounts by target path.
    pub mounts: Vec<(String, Mount)>,
    /// Autostart policy.
    pub autostart: Option<Autostart>,
    /// Control group settings.
    pub cgroups: Option<CGroups>,
    /// Network configuration; a fresh namespace is unshared when absent.
    pub network: Option<Network>,
    /// Seccomp configuration.
    pub seccomp: Option<Seccomp>,
    /// SELinux configuration.
    pub selinux: Option<Selinux>,
    /// Capabilities kept for the container.
    pub capabilities: Vec<Capability>,
    /// Supplementary groups.
    pub suppl_groups: Vec<String>,
    /// Resource limits.
    pub rlimits: Vec<(RLimitResource, RLimitValue)>,
    /// Stdio routing.
    pub io: Option<Io>,
    /// Opaque data carried for the container; the runtime ignores it.
    pub custom: Option<String>,
}

/// A valid manifest: every field obeys its rule.
pub open spec fn manifest_valid(m: Manifest) -> bool {
    &&& m.name.wf()
    &&& m.version.wf()
    &&& init_ok(m.init)
    &&& args_ok(m.args@)
    &&& env_ok(m.env@)
    &&& m.uid >= 1
    &&& m.gid >= 1
    &&& mounts_ok(m.mounts@)
    &&& selinux_opt_ok(m.selinux)
    &&& suppl_groups_ok(m.suppl_groups@)
    &&& capabilities_ok(m.capabilities@)
    &&& rlimits_ok(m.rlimits@)
    &&& seccomp_opt_ok(m.seccomp)
    &&& network_opt_ok(m.network)
    &&& cgroups_opt_ok(m.cgroups)
}

impl Manifest {
    /// The identity this manifest declares.
    pub fn container(&self) -> (r: Container)
        ensures
            r.spec_name() == self.name@,
            crate::version::version_eq(r.spec_version(), self.version),
            self.name.wf() && self.version.wf() ==> r.wf(),
    {
        Container::new(self.name.duplicate(), self.version.duplicate())
    }

    /// Validate the manifest: accept exactly the valid ones, and name a
    /// rule the manifest breaks otherwise.
    pub fn validate(&self) -> (r: Result<(), Error>)
        ensures
            r is Ok <==> manifest_valid(*self),
            r == Err::<(), Error>(Error::InvalidName) ==> !self.name.wf(),
            r == Err::<(), Error>(Error::InvalidVersion) ==> !self.version.wf(),
            r == Err::<(), Error>(Error::InvalidUid) ==> self.uid == 0,
            r == Err::<(), Error>(Error::InvalidGid) ==> self.gid == 0,
            r == Err::<(), Error>(Error::InvalidInit) ==> !init_ok(self.init),
            r == Err::<(), Error>(Error::InvalidArgs) ==> !args_ok(self.args@),
            r == Err::<(), Error>(Error::InvalidEnvironment) ==> !env_ok(self.env@),
            r == Err::<(), Error>(Error::InvalidMounts) ==> !mounts_ok(self.mounts@),
            r == Err::<(), Error>(Error::InvalidSelinux) ==> !selinux_opt_ok(self.selinux),
            r == Err::<(), Error>(Error::InvalidSupplGroups) ==> !suppl_groups_ok(
                self.suppl_groups@,
            ),
            r == Err::<(), Error>(Error::InvalidCapabilities) ==> !capabilities_ok(
                self.capabilities@,
            ),
            r == Err::<(), Error>(Error::InvalidRLimits) ==> !rlimits_ok(self.rlimits@),
            r == Err::<(), Error>(Error::InvalidSeccomp) ==> !seccomp_opt_ok(self.seccomp),
            r == Err::<(), Error>(Error::InvalidNetwork) ==> !network_opt_ok(self.network),
            r == Err::<(), Error>(Error::InvalidCGroups) ==> !cgroups_opt_ok(self.cgroups),
    {
        if !self.name.check_wf() {
            return Err(Error::InvalidName);
        }
        if !self.version.check_wf() {
            return Err(Error::InvalidVersion);
        }
        if self.uid == 0 {
            return Err(Error::InvalidUid);
        }
        if self.gid == 0 {
            return Err(Error::InvalidGid);
        }
        if !check_init(&self.init) {
            return Err(Error::InvalidInit);
        }
        if !check_args(&self.args) {
            return Err(Error::InvalidArgs);
        }
        if !check_env(&self.env) {
            return Err(Error::InvalidEnvironment);
        }
        if !check_mounts(&self.mounts) {
            return Err(Error::InvalidMounts);
        }
        if !check_selinux(&self.selinux) {
            return Err(Error::InvalidSelinux);
        }
        if !check_suppl_groups(&self.suppl_groups) {
            return Err(Error::InvalidSupplGroups);
        }
        if !check_capabilities(&self.capabilities) {
            return Err(Error::InvalidCapabilities);
        }
        if !check_rlimits(&self.rlimits) {
            return Err(Error::InvalidRLimits);
        }
        if !check_seccomp(&self.seccomp) {
            return Err(Error::InvalidSeccomp);
        }
        if !check_network(&self.network) {
            return Err(Error::InvalidNetwork);
        }
        if !check_cgroups(&self.cgroups) {
            return Err(Error::InvalidCGroups);
        }
        Ok(())
    }
}

/// Law: a manifest whose mounts hold two targets where one covers the
/// other is invalid, so by the contract of `validate` it is refused.
pub proof fn lemma_overlapping_mounts_invalid(m: Manifest, i: int, j: int)
    requires
        0 <= i < m.mounts@.len(),
        0 <= j < m.mounts@.len(),
        i != j,
        crate::mount::path_covers(m.mounts@[i].0@, m.mounts@[j].0@),
    ensures
        !manifest_valid(m),
{
}

/// Law: a manifest whose environment holds a reserved key is invalid, so
/// by the contract of `validate` it is refused.
pub proof fn lemma_reserved_env_invalid(m: Manifest, i: int)
    requires
        0 <= i < m.env@.len(),
        reserved_env_key(m.env@[i].0@),
    ensures
        !manifest_valid(m),
{
}

/// Decide `init_ok` exactly.
fn check_init(init: &Option<String>) -> (r: bool)
    ensures
        r == init_ok(*init),
{
    match init {
        Some(p) => crate::text::check_absolute(p.as_str()) && crate::text::check_no_nul(
            p.as_str(),
        ),
        None => true,
    }
}

/// Decide `args_ok` exactly.
#[verifier::loop_isolation(false)]
fn check_args(args: &Vec<String>) -> (r: bool)
    ensures
        r == args_ok(args@),
{
    let n = args.len();
    let mut i: usize = 0;
    while i < n
        invariant
            0 <= i <= n == args@.len(),
            forall|k: int| 0 <= k < i ==> no_nul(#[trigger] args@[k]@),
        decreases n - i,
    {
        if !crate::text::check_no_nul(args[i].as_str()) {
            return false;
        }
        i = i + 1;
    }
    true
}

/// Decide whether a key is reserved, exactly.
fn check_reserved_env_key(k: &str) -> (r: bool)
    ensures
        r == reserved_env_key(k@),
{
    str_eq(k, "NORTHSTAR_CONSOLE") || str_eq(k, "NORTHSTAR_NAME") || str_eq(
        k,
        "NORTHSTAR_CONTAINER",
    ) || str_eq(k, "NORTHSTAR_VERSION")
}

/// Decide `env_ok` exactly.
#[verifier::loop_isolation(false)]
fn check_env(env: &Vec<(String, String)>) -> (r: bool)
    ensures
        r == env_ok(env@),
{
    let n = env.len();
    let mut i: usize = 0;
    while i < n
        invariant
            0 <= i <= n == env@.len(),
            forall|k: int| 0 <= k < i ==> no_nul(#[trigger] env@[k].0@),
            forall|k: int| 0 <= k < i ==> no_nul(#[trigger] env@[k].1@),
            forall|k: int| 0 <= k < i ==> !reserved_env_key(#[trigger] env@[k].0@),
            forall|a: int, b: int| 0 <= a < b < i ==> env@[a].0@ != env@[b].0@,
        decreases n - i,
    {
        if !crate::text::check_no_nul(env[i].0.as_str()) {
            return false;
        }
        if !crate::text::check_no_nul(env[i].1.as_str()) {
            return false;
        }
        if check_reserved_env_key(env[i].0.as_str()) {
            return false;
        }
        let mut j: usize = 0;
        while j < i
            invariant
                0 <= j <= i < n == env@.len(),
                forall|b: int| 0 <= b < j ==> env@[b].0@ != env@[i as int].0@,
            decreases i - j,
        {
            if str_eq(env[j].0.as_str(), env[i].0.as_str()) {
                return false;
            }
            j = j + 1;
        }
        i = i + 1;
    }
    true
}

/// Decide `mount_ok` exactly.
fn check_mount(m: &Mount) -> (r: bool)
    ensures
        r == mount_ok(*m),
{
    match m {
        Mount::Dev => true,
        Mount::Persist => true,
        Mount::Tmpfs(_) => true,
        Mount::Bind(b) => crate::text::check_no_nul(b.host.as_str())
            && crate::text::check_absolute(b.host.as_str()),
        Mount::Resource(r) => r.name.check_wf() && crate::text::check_no_nul(r.dir.as_str())
            && crate::text::check_absolute(r.dir.as_str()),
    }
}

/// Decide `mounts_ok` exactly.
#[verifier::loop_isolation(false)]
fn check_mounts(mounts: &Vec<(String, Mount)>) -> (r: bool)
    ensures
        r == mounts_ok(mounts@),
{
    let n = mounts.len();
    let mut i: usize = 0;
    while i < n
        invariant
            0 <= i <= n == mounts@.len(),
            forall|k: int| 0 <= k < i ==> is_absolute(#[trigger] mounts@[k].0@),
            forall|k: int| 0 <= k < i ==> no_nul(#[trigger] mounts@[k].0@),
            forall|k: int| 0 <= k < i ==> mount_ok(#[trigger] mounts@[k].1),
            forall|a: int, b: int| 0 <= a < i && 0 <= b < i && a != b
                ==> !crate::mount::path_covers(#[trigger] mounts@[a].0@, #[trigger] mounts@[b].0@),
        decreases n - i,
    {
        if !crate::text::check_absolute(mounts[i].0.as_str()) {
            return false;
        }
        if !crate::text::check_no_nul(mounts[i].0.as_str()) {
            return false;
        }
        if !check_mount(&mounts[i].1) {
            return false;
        }
        let mut j: usize = 0;
        while j < i
            invariant
                0 <= j <= i < n == mounts@.len(),
                forall|b: int| 0 <= b < j ==> !crate::mount::path_covers(
                    #[trigger] mounts@[b].0@,
                    mounts@[i as int].0@,
                ) && !crate::mount::path_covers(mounts@[i as int].0@, #[trigger] mounts@[b].0@),
            decreases i - j,
        {
            if crate::mount::check_path_covers(mounts[j].0.as_str(), mounts[i].0.as_str()) {
                return false;
            }
            if crate::mount::check_path_covers(mounts[i].0.as_str(), mounts[j].0.as_str()) {
                return false;
            }
            j = j + 1;
        }
        proof {
            assert(is_absolute(mounts@[i as int].0@));
            assert(no_nul(mounts@[i as int].0@));
            assert(mount_ok(mounts@[i as int].1));
        }
        i = i + 1;
    }
    true
}

/// Decide the SELinux rule exactly.
#[verifier::loop_isolation(false)]
fn check_selinux(selinux: &Option<Selinux>) -> (r: bool)
    ensures
        r == selinux_opt_ok(*selinux),
{
    match selinux {
        Some(s) => {
            let text = s.context.as_str();
            let n = text.unicode_len();
            if n == 0 {
                return false;
            }
            let mut i: usize = 0;
            while i < n
                invariant
                    0 <= i <= n == text@.len(),
                    forall|k: int| 0 <= k < i ==> is_selinux_char(#[trigger] text@[k]),
                decreases n - i,
            {
                let c = text.get_char(i);
                if !(('a' <= c && c <= 'z') || ('A' <= c && c <= 'Z') || ('0' <= c && c <= '9')
                    || c == '_') {
                    return false;
                }
                i = i + 1;
            }
            true
        },
        None => true,
    }
}

/// Decide `suppl_groups_ok` exactly.
#[verifier::loop_isolation(false)]
fn check_suppl_groups(groups: &Vec<String>) -> (r: bool)
    ensures
        r == suppl_groups_ok(groups@),
{
    let n = groups.len();
    let mut i: usize = 0;
    while i < n
        invariant
            0 <= i <= n == groups@.len(),
            forall|k: int| 0 <= k < i ==> no_nul(#[trigger] groups@[k]@) && 1 <= groups@[k]@.len()
                <= MAX_GROUP_NAME_LEN,
            forall|a: int, b: int| 0 <= a < b < i ==> groups@[a]@ != groups@[b]@,
        decreases n - i,
    {
        let g = groups[i].as_str();
        let len = g.unicode_len();
        if len == 0 || len > MAX_GROUP_NAME_LEN {
            return false;
        }
        if !crate::text::check_no_nul(g) {
            return false;
        }
        let mut j: usize = 0;
        while j < i
            invariant
                0 <= j <= i < n == groups@.len(),
                forall|b: int| 0 <= b < j ==> groups@[b]@ != groups@[i as int]@,
            decreases i - j,
        {
            if str_eq(groups[j].as_str(), groups[i].as_str()) {
                return false;
            }
            j = j + 1;
        }
        i = i + 1;
    }
    true
}

/// Decide `capabilities_ok` exactly.
#[verifier::loop_isolation(false)]
fn check_capabilities(caps: &Vec<Capability>) -> (r: bool)
    ensures
        r == capabilities_ok(caps@),
{
    let n = caps.len();
    let mut i: usize = 0;
    while i < n
        invariant
            0 <= i <= n == caps@.len(),
            forall|a: int, b: int| 0 <= a < b < i ==> caps@[a] != caps@[b],
        decreases n - i,
    {
        let mut j: usize = 0;
        while j < i
            invariant
                0 <= j <= i < n == caps@.len(),
                forall|b: int| 0 <= b < j ==> caps@[b] != caps@[i as int],
            decreases i - j,
        {
            if caps[j] == caps[i] {
                return false;
            }
            j = j + 1;
        }
        i = i + 1;
    }
    true
}

/// Decide `rlimits_ok` exactly.
#[verifier::loop_isolation(false)]
fn check_rlimits(rlimits: &Vec<(RLimitResource, RLimitValue)>) -> (r: bool)
    ensures
        r == rlimits_ok(rlimits@),
{
    let n = rlimits.len();
    let mut i: usize = 0;
    while i < n
        invariant
            0 <= i <= n == rlimits@.len(),
            forall|a: int, b: int| 0 <= a < b < i ==> rlimits@[a].0 != rlimits@[b].0,
        decreases n - i,
    {
        let mut j: usize = 0;
        while j < i
            invariant
                0 <= j <= i < n == rlimits@.len(),
                forall|b: int| 0 <= b < j ==> rlimits@[b].0 != rlimits@[i as int].0,
            decreases i - j,
        {
            if rlimits[j].0 == rlimits[i].0 {
                return false;
            }
            j = j + 1;
        }
        i = i + 1;
    }
    true
}

/// Decide the seccomp rule exactly.
#[verifier::loop_isolation(false)]
fn check_seccomp(seccomp: &Option<Seccomp>) -> (r: bool)
    ensures
        r == seccomp_opt_ok(*seccomp),
{
    let s = match seccomp {
        Some(s) => s,
        None => {
            return true;
        },
    };
    if s.profile.is_none() && s.allow.is_none() {
        return false;
    }
    let allow = match &s.allow {
        Some(a) => a,
        None => {
            return true;
        },
    };
    let n = allow.len();
    let mut i: usize = 0;
    while i < n
        invariant
            0 <= i <= n == allow@.len(),
            seccomp matches Some(sc) && sc.allow matches Some(al) && al@ == allow@,
            s.profile is Some || s.allow is Some,
            forall|k: int| 0 <= k < i ==> no_nul(#[trigger] allow@[k].0@) && allow@[k].0@.len() > 0
                && crate::seccomp::valid_rule(allow@[k].1),
            forall|a: int, b: int| 0 <= a < b < i ==> allow@[a].0@ != allow@[b].0@,
        decreases n - i,
    {
        let name = allow[i].0.as_str();
        if name.unicode_len() == 0 {
            proof {
                assert(allow@[i as int].0@.len() == 0);
                assert(!crate::seccomp::valid_allow(allow@));
            }
            return false;
        }
        if !crate::text::check_no_nul(name) {
            proof {
                assert(!no_nul(allow@[i as int].0@));
                assert(!crate::seccomp::valid_allow(allow@));
            }
            return false;
        }
        if !check_rule(&allow[i].1) {
            proof {
                assert(!crate::seccomp::valid_rule(allow@[i as int].1));
                assert(!crate::seccomp::valid_allow(allow@));
            }
            return false;
        }
        let mut j: usize = 0;
        while j < i
            invariant
                0 <= j <= i < n == allow@.len(),
                seccomp matches Some(sc) && sc.allow matches Some(al) && al@ == allow@,
                forall|b: int| 0 <= b < j ==> allow@[b].0@ != allow@[i as int].0@,
            decreases i - j,
        {
            if str_eq(allow[j].0.as_str(), allow[i].0.as_str()) {
                proof {
                    assert(allow@[j as int].0@ == allow@[i as int].0@);
                    assert(!crate::seccomp::valid_allow(allow@));
                }
                return false;
            }
            j = j + 1;
        }
        i = i + 1;
    }
    true
}

/// Decide `valid_rule` exactly.
fn check_rule(rule: &crate::seccomp::SyscallRule) -> (r: bool)
    ensures
        r == crate::seccomp::valid_rule(*rule),
{
    match rule {
        crate::seccomp::SyscallRule::Any => true,
        crate::seccomp::SyscallRule::Args(a) => {
            let values_present = match &a.values {
                Some(vs) => vs.len() > 0,
                None => false,
            };
            let values_wf = match &a.values {
                Some(vs) => vs.len() > 0,
                None => true,
            };
            a.index < crate::seccomp::SECCOMP_ARG_COUNT && (values_present || a.mask.is_some())
                && values_wf
        },
    }
}

/// Decide `attrs_ok` exactly.
#[verifier::loop_isolation(false)]
fn check_attrs(attrs: &Vec<(String, String)>) -> (r: bool)
    ensures
        r == attrs_ok(attrs@),
{
    let n = attrs.len();
    let mut i: usize = 0;
    while i < n
        invariant
            0 <= i <= n == attrs@.len(),
            forall|k: int| 0 <= k < i ==> no_nul(#[trigger] attrs@[k].0@),
            forall|k: int| 0 <= k < i ==> no_nul(#[trigger] attrs@[k].1@),
        decreases n - i,
    {
        if !crate::text::check_no_nul(attrs[i].0.as_str()) {
            return false;
        }
        if !crate::text::check_no_nul(attrs[i].1.as_str()) {
            return false;
        }
        i = i + 1;
    }
    true
}

/// Decide the control group rule exactly.
fn check_cgroups(cgroups: &Option<CGroups>) -> (r: bool)
    ensures
        r == cgroups_opt_ok(*cgroups),
{
    let c = match cgroups {
        Some(c) => c,
        None => {
            return true;
        },
    };
    let cpu_ok = match &c.cpu {
        Some(cpu) => {
            let cpus_ok = match &cpu.cpus {
                Some(s) => crate::text::check_no_nul(s.as_str()),
                None => true,
            };
            cpus_ok && check_attrs(&cpu.attrs)
        },
        None => true,
    };
    let memory_ok = match &c.memory {
        Some(m) => check_attrs(&m.attrs),
        None => true,
    };
    cpu_ok && memory_ok
}

/// Decide the network rule exactly.
#[verifier::loop_isolation(false)]
fn check_network(network: &Option<Network>) -> (r: bool)
    ensures
        r == network_opt_ok(*network),
{
    match network {
        Some(Network::Host) => true,
        Some(Network::Namespace(name)) => name.as_str().unicode_len() > 0
            && crate::text::check_no_nul(name.as_str()),
        None => true,
    }
}

} // verus!
