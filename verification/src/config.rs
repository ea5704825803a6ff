//! The runtime configuration: directories, buffer sizes, timeouts,
//! repository declarations and debug settings, with their validation
//! rules and defaults.

use vstd::prelude::*;
use crate::text::{no_nul, str_eq};

verus! {

/// Repository type.
#[derive(Debug, Clone, PartialEq, Eq)]
pub enum RepositoryType {
    /// Directory based.
    Fs {
        /// Path to the repository.
        dir: String,
    },
    /// Memory based.
    Memory,
}

/// Repository configuration.
#[derive(Debug, Clone, PartialEq, Eq)]
pub struct Repository {
    /// Mount the containers from this repository on runtime start.
    pub mount_on_start: bool,
    /// Optional path to the trusted public key of this repository.
    pub key: Option<String>,
    /// Repository type: directory based or memory based.
    pub repository_type: RepositoryType,
}

/// Where strace output goes.
#[derive(Debug, Clone, Copy, PartialEq, Eq, Structural)]
pub enum StraceOutput {
    /// To a file in the log directory.
    File,
    /// To the runtime's log.
    Log,
}

/// Strace debug options.
#[derive(Debug, Clone, PartialEq, Eq)]
pub struct Strace {
    /// Where the output goes.
    pub output: StraceOutput,
    /// Path to the strace binary.
    pub path: Option<String>,
    /// Additional strace command line flags.
    pub flags: Option<String>,
    /// Include output from before the final execve.
    pub include_runtime: Option<bool>,
}

/// Perf profiling options.
#[derive(Debug, Clone, PartialEq, Eq)]
pub struct Perf {
    /// Path to the perf binary.
    pub path: Option<String>,
    /// Additional perf command line flags.
    pub flags: Option<String>,
}

/// Container debug settings.
#[derive(Debug, Clone, PartialEq, Eq)]
pub struct Debug {
    /// The console URL; its scheme must be `tcp` or `unix`.
    pub console: String,
    /// Strace options.
    pub strace: Option<Strace>,
    /// Perf options.
    pub perf: Option<Perf>,
}

/// Runtime configuration.
#[derive(Debug, Clone, PartialEq, Eq)]
pub struct Config {
    /// Directory with unpacked containers.
    pub run_dir: String,
    /// Directory where read-write data of containers is stored.
    pub data_dir: String,
    /// Directory for log files.
    pub log_dir: String,
    /// Top-level cgroup name.
    pub cgroup: String,
    /// Event loop buffer size.
    pub event_buffer_size: usize,
    /// Notification buffer size.
    pub notification_buffer_size: usize,
    /// Seconds to wait for a device mapper device.
    pub device_mapper_device_timeout: u64,
    /// Seconds to wait for a loop device.
    pub loop_device_timeout: u64,
    /// Seconds a console token stays valid.
    pub token_validity: u64,
    /// Repositories by identifier.
    pub repositories: Vec<(String, Repository)>,
    /// Debugging options.
    pub debug: Option<Debug>,
}

/// Why a configuration was rejected.
#[derive(Debug, Clone, Copy, PartialEq, Eq, Structural)]
pub enum Error {
    /// The cgroup name is empty or holds a NUL.
    InvalidCgroup,
    /// Two repositories share an identifier.
    DuplicateRepository,
    /// The debug console URL does not parse or has a scheme other than
    /// `tcp` or `unix`.
    InvalidConsole,
}

/// Default seconds to wait for a device mapper device.
pub fn default_device_mapper_timeout() -> (r: u64)
    ensures
        r == 10,
{
    10
}

/// Default seconds to wait for a loop device.
pub fn default_loop_device_timeout() -> (r: u64)
    ensures
        r == 10,
{
    10
}

/// Default event loop buffer size.
pub fn default_event_buffer_size() -> (r: usize)
    ensures
        r == 256,
{
    256
}

/// Default notification buffer size.
pub fn default_notification_buffer_size() -> (r: usize)
    ensures
        r == 128,
{
    128
}

/// Default seconds a console token stays valid.
pub fn default_token_validity() -> (r: u64)
    ensures
        r == 60,
{
    60
}

/// The scheme of the URL `s` names, when `s` parses as an absolute URL.
pub uninterp spec fn url_scheme_of(s: Seq<char>) -> Option<Seq<char>>;

/// Relies on url::Url::parse, which parses an absolute URL from its text
/// alone, and url::Url::scheme, which returns the scheme lower-cased and
/// without the ':' delimiter.
#[verifier::external_body]
fn url_scheme(s: &str) -> (r: Option<String>)
    ensures
        r is Some <==> url_scheme_of(s@) is Some,
        r matches Some(sch) ==> url_scheme_of(s@) matches Some(v) && sch@ == v,
{
    url::Url::parse(s).ok().map(|u| u.scheme().to_string())
}

/// A console URL is acceptable when it parses and its scheme is `tcp` or
/// `unix`.
pub open spec fn console_url_ok(s: Seq<char>) -> bool {
    url_scheme_of(s) matches Some(sch) && (sch == "tcp"@ || sch == "unix"@)
}

/// The schemes the debug console accepts.
pub fn scheme_allowed(scheme: &str) -> (r: bool)
    ensures
        r == (scheme@ == "tcp"@ || scheme@ == "unix"@),
{
    str_eq(scheme, "tcp") || str_eq(scheme, "unix")
}

/// Decide `console_url_ok` exactly.
pub fn check_console_url(s: &str) -> (r: bool)
    ensures
        r == console_url_ok(s@),
{
    match url_scheme(s) {
        Some(scheme) => scheme_allowed(scheme.as_str()),
        None => false,
    }
}

/// A valid cgroup name: non-empty without NUL.
pub open spec fn cgroup_ok(s: Seq<char>) -> bool {
    s.len() > 0 && no_nul(s)
}

/// Repository identifiers are pairwise distinct.
pub open spec fn repositories_ok(repos: Seq<(String, Repository)>) -> bool {
    forall|i: int, j: int| 0 <= i < j < repos.len() ==> repos[i].0@ != repos[j].0@
}

/// A valid configuration: a well-formed cgroup name, distinct repository
/// identifiers, and an acceptable console URL where debugging is set.
pub open spec fn config_valid(c: Config) -> bool {
    &&& cgroup_ok(c.cgroup@)
    &&& repositories_ok(c.repositories@)
    &&& (c.debug matches Some(d) ==> console_url_ok(d.console@))
}

impl Config {
    /// Validate the configuration: accept exactly the valid ones, and
    /// name a rule the configuration breaks otherwise.
    #[verifier::loop_isolation(false)]
    pub fn check(&self) -> (r: Result<(), Error>)
        ensures
            r is Ok <==> config_valid(*self),
            r == Err::<(), Error>(Error::InvalidCgroup) ==> !cgroup_ok(self.cgroup@),
            r == Err::<(), Error>(Error::DuplicateRepository) ==> !repositories_ok(
                self.repositories@,
            ),
            r == Err::<(), Error>(Error::InvalidConsole) ==> !(self.debug matches Some(d)
                ==> console_url_ok(d.console@)),
    {
        let cgroup = self.cgroup.as_str();
        if cgroup.unicode_len() == 0 || !crate::text::check_no_nul(cgroup) {
            return Err(Error::InvalidCgroup);
        }
        let n = self.repositories.len();
        let mut i: usize = 0;
        while i < n
            invariant
                0 <= i <= n == self.repositories@.len(),
                forall|a: int, b: int| 0 <= a < b < i ==> self.repositories@[a].0@
                    != self.repositories@[b].0@,
            decreases n - i,
        {
            let mut j: usize = 0;
            while j < i
                invariant
                    0 <= j <= i < n == self.repositories@.len(),
                    forall|b: int| 0 <= b < j ==> self.repositories@[b].0@
                        != self.repositories@[i as int].0@,
                decreases i - j,
            {
                if str_eq(self.repositories[j].0.as_str(), self.repositories[i].0.as_str()) {
                    return Err(Error::DuplicateRepository);
                }
                j = j + 1;
            }
            i = i + 1;
        }
        match &self.debug {
            Some(d) => {
                if !check_console_url(d.console.as_str()) {
                    return Err(Error::InvalidConsole);
                }
            },
            None => {},
        }
        Ok(())
    }
}

/// Whether numeric permission bits grant the caller read and write
/// access: by the owner bits when the uid matches, the group bits when
/// the gid matches, or the other bits.
pub open spec fn is_rw_spec(mode: u32, file_uid: u32, file_gid: u32, uid: u32, gid: u32) -> bool {
    let same_uid = file_uid == uid;
    let same_gid = file_gid == gid;
    let readable = (same_uid && mode & 0o400 != 0) || (same_gid && mode & 0o040 != 0) || mode
        & 0o004 != 0;
    let writable = (same_uid && mode & 0o200 != 0) || (same_gid && mode & 0o020 != 0) || mode
        & 0o002 != 0;
    readable && writable
}

/// Decide `is_rw_spec` exactly, from a file's stat numbers and the
/// caller's ids.
pub fn is_rw(mode: u32, file_uid: u32, file_gid: u32, uid: u32, gid: u32) -> (r: bool)
    ensures
        r == is_rw_spec(mode, file_uid, file_gid, uid, gid),
{
    let same_uid = file_uid == uid;
    let same_gid = file_gid == gid;
    let readable = (same_uid && mode & 0o400 != 0) || (same_gid && mode & 0o040 != 0) || mode
        & 0o004 != 0;
    let writable = (same_uid && mode & 0o200 != 0) || (same_gid && mode & 0o020 != 0) || mode
        & 0o002 != 0;
    readable && writable
}

} // verus!
