//! Seccomp declarations: an allow-list of syscalls, each either allowed
//! unconditionally or guarded by positional argument predicates, and the
//! exact semantics of those predicates.

use vstd::prelude::*;
use crate::text::no_nul;

verus! {

/// A predefined seccomp profile.
#[derive(Debug, Clone, Copy, PartialEq, Eq, Structural)]
pub enum Profile {
    /// The built-in default allow-list.
    Default,
}

/// A predicate on the arguments of one syscall: the argument at `index`
/// must equal one of `values`, and must be covered by `mask` if one is
/// given.
#[derive(Debug, Clone, PartialEq, Eq)]
pub struct SyscallArgRule {
    /// Position of the inspected argument.
    pub index: usize,
    /// Accepted exact values, if any.
    pub values: Option<Vec<u64>>,
    /// Accepted bit mask: the argument must hold no bit outside it.
    pub mask: Option<u64>,
}

/// The rule for one allowed syscall.
#[derive(Debug, Clone, PartialEq, Eq)]
pub enum SyscallRule {
    /// Allow unconditionally.
    Any,
    /// Allow when the argument predicate matches.
    Args(SyscallArgRule),
}

/// A seccomp declaration: a profile, an allow-list, or both.
#[derive(Debug, Clone, PartialEq, Eq)]
pub struct Seccomp {
    /// Optional predefined profile.
    pub profile: Option<Profile>,
    /// Allowed syscalls by name.
    pub allow: Option<Vec<(String, SyscallRule)>>,
}

/// The number of syscall arguments a seccomp filter can inspect.
pub const SECCOMP_ARG_COUNT: usize = 6;

/// A well-formed argument predicate: the index addresses one of the six
/// arguments, and at least one of values and mask is present; a values
/// list, if present, is non-empty.
pub open spec fn valid_arg_rule(r: SyscallArgRule) -> bool {
    &&& r.index < SECCOMP_ARG_COUNT
    &&& (r.values is Some || r.mask is Some)
    &&& (r.values matches Some(vs) ==> vs@.len() > 0)
}

/// A well-formed rule.
pub open spec fn valid_rule(r: SyscallRule) -> bool {
    match r {
        SyscallRule::Any => true,
        SyscallRule::Args(a) => valid_arg_rule(a),
    }
}

/// A well-formed allow-list: syscall names are non-empty without NUL and
/// pairwise distinct, and every rule is well formed.
pub open spec fn valid_allow(allow: Seq<(String, SyscallRule)>) -> bool {
    &&& forall|i: int| 0 <= i < allow.len() ==> no_nul(#[trigger] allow[i].0@) && allow[i].0@.len()
        > 0 && valid_rule(allow[i].1)
    &&& forall|i: int, j: int| 0 <= i < j < allow.len() ==> allow[i].0@ != allow[j].0@
}

/// A well-formed seccomp declaration: it names a profile or an allow-list,
/// and the allow-list is well formed.
pub open spec fn valid_seccomp(s: Seccomp) -> bool {
    &&& (s.profile is Some || s.allow is Some)
    &&& (s.allow matches Some(a) ==> valid_allow(a@))
}

/// Whether an argument predicate accepts a syscall's arguments.
pub open spec fn arg_rule_matches(r: SyscallArgRule, args: Seq<u64>) -> bool {
    &&& r.index < args.len()
    &&& (r.values matches Some(vs) ==> vs@.contains(args[r.index as int]))
    &&& (r.mask matches Some(m) ==> args[r.index as int] & m == args[r.index as int])
}

/// Whether a rule accepts a syscall's arguments.
pub open spec fn rule_matches(r: SyscallRule, args: Seq<u64>) -> bool {
    match r {
        SyscallRule::Any => true,
        SyscallRule::Args(a) => arg_rule_matches(a, args),
    }
}

impl SyscallArgRule {
    /// Decide whether this predicate accepts the given arguments.
    pub fn matches(&self, args: &Vec<u64>) -> (r: bool)
        ensures
            r == arg_rule_matches(*self, args@),
    {
        if self.index >= args.len() {
            return false;
        }
        let arg = args[self.index];
        let values_ok = match &self.values {
            Some(vs) => {
                let mut found = false;
                let mut i: usize = 0;
                let n = vs.len();
                while i < n
                    invariant
                        0 <= i <= n == vs@.len(),
                        found == exists|k: int| 0 <= k < i && vs@[k] == arg,
                    decreases n - i,
                {
                    if vs[i] == arg {
                        found = true;
                    }
                    i = i + 1;
                }
                found
            },
            None => true,
        };
        let mask_ok = match &self.mask {
            Some(m) => arg & *m == arg,
            None => true,
        };
        values_ok && mask_ok
    }
}

impl SyscallRule {
    /// Decide whether this rule accepts the given arguments.
    pub fn matches(&self, args: &Vec<u64>) -> (r: bool)
        ensures
            r == rule_matches(*self, args@),
    {
        match self {
            SyscallRule::Any => true,
            SyscallRule::Args(a) => a.matches(args),
        }
    }
}

} // verus!
