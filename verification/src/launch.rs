//! What the launcher computes before execve: the environment handed to
//! the container's init. The manifest's own variables come first, and the
//! runtime injects its reserved keys: the container's name, version and
//! identity, and the console file descriptor when one is handed over.

use vstd::prelude::*;
use crate::container::container_text;
use crate::decimal::{dec_repr, u64_to_text};
use crate::manifest::{env_ok, reserved_env_key, Manifest};
use crate::version::version_text_of;

verus! {

/// The injected pairs, in order: name, version, identity, and the console
/// file descriptor when one is present.
pub open spec fn injected_env(m: Manifest, console_fd: Option<u64>) -> Seq<(Seq<char>, Seq<char>)> {
    let base = seq![
        ("NORTHSTAR_NAME"@, m.name@),
        ("NORTHSTAR_VERSION"@, version_text_of(m.version)),
        ("NORTHSTAR_CONTAINER"@, container_text(m.name@, m.version)),
    ];
    match console_fd {
        Some(fd) => base.push(("NORTHSTAR_CONSOLE"@, dec_repr(fd as nat))),
        None => base,
    }
}

/// The key-value view of an environment list.
pub open spec fn env_view(env: Seq<(String, String)>) -> Seq<(Seq<char>, Seq<char>)> {
    env.map_values(|e: (String, String)| (e.0@, e.1@))
}

/// Build the environment of the container process: the manifest's
/// variables first, then the injected reserved keys. All keys are
/// pairwise distinct, since a valid manifest holds no reserved key.
pub fn launch_env(manifest: &Manifest, console_fd: Option<u64>) -> (r: Vec<(String, String)>)
    requires
        env_ok(manifest.env@),
    ensures
        env_view(r@) == env_view(manifest.env@) + injected_env(*manifest, console_fd),
        forall|i: int, j: int| 0 <= i < j < r@.len() ==> r@[i].0@ != r@[j].0@,
{
    proof {
        reveal_strlit("NORTHSTAR_NAME");
        reveal_strlit("NORTHSTAR_VERSION");
        reveal_strlit("NORTHSTAR_CONTAINER");
        reveal_strlit("NORTHSTAR_CONSOLE");
        assert("NORTHSTAR_NAME"@.len() == 14);
        assert("NORTHSTAR_VERSION"@.len() == 17);
        assert("NORTHSTAR_CONTAINER"@.len() == 19);
        assert("NORTHSTAR_CONSOLE"@.len() == 17);
        assert("NORTHSTAR_VERSION"@[10] == 'V');
        assert("NORTHSTAR_CONSOLE"@[10] == 'C');
    }
    let n = manifest.env.len();
    let mut r: Vec<(String, String)> = Vec::new();
    let mut i: usize = 0;
    while i < n
        invariant
            0 <= i <= n == manifest.env@.len(),
            r@.len() == i,
            forall|k: int| 0 <= k < i ==> (#[trigger] r@[k]).0@ == manifest.env@[k].0@
                && r@[k].1@ == manifest.env@[k].1@,
            env_ok(manifest.env@),
        decreases n - i,
    {
        let key = String::from_str(manifest.env[i].0.as_str());
        let value = String::from_str(manifest.env[i].1.as_str());
        r.push((key, value));
        i = i + 1;
    }
    let name = String::from_str(manifest.name.as_str());
    r.push((String::from_str("NORTHSTAR_NAME"), name));
    let version = manifest.version.to_text();
    r.push((String::from_str("NORTHSTAR_VERSION"), version));
    let identity = manifest.container();
    proof {
        crate::version::lemma_version_eq_text(identity.spec_version(), manifest.version);
    }
    let container = identity.to_text();
    r.push((String::from_str("NORTHSTAR_CONTAINER"), container));
    match console_fd {
        Some(fd) => {
            let fd_text = u64_to_text(fd);
            r.push((String::from_str("NORTHSTAR_CONSOLE"), fd_text));
        },
        None => {},
    }
    proof {
        assert(env_view(r@) =~= env_view(manifest.env@) + injected_env(*manifest, console_fd));
        assert forall|a: int, b: int| 0 <= a < b < r@.len() implies r@[a].0@ != r@[b].0@ by {
            let m = manifest.env@.len() as int;
            if b < m {
                assert(r@[a].0@ == manifest.env@[a].0@ && r@[b].0@ == manifest.env@[b].0@);
            } else if a < m {
                assert(!reserved_env_key(manifest.env@[a].0@));
                assert(reserved_env_key(r@[b].0@));
            }
        }
    }
    r
}

} // verus!
