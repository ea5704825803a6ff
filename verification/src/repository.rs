//! Repositories: the set of installed packages, keyed by container
//! identity, with duplicates refused and removal exact. The storage
//! behind an entry (a file in a directory, a sealed memory file) is named
//! by an opaque handle; reading and writing those artifacts is the
//! caller's business.

use vstd::prelude::*;
use crate::container::Container;
use crate::error::Error;
use crate::manifest::Manifest;
use crate::name::Name;
use crate::version::{req_matches, version_eq, version_lt, Version, VersionReq};

verus! {

/// A parsed package: the manifest, the verity data, and where the
/// squashfs image lies inside the stored artifact.
#[derive(Debug)]
pub struct Npk {
    /// The validated manifest.
    pub manifest: Manifest,
    /// The fs-verity root hash of the image.
    pub verity_root: Vec<u8>,
    /// The verity salt.
    pub verity_salt: Vec<u8>,
    /// Offset of the squashfs image inside the artifact.
    pub image_offset: u64,
    /// Length of the squashfs image.
    pub image_length: u64,
    /// Opaque handle of the stored artifact, assigned by the storage
    /// layer.
    pub handle: u64,
}

/// Whether entry `e` carries the identity `(n, v)`.
pub open spec fn id_matches(e: (Container, Npk), n: Seq<char>, v: Version) -> bool {
    e.0.spec_name() == n && version_eq(e.0.spec_version(), v)
}

/// Whether some entry carries the identity `(n, v)`.
pub open spec fn has_id(entries: Seq<(Container, Npk)>, n: Seq<char>, v: Version) -> bool {
    exists|i: int| 0 <= i < entries.len() && id_matches(#[trigger] entries[i], n, v)
}

/// No two entries carry the same identity.
pub open spec fn distinct_ids(entries: Seq<(Container, Npk)>) -> bool {
    forall|i: int, j: int| 0 <= i < j < entries.len() ==> !id_matches(
        #[trigger] entries[i],
        #[trigger] entries[j].0.spec_name(),
        entries[j].0.spec_version(),
    )
}

/// Every entry's key is the identity its manifest declares.
pub open spec fn entries_consistent(entries: Seq<(Container, Npk)>) -> bool {
    forall|i: int| 0 <= i < entries.len() ==> (#[trigger] entries[i]).0.spec_name()
        == entries[i].1.manifest.name@ && version_eq(
        entries[i].0.spec_version(),
        entries[i].1.manifest.version,
    ) && entries[i].0.wf()
}

/// The first index carrying the identity `(n, v)`; the length when none
/// does.
pub open spec fn index_of_id(entries: Seq<(Container, Npk)>, n: Seq<char>, v: Version) -> int
    decreases entries.len(),
{
    if entries.len() == 0 {
        0
    } else if id_matches(entries[0], n, v) {
        0
    } else {
        1 + index_of_id(entries.drop_first(), n, v)
    }
}

/// `index_of_id` finds the first matching entry.
pub proof fn lemma_index_of_id(entries: Seq<(Container, Npk)>, n: Seq<char>, v: Version)
    ensures
        0 <= index_of_id(entries, n, v) <= entries.len(),
        has_id(entries, n, v) <==> index_of_id(entries, n, v) < entries.len(),
        index_of_id(entries, n, v) < entries.len() ==> id_matches(
            entries[index_of_id(entries, n, v)],
            n,
            v,
        ),
        forall|k: int| 0 <= k < index_of_id(entries, n, v) ==> !id_matches(
            #[trigger] entries[k],
            n,
            v,
        ),
    decreases entries.len(),
{
    if entries.len() > 0 && !id_matches(entries[0], n, v) {
        lemma_index_of_id(entries.drop_first(), n, v);
        let rest = entries.drop_first();
        let i = index_of_id(entries, n, v);
        assert(forall|k: int| 0 <= k < rest.len() ==> rest[k] == entries[k + 1]);
        if i < entries.len() {
            assert(entries[i] == rest[i - 1]);
        }
        assert forall|k: int| 0 <= k < i implies !id_matches(#[trigger] entries[k], n, v) by {
            if k >= 1 {
                assert(rest[k - 1] == entries[k]);
            }
        }
        if has_id(entries, n, v) {
            let w = choose|w: int| 0 <= w < entries.len() && id_matches(#[trigger] entries[w], n, v);
            assert(w >= 1);
            assert(rest[w - 1] == entries[w]);
            assert(has_id(rest, n, v));
        }
        if has_id(rest, n, v) {
            let w = choose|w: int| 0 <= w < rest.len() && id_matches(#[trigger] rest[w], n, v);
            assert(entries[w + 1] == rest[w]);
            assert(has_id(entries, n, v));
        }
    }
}

/// A repository: an optional trusted key and the installed packages.
#[derive(Debug)]
pub struct Repository {
    key: Option<Vec<u8>>,
    entries: Vec<(Container, Npk)>,
}

impl Repository {
    /// The installed entries.
    pub closed spec fn spec_entries(&self) -> Seq<(Container, Npk)> {
        self.entries@
    }

    /// The trusted key, when the repository verifies signatures.
    pub closed spec fn spec_key(&self) -> Option<Vec<u8>> {
        self.key
    }

    /// Identities are distinct and consistent with their manifests.
    pub open spec fn wf(&self) -> bool {
        distinct_ids(self.spec_entries()) && entries_consistent(self.spec_entries())
    }

    /// An empty repository, with or without a trusted key.
    pub fn new(key: Option<Vec<u8>>) -> (r: Repository)
        ensures
            r.spec_entries() =~= Seq::<(Container, Npk)>::empty(),
            r.spec_key() == key,
            r.wf(),
    {
        Repository { key, entries: Vec::new() }
    }

    /// The trusted key, if any.
    pub fn key(&self) -> (r: Option<&Vec<u8>>)
        ensures
            r matches Some(k) ==> self.spec_key() matches Some(sk) && k@ == sk@,
            r is Some <==> self.spec_key() is Some,
    {
        self.key.as_ref()
    }

    /// All installed entries.
    pub fn containers(&self) -> (r: &Vec<(Container, Npk)>)
        ensures
            r@ == self.spec_entries(),
    {
        &self.entries
    }

    /// The position of the identity, searched from the front.
    fn position(&self, name: &str, version: &Version) -> (r: Option<usize>)
        ensures
            r matches Some(i) ==> i as int == index_of_id(self.spec_entries(), name@, *version)
                && i < self.spec_entries().len(),
            r is Some <==> has_id(self.spec_entries(), name@, *version),
    {
        proof {
            lemma_index_of_id(self.spec_entries(), name@, *version);
        }
        let n = self.entries.len();
        let mut i: usize = 0;
        while i < n
            invariant
                0 <= i <= n == self.spec_entries().len(),
                forall|k: int| 0 <= k < i ==> !id_matches(
                    #[trigger] self.spec_entries()[k],
                    name@,
                    *version,
                ),
            decreases n - i,
        {
            let entry_name = self.entries[i].0.name();
            let entry_version = self.entries[i].0.version();
            if crate::text::str_eq(entry_name.as_str(), name) && entry_version.same(version) {
                proof {
                    lemma_index_of_id(self.spec_entries(), name@, *version);
                    assert(id_matches(self.spec_entries()[i as int], name@, *version));
                }
                return Some(i);
            }
            i = i + 1;
        }
        None
    }

    /// Whether the identity is installed.
    pub fn contains(&self, container: &Container) -> (r: bool)
        ensures
            r == has_id(self.spec_entries(), container.spec_name(), container.spec_version()),
    {
        self.position(container.name().as_str(), container.version()).is_some()
    }

    /// The package of the identity, if installed.
    pub fn get(&self, container: &Container) -> (r: Option<&Npk>)
        ensures
            r is Some <==> has_id(
                self.spec_entries(),
                container.spec_name(),
                container.spec_version(),
            ),
            r matches Some(npk) ==> *npk == self.spec_entries()[index_of_id(
                self.spec_entries(),
                container.spec_name(),
                container.spec_version(),
            )].1,
    {
        match self.position(container.name().as_str(), container.version()) {
            Some(i) => Some(&self.entries[i].1),
            None => None,
        }
    }

    /// Install a parsed package. Fails with `InstallDuplicate`, changing
    /// nothing, exactly when the identity is already present; appends the
    /// entry otherwise.
    pub fn insert(&mut self, npk: Npk) -> (r: Result<Container, Error>)
        requires
            old(self).wf(),
            npk.manifest.name.wf(),
            npk.manifest.version.wf(),
        ensures
            final(self).wf(),
            final(self).spec_key() == old(self).spec_key(),
            r matches Ok(c) ==> {
                &&& !has_id(old(self).spec_entries(), npk.manifest.name@, npk.manifest.version)
                &&& c.spec_name() == npk.manifest.name@
                &&& version_eq(c.spec_version(), npk.manifest.version)
                &&& final(self).spec_entries().len() == old(self).spec_entries().len() + 1
                &&& final(self).spec_entries()[old(self).spec_entries().len() as int].1 == npk
                &&& final(self).spec_entries()[old(self).spec_entries().len() as int].0.spec_name()
                    == npk.manifest.name@
                &&& version_eq(
                    final(self).spec_entries()[old(self).spec_entries().len() as int].0.spec_version(),
                    npk.manifest.version,
                )
                &&& final(self).spec_entries().take(old(self).spec_entries().len() as int) == old(
                    self,
                ).spec_entries()
            },
            r matches Err(e) ==> {
                &&& has_id(old(self).spec_entries(), npk.manifest.name@, npk.manifest.version)
                &&& *final(self) == *old(self)
                &&& e matches Error::InstallDuplicate(c) && c.spec_name() == npk.manifest.name@
                    && version_eq(c.spec_version(), npk.manifest.version)
            },
            (r is Err) <==> has_id(old(self).spec_entries(), npk.manifest.name@, npk.manifest.version),
    {
        let container = npk.manifest.container();
        match self.position(container.name().as_str(), container.version()) {
            Some(_) => Err(Error::InstallDuplicate(container)),
            None => {
                let result = container.duplicate();
                self.entries.push((container, npk));
                proof {
                    let pre = old(self).spec_entries();
                    let post = self.spec_entries();
                    assert(post.take(pre.len() as int) =~= pre);
                    assert forall|i: int, j: int| 0 <= i < j < post.len() implies !id_matches(
                        #[trigger] post[i],
                        #[trigger] post[j].0.spec_name(),
                        post[j].0.spec_version(),
                    ) by {
                        if j < pre.len() {
                            assert(post[i] == pre[i] && post[j] == pre[j]);
                        } else {
                            assert(post[i] == pre[i]);
                            assert(!has_id(pre, npk.manifest.name@, npk.manifest.version));
                            assert(!id_matches(pre[i], npk.manifest.name@, npk.manifest.version));
                        }
                    }
                    assert forall|i: int| 0 <= i < post.len() implies (#[trigger] post[i]).0.spec_name()
                        == post[i].1.manifest.name@ && version_eq(
                        post[i].0.spec_version(),
                        post[i].1.manifest.version,
                    ) && post[i].0.wf() by {
                        if i < pre.len() {
                            assert(post[i] == pre[i]);
                        }
                    }
                }
                Ok(result)
            },
        }
    }

    /// Remove the identity and hand its package back, or change nothing
    /// and return nothing when it is not installed.
    pub fn remove(&mut self, container: &Container) -> (r: Option<Npk>)
        requires
            old(self).wf(),
        ensures
            final(self).wf(),
            final(self).spec_key() == old(self).spec_key(),
            r is Some <==> has_id(
                old(self).spec_entries(),
                container.spec_name(),
                container.spec_version(),
            ),
            r is None ==> *final(self) == *old(self),
            r matches Some(npk) ==> {
                let idx = index_of_id(
                    old(self).spec_entries(),
                    container.spec_name(),
                    container.spec_version(),
                );
                &&& npk == old(self).spec_entries()[idx].1
                &&& final(self).spec_entries() == old(self).spec_entries().remove(idx)
            },
    {
        match self.position(container.name().as_str(), container.version()) {
            Some(i) => {
                let (_, npk) = self.entries.remove(i);
                proof {
                    let pre = old(self).spec_entries();
                    let post = self.spec_entries();
                    let idx = i as int;
                    assert(post =~= pre.remove(idx));
                    assert forall|a: int, b: int| 0 <= a < b < post.len() implies !id_matches(
                        #[trigger] post[a],
                        #[trigger] post[b].0.spec_name(),
                        post[b].0.spec_version(),
                    ) by {
                        let pa = if a < idx {
                            a
                        } else {
                            a + 1
                        };
                        let pb = if b < idx {
                            b
                        } else {
                            b + 1
                        };
                        assert(post[a] == pre[pa] && post[b] == pre[pb]);
                    }
                    assert forall|a: int| 0 <= a < post.len() implies (#[trigger] post[a]).0.spec_name()
                        == post[a].1.manifest.name@ && version_eq(
                        post[a].0.spec_version(),
                        post[a].1.manifest.version,
                    ) && post[a].0.wf() by {
                        let pa = if a < idx {
                            a
                        } else {
                            a + 1
                        };
                        assert(post[a] == pre[pa]);
                    }
                }
                Some(npk)
            },
            None => None,
        }
    }
}

/// Whether an entry satisfies a resource dependency: it has the wanted
/// name, its version satisfies the requirement, and it is a resource
/// container, one without init.
pub open spec fn resource_satisfies(
    e: (Container, Npk),
    name: Seq<char>,
    req: VersionReq,
) -> bool {
    e.0.spec_name() == name && req_matches(req, e.0.spec_version()) && e.1.manifest.init is None
}

impl Repository {
    /// Resolve a resource dependency to the installed resource container
    /// of the wanted name with the highest version that satisfies the
    /// requirement, or nothing when none does.
    pub fn resolve_resource(&self, name: &Name, req: &VersionReq) -> (r: Option<Container>)
        ensures
            r matches Some(c) ==> {
                &&& exists|i: int| 0 <= i < self.spec_entries().len() && resource_satisfies(
                    #[trigger] self.spec_entries()[i],
                    name@,
                    *req,
                ) && version_eq(self.spec_entries()[i].0.spec_version(), c.spec_version())
                &&& c.spec_name() == name@
                &&& forall|i: int| 0 <= i < self.spec_entries().len() && resource_satisfies(
                    #[trigger] self.spec_entries()[i],
                    name@,
                    *req,
                ) ==> !version_lt(c.spec_version(), self.spec_entries()[i].0.spec_version())
            },
            r is None ==> forall|i: int| 0 <= i < self.spec_entries().len()
                ==> !resource_satisfies(#[trigger] self.spec_entries()[i], name@, *req),
    {
        let n = self.entries.len();
        let mut best: Option<usize> = None;
        let mut i: usize = 0;
        while i < n
            invariant
                0 <= i <= n == self.spec_entries().len(),
                best matches Some(b) ==> b < i && resource_satisfies(
                    self.spec_entries()[b as int],
                    name@,
                    *req,
                ),
                best matches Some(b) ==> forall|k: int| 0 <= k < i && resource_satisfies(
                    #[trigger] self.spec_entries()[k],
                    name@,
                    *req,
                ) ==> !version_lt(
                    self.spec_entries()[b as int].0.spec_version(),
                    self.spec_entries()[k].0.spec_version(),
                ),
                best is None ==> forall|k: int| 0 <= k < i ==> !resource_satisfies(
                    #[trigger] self.spec_entries()[k],
                    name@,
                    *req,
                ),
            decreases n - i,
        {
            let entry = &self.entries[i];
            let satisfies = crate::text::str_eq(entry.0.name().as_str(), name.as_str())
                && req.matches(entry.0.version()) && entry.1.manifest.init.is_none();
            if satisfies {
                match best {
                    Some(b) => {
                        let current = &self.entries[b];
                        if current.0.version().lt(entry.0.version()) {
                            proof {
                                // The new best is at least every earlier
                                // match, since precedence is a strict
                                // order.
                                let entries = self.spec_entries();
                                let vi = entries[i as int].0.spec_version();
                                let vb = entries[b as int].0.spec_version();
                                assert forall|k: int| 0 <= k < i + 1 && resource_satisfies(
                                    #[trigger] entries[k],
                                    name@,
                                    *req,
                                ) implies !version_lt(vi, entries[k].0.spec_version()) by {
                                    let vk = entries[k].0.spec_version();
                                    crate::version::lemma_version_lt_strict(vi, vi, vi);
                                    if k < i && version_lt(vi, vk) {
                                        crate::version::lemma_version_lt_strict(vb, vi, vk);
                                    }
                                }
                            }
                            best = Some(i);
                        }
                    },
                    None => {
                        proof {
                            let vi = self.spec_entries()[i as int].0.spec_version();
                            crate::version::lemma_version_lt_strict(vi, vi, vi);
                        }
                        best = Some(i);
                    },
                }
            }
            i = i + 1;
        }
        match best {
            Some(b) => Some(self.entries[b].0.duplicate()),
            None => None,
        }
    }
}

/// Law: once an entry with a container's identity is appended, the
/// repository holds that identity, so by the contract of `insert` a
/// second insert of the same identity fails with `InstallDuplicate`.
pub proof fn lemma_insert_then_present(entries: Seq<(Container, Npk)>, e: (Container, Npk))
    ensures
        has_id(entries.push(e), e.0.spec_name(), e.0.spec_version()),
{
    let post = entries.push(e);
    assert(post[entries.len() as int] == e);
    assert(id_matches(post[entries.len() as int], e.0.spec_name(), e.0.spec_version()));
}

/// Law: installing a package that was absent and then removing its
/// identity leaves the set of entries exactly as it was; with the
/// contracts of `insert` and `remove`, install followed by uninstall
/// restores the repository.
pub proof fn lemma_insert_remove_roundtrip(entries: Seq<(Container, Npk)>, e: (Container, Npk))
    requires
        !has_id(entries, e.0.spec_name(), e.0.spec_version()),
    ensures
        index_of_id(entries.push(e), e.0.spec_name(), e.0.spec_version()) == entries.len(),
        entries.push(e).remove(entries.len() as int) == entries,
    decreases entries.len(),
{
    let n = e.0.spec_name();
    let v = e.0.spec_version();
    let post = entries.push(e);
    lemma_index_of_id(post, n, v);
    lemma_insert_then_present(entries, e);
    let idx = index_of_id(post, n, v);
    assert(idx < post.len());
    assert(id_matches(post[idx], n, v));
    if idx < entries.len() {
        assert(post[idx] == entries[idx]);
        assert(has_id(entries, n, v));
        assert(false);
    }
    assert(post.remove(entries.len() as int) =~= entries);
}

} // verus!
