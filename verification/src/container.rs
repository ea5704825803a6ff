//! Container identities: a validated name and a semantic version, written
//! textually as `name:version`.

use vstd::prelude::*;
use crate::name::{is_name_char, valid_name, Name};
use crate::version::{lemma_version_text_shape, version_eq, version_text_of, Version};

verus! {

/// Container identification.
#[derive(Debug, Clone, PartialEq, Eq, Hash)]
pub struct Container {
    name: Name,
    version: Version,
}

/// Parsing error for a container identifier.
#[derive(Debug, Clone, Copy, PartialEq, Eq, Structural)]
pub struct InvalidContainerError;

/// The text of an identity: the name, a colon, and the version's text.
pub open spec fn container_text(name: Seq<char>, v: Version) -> Seq<char> {
    name + seq![':'] + version_text_of(v)
}

impl Container {
    /// The name part of the identity.
    pub closed spec fn spec_name(&self) -> Seq<char> {
        self.name@
    }

    /// The version part of the identity.
    pub closed spec fn spec_version(&self) -> Version {
        self.version
    }

    /// The identity holds a well-formed name and a valid version.
    pub open spec fn wf(&self) -> bool {
        valid_name(self.spec_name()) && self.spec_version().wf()
    }

    /// Construct a new container identity.
    pub fn new(name: Name, version: Version) -> (r: Container)
        ensures
            r.spec_name() == name@,
            r.spec_version() == version,
            name.wf() && version.wf() ==> r.wf(),
    {
        Container { name, version }
    }

    /// An owned copy of the identity.
    pub fn duplicate(&self) -> (r: Container)
        ensures
            r.spec_name() == self.spec_name(),
            version_eq(r.spec_version(), self.spec_version()),
            self.wf() ==> r.wf(),
    {
        Container { name: self.name.duplicate(), version: self.version.duplicate() }
    }

    /// Container name.
    pub fn name(&self) -> (r: &Name)
        ensures
            r@ == self.spec_name(),
    {
        &self.name
    }

    /// Container version.
    pub fn version(&self) -> (r: &Version)
        ensures
            *r == self.spec_version(),
    {
        &self.version
    }

    /// Parse an identity from its text. Succeeds exactly on
    /// `name:version` with a well-formed name and the text of a valid
    /// version whose core components fit in `u64`.
    pub fn try_from(s: &str) -> (r: Result<Container, InvalidContainerError>)
        ensures
            r matches Ok(c) ==> c.wf() && s@ == container_text(c.spec_name(), c.spec_version()),
            r is Err ==> forall|n: Seq<char>, v: Version| !(valid_name(n) && v.wf() && s@
                == container_text(n, v)),
    {
        let len = s.unicode_len();
        let colon = match find_colon(s) {
            Some(i) => i,
            None => {
                proof {
                    assert forall|n: Seq<char>, v: Version| !(valid_name(n) && v.wf() && s@
                        == container_text(n, v)) by {
                        if valid_name(n) && v.wf() && s@ == container_text(n, v) {
                            assert(s@[n.len() as int] == ':');
                        }
                    }
                }
                return Err(InvalidContainerError);
            },
        };
        let name = match Name::try_from(s.substring_char(0, colon)) {
            Some(name) => name,
            None => {
                proof {
                    assert forall|n: Seq<char>, v: Version| !(valid_name(n) && v.wf() && s@
                        == container_text(n, v)) by {
                        if valid_name(n) && v.wf() && s@ == container_text(n, v) {
                            lemma_colon_position(s@, n, v, colon as int);
                            assert(s@.subrange(0, colon as int) =~= n);
                        }
                    }
                }
                return Err(InvalidContainerError);
            },
        };
        let version = match Version::parse(s.substring_char(colon + 1, len)) {
            Some(version) => version,
            None => {
                proof {
                    assert forall|n: Seq<char>, v: Version| !(valid_name(n) && v.wf() && s@
                        == container_text(n, v)) by {
                        if valid_name(n) && v.wf() && s@ == container_text(n, v) {
                            lemma_colon_position(s@, n, v, colon as int);
                            assert(s@.subrange(colon as int + 1, s@.len() as int)
                                =~= version_text_of(v));
                        }
                    }
                }
                return Err(InvalidContainerError);
            },
        };
        proof {
            assert(s@ =~= s@.subrange(0, colon as int) + seq![':'] + s@.subrange(
                colon as int + 1,
                s@.len() as int,
            ));
        }
        Ok(Container { name, version })
    }

    /// The identity's text.
    pub fn to_text(&self) -> (r: String)
        ensures
            r@ == container_text(self.spec_name(), self.spec_version()),
    {
        let mut s = String::from_str(self.name.as_str());
        s.append(":");
        let version = self.version.to_text();
        s.append(version.as_str());
        proof {
            reveal_strlit(":");
            assert(":"@ =~= seq![':']);
            assert(s@ =~= container_text(self.spec_name(), self.spec_version()));
        }
        s
    }
}

/// The first colon of `s`.
fn find_colon(s: &str) -> (r: Option<usize>)
    ensures
        r matches Some(i) ==> i < s@.len() && s@[i as int] == ':' && forall|k: int| 0 <= k < i
            ==> s@[k] != ':',
        r is None ==> forall|k: int| 0 <= k < s@.len() ==> s@[k] != ':',
{
    let len = s.unicode_len();
    let mut i: usize = 0;
    while i < len
        invariant
            0 <= i <= len == s@.len(),
            forall|k: int| 0 <= k < i ==> s@[k] != ':',
        decreases len - i,
    {
        if s.get_char(i) == ':' {
            return Some(i);
        }
        i = i + 1;
    }
    None
}

/// In the text of an identity with a well-formed name and a valid
/// version, the first colon stands exactly after the name.
proof fn lemma_colon_position(s: Seq<char>, n: Seq<char>, v: Version, colon: int)
    requires
        valid_name(n),
        v.wf(),
        s == container_text(n, v),
        0 <= colon < s.len(),
        s[colon] == ':',
        forall|k: int| 0 <= k < colon ==> s[k] != ':',
    ensures
        colon == n.len(),
{
    lemma_version_text_shape(v.major as nat, v.minor as nat, v.patch as nat, v.pre_view(), v.build_view());
    let vt = version_text_of(v);
    assert(s[n.len() as int] == ':');
    if colon < n.len() {
        assert(s[colon] == n[colon]);
        assert(is_name_char(n[colon]));
        assert(false);
    }
    if colon > n.len() {
        assert(false);
    }
}

/// Parsing the printed identity gives the identity back: with `text` the
/// printed form of a well-formed identity and `r` any value meeting the
/// parser's contract on `text`, `r` is that identity again.
pub proof fn lemma_container_roundtrip(c: Container, r: Result<Container, InvalidContainerError>)
    requires
        c.wf(),
        ({
            let s = container_text(c.spec_name(), c.spec_version());
            &&& (r matches Ok(d) ==> d.wf() && s == container_text(d.spec_name(), d.spec_version()))
            &&& (r is Err ==> forall|n: Seq<char>, v: Version| !(valid_name(n) && v.wf() && s
                == container_text(n, v)))
        }),
    ensures
        r matches Ok(d) ==> d.spec_name() == c.spec_name() && version_eq(
            d.spec_version(),
            c.spec_version(),
        ),
        r is Ok,
{
    let s = container_text(c.spec_name(), c.spec_version());
    match r {
        Ok(d) => {
            lemma_container_text_unique(
                c.spec_name(),
                c.spec_version(),
                d.spec_name(),
                d.spec_version(),
            );
        },
        Err(_) => {
            assert(valid_name(c.spec_name()) && c.spec_version().wf() && s == container_text(
                c.spec_name(),
                c.spec_version(),
            ));
            assert(false);
        },
    }
}

/// Two well-formed identities with the same text are the same identity.
pub proof fn lemma_container_text_unique(n1: Seq<char>, v1: Version, n2: Seq<char>, v2: Version)
    requires
        valid_name(n1),
        valid_name(n2),
        v1.wf(),
        v2.wf(),
        container_text(n1, v1) == container_text(n2, v2),
    ensures
        n1 == n2,
        version_eq(v1, v2),
{
    let s = container_text(n1, v1);
    lemma_version_text_shape(v1.major as nat, v1.minor as nat, v1.patch as nat, v1.pre_view(), v1.build_view());
    lemma_version_text_shape(v2.major as nat, v2.minor as nat, v2.patch as nat, v2.pre_view(), v2.build_view());
    assert(s[n1.len() as int] == ':');
    assert(s[n2.len() as int] == ':');
    assert(n1.len() == n2.len()) by {
        if n1.len() < n2.len() {
            assert(s[n1.len() as int] == n2[n1.len() as int]);
            assert(is_name_char(n2[n1.len() as int]));
        } else if n2.len() < n1.len() {
            assert(s[n2.len() as int] == n1[n2.len() as int]);
            assert(is_name_char(n1[n2.len() as int]));
        }
    }
    assert forall|k: int| 0 <= k < n1.len() implies n1[k] == n2[k] by {
        assert(s[k] == n1[k]);
        assert(s[k] == n2[k]);
    }
    assert(n1 =~= n2);
    let l = n1.len() as int;
    let vt1 = version_text_of(v1);
    let vt2 = version_text_of(v2);
    assert(vt1 =~= s.subrange(l + 1, s.len() as int));
    assert(vt2 =~= s.subrange(l + 1, s.len() as int));
    crate::version::lemma_version_text_unique(
        v1.major as nat,
        v1.minor as nat,
        v1.patch as nat,
        v1.pre_view(),
        v1.build_view(),
        v2.major as nat,
        v2.minor as nat,
        v2.patch as nat,
        v2.pre_view(),
        v2.build_view(),
    );
}

} // verus!
