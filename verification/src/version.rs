//! Semantic versions: a numeric `major.minor.patch` core, an optional
//! pre-release tag and optional build metadata, with exact parsing and
//! printing and with ordering by precedence, and version requirements
//! such as `>=1.0.0`.

use vstd::prelude::*;
use crate::decimal::{
    dec_repr, dec_val, digits_ok, is_digit, lemma_dec_repr_canonical, lemma_dec_repr_digits_ok,
    lemma_dec_repr_val, parse_u64, u64_to_text,
};

verus! {

/// A semantic version.
#[derive(Debug, Clone, PartialEq, Eq, Hash)]
pub struct Version {
    /// Major component.
    pub major: u64,
    /// Minor component.
    pub minor: u64,
    /// Patch component.
    pub patch: u64,
    /// Pre-release tag: dot-separated identifiers, without the leading
    /// `-`.
    pub pre: Option<String>,
    /// Build metadata: dot-separated identifiers, without the leading
    /// `+`.
    pub build: Option<String>,
}

/// A character allowed in a pre-release or build identifier: ASCII
/// alphanumerics and the hyphen.
pub open spec fn is_ident_char(c: char) -> bool {
    ||| 'a' <= c && c <= 'z'
    ||| 'A' <= c && c <= 'Z'
    ||| '0' <= c && c <= '9'
    ||| c == '-'
}

/// Every character is a digit.
pub open spec fn all_digits(w: Seq<char>) -> bool {
    forall|k: int| 0 <= k < w.len() ==> is_digit(#[trigger] w[k])
}

/// One identifier: non-empty, over the identifier characters; in a
/// pre-release tag (`numeric_canon`) a numeric identifier must not have a
/// leading zero.
pub open spec fn valid_ident(w: Seq<char>, numeric_canon: bool) -> bool {
    &&& w.len() > 0
    &&& forall|k: int| 0 <= k < w.len() ==> is_ident_char(#[trigger] w[k])
    &&& (numeric_canon && all_digits(w) && w.len() > 1 ==> w[0] != '0')
}

/// The position of the first dot, or the length when there is none.
pub open spec fn first_dot(s: Seq<char>) -> int
    decreases s.len(),
{
    if s.len() == 0 {
        0
    } else if s[0] == '.' {
        0
    } else {
        1 + first_dot(s.drop_first())
    }
}

/// `first_dot` is the index of the first dot, and the length when no dot
/// occurs.
proof fn lemma_first_dot(s: Seq<char>)
    ensures
        0 <= first_dot(s) <= s.len(),
        first_dot(s) < s.len() ==> s[first_dot(s)] == '.',
        forall|k: int| 0 <= k < first_dot(s) ==> s[k] != '.',
    decreases s.len(),
{
    if s.len() > 0 && s[0] != '.' {
        lemma_first_dot(s.drop_first());
        let i = first_dot(s);
        if i < s.len() {
            assert(s[i] == s.drop_first()[i - 1]);
        }
        assert forall|k: int| 0 <= k < i implies s[k] != '.' by {
            if k >= 1 {
                assert(s.drop_first()[k - 1] == s[k]);
            }
        }
    }
}

/// A dot-separated list of identifiers.
pub open spec fn valid_idents(s: Seq<char>, numeric_canon: bool) -> bool
    decreases s.len(),
{
    let i = first_dot(s);
    if i == s.len() {
        valid_ident(s, numeric_canon)
    } else if 0 <= i < s.len() {
        valid_ident(s.take(i), numeric_canon) && valid_idents(s.skip(i + 1), numeric_canon)
    } else {
        false
    }
}

/// A valid pre-release tag.
pub open spec fn valid_pre(s: Seq<char>) -> bool {
    valid_idents(s, true)
}

/// Valid build metadata.
pub open spec fn valid_build(s: Seq<char>) -> bool {
    valid_idents(s, false)
}

/// The pre-release rule lifted to the optional tag.
pub open spec fn pre_opt_ok(p: Option<Seq<char>>) -> bool {
    match p {
        Some(x) => valid_pre(x),
        None => true,
    }
}

/// The build rule lifted to the optional metadata.
pub open spec fn build_opt_ok(b: Option<Seq<char>>) -> bool {
    match b {
        Some(x) => valid_build(x),
        None => true,
    }
}

/// A valid identifier list is non-empty and holds only identifier
/// characters and dots.
proof fn lemma_idents_chars(s: Seq<char>, numeric_canon: bool)
    requires
        valid_idents(s, numeric_canon),
    ensures
        s.len() > 0,
        forall|k: int| 0 <= k < s.len() ==> is_ident_char(#[trigger] s[k]) || s[k] == '.',
    decreases s.len(),
{
    lemma_first_dot(s);
    let i = first_dot(s);
    if i == s.len() {
    } else {
        lemma_idents_chars(s.skip(i + 1), numeric_canon);
        assert forall|k: int| 0 <= k < s.len() implies is_ident_char(#[trigger] s[k]) || s[k]
            == '.' by {
            if k < i {
                assert(s.take(i)[k] == s[k]);
                assert(is_ident_char(s.take(i)[k]));
            } else if k > i {
                assert(s.skip(i + 1)[k - i - 1] == s[k]);
            }
        }
    }
}

/// Decide `valid_ident` exactly.
fn check_ident(s: &str, numeric_canon: bool) -> (r: bool)
    ensures
        r == valid_ident(s@, numeric_canon),
{
    let len = s.unicode_len();
    if len == 0 {
        return false;
    }
    let mut digits = true;
    let mut i: usize = 0;
    while i < len
        invariant
            0 <= i <= len == s@.len(),
            forall|k: int| 0 <= k < i ==> is_ident_char(#[trigger] s@[k]),
            digits == forall|k: int| 0 <= k < i ==> is_digit(#[trigger] s@[k]),
        decreases len - i,
    {
        let c = s.get_char(i);
        let is_digit_c = '0' <= c && c <= '9';
        if !(('a' <= c && c <= 'z') || ('A' <= c && c <= 'Z') || is_digit_c || c == '-') {
            return false;
        }
        if !is_digit_c {
            digits = false;
        }
        i = i + 1;
    }
    if numeric_canon && digits && len > 1 && s.get_char(0) == '0' {
        return false;
    }
    true
}

/// Decide `valid_idents` exactly.
fn check_idents(s: &str, numeric_canon: bool) -> (r: bool)
    ensures
        r == valid_idents(s@, numeric_canon),
    decreases s@.len(),
{
    proof {
        lemma_first_dot(s@);
    }
    let len = s.unicode_len();
    match find_dot(s, 0) {
        None => {
            proof {
                let fd = first_dot(s@);
                if fd < s@.len() {
                    assert(s@[fd] == '.');
                }
            }
            check_ident(s, numeric_canon)
        },
        Some(i) => {
            proof {
                let fd = first_dot(s@);
                if fd < i as int {
                    assert(s@[fd] == '.');
                } else if (i as int) < fd {
                    assert(s@[i as int] != '.');
                }
            }
            let word = s.substring_char(0, i);
            let rest = s.substring_char(i + 1, len);
            proof {
                assert(word@ =~= s@.take(i as int));
                assert(rest@ =~= s@.skip(i as int + 1));
            }
            check_ident(word, numeric_canon) && check_idents(rest, numeric_canon)
        },
    }
}

/// The text of the numeric core: the canonical decimal renderings of the
/// three components separated by dots.
pub open spec fn core_text(a: nat, b: nat, c: nat) -> Seq<char> {
    dec_repr(a) + seq!['.'] + dec_repr(b) + seq!['.'] + dec_repr(c)
}

/// The text of a version: the core, then `-` and the pre-release tag when
/// one is present, then `+` and the build metadata when present.
pub open spec fn version_text(
    a: nat,
    b: nat,
    c: nat,
    pre: Option<Seq<char>>,
    build: Option<Seq<char>>,
) -> Seq<char> {
    core_text(a, b, c) + (match pre {
        Some(p) => seq!['-'] + p,
        None => Seq::<char>::empty(),
    }) + (match build {
        Some(bd) => seq!['+'] + bd,
        None => Seq::<char>::empty(),
    })
}

impl Version {
    /// The pre-release tag's characters, if one is present.
    pub open spec fn pre_view(&self) -> Option<Seq<char>> {
        match self.pre {
            Some(p) => Some(p@),
            None => None,
        }
    }

    /// The build metadata's characters, if present.
    pub open spec fn build_view(&self) -> Option<Seq<char>> {
        match self.build {
            Some(b) => Some(b@),
            None => None,
        }
    }

    /// Pre-release and build, where present, are valid identifier lists.
    pub open spec fn wf(&self) -> bool {
        pre_opt_ok(self.pre_view()) && build_opt_ok(self.build_view())
    }
}

/// The text of a version value.
pub open spec fn version_text_of(v: Version) -> Seq<char> {
    version_text(v.major as nat, v.minor as nat, v.patch as nat, v.pre_view(), v.build_view())
}

/// Where the pieces of the numeric core lie, and that the dots separate
/// exactly the three digit strings.
pub proof fn lemma_core_text_shape(a: nat, b: nat, c: nat)
    ensures
        ({
            let s = core_text(a, b, c);
            let la = dec_repr(a).len() as int;
            let lb = dec_repr(b).len() as int;
            let lc = dec_repr(c).len() as int;
            &&& s.len() == la + lb + lc + 2
            &&& forall|k: int| 0 <= k < s.len() ==> is_digit(#[trigger] s[k]) || s[k] == '.'
            &&& s[la] == '.'
            &&& s[la + 1 + lb] == '.'
            &&& forall|k: int| 0 <= k < la ==> s[k] != '.'
            &&& forall|k: int| la + 1 <= k < la + 1 + lb ==> s[k] != '.'
            &&& forall|k: int| la + 2 + lb <= k < s.len() ==> s[k] != '.'
            &&& s.subrange(0, la) == dec_repr(a)
            &&& s.subrange(la + 1, la + 1 + lb) == dec_repr(b)
            &&& s.subrange(la + 2 + lb, s.len() as int) == dec_repr(c)
        }),
{
    lemma_dec_repr_digits_ok(a);
    lemma_dec_repr_digits_ok(b);
    lemma_dec_repr_digits_ok(c);
    let s = core_text(a, b, c);
    let la = dec_repr(a).len() as int;
    let lb = dec_repr(b).len() as int;
    let lc = dec_repr(c).len() as int;
    assert(s.subrange(0, la) =~= dec_repr(a));
    assert(s.subrange(la + 1, la + 1 + lb) =~= dec_repr(b));
    assert(s.subrange(la + 2 + lb, s.len() as int) =~= dec_repr(c));
    assert forall|k: int| 0 <= k < s.len() implies is_digit(#[trigger] s[k]) || s[k] == '.' by {
        if 0 <= k < la {
            assert(s[k] == dec_repr(a)[k]);
        } else if la + 1 <= k < la + 1 + lb {
            assert(s[k] == dec_repr(b)[k - la - 1]);
        } else if la + 2 + lb <= k {
            assert(s[k] == dec_repr(c)[k - la - 2 - lb]);
        }
    }
    assert forall|k: int| 0 <= k < la implies s[k] != '.' by {
        assert(s[k] == dec_repr(a)[k]);
        assert(is_digit(dec_repr(a)[k]));
    }
    assert forall|k: int| la + 1 <= k < la + 1 + lb implies s[k] != '.' by {
        assert(s[k] == dec_repr(b)[k - la - 1]);
        assert(is_digit(dec_repr(b)[k - la - 1]));
    }
    assert forall|k: int| la + 2 + lb <= k < s.len() implies s[k] != '.' by {
        assert(s[k] == dec_repr(c)[k - la - 2 - lb]);
        assert(is_digit(dec_repr(c)[k - la - 2 - lb]));
    }
}

/// Where the pieces of a version's text lie: the core first; the first
/// `-` of the text, if a pre-release is present, stands right after the
/// core; the first `+`, if build metadata is present, stands right after
/// the pre-release part; and no character is a colon.
pub proof fn lemma_version_text_shape(
    a: nat,
    b: nat,
    c: nat,
    pre: Option<Seq<char>>,
    build: Option<Seq<char>>,
)
    requires
        pre_opt_ok(pre),
        build_opt_ok(build),
    ensures
        ({
            let s = version_text(a, b, c, pre, build);
            let cl = core_text(a, b, c).len() as int;
            let pe = cl + (match pre {
                Some(p) => 1 + p.len() as int,
                None => 0,
            });
            &&& s.len() == pe + (match build {
                Some(bd) => 1 + bd.len() as int,
                None => 0,
            })
            &&& s.subrange(0, cl) == core_text(a, b, c)
            &&& s.len() > 0 && is_digit(s[0])
            &&& forall|k: int| 0 <= k < cl ==> s[k] != '+' && s[k] != '-'
            &&& (pre matches Some(p) ==> s[cl] == '-' && s.subrange(cl + 1, pe) == p && forall|
                k: int,
            | cl + 1 <= k < pe ==> s[k] != '+')
            &&& (build matches Some(bd) ==> s[pe] == '+' && s.subrange(pe + 1, s.len() as int)
                == bd)
            &&& (build is None ==> forall|k: int| 0 <= k < s.len() ==> s[k] != '+')
            &&& (pre is None ==> forall|k: int| 0 <= k < pe ==> s[k] != '-')
            &&& forall|k: int| 0 <= k < s.len() ==> s[k] != ':'
        }),
{
    lemma_core_text_shape(a, b, c);
    lemma_dec_repr_digits_ok(a);
    let s = version_text(a, b, c, pre, build);
    let core = core_text(a, b, c);
    let cl = core.len() as int;
    let pe = cl + (match pre {
        Some(p) => 1 + p.len() as int,
        None => 0,
    });
    assert(s.subrange(0, cl) =~= core);
    assert(s[0] == core[0]);
    assert(core[0] == dec_repr(a)[0]);
    assert forall|k: int| 0 <= k < cl implies s[k] != '+' && s[k] != '-' && s[k] != ':' by {
        assert(s[k] == core[k]);
        assert(is_digit(core[k]) || core[k] == '.');
    }
    match pre {
        Some(p) => {
            lemma_idents_chars(p, true);
            assert(s[cl] == '-');
            assert(s.subrange(cl + 1, pe) =~= p);
            assert forall|k: int| cl + 1 <= k < pe implies s[k] != '+' && s[k] != ':' by {
                assert(s[k] == p[k - cl - 1]);
                assert(is_ident_char(p[k - cl - 1]) || p[k - cl - 1] == '.');
            }
        },
        None => {},
    }
    match build {
        Some(bd) => {
            lemma_idents_chars(bd, false);
            assert(s[pe] == '+');
            assert(s.subrange(pe + 1, s.len() as int) =~= bd);
            assert forall|k: int| pe + 1 <= k < s.len() implies s[k] != ':' by {
                assert(s[k] == bd[k - pe - 1]);
                assert(is_ident_char(bd[k - pe - 1]) || bd[k - pe - 1] == '.');
            }
        },
        None => {},
    }
}

/// Two valid versions with the same text are the same version.
pub proof fn lemma_version_text_unique(
    a1: nat,
    b1: nat,
    c1: nat,
    p1: Option<Seq<char>>,
    bl1: Option<Seq<char>>,
    a2: nat,
    b2: nat,
    c2: nat,
    p2: Option<Seq<char>>,
    bl2: Option<Seq<char>>,
)
    requires
        pre_opt_ok(p1),
        build_opt_ok(bl1),
        pre_opt_ok(p2),
        build_opt_ok(bl2),
        version_text(a1, b1, c1, p1, bl1) == version_text(a2, b2, c2, p2, bl2),
    ensures
        a1 == a2 && b1 == b2 && c1 == c2 && p1 == p2 && bl1 == bl2,
{
    lemma_version_text_shape(a1, b1, c1, p1, bl1);
    lemma_version_text_shape(a2, b2, c2, p2, bl2);
    let s = version_text(a1, b1, c1, p1, bl1);
    let cl1 = core_text(a1, b1, c1).len() as int;
    let cl2 = core_text(a2, b2, c2).len() as int;
    let pe1 = cl1 + (match p1 {
        Some(p) => 1 + p.len() as int,
        None => 0,
    });
    let pe2 = cl2 + (match p2 {
        Some(p) => 1 + p.len() as int,
        None => 0,
    });
    // The build separator is the first '+', so both sides place it at the
    // same position, or neither has one.
    assert(pe1 == pe2 && (bl1 is Some <==> bl2 is Some)) by {
        match (bl1, bl2) {
            (Some(x), Some(y)) => {
                if pe1 < pe2 {
                    assert(s[pe1] == '+');
                    if pe1 < cl2 {
                    } else {
                        assert(p2 is Some);
                    }
                } else if pe2 < pe1 {
                    assert(s[pe2] == '+');
                    if pe2 < cl1 {
                    } else {
                        assert(p1 is Some);
                    }
                }
            },
            (Some(x), None) => {
                assert(s[pe1] == '+');
            },
            (None, Some(y)) => {
                assert(s[pe2] == '+');
            },
            (None, None) => {
                assert(pe1 == s.len() && pe2 == s.len());
            },
        }
    }
    // The pre-release separator is the first '-' before the build part.
    assert(cl1 == cl2 && (p1 is Some <==> p2 is Some)) by {
        match (p1, p2) {
            (Some(x), Some(y)) => {
                if cl1 < cl2 {
                    assert(s[cl1] == '-');
                    assert(cl1 < pe2);
                } else if cl2 < cl1 {
                    assert(s[cl2] == '-');
                    assert(cl2 < pe1);
                }
            },
            (Some(x), None) => {
                assert(s[cl1] == '-');
                assert(cl1 < pe1 && pe1 == pe2 && pe2 == cl2);
            },
            (None, Some(y)) => {
                assert(s[cl2] == '-');
                assert(cl2 < pe2 && pe1 == pe2 && pe1 == cl1);
            },
            (None, None) => {},
        }
    }
    assert(core_text(a1, b1, c1) == s.subrange(0, cl1));
    assert(core_text(a2, b2, c2) == s.subrange(0, cl1));
    lemma_core_text_unique(a1, b1, c1, a2, b2, c2);
    match (p1, p2) {
        (Some(x), Some(y)) => {
            assert(x == s.subrange(cl1 + 1, pe1) && y == s.subrange(cl1 + 1, pe1));
        },
        _ => {},
    }
    match (bl1, bl2) {
        (Some(x), Some(y)) => {
            assert(x == s.subrange(pe1 + 1, s.len() as int) && y == s.subrange(
                pe1 + 1,
                s.len() as int,
            ));
        },
        _ => {},
    }
}

/// Two triples with the same core text are the same triple.
pub proof fn lemma_core_text_unique(a: nat, b: nat, c: nat, x: nat, y: nat, z: nat)
    requires
        core_text(a, b, c) == core_text(x, y, z),
    ensures
        a == x && b == y && c == z,
{
    lemma_core_text_shape(a, b, c);
    lemma_core_text_shape(x, y, z);
    let s = core_text(a, b, c);
    let la = dec_repr(a).len() as int;
    let lx = dec_repr(x).len() as int;
    assert(la == lx) by {
        if la < lx {
            assert(s[la] == '.');
        } else if lx < la {
            assert(s[lx] == '.');
        }
    }
    assert(dec_repr(a) == s.subrange(0, la));
    assert(dec_repr(a) == dec_repr(x));
    lemma_dec_repr_val(a);
    lemma_dec_repr_val(x);
    let lb = dec_repr(b).len() as int;
    let ly = dec_repr(y).len() as int;
    assert(lb == ly) by {
        if lb < ly {
            assert(s[la + 1 + lb] == '.');
        } else if ly < lb {
            assert(s[la + 1 + ly] == '.');
        }
    }
    assert(dec_repr(b) == s.subrange(la + 1, la + 1 + lb));
    assert(dec_repr(b) == dec_repr(y));
    lemma_dec_repr_val(b);
    lemma_dec_repr_val(y);
    assert(dec_repr(c) == s.subrange(la + 2 + lb, s.len() as int));
    assert(dec_repr(c) == dec_repr(z));
    lemma_dec_repr_val(c);
    lemma_dec_repr_val(z);
}

/// The first dot of `s` at or after `start`.
fn find_dot(s: &str, start: usize) -> (r: Option<usize>)
    requires
        start <= s@.len(),
    ensures
        r matches Some(i) ==> start <= i < s@.len() && s@[i as int] == '.' && forall|k: int|
            start <= k < i ==> s@[k] != '.',
        r is None ==> forall|k: int| start <= k < s@.len() ==> s@[k] != '.',
{
    let len = s.unicode_len();
    let mut i: usize = start;
    while i < len
        invariant
            start <= i <= len == s@.len(),
            forall|k: int| start <= k < i ==> s@[k] != '.',
        decreases len - i,
    {
        if s.get_char(i) == '.' {
            return Some(i);
        }
        i = i + 1;
    }
    None
}

/// The first plus of `s`.
fn find_plus(s: &str) -> (r: Option<usize>)
    ensures
        r matches Some(i) ==> i < s@.len() && s@[i as int] == '+' && forall|k: int| 0 <= k < i
            ==> s@[k] != '+',
        r is None ==> forall|k: int| 0 <= k < s@.len() ==> s@[k] != '+',
{
    let len = s.unicode_len();
    let mut i: usize = 0;
    while i < len
        invariant
            0 <= i <= len == s@.len(),
            forall|k: int| 0 <= k < i ==> s@[k] != '+',
        decreases len - i,
    {
        if s.get_char(i) == '+' {
            return Some(i);
        }
        i = i + 1;
    }
    None
}

/// The first dash of `s` before `end`.
fn find_dash(s: &str, end: usize) -> (r: Option<usize>)
    requires
        end <= s@.len(),
    ensures
        r matches Some(i) ==> i < end && s@[i as int] == '-' && forall|k: int| 0 <= k < i
            ==> s@[k] != '-',
        r is None ==> forall|k: int| 0 <= k < end ==> s@[k] != '-',
{
    let mut i: usize = 0;
    while i < end
        invariant
            0 <= i <= end <= s@.len(),
            forall|k: int| 0 <= k < i ==> s@[k] != '-',
        decreases end - i,
    {
        if s.get_char(i) == '-' {
            return Some(i);
        }
        i = i + 1;
    }
    None
}

/// Parse a numeric core. Succeeds exactly on the canonical text of a
/// triple whose components fit in `u64`.
fn parse_core(s: &str) -> (r: Option<(u64, u64, u64)>)
    ensures
        r matches Some(v) ==> s@ == core_text(v.0 as nat, v.1 as nat, v.2 as nat),
        r is None ==> forall|a: nat, b: nat, c: nat| !(a <= u64::MAX && b <= u64::MAX && c
            <= u64::MAX && s@ == core_text(a, b, c)),
{
    let n = s.unicode_len();
    let i = match find_dot(s, 0) {
        Some(i) => i,
        None => {
            proof {
                assert forall|a: nat, b: nat, c: nat| !(a <= u64::MAX && b <= u64::MAX && c
                    <= u64::MAX && s@ == core_text(a, b, c)) by {
                    if s@ == core_text(a, b, c) {
                        lemma_core_text_shape(a, b, c);
                    }
                }
            }
            return None;
        },
    };
    let j = match find_dot(s, i + 1) {
        Some(j) => j,
        None => {
            proof {
                assert forall|a: nat, b: nat, c: nat| !(a <= u64::MAX && b <= u64::MAX && c
                    <= u64::MAX && s@ == core_text(a, b, c)) by {
                    if s@ == core_text(a, b, c) {
                        lemma_core_text_shape(a, b, c);
                        let la = dec_repr(a).len() as int;
                        let lb = dec_repr(b).len() as int;
                        assert(i == la);
                        assert(s@[la + 1 + lb] == '.');
                    }
                }
            }
            return None;
        },
    };
    let major = match parse_u64(s.substring_char(0, i)) {
        Some(v) => v,
        None => {
            proof {
                assert forall|a: nat, b: nat, c: nat| !(a <= u64::MAX && b <= u64::MAX && c
                    <= u64::MAX && s@ == core_text(a, b, c)) by {
                    if a <= u64::MAX && s@ == core_text(a, b, c) {
                        lemma_core_text_shape(a, b, c);
                        let la = dec_repr(a).len() as int;
                        assert(i == la);
                        lemma_dec_repr_digits_ok(a);
                        lemma_dec_repr_val(a);
                    }
                }
            }
            return None;
        },
    };
    let minor = match parse_u64(s.substring_char(i + 1, j)) {
        Some(v) => v,
        None => {
            proof {
                assert forall|a: nat, b: nat, c: nat| !(a <= u64::MAX && b <= u64::MAX && c
                    <= u64::MAX && s@ == core_text(a, b, c)) by {
                    if b <= u64::MAX && s@ == core_text(a, b, c) {
                        lemma_core_text_shape(a, b, c);
                        let la = dec_repr(a).len() as int;
                        let lb = dec_repr(b).len() as int;
                        assert(i == la);
                        assert(j == la + 1 + lb);
                        lemma_dec_repr_digits_ok(b);
                        lemma_dec_repr_val(b);
                    }
                }
            }
            return None;
        },
    };
    let patch = match parse_u64(s.substring_char(j + 1, n)) {
        Some(v) => v,
        None => {
            proof {
                assert forall|a: nat, b: nat, c: nat| !(a <= u64::MAX && b <= u64::MAX && c
                    <= u64::MAX && s@ == core_text(a, b, c)) by {
                    if c <= u64::MAX && s@ == core_text(a, b, c) {
                        lemma_core_text_shape(a, b, c);
                        let la = dec_repr(a).len() as int;
                        let lb = dec_repr(b).len() as int;
                        assert(i == la);
                        assert(j == la + 1 + lb);
                        lemma_dec_repr_digits_ok(c);
                        lemma_dec_repr_val(c);
                    }
                }
            }
            return None;
        },
    };
    proof {
        lemma_dec_repr_canonical(s@.subrange(0, i as int));
        lemma_dec_repr_canonical(s@.subrange(i as int + 1, j as int));
        lemma_dec_repr_canonical(s@.subrange(j as int + 1, s@.len() as int));
        assert(s@ =~= s@.subrange(0, i as int) + seq!['.'] + s@.subrange(i as int + 1, j as int)
            + seq!['.'] + s@.subrange(j as int + 1, s@.len() as int));
    }
    Some((major, minor, patch))
}

impl Version {
    /// Parse a version. Succeeds exactly on the text of a valid version
    /// whose core components fit in `u64`, and then returns it.
    pub fn parse(s: &str) -> (r: Option<Version>)
        ensures
            r matches Some(v) ==> v.wf() && s@ == version_text_of(v),
            r is None ==> forall|a: nat, b: nat, c: nat, p: Option<Seq<char>>, bd: Option<
                Seq<char>,
            >| !(a <= u64::MAX && b <= u64::MAX && c <= u64::MAX && pre_opt_ok(p) && build_opt_ok(
                bd,
            ) && s@ == version_text(a, b, c, p, bd)),
    {
        let len = s.unicode_len();
        let plus = find_plus(s);
        let prefix_end = match plus {
            Some(i) => i,
            None => len,
        };
        let dash = find_dash(s, prefix_end);
        let core_end = match dash {
            Some(i) => i,
            None => prefix_end,
        };
        let core = match parse_core(s.substring_char(0, core_end)) {
            Some(t) => t,
            None => {
                proof {
                    assert forall|a: nat, b: nat, c: nat, p: Option<Seq<char>>, bd: Option<
                        Seq<char>,
                    >| !(a <= u64::MAX && b <= u64::MAX && c <= u64::MAX && pre_opt_ok(p)
                        && build_opt_ok(bd) && s@ == version_text(a, b, c, p, bd)) by {
                        if a <= u64::MAX && b <= u64::MAX && c <= u64::MAX && pre_opt_ok(p)
                            && build_opt_ok(bd) && s@ == version_text(a, b, c, p, bd) {
                            lemma_version_text_shape(a, b, c, p, bd);
                            lemma_split_positions(
                                s@,
                                a,
                                b,
                                c,
                                p,
                                bd,
                                prefix_end as int,
                                core_end as int,
                                plus is Some,
                                dash is Some,
                            );
                            assert(s@.subrange(0, core_end as int) =~= core_text(a, b, c));
                        }
                    }
                }
                return None;
            },
        };
        let pre: Option<String> = match dash {
            Some(d) => {
                let part = s.substring_char(d + 1, prefix_end);
                if check_idents(part, true) {
                    Some(String::from_str(part))
                } else {
                    proof {
                        assert forall|a: nat, b: nat, c: nat, p: Option<Seq<char>>, bd: Option<
                            Seq<char>,
                        >| !(a <= u64::MAX && b <= u64::MAX && c <= u64::MAX && pre_opt_ok(p)
                            && build_opt_ok(bd) && s@ == version_text(a, b, c, p, bd)) by {
                            if a <= u64::MAX && b <= u64::MAX && c <= u64::MAX && pre_opt_ok(p)
                                && build_opt_ok(bd) && s@ == version_text(a, b, c, p, bd) {
                                lemma_version_text_shape(a, b, c, p, bd);
                                lemma_split_positions(
                                    s@,
                                    a,
                                    b,
                                    c,
                                    p,
                                    bd,
                                    prefix_end as int,
                                    core_end as int,
                                    plus is Some,
                                    dash is Some,
                                );
                                assert(p matches Some(pp) && part@ =~= pp);
                            }
                        }
                    }
                    return None;
                }
            },
            None => None,
        };
        let build: Option<String> = match plus {
            Some(pp) => {
                let part = s.substring_char(pp + 1, len);
                if check_idents(part, false) {
                    Some(String::from_str(part))
                } else {
                    proof {
                        assert forall|a: nat, b: nat, c: nat, p: Option<Seq<char>>, bd: Option<
                            Seq<char>,
                        >| !(a <= u64::MAX && b <= u64::MAX && c <= u64::MAX && pre_opt_ok(p)
                            && build_opt_ok(bd) && s@ == version_text(a, b, c, p, bd)) by {
                            if a <= u64::MAX && b <= u64::MAX && c <= u64::MAX && pre_opt_ok(p)
                                && build_opt_ok(bd) && s@ == version_text(a, b, c, p, bd) {
                                lemma_version_text_shape(a, b, c, p, bd);
                                lemma_split_positions(
                                    s@,
                                    a,
                                    b,
                                    c,
                                    p,
                                    bd,
                                    prefix_end as int,
                                    core_end as int,
                                    plus is Some,
                                    dash is Some,
                                );
                                assert(bd matches Some(bb) && part@ =~= bb);
                            }
                        }
                    }
                    return None;
                }
            },
            None => None,
        };
        let v = Version { major: core.0, minor: core.1, patch: core.2, pre, build };
        proof {
            assert(s@ =~= version_text_of(v));
        }
        Some(v)
    }

    /// The text of this version.
    pub fn to_text(&self) -> (r: String)
        ensures
            r@ == version_text_of(*self),
    {
        proof {
            reveal_strlit(".");
            reveal_strlit("-");
            reveal_strlit("+");
            assert("."@ =~= seq!['.']);
            assert("-"@ =~= seq!['-']);
            assert("+"@ =~= seq!['+']);
        }
        let mut s = u64_to_text(self.major);
        s.append(".");
        let minor = u64_to_text(self.minor);
        s.append(minor.as_str());
        s.append(".");
        let patch = u64_to_text(self.patch);
        s.append(patch.as_str());
        match &self.pre {
            Some(p) => {
                s.append("-");
                s.append(p.as_str());
            },
            None => {},
        }
        match &self.build {
            Some(b) => {
                s.append("+");
                s.append(b.as_str());
            },
            None => {},
        }
        proof {
            assert(s@ =~= version_text_of(*self));
        }
        s
    }
}

/// In the text of a valid version, the splits the parser found are the
/// splits of the rendering: `prefix_end` is the start of the build part
/// (or the length), and `core_end` the end of the numeric core.
proof fn lemma_split_positions(
    s: Seq<char>,
    a: nat,
    b: nat,
    c: nat,
    p: Option<Seq<char>>,
    bd: Option<Seq<char>>,
    prefix_end: int,
    core_end: int,
    found_plus: bool,
    found_dash: bool,
)
    requires
        pre_opt_ok(p),
        build_opt_ok(bd),
        s == version_text(a, b, c, p, bd),
        found_plus ==> 0 <= prefix_end < s.len() && s[prefix_end] == '+' && forall|k: int| 0 <= k
            < prefix_end ==> s[k] != '+',
        !found_plus ==> prefix_end == s.len() && forall|k: int| 0 <= k < s.len() ==> s[k] != '+',
        found_dash ==> 0 <= core_end < prefix_end && s[core_end] == '-' && forall|k: int| 0 <= k
            < core_end ==> s[k] != '-',
        !found_dash ==> core_end == prefix_end && forall|k: int| 0 <= k < prefix_end ==> s[k]
            != '-',
    ensures
        core_end == core_text(a, b, c).len(),
        s.subrange(0, core_end) == core_text(a, b, c),
        p is Some <==> found_dash,
        bd is Some <==> found_plus,
        p matches Some(pp) ==> s.subrange(core_end + 1, prefix_end) == pp,
        bd matches Some(bb) ==> s.subrange(prefix_end + 1, s.len() as int) == bb,
{
    lemma_version_text_shape(a, b, c, p, bd);
    let cl = core_text(a, b, c).len() as int;
    let pe = cl + (match p {
        Some(pp) => 1 + pp.len() as int,
        None => 0,
    });
    // The first '+' pins the build split.
    assert(prefix_end == pe && (bd is Some <==> found_plus)) by {
        match bd {
            Some(bb) => {
                assert(s[pe] == '+');
                if found_plus {
                    if prefix_end < pe {
                        if prefix_end < cl {
                        } else {
                            assert(p is Some);
                        }
                    } else if pe < prefix_end {
                    }
                }
            },
            None => {
                assert(s.len() == pe);
                if found_plus {
                    assert(s[prefix_end] == '+');
                }
            },
        }
    }
    // The first '-' before the build part pins the pre-release split.
    assert(core_end == cl && (p is Some <==> found_dash)) by {
        match p {
            Some(pp) => {
                assert(s[cl] == '-');
                assert(cl < pe);
                if found_dash {
                    if core_end < cl {
                    } else if cl < core_end {
                    }
                } else {
                }
            },
            None => {
                assert(pe == cl);
                if found_dash {
                    assert(s[core_end] == '-');
                    assert(core_end < cl);
                }
            },
        }
    }
    assert(s.subrange(0, cl) == core_text(a, b, c));
}

/// ASCII-lexicographic strict order on character sequences: the first
/// differing character decides; a proper prefix comes first.
pub open spec fn lex_lt(x: Seq<char>, y: Seq<char>) -> bool
    decreases x.len(),
{
    if y.len() == 0 {
        false
    } else if x.len() == 0 {
        true
    } else if x[0] != y[0] {
        (x[0] as int) < (y[0] as int)
    } else {
        lex_lt(x.drop_first(), y.drop_first())
    }
}

/// Strict precedence order on single identifiers: two numeric identifiers
/// compare as numbers — for digit strings without leading zeros that is
/// by length, then lexicographically —, a numeric identifier comes before
/// an alphanumeric one, and two alphanumeric identifiers compare
/// lexicographically.
pub open spec fn ident_lt(x: Seq<char>, y: Seq<char>) -> bool {
    if all_digits(x) && all_digits(y) {
        x.len() < y.len() || (x.len() == y.len() && lex_lt(x, y))
    } else if all_digits(x) {
        true
    } else if all_digits(y) {
        false
    } else {
        lex_lt(x, y)
    }
}

/// Strict precedence order on pre-release tags: identifiers compare left
/// to right; when all shared identifiers are equal, the shorter tag comes
/// first.
pub open spec fn pre_lt(x: Seq<char>, y: Seq<char>) -> bool
    decreases x.len(),
{
    let ix = first_dot(x);
    let iy = first_dot(y);
    if 0 <= ix <= x.len() && 0 <= iy <= y.len() {
        let wx = x.take(ix);
        let wy = y.take(iy);
        if wx != wy {
            ident_lt(wx, wy)
        } else if ix == x.len() {
            iy < y.len()
        } else if iy == y.len() {
            false
        } else {
            pre_lt(x.skip(ix + 1), y.skip(iy + 1))
        }
    } else {
        false
    }
}

/// With equal lengths, the lexicographic order of two digit strings is
/// the order of their values.
proof fn lemma_lex_val(x: Seq<char>, y: Seq<char>)
    requires
        all_digits(x),
        all_digits(y),
        x.len() == y.len(),
        lex_lt(x, y),
    ensures
        dec_val(x) < dec_val(y),
    decreases x.len(),
{
    crate::decimal::lemma_dec_val_first(x);
    crate::decimal::lemma_dec_val_first(y);
    let p = crate::decimal::pow10((x.len() - 1) as nat);
    if x[0] == y[0] {
        assert(forall|i: int| 0 <= i < x.drop_first().len() ==> x.drop_first()[i] == x[i + 1]);
        assert(forall|i: int| 0 <= i < y.drop_first().len() ==> y.drop_first()[i] == y[i + 1]);
        lemma_lex_val(x.drop_first(), y.drop_first());
    } else {
        let dx = crate::decimal::digit_value(x[0]);
        let dy = crate::decimal::digit_value(y[0]);
        assert(dx < dy);
        assert(forall|i: int| 0 <= i < x.drop_first().len() ==> x.drop_first()[i] == x[i + 1]);
        crate::decimal::lemma_dec_val_upper(x.drop_first());
        assert(dec_val(x.drop_first()) < p);
        assert(dx * p + p <= dy * p) by (nonlinear_arith)
            requires
                dx < dy,
                p >= 0,
        ;
    }
}

/// Two distinct strings of equal length are lexicographically ordered one
/// way or the other.
proof fn lemma_lex_total(x: Seq<char>, y: Seq<char>)
    requires
        x.len() == y.len(),
        x != y,
    ensures
        lex_lt(x, y) || lex_lt(y, x),
    decreases x.len(),
{
    if x.len() == 0 {
        assert(x =~= y);
    } else if x[0] == y[0] {
        if x.drop_first() == y.drop_first() {
            assert forall|k: int| 0 <= k < x.len() implies x[k] == y[k] by {
                if k >= 1 {
                    assert(x.drop_first()[k - 1] == y.drop_first()[k - 1]);
                }
            }
            assert(x =~= y);
        }
        lemma_lex_total(x.drop_first(), y.drop_first());
    }
}

/// Law: on well-formed digit strings the identifier order is exactly the
/// numeric order of their values, as SemVer asks of numeric identifiers.
pub proof fn lemma_numeric_ident_order(x: Seq<char>, y: Seq<char>)
    requires
        digits_ok(x),
        digits_ok(y),
    ensures
        ident_lt(x, y) <==> dec_val(x) < dec_val(y),
{
    assert(all_digits(x) && all_digits(y));
    if x.len() < y.len() {
        lemma_shorter_digit_string_smaller(x, y);
    } else if y.len() < x.len() {
        lemma_shorter_digit_string_smaller(y, x);
    } else {
        if lex_lt(x, y) {
            lemma_lex_val(x, y);
        } else if x == y {
        } else {
            lemma_lex_total(x, y);
            lemma_lex_val(y, x);
            lemma_lex_lt_asym(y, x);
        }
    }
}

/// A shorter well-formed digit string has the smaller value.
proof fn lemma_shorter_digit_string_smaller(x: Seq<char>, y: Seq<char>)
    requires
        digits_ok(x),
        digits_ok(y),
        x.len() < y.len(),
    ensures
        dec_val(x) < dec_val(y),
{
    crate::decimal::lemma_dec_val_upper(x);
    crate::decimal::lemma_dec_val_lower(y);
    crate::decimal::lemma_pow10_mono(x.len() as nat, (y.len() - 1) as nat);
}

/// Lexicographic order is irreflexive.
proof fn lemma_lex_lt_irrefl(x: Seq<char>)
    ensures
        !lex_lt(x, x),
    decreases x.len(),
{
    if x.len() > 0 {
        lemma_lex_lt_irrefl(x.drop_first());
    }
}

/// Lexicographic order is transitive.
proof fn lemma_lex_lt_trans(x: Seq<char>, y: Seq<char>, z: Seq<char>)
    requires
        lex_lt(x, y),
        lex_lt(y, z),
    ensures
        lex_lt(x, z),
    decreases x.len(),
{
    if x.len() > 0 && y.len() > 0 && z.len() > 0 && x[0] == y[0] && y[0] == z[0] {
        lemma_lex_lt_trans(x.drop_first(), y.drop_first(), z.drop_first());
    }
}

/// Lexicographic order is asymmetric.
proof fn lemma_lex_lt_asym(x: Seq<char>, y: Seq<char>)
    requires
        lex_lt(x, y),
    ensures
        !lex_lt(y, x),
    decreases x.len(),
{
    if x.len() > 0 && y.len() > 0 && x[0] == y[0] {
        lemma_lex_lt_asym(x.drop_first(), y.drop_first());
    }
}

/// Identifier order is transitive.
proof fn lemma_ident_lt_trans(x: Seq<char>, y: Seq<char>, z: Seq<char>)
    requires
        ident_lt(x, y),
        ident_lt(y, z),
    ensures
        ident_lt(x, z),
{
    if all_digits(x) && all_digits(y) && all_digits(z) {
        if x.len() == y.len() && y.len() == z.len() {
            lemma_lex_lt_trans(x, y, z);
        }
    } else if !all_digits(x) && !all_digits(y) && !all_digits(z) {
        lemma_lex_lt_trans(x, y, z);
    }
}

/// Identifier order is asymmetric.
proof fn lemma_ident_lt_asym(x: Seq<char>, y: Seq<char>)
    requires
        ident_lt(x, y),
    ensures
        !ident_lt(y, x),
{
    if all_digits(x) && all_digits(y) {
        if x.len() == y.len() {
            lemma_lex_lt_asym(x, y);
        }
    } else if !all_digits(x) && !all_digits(y) {
        lemma_lex_lt_asym(x, y);
    }
}

/// Pre-release order is irreflexive.
proof fn lemma_pre_lt_irrefl(x: Seq<char>)
    ensures
        !pre_lt(x, x),
    decreases x.len(),
{
    lemma_first_dot(x);
    let ix = first_dot(x);
    if 0 <= ix < x.len() {
        lemma_pre_lt_irrefl(x.skip(ix + 1));
    }
}

/// Pre-release order is transitive.
proof fn lemma_pre_lt_trans(x: Seq<char>, y: Seq<char>, z: Seq<char>)
    requires
        pre_lt(x, y),
        pre_lt(y, z),
    ensures
        pre_lt(x, z),
    decreases x.len(),
{
    lemma_first_dot(x);
    lemma_first_dot(y);
    lemma_first_dot(z);
    let ix = first_dot(x);
    let iy = first_dot(y);
    let iz = first_dot(z);
    let wx = x.take(ix);
    let wy = y.take(iy);
    let wz = z.take(iz);
    if wx == wy {
        if wy == wz {
            if ix == x.len() {
            } else {
                lemma_pre_lt_trans(x.skip(ix + 1), y.skip(iy + 1), z.skip(iz + 1));
            }
        } else {
        }
    } else {
        if wy == wz {
        } else {
            if wx == wz {
                lemma_ident_lt_asym(wx, wy);
                assert(false);
            } else {
                lemma_ident_lt_trans(wx, wy, wz);
            }
        }
    }
}

/// Law: precedence is a strict order — never reflexive, and transitive.
pub proof fn lemma_version_lt_strict(x: Version, y: Version, z: Version)
    ensures
        !version_lt(x, x),
        version_lt(x, y) && version_lt(y, z) ==> version_lt(x, z),
{
    match x.pre_view() {
        Some(p) => lemma_pre_lt_irrefl(p),
        None => {},
    }
    if version_lt(x, y) && version_lt(y, z) {
        match (x.pre_view(), y.pre_view(), z.pre_view()) {
            (Some(p), Some(q), Some(w)) => {
                if pre_lt(p, q) && pre_lt(q, w) {
                    lemma_pre_lt_trans(p, q, w);
                }
            },
            _ => {},
        }
    }
}

/// Strict precedence order on versions: the numeric core decides first;
/// with equal cores, a version with a pre-release tag comes before one
/// without, and two tags compare by `pre_lt`. Build metadata never
/// affects precedence.
pub open spec fn version_lt(x: Version, y: Version) -> bool {
    ||| x.major < y.major
    ||| (x.major == y.major && x.minor < y.minor)
    ||| (x.major == y.major && x.minor == y.minor && x.patch < y.patch)
    ||| (x.major == y.major && x.minor == y.minor && x.patch == y.patch && (match (
        x.pre_view(),
        y.pre_view(),
    ) {
        (Some(p), None) => true,
        (Some(p), Some(q)) => pre_lt(p, q),
        _ => false,
    }))
}

/// Two versions carry the same value: equal cores, tags and metadata.
pub open spec fn version_eq(x: Version, y: Version) -> bool {
    &&& x.major == y.major
    &&& x.minor == y.minor
    &&& x.patch == y.patch
    &&& x.pre_view() == y.pre_view()
    &&& x.build_view() == y.build_view()
}

/// Versions with the same value have the same text.
pub proof fn lemma_version_eq_text(x: Version, y: Version)
    requires
        version_eq(x, y),
    ensures
        version_text_of(x) == version_text_of(y),
        x.wf() == y.wf(),
{
}

/// Two versions have equal precedence: equal cores and tags; build
/// metadata is ignored.
pub open spec fn precedence_eq(x: Version, y: Version) -> bool {
    &&& x.major == y.major
    &&& x.minor == y.minor
    &&& x.patch == y.patch
    &&& x.pre_view() == y.pre_view()
}

/// Decide `lex_lt` exactly.
fn check_lex_lt(x: &str, y: &str) -> (r: bool)
    ensures
        r == lex_lt(x@, y@),
    decreases x@.len(),
{
    let xl = x.unicode_len();
    let yl = y.unicode_len();
    if yl == 0 {
        false
    } else if xl == 0 {
        true
    } else {
        let cx = x.get_char(0);
        let cy = y.get_char(0);
        if cx != cy {
            (cx as u32) < (cy as u32)
        } else {
            let xr = x.substring_char(1, xl);
            let yr = y.substring_char(1, yl);
            proof {
                assert(xr@ =~= x@.drop_first());
                assert(yr@ =~= y@.drop_first());
            }
            check_lex_lt(xr, yr)
        }
    }
}

/// Decide `all_digits` exactly.
fn check_all_digits(s: &str) -> (r: bool)
    ensures
        r == all_digits(s@),
{
    let len = s.unicode_len();
    let mut i: usize = 0;
    while i < len
        invariant
            0 <= i <= len == s@.len(),
            forall|k: int| 0 <= k < i ==> is_digit(#[trigger] s@[k]),
        decreases len - i,
    {
        let c = s.get_char(i);
        if !('0' <= c && c <= '9') {
            return false;
        }
        i = i + 1;
    }
    true
}

/// Decide `ident_lt` exactly.
fn check_ident_lt(x: &str, y: &str) -> (r: bool)
    ensures
        r == ident_lt(x@, y@),
{
    let dx = check_all_digits(x);
    let dy = check_all_digits(y);
    if dx && dy {
        let xl = x.unicode_len();
        let yl = y.unicode_len();
        xl < yl || (xl == yl && check_lex_lt(x, y))
    } else if dx {
        true
    } else if dy {
        false
    } else {
        check_lex_lt(x, y)
    }
}

/// Decide `pre_lt` exactly.
fn check_pre_lt(x: &str, y: &str) -> (r: bool)
    ensures
        r == pre_lt(x@, y@),
    decreases x@.len(),
{
    proof {
        lemma_first_dot(x@);
        lemma_first_dot(y@);
    }
    let xl = x.unicode_len();
    let yl = y.unicode_len();
    let ix = match find_dot(x, 0) {
        Some(i) => i,
        None => xl,
    };
    let iy = match find_dot(y, 0) {
        Some(i) => i,
        None => yl,
    };
    proof {
        assert(ix as int == first_dot(x@)) by {
            let fd = first_dot(x@);
            if fd < ix as int {
                assert(x@[fd] == '.');
            } else if (ix as int) < fd {
                assert(x@[ix as int] != '.');
            }
        }
        assert(iy as int == first_dot(y@)) by {
            let fd = first_dot(y@);
            if fd < iy as int {
                assert(y@[fd] == '.');
            } else if (iy as int) < fd {
                assert(y@[iy as int] != '.');
            }
        }
    }
    let wx = x.substring_char(0, ix);
    let wy = y.substring_char(0, iy);
    proof {
        assert(wx@ =~= x@.take(ix as int));
        assert(wy@ =~= y@.take(iy as int));
    }
    if !crate::text::str_eq(wx, wy) {
        check_ident_lt(wx, wy)
    } else if ix == xl {
        iy < yl
    } else if iy == yl {
        false
    } else {
        let xr = x.substring_char(ix + 1, xl);
        let yr = y.substring_char(iy + 1, yl);
        proof {
            assert(xr@ =~= x@.skip(ix as int + 1));
            assert(yr@ =~= y@.skip(iy as int + 1));
        }
        check_pre_lt(xr, yr)
    }
}

impl Version {
    /// Strictly before `other` in precedence.
    pub fn lt(&self, other: &Version) -> (r: bool)
        ensures
            r == version_lt(*self, *other),
    {
        if self.major != other.major {
            return self.major < other.major;
        }
        if self.minor != other.minor {
            return self.minor < other.minor;
        }
        if self.patch != other.patch {
            return self.patch < other.patch;
        }
        match (&self.pre, &other.pre) {
            (Some(p), None) => true,
            (Some(p), Some(q)) => check_pre_lt(p.as_str(), q.as_str()),
            _ => false,
        }
    }

    /// Whether `other` carries the same value.
    pub fn same(&self, other: &Version) -> (r: bool)
        ensures
            r == version_eq(*self, *other),
    {
        self.major == other.major && self.minor == other.minor && self.patch == other.patch
            && opt_str_eq(&self.pre, &other.pre) && opt_str_eq(&self.build, &other.build)
    }

    /// Decide well-formedness exactly.
    pub fn check_wf(&self) -> (r: bool)
        ensures
            r == self.wf(),
    {
        let pre_ok = match &self.pre {
            Some(p) => check_idents(p.as_str(), true),
            None => true,
        };
        let build_ok = match &self.build {
            Some(b) => check_idents(b.as_str(), false),
            None => true,
        };
        pre_ok && build_ok
    }

    /// An owned copy with the same value.
    pub fn duplicate(&self) -> (r: Version)
        ensures
            version_eq(r, *self),
            self.wf() ==> r.wf(),
    {
        Version {
            major: self.major,
            minor: self.minor,
            patch: self.patch,
            pre: match &self.pre {
                Some(p) => Some(String::from_str(p.as_str())),
                None => None,
            },
            build: match &self.build {
                Some(b) => Some(String::from_str(b.as_str())),
                None => None,
            },
        }
    }
}

/// Compare two optional strings by their characters.
fn opt_str_eq(x: &Option<String>, y: &Option<String>) -> (r: bool)
    ensures
        r == (match (x, y) {
            (Some(a), Some(b)) => a@ == b@,
            (None, None) => true,
            _ => false,
        }),
{
    match (x, y) {
        (Some(a), Some(b)) => crate::text::str_eq(a.as_str(), b.as_str()),
        (None, None) => true,
        _ => false,
    }
}

/// The comparison a version requirement applies.
#[derive(Debug, Clone, Copy, PartialEq, Eq, Hash, Structural)]
pub enum ReqOp {
    /// Equal precedence to the named version.
    Exact,
    /// Strictly above the named version.
    Greater,
    /// At or above the named version.
    GreaterEq,
    /// Strictly below the named version.
    Less,
    /// At or below the named version.
    LessEq,
}

/// A version requirement: one comparison against a named version, written
/// `>=1.0.0`, `<=1.0.0`, `>1.0.0`, `<1.0.0`, `=1.0.0` or bare `1.0.0`.
/// Range comparators of richer grammars (caret, tilde, wildcards, lists)
/// are not part of this grammar.
#[derive(Debug, Clone, PartialEq, Eq, Hash)]
pub struct VersionReq {
    /// The comparison.
    pub op: ReqOp,
    /// The version compared against.
    pub version: Version,
}

/// The operator characters of a requirement's text.
pub open spec fn op_chars(op: ReqOp) -> Seq<char> {
    match op {
        ReqOp::Exact => seq!['='],
        ReqOp::Greater => seq!['>'],
        ReqOp::GreaterEq => seq!['>', '='],
        ReqOp::Less => seq!['<'],
        ReqOp::LessEq => seq!['<', '='],
    }
}

/// The text of a requirement: the operator before the version's text.
pub open spec fn req_text(op: ReqOp, v: Version) -> Seq<char> {
    op_chars(op) + version_text_of(v)
}

/// Whether version `v` satisfies the requirement. Comparisons go by
/// precedence, so build metadata never matters.
pub open spec fn req_matches(q: VersionReq, v: Version) -> bool {
    match q.op {
        ReqOp::Exact => precedence_eq(v, q.version),
        ReqOp::Greater => version_lt(q.version, v),
        ReqOp::GreaterEq => !version_lt(v, q.version),
        ReqOp::Less => version_lt(v, q.version),
        ReqOp::LessEq => !version_lt(q.version, v),
    }
}

impl VersionReq {
    /// Parse a requirement. Succeeds exactly on an optional operator
    /// followed by the text of a valid version; no operator means an
    /// exact match.
    #[verifier::rlimit(100)]
    pub fn parse(s: &str) -> (r: Option<VersionReq>)
        ensures
            r matches Some(q) ==> q.version.wf() && (s@ == req_text(q.op, q.version) || (q.op
                == ReqOp::Exact && s@ == version_text_of(q.version))),
            r is None ==> forall|op: ReqOp, v: Version|
                v.wf() ==> s@ != req_text(op, v) && s@ != version_text_of(v),
    {
        let len = s.unicode_len();
        if len == 0 {
            proof {
                assert forall|op: ReqOp, v: Version| v.wf() implies s@ != req_text(op, v) && s@
                    != version_text_of(v) by {
                    lemma_version_text_shape(
                        v.major as nat,
                        v.minor as nat,
                        v.patch as nat,
                        v.pre_view(),
                        v.build_view(),
                    );
                }
            }
            return None;
        }
        let c0 = s.get_char(0);
        let (op, start): (ReqOp, usize) = if c0 == '>' {
            if len >= 2 && s.get_char(1) == '=' {
                (ReqOp::GreaterEq, 2)
            } else {
                (ReqOp::Greater, 1)
            }
        } else if c0 == '<' {
            if len >= 2 && s.get_char(1) == '=' {
                (ReqOp::LessEq, 2)
            } else {
                (ReqOp::Less, 1)
            }
        } else if c0 == '=' {
            (ReqOp::Exact, 1)
        } else {
            (ReqOp::Exact, 0)
        };
        if start >= len {
            proof {
                assert forall|op2: ReqOp, v: Version| v.wf() implies s@ != req_text(op2, v) && s@
                    != version_text_of(v) by {
                    lemma_version_text_shape(
                        v.major as nat,
                        v.minor as nat,
                        v.patch as nat,
                        v.pre_view(),
                        v.build_view(),
                    );
                    let vt = version_text_of(v);
                    if s@ == req_text(op2, v) {
                        assert(s@[op_chars(op2).len() as int] == vt[0]);
                        assert(is_digit(vt[0]));
                    }
                    if s@ == vt {
                        assert(is_digit(s@[0]));
                    }
                }
            }
            return None;
        }
        match Version::parse(s.substring_char(start, len)) {
            Some(version) => {
                proof {
                    let sub = s@.subrange(start as int, len as int);
                    if start == 0 {
                        assert(s@ =~= sub);
                    } else {
                        assert(s@ =~= s@.subrange(0, start as int) + sub);
                        assert(s@.subrange(0, start as int) =~= op_chars(op));
                    }
                }
                Some(VersionReq { op, version })
            },
            None => {
                proof {
                    assert forall|op2: ReqOp, v: Version| v.wf() implies s@ != req_text(op2, v)
                        && s@ != version_text_of(v) by {
                        lemma_version_text_shape(
                            v.major as nat,
                            v.minor as nat,
                            v.patch as nat,
                            v.pre_view(),
                            v.build_view(),
                        );
                        let vt = version_text_of(v);
                        if s@ == vt {
                            assert(is_digit(s@[0]));
                            assert(start == 0);
                            assert(s@.subrange(start as int, len as int) =~= vt);
                        }
                        if s@ == req_text(op2, v) {
                            let oc = op_chars(op2);
                            assert(s@[0] == oc[0]);
                            assert(forall|k: int| 0 <= k < vt.len() ==> s@[oc.len() as int + k]
                                == vt[k]);
                            assert(is_digit(vt[0]));
                            assert(start as int == oc.len()) by {
                                if oc.len() == 1 {
                                    assert(s@[1] == vt[0]);
                                } else {
                                    assert(s@[1] == oc[1]);
                                }
                            }
                            assert(s@.subrange(start as int, len as int) =~= vt);
                        }
                    }
                }
                None
            },
        }
    }

    /// The text of this requirement: the operator before the version.
    pub fn to_text(&self) -> (r: String)
        ensures
            r@ == req_text(self.op, self.version),
    {
        let op = match self.op {
            ReqOp::Exact => "=",
            ReqOp::Greater => ">",
            ReqOp::GreaterEq => ">=",
            ReqOp::Less => "<",
            ReqOp::LessEq => "<=",
        };
        proof {
            reveal_strlit("=");
            reveal_strlit(">");
            reveal_strlit(">=");
            reveal_strlit("<");
            reveal_strlit("<=");
            assert(op@ =~= op_chars(self.op));
        }
        let mut s = String::from_str(op);
        let version = self.version.to_text();
        s.append(version.as_str());
        s
    }

    /// Whether `v` satisfies this requirement.
    pub fn matches(&self, v: &Version) -> (r: bool)
        ensures
            r == req_matches(*self, *v),
    {
        match self.op {
            ReqOp::Exact => v.major == self.version.major && v.minor == self.version.minor
                && v.patch == self.version.patch && opt_str_eq(&v.pre, &self.version.pre),
            ReqOp::Greater => self.version.lt(v),
            ReqOp::GreaterEq => !v.lt(&self.version),
            ReqOp::Less => v.lt(&self.version),
            ReqOp::LessEq => !self.version.lt(v),
        }
    }
}

/// Two valid requirements with the same text apply the same comparison to
/// the same version.
#[verifier::rlimit(100)]
pub proof fn lemma_req_text_unique(op1: ReqOp, v1: Version, op2: ReqOp, v2: Version)
    requires
        v1.wf(),
        v2.wf(),
        req_text(op1, v1) == req_text(op2, v2),
    ensures
        op1 == op2,
        version_eq(v1, v2),
{
    lemma_version_text_shape(v1.major as nat, v1.minor as nat, v1.patch as nat, v1.pre_view(), v1.build_view());
    lemma_version_text_shape(v2.major as nat, v2.minor as nat, v2.patch as nat, v2.pre_view(), v2.build_view());
    let s = req_text(op1, v1);
    let oc1 = op_chars(op1);
    let oc2 = op_chars(op2);
    let vt1 = version_text_of(v1);
    let vt2 = version_text_of(v2);
    assert(s[0] == oc1[0] && s[0] == oc2[0]);
    assert(oc1.len() == oc2.len()) by {
        if oc1.len() < oc2.len() {
            assert(s[1] == vt1[0]);
            assert(is_digit(vt1[0]));
            assert(s[1] == oc2[1]);
        } else if oc2.len() < oc1.len() {
            assert(s[1] == vt2[0]);
            assert(is_digit(vt2[0]));
            assert(s[1] == oc1[1]);
        }
    }
    assert(op1 == op2);
    assert(vt1 =~= s.subrange(oc1.len() as int, s.len() as int));
    assert(vt2 =~= s.subrange(oc1.len() as int, s.len() as int));
    lemma_version_text_unique(
        v1.major as nat,
        v1.minor as nat,
        v1.patch as nat,
        v1.pre_view(),
        v1.build_view(),
        v2.major as nat,
        v2.minor as nat,
        v2.patch as nat,
        v2.pre_view(),
        v2.build_view(),
    );
}

/// Parsing the printed text of a requirement gives the requirement back:
/// with `r` any value meeting the parser's contract on `req_text(q.op,
/// q.version)`, `r` names the same comparison against the same version.
pub proof fn lemma_req_roundtrip(q: VersionReq, r: Option<VersionReq>)
    requires
        q.version.wf(),
        ({
            let s = req_text(q.op, q.version);
            &&& (r matches Some(w) ==> w.version.wf() && (s == req_text(w.op, w.version) || (w.op
                == ReqOp::Exact && s == version_text_of(w.version))))
            &&& (r is None ==> forall|op: ReqOp, v: Version|
                v.wf() ==> s != req_text(op, v) && s != version_text_of(v))
        }),
    ensures
        r is Some,
        r matches Some(w) ==> w.op == q.op && version_eq(w.version, q.version),
{
    let s = req_text(q.op, q.version);
    lemma_version_text_shape(
        q.version.major as nat,
        q.version.minor as nat,
        q.version.patch as nat,
        q.version.pre_view(),
        q.version.build_view(),
    );
    match r {
        Some(w) => {
            lemma_version_text_shape(
                w.version.major as nat,
                w.version.minor as nat,
                w.version.patch as nat,
                w.version.pre_view(),
                w.version.build_view(),
            );
            if w.op == ReqOp::Exact && s == version_text_of(w.version) {
                // The text of a requirement starts with an operator
                // character, never with a digit.
                let vt = version_text_of(w.version);
                assert(s[0] == op_chars(q.op)[0]);
                assert(is_digit(vt[0]));
                assert(false);
            } else {
                lemma_req_text_unique(q.op, q.version, w.op, w.version);
            }
        },
        None => {
            assert(s == req_text(q.op, q.version));
            assert(false);
        },
    }
}

/// Parsing the printed text of a valid version gives the version back:
/// with `r` any value meeting the parser's contract on
/// `version_text_of(v)`, `r` carries the same value.
pub proof fn lemma_version_roundtrip(v: Version, r: Option<Version>)
    requires
        v.wf(),
        ({
            let s = version_text_of(v);
            &&& (r matches Some(w) ==> w.wf() && s == version_text_of(w))
            &&& (r is None ==> forall|a: nat, b: nat, c: nat, p: Option<Seq<char>>, bd: Option<
                Seq<char>,
            >| !(a <= u64::MAX && b <= u64::MAX && c <= u64::MAX && pre_opt_ok(p) && build_opt_ok(
                bd,
            ) && s == version_text(a, b, c, p, bd)))
        }),
    ensures
        r is Some,
        r matches Some(w) ==> version_eq(w, v),
{
    let s = version_text_of(v);
    match r {
        Some(w) => {
            lemma_version_text_unique(
                v.major as nat,
                v.minor as nat,
                v.patch as nat,
                v.pre_view(),
                v.build_view(),
                w.major as nat,
                w.minor as nat,
                w.patch as nat,
                w.pre_view(),
                w.build_view(),
            );
        },
        None => {
            assert(s == version_text(
                v.major as nat,
                v.minor as nat,
                v.patch as nat,
                v.pre_view(),
                v.build_view(),
            ));
            assert(false);
        },
    }
}

} // verus!
