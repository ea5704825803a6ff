//! Mount declarations of a manifest: mount kinds, mount options, tmpfs
//! sizes with decimal suffixes, and the overlap relation on target paths.

use vstd::prelude::*;
use crate::decimal::{dec_val, digits_ok, parse_u64};
use crate::name::Name;
use crate::text::str_eq;
use crate::version::VersionReq;

verus! {

/// One mount option.
#[derive(Debug, Clone, Copy, PartialEq, Eq, Hash, Structural)]
pub enum MountOption {
    /// Mount read-write; mounts are read-only by default.
    Rw,
    /// Mount with `noexec`.
    NoExec,
    /// Mount with `nosuid`.
    NoSuid,
    /// Mount with `nodev`.
    NoDev,
    /// Bind recursively.
    Rec,
}

/// The set of options of a bind or resource mount.
#[derive(Debug, Clone, Copy, PartialEq, Eq, Hash, Structural)]
pub struct MountOptions {
    /// Read-write requested.
    pub rw: bool,
    /// `noexec` requested.
    pub noexec: bool,
    /// `nosuid` requested.
    pub nosuid: bool,
    /// `nodev` requested.
    pub nodev: bool,
    /// Recursive bind requested.
    pub rec: bool,
}

impl Default for MountOptions {
    /// No option set.
    fn default() -> (r: MountOptions)
        ensures
            r == MountOptions::none(),
    {
        MountOptions { rw: false, noexec: false, nosuid: false, nodev: false, rec: false }
    }
}

impl MountOptions {
    /// The empty option set.
    pub open spec fn none() -> MountOptions {
        MountOptions { rw: false, noexec: false, nosuid: false, nodev: false, rec: false }
    }

    /// The set with one more option.
    pub open spec fn with(self, o: MountOption) -> MountOptions {
        match o {
            MountOption::Rw => MountOptions { rw: true, ..self },
            MountOption::NoExec => MountOptions { noexec: true, ..self },
            MountOption::NoSuid => MountOptions { nosuid: true, ..self },
            MountOption::NoDev => MountOptions { nodev: true, ..self },
            MountOption::Rec => MountOptions { rec: true, ..self },
        }
    }

    /// Add one option.
    pub fn set(&mut self, o: MountOption)
        ensures
            *final(self) == old(self).with(o),
    {
        match o {
            MountOption::Rw => self.rw = true,
            MountOption::NoExec => self.noexec = true,
            MountOption::NoSuid => self.nosuid = true,
            MountOption::NoDev => self.nodev = true,
            MountOption::Rec => self.rec = true,
        }
    }
}

/// The words of an option set, in a fixed order.
pub open spec fn options_words(o: MountOptions) -> Seq<Seq<char>> {
    let ws = Seq::<Seq<char>>::empty();
    let ws = if o.rw {
        ws.push("rw"@)
    } else {
        ws
    };
    let ws = if o.noexec {
        ws.push("noexec"@)
    } else {
        ws
    };
    let ws = if o.nosuid {
        ws.push("nosuid"@)
    } else {
        ws
    };
    let ws = if o.nodev {
        ws.push("nodev"@)
    } else {
        ws
    };
    if o.rec {
        ws.push("rec"@)
    } else {
        ws
    }
}

/// Words joined by commas.
pub open spec fn join_commas(ws: Seq<Seq<char>>) -> Seq<char>
    decreases ws.len(),
{
    if ws.len() == 0 {
        Seq::<char>::empty()
    } else if ws.len() == 1 {
        ws[0]
    } else {
        ws[0] + seq![','] + join_commas(ws.drop_first())
    }
}

/// One more word at the end joins with one more comma.
proof fn lemma_join_commas_push(ws: Seq<Seq<char>>, w: Seq<char>)
    ensures
        join_commas(ws.push(w)) == if ws.len() == 0 {
            w
        } else {
            join_commas(ws) + seq![','] + w
        },
    decreases ws.len(),
{
    let pushed = ws.push(w);
    if ws.len() == 0 {
        assert(pushed.len() == 1);
        assert(pushed[0] == w);
    } else {
        lemma_join_commas_push(ws.drop_first(), w);
        assert(pushed.drop_first() =~= ws.drop_first().push(w));
        assert(pushed[0] == ws[0]);
        if ws.len() == 1 {
            assert(join_commas(pushed) == ws[0] + seq![','] + w);
        } else {
            assert(ws[0] + seq![','] + (join_commas(ws.drop_first()) + seq![','] + w) =~= (ws[0]
                + seq![','] + join_commas(ws.drop_first())) + seq![','] + w);
        }
    }
}

impl MountOptions {
    /// The text of the option set: its words joined by commas, the empty
    /// string for no option.
    pub fn to_text(&self) -> (r: String)
        ensures
            r@ == join_commas(options_words(*self)),
    {
        proof {
            reveal_strlit(",");
            assert(","@ =~= seq![',']);
        }
        let ghost mut words: Seq<Seq<char>> = Seq::empty();
        let mut s = String::new();
        let mut first: bool = true;
        if self.rw {
            proof {
                lemma_join_commas_push(words, "rw"@);
            }
            if !first {
                s.append(",");
            }
            s.append("rw");
            first = false;
            proof {
                words = words.push("rw"@);
            }
        }
        if self.noexec {
            proof {
                lemma_join_commas_push(words, "noexec"@);
            }
            if !first {
                s.append(",");
            }
            s.append("noexec");
            first = false;
            proof {
                words = words.push("noexec"@);
            }
        }
        if self.nosuid {
            proof {
                lemma_join_commas_push(words, "nosuid"@);
            }
            if !first {
                s.append(",");
            }
            s.append("nosuid");
            first = false;
            proof {
                words = words.push("nosuid"@);
            }
        }
        if self.nodev {
            proof {
                lemma_join_commas_push(words, "nodev"@);
            }
            if !first {
                s.append(",");
            }
            s.append("nodev");
            first = false;
            proof {
                words = words.push("nodev"@);
            }
        }
        if self.rec {
            proof {
                lemma_join_commas_push(words, "rec"@);
            }
            if !first {
                s.append(",");
            }
            s.append("rec");
            proof {
                words = words.push("rec"@);
            }
        }
        proof {
            assert(words =~= options_words(*self));
        }
        s
    }
}

/// A word fit for an option list: non-empty, comma-free, and naming an
/// option.
pub open spec fn word_ok(w: Seq<char>) -> bool {
    &&& w.len() > 0
    &&& forall|k: int| 0 <= k < w.len() ==> w[k] != ','
    &&& option_of_word(w) is Some
}

/// The option set a word list denotes.
pub open spec fn combine_words(ws: Seq<Seq<char>>) -> MountOptions
    decreases ws.len(),
{
    if ws.len() == 0 {
        MountOptions::none()
    } else {
        combine_words(ws.drop_first()).with(option_of_word(ws[0])->0)
    }
}

/// Setting two options commutes.
proof fn lemma_with_commutes(x: MountOptions, a: MountOption, b: MountOption)
    ensures
        x.with(a).with(b) == x.with(b).with(a),
{
}

/// One more word at the end sets one more option.
proof fn lemma_combine_words_push(ws: Seq<Seq<char>>, w: Seq<char>)
    requires
        option_of_word(w) is Some,
    ensures
        combine_words(ws.push(w)) == combine_words(ws).with(option_of_word(w)->0),
    decreases ws.len(),
{
    let pushed = ws.push(w);
    if ws.len() == 0 {
        assert(pushed.drop_first() =~= Seq::<Seq<char>>::empty());
        assert(pushed[0] == w);
        assert(combine_words(Seq::<Seq<char>>::empty()) == MountOptions::none());
        assert(combine_words(pushed) == MountOptions::none().with(option_of_word(w)->0));
    } else {
        assert(pushed.drop_first() =~= ws.drop_first().push(w));
        assert(pushed[0] == ws[0]);
        lemma_combine_words_push(ws.drop_first(), w);
        lemma_with_commutes(
            combine_words(ws.drop_first()),
            option_of_word(w)->0,
            option_of_word(ws[0])->0,
        );
    }
}

/// Parsing a comma-joined list of fit words gives the set of the options
/// they name.
proof fn lemma_parse_join(ws: Seq<Seq<char>>)
    requires
        forall|i: int| 0 <= i < ws.len() ==> word_ok(#[trigger] ws[i]),
    ensures
        parse_options_spec(join_commas(ws)) == Some(combine_words(ws)),
    decreases ws.len(),
{
    let s = join_commas(ws);
    lemma_first_comma(s);
    let fc = first_comma(s);
    if ws.len() == 0 {
        assert(s.len() == 0);
    } else if ws.len() == 1 {
        assert(s == ws[0]);
        assert(word_ok(ws[0]));
        if fc < s.len() {
            assert(s[fc] == ',');
            assert(false);
        }
        assert(ws.drop_first() =~= Seq::<Seq<char>>::empty());
        assert(combine_words(Seq::<Seq<char>>::empty()) == MountOptions::none());
        assert(combine_words(ws) == MountOptions::none().with(option_of_word(ws[0])->0));
    } else {
        let w0 = ws[0];
        let rest = ws.drop_first();
        assert(word_ok(w0));
        assert(forall|i: int| 0 <= i < rest.len() ==> rest[i] == ws[i + 1]);
        assert(forall|i: int| 0 <= i < rest.len() ==> word_ok(#[trigger] rest[i]));
        assert(s == w0 + seq![','] + join_commas(rest));
        let l0 = w0.len() as int;
        assert(s[l0] == ',');
        assert(forall|k: int| 0 <= k < l0 ==> s[k] == w0[k]);
        assert(fc == l0) by {
            if fc < l0 {
                assert(s[fc] == w0[fc]);
                assert(w0[fc] != ',');
                assert(s[fc] == ',');
            } else if fc > l0 {
                assert(s[l0] != ',');
            }
        }
        assert(s.take(l0) =~= w0);
        assert(s.skip(l0 + 1) =~= join_commas(rest));
        lemma_parse_join(rest);
    }
}

/// Law: printing an option set and parsing the text gives the set back.
pub proof fn lemma_options_roundtrip(o: MountOptions)
    ensures
        parse_options_spec(join_commas(options_words(o))) == Some(o),
{
    reveal_strlit("rw");
    reveal_strlit("noexec");
    reveal_strlit("nosuid");
    reveal_strlit("nodev");
    reveal_strlit("rec");
    assert("rw"@ =~= seq!['r', 'w']);
    assert("noexec"@ =~= seq!['n', 'o', 'e', 'x', 'e', 'c']);
    assert("nosuid"@ =~= seq!['n', 'o', 's', 'u', 'i', 'd']);
    assert("nodev"@ =~= seq!['n', 'o', 'd', 'e', 'v']);
    assert("rec"@ =~= seq!['r', 'e', 'c']);
    assert(word_ok("rw"@) && option_of_word("rw"@) == Some(MountOption::Rw));
    assert(word_ok("noexec"@) && option_of_word("noexec"@) == Some(MountOption::NoExec));
    assert(word_ok("nosuid"@) && option_of_word("nosuid"@) == Some(MountOption::NoSuid));
    assert(word_ok("nodev"@) && option_of_word("nodev"@) == Some(MountOption::NoDev));
    assert(word_ok("rec"@) && option_of_word("rec"@) == Some(MountOption::Rec));
    let ws = options_words(o);
    assert(forall|i: int| 0 <= i < ws.len() ==> word_ok(#[trigger] ws[i])) by {
        assert forall|i: int| 0 <= i < ws.len() implies word_ok(#[trigger] ws[i]) by {
            assert(ws[i] == "rw"@ || ws[i] == "noexec"@ || ws[i] == "nosuid"@ || ws[i] == "nodev"@
                || ws[i] == "rec"@);
        }
    }
    lemma_parse_join(ws);
    // Fold the conditional pushes of `options_words` one by one.
    let w0 = Seq::<Seq<char>>::empty();
    let w1 = if o.rw {
        w0.push("rw"@)
    } else {
        w0
    };
    let w2 = if o.noexec {
        w1.push("noexec"@)
    } else {
        w1
    };
    let w3 = if o.nosuid {
        w2.push("nosuid"@)
    } else {
        w2
    };
    let w4 = if o.nodev {
        w3.push("nodev"@)
    } else {
        w3
    };
    if o.rw {
        lemma_combine_words_push(w0, "rw"@);
    }
    if o.noexec {
        lemma_combine_words_push(w1, "noexec"@);
    }
    if o.nosuid {
        lemma_combine_words_push(w2, "nosuid"@);
    }
    if o.nodev {
        lemma_combine_words_push(w3, "nodev"@);
    }
    if o.rec {
        lemma_combine_words_push(w4, "rec"@);
    }
    assert(combine_words(ws) == o);
}

/// The option a word names, if any.
pub open spec fn option_of_word(w: Seq<char>) -> Option<MountOption> {
    if w == "rw"@ {
        Some(MountOption::Rw)
    } else if w == "noexec"@ {
        Some(MountOption::NoExec)
    } else if w == "nosuid"@ {
        Some(MountOption::NoSuid)
    } else if w == "nodev"@ {
        Some(MountOption::NoDev)
    } else if w == "rec"@ {
        Some(MountOption::Rec)
    } else {
        None
    }
}

/// The position of the first comma, or the length when there is none.
pub open spec fn first_comma(s: Seq<char>) -> int
    decreases s.len(),
{
    if s.len() == 0 {
        0
    } else if s[0] == ',' {
        0
    } else {
        1 + first_comma(s.drop_first())
    }
}

/// `first_comma` is the index of the first comma, and the length when no
/// comma occurs.
proof fn lemma_first_comma(s: Seq<char>)
    ensures
        0 <= first_comma(s) <= s.len(),
        first_comma(s) < s.len() ==> s[first_comma(s)] == ',',
        forall|k: int| 0 <= k < first_comma(s) ==> s[k] != ',',
    decreases s.len(),
{
    if s.len() > 0 && s[0] != ',' {
        lemma_first_comma(s.drop_first());
        let i = first_comma(s);
        if i < s.len() {
            assert(s[i] == s.drop_first()[i - 1]);
        }
        assert forall|k: int| 0 <= k < i implies s[k] != ',' by {
            if k >= 1 {
                assert(s.drop_first()[k - 1] == s[k]);
            }
        }
    }
}

/// The options a comma-separated list of words names, or nothing when a
/// word is unknown.
pub open spec fn parse_options_spec(s: Seq<char>) -> Option<MountOptions>
    decreases s.len(),
{
    if s.len() == 0 {
        Some(MountOptions::none())
    } else {
        let i = first_comma(s);
        if i == s.len() {
            match option_of_word(s) {
                Some(o) => Some(MountOptions::none().with(o)),
                None => None,
            }
        } else if 0 <= i < s.len() {
            match option_of_word(s.take(i)) {
                Some(o) => match parse_options_spec(s.skip(i + 1)) {
                    Some(rest) => Some(rest.with(o)),
                    None => None,
                },
                None => None,
            }
        } else {
            None
        }
    }
}

/// Decide the option a word names, exactly.
fn parse_option_word(s: &str) -> (r: Option<MountOption>)
    ensures
        r == option_of_word(s@),
{
    if str_eq(s, "rw") {
        Some(MountOption::Rw)
    } else if str_eq(s, "noexec") {
        Some(MountOption::NoExec)
    } else if str_eq(s, "nosuid") {
        Some(MountOption::NoSuid)
    } else if str_eq(s, "nodev") {
        Some(MountOption::NoDev)
    } else if str_eq(s, "rec") {
        Some(MountOption::Rec)
    } else {
        None
    }
}

/// The first comma of `s`.
fn find_comma(s: &str) -> (r: Option<usize>)
    ensures
        r matches Some(i) ==> i < s@.len() && s@[i as int] == ',' && forall|k: int| 0 <= k < i
            ==> s@[k] != ',',
        r is None ==> forall|k: int| 0 <= k < s@.len() ==> s@[k] != ',',
{
    let len = s.unicode_len();
    let mut i: usize = 0;
    while i < len
        invariant
            0 <= i <= len == s@.len(),
            forall|k: int| 0 <= k < i ==> s@[k] != ',',
        decreases len - i,
    {
        if s.get_char(i) == ',' {
            return Some(i);
        }
        i = i + 1;
    }
    None
}

/// Parse a comma-separated option list, such as `rw,noexec`.
pub fn parse_options(s: &str) -> (r: Option<MountOptions>)
    ensures
        r == parse_options_spec(s@),
    decreases s@.len(),
{
    let len = s.unicode_len();
    proof {
        lemma_first_comma(s@);
    }
    if len == 0 {
        return Some(MountOptions::default());
    }
    match find_comma(s) {
        None => {
            proof {
                let fc = first_comma(s@);
                if fc < s@.len() {
                    assert(s@[fc] == ',');
                }
            }
            match parse_option_word(s) {
                Some(o) => {
                    let mut opts = MountOptions::default();
                    opts.set(o);
                    Some(opts)
                },
                None => None,
            }
        },
        Some(i) => {
            proof {
                let fc = first_comma(s@);
                if fc < i as int {
                    assert(s@[fc] == ',');
                } else if (i as int) < fc {
                    assert(s@[i as int] != ',');
                }
            }
            let word = s.substring_char(0, i);
            let rest = s.substring_char(i + 1, len);
            proof {
                assert(word@ =~= s@.take(i as int));
                assert(rest@ =~= s@.skip(i as int + 1));
            }
            match parse_option_word(word) {
                Some(o) => match parse_options(rest) {
                    Some(mut opts) => {
                        opts.set(o);
                        Some(opts)
                    },
                    None => None,
                },
                None => None,
            }
        },
    }
}

/// The digit part and the multiplier of a size text: an optional suffix
/// `kB`, `MB` or `GB` scales the decimal number before it.
pub open spec fn size_split(s: Seq<char>) -> (Seq<char>, nat) {
    if s.len() >= 2 && s.skip(s.len() - 2) == "kB"@ {
        (s.take(s.len() - 2), 1000)
    } else if s.len() >= 2 && s.skip(s.len() - 2) == "MB"@ {
        (s.take(s.len() - 2), 1000000)
    } else if s.len() >= 2 && s.skip(s.len() - 2) == "GB"@ {
        (s.take(s.len() - 2), 1000000000)
    } else {
        (s, 1)
    }
}

/// The size a text denotes: a well-formed digit string scaled by its
/// suffix, with `kB`, `MB` and `GB` decimal.
pub open spec fn parse_size_spec(s: Seq<char>) -> Option<nat> {
    let (d, m) = size_split(s);
    if digits_ok(d) {
        Some(dec_val(d) * m)
    } else {
        None
    }
}

/// Parse a tmpfs size. Returns the denoted size exactly when the text is
/// well formed and the size fits in `u64`.
pub fn parse_size(s: &str) -> (r: Option<u64>)
    ensures
        r matches Some(v) ==> parse_size_spec(s@) == Some(v as nat),
        r is None ==> (parse_size_spec(s@) is None || parse_size_spec(s@)->0 > u64::MAX),
{
    let len = s.unicode_len();
    let mut mult: u64 = 1;
    let mut end: usize = len;
    if len >= 2 {
        let c1 = s.get_char(len - 2);
        let c2 = s.get_char(len - 1);
        proof {
            reveal_strlit("kB");
            reveal_strlit("MB");
            reveal_strlit("GB");
        }
        if c1 == 'k' && c2 == 'B' {
            proof {
                assert(s@.skip(len - 2) =~= "kB"@);
            }
            mult = 1000;
            end = len - 2;
        } else if c1 == 'M' && c2 == 'B' {
            proof {
                assert(s@.skip(len - 2) =~= "MB"@);
            }
            mult = 1000000;
            end = len - 2;
        } else if c1 == 'G' && c2 == 'B' {
            proof {
                assert(s@.skip(len - 2) =~= "GB"@);
            }
            mult = 1000000000;
            end = len - 2;
        } else {
            proof {
                let t = s@.skip(len - 2);
                assert(t.len() == 2);
                assert(t[0] == s@[len - 2]);
                assert(t[1] == s@[len - 1]);
                assert(t != "kB"@ && t != "MB"@ && t != "GB"@);
            }
        }
    }
    proof {
        reveal_strlit("kB");
        reveal_strlit("MB");
        reveal_strlit("GB");
        assert(s@.take(len as int) =~= s@);
        if s@.len() >= 2 {
            assert(s@.skip(s@.len() - 2)[0] == s@[s@.len() - 2]);
            assert(s@.skip(s@.len() - 2)[1] == s@[s@.len() - 1]);
        }
        if s@.len() >= 2 && s@.skip(s@.len() - 2) == "kB"@ {
            assert(mult == 1000);
        } else if s@.len() >= 2 && s@.skip(s@.len() - 2) == "MB"@ {
            assert(mult == 1000000);
        } else if s@.len() >= 2 && s@.skip(s@.len() - 2) == "GB"@ {
            assert(mult == 1000000000);
        } else {
            assert(mult == 1);
        }
        let (d, m) = size_split(s@);
        assert(d =~= s@.subrange(0, end as int));
        assert(m == mult as nat);
    }
    let num = match parse_u64(s.substring_char(0, end)) {
        Some(v) => v,
        None => {
            proof {
                let (d, m) = size_split(s@);
                if digits_ok(d) {
                    assert(dec_val(d) > u64::MAX);
                    assert(dec_val(d) * m >= dec_val(d)) by (nonlinear_arith)
                        requires
                            m >= 1,
                    ;
                }
            }
            return None;
        },
    };
    match num.checked_mul(mult) {
        Some(v) => Some(v),
        None => {
            proof {
                let (d, m) = size_split(s@);
                assert(dec_val(d) * m > u64::MAX);
            }
            None
        },
    }
}


/// Mount read-only.
pub const MS_RDONLY: u64 = 0x1;

/// Ignore suid and sgid bits.
pub const MS_NOSUID: u64 = 0x2;

/// Disallow access to device special files.
pub const MS_NODEV: u64 = 0x4;

/// Disallow program execution.
pub const MS_NOEXEC: u64 = 0x8;

/// Create a bind mount.
pub const MS_BIND: u64 = 0x1000;

/// Apply to the whole subtree.
pub const MS_REC: u64 = 0x4000;

/// The mount flags of a bind mount: always `nosuid`, `nodev` and
/// `noexec`; read-only unless `rw` was specifically requested; recursive
/// when `rec` was requested.
pub open spec fn bind_flags_spec(o: MountOptions) -> u64 {
    let flags = MS_BIND | MS_NOSUID | MS_NODEV | MS_NOEXEC;
    let flags = if !o.rw {
        flags | MS_RDONLY
    } else {
        flags
    };
    if o.rec {
        flags | MS_REC
    } else {
        flags
    }
}

/// Compute the flags of a bind mount, exactly.
pub fn bind_flags(o: &MountOptions) -> (r: u64)
    ensures
        r == bind_flags_spec(*o),
{
    let mut flags: u64 = MS_BIND | MS_NOSUID | MS_NODEV | MS_NOEXEC;
    if !o.rw {
        flags = flags | MS_RDONLY;
    }
    if o.rec {
        flags = flags | MS_REC;
    }
    flags
}

/// A bind mount of a host path.
#[derive(Debug, Clone, PartialEq, Eq)]
pub struct Bind {
    /// Host path to bind.
    pub host: String,
    /// Mount options.
    pub options: MountOptions,
}

/// A tmpfs mount.
#[derive(Debug, Clone, Copy, PartialEq, Eq, Structural)]
pub struct Tmpfs {
    /// Size in bytes.
    pub size: u64,
}

/// A read-only mount of another installed resource container.
#[derive(Debug, Clone, PartialEq, Eq)]
pub struct Resource {
    /// Name of the resource container.
    pub name: Name,
    /// Required version range of the resource container.
    pub version: VersionReq,
    /// Directory within the resource container to mount.
    pub dir: String,
    /// Mount options.
    pub options: MountOptions,
}

/// One mount declaration.
#[derive(Debug, Clone, PartialEq, Eq)]
pub enum Mount {
    /// A minimal set of device nodes.
    Dev,
    /// A bind mount of a host path.
    Bind(Bind),
    /// A per-container read-write directory kept across restarts.
    Persist,
    /// A read-only mount of another installed resource container.
    Resource(Resource),
    /// A tmpfs mount.
    Tmpfs(Tmpfs),
}

/// Path `a` covers path `b`: the two are equal, or `a` is a directory
/// prefix of `b` in the path-component sense.
pub open spec fn path_covers(a: Seq<char>, b: Seq<char>) -> bool {
    ||| a == b
    ||| (b.len() > a.len() && b.take(a.len() as int) == a && (a == seq!['/'] || b[a.len() as int]
        == '/'))
}

/// Decide `path_covers` exactly.
pub fn check_path_covers(a: &str, b: &str) -> (r: bool)
    ensures
        r == path_covers(a@, b@),
{
    let la = a.unicode_len();
    let lb = b.unicode_len();
    if la > lb {
        proof {
            assert(a@ != b@);
        }
        return false;
    }
    let mut i: usize = 0;
    while i < la
        invariant
            0 <= i <= la == a@.len(),
            la <= lb == b@.len(),
            forall|k: int| 0 <= k < i ==> a@[k] == b@[k],
        decreases la - i,
    {
        if a.get_char(i) != b.get_char(i) {
            proof {
                assert(a@ != b@);
                assert(b@.take(la as int)[i as int] == b@[i as int]);
            }
            return false;
        }
        i = i + 1;
    }
    if la == lb {
        proof {
            assert(a@ =~= b@);
        }
        return true;
    }
    proof {
        assert(b@.take(la as int) =~= a@);
        assert(a@ != b@);
    }
    if la == 1 && a.get_char(0) == '/' {
        proof {
            assert(a@ =~= seq!['/']);
        }
        return true;
    }
    proof {
        assert(a@.len() == 1 && a@[0] == '/' ==> a@ =~= seq!['/']);
    }
    b.get_char(la) == '/'
}

} // verus!
