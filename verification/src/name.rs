//! Container names: non-empty strings of at most 1024 characters drawn
//! from a safe set (ASCII letters and digits, `-`, `_`, `.`).

use vstd::prelude::*;

verus! {

/// The characters a container name may hold.
pub open spec fn is_name_char(c: char) -> bool {
    ||| 'a' <= c && c <= 'z'
    ||| 'A' <= c && c <= 'Z'
    ||| '0' <= c && c <= '9'
    ||| c == '-'
    ||| c == '_'
    ||| c == '.'
}

/// A well-formed name: non-empty, at most 1024 characters, safe set only.
pub open spec fn valid_name(s: Seq<char>) -> bool {
    &&& 1 <= s.len() <= 1024
    &&& forall|i: int| 0 <= i < s.len() ==> is_name_char(#[trigger] s[i])
}

/// A validated container name.
#[derive(Debug, Clone, PartialEq, Eq, Hash)]
pub struct Name {
    text: String,
}

impl View for Name {
    type V = Seq<char>;

    closed spec fn view(&self) -> Seq<char> {
        self.text@
    }
}

/// Whether `c` is acceptable in a name, decided exactly.
pub fn check_name_char(c: char) -> (r: bool)
    ensures
        r == is_name_char(c),
{
    ('a' <= c && c <= 'z') || ('A' <= c && c <= 'Z') || ('0' <= c && c <= '9') || c == '-' || c
        == '_' || c == '.'
}

/// Decide `valid_name` exactly.
pub fn check_valid_name(s: &str) -> (r: bool)
    ensures
        r == valid_name(s@),
{
    let len = s.unicode_len();
    if len == 0 || len > 1024 {
        return false;
    }
    let mut i: usize = 0;
    while i < len
        invariant
            0 <= i <= len == s@.len(),
            forall|k: int| 0 <= k < i ==> is_name_char(#[trigger] s@[k]),
        decreases len - i,
    {
        if !check_name_char(s.get_char(i)) {
            return false;
        }
        i = i + 1;
    }
    true
}

impl Name {
    /// Every name that exists is well formed.
    pub open spec fn wf(&self) -> bool {
        valid_name(self@)
    }

    /// Accept a string as a name exactly when it is well formed.
    pub fn try_from(s: &str) -> (r: Option<Name>)
        ensures
            r matches Some(n) ==> n@ == s@ && n.wf(),
            r is Some <==> valid_name(s@),
    {
        if check_valid_name(s) {
            Some(Name { text: String::from_str(s) })
        } else {
            None
        }
    }

    /// Decide well-formedness exactly.
    pub fn check_wf(&self) -> (r: bool)
        ensures
            r == self.wf(),
    {
        check_valid_name(self.text.as_str())
    }

    /// An owned copy with the same text.
    pub fn duplicate(&self) -> (r: Name)
        ensures
            r@ == self@,
            self.wf() ==> r.wf(),
    {
        Name { text: String::from_str(self.text.as_str()) }
    }

    /// The name's text.
    pub fn as_str(&self) -> (r: &str)
        ensures
            r@ == self@,
    {
        self.text.as_str()
    }
}

} // verus!
