//! Minecraft-style identifiers (`namespace:path`).
use vstd::prelude::*;

verus! {

/// A namespace character: `[a-z0-9._-]`.
pub open spec fn is_namespace_char(c: char) -> bool {
    ('a' <= c && c <= 'z') || ('0' <= c && c <= '9') || c == '_' || c == '-' || c == '.'
}

/// A path character: `[a-z0-9._-/]`.
pub open spec fn is_path_char(c: char) -> bool {
    is_namespace_char(c) || c == '/'
}

/// A valid namespace: non-empty, of namespace characters only.
pub open spec fn is_valid_namespace(s: Seq<char>) -> bool {
    s.len() > 0 && forall|i: int| 0 <= i < s.len() ==> is_namespace_char(#[trigger] s[i])
}

/// A valid path: non-empty, of path characters only.
pub open spec fn is_valid_path(s: Seq<char>) -> bool {
    s.len() > 0 && forall|i: int| 0 <= i < s.len() ==> is_path_char(#[trigger] s[i])
}

/// The namespace characters are exactly `a`–`z`, `0`–`9`, `_`, `-` and `.`;
/// the path characters are exactly those and `/`.
pub proof fn lemma_identifier_char_sets(c: char)
    ensures
        is_namespace_char(c) <==> (('a' <= c && c <= 'z') || ('0' <= c && c <= '9') || c == '_' || c
            == '-' || c == '.'),
        is_path_char(c) <==> (('a' <= c && c <= 'z') || ('0' <= c && c <= '9') || c == '_' || c == '-'
            || c == '.' || c == '/'),
        '0' <= c && c <= '9' ==> is_namespace_char(c) && is_path_char(c),
        c == '/' ==> !is_namespace_char(c) && is_path_char(c),
        'A' <= c && c <= 'Z' ==> !is_namespace_char(c) && !is_path_char(c),
        c == ':' ==> !is_path_char(c),
{
}

/// Every namespace character is a path character, so every valid namespace
/// is also a valid path.
pub proof fn lemma_namespace_is_path(s: Seq<char>)
    ensures
        forall|c: char| is_namespace_char(c) ==> is_path_char(c),
        is_valid_namespace(s) ==> is_valid_path(s),
{
}

/// ABI-safe Minecraft-style identifier (`namespace:path`).
///
/// Used for plugin IDs, block/item registration, event names, etc.
pub struct Identifier {
    pub namespace: String,
    pub path: String,
}

impl View for Identifier {
    type V = (Seq<char>, Seq<char>);

    open spec fn view(&self) -> (Seq<char>, Seq<char>) {
        (self.namespace@, self.path@)
    }
}

impl Identifier {
    pub const VANILLA_NAMESPACE: &'static str = "minecraft";

    /// Valid namespace characters: `[a-z0-9._-]`
    pub fn valid_namespace_char(c: char) -> (r: bool)
        ensures
            r == is_namespace_char(c),
            r == (('a' <= c && c <= 'z') || ('0' <= c && c <= '9') || c == '_' || c == '-' || c == '.'),
    {
        ('a' <= c && c <= 'z') || ('0' <= c && c <= '9') || c == '_' || c == '-' || c == '.'
    }

    /// Valid path characters: `[a-z0-9._-/]`
    pub fn valid_path_char(c: char) -> (r: bool)
        ensures
            r == is_path_char(c),
            r == (('a' <= c && c <= 'z') || ('0' <= c && c <= '9') || c == '_' || c == '-' || c == '.'
                || c == '/'),
    {
        Self::valid_namespace_char(c) || c == '/'
    }

    /// Whether `s` is a valid namespace.
    pub fn validate_namespace(s: &str) -> (r: bool)
        ensures
            r == is_valid_namespace(s@),
            r == (s@.len() > 0 && forall|i: int| 0 <= i < s@.len() ==> {
                let c = #[trigger] s@[i];
                ('a' <= c && c <= 'z') || ('0' <= c && c <= '9') || c == '_' || c == '-' || c == '.'
            }),
    {
        let n = s.unicode_len();
        if n == 0 {
            return false;
        }
        let mut i: usize = 0;
        while i < n
            invariant
                n == s@.len(),
                i <= n,
                forall|j: int| 0 <= j < i ==> is_namespace_char(#[trigger] s@[j]),
            decreases n - i,
        {
            if !Self::valid_namespace_char(s.get_char(i)) {
                return false;
            }
            i += 1;
        }
        true
    }

    /// Whether `s` is a valid path.
    pub fn validate_path(s: &str) -> (r: bool)
        ensures
            r == is_valid_path(s@),
            r == (s@.len() > 0 && forall|i: int| 0 <= i < s@.len() ==> {
                let c = #[trigger] s@[i];
                ('a' <= c && c <= 'z') || ('0' <= c && c <= '9') || c == '_' || c == '-' || c == '.'
                    || c == '/'
            }),
    {
        let n = s.unicode_len();
        if n == 0 {
            return false;
        }
        let mut i: usize = 0;
        while i < n
            invariant
                n == s@.len(),
                i <= n,
                forall|j: int| 0 <= j < i ==> is_path_char(#[trigger] s@[j]),
            decreases n - i,
        {
            if !Self::valid_path_char(s.get_char(i)) {
                return false;
            }
            i += 1;
        }
        true
    }

    /// Create an Identifier at runtime from a valid namespace and path.
    pub fn new(namespace: &str, path: &str) -> (id: Self)
        requires
            is_valid_namespace(namespace@),
            is_valid_path(path@),
        ensures
            id@ == (namespace@, path@),
    {
        Identifier { namespace: namespace.to_owned(), path: path.to_owned() }
    }

    /// An identifier in the `minecraft` namespace.
    pub fn vanilla(path: &str) -> (id: Self)
        requires
            is_valid_path(path@),
        ensures
            id@ == ("minecraft"@, path@),
    {
        proof {
            reveal_strlit("minecraft");
        }
        Self::new(Self::VANILLA_NAMESPACE, path)
    }

    /// The text form `namespace:path`.
    pub fn to_string(&self) -> (s: String)
        ensures
            s@ == self.namespace@ + seq![':'] + self.path@,
    {
        proof {
            reveal_strlit(":");
        }
        let mut s = self.namespace.clone();
        s.append(":");
        s.append(self.path.as_str());
        s
    }
}

} // verus!
