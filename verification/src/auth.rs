//! Who may call the admin API.

use crate::digest::{sha256, sha256_digest};
use vstd::prelude::*;
use vstd::utf8::encode_utf8;

verus! {

/// The `authorization` header of a caller that has a token.
pub open spec fn bearer(token: Seq<char>) -> Seq<char> {
    "Bearer "@ + token
}

/// The digest of a header.
pub open spec fn header_digest(header: Seq<char>) -> Seq<u8> {
    sha256_digest(encode_utf8(header))
}

/// Works out the digest of a header.
fn digest_of(header: &str) -> (digest: Vec<u8>)
    ensures
        digest@ == header_digest(header@),
{
    sha256(header.as_bytes())
}

/// Whether two lists of bytes are the same.
fn same_bytes(a: &[u8], b: &[u8]) -> (same: bool)
    ensures
        same == (a@ == b@),
{
    if a.len() != b.len() {
        return false;
    }
    let mut i: usize = 0;
    while i < a.len()
        invariant
            i <= a@.len(),
            a@.len() == b@.len(),
            forall|n: int| 0 <= n < i ==> a@[n] == b@[n],
        decreases a@.len() - i,
    {
        if a[i] != b[i] {
            return false;
        }
        i += 1;
    }
    assert(a@ =~= b@);
    true
}

/// What the admin API expects of its callers. It holds a digest, not the token.
pub struct AdminGuard {
    /// The digest of the header to expect; without one, every caller may pass.
    pub expected: Option<Vec<u8>>,
}

/// Whether a guard lets a digest pass.
pub open spec fn passes(expected: Option<Seq<u8>>, digest: Seq<u8>) -> bool {
    match expected {
        Some(e) => digest == e,
        None => true,
    }
}

/// Whether a digest passes where one may be expected.
pub fn digest_passes(expected: Option<&Vec<u8>>, digest: &[u8]) -> (passed: bool)
    ensures
        passed == match expected {
            Some(e) => passes(Some(e@), digest@),
            None => passes(None, digest@),
        },
{
    match expected {
        Some(e) => same_bytes(digest, e.as_slice()),
        None => true,
    }
}

impl View for AdminGuard {
    type V = Option<Seq<u8>>;

    /// The digest of the header to expect.
    open spec fn view(&self) -> Option<Seq<u8>> {
        match self.expected {
            Some(digest) => Some(digest@),
            None => None,
        }
    }
}

/// What a guard for a token expects.
pub open spec fn guarded_by(token: Option<Seq<char>>) -> Option<Seq<u8>> {
    match token {
        Some(t) => Some(header_digest(bearer(t))),
        None => None,
    }
}

impl AdminGuard {
    /// A guard that expects a token, or nothing where there is none.
    pub fn new(token: Option<&str>) -> (guard: Self)
        ensures
            guard@ == match token {
                Some(t) => guarded_by(Some(t@)),
                None => guarded_by(None),
            },
    {
        match token {
            Some(t) => {
                let header = "Bearer ".to_owned().concat(t);
                AdminGuard { expected: Some(digest_of(header.as_str())) }
            },
            None => AdminGuard { expected: None },
        }
    }

    /// Whether a caller may pass, by its `authorization` header. A caller
    /// without one, or with one that is no text, counts as having an empty one.
    /// Headers are compared by their digests.
    pub fn authorize(&self, header: Option<&str>) -> (passed: bool)
        ensures
            passed == passes(
                self@,
                header_digest(
                    match header {
                        Some(h) => h@,
                        None => Seq::empty(),
                    },
                ),
            ),
    {
        let provided: &str = match header {
            Some(h) => h,
            None => "",
        };
        proof {
            reveal_strlit("");
            assert(""@ =~= Seq::<char>::empty());
        }
        let digest = digest_of(provided);
        digest_passes(self.expected.as_ref(), digest.as_slice())
    }

    /// Whether callers have to show a token.
    pub fn is_open(&self) -> (open: bool)
        ensures
            open == (self@ is None),
    {
        self.expected.is_none()
    }
}

/// A caller that shows the token passes.
pub proof fn law_token_passes(token: Seq<char>)
    ensures
        passes(guarded_by(Some(token)), header_digest(bearer(token))),
{
}

/// Whoever passes shows a header with the same digest as the expected one: who
/// shows another header passes only where SHA-256 gives both the same digest.
pub proof fn law_only_the_token_passes(token: Seq<char>, header: Seq<char>)
    requires
        header_digest(header) != header_digest(bearer(token)),
    ensures
        !passes(guarded_by(Some(token)), header_digest(header)),
{
}

/// Without a token every caller passes.
pub proof fn law_open_without_token(header: Seq<char>)
    ensures
        passes(guarded_by(None), header_digest(header)),
{
}

/// Where there is a token, a caller passes if and only if its header has the
/// SHA-256 digest of `Bearer`, a space and that token.
pub proof fn law_who_passes(token: Seq<char>, header: Seq<char>)
    ensures
        passes(guarded_by(Some(token)), header_digest(header)) <==> sha256_digest(
            encode_utf8(header),
        ) == sha256_digest(
            encode_utf8(seq!['B', 'e', 'a', 'r', 'e', 'r', ' '] + token),
        ),
{
    reveal_strlit("Bearer ");
    assert("Bearer "@ =~= seq!['B', 'e', 'a', 'r', 'e', 'r', ' ']);
}

} // verus!
