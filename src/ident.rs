//! Short random identifiers for rooms and peers.

use vstd::prelude::*;

verus! {

/// Length of a room identifier.
pub const SLUG_LEN: usize = 6;

/// Length of a peer identifier.
pub const PEER_ID_LEN: usize = 8;

/// The 36-character alphabet of identifiers: lower-case letters, then digits.
pub open spec fn slug_alphabet_spec() -> Seq<char> {
    seq![
        'a', 'b', 'c', 'd', 'e', 'f', 'g', 'h', 'i', 'j', 'k', 'l', 'm', 'n', 'o', 'p', 'q', 'r',
        's', 't', 'u', 'v', 'w', 'x', 'y', 'z', '0', '1', '2', '3', '4', '5', '6', '7', '8', '9',
    ]
}

/// A character of the identifier alphabet.
pub open spec fn is_id_char(c: char) -> bool {
    ('a' <= c && c <= 'z') || ('0' <= c && c <= '9')
}

/// `s` has length `n` and is written over the identifier alphabet.
pub open spec fn is_id_of_len(s: Seq<char>, n: nat) -> bool {
    s.len() == n && forall|i: int| 0 <= i < s.len() ==> is_id_char(#[trigger] s[i])
}

/// A well-formed room identifier.
pub open spec fn is_slug(s: Seq<char>) -> bool {
    is_id_of_len(s, SLUG_LEN as nat)
}

/// The identifier alphabet as a vector.
pub fn slug_alphabet() -> (r: Vec<char>)
    ensures
        r@ == slug_alphabet_spec(),
        forall|c: char| r@.contains(c) <==> is_id_char(c),
{
    let r = vec![
        'a', 'b', 'c', 'd', 'e', 'f', 'g', 'h', 'i', 'j', 'k', 'l', 'm', 'n', 'o', 'p', 'q', 'r',
        's', 't', 'u', 'v', 'w', 'x', 'y', 'z', '0', '1', '2', '3', '4', '5', '6', '7', '8', '9',
    ];
    assert(r@ =~= slug_alphabet_spec());
    assert forall|c: char| r@.contains(c) <==> is_id_char(c) by {
        if is_id_char(c) {
            if 'a' <= c && c <= 'z' {
                let i = (c as u32 - 'a' as u32) as int;
                assert(r@[i] == c);
            } else {
                let i = (c as u32 - '0' as u32 + 26) as int;
                assert(r@[i] == c);
            }
        }
    }
    r
}

/// Relies on nanoid::format with nanoid's default random source: it draws
/// characters of `alphabet` until the string holds `size` bytes. With an ASCII
/// alphabet that is `size` characters, each one taken from `alphabet`. The
/// function asserts that the alphabet has at most 255 entries, and never
/// returns for an empty alphabet or a size of zero.
#[verifier::external_body]
fn random_id(alphabet: &Vec<char>, size: usize) -> (r: String)
    requires
        0 < size,
        0 < alphabet@.len() <= 255,
        forall|i: int| 0 <= i < alphabet@.len() ==> (alphabet@[i] as u32) < 128,
    ensures
        r@.len() == size,
        forall|i: int| 0 <= i < r@.len() ==> alphabet@.contains(#[trigger] r@[i]),
{
    nanoid::format(nanoid::rngs::default, alphabet.as_slice(), size)
}

/// A random identifier of `size` characters over the identifier alphabet.
pub fn random_id_of_len(size: usize) -> (r: String)
    requires
        0 < size,
    ensures
        is_id_of_len(r@, size as nat),
{
    let alphabet = slug_alphabet();
    assert forall|i: int| 0 <= i < alphabet@.len() implies (alphabet@[i] as u32) < 128 by {
        assert(alphabet@.contains(alphabet@[i]));
    }
    random_id(&alphabet, size)
}

/// A random candidate for a room identifier; uniqueness is checked by the
/// registry.
pub fn random_slug() -> (r: String)
    ensures
        is_slug(r@),
{
    random_id_of_len(SLUG_LEN)
}

/// A random peer id of eight characters over the identifier alphabet.
pub fn generate_peer_id() -> (r: String)
    ensures
        is_id_of_len(r@, PEER_ID_LEN as nat),
{
    random_id_of_len(PEER_ID_LEN)
}

} // verus!
