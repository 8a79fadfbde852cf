//! Comparison of texts and byte strings, and the local part of a qualified
//! name.

use vstd::prelude::*;
use vstd::utf8::*;

verus! {

/// The text in an optional string.
pub open spec fn text_of(text: Option<String>) -> Option<Seq<char>> {
    match text {
        Some(text) => Some(text@),
        None => None,
    }
}

/// The bytes that encode a piece of text.
pub open spec fn bytes_of(text: &str) -> Seq<u8> {
    encode_utf8(text@)
}

/// Two texts with the same encoding are the same text.
pub proof fn lemma_encoding_is_injective(a: Seq<char>, b: Seq<char>)
    requires
        encode_utf8(a) == encode_utf8(b),
    ensures
        a == b,
{
    encode_utf8_decode_utf8(a);
    encode_utf8_decode_utf8(b);
}

/// Two different texts have different encodings.
pub proof fn lemma_encoding_tells_apart(a: Seq<char>, b: Seq<char>)
    requires
        a != b,
    ensures
        encode_utf8(a) != encode_utf8(b),
{
    if encode_utf8(a) == encode_utf8(b) {
        lemma_encoding_is_injective(a, b);
    }
}

/// Whether two byte strings hold the same bytes.
pub fn same_bytes(a: &[u8], b: &[u8]) -> (same: bool)
    ensures
        same == (a@ == b@),
{
    if a.len() != b.len() {
        return false;
    }
    let mut i: usize = 0;
    while i < a.len()
        invariant
            a.len() == b.len(),
            i <= a.len(),
            a@.take(i as int) == b@.take(i as int),
        decreases a.len() - i,
    {
        if a[i] != b[i] {
            return false;
        }
        i += 1;
        assert(a@.take(i as int) == a@.take(i - 1).push(a@[i - 1]));
        assert(b@.take(i as int) == b@.take(i - 1).push(b@[i - 1]));
    }
    assert(a@ == a@.take(a.len() as int));
    assert(b@ == b@.take(b.len() as int));
    true
}

/// Whether two strings hold the same text.
pub fn same_text(a: &str, b: &str) -> (same: bool)
    ensures
        same == (a@ == b@),
{
    let same = same_bytes(a.as_bytes(), b.as_bytes());
    proof {
        if same {
            lemma_encoding_is_injective(a@, b@);
        }
    }
    same
}

/// Whether a byte string is the encoding of `text`.
pub fn spells(bytes: &[u8], text: &str) -> (same: bool)
    ensures
        same == (bytes@ == bytes_of(text)),
{
    same_bytes(bytes, text.as_bytes())
}

/// What follows the first colon of `name`, if it has one.
pub open spec fn after_colon(name: Seq<u8>) -> Option<Seq<u8>>
    decreases name.len(),
{
    if name.len() == 0 {
        None
    } else if name[0] == 0x3a {
        Some(name.skip(1))
    } else {
        after_colon(name.skip(1))
    }
}

/// The local part of a qualified name: the name without its prefix, that is,
/// without everything up to and including the first colon.
pub open spec fn local_part(name: Seq<u8>) -> Seq<u8> {
    match after_colon(name) {
        Some(local) => local,
        None => name,
    }
}

/// A name without a colon is its own local part.
pub proof fn lemma_no_colon_no_prefix(name: Seq<u8>)
    requires
        !name.contains(0x3a),
    ensures
        after_colon(name) is None,
        local_part(name) == name,
    decreases name.len(),
{
    if name.len() > 0 {
        assert(name[0] != 0x3a);
        assert forall|i: int| 0 <= i < name.skip(1).len() implies name.skip(1)[i] != 0x3a by {
            assert(name.skip(1)[i] == name[i + 1]);
        }
        lemma_no_colon_no_prefix(name.skip(1));
    }
}

/// The local part of a name with a prefix is what follows the prefix and
/// its colon.
pub proof fn lemma_prefix_is_dropped(prefix: Seq<u8>, local: Seq<u8>)
    requires
        !prefix.contains(0x3a),
    ensures
        local_part(prefix + seq![0x3au8] + local) == local,
    decreases prefix.len(),
{
    let name = prefix + seq![0x3au8] + local;
    if prefix.len() == 0 {
        assert(name[0] == 0x3a);
        assert(name.skip(1) == local);
    } else {
        assert(name[0] == prefix[0]);
        assert(prefix[0] != 0x3a);
        assert(name.skip(1) == prefix.skip(1) + seq![0x3au8] + local);
        assert forall|i: int| 0 <= i < prefix.skip(1).len() implies prefix.skip(1)[i] != 0x3a by {
            assert(prefix.skip(1)[i] == prefix[i + 1]);
        }
        lemma_prefix_is_dropped(prefix.skip(1), local);
    }
}

/// The encoding of a text of ASCII letters without a colon has no prefix.
pub proof fn lemma_ascii_has_no_prefix(text: Seq<char>)
    requires
        is_ascii_chars(text),
        !text.contains(':'),
    ensures
        local_part(encode_utf8(text)) == encode_utf8(text),
{
    is_ascii_chars_encode_utf8(text);
    let bytes = encode_utf8(text);
    assert forall|i: int| 0 <= i < bytes.len() implies bytes[i] != 0x3a by {
        assert(text[i] as u8 == bytes[i]);
        assert(text.contains(text[i]));
        assert(text[i] != ':');
    }
    lemma_no_colon_no_prefix(bytes);
}

/// The local part of a qualified name.
pub fn local_name(name: &[u8]) -> (local: &[u8])
    ensures
        local@ == local_part(name@),
{
    let mut i: usize = 0;
    proof {
        assert(name@.skip(0) == name@);
    }
    while i < name.len()
        invariant
            i <= name.len(),
            after_colon(name@) == after_colon(name@.skip(i as int)),
        decreases name.len() - i,
    {
        if name[i] == 0x3a {
            let local = &name[i + 1..name.len()];
            proof {
                assert(name@.skip(i as int).skip(1) == name@.skip(i + 1));
                assert(local@ == name@.skip(i + 1));
            }
            return local;
        }
        proof {
            assert(name@.skip(i as int).skip(1) == name@.skip(i + 1));
        }
        i += 1;
    }
    name
}

} // verus!
