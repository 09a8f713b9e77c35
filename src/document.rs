//! Locating the JSON payload that the fetched page assigns in its script.
//!
//! The document is read as the UTF-8 bytes of its text. The payload is
//! everything that follows the first occurrence of the marker `a91.data=`.

use vstd::prelude::*;
use vstd::utf8::*;
use vstd::string::*;

verus! {

broadcast use vstd::seq::group_seq_axioms, vstd::slice::group_slice_axioms;

/// Number of bytes in the marker `a91.data=`.
pub const MARKER_LEN: usize = 9;

/// The marker `a91.data=` as ASCII bytes.
pub open spec fn marker() -> Seq<u8> {
    seq![97u8, 57u8, 49u8, 46u8, 100u8, 97u8, 116u8, 97u8, 61u8]
}

/// The marker starts at byte `i` of `doc`.
pub open spec fn marker_at(doc: Seq<u8>, i: int) -> bool {
    &&& 0 <= i
    &&& i + marker().len() <= doc.len()
    &&& doc.subrange(i, i + marker().len()) == marker()
}

/// The marker occurs somewhere in `doc`.
pub open spec fn contains_marker(doc: Seq<u8>) -> bool {
    exists|i: int| marker_at(doc, i)
}

/// Byte `i` of `doc` starts the leftmost occurrence of the marker.
pub open spec fn first_marker_at(doc: Seq<u8>, i: int) -> bool {
    &&& marker_at(doc, i)
    &&& forall|j: int| 0 <= j < i ==> !marker_at(doc, j)
}

/// The text that follows the leftmost marker of `doc`, or `None` when `doc`
/// holds no marker.
pub open spec fn json_text(doc: Seq<u8>) -> Option<Seq<u8>> {
    if exists|i: int| first_marker_at(doc, i) {
        let i = choose|i: int| first_marker_at(doc, i);
        Some(doc.subrange(i + marker().len(), doc.len() as int))
    } else {
        None
    }
}

/// At most one position starts the leftmost marker.
proof fn lemma_first_marker_unique(doc: Seq<u8>, i: int, k: int)
    requires
        first_marker_at(doc, i),
        first_marker_at(doc, k),
    ensures
        i == k,
{
    if i < k {
        assert(!marker_at(doc, i));
    } else if k < i {
        assert(!marker_at(doc, k));
    }
}

/// Whenever the marker occurs, a leftmost occurrence exists.
proof fn lemma_first_marker_exists(doc: Seq<u8>, i: int)
    requires
        marker_at(doc, i),
    ensures
        exists|k: int| first_marker_at(doc, k),
    decreases i,
{
    if forall|j: int| 0 <= j < i ==> !marker_at(doc, j) {
        assert(first_marker_at(doc, i));
    } else {
        let j = choose|j: int| 0 <= j < i && marker_at(doc, j);
        lemma_first_marker_exists(doc, j);
    }
}

/// The text after the marker that starts at the leftmost position `i`.
proof fn lemma_json_text_at(doc: Seq<u8>, i: int)
    requires
        first_marker_at(doc, i),
    ensures
        json_text(doc) == Some(doc.subrange(i + marker().len(), doc.len() as int)),
{
    let k = choose|k: int| first_marker_at(doc, k);
    lemma_first_marker_unique(doc, i, k);
}

/// A document yields no payload exactly when the marker does not occur in it.
pub proof fn lemma_no_marker_no_json(doc: Seq<u8>)
    ensures
        json_text(doc) is None <==> !contains_marker(doc),
{
    if contains_marker(doc) {
        let i = choose|i: int| marker_at(doc, i);
        lemma_first_marker_exists(doc, i);
    }
}

/// Appending the marker to a text that does not hold it creates no
/// occurrence that starts inside the text: an occurrence ends with `=`, and
/// the marker holds `=` only as its last byte.
pub proof fn lemma_no_earlier_marker(prefix: Seq<u8>)
    requires
        !contains_marker(prefix),
    ensures
        forall|j: int| 0 <= j < prefix.len() ==> !marker_at(prefix + marker(), j),
{
    let head = prefix + marker();
    let p = prefix.len() as int;
    assert forall|j: int| 0 <= j < p implies !marker_at(head, j) by {
        if marker_at(head, j) {
            if j + 9 <= p {
                assert(prefix.subrange(j, j + 9) =~= head.subrange(j, j + 9));
                assert(marker_at(prefix, j));
            } else {
                let k = j + 8 - p;
                assert(head.subrange(j, j + 9)[8] == head[j + 8]);
                assert(head[j + 8] == marker()[k]);
                assert(marker()[k] != 61u8);
            }
        }
    }
}

/// Whatever text without the marker precedes the marker, the payload is
/// exactly the text that follows it.
pub proof fn lemma_json_after_marker(prefix: Seq<u8>, tail: Seq<u8>)
    requires
        !contains_marker(prefix),
    ensures
        json_text(prefix + marker() + tail) == Some(tail),
{
    lemma_no_earlier_marker(prefix);
    let head = prefix + marker();
    let doc = head + tail;
    let p = prefix.len() as int;
    assert(head.len() == p + 9);
    assert(marker_at(doc, p)) by {
        assert(doc.subrange(p, p + 9) =~= marker());
    }
    assert forall|j: int| 0 <= j < p implies !marker_at(doc, j) by {
        assert(!marker_at(head, j));
        assert(doc.subrange(j, j + 9) =~= head.subrange(j, j + 9));
    }
    lemma_json_text_at(doc, p);
    assert(doc.subrange(p + 9, doc.len() as int) =~= tail);
}

/// When the marker occurs twice after a text without it, the payload starts
/// after the first occurrence and keeps the second one and all that follows.
pub proof fn lemma_first_marker_wins(prefix: Seq<u8>, middle: Seq<u8>, tail: Seq<u8>)
    requires
        !contains_marker(prefix),
    ensures
        json_text(prefix + marker() + middle + marker() + tail) == Some(
            middle + marker() + tail,
        ),
{
    let rest = middle + marker() + tail;
    lemma_json_after_marker(prefix, rest);
    assert(prefix + marker() + middle + marker() + tail =~= prefix + marker() + rest);
}

/// Splitting a text's bytes at a character boundary splits its characters.
proof fn lemma_text_split(whole: &str, left: &str, right: &str, k: int)
    requires
        is_char_boundary(whole.spec_bytes(), k),
        left.spec_bytes() == whole.spec_bytes().subrange(0, k),
        right.spec_bytes() == whole.spec_bytes().subrange(k, whole.spec_bytes().len() as int),
    ensures
        whole@ == left@ + right@,
{
    broadcast use encode_utf8_valid_utf8, encode_utf8_decode_utf8;

    decode_utf8_split(whole.spec_bytes(), k);
    assert(decode_utf8(whole.spec_bytes()) == whole@);
    assert(decode_utf8(left.spec_bytes()) == left@);
    assert(decode_utf8(right.spec_bytes()) == right@);
}

/// Tests whether the marker starts at byte `i` of `b`.
fn marker_at_index(b: &[u8], i: usize) -> (r: bool)
    requires
        i + MARKER_LEN <= b@.len(),
    ensures
        r == marker_at(b@, i as int),
{
    let r = b[i] == 97 && b[i + 1] == 57 && b[i + 2] == 49 && b[i + 3] == 46 && b[i + 4] == 100
        && b[i + 5] == 97 && b[i + 6] == 116 && b[i + 7] == 97 && b[i + 8] == 61;
    proof {
        let s = b@.subrange(i as int, i + 9);
        if r {
            assert(s =~= marker());
        } else {
            assert(s[0] == b@[i as int] && s[1] == b@[i + 1] && s[2] == b@[i + 2]);
            assert(s[3] == b@[i + 3] && s[4] == b@[i + 4] && s[5] == b@[i + 5]);
            assert(s[6] == b@[i + 6] && s[7] == b@[i + 7] && s[8] == b@[i + 8]);
            assert(s != marker());
        }
    }
    r
}

/// Returns the part of `input` that follows the first `a91.data=` marker, or
/// `None` when the marker does not occur.
pub fn find_json(input: &str) -> (r: Option<&str>)
    ensures
        match r {
            Some(t) => json_text(input.spec_bytes()) == Some(t.spec_bytes()),
            None => json_text(input.spec_bytes()) is None,
        },
        r matches Some(t) ==> {
            &&& t@.len() <= input@.len()
            &&& t@ == input@.subrange(input@.len() - t@.len(), input@.len() as int)
        },
{
    let bytes = input.as_bytes();
    let n = bytes.len();
    let mut i: usize = 0;
    while i <= n && MARKER_LEN <= n - i
        invariant
            bytes@ == input.spec_bytes(),
            n == bytes@.len(),
            i <= n,
            forall|j: int| 0 <= j < i ==> !marker_at(bytes@, j),
        decreases n - i,
    {
        if marker_at_index(bytes, i) {
            proof {
                assert(first_marker_at(bytes@, i as int));
                lemma_json_text_at(bytes@, i as int);
                broadcast use encode_utf8_valid_utf8;
                assert(bytes@[i + 8] == 61u8) by {
                    assert(bytes@.subrange(i as int, i + 9)[8] == bytes@[i + 8]);
                }
                is_char_boundary_iff_not_is_continuation_byte(bytes@, i + 8);
            }
            // Byte `i + 8` is the `=` of the marker, an ASCII byte, and hence
            // the start of a character.
            let (head, rest) = input.split_at(i + 8);
            // `rest` starts with the one-byte `=` that ends the marker, so
            // byte 1 of `rest` begins a character.
            proof {
                lemma_text_split(input, head, rest, i + 8);
                broadcast use encode_utf8_valid_utf8;
                let rb = rest.spec_bytes();
                assert(valid_utf8(rb));
                assert(rb[0] == 61u8);
                reveal_with_fuel(is_char_boundary, 2);
                assert(is_char_boundary(rb, 1));
            }
            let (eq, json) = rest.split_at(1);
            proof {
                lemma_text_split(rest, eq, json, 1);
                assert(input@ =~= (head@ + eq@) + json@);
                assert(json@ =~= input@.subrange(input@.len() - json@.len(), input@.len() as int));
            }
            return Some(json);
        }
        i = i + 1;
    }
    proof {
        assert(forall|j: int| !marker_at(bytes@, j));
        lemma_no_marker_no_json(bytes@);
    }
    None
}

} // verus!
