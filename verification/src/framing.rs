//! Bodies as bytes, and keeping a replaced body at the length that was
//! announced for it.
use vstd::prelude::*;
use vstd::utf8::*;

use bytes::Bytes;

verus! {

/// A shared, immutable run of bytes.
#[verifier::external_type_specification]
#[verifier::external_body]
pub struct ExBytes(Bytes);

/// The bytes that a `Bytes` holds.
pub uninterp spec fn octets(bytes: Bytes) -> Seq<u8>;

/// `Bytes::len` counts the bytes held.
pub assume_specification[ Bytes::len ](bytes: &Bytes) -> (len: usize)
    ensures
        len == octets(*bytes).len(),
;

/// `Bytes::is_empty` tells whether there are none.
pub assume_specification[ Bytes::is_empty ](bytes: &Bytes) -> (empty: bool)
    ensures
        empty == (octets(*bytes).len() == 0),
;

/// `Bytes` dereferences to a slice of the bytes held.
#[verifier::external_body]
pub(crate) fn bytes_as_slice(bytes: &Bytes) -> (slice: &[u8])
    ensures
        slice@ == octets(*bytes),
{
    bytes
}

/// `Bytes::from` a vector holds the vector's bytes.
#[verifier::external_body]
pub(crate) fn bytes_from_vec(raw: Vec<u8>) -> (bytes: Bytes)
    ensures
        octets(bytes) == raw@,
{
    Bytes::from(raw)
}

/// The bytes of a body that may be missing.
pub open spec fn content(body: Option<Bytes>) -> Option<Seq<u8>> {
    match body {
        Some(bytes) => Some(octets(bytes)),
        None => None,
    }
}

/// The announced length of a body: that of the bytes which it has now.
pub open spec fn committed(body: Option<Seq<u8>>) -> nat {
    match body {
        Some(raw) => raw.len(),
        None => 0,
    }
}

/// That many ASCII spaces.
pub open spec fn spaces(n: nat) -> Seq<u8> {
    Seq::new(n, |i: int| 0x20u8)
}

/// The greatest length up to `limit` at which the bytes can be cut and leave
/// valid UTF-8.
pub open spec fn valid_up_to(raw: Seq<u8>, limit: nat) -> nat
    decreases limit,
{
    if limit == 0 || valid_utf8(raw.take(limit as int)) {
        limit
    } else {
        valid_up_to(raw, (limit - 1) as nat)
    }
}

/// A text brought to an exact number of bytes: cut between characters where it
/// is longer, and filled up with spaces.
pub open spec fn fitted(text: Seq<char>, length: nat) -> Seq<u8> {
    let raw = encode_utf8(text);
    if raw.len() <= length {
        raw + spaces((length - raw.len()) as nat)
    } else {
        let kept = valid_up_to(raw, length);
        raw.take(kept as int) + spaces((length - kept) as nat)
    }
}

/// A cut of valid UTF-8 is valid exactly at the character boundaries.
proof fn lemma_boundary(raw: Seq<u8>, index: int)
    requires
        valid_utf8(raw),
        0 <= index <= raw.len(),
    ensures
        is_char_boundary(raw, index) <==> valid_utf8(raw.take(index)),
    decreases raw.len(),
{
    let cut = raw.take(index);
    if index == 0 {
    } else if is_char_boundary(raw, index) {
        valid_utf8_split(raw, index);
        assert(cut =~= raw.subrange(0, index));
    } else {
        if valid_utf8(cut) {
            let first = length_of_first_scalar(raw);
            assert(valid_first_scalar(cut));
            assert(cut[0] == raw[0]);
            assert(length_of_first_scalar(cut) == first);
            assert(pop_first_scalar(cut) =~= pop_first_scalar(raw).take(index - first));
            lemma_boundary(pop_first_scalar(raw), index - first);
        }
    }
}

/// Fits `replacement` bytes to the length of the original body.
///
/// Pads with trailing ASCII spaces on shrink, which JSON parsers ignore;
/// truncates on grow, between characters.
pub fn fit_to_committed_length(replacement: String, original_body: &Option<Bytes>) -> (fit: Bytes)
    ensures
        octets(fit) == fitted(replacement@, committed(content(*original_body))),
        original_body matches Some(bytes) ==> octets(fit).len() == octets(*bytes).len(),
        original_body is None ==> octets(fit).len() == 0,
{
    proof {
        law_fitted_length(replacement@, committed(content(*original_body)));
    }
    let original_len: usize = match original_body {
        Some(bytes) => bytes.len(),
        None => 0,
    };
    bytes_from_vec(fit_text(replacement.as_str(), original_len))
}

/// The bytes of `text`, cut or padded to exactly `length` bytes.
pub fn fit_text(text: &str, length: usize) -> (fit: Vec<u8>)
    ensures
        fit@ == fitted(text@, length as nat),
{
    let mut fit: Vec<u8> = text.as_bytes_vec();
    let ghost raw = encode_utf8(text@);
    if fit.len() > length {
        let mut kept: usize = length;
        proof {
            encode_utf8_valid_utf8(text@);
        }
        while !text.is_char_boundary(kept)
            invariant
                raw == encode_utf8(text@),
                valid_utf8(raw),
                kept <= length < raw.len(),
                valid_up_to(raw, length as nat) == valid_up_to(raw, kept as nat),
            decreases kept,
        {
            proof {
                lemma_boundary(raw, kept as int);
                is_char_boundary_start_end_of_seq(raw);
            }
            kept = kept - 1;
        }
        proof {
            lemma_boundary(raw, kept as int);
        }
        fit.truncate(kept);
    }
    let ghost kept = fit@;
    fit.resize(length, 0x20u8);
    assert(fit@ =~= kept + spaces((length - kept.len()) as nat));
    fit
}

proof fn lemma_valid_up_to(raw: Seq<u8>, limit: nat)
    requires
        limit <= raw.len(),
    ensures
        valid_up_to(raw, limit) <= limit,
        valid_utf8(raw.take(valid_up_to(raw, limit) as int)),
        forall|k: int|
            valid_up_to(raw, limit) < k <= limit ==> !valid_utf8(#[trigger] raw.take(k)),
    decreases limit,
{
    if limit > 0 && !valid_utf8(raw.take(limit as int)) {
        lemma_valid_up_to(raw, (limit - 1) as nat);
    }
}

/// Near every place in valid UTF-8 there is a character boundary.
proof fn lemma_boundary_near(raw: Seq<u8>, index: int) -> (boundary: int)
    requires
        valid_utf8(raw),
        0 <= index <= raw.len(),
    ensures
        index - 3 <= boundary <= index,
        0 <= boundary,
        is_char_boundary(raw, boundary),
    decreases raw.len(),
{
    if raw.len() == 0 || index < length_of_first_scalar(raw) {
        0
    } else {
        let first = length_of_first_scalar(raw);
        first + lemma_boundary_near(pop_first_scalar(raw), index - first)
    }
}

/// A fitted text has exactly the length that it was fitted to: a response whose
/// body is replaced keeps its announced length.
pub proof fn law_fitted_length(text: Seq<char>, length: nat)
    ensures
        fitted(text, length).len() == length,
{
    let raw = encode_utf8(text);
    if raw.len() > length {
        lemma_valid_up_to(raw, length);
    }
}

/// A text that fits is kept whole, with nothing but spaces after it.
pub proof fn law_fitting_text_is_kept(text: Seq<char>, length: nat)
    requires
        encode_utf8(text).len() <= length,
    ensures
        fitted(text, length) == encode_utf8(text) + spaces(
            (length - encode_utf8(text).len()) as nat,
        ),
{
}

/// A text that does not fit is cut between two characters: what is kept is the
/// beginning of the text, and at most three bytes of the room are left to
/// spaces.
pub proof fn law_cut_between_characters(text: Seq<char>, length: nat) -> (kept: int)
    requires
        encode_utf8(text).len() > length,
    ensures
        0 <= kept < text.len(),
        encode_utf8(text.take(kept)).len() <= length,
        length <= encode_utf8(text.take(kept)).len() + 3,
        fitted(text, length) == encode_utf8(text.take(kept)) + spaces(
            (length - encode_utf8(text.take(kept)).len()) as nat,
        ),
{
    let raw = encode_utf8(text);
    let cut = valid_up_to(raw, length) as int;
    encode_utf8_valid_utf8(text);
    lemma_valid_up_to(raw, length);
    let near = lemma_boundary_near(raw, length as int);
    lemma_boundary(raw, near);
    lemma_boundary(raw, cut);
    assert(cut >= near);
    let head = raw.subrange(0, cut);
    let tail = raw.subrange(cut, raw.len() as int);
    assert(head =~= raw.take(cut));
    valid_utf8_split(raw, cut);
    decode_utf8_split(raw, cut);
    encode_utf8_decode_utf8(text);
    let first = decode_utf8(head);
    let last = decode_utf8(tail);
    assert(text == first + last);
    decode_utf8_encode_utf8(head);
    decode_utf8_encode_utf8(tail);
    assert(text.take(first.len() as int) =~= first);
    assert(last.len() > 0) by {
        if last.len() == 0 {
            assert(encode_utf8(last) =~= Seq::empty());
        }
    }
    first.len() as int
}

/// A fitted text is valid UTF-8, whatever the length.
pub proof fn law_fitted_is_valid(text: Seq<char>, length: nat)
    ensures
        valid_utf8(fitted(text, length)),
{
    let raw = encode_utf8(text);
    encode_utf8_valid_utf8(text);
    let kept = if raw.len() <= length {
        assert(raw.take(raw.len() as int) =~= raw);
        raw.len()
    } else {
        lemma_valid_up_to(raw, length);
        valid_up_to(raw, length)
    };
    lemma_spaces_valid((length - kept) as nat);
    valid_utf8_concat(raw.take(kept as int), spaces((length - kept) as nat));
}

proof fn lemma_spaces_valid(n: nat)
    ensures
        valid_utf8(spaces(n)),
    decreases n,
{
    if n > 0 {
        let all = spaces(n);
        lemma_spaces_valid((n - 1) as nat);
        assert(pop_first_scalar(all) =~= spaces((n - 1) as nat));
    }
}

/// A body that is there has the bytes that it holds, and one that is not has
/// none.
pub proof fn law_bodies_have_their_bytes(body: Option<Bytes>)
    ensures
        body matches Some(bytes) ==> content(body) == Some(octets(bytes)) && committed(
            content(body),
        ) == octets(bytes).len(),
        body is None ==> content(body) is None && committed(content(body)) == 0,
{
}

/// A fitted text has the given number of bytes. It starts with as much of the
/// text as there is room for, up to the last place where a cut leaves valid
/// UTF-8, all of it where it fits; every byte after that is a space.
pub proof fn law_fitted_bytes(text: Seq<char>, length: nat) -> (kept: int)
    ensures
        ({
            let raw = encode_utf8(text);
            let fit = fitted(text, length);
            &&& fit.len() == length
            &&& 0 <= kept <= raw.len()
            &&& kept <= length
            &&& raw.len() <= length ==> kept == raw.len()
            &&& valid_utf8(raw.take(kept))
            &&& forall|k: int|
                kept < k <= raw.len() && k <= length ==> !valid_utf8(#[trigger] raw.take(k))
            &&& forall|j: int| 0 <= j < kept ==> #[trigger] fit[j] == raw[j]
            &&& forall|j: int| kept <= j < length ==> #[trigger] fit[j] == 0x20u8
        }),
{
    let raw = encode_utf8(text);
    if raw.len() <= length {
        encode_utf8_valid_utf8(text);
        assert(raw.take(raw.len() as int) =~= raw);
        raw.len() as int
    } else {
        lemma_valid_up_to(raw, length);
        valid_up_to(raw, length) as int
    }
}

/// A replacement has as many bytes as the body that it replaces, and none where
/// there was no body.
pub proof fn law_replacement_has_the_length_of_the_body(
    replacement: Seq<char>,
    original_body: Option<Bytes>,
    fit: Bytes,
)
    requires
        octets(fit) == fitted(replacement, committed(content(original_body))),
    ensures
        original_body matches Some(bytes) ==> octets(fit).len() == octets(bytes).len(),
        original_body is None ==> octets(fit).len() == 0,
{
    law_fitted_length(replacement, committed(content(original_body)));
}

} // verus!
