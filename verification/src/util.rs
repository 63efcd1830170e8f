use vstd::prelude::*;
use vstd::utf8::{decode_utf8, valid_utf8};

use crate::error::StreamDeckError;

verus! {

/// `text` with every occurrence of `c` left out.
pub open spec fn without(text: Seq<char>, c: char) -> Seq<char> {
    text.filter(|x: char| x != c)
}

/// The text held by `bytes`: their UTF-8 decoding with the nul characters left out.
pub open spec fn text_of(bytes: Seq<u8>) -> Seq<char>
    recommends
        valid_utf8(bytes),
{
    without(decode_utf8(bytes), '\0')
}

/// The error with which `core::str::from_utf8` refuses these bytes.
pub uninterp spec fn utf8_error(bytes: Seq<u8>) -> core::str::Utf8Error;

/// `core::str::from_utf8`: a slice converts to a string exactly when it is valid UTF-8, and the
/// string is then the one that the bytes encode. The error otherwise describes the bytes and
/// depends on nothing else; what it says of them is left open.
pub assume_specification[ core::str::from_utf8 ](v: &[u8]) -> (res: Result<
    &str,
    core::str::Utf8Error,
>)
    ensures
        res is Ok <==> valid_utf8(v@),
        res matches Ok(s) ==> s@ == decode_utf8(v@),
        res matches Err(e) ==> e == utf8_error(v@),
;

/// `str::replace` with a character for the pattern and nothing for the replacement: the text with
/// every occurrence of the character left out.
#[verifier::external_body]
pub(crate) fn remove_char(text: &str, c: char) -> (res: String)
    ensures
        res@ == without(text@, c),
{
    text.replace(c, "")
}

/// Extracts the text held by a byte string, leaving nul characters out.
pub fn extract_str(bytes: &[u8]) -> (res: Result<String, StreamDeckError>)
    ensures
        match res {
            Ok(text) => valid_utf8(bytes@) && text@ == text_of(bytes@),
            Err(e) => {
                &&& !valid_utf8(bytes@)
                &&& e == StreamDeckError::Utf8Error(utf8_error(bytes@))
            },
        },
{
    match core::str::from_utf8(bytes) {
        Ok(text) => {
            Ok(remove_char(text, '\0'))
        },
        Err(e) => Err(StreamDeckError::Utf8Error(e)),
    }
}

/// ASCII bytes as characters.
pub open spec fn ascii_text(bytes: Seq<u8>) -> Seq<char> {
    bytes.map_values(|b: u8| b as char)
}

/// ASCII bytes are valid UTF-8 and decode to themselves.
proof fn lemma_ascii_decodes(bytes: Seq<u8>)
    requires
        forall|i: int| 0 <= i < bytes.len() ==> #[trigger] bytes[i] < 128,
    ensures
        valid_utf8(bytes),
        decode_utf8(bytes) == ascii_text(bytes),
    decreases bytes.len(),
{
    if bytes.len() > 0 {
        let rest = bytes.skip(1);
        lemma_ascii_decodes(rest);
        let first = bytes[0];
        assert(first < 128 ==> first & 0x7f == first) by (bit_vector);
        assert(vstd::utf8::pop_first_scalar(bytes) =~= rest);
        assert(decode_utf8(bytes) =~= seq![first as char] + ascii_text(rest));
        assert(seq![first as char] + ascii_text(rest) =~= ascii_text(bytes));
    } else {
        assert(decode_utf8(bytes) =~= ascii_text(bytes));
    }
}

/// Nuls behind a text without nuls are left out of it.
proof fn lemma_nul_padding_is_left_out(text: Seq<char>, padding: nat)
    requires
        forall|i: int| 0 <= i < text.len() ==> #[trigger] text[i] != '\0',
    ensures
        without(text + Seq::new(padding, |i: int| '\0'), '\0') == text,
    decreases padding,
{
    let padded = text + Seq::new(padding, |i: int| '\0');
    if padding > 0 {
        let less = (padding - 1) as nat;
        lemma_nul_padding_is_left_out(text, less);
        assert(padded.drop_last() =~= text + Seq::new(less, |i: int| '\0'));
        reveal(Seq::filter);
    } else {
        assert(padded =~= text);
        lemma_without_absent(text, '\0');
    }
}

/// ASCII text padded with nuls, as devices report it, is read without the padding.
pub proof fn padded_ascii_is_its_own_text(bytes: Seq<u8>, padding: nat)
    requires
        forall|i: int| 0 <= i < bytes.len() ==> 0 < #[trigger] bytes[i] < 128,
    ensures
        valid_utf8(bytes + Seq::new(padding, |i: int| 0u8)),
        text_of(bytes + Seq::new(padding, |i: int| 0u8)) == ascii_text(bytes),
{
    let padded = bytes + Seq::new(padding, |i: int| 0u8);
    lemma_ascii_decodes(padded);
    assert(ascii_text(padded) =~= ascii_text(bytes) + Seq::new(padding, |i: int| '\0'));
    lemma_nul_padding_is_left_out(ascii_text(bytes), padding);
}

/// Leaving out a character that does not occur changes nothing.
pub(crate) proof fn lemma_without_absent(text: Seq<char>, c: char)
    requires
        forall|i: int| 0 <= i < text.len() ==> #[trigger] text[i] != c,
    ensures
        without(text, c) == text,
    decreases text.len(),
{
    reveal(Seq::filter);
    if text.len() > 0 {
        lemma_without_absent(text.drop_last(), c);
        assert(text.drop_last().push(text.last()) =~= text);
    } else {
        assert(without(text, c) =~= text);
    }
}

/// Leaving a character out goes through a text from its beginning: each character that is another
/// one stays, in its place behind those that stayed before it, and the character itself goes.
pub proof fn leaving_out_keeps_all_others_in_order(text: Seq<char>, next: char, c: char)
    ensures
        without(seq![], c) == Seq::<char>::empty(),
        next != c ==> without(text.push(next), c) == without(text, c).push(next),
        without(text.push(c), c) == without(text, c),
{
    reveal(Seq::filter);
    assert(text.push(next).drop_last() =~= text);
    assert(text.push(c).drop_last() =~= text);
}

/// The text of some bytes is the whole of what they encode but for the nuls.
pub proof fn a_text_lacks_only_its_nuls(bytes: Seq<u8>)
    requires
        valid_utf8(bytes),
    ensures
        text_of(bytes) == without(decode_utf8(bytes), '\0'),
        (forall|i: int|
            0 <= i < decode_utf8(bytes).len() ==> #[trigger] decode_utf8(bytes)[i] != '\0')
            ==> text_of(bytes) == decode_utf8(bytes),
{
    if forall|i: int| 0 <= i < decode_utf8(bytes).len() ==> #[trigger] decode_utf8(bytes)[i] != '\0' {
        lemma_without_absent(decode_utf8(bytes), '\0');
    }
}

/// Extracting a text gives the whole of what valid UTF-8 encodes but for the nuls, and refuses
/// anything else.
pub proof fn extraction_gives_the_text(bytes: &[u8], res: Result<String, StreamDeckError>)
    requires
        call_ensures(extract_str, (bytes,), res),
    ensures
        valid_utf8(bytes@) ==> (res matches Ok(text) && text@ == without(
            decode_utf8(bytes@),
            '\0',
        )),
        !valid_utf8(bytes@) ==> (res matches Err(StreamDeckError::Utf8Error(e)) && e == utf8_error(
            bytes@,
        )),
{
}

} // verus!
