//! Where the source image comes from.
use vstd::prelude::*;
use vstd::string::StringSliceAdditionalSpecFns;
use vstd::utf8::{encode_utf8, encode_utf8_decode_utf8, is_ascii_chars, is_ascii_chars_encode_utf8};

verus! {

/// How the locator of the source image is to be read.
#[derive(Clone, Copy, Debug, PartialEq, Eq, Structural)]
pub enum SourceKind {
    /// An HTTP(S) URL, fetched with a blocking GET.
    Url,
    /// A path on the local file system.
    File,
}

/// The kind named by a command-line word: exactly `url` or `file`; any other
/// word names none.
pub open spec fn source_kind_of(word: Seq<char>) -> Option<SourceKind> {
    if word == seq!['u', 'r', 'l'] {
        Some(SourceKind::Url)
    } else if word == seq!['f', 'i', 'l', 'e'] {
        Some(SourceKind::File)
    } else {
        None
    }
}

/// An ASCII word is encoded one byte per character.
proof fn lemma_ascii_encoding(word: Seq<char>, bytes: Seq<u8>)
    requires
        is_ascii_chars(word),
        bytes.len() == word.len(),
        forall|i: int| 0 <= i < word.len() ==> bytes[i] == word[i] as u8,
    ensures
        encode_utf8(word) == bytes,
{
    is_ascii_chars_encode_utf8(word);
    assert(encode_utf8(word) =~= bytes);
}

/// Reads the source kind from a command-line word; `None` when the word is
/// neither `url` nor `file`.
pub fn parse_source_kind(word: &str) -> (r: Option<SourceKind>)
    ensures
        r == source_kind_of(word@),
{
    let b = word.as_bytes();
    proof {
        let url = seq!['u', 'r', 'l'];
        let file = seq!['f', 'i', 'l', 'e'];
        assert(is_ascii_chars(url));
        assert(is_ascii_chars(file));
        lemma_ascii_encoding(url, seq![117u8, 114u8, 108u8]);
        lemma_ascii_encoding(file, seq![102u8, 105u8, 108u8, 101u8]);
        encode_utf8_decode_utf8(word@);
        encode_utf8_decode_utf8(url);
        encode_utf8_decode_utf8(file);
    }
    if b.len() == 3 && b[0] == 117 && b[1] == 114 && b[2] == 108 {
        assert(b@ =~= seq![117u8, 114u8, 108u8]);
        Some(SourceKind::Url)
    } else if b.len() == 4 && b[0] == 102 && b[1] == 105 && b[2] == 108 && b[3] == 101 {
        assert(b@ =~= seq![102u8, 105u8, 108u8, 101u8]);
        Some(SourceKind::File)
    } else {
        None
    }
}

} // verus!
