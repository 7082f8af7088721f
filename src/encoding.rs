//! Encoding detection and decoding. An encoding is named by its canonical
//! label in the Encoding Standard (`UTF-8`, `UTF-16LE`, `windows-1251`).

use vstd::prelude::*;
use crate::error::Error;

verus! {

pub open spec fn utf8_name() -> Seq<u8> {
    seq![0x55u8, 0x54, 0x46, 0x2D, 0x38]
}

pub open spec fn utf16le_name() -> Seq<u8> {
    seq![0x55u8, 0x54, 0x46, 0x2D, 0x31, 0x36, 0x4C, 0x45]
}

pub open spec fn utf16be_name() -> Seq<u8> {
    seq![0x55u8, 0x54, 0x46, 0x2D, 0x31, 0x36, 0x42, 0x45]
}

/// `UTF-8`
pub fn utf8() -> (r: Vec<u8>)
    ensures
        r@ == utf8_name(),
{
    let r = vec![0x55u8, 0x54, 0x46, 0x2D, 0x38];
    assert(r@ =~= utf8_name());
    r
}

/// `UTF-16LE`
pub fn utf16le() -> (r: Vec<u8>)
    ensures
        r@ == utf16le_name(),
{
    let r = vec![0x55u8, 0x54, 0x46, 0x2D, 0x31, 0x36, 0x4C, 0x45];
    assert(r@ =~= utf16le_name());
    r
}

/// `UTF-16BE`
pub fn utf16be() -> (r: Vec<u8>)
    ensures
        r@ == utf16be_name(),
{
    let r = vec![0x55u8, 0x54, 0x46, 0x2D, 0x31, 0x36, 0x42, 0x45];
    assert(r@ =~= utf16be_name());
    r
}

/// The encoding that the Encoding Standard gives to `label`, by its canonical
/// name, or `None` for an unknown label.
pub uninterp spec fn label_encoding(label: Seq<u8>) -> Option<Seq<u8>>;

/// The text that `bytes` decode to in the encoding labelled `label`, or `None`
/// where they are malformed in it (or the label is unknown).
pub uninterp spec fn decoded_text(label: Seq<u8>, bytes: Seq<u8>) -> Option<Seq<char>>;

/// Relies on `encoding_rs::Encoding::for_label` (the Encoding Standard's
/// "get an encoding") and `Encoding::name`, which gives its canonical name.
#[verifier::external_body]
pub(crate) fn lookup_label(label: &[u8]) -> (r: Option<Vec<u8>>)
    ensures
        match r {
            Some(v) => label_encoding(label@) == Some(v@),
            None => label_encoding(label@) is None,
        },
{
    encoding_rs::Encoding::for_label(label).map(|e| e.name().as_bytes().to_vec())
}

/// Relies on `encoding_rs::Encoding::for_label` to find the encoding and on
/// `Encoding::decode_without_bom_handling_and_without_replacement`, which
/// decodes without touching a BOM and gives `None` on malformed input.
#[verifier::external_body]
fn decode_bytes(label: &[u8], bytes: &[u8]) -> (r: Option<String>)
    ensures
        match r {
            Some(s) => decoded_text(label@, bytes@) == Some(s@),
            None => decoded_text(label@, bytes@) is None,
        },
{
    match encoding_rs::Encoding::for_label(label) {
        Some(e) => e.decode_without_bom_handling_and_without_replacement(bytes).map(
            |c| c.into_owned(),
        ),
        None => None,
    }
}

/// The known encoding together with how it was learnt.
#[derive(Debug, Clone, PartialEq, Eq)]
pub enum EncodingRef {
    /// Assumed; a BOM or the XML declaration may refine it.
    Implicit(Vec<u8>),
    /// Set by the caller; never changes.
    Explicit(Vec<u8>),
    /// Detected from the first bytes; the XML declaration may refine it.
    BomDetected(Vec<u8>),
    /// Read from the XML declaration; never changes.
    XmlDetected(Vec<u8>),
}

impl EncodingRef {
    /// The name of the encoding.
    pub open spec fn name(&self) -> Seq<u8> {
        match self {
            EncodingRef::Implicit(e) => e@,
            EncodingRef::Explicit(e) => e@,
            EncodingRef::BomDetected(e) => e@,
            EncodingRef::XmlDetected(e) => e@,
        }
    }

    pub open spec fn refinable(&self) -> bool {
        self is Implicit || self is BomDetected
    }

    /// The name of the encoding.
    pub fn encoding(&self) -> (r: &[u8])
        ensures
            r@ == self.name(),
    {
        match self {
            EncodingRef::Implicit(e) => e.as_slice(),
            EncodingRef::Explicit(e) => e.as_slice(),
            EncodingRef::BomDetected(e) => e.as_slice(),
            EncodingRef::XmlDetected(e) => e.as_slice(),
        }
    }

    /// Whether a BOM or the XML declaration may still change the encoding.
    pub fn can_be_refined(&self) -> (r: bool)
        ensures
            r == self.refinable(),
    {
        match self {
            EncodingRef::Implicit(_) | EncodingRef::BomDetected(_) => true,
            EncodingRef::Explicit(_) | EncodingRef::XmlDetected(_) => false,
        }
    }
}

pub open spec fn starts_with(s: Seq<u8>, p: Seq<u8>) -> bool {
    s.len() >= p.len() && s.take(p.len() as int) == p
}

/// The encoding that the first bytes of a document show: a byte order mark,
/// or the start of `<?xml` in UTF-16 or an ASCII-compatible encoding.
pub open spec fn detected_encoding(s: Seq<u8>) -> Option<Seq<u8>> {
    if starts_with(s, seq![0xFEu8, 0xFF]) {
        Some(utf16be_name())
    } else if starts_with(s, seq![0xFFu8, 0xFE]) {
        Some(utf16le_name())
    } else if starts_with(s, seq![0xEFu8, 0xBB, 0xBF]) {
        Some(utf8_name())
    } else if starts_with(s, seq![0x00u8, 0x3C, 0x00, 0x3F]) {
        Some(utf16be_name())
    } else if starts_with(s, seq![0x3Cu8, 0x00, 0x3F, 0x00]) {
        Some(utf16le_name())
    } else if starts_with(s, seq![0x3Cu8, 0x3F, 0x78, 0x6D]) {
        Some(utf8_name())
    } else {
        None
    }
}

/// Infers the encoding from the first bytes of a document, if they show one.
pub fn detect_encoding(bytes: &[u8]) -> (r: Option<Vec<u8>>)
    ensures
        match r {
            Some(v) => detected_encoding(bytes@) == Some(v@),
            None => detected_encoding(bytes@) is None,
        },
{
    let n = bytes.len();
    let ghost s = bytes@;
    if n >= 2 && bytes[0] == 0xFE && bytes[1] == 0xFF {
        assert(s.take(2) =~= seq![0xFEu8, 0xFF]);
        Some(utf16be())
    } else if n >= 2 && bytes[0] == 0xFF && bytes[1] == 0xFE {
        assert(s.take(2) =~= seq![0xFFu8, 0xFE]);
        Some(utf16le())
    } else if n >= 3 && bytes[0] == 0xEF && bytes[1] == 0xBB && bytes[2] == 0xBF {
        assert(s.take(3) =~= seq![0xEFu8, 0xBB, 0xBF]);
        Some(utf8())
    } else if n >= 4 && bytes[0] == 0x00 && bytes[1] == 0x3C && bytes[2] == 0x00 && bytes[3]
        == 0x3F {
        assert(s.take(4) =~= seq![0x00u8, 0x3C, 0x00, 0x3F]);
        Some(utf16be())
    } else if n >= 4 && bytes[0] == 0x3C && bytes[1] == 0x00 && bytes[2] == 0x3F && bytes[3]
        == 0x00 {
        assert(s.take(4) =~= seq![0x3Cu8, 0x00, 0x3F, 0x00]);
        Some(utf16le())
    } else if n >= 4 && bytes[0] == 0x3C && bytes[1] == 0x3F && bytes[2] == 0x78 && bytes[3]
        == 0x6D {
        assert(s.take(4) =~= seq![0x3Cu8, 0x3F, 0x78, 0x6D]);
        Some(utf8())
    } else {
        proof {
            if starts_with(s, seq![0xFEu8, 0xFF]) {
                assert(s[0] == s.take(2)[0] && s[1] == s.take(2)[1]);
            }
            if starts_with(s, seq![0xFFu8, 0xFE]) {
                assert(s[0] == s.take(2)[0] && s[1] == s.take(2)[1]);
            }
            if starts_with(s, seq![0xEFu8, 0xBB, 0xBF]) {
                assert(s[0] == s.take(3)[0] && s[1] == s.take(3)[1] && s[2] == s.take(3)[2]);
            }
            if starts_with(s, seq![0x00u8, 0x3C, 0x00, 0x3F]) || starts_with(
                s,
                seq![0x3Cu8, 0x00, 0x3F, 0x00],
            ) || starts_with(s, seq![0x3Cu8, 0x3F, 0x78, 0x6D]) {
                assert(s[0] == s.take(4)[0] && s[1] == s.take(4)[1] && s[2] == s.take(4)[2]
                    && s[3] == s.take(4)[3]);
            }
        }
        None
    }
}

/// Decodes bytes that the reader produced, in the encoding it knows.
#[derive(Debug, Clone, PartialEq, Eq)]
pub struct Decoder {
    pub encoding: Vec<u8>,
}

/// The bytes without the byte order mark of `enc`, if they start with it.
pub open spec fn without_bom(enc: Seq<u8>, s: Seq<u8>) -> Seq<u8> {
    if enc == utf8_name() && starts_with(s, seq![0xEFu8, 0xBB, 0xBF]) {
        s.skip(3)
    } else if enc == utf16le_name() && starts_with(s, seq![0xFFu8, 0xFE]) {
        s.skip(2)
    } else if enc == utf16be_name() && starts_with(s, seq![0xFEu8, 0xFF]) {
        s.skip(2)
    } else {
        s
    }
}

fn bytes_eq(a: &[u8], b: &[u8]) -> (r: bool)
    ensures
        r == (a@ == b@),
{
    if a.len() != b.len() {
        return false;
    }
    let mut i: usize = 0;
    while i < a.len()
        invariant
            a@.len() == b@.len(),
            i <= a@.len(),
            forall|j: int| 0 <= j < i ==> a@[j] == b@[j],
        decreases a@.len() - i,
    {
        if a[i] != b[i] {
            return false;
        }
        i = i + 1;
    }
    assert(a@ =~= b@);
    true
}

impl Decoder {
    /// The name of the encoding in use.
    pub fn encoding(&self) -> (r: &[u8])
        ensures
            r@ == self.encoding@,
    {
        self.encoding.as_slice()
    }

    /// Decodes `bytes` as they stand, a BOM included.
    pub fn decode(&self, bytes: &[u8]) -> (r: Result<String, Error>)
        ensures
            match r {
                Ok(s) => decoded_text(self.encoding@, bytes@) == Some(s@),
                Err(e) => decoded_text(self.encoding@, bytes@) is None && e == Error::NonDecodable,
            },
    {
        match decode_bytes(self.encoding.as_slice(), bytes) {
            Some(s) => Ok(s),
            None => Err(Error::NonDecodable),
        }
    }

    /// Decodes `bytes` after taking away the byte order mark of the encoding.
    pub fn decode_with_bom_removal(&self, bytes: &[u8]) -> (r: Result<String, Error>)
        ensures
            match r {
                Ok(s) => decoded_text(self.encoding@, without_bom(self.encoding@, bytes@)) == Some(
                    s@,
                ),
                Err(e) => decoded_text(self.encoding@, without_bom(self.encoding@, bytes@)) is None
                    && e == Error::NonDecodable,
            },
    {
        let b = self.remove_bom(bytes);
        self.decode(b)
    }

    /// `bytes` without the byte order mark of the encoding in use.
    pub fn remove_bom<'b>(&self, bytes: &'b [u8]) -> (r: &'b [u8])
        ensures
            r@ == without_bom(self.encoding@, bytes@),
    {
        let n = bytes.len();
        let enc = self.encoding.as_slice();
        let ghost s = bytes@;
        let u8n = utf8();
        let le = utf16le();
        let be = utf16be();
        if bytes_eq(enc, u8n.as_slice()) && n >= 3 && bytes[0] == 0xEF && bytes[1] == 0xBB
            && bytes[2] == 0xBF {
            assert(s.take(3) =~= seq![0xEFu8, 0xBB, 0xBF]);
            return vstd::slice::slice_subrange(bytes, 3, n);
        }
        proof {
            if enc@ == utf8_name() && starts_with(s, seq![0xEFu8, 0xBB, 0xBF]) {
                assert(s[0] == s.take(3)[0] && s[1] == s.take(3)[1] && s[2] == s.take(3)[2]);
            }
        }
        if bytes_eq(enc, le.as_slice()) && n >= 2 && bytes[0] == 0xFF && bytes[1] == 0xFE {
            assert(s.take(2) =~= seq![0xFFu8, 0xFE]);
            assert(enc@ != utf8_name()) by {
                assert(enc@.len() != utf8_name().len());
            }
            return vstd::slice::slice_subrange(bytes, 2, n);
        }
        proof {
            if enc@ == utf16le_name() && starts_with(s, seq![0xFFu8, 0xFE]) {
                assert(s[0] == s.take(2)[0] && s[1] == s.take(2)[1]);
            }
        }
        if bytes_eq(enc, be.as_slice()) && n >= 2 && bytes[0] == 0xFE && bytes[1] == 0xFF {
            assert(s.take(2) =~= seq![0xFEu8, 0xFF]);
            assert(enc@ != utf8_name()) by {
                assert(enc@.len() != utf8_name().len());
            }
            assert(enc@ != utf16le_name()) by {
                assert(enc@[6] != utf16le_name()[6]);
            }
            return vstd::slice::slice_subrange(bytes, 2, n);
        }
        proof {
            if enc@ == utf16be_name() && starts_with(s, seq![0xFEu8, 0xFF]) {
                assert(s[0] == s.take(2)[0] && s[1] == s.take(2)[1]);
            }
        }
        bytes
    }
}

} // verus!
