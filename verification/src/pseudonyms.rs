use vstd::prelude::*;
use vstd::utf8::{decode_utf8, encode_scalar, encode_utf8, encode_utf8_decode_utf8,
    has_width_1_encoding, has_width_2_encoding, has_width_3_encoding};

use crate::account::AccountId;
use crate::result::Error;

verus! {

/// Highest number of characters a pseudonym may hold; also the capacity, in
/// bytes, of the canonical encoded form.
pub const MAX_LEN: usize = 32;

/// Lowest number of characters a pseudonym may hold.
pub const MIN_LEN: usize = 4;

/// The Unicode classification behind the pseudonym alphabet: what
/// `char::is_alphanumeric` returns depends on the character alone.
pub uninterp spec fn is_unicode_alnum(c: char) -> bool;

/// Relies on `char::is_alphanumeric`: whether the character is a Unicode
/// letter or number. NUL is a control character, neither letter nor number,
/// so an alphanumeric character is never NUL.
pub assume_specification[ char::is_alphanumeric ](c: char) -> (r: bool)
    ensures
        r == is_unicode_alnum(c),
        r ==> c as u32 != 0,
;

/// The pseudonym alphabet: Unicode letters and numbers, and the underscore.
/// NUL is a control character, never alphanumeric; the alphabet records that
/// outright so that proofs about the encoded form can rely on it.
pub open spec fn is_word_char(c: char) -> bool {
    &&& c as u32 != 0
    &&& (is_unicode_alnum(c) || c == '_')
}

/// A string is acceptable as a pseudonym when its length in characters lies
/// in `[MIN_LEN, MAX_LEN]` and every character belongs to the alphabet.
pub open spec fn valid_pseudonym(s: Seq<char>) -> bool {
    &&& MIN_LEN <= s.len() <= MAX_LEN
    &&& forall|i: int| 0 <= i < s.len() ==> is_word_char(s[i])
}

/// The verdict of the codec on an arbitrary string: the length check comes
/// first, then the alphabet check.
pub open spec fn pseudonym_check(s: Seq<char>) -> Result<(), Error> {
    if !(MIN_LEN <= s.len() <= MAX_LEN) {
        Err(Error::BadPseudonymLength)
    } else if exists|i: int| 0 <= i < s.len() && !is_word_char(s[i]) {
        Err(Error::BadStringInput)
    } else {
        Ok(())
    }
}

/// The canonical fixed-capacity form of an accepted string: its UTF-8 bytes
/// left-packed into a `MAX_LEN`-byte buffer, right-padded with zero bytes.
/// For ASCII text one character is one byte, so the buffer always fits; a
/// wider character takes more bytes than one, and a text whose encoding
/// outgrows the buffer keeps its bare encoding, unpadded.
pub open spec fn spec_encode(s: Seq<char>) -> Seq<u8> {
    let bytes = encode_utf8(s);
    if bytes.len() >= MAX_LEN {
        bytes
    } else {
        bytes + Seq::new((MAX_LEN - bytes.len()) as nat, |i: int| 0u8)
    }
}

/// How many meaningful bytes a canonical buffer holds: the length of its
/// leading run of non-zero bytes. The alphabet admits no NUL, and no other
/// character puts a zero byte into UTF-8, so the padding starts at the
/// first zero.
pub open spec fn content_len(b: Seq<u8>) -> int
    decreases b.len(),
{
    if b.len() == 0 || b[0] == 0 {
        0
    } else {
        1 + content_len(b.drop_first())
    }
}

/// Reads the string back out of a canonical buffer: the padding is stripped
/// and the meaningful bytes are decoded as UTF-8.
pub open spec fn spec_decode(b: Seq<u8>) -> Seq<char> {
    decode_utf8(b.take(content_len(b)))
}

/// A canonicalized pseudonym. Its text holds between `MIN_LEN` and `MAX_LEN`
/// characters, each a Unicode letter, number or underscore; its canonical
/// encoded form is `spec_encode(self@)`.
pub struct Identifier {
    text: String,
}

impl View for Identifier {
    type V = Seq<char>;

    closed spec fn view(&self) -> Seq<char> {
        self.text@
    }
}

impl Identifier {
    /// A well-formed identifier holds an accepted pseudonym.
    pub open spec fn wf(&self) -> bool {
        valid_pseudonym(self@)
    }

    /// Validates and canonicalizes a user-supplied string: the length check,
    /// counting characters, precedes the character check, and an accepted
    /// string is taken over unchanged.
    pub fn try_from_str(input: &str) -> (r: Result<Identifier, Error>)
        ensures
            r matches Ok(id) ==> id.wf() && id@ == input@ && pseudonym_check(input@) is Ok,
            r matches Err(e) ==> pseudonym_check(input@) == Err::<(), Error>(e),
            r is Ok <==> pseudonym_check(input@) is Ok,
    {
        let n = input.unicode_len();
        if n < MIN_LEN || n > MAX_LEN {
            return Err(Error::BadPseudonymLength);
        }
        let mut i: usize = 0;
        while i < n
            invariant
                n == input@.len(),
                MIN_LEN <= n <= MAX_LEN,
                i <= n,
                forall|j: int| 0 <= j < i ==> is_word_char(input@[j]),
            decreases n - i,
        {
            let c = input.get_char(i);
            if !word_char(c) {
                return Err(Error::BadStringInput);
            }
            i += 1;
        }
        Ok(Identifier { text: String::from_str(input) })
    }

    /// The pseudonym as text: the exact string the identifier was accepted
    /// from, with no trace of the encoded form's padding.
    pub fn to_text(&self) -> (r: String)
        ensures
            r@ == self@,
    {
        self.text.clone()
    }

    /// Equality of identifiers; on well-formed identifiers whose encodings
    /// fit the canonical buffer this coincides with byte-for-byte equality
    /// of the canonical forms (`lemma_encode_injective`).
    pub fn same_as(&self, other: &Identifier) -> (r: bool)
        ensures
            r == (self@ == other@),
    {
        self.text == other.text
    }

    /// The canonical fixed-capacity encoded form, as storage substrates
    /// would hold it. The buffer holds the UTF-8 encoding, which fits
    /// whenever it is at most `MAX_LEN` bytes — always, for ASCII text.
    pub fn encode(&self) -> (r: Vec<u8>)
        requires
            self.wf(),
            encode_utf8(self@).len() <= MAX_LEN,
        ensures
            r@ == spec_encode(self@),
    {
        let mut buf = self.text.as_str().as_bytes_vec();
        proof {
            assert(buf@ == encode_utf8(self@));
        }
        while buf.len() < MAX_LEN
            invariant
                encode_utf8(self@).len() <= buf@.len() <= MAX_LEN,
                forall|j: int|
                    0 <= j < encode_utf8(self@).len() ==> buf@[j] == encode_utf8(self@)[j],
                forall|j: int| encode_utf8(self@).len() <= j < buf@.len() ==> buf@[j] == 0u8,
            decreases MAX_LEN - buf@.len(),
        {
            buf.push(0u8);
        }
        proof {
            assert(buf@ =~= spec_encode(self@));
        }
        buf
    }
}

impl Clone for Identifier {
    fn clone(&self) -> (r: Self)
        ensures
            r == *self,
    {
        Identifier { text: self.text.clone() }
    }
}

/// Whether a character belongs to the pseudonym alphabet.
fn word_char(c: char) -> (r: bool)
    ensures
        r == is_word_char(c),
{
    c.is_alphanumeric() || c == '_'
}

/// No byte of a non-NUL character's UTF-8 encoding is zero: a one-byte
/// encoding is the character's own non-zero value, and every byte of a
/// wider encoding has its high bit set.
proof fn lemma_encode_scalar_nonzero(v: u32)
    requires
        v != 0,
    ensures
        forall|j: int| 0 <= j < encode_scalar(v).len() ==> #[trigger] encode_scalar(v)[j] != 0,
{
    let s = encode_scalar(v);
    if has_width_1_encoding(v) {
        assert(((v & 0x7F) as u8) != 0) by (bit_vector)
            requires
                v != 0 && v < 0x80,
        ;
        assert(s[0] != 0);
    } else if has_width_2_encoding(v) {
        assert((0xC0u8 | (((v >> 6) & 0x1F) as u8)) != 0) by (bit_vector);
        assert((0x80u8 | ((v & 0x3F) as u8)) != 0) by (bit_vector);
        assert(s[0] != 0 && s[1] != 0);
    } else if has_width_3_encoding(v) {
        assert((0xE0u8 | (((v >> 12) & 0x0F) as u8)) != 0) by (bit_vector);
        assert((0x80u8 | (((v >> 6) & 0x3F) as u8)) != 0) by (bit_vector);
        assert((0x80u8 | ((v & 0x3F) as u8)) != 0) by (bit_vector);
        assert(s[0] != 0 && s[1] != 0 && s[2] != 0);
    } else {
        assert((0xF0u8 | (((v >> 18) & 0x7) as u8)) != 0) by (bit_vector);
        assert((0x80u8 | (((v >> 12) & 0x3F) as u8)) != 0) by (bit_vector);
        assert((0x80u8 | (((v >> 6) & 0x3F) as u8)) != 0) by (bit_vector);
        assert((0x80u8 | ((v & 0x3F) as u8)) != 0) by (bit_vector);
        assert(s[0] != 0 && s[1] != 0 && s[2] != 0 && s[3] != 0);
    }
}

/// The UTF-8 encoding of a NUL-free string holds no zero byte.
proof fn lemma_encode_utf8_nonzero(s: Seq<char>)
    requires
        forall|i: int| 0 <= i < s.len() ==> (#[trigger] s[i] as u32) != 0,
    ensures
        forall|j: int| 0 <= j < encode_utf8(s).len() ==> #[trigger] encode_utf8(s)[j] != 0,
    decreases s.len(),
{
    if s.len() > 0 {
        let rest = s.drop_first();
        lemma_encode_scalar_nonzero(s[0] as u32);
        assert forall|i: int| 0 <= i < rest.len() implies (#[trigger] rest[i] as u32) != 0 by {
            assert(rest[i] == s[i + 1]);
        }
        lemma_encode_utf8_nonzero(rest);
        let head = encode_scalar(s[0] as u32);
        let tail = encode_utf8(rest);
        assert forall|j: int| 0 <= j < encode_utf8(s).len() implies #[trigger] encode_utf8(s)[j]
            != 0 by {
            if j < head.len() {
                assert(encode_utf8(s)[j] == head[j]);
            } else {
                assert(encode_utf8(s)[j] == tail[j - head.len()]);
            }
        }
    }
}

/// The leading run of non-zero bytes of `b` is exactly `n` when the first
/// `n` bytes are non-zero and the byte after them, if any, is zero.
proof fn lemma_content_len(b: Seq<u8>, n: int)
    requires
        0 <= n <= b.len(),
        forall|i: int| 0 <= i < n ==> b[i] != 0,
        n < b.len() ==> b[n] == 0,
    ensures
        content_len(b) == n,
    decreases n,
{
    if n == 0 {
    } else {
        let rest = b.drop_first();
        assert forall|i: int| 0 <= i < n - 1 implies rest[i] != 0 by {
            assert(rest[i] == b[i + 1]);
        }
        assert(n - 1 < rest.len() ==> rest[n - 1] == b[n] == 0);
        lemma_content_len(rest, n - 1);
    }
}

/// Decoding is the exact inverse of encoding on the accepted strings whose
/// UTF-8 encoding fits the canonical buffer: such a string comes back
/// unchanged.
pub proof fn lemma_codec_round_trip(s: Seq<char>)
    requires
        valid_pseudonym(s),
        encode_utf8(s).len() <= MAX_LEN,
    ensures
        spec_decode(spec_encode(s)) == s,
{
    let eb = encode_utf8(s);
    assert forall|i: int| 0 <= i < s.len() implies (#[trigger] s[i] as u32) != 0 by {
        assert(is_word_char(s[i]));
    }
    lemma_encode_utf8_nonzero(s);
    let b = spec_encode(s);
    assert forall|i: int| 0 <= i < eb.len() implies b[i] != 0 by {
        assert(b[i] == eb[i]);
    }
    if eb.len() < MAX_LEN {
        assert(b[eb.len() as int] == 0);
    }
    lemma_content_len(b, eb.len() as int);
    assert(b.take(eb.len() as int) =~= eb);
    encode_utf8_decode_utf8(s);
}

/// Encoding is injective on the accepted strings that fit the canonical
/// buffer, and with it identifier equality is exactly byte-for-byte
/// equality of the canonical forms.
pub proof fn lemma_encode_injective(s1: Seq<char>, s2: Seq<char>)
    requires
        valid_pseudonym(s1),
        valid_pseudonym(s2),
        encode_utf8(s1).len() <= MAX_LEN,
        encode_utf8(s2).len() <= MAX_LEN,
    ensures
        spec_encode(s1) == spec_encode(s2) <==> s1 == s2,
{
    if spec_encode(s1) == spec_encode(s2) {
        lemma_codec_round_trip(s1);
        lemma_codec_round_trip(s2);
    }
}

/// The attestation record bound to a claimed pseudonym: who owns it, and the
/// attestation fact, recorded jointly or not at all.
pub struct Info {
    pub owner: AccountId,
    pub verified_by: Option<AccountId>,
    pub verified_at: Option<u32>,
}

/// The mathematical shadow of an [`Info`] record.
pub struct InfoModel {
    pub owner: Seq<u8>,
    pub verified_by: Option<Seq<u8>>,
    pub verified_at: Option<u32>,
}

impl View for Info {
    type V = InfoModel;

    open spec fn view(&self) -> InfoModel {
        InfoModel {
            owner: self.owner@,
            verified_by: match self.verified_by {
                Some(a) => Some(a@),
                None => None,
            },
            verified_at: self.verified_at,
        }
    }
}

/// An attestation is a single atomic fact: the attesting verifier and the
/// block height are recorded together or not at all.
pub open spec fn info_ok(i: InfoModel) -> bool {
    i.verified_by is Some <==> i.verified_at is Some
}

} // verus!
