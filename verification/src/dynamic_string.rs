use vstd::prelude::*;

use crate::bytes::string_push;
use encoding::label::encoding_from_whatwg_label;
use encoding::DecoderTrap;
use encoding::EncoderTrap;
use encoding::Encoding;
use vstd::string::StringExecFns;

verus! {

/// Capacity of the scratch byte buffer; once an append would exceed it, the
/// buffer is flushed first.
pub const TEXT_CAPACITY: usize = 1024 * 256 - 1;

/// What the codec registry answers for a label: whether a character encoding
/// is registered under it.
pub uninterp spec fn label_known(label: Seq<char>) -> bool;

/// What the codec registered under `label` decodes the bytes to, under the
/// lenient policy that ignores undecodable input.
pub uninterp spec fn decoded_by(label: Seq<char>, bytes: Seq<u8>) -> Seq<char>;

/// What the codec registered under `label` encodes the character with the
/// given code point to, under the lenient policy that ignores unencodable
/// characters.
pub uninterp spec fn encoded_code(label: Seq<char>, code: int) -> Seq<u8>;

/// Relies on encoding's encoding_from_whatwg_label: the registry is a fixed
/// table, so whether a label is known is a pure function of the label.
#[verifier::external_body]
pub fn codec_known(label: &str) -> (r: bool)
    ensures
        r == label_known(label@),
{
    encoding_from_whatwg_label(label).is_some()
}

/// Relies on encoding's encoding_from_whatwg_label and Encoding::decode with
/// DecoderTrap::Ignore: for a known label the bytes decode to a string that
/// is a pure function of label and bytes (the ignore trap never fails, so
/// the error arm is unreachable); an unknown label has no codec and nothing
/// is returned.
#[verifier::external_body]
pub fn codec_decode(label: &str, bytes: &[u8]) -> (r: Option<String>)
    ensures
        r.is_some() == label_known(label@),
        (r matches Some(t) ==> t@ == decoded_by(label@, bytes@)),
{
    match encoding_from_whatwg_label(label) {
        Some(codec) => match codec.decode(bytes, DecoderTrap::Ignore) {
            Ok(t) => Some(t),
            Err(_) => Some(String::new()),
        },
        None => None,
    }
}

/// Relies on encoding's encoding_from_whatwg_label and Encoding::encode with
/// EncoderTrap::Ignore: for a known label the encoded bytes of one character
/// are a pure function of label and code point (the ignore trap never fails,
/// so the error arm is unreachable); an unknown label has no codec and
/// nothing is returned.
#[verifier::external_body]
pub fn codec_encode_char(label: &str, ch: char) -> (r: Option<Vec<u8>>)
    ensures
        r.is_some() == label_known(label@),
        (r matches Some(b) ==> b@ == encoded_code(label@, ch as int)),
{
    match encoding_from_whatwg_label(label) {
        Some(codec) => {
            let s: String = ch.to_string();
            match codec.encode(&s, EncoderTrap::Ignore) {
                Ok(b) => Some(b),
                Err(_) => Some(Vec::new()),
            }
        },
        None => None,
    }
}

/// Lenient ASCII decoding: bytes at or below 127 become the characters with
/// the same code points, higher bytes are dropped.
pub open spec fn ascii_ignore(s: Seq<u8>) -> Seq<char>
    decreases s.len(),
{
    if s.len() == 0 {
        Seq::empty()
    } else if s[0] < 128 {
        seq![s[0] as char] + ascii_ignore(s.skip(1))
    } else {
        ascii_ignore(s.skip(1))
    }
}

/// What a flush turns pending bytes into: the configured codec's decoding
/// for a known label, the ASCII path when no codec is configured (or, as a
/// fallback that set_encoding makes unreachable, when the label is unknown).
pub open spec fn decode_spec(enc: Option<Seq<char>>, bytes: Seq<u8>) -> Seq<char> {
    match enc {
        Option::None => ascii_ignore(bytes),
        Option::Some(l) => if label_known(l) {
            decoded_by(l, bytes)
        } else {
            ascii_ignore(bytes)
        },
    }
}

/// Flushing the assembler: an empty scratch buffer is left alone, otherwise
/// its decoded contents move to the owned text and the buffer empties.
pub open spec fn flush_model(text: Seq<char>, pending: Seq<u8>, enc: Option<Seq<char>>) -> (
    Seq<char>,
    Seq<u8>,
) {
    if pending.len() == 0 {
        (text, pending)
    } else {
        (text + decode_spec(enc, pending), Seq::empty())
    }
}

/// Appending one byte: a full scratch buffer is flushed first.
pub open spec fn push_byte_model(
    text: Seq<char>,
    pending: Seq<u8>,
    enc: Option<Seq<char>>,
    b: u8,
) -> (Seq<char>, Seq<u8>) {
    if pending.len() >= TEXT_CAPACITY {
        let m = flush_model(text, pending, enc);
        (m.0, m.1.push(b))
    } else {
        (text, pending.push(b))
    }
}

/// Appending a run of bytes, one at a time.
pub open spec fn push_bytes_model(
    text: Seq<char>,
    pending: Seq<u8>,
    enc: Option<Seq<char>>,
    bs: Seq<u8>,
) -> (Seq<char>, Seq<u8>)
    decreases bs.len(),
{
    if bs.len() == 0 {
        (text, pending)
    } else {
        let m = push_byte_model(text, pending, enc, bs[0]);
        push_bytes_model(m.0, m.1, enc, bs.skip(1))
    }
}

/// The bytes one character contributes through the configured codec: nothing
/// without a codec or under an unknown label.
pub open spec fn char_bytes(enc: Option<Seq<char>>, code: int) -> Seq<u8> {
    match enc {
        Option::None => Seq::empty(),
        Option::Some(l) => if label_known(l) {
            encoded_code(l, code)
        } else {
            Seq::empty()
        },
    }
}

/// Appending one character: a byte-range character is appended as its byte,
/// any higher code point is appended as its codec encoding.
pub open spec fn push_char_model(
    text: Seq<char>,
    pending: Seq<u8>,
    enc: Option<Seq<char>>,
    c: char,
) -> (Seq<char>, Seq<u8>) {
    if c as int <= 127 {
        push_byte_model(text, pending, enc, c as u8)
    } else {
        push_bytes_model(text, pending, enc, char_bytes(enc, c as int))
    }
}

/// Feeding a concatenation of byte runs is feeding one after the other.
pub proof fn lemma_push_bytes_concat(
    text: Seq<char>,
    pending: Seq<u8>,
    enc: Option<Seq<char>>,
    a: Seq<u8>,
    b: Seq<u8>,
)
    ensures
        push_bytes_model(text, pending, enc, a + b) == ({
            let m = push_bytes_model(text, pending, enc, a);
            push_bytes_model(m.0, m.1, enc, b)
        }),
    decreases a.len(),
{
    if a.len() == 0 {
        assert(a + b =~= b);
    } else {
        assert((a + b)[0] == a[0]);
        assert((a + b).skip(1) =~= a.skip(1) + b);
        let m1 = push_byte_model(text, pending, enc, a[0]);
        lemma_push_bytes_concat(m1.0, m1.1, enc, a.skip(1), b);
    }
}

/// Feeding a single byte is one push.
pub proof fn lemma_push_one(text: Seq<char>, pending: Seq<u8>, enc: Option<Seq<char>>, b: u8)
    ensures
        push_bytes_model(text, pending, enc, seq![b]) == push_byte_model(text, pending, enc, b),
{
    let m = push_byte_model(text, pending, enc, b);
    assert(seq![b].skip(1) =~= Seq::<u8>::empty());
    assert(push_bytes_model(m.0, m.1, enc, Seq::<u8>::empty()) == (m.0, m.1));
}

/// Fast dynamic string building: decoded text accumulates in a bounded
/// scratch byte buffer and is flushed into the owned string through the
/// configured character encoding, avoiding per-character allocation for the
/// common ASCII case.
pub struct DynamicString {
    /// Finalised text is available in this string.
    pub text: String,
    /// Scratch bytes not yet decoded; its length never exceeds the capacity.
    pub buffer: Vec<u8>,
    /// Label of the character encoding used to decode the scratch bytes;
    /// with no label set, the ASCII fast path decodes them.
    pub enc_label: Option<String>,
}

impl DynamicString {
    /// The configured codec label as a character sequence.
    pub open spec fn enc_spec(&self) -> Option<Seq<char>> {
        match self.enc_label {
            Option::None => Option::None,
            Option::Some(l) => Option::Some(l@),
        }
    }

    /// The scratch buffer never outgrows its capacity.
    pub open spec fn wf(&self) -> bool {
        self.buffer@.len() <= TEXT_CAPACITY
    }

    /// Builds an assembler holding `s`, decoding through the codec
    /// registered under the default label; without one (never the case for
    /// the default) the ASCII fast path stands in.
    pub fn new(s: String) -> (r: DynamicString)
        ensures
            r.wf(),
            r.text@ == s@,
            r.buffer@ == Seq::<u8>::empty(),
            r.enc_spec() == (if label_known(("utf-8")@) {
                Option::Some(("utf-8")@)
            } else {
                Option::<Seq<char>>::None
            }),
    {
        let mut r = DynamicString { text: s, buffer: Vec::new(), enc_label: None };
        if codec_known("utf-8") {
            r.enc_label = Some(String::from_str("utf-8"));
        }
        proof {
            assert(r.buffer@ =~= Seq::<u8>::empty());
        }
        r
    }

    /// Resets the object to a zero-length string; the codec is kept.
    pub fn clear(&mut self)
        ensures
            final(self).wf(),
            final(self).text@ == Seq::<char>::empty(),
            final(self).buffer@ == Seq::<u8>::empty(),
            final(self).enc_spec() == old(self).enc_spec(),
    {
        self.text = String::new();
        self.buffer = Vec::new();
        proof {
            assert(self.buffer@ =~= Seq::<u8>::empty());
        }
    }

    /// Sets the encoding used by subsequent appends and flushes; a label the
    /// codec registry does not know is refused and the old codec is kept.
    /// Already-flushed text is not affected.
    pub fn set_encoding(&mut self, label: &str) -> (r: bool)
        ensures
            final(self).wf() == old(self).wf(),
            r == label_known(label@),
            final(self).text == old(self).text,
            final(self).buffer == old(self).buffer,
            r ==> final(self).enc_spec() == Option::Some(label@),
            !r ==> final(self).enc_spec() == old(self).enc_spec(),
    {
        if codec_known(label) {
            self.enc_label = Some(label.to_owned());
            true
        } else {
            false
        }
    }

    /// Appends the lenient ASCII decoding of `bytes` to `text`.
    fn ascii_append(text: &mut String, bytes: &[u8])
        ensures
            final(text)@ == old(text)@ + ascii_ignore(bytes@),
    {
        let mut i: usize = 0;
        proof {
            assert(bytes@.skip(0) =~= bytes@);
            assert(old(text)@ + ascii_ignore(bytes@.skip(0)) =~= old(text)@ + ascii_ignore(
                bytes@,
            ));
        }
        while i < bytes.len()
            invariant
                i <= bytes@.len(),
                text@ + ascii_ignore(bytes@.skip(i as int)) =~= old(text)@ + ascii_ignore(bytes@),
            decreases bytes@.len() - i,
        {
            proof {
                assert(bytes@.skip(i as int)[0] == bytes@[i as int]);
                assert(bytes@.skip(i as int).skip(1) =~= bytes@.skip(i as int + 1));
            }
            let b = bytes[i];
            if b < 128 {
                string_push(text, b as char);
                proof {
                    assert(text@ + ascii_ignore(bytes@.skip(i as int + 1)) =~= old(text)@
                        + ascii_ignore(bytes@));
                }
            }
            i += 1;
        }
        proof {
            assert(bytes@.skip(i as int) =~= Seq::<u8>::empty());
            assert(text@ =~= text@ + ascii_ignore(bytes@.skip(i as int)));
        }
    }

    /// Decodes the scratch buffer into the owned string and resets it.
    fn flush_internal(&mut self)
        requires
            old(self).wf(),
        ensures
            final(self).wf(),
            (final(self).text@, final(self).buffer@) == flush_model(
                old(self).text@,
                old(self).buffer@,
                old(self).enc_spec(),
            ),
            final(self).enc_spec() == old(self).enc_spec(),
    {
        if self.buffer.len() == 0 {
            return ;
        }
        let decoded: Option<String> = match &self.enc_label {
            Some(l) => codec_decode(l.as_str(), self.buffer.as_slice()),
            None => None,
        };
        match decoded {
            Some(t) => {
                self.text.append(t.as_str());
            },
            None => {
                Self::ascii_append(&mut self.text, self.buffer.as_slice());
            },
        }
        self.buffer = Vec::new();
        proof {
            assert(self.buffer@ =~= Seq::<u8>::empty());
        }
    }

    /// Appends one raw byte, flushing first when the scratch buffer is full.
    pub fn append_byte(&mut self, b: u8)
        requires
            old(self).wf(),
        ensures
            final(self).wf(),
            (final(self).text@, final(self).buffer@) == push_byte_model(
                old(self).text@,
                old(self).buffer@,
                old(self).enc_spec(),
                b,
            ),
            final(self).enc_spec() == old(self).enc_spec(),
    {
        if self.buffer.len() >= TEXT_CAPACITY {
            self.flush_internal();
        }
        self.buffer.push(b);
    }

    /// Appends one character: a byte-range character goes into the scratch
    /// buffer directly, a higher code point is encoded through the configured
    /// codec (and contributes nothing when no codec is configured).
    pub fn append(&mut self, ch: char)
        requires
            old(self).wf(),
        ensures
            final(self).wf(),
            (final(self).text@, final(self).buffer@) == push_char_model(
                old(self).text@,
                old(self).buffer@,
                old(self).enc_spec(),
                ch,
            ),
            final(self).enc_spec() == old(self).enc_spec(),
    {
        if (ch as u32) <= 127 {
            self.append_byte(ch as u8);
            return ;
        }
        let encoded: Option<Vec<u8>> = match &self.enc_label {
            Some(l) => codec_encode_char(l.as_str(), ch),
            None => None,
        };
        match encoded {
            Some(bs) => {
                let ghost target = push_bytes_model(
                    old(self).text@,
                    old(self).buffer@,
                    old(self).enc_spec(),
                    bs@,
                );
                let mut k: usize = 0;
                proof {
                    assert(bs@.skip(0) =~= bs@);
                }
                while k < bs.len()
                    invariant
                        k <= bs@.len(),
                        self.wf(),
                        self.enc_spec() == old(self).enc_spec(),
                        push_bytes_model(
                            self.text@,
                            self.buffer@,
                            self.enc_spec(),
                            bs@.skip(k as int),
                        ) == target,
                    decreases bs@.len() - k,
                {
                    proof {
                        assert(bs@.skip(k as int)[0] == bs@[k as int]);
                        assert(bs@.skip(k as int).skip(1) =~= bs@.skip(k as int + 1));
                    }
                    self.append_byte(bs[k]);
                    k += 1;
                }
                proof {
                    assert(bs@.skip(k as int) =~= Seq::<u8>::empty());
                }
            },
            None => {
                proof {
                    assert(char_bytes(old(self).enc_spec(), ch as int) =~= Seq::<u8>::empty());
                }
            },
        }
    }

    /// Flushes the scratch buffer: its decoded contents are appended to the
    /// owned string and the buffer is reset.
    pub fn flush(&mut self)
        requires
            old(self).wf(),
        ensures
            final(self).wf(),
            (final(self).text@, final(self).buffer@) == flush_model(
                old(self).text@,
                old(self).buffer@,
                old(self).enc_spec(),
            ),
            final(self).enc_spec() == old(self).enc_spec(),
    {
        self.flush_internal();
    }

    /// The finalised text assembled so far.
    pub fn string(&self) -> (r: &String)
        ensures
            r@ == self.text@,
    {
        &self.text
    }
}

} // verus!
