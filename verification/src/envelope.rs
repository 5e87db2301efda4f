//! The envelope: an addressed, attributed message framed as one flat byte
//! sequence.
//!
//! The wire form is `address $ attribute-block $ payload`. Encoding is pure
//! concatenation; decoding scans twice for the *first* `$`, so only the
//! first two `$` bytes are structurally significant and the payload — all
//! the bytes after the second one, verbatim — may contain any byte value,
//! `$` included. Decoding fails when the input holds fewer than two `$`
//! bytes, or when the section between them is not a well-formed attribute
//! block.

use vstd::prelude::*;
use vstd::string::{StrSliceExecFns, StringSliceAdditionalSpecFns};

use crate::attributes::{
    attribute_fields, attributes_bytes, attributes_of_bytes, attributes_text, fields_free_of,
    lemma_attributes_bytes_is_join, lemma_attributes_reencode, lemma_attributes_round_trip,
    MessageAttributes, MessageAttributesView, ATTRIBUTE_DELIMITER,
};
use crate::render::{lossy_text, lossy_text_of};
use crate::delimited::{
    count_byte, find_byte, lemma_count_byte_first, lemma_count_byte_zero, lemma_find_byte_at,
    lemma_find_byte_bounds, lemma_join_bytes_free, lemma_split_bytes_preserve_free, split_bytes,
};

verus! {

/// The byte that closes the address and the attribute section: ASCII `$`.
pub const ENVELOPE_DELIMITER: u8 = 0x24;

/// The mathematical content of an [`AddressedAttributedMessage`]: address
/// and payload as plain byte sequences, and the attribute fields.
#[verifier::ext_equal]
pub struct EnvelopeView {
    pub address: Seq<u8>,
    pub attributes: MessageAttributesView,
    pub payload: Seq<u8>,
}

/// Why a decode failed.
#[derive(Debug, Clone, Copy, PartialEq, Eq, Structural)]
pub enum FrameError {
    /// The section between the first two `$` bytes does not split into
    /// exactly five fields on `|`.
    MalformedAttributes,
    /// The input holds fewer than two `$` bytes, so the address or the
    /// attribute section cannot be closed.
    MalformedEnvelope,
}

/// The encoding of an envelope: address, attribute block and payload with a
/// single `$` between neighbours and no trailing delimiter.
pub open spec fn envelope_bytes(e: EnvelopeView) -> Seq<u8> {
    e.address + seq![ENVELOPE_DELIMITER] + attributes_bytes(e.attributes) + seq![
        ENVELOPE_DELIMITER,
    ] + e.payload
}

/// The decoding of an envelope: everything before the first `$` is the
/// address, everything between the first and the second `$` must decode as
/// an attribute block, and everything after the second `$` — verbatim,
/// further `$` bytes included — is the payload.
pub open spec fn envelope_of_bytes(d: Seq<u8>) -> Option<EnvelopeView> {
    let i = find_byte(d, ENVELOPE_DELIMITER);
    if i == d.len() {
        None
    } else {
        let rest = d.subrange(i + 1, d.len() as int);
        let j = find_byte(rest, ENVELOPE_DELIMITER);
        if j == rest.len() {
            None
        } else {
            match attributes_of_bytes(rest.subrange(0, j)) {
                Some(a) => Some(
                    EnvelopeView {
                        address: d.subrange(0, i),
                        attributes: a,
                        payload: rest.subrange(j + 1, rest.len() as int),
                    },
                ),
                None => None,
            }
        }
    }
}

/// An envelope whose fields are free of the delimiters that enclose them:
/// no `$` in the address, and neither `|` nor `$` in any attribute field.
/// The payload is never constrained. Encoding such an envelope is the only
/// unambiguous use of the wire format.
pub open spec fn envelope_wf(e: EnvelopeView) -> bool {
    &&& !e.address.contains(ENVELOPE_DELIMITER)
    &&& fields_free_of(e.attributes, ATTRIBUTE_DELIMITER)
    &&& fields_free_of(e.attributes, ENVELOPE_DELIMITER)
}

/// The text rendering of an envelope for diagnostics: the lossy decoding of
/// the address, then `$`, then the attribute block's rendering. The opaque
/// payload is left out.
pub open spec fn envelope_text(e: EnvelopeView) -> Seq<char> {
    lossy_text_of(e.address) + seq!['$'] + attributes_text(e.attributes)
}

/// An attribute block whose fields are free of some byte other than `|`
/// encodes to bytes free of that byte.
pub proof fn lemma_attributes_bytes_free(a: MessageAttributesView, b: u8)
    requires
        b != ATTRIBUTE_DELIMITER,
        fields_free_of(a, b),
    ensures
        !attributes_bytes(a).contains(b),
{
    let fs = attribute_fields(a);
    assert(forall|j: int| 0 <= j < fs.len() ==> !(#[trigger] fs[j]).contains(b)) by {
        assert(fs[0] == a.content_type);
        assert(fs[1] == a.descriptor);
        assert(fs[2] == a.sender_group);
        assert(fs[3] == a.sender_entity_id);
        assert(fs[4] == a.sender_service_id);
    }
    lemma_attributes_bytes_is_join(a);
    lemma_join_bytes_free(fs, ATTRIBUTE_DELIMITER, b);
}

/// Law: decoding the encoding of a well-formed envelope restores it, field
/// for field, whatever bytes the payload holds.
pub proof fn lemma_envelope_round_trip(e: EnvelopeView)
    requires
        envelope_wf(e),
    ensures
        envelope_of_bytes(envelope_bytes(e)) == Some(e),
{
    let d = envelope_bytes(e);
    let addr = e.address;
    let ab = attributes_bytes(e.attributes);
    assert(forall|k: int| 0 <= k < addr.len() ==> addr[k] != ENVELOPE_DELIMITER);
    assert(forall|k: int| 0 <= k < addr.len() ==> d[k] == addr[k]);
    assert(d[addr.len() as int] == ENVELOPE_DELIMITER);
    lemma_find_byte_at(d, ENVELOPE_DELIMITER, addr.len() as int);
    let rest = d.subrange(addr.len() as int + 1, d.len() as int);
    assert(rest =~= ab + seq![ENVELOPE_DELIMITER] + e.payload);
    lemma_attributes_bytes_free(e.attributes, ENVELOPE_DELIMITER);
    assert(forall|k: int| 0 <= k < ab.len() ==> ab[k] != ENVELOPE_DELIMITER);
    assert(forall|k: int| 0 <= k < ab.len() ==> rest[k] == ab[k]);
    assert(rest[ab.len() as int] == ENVELOPE_DELIMITER);
    lemma_find_byte_at(rest, ENVELOPE_DELIMITER, ab.len() as int);
    assert(rest.subrange(0, ab.len() as int) =~= ab);
    lemma_attributes_round_trip(e.attributes);
    assert(rest.subrange(ab.len() as int + 1, rest.len() as int) =~= e.payload);
    assert(d.subrange(0, addr.len() as int) =~= addr);
    assert(envelope_of_bytes(d) matches Some(r) && r =~= e);
}

/// Law: a byte string that decodes as an envelope is the encoding of that
/// envelope — re-encoding a decoded envelope restores the input — and the
/// decoded envelope is well formed.
pub proof fn lemma_envelope_reencode(d: Seq<u8>)
    requires
        envelope_of_bytes(d) is Some,
    ensures
        envelope_bytes(envelope_of_bytes(d)->Some_0) == d,
        envelope_wf(envelope_of_bytes(d)->Some_0),
{
    let e = envelope_of_bytes(d)->Some_0;
    let i = find_byte(d, ENVELOPE_DELIMITER);
    lemma_find_byte_bounds(d, ENVELOPE_DELIMITER);
    let rest = d.subrange(i + 1, d.len() as int);
    let j = find_byte(rest, ENVELOPE_DELIMITER);
    lemma_find_byte_bounds(rest, ENVELOPE_DELIMITER);
    let section = rest.subrange(0, j);
    lemma_attributes_reencode(section);
    assert(envelope_bytes(e) =~= d) by {
        assert(d[i] == ENVELOPE_DELIMITER);
        assert(rest[j] == ENVELOPE_DELIMITER);
    }
    assert(!e.address.contains(ENVELOPE_DELIMITER)) by {
        assert(forall|k: int| 0 <= k < i ==> e.address[k] == d[k]);
    }
    assert(!section.contains(ENVELOPE_DELIMITER)) by {
        assert(forall|k: int| 0 <= k < j ==> section[k] == rest[k]);
    }
    lemma_split_bytes_preserve_free(section, ATTRIBUTE_DELIMITER, ENVELOPE_DELIMITER);
    let chunks = split_bytes(section, ATTRIBUTE_DELIMITER);
    assert(e.attributes.content_type == chunks[0]);
    assert(e.attributes.descriptor == chunks[1]);
    assert(e.attributes.sender_group == chunks[2]);
    assert(e.attributes.sender_entity_id == chunks[3]);
    assert(e.attributes.sender_service_id == chunks[4]);
}

/// An addressed, attributed message: a routing address, one attribute
/// block, and an opaque payload.
#[derive(Debug)]
pub struct AddressedAttributedMessage {
    address: Vec<u8>,
    attributes: MessageAttributes,
    payload: Vec<u8>,
}

impl View for AddressedAttributedMessage {
    type V = EnvelopeView;

    closed spec fn view(&self) -> EnvelopeView {
        EnvelopeView { address: self.address@, attributes: self.attributes@, payload: self.payload@ }
    }
}

impl AddressedAttributedMessage {
    /// A message with empty address, empty attribute fields and empty
    /// payload.
    pub fn default() -> (r: AddressedAttributedMessage)
        ensures
            r@ == (EnvelopeView {
                address: Seq::<u8>::empty(),
                attributes: MessageAttributesView {
                    content_type: Seq::<u8>::empty(),
                    descriptor: Seq::<u8>::empty(),
                    sender_group: Seq::<u8>::empty(),
                    sender_entity_id: Seq::<u8>::empty(),
                    sender_service_id: Seq::<u8>::empty(),
                },
                payload: Seq::<u8>::empty(),
            }),
    {
        let r = AddressedAttributedMessage {
            address: Vec::new(),
            attributes: MessageAttributes::default(),
            payload: Vec::new(),
        };
        proof {
            assert(r@ =~= EnvelopeView {
                address: Seq::<u8>::empty(),
                attributes: MessageAttributesView {
                    content_type: Seq::<u8>::empty(),
                    descriptor: Seq::<u8>::empty(),
                    sender_group: Seq::<u8>::empty(),
                    sender_entity_id: Seq::<u8>::empty(),
                    sender_service_id: Seq::<u8>::empty(),
                },
                payload: Seq::<u8>::empty(),
            });
        }
        r
    }

    /// The payload of the message.
    pub fn get_payload(&self) -> (r: &[u8])
        ensures
            r@ == self@.payload,
    {
        self.payload.as_slice()
    }

    /// Encode the message: address, attribute block and payload with a `$`
    /// between neighbours and no trailing delimiter.
    pub fn serialize(&self) -> (r: Vec<u8>)
        ensures
            r@ == envelope_bytes(self@),
    {
        let mut v: Vec<u8> = Vec::new();
        let mut part = vstd::slice::slice_to_vec(self.address.as_slice());
        v.append(&mut part);
        v.push(ENVELOPE_DELIMITER);
        let mut part = self.attributes.serialize();
        v.append(&mut part);
        v.push(ENVELOPE_DELIMITER);
        let mut part = vstd::slice::slice_to_vec(self.payload.as_slice());
        v.append(&mut part);
        proof {
            assert(v@ =~= envelope_bytes(self@));
        }
        v
    }

    /// Decode a message from a byte stream.
    ///
    /// Everything before the first `$` becomes the address; the section up
    /// to the next `$` must decode as an attribute block; all remaining
    /// bytes, verbatim, become the payload. Fails with
    /// [`FrameError::MalformedEnvelope`] when the input holds fewer than two
    /// `$` bytes, and with [`FrameError::MalformedAttributes`] when the
    /// attribute section does not split into exactly five fields.
    pub fn deserialize(data: Vec<u8>) -> (r: Result<AddressedAttributedMessage, FrameError>)
        ensures
            r matches Ok(m) ==> Some(m@) == envelope_of_bytes(data@),
            r is Ok <==> envelope_of_bytes(data@) is Some,
            r == Err::<AddressedAttributedMessage, FrameError>(FrameError::MalformedEnvelope)
                <==> count_byte(data@, ENVELOPE_DELIMITER) < 2,
            r == Err::<AddressedAttributedMessage, FrameError>(FrameError::MalformedAttributes)
                <==> count_byte(data@, ENVELOPE_DELIMITER) >= 2 && envelope_of_bytes(data@)
                is None,
    {
        let ghost d = data@;
        let n = data.len();
        proof {
            assert(d.subrange(0, d.len() as int) =~= d);
            lemma_find_byte_bounds(d, ENVELOPE_DELIMITER);
        }
        let i = crate::delimited::find_byte_from(data.as_slice(), ENVELOPE_DELIMITER, 0);
        if i == n {
            proof {
                lemma_count_byte_zero(d, ENVELOPE_DELIMITER);
            }
            return Err(FrameError::MalformedEnvelope);
        }
        let ghost rest = d.subrange(i + 1, d.len() as int);
        proof {
            lemma_count_byte_first(d, ENVELOPE_DELIMITER);
            lemma_find_byte_bounds(rest, ENVELOPE_DELIMITER);
        }
        let j = crate::delimited::find_byte_from(data.as_slice(), ENVELOPE_DELIMITER, i + 1);
        proof {
            assert(j - (i + 1) == find_byte(rest, ENVELOPE_DELIMITER));
        }
        if j == n {
            proof {
                lemma_count_byte_zero(rest, ENVELOPE_DELIMITER);
            }
            return Err(FrameError::MalformedEnvelope);
        }
        proof {
            lemma_count_byte_first(rest, ENVELOPE_DELIMITER);
        }
        let section = vstd::slice::slice_subrange(data.as_slice(), i + 1, j);
        proof {
            assert(section@ =~= rest.subrange(0, j - (i + 1)));
        }
        match MessageAttributes::deserialize(section) {
            None => Err(FrameError::MalformedAttributes),
            Some(attrs) => {
                let address = vstd::slice::slice_to_vec(
                    vstd::slice::slice_subrange(data.as_slice(), 0, i),
                );
                let payload = vstd::slice::slice_to_vec(
                    vstd::slice::slice_subrange(data.as_slice(), j + 1, n),
                );
                let m = AddressedAttributedMessage { address, attributes: attrs, payload };
                proof {
                    assert(m@.payload =~= rest.subrange(j - i, rest.len() as int));
                    assert(m@ =~= envelope_of_bytes(d)->Some_0);
                }
                Ok(m)
            },
        }
    }

    /// Render the message as text for diagnostics: the address and the
    /// attribute block, lossily decoded; the opaque payload is left out.
    pub fn to_text(&self) -> (r: String)
        ensures
            r@ == envelope_text(self@),
    {
        let mut s = lossy_text(self.address.as_slice());
        s.append("$");
        let part = self.attributes.to_text();
        s.append(part.as_str());
        proof {
            reveal_strlit("$");
            assert("$"@ =~= seq!['$']);
            assert(s@ =~= envelope_text(self@));
        }
        s
    }

    /// Store the raw bytes of `val` as the address.
    pub fn set_address(&mut self, val: &str)
        ensures
            final(self)@ == (EnvelopeView { address: val.spec_bytes(), ..old(self)@ }),
    {
        self.address = val.as_bytes_vec();
        assert(self@ =~= (EnvelopeView { address: val.spec_bytes(), ..old(self)@ }));
    }

    /// Store `val` as the payload.
    pub fn set_payload(&mut self, val: Vec<u8>)
        ensures
            final(self)@ == (EnvelopeView { payload: val@, ..old(self)@ }),
    {
        self.payload = val;
        assert(self@ =~= (EnvelopeView { payload: val@, ..old(self)@ }));
    }

    /// Store the raw bytes of `val` as the attributes' content type.
    pub fn set_content_type(&mut self, val: &str)
        ensures
            final(self)@ == (EnvelopeView {
                attributes: MessageAttributesView {
                    content_type: val.spec_bytes(),
                    ..old(self)@.attributes
                },
                ..old(self)@
            }),
    {
        self.attributes.set_content_type(val);
        assert(self@ =~= (EnvelopeView {
            attributes: MessageAttributesView {
                content_type: val.spec_bytes(),
                ..old(self)@.attributes
            },
            ..old(self)@
        }));
    }

    /// Store the raw bytes of `val` as the attributes' descriptor.
    pub fn set_descriptor(&mut self, val: &str)
        ensures
            final(self)@ == (EnvelopeView {
                attributes: MessageAttributesView {
                    descriptor: val.spec_bytes(),
                    ..old(self)@.attributes
                },
                ..old(self)@
            }),
    {
        self.attributes.set_descriptor(val);
        assert(self@ =~= (EnvelopeView {
            attributes: MessageAttributesView {
                descriptor: val.spec_bytes(),
                ..old(self)@.attributes
            },
            ..old(self)@
        }));
    }

    /// Store the raw bytes of `val` as the attributes' sender group.
    pub fn set_sender_group(&mut self, val: &str)
        ensures
            final(self)@ == (EnvelopeView {
                attributes: MessageAttributesView {
                    sender_group: val.spec_bytes(),
                    ..old(self)@.attributes
                },
                ..old(self)@
            }),
    {
        self.attributes.set_sender_group(val);
        assert(self@ =~= (EnvelopeView {
            attributes: MessageAttributesView {
                sender_group: val.spec_bytes(),
                ..old(self)@.attributes
            },
            ..old(self)@
        }));
    }

    /// Store the raw bytes of `val` as the attributes' sender entity id.
    pub fn set_sender_entity_id(&mut self, val: &str)
        ensures
            final(self)@ == (EnvelopeView {
                attributes: MessageAttributesView {
                    sender_entity_id: val.spec_bytes(),
                    ..old(self)@.attributes
                },
                ..old(self)@
            }),
    {
        self.attributes.set_sender_entity_id(val);
        assert(self@ =~= (EnvelopeView {
            attributes: MessageAttributesView {
                sender_entity_id: val.spec_bytes(),
                ..old(self)@.attributes
            },
            ..old(self)@
        }));
    }

    /// Store the raw bytes of `val` as the attributes' sender service id.
    pub fn set_sender_service_id(&mut self, val: &str)
        ensures
            final(self)@ == (EnvelopeView {
                attributes: MessageAttributesView {
                    sender_service_id: val.spec_bytes(),
                    ..old(self)@.attributes
                },
                ..old(self)@
            }),
    {
        self.attributes.set_sender_service_id(val);
        assert(self@ =~= (EnvelopeView {
            attributes: MessageAttributesView {
                sender_service_id: val.spec_bytes(),
                ..old(self)@.attributes
            },
            ..old(self)@
        }));
    }
}

} // verus!

