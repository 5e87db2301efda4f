//! The attribute block: five metadata fields encoded as one `|`-delimited
//! byte string.
//!
//! The block holds `content_type`, `descriptor`, `sender_group`,
//! `sender_entity_id` and `sender_service_id`, in that fixed order. Encoding
//! concatenates them with a single `|` between neighbours and no trailing
//! delimiter; decoding splits on every `|` and succeeds exactly when that
//! yields five chunks. No field may contain the delimiter, or the encoding
//! is ambiguous; the fields are otherwise opaque bytes.

use vstd::prelude::*;
use vstd::string::{StrSliceExecFns, StringExecFns, StringSliceAdditionalSpecFns};

use crate::render::{lossy_text, lossy_text_of};

use crate::delimited::{
    count_byte, join_bytes, lemma_join_split_bytes, lemma_split_bytes_free, lemma_split_bytes_len,
    lemma_split_join_bytes, split_bytes,
};

verus! {

/// The byte that separates two attribute fields: ASCII `|`.
pub const ATTRIBUTE_DELIMITER: u8 = 0x7c;

/// The mathematical content of a [`MessageAttributes`]: its five fields as
/// plain byte sequences.
#[verifier::ext_equal]
pub struct MessageAttributesView {
    pub content_type: Seq<u8>,
    pub descriptor: Seq<u8>,
    pub sender_group: Seq<u8>,
    pub sender_entity_id: Seq<u8>,
    pub sender_service_id: Seq<u8>,
}

/// The five fields in encoding order.
pub open spec fn attribute_fields(a: MessageAttributesView) -> Seq<Seq<u8>> {
    seq![a.content_type, a.descriptor, a.sender_group, a.sender_entity_id, a.sender_service_id]
}

/// True when no field of `a` contains the byte `b`.
pub open spec fn fields_free_of(a: MessageAttributesView, b: u8) -> bool {
    &&& !a.content_type.contains(b)
    &&& !a.descriptor.contains(b)
    &&& !a.sender_group.contains(b)
    &&& !a.sender_entity_id.contains(b)
    &&& !a.sender_service_id.contains(b)
}

/// The encoding of an attribute block: the five fields in order, one `|`
/// between neighbours, no trailing delimiter.
pub open spec fn attributes_bytes(a: MessageAttributesView) -> Seq<u8> {
    a.content_type + seq![ATTRIBUTE_DELIMITER] + a.descriptor + seq![ATTRIBUTE_DELIMITER]
        + a.sender_group + seq![ATTRIBUTE_DELIMITER] + a.sender_entity_id + seq![
        ATTRIBUTE_DELIMITER,
    ] + a.sender_service_id
}

/// The decoding of an attribute block: split on every `|`; the split must
/// yield exactly five chunks, assigned to the fields in order.
pub open spec fn attributes_of_bytes(d: Seq<u8>) -> Option<MessageAttributesView> {
    let chunks = split_bytes(d, ATTRIBUTE_DELIMITER);
    if chunks.len() == 5 {
        Some(
            MessageAttributesView {
                content_type: chunks[0],
                descriptor: chunks[1],
                sender_group: chunks[2],
                sender_entity_id: chunks[3],
                sender_service_id: chunks[4],
            },
        )
    } else {
        None
    }
}

/// The encoding is the join of the five fields around the delimiter.
pub proof fn lemma_attributes_bytes_is_join(a: MessageAttributesView)
    ensures
        attributes_bytes(a) == join_bytes(attribute_fields(a), ATTRIBUTE_DELIMITER),
{
    let fs = attribute_fields(a);
    reveal_with_fuel(join_bytes, 6);
    assert(fs.subrange(1, 5) =~= seq![
        a.descriptor,
        a.sender_group,
        a.sender_entity_id,
        a.sender_service_id,
    ]);
    assert(fs.subrange(1, 5).subrange(1, 4) =~= seq![
        a.sender_group,
        a.sender_entity_id,
        a.sender_service_id,
    ]);
    assert(fs.subrange(1, 5).subrange(1, 4).subrange(1, 3) =~= seq![
        a.sender_entity_id,
        a.sender_service_id,
    ]);
    assert(fs.subrange(1, 5).subrange(1, 4).subrange(1, 3).subrange(1, 2) =~= seq![
        a.sender_service_id,
    ]);
    assert(attributes_bytes(a) =~= join_bytes(fs, ATTRIBUTE_DELIMITER));
}

/// Law: an attribute block whose fields are free of the delimiter decodes
/// from its own encoding, field for field.
pub proof fn lemma_attributes_round_trip(a: MessageAttributesView)
    requires
        fields_free_of(a, ATTRIBUTE_DELIMITER),
    ensures
        attributes_of_bytes(attributes_bytes(a)) == Some(a),
{
    let fs = attribute_fields(a);
    lemma_attributes_bytes_is_join(a);
    lemma_split_join_bytes(fs, ATTRIBUTE_DELIMITER);
    assert(attributes_of_bytes(attributes_bytes(a)) matches Some(b) && b =~= a);
}

/// Law: a byte string that decodes as an attribute block is the encoding of
/// that block, so re-encoding a decoded block restores the input.
pub proof fn lemma_attributes_reencode(d: Seq<u8>)
    requires
        attributes_of_bytes(d) is Some,
    ensures
        attributes_bytes(attributes_of_bytes(d)->Some_0) == d,
        fields_free_of(attributes_of_bytes(d)->Some_0, ATTRIBUTE_DELIMITER),
{
    let a = attributes_of_bytes(d)->Some_0;
    let chunks = split_bytes(d, ATTRIBUTE_DELIMITER);
    lemma_attributes_bytes_is_join(a);
    assert(attribute_fields(a) =~= chunks);
    lemma_join_split_bytes(d, ATTRIBUTE_DELIMITER);
    lemma_split_bytes_free(d, ATTRIBUTE_DELIMITER);
}

/// The text rendering of an attribute block: the lossy decoding of the five
/// fields, joined with `|` in encoding order.
pub open spec fn attributes_text(a: MessageAttributesView) -> Seq<char> {
    lossy_text_of(a.content_type) + seq!['|'] + lossy_text_of(a.descriptor) + seq!['|']
        + lossy_text_of(a.sender_group) + seq!['|'] + lossy_text_of(a.sender_entity_id) + seq![
        '|',
    ] + lossy_text_of(a.sender_service_id)
}

/// The five metadata fields carried inside an envelope, stored as raw bytes.
#[derive(Debug)]
pub struct MessageAttributes {
    content_type: Vec<u8>,
    descriptor: Vec<u8>,
    sender_group: Vec<u8>,
    sender_entity_id: Vec<u8>,
    sender_service_id: Vec<u8>,
}

impl View for MessageAttributes {
    type V = MessageAttributesView;

    closed spec fn view(&self) -> MessageAttributesView {
        MessageAttributesView {
            content_type: self.content_type@,
            descriptor: self.descriptor@,
            sender_group: self.sender_group@,
            sender_entity_id: self.sender_entity_id@,
            sender_service_id: self.sender_service_id@,
        }
    }
}

impl MessageAttributes {
    /// An attribute block with all five fields empty.
    pub fn default() -> (r: MessageAttributes)
        ensures
            r@ == (MessageAttributesView {
                content_type: Seq::<u8>::empty(),
                descriptor: Seq::<u8>::empty(),
                sender_group: Seq::<u8>::empty(),
                sender_entity_id: Seq::<u8>::empty(),
                sender_service_id: Seq::<u8>::empty(),
            }),
    {
        let r = MessageAttributes {
            content_type: Vec::new(),
            descriptor: Vec::new(),
            sender_group: Vec::new(),
            sender_entity_id: Vec::new(),
            sender_service_id: Vec::new(),
        };
        proof {
            assert(r@ =~= MessageAttributesView {
                content_type: Seq::<u8>::empty(),
                descriptor: Seq::<u8>::empty(),
                sender_group: Seq::<u8>::empty(),
                sender_entity_id: Seq::<u8>::empty(),
                sender_service_id: Seq::<u8>::empty(),
            });
        }
        r
    }

    /// Store the raw bytes of `val` as the content type.
    pub fn set_content_type(&mut self, val: &str)
        ensures
            final(self)@ == (MessageAttributesView { content_type: val.spec_bytes(), ..old(self)@ }),
    {
        self.content_type = val.as_bytes_vec();
        assert(self@ =~= (MessageAttributesView { content_type: val.spec_bytes(), ..old(self)@ }));
    }

    /// Store the raw bytes of `val` as the descriptor.
    pub fn set_descriptor(&mut self, val: &str)
        ensures
            final(self)@ == (MessageAttributesView { descriptor: val.spec_bytes(), ..old(self)@ }),
    {
        self.descriptor = val.as_bytes_vec();
        assert(self@ =~= (MessageAttributesView { descriptor: val.spec_bytes(), ..old(self)@ }));
    }

    /// Store the raw bytes of `val` as the sender group.
    pub fn set_sender_group(&mut self, val: &str)
        ensures
            final(self)@ == (MessageAttributesView { sender_group: val.spec_bytes(), ..old(self)@ }),
    {
        self.sender_group = val.as_bytes_vec();
        assert(self@ =~= (MessageAttributesView { sender_group: val.spec_bytes(), ..old(self)@ }));
    }

    /// Store the raw bytes of `val` as the sender entity id.
    pub fn set_sender_entity_id(&mut self, val: &str)
        ensures
            final(self)@ == (MessageAttributesView {
                sender_entity_id: val.spec_bytes(),
                ..old(self)@
            }),
    {
        self.sender_entity_id = val.as_bytes_vec();
        assert(self@ =~= (MessageAttributesView {
            sender_entity_id: val.spec_bytes(),
            ..old(self)@
        }));
    }

    /// Store the raw bytes of `val` as the sender service id.
    pub fn set_sender_service_id(&mut self, val: &str)
        ensures
            final(self)@ == (MessageAttributesView {
                sender_service_id: val.spec_bytes(),
                ..old(self)@
            }),
    {
        self.sender_service_id = val.as_bytes_vec();
        assert(self@ =~= (MessageAttributesView {
            sender_service_id: val.spec_bytes(),
            ..old(self)@
        }));
    }

    /// Decode an attribute block from `data`: split on every `|` and assign
    /// the chunks to the fields in order. Succeeds exactly when the split
    /// yields five chunks, that is, when `data` holds exactly four `|` bytes.
    pub fn deserialize(data: &[u8]) -> (r: Option<MessageAttributes>)
        ensures
            r is Some <==> attributes_of_bytes(data@) is Some,
            r is Some <==> count_byte(data@, ATTRIBUTE_DELIMITER) == 4,
            r matches Some(a) ==> Some(a@) == attributes_of_bytes(data@),
    {
        let ghost d = data@;
        let ghost chunks = split_bytes(d, ATTRIBUTE_DELIMITER);
        proof {
            lemma_split_bytes_len(d, ATTRIBUTE_DELIMITER);
            assert(d.subrange(0, d.len() as int) =~= d);
        }
        let n = data.len();
        let p0 = crate::delimited::find_byte_from(data, ATTRIBUTE_DELIMITER, 0);
        proof {
            split_prefix_shape(d, 0, p0 as int);
        }
        if p0 == n {
            proof {
                assert(chunks =~= seq![d]);
            }
            return None;
        }
        let ghost rest1 = d.subrange(p0 + 1, d.len() as int);
        proof {
            assert(chunks =~= seq![d.subrange(0, p0 as int)] + split_bytes(
                rest1,
                ATTRIBUTE_DELIMITER,
            ));
            lemma_split_bytes_len(rest1, ATTRIBUTE_DELIMITER);
        }
        let p1 = crate::delimited::find_byte_from(data, ATTRIBUTE_DELIMITER, p0 + 1);
        proof {
            split_prefix_shape(d, p0 + 1, p1 as int);
        }
        if p1 == n {
            proof {
                assert(split_bytes(rest1, ATTRIBUTE_DELIMITER) =~= seq![rest1]);
            }
            return None;
        }
        let ghost rest2 = d.subrange(p1 + 1, d.len() as int);
        proof {
            assert(split_bytes(rest1, ATTRIBUTE_DELIMITER) =~= seq![d.subrange(
                p0 + 1,
                p1 as int,
            )] + split_bytes(rest2, ATTRIBUTE_DELIMITER));
            lemma_split_bytes_len(rest2, ATTRIBUTE_DELIMITER);
        }
        let p2 = crate::delimited::find_byte_from(data, ATTRIBUTE_DELIMITER, p1 + 1);
        proof {
            split_prefix_shape(d, p1 + 1, p2 as int);
        }
        if p2 == n {
            proof {
                assert(split_bytes(rest2, ATTRIBUTE_DELIMITER) =~= seq![rest2]);
            }
            return None;
        }
        let ghost rest3 = d.subrange(p2 + 1, d.len() as int);
        proof {
            assert(split_bytes(rest2, ATTRIBUTE_DELIMITER) =~= seq![d.subrange(
                p1 + 1,
                p2 as int,
            )] + split_bytes(rest3, ATTRIBUTE_DELIMITER));
            lemma_split_bytes_len(rest3, ATTRIBUTE_DELIMITER);
        }
        let p3 = crate::delimited::find_byte_from(data, ATTRIBUTE_DELIMITER, p2 + 1);
        proof {
            split_prefix_shape(d, p2 + 1, p3 as int);
        }
        if p3 == n {
            proof {
                assert(split_bytes(rest3, ATTRIBUTE_DELIMITER) =~= seq![rest3]);
            }
            return None;
        }
        let ghost rest4 = d.subrange(p3 + 1, d.len() as int);
        proof {
            assert(split_bytes(rest3, ATTRIBUTE_DELIMITER) =~= seq![d.subrange(
                p2 + 1,
                p3 as int,
            )] + split_bytes(rest4, ATTRIBUTE_DELIMITER));
            lemma_split_bytes_len(rest4, ATTRIBUTE_DELIMITER);
        }
        let p4 = crate::delimited::find_byte_from(data, ATTRIBUTE_DELIMITER, p3 + 1);
        proof {
            split_prefix_shape(d, p3 + 1, p4 as int);
        }
        if p4 < n {
            proof {
                let rest5 = d.subrange(p4 + 1, d.len() as int);
                assert(split_bytes(rest4, ATTRIBUTE_DELIMITER) =~= seq![d.subrange(
                    p3 + 1,
                    p4 as int,
                )] + split_bytes(rest5, ATTRIBUTE_DELIMITER));
                lemma_split_bytes_len(rest5, ATTRIBUTE_DELIMITER);
                assert(chunks.len() >= 6);
            }
            return None;
        }
        proof {
            assert(split_bytes(rest4, ATTRIBUTE_DELIMITER) =~= seq![rest4]);
            assert(chunks =~= seq![
                d.subrange(0, p0 as int),
                d.subrange(p0 + 1, p1 as int),
                d.subrange(p1 + 1, p2 as int),
                d.subrange(p2 + 1, p3 as int),
                rest4,
            ]);
        }
        let r = MessageAttributes {
            content_type: vstd::slice::slice_to_vec(vstd::slice::slice_subrange(data, 0, p0)),
            descriptor: vstd::slice::slice_to_vec(vstd::slice::slice_subrange(data, p0 + 1, p1)),
            sender_group: vstd::slice::slice_to_vec(vstd::slice::slice_subrange(data, p1 + 1, p2)),
            sender_entity_id: vstd::slice::slice_to_vec(
                vstd::slice::slice_subrange(data, p2 + 1, p3),
            ),
            sender_service_id: vstd::slice::slice_to_vec(
                vstd::slice::slice_subrange(data, p3 + 1, p4),
            ),
        };
        proof {
            assert(chunks.len() == 5);
            assert(r@ =~= attributes_of_bytes(data@)->Some_0);
        }
        Some(r)
    }

    /// Encode the block: the five fields in order with a `|` between
    /// neighbours and no trailing delimiter.
    pub fn serialize(&self) -> (r: Vec<u8>)
        ensures
            r@ == attributes_bytes(self@),
    {
        let mut v: Vec<u8> = Vec::new();
        let mut part = vstd::slice::slice_to_vec(self.content_type.as_slice());
        v.append(&mut part);
        v.push(ATTRIBUTE_DELIMITER);
        let mut part = vstd::slice::slice_to_vec(self.descriptor.as_slice());
        v.append(&mut part);
        v.push(ATTRIBUTE_DELIMITER);
        let mut part = vstd::slice::slice_to_vec(self.sender_group.as_slice());
        v.append(&mut part);
        v.push(ATTRIBUTE_DELIMITER);
        let mut part = vstd::slice::slice_to_vec(self.sender_entity_id.as_slice());
        v.append(&mut part);
        v.push(ATTRIBUTE_DELIMITER);
        let mut part = vstd::slice::slice_to_vec(self.sender_service_id.as_slice());
        v.append(&mut part);
        proof {
            assert(v@ =~= attributes_bytes(self@));
        }
        v
    }

    /// Render the block as text for diagnostics, decoding each field
    /// lossily: bytes that are not well-formed UTF-8 come out as
    /// replacement characters rather than failing.
    pub fn to_text(&self) -> (r: String)
        ensures
            r@ == attributes_text(self@),
    {
        let mut s = lossy_text(self.content_type.as_slice());
        s.append("|");
        let part = lossy_text(self.descriptor.as_slice());
        s.append(part.as_str());
        s.append("|");
        let part = lossy_text(self.sender_group.as_slice());
        s.append(part.as_str());
        s.append("|");
        let part = lossy_text(self.sender_entity_id.as_slice());
        s.append(part.as_str());
        s.append("|");
        let part = lossy_text(self.sender_service_id.as_slice());
        s.append(part.as_str());
        proof {
            reveal_strlit("|");
            assert("|"@ =~= seq!['|']);
            assert(s@ =~= attributes_text(self@));
        }
        s
    }
}

/// Unfolds one step of `split_bytes`: if the first delimiter at or after a
/// chunk start `from` lies at `p`, the chunk `[from, p)` is the head of the
/// split of the tail starting at `from`.
proof fn split_prefix_shape(d: Seq<u8>, from: int, p: int)
    requires
        0 <= from <= p <= d.len(),
        forall|k: int| from <= k < p ==> d[k] != ATTRIBUTE_DELIMITER,
        p < d.len() ==> d[p] == ATTRIBUTE_DELIMITER,
    ensures
        p == d.len() ==> split_bytes(d.subrange(from, d.len() as int), ATTRIBUTE_DELIMITER)
            =~= seq![d.subrange(from, d.len() as int)],
        p < d.len() ==> split_bytes(d.subrange(from, d.len() as int), ATTRIBUTE_DELIMITER)
            =~= seq![d.subrange(from, p)] + split_bytes(
            d.subrange(p + 1, d.len() as int),
            ATTRIBUTE_DELIMITER,
        ),
{
    let t = d.subrange(from, d.len() as int);
    assert(forall|k: int| 0 <= k < p - from ==> t[k] != ATTRIBUTE_DELIMITER);
    crate::delimited::lemma_find_byte_at(t, ATTRIBUTE_DELIMITER, p - from);
    if p < d.len() {
        assert(t.subrange(0, p - from) =~= d.subrange(from, p));
        assert(t.subrange(p - from + 1, t.len() as int) =~= d.subrange(p + 1, d.len() as int));
    }
}

} // verus!
