//! Zero-copy array reconstruction: given a queue of structural descriptors
//! (field nodes), a queue of buffer descriptors, the message body, and the
//! dictionary resolution table, rebuilds typed arrays without re-parsing
//! already-encoded primitive payloads.
//!
//! Consumption is depth-first, parent node and buffers before the child's: a
//! primitive or dictionary column takes one node and two buffers (validity,
//! then values); a list column takes one node and two buffers (validity, then
//! offsets) and then whatever its child takes. A parallel skip traversal
//! advances the same two queues by the same structural rule without
//! materializing anything.

use std::collections::VecDeque;

use vstd::prelude::*;

use crate::array::{Array, DictionaryArray, ListArray, PrimitiveArray};
use crate::bitmap::Bitmap;
use crate::compression::{decompress_lz4, decompress_zstd, lz4_frame_of, zstd_frame_of};
use crate::datatypes::DataType;
use crate::dictionaries::Dictionaries;
use crate::error::{CompressionKind, Error};

verus! {

/// A field node: the decode-time descriptor of one column, pairing its
/// element count with its null count.
#[derive(Clone, Copy, Debug, PartialEq, Eq, Structural)]
pub struct Node {
    pub length: usize,
    pub null_count: usize,
}

/// A buffer descriptor: the byte offset and length of one physical buffer
/// within a message body.
#[derive(Clone, Copy, Debug, PartialEq, Eq, Structural)]
pub struct BufferDesc {
    pub offset: usize,
    pub length: usize,
}

/// The structural shape of one column's type, driving the depth-first
/// traversal; a dictionary shape carries the id to resolve.
pub enum TypeShape {
    Primitive,
    List(Box<TypeShape>),
    Dictionary(u64),
}

/// How many field nodes a shape consumes.
pub open spec fn nodes_of(shape: TypeShape) -> nat
    decreases shape,
{
    match shape {
        TypeShape::Primitive => 1,
        TypeShape::Dictionary(_) => 1,
        TypeShape::List(child) => 1 + nodes_of(*child),
    }
}

/// How many buffer descriptors a shape consumes.
pub open spec fn buffers_of(shape: TypeShape) -> nat
    decreases shape,
{
    match shape {
        TypeShape::Primitive => 2,
        TypeShape::Dictionary(_) => 2,
        TypeShape::List(child) => 2 + buffers_of(*child),
    }
}

/// Whether the reconstructed array has the shape the traversal was driven by.
pub open spec fn array_matches_shape(a: Array, shape: TypeShape) -> bool
    decreases shape,
{
    match shape {
        TypeShape::Primitive => a is Int32,
        TypeShape::Dictionary(_) => a is Dictionary,
        TypeShape::List(child) => match a {
            Array::List(l) => array_matches_shape(l.child(), *child),
            _ => false,
        },
    }
}

/// Bit `i` of a little-endian validity buffer.
pub open spec fn bit_at(bytes: Seq<u8>, i: int) -> bool {
    (bytes[i / 8] >> ((i % 8) as u8)) & 1 == 1
}

/// The first `n` validity bits of a buffer.
pub open spec fn decoded_bits(bytes: Seq<u8>, n: nat) -> Seq<bool> {
    Seq::new(n, |i: int| bit_at(bytes, i))
}

/// The unsigned 32-bit value of four little-endian bytes at `pos`.
pub open spec fn u32_le_at(bytes: Seq<u8>, pos: int) -> u32 {
    (bytes[pos] + 256 * (bytes[pos + 1] + 256 * (bytes[pos + 2] + 256 * bytes[pos + 3]))) as u32
}

/// The signed 32-bit value of four little-endian bytes at `pos`.
pub open spec fn i32_le_at(bytes: Seq<u8>, pos: int) -> i32 {
    u32_le_at(bytes, pos) as i32
}

/// The first `n` signed 32-bit values of a little-endian buffer.
pub open spec fn decoded_i32s(bytes: Seq<u8>, n: nat) -> Seq<i32> {
    Seq::new(n, |i: int| i32_le_at(bytes, 4 * i))
}

/// The unsigned 64-bit value of eight little-endian bytes at `pos`.
pub open spec fn u64_le_at(bytes: Seq<u8>, pos: int) -> int {
    bytes[pos] + 256 * (bytes[pos + 1] + 256 * (bytes[pos + 2] + 256 * (bytes[pos + 3] + 256 * (
    bytes[pos + 4] + 256 * (bytes[pos + 5] + 256 * (bytes[pos + 6] + 256 * bytes[pos + 7]))))))
}

/// Whether a descriptor's byte range lies within the body.
pub open spec fn in_range(desc: BufferDesc, body: Seq<u8>) -> bool {
    desc.offset + desc.length <= body.len()
}

/// The byte range a descriptor names.
pub open spec fn range_of(desc: BufferDesc, body: Seq<u8>) -> Seq<u8> {
    body.subrange(desc.offset as int, desc.offset + desc.length)
}

/// The compressed payload of a buffer: past the 8-byte length prefix.
pub open spec fn compressed_payload(desc: BufferDesc, body: Seq<u8>) -> Seq<u8> {
    body.subrange(desc.offset + 8, desc.offset + desc.length)
}

/// The decompressed length a compressed buffer declares in its prefix.
pub open spec fn declared_len(desc: BufferDesc, body: Seq<u8>) -> int {
    u64_le_at(body, desc.offset as int)
}

/// What a compressed buffer holds under LZ4: past the 8-byte prefix lies the
/// named frame of `x`, whose length the prefix declares.
pub open spec fn lz4_buffer_holds(desc: BufferDesc, body: Seq<u8>, x: Seq<u8>) -> bool {
    &&& in_range(desc, body)
    &&& desc.length >= 8
    &&& compressed_payload(desc, body) == lz4_frame_of(x)
    &&& x.len() == declared_len(desc, body)
    &&& x.len() <= usize::MAX
}

/// What a compressed buffer holds under ZSTD.
pub open spec fn zstd_buffer_holds(desc: BufferDesc, body: Seq<u8>, x: Seq<u8>) -> bool {
    &&& in_range(desc, body)
    &&& desc.length >= 8
    &&& compressed_payload(desc, body) == zstd_frame_of(x)
    &&& x.len() == declared_len(desc, body)
    &&& x.len() <= usize::MAX
}

/// What a compressed buffer holds under whichever algorithm the message
/// selected.
pub open spec fn buffer_holds(
    kind: CompressionKind,
    desc: BufferDesc,
    body: Seq<u8>,
    x: Seq<u8>,
) -> bool {
    match kind {
        CompressionKind::Lz4 => lz4_buffer_holds(desc, body, x),
        CompressionKind::Zstd => zstd_buffer_holds(desc, body, x),
    }
}

fn read_u32_le(bytes: &Vec<u8>, pos: usize) -> (r: u32)
    requires
        pos + 4 <= bytes@.len(),
    ensures
        r == u32_le_at(bytes@, pos as int),
{
    let total = bytes.len();
    let b0 = bytes[pos] as u32;
    let b1 = bytes[pos + 1] as u32;
    let b2 = bytes[pos + 2] as u32;
    let b3 = bytes[pos + 3] as u32;
    b0 + 256 * b1 + 65536 * b2 + 16777216 * b3
}

fn read_i32_le(bytes: &Vec<u8>, pos: usize) -> (r: i32)
    requires
        pos + 4 <= bytes@.len(),
    ensures
        r == i32_le_at(bytes@, pos as int),
{
    #[verifier::truncate] (read_u32_le(bytes, pos) as i32)
}

fn read_u64_le(bytes: &Vec<u8>, pos: usize) -> (r: u64)
    requires
        pos + 8 <= bytes@.len(),
    ensures
        r == u64_le_at(bytes@, pos as int),
{
    let total = bytes.len();
    let b0 = bytes[pos] as u64;
    let b1 = bytes[pos + 1] as u64;
    let b2 = bytes[pos + 2] as u64;
    let b3 = bytes[pos + 3] as u64;
    let b4 = bytes[pos + 4] as u64;
    let b5 = bytes[pos + 5] as u64;
    let b6 = bytes[pos + 6] as u64;
    let b7 = bytes[pos + 7] as u64;
    b0 + 256 * b1 + 65536 * b2 + 16777216 * b3 + 4294967296 * b4 + 1099511627776 * b5
        + 281474976710656 * b6 + 72057594037927936 * b7
}

fn copy_range(src: &Vec<u8>, start: usize, len: usize) -> (r: Vec<u8>)
    requires
        start + len <= src@.len(),
    ensures
        r@ == src@.subrange(start as int, start + len),
{
    let total = src.len();
    let mut r: Vec<u8> = Vec::new();
    let mut i: usize = 0;
    while i < len
        invariant
            i <= len,
            start + len <= src@.len(),
            src@.len() <= usize::MAX,
            r@ == src@.subrange(start as int, start + i),
        decreases len - i,
    {
        r.push(src[start + i]);
        proof {
            assert(r@ =~= src@.subrange(start as int, start + i + 1));
        }
        i = i + 1;
    }
    r
}

fn zero_vec(n: usize) -> (r: Vec<u8>)
    ensures
        r@ == Seq::new(n as nat, |i: int| 0u8),
{
    let mut r: Vec<u8> = Vec::new();
    let mut i: usize = 0;
    while i < n
        invariant
            i <= n,
            r@ == Seq::new(i as nat, |j: int| 0u8),
        decreases n - i,
    {
        r.push(0);
        proof {
            assert(r@ =~= Seq::new((i + 1) as nat, |j: int| 0u8));
        }
        i = i + 1;
    }
    r
}

/// Materializes the bytes one buffer descriptor names. Without compression
/// the byte range is taken as it stands; with compression the range holds an
/// 8-byte little-endian decompressed length followed by one compressed frame,
/// which is decompressed into a freshly sized buffer.
pub fn read_buffer_bytes(
    body: &Vec<u8>,
    desc: &BufferDesc,
    compression: Option<CompressionKind>,
) -> (r: Result<Vec<u8>, Error>)
    ensures
        compression is None ==> (r is Ok <==> in_range(*desc, body@)),
        compression is None && r is Ok ==> r->Ok_0@ == range_of(*desc, body@),
        !in_range(*desc, body@) ==> r == Err::<Vec<u8>, Error>(Error::TruncatedInput),
        compression is Some && r is Ok ==> in_range(*desc, body@) && desc.length >= 8
            && r->Ok_0@.len() == declared_len(*desc, body@),
        compression == Some(CompressionKind::Lz4) ==> (forall|x: Seq<u8>|
            #![trigger lz4_frame_of(x)]
            in_range(*desc, body@) && desc.length >= 8 && compressed_payload(*desc, body@)
                == lz4_frame_of(x) && x.len() == declared_len(*desc, body@) && x.len()
                <= usize::MAX ==> r is Ok && r->Ok_0@ == x),
        compression == Some(CompressionKind::Zstd) ==> (forall|x: Seq<u8>|
            #![trigger zstd_frame_of(x)]
            in_range(*desc, body@) && desc.length >= 8 && compressed_payload(*desc, body@)
                == zstd_frame_of(x) && x.len() == declared_len(*desc, body@) && x.len()
                <= usize::MAX ==> r is Ok && r->Ok_0@ == x),
        (match compression {
            Option::Some(kind) => forall|x: Seq<u8>|
                #[trigger] buffer_holds(kind, *desc, body@, x) ==> r is Ok && r->Ok_0@ == x,
            Option::None => true,
        }),
{
    if desc.offset > body.len() || desc.length > body.len() - desc.offset {
        return Err(Error::TruncatedInput);
    }
    match compression {
        Option::None => Ok(copy_range(body, desc.offset, desc.length)),
        Option::Some(kind) => {
            if desc.length < 8 {
                return Err(Error::TruncatedInput);
            }
            let declared = read_u64_le(body, desc.offset);
            if declared > usize::MAX as u64 {
                return Err(Error::TruncatedInput);
            }
            let n = declared as usize;
            let mut out = zero_vec(n);
            let payload = vstd::slice::slice_subrange(
                body.as_slice(),
                desc.offset + 8,
                desc.offset + desc.length,
            );
            let outcome = match kind {
                CompressionKind::Lz4 => decompress_lz4(payload, &mut out),
                CompressionKind::Zstd => decompress_zstd(payload, &mut out),
            };
            match outcome {
                Ok(()) => Ok(out),
                Err(e) => Err(e),
            }
        },
    }
}

/// Reinterprets little-endian bytes as `length` validity bits.
fn bits_from_bytes(bytes: &Vec<u8>, length: usize) -> (r: Result<Vec<bool>, Error>)
    ensures
        r is Ok <==> length <= bytes@.len() * 8,
        r is Ok ==> r->Ok_0@ == decoded_bits(bytes@, length as nat),
        r is Err ==> r == Err::<Vec<bool>, Error>(Error::TruncatedInput),
{
    let needed = length / 8 + (if length % 8 == 0 {
        0
    } else {
        1
    });
    if needed > bytes.len() {
        return Err(Error::TruncatedInput);
    }
    let mut bits: Vec<bool> = Vec::new();
    let mut i: usize = 0;
    while i < length
        invariant
            i <= length,
            length <= bytes@.len() * 8,
            bits@ == decoded_bits(bytes@, i as nat),
        decreases length - i,
    {
        let b = (bytes[i / 8] >> ((i % 8) as u8)) & 1 == 1;
        bits.push(b);
        proof {
            assert(bits@ =~= decoded_bits(bytes@, (i + 1) as nat));
        }
        i = i + 1;
    }
    Ok(bits)
}

/// Reinterprets little-endian bytes as `length` 32-bit values.
fn values_from_bytes(bytes: &Vec<u8>, length: usize) -> (r: Result<Vec<i32>, Error>)
    ensures
        r is Ok <==> 4 * length <= bytes@.len(),
        r is Ok ==> r->Ok_0@ == decoded_i32s(bytes@, length as nat),
        r is Err ==> r == Err::<Vec<i32>, Error>(Error::TruncatedInput),
{
    let total = bytes.len();
    if length > total / 4 {
        return Err(Error::TruncatedInput);
    }
    let mut values: Vec<i32> = Vec::new();
    let mut i: usize = 0;
    while i < length
        invariant
            i <= length,
            4 * length <= bytes@.len(),
            bytes@.len() <= usize::MAX,
            values@ == decoded_i32s(bytes@, i as nat),
        decreases length - i,
    {
        let v = read_i32_le(bytes, 4 * i);
        values.push(v);
        proof {
            assert(values@ =~= decoded_i32s(bytes@, (i + 1) as nat));
        }
        i = i + 1;
    }
    Ok(values)
}

/// Whether a primitive column's node and two buffers can be served from the
/// body without compression.
pub open spec fn prim_ok(node: Node, vdesc: BufferDesc, ddesc: BufferDesc, body: Seq<u8>) -> bool {
    &&& (node.null_count > 0 ==> in_range(vdesc, body) && node.length <= vdesc.length * 8)
    &&& in_range(ddesc, body)
    &&& 4 * node.length <= ddesc.length
}

/// The validity a primitive column decodes to: present exactly when the node
/// records any nulls.
pub open spec fn prim_validity(node: Node, vdesc: BufferDesc, body: Seq<u8>) -> Option<Seq<bool>> {
    if node.null_count > 0 {
        Option::Some(decoded_bits(range_of(vdesc, body), node.length as nat))
    } else {
        Option::None
    }
}

/// The values a primitive column decodes to, without compression.
pub open spec fn prim_values(node: Node, ddesc: BufferDesc, body: Seq<u8>) -> Seq<i32> {
    decoded_i32s(range_of(ddesc, body), node.length as nat)
}

/// Reads the optional validity bitmap of one column: the buffer is consumed
/// either way, but only a node with nulls materializes bits.
fn read_validity(
    node: Node,
    vdesc: BufferDesc,
    body: &Vec<u8>,
    compression: Option<CompressionKind>,
) -> (r: Result<Option<Bitmap>, Error>)
    ensures
        r is Ok ==> (match r->Ok_0 {
            Option::Some(bits) => node.null_count > 0 && bits@.len() == node.length,
            Option::None => node.null_count == 0,
        }),
        compression is None ==> (r is Ok <==> (node.null_count > 0 ==> in_range(vdesc, body@)
            && node.length <= vdesc.length * 8)),
        compression is None && r is Ok && node.null_count > 0 ==> (match r->Ok_0 {
            Option::Some(bits) => bits@ == decoded_bits(range_of(vdesc, body@), node.length as nat),
            Option::None => false,
        }),
        compression is None && r is Err ==> r == Err::<Option<Bitmap>, Error>(Error::TruncatedInput),
        node.null_count == 0 ==> r == Ok::<Option<Bitmap>, Error>(Option::None),
        (match compression {
            Option::Some(kind) => node.null_count > 0 ==> (forall|x: Seq<u8>|
                #[trigger] buffer_holds(kind, vdesc, body@, x) && node.length <= x.len() * 8
                    ==> r is Ok && (match r {
                    Result::Ok(Option::Some(bits)) => bits@ == decoded_bits(
                        x,
                        node.length as nat,
                    ),
                    _ => false,
                })),
            Option::None => true,
        }),
{
    if node.null_count == 0 {
        return Ok(Option::None);
    }
    let vbytes = match read_buffer_bytes(body, &vdesc, compression) {
        Ok(vbytes) => vbytes,
        Err(e) => return Err(e),
    };
    match bits_from_bytes(&vbytes, node.length) {
        Ok(bits) => Ok(Option::Some(Bitmap::from_bits(bits))),
        Err(e) => Err(e),
    }
}

/// The Primitive case: consumes one field node and two buffer descriptors
/// (validity, then values) and materializes a 32-bit integer array of exactly
/// the node's length. Without compression the array's contents are exactly
/// the little-endian decoding of the referenced byte ranges, and the read
/// succeeds exactly when the descriptors lie within the body and are large
/// enough; a shortfall is [`Error::TruncatedInput`]. Under body compression,
/// whenever each referenced buffer holds the named frame of bytes of its
/// declared length and sufficient size, the read succeeds and the array is
/// exactly the decoding of those decompressed bytes.
pub fn read_primitive(
    field_nodes: &mut VecDeque<Node>,
    buffers: &mut VecDeque<BufferDesc>,
    body: &Vec<u8>,
    compression: Option<CompressionKind>,
) -> (r: Result<PrimitiveArray<i32>, Error>)
    requires
        old(field_nodes)@.len() >= 1,
        old(buffers)@.len() >= 2,
    ensures
        final(field_nodes)@ == old(field_nodes)@.skip(1),
        final(buffers)@ == old(buffers)@.skip(2),
        r is Ok ==> r->Ok_0.wf() && r->Ok_0.values_seq().len() == old(field_nodes)@[0].length
            && r->Ok_0.spec_data_type() == DataType::Int32 && (r->Ok_0.validity_seq() is Some <==> old(field_nodes)@[0].null_count > 0),
        compression is None ==> (r is Ok <==> prim_ok(
            old(field_nodes)@[0],
            old(buffers)@[0],
            old(buffers)@[1],
            body@,
        )),
        compression is None && r is Ok ==> r->Ok_0.values_seq() == prim_values(
            old(field_nodes)@[0],
            old(buffers)@[1],
            body@,
        ) && r->Ok_0.validity_seq() == prim_validity(
            old(field_nodes)@[0],
            old(buffers)@[0],
            body@,
        ),
        compression is None && r is Err ==> r == Err::<PrimitiveArray<i32>, Error>(
            Error::TruncatedInput,
        ),
        (match compression {
            Option::Some(kind) => {
                &&& (old(field_nodes)@[0].null_count == 0 ==> (forall|xd: Seq<u8>|
                    #[trigger] buffer_holds(kind, old(buffers)@[1], body@, xd) && 4 * old(
                        field_nodes,
                    )@[0].length <= xd.len() ==> r is Ok && r->Ok_0.values_seq() == decoded_i32s(
                        xd,
                        old(field_nodes)@[0].length as nat,
                    ) && r->Ok_0.validity_seq() is None))
                &&& (old(field_nodes)@[0].null_count > 0 ==> (forall|xv: Seq<u8>, xd: Seq<u8>|
                    #![trigger buffer_holds(kind, old(buffers)@[0], body@, xv), buffer_holds(kind, old(buffers)@[1], body@, xd)]
                    buffer_holds(kind, old(buffers)@[0], body@, xv) && buffer_holds(
                        kind,
                        old(buffers)@[1],
                        body@,
                        xd,
                    ) && old(field_nodes)@[0].length <= xv.len() * 8 && 4 * old(
                        field_nodes,
                    )@[0].length <= xd.len() ==> r is Ok && r->Ok_0.values_seq() == decoded_i32s(
                        xd,
                        old(field_nodes)@[0].length as nat,
                    ) && r->Ok_0.validity_seq() == Option::Some(
                        decoded_bits(xv, old(field_nodes)@[0].length as nat),
                    )))
            },
            Option::None => true,
        }),
{
    let node = field_nodes.pop_front().unwrap();
    let vdesc = buffers.pop_front().unwrap();
    let ddesc = buffers.pop_front().unwrap();
    proof {
        assert(field_nodes@ =~= old(field_nodes)@.skip(1));
        assert(buffers@ =~= old(buffers)@.skip(2));
    }
    let validity = match read_validity(node, vdesc, body, compression) {
        Ok(validity) => validity,
        Err(e) => return Err(e),
    };
    let dbytes = match read_buffer_bytes(body, &ddesc, compression) {
        Ok(dbytes) => dbytes,
        Err(e) => return Err(e),
    };
    let values = match values_from_bytes(&dbytes, node.length) {
        Ok(values) => values,
        Err(e) => return Err(e),
    };
    let validity = match validity {
        Option::Some(bits) => Option::Some(bits),
        Option::None => Option::None,
    };
    Ok(PrimitiveArray::from_data(DataType::Int32, values, validity))
}

/// The skip counterpart of [`read_primitive`]: advances the same two queues
/// by the same structural rule without materializing anything.
pub fn skip_primitive(field_nodes: &mut VecDeque<Node>, buffers: &mut VecDeque<BufferDesc>)
    requires
        old(field_nodes)@.len() >= 1,
        old(buffers)@.len() >= 2,
    ensures
        final(field_nodes)@ == old(field_nodes)@.skip(1),
        final(buffers)@ == old(buffers)@.skip(2),
{
    let popped_node = field_nodes.pop_front();
    let popped_validity = buffers.pop_front();
    let popped_values = buffers.pop_front();
    proof {
        assert(field_nodes@ =~= old(field_nodes)@.skip(1));
        assert(buffers@ =~= old(buffers)@.skip(2));
    }
}

/// The Dictionary case: resolves `id` in the table, then reconstructs the key
/// array as a primitive integer column and combines the two. An unregistered
/// id fails with [`Error::UnknownDictionaryId`] before anything is consumed,
/// aborting the column; on success the resulting array shares exactly the
/// registered dictionary values, and the keys decode exactly as a primitive
/// column does, with or without body compression.
pub fn read_dictionary(
    field_nodes: &mut VecDeque<Node>,
    buffers: &mut VecDeque<BufferDesc>,
    body: &Vec<u8>,
    compression: Option<CompressionKind>,
    dictionaries: &Dictionaries,
    id: u64,
) -> (r: Result<DictionaryArray, Error>)
    requires
        dictionaries.wf(),
        dictionaries.table().contains_key(id) ==> old(field_nodes)@.len() >= 1 && old(
            buffers,
        )@.len() >= 2,
    ensures
        !dictionaries.table().contains_key(id) ==> final(field_nodes)@ == old(field_nodes)@
            && final(buffers)@ == old(buffers)@ && (match r {
            Result::Err(Error::UnknownDictionaryId { id: bad, known }) => bad == id && known@
                == dictionaries.known_ids(),
            _ => false,
        }),
        dictionaries.table().contains_key(id) ==> final(field_nodes)@ == old(field_nodes)@.skip(1)
            && final(buffers)@ == old(buffers)@.skip(2),
        r is Ok ==> dictionaries.table().contains_key(id) && r->Ok_0.dictionary()
            == dictionaries.table()[id] && r->Ok_0.wf() && r->Ok_0.spec_len() == old(field_nodes)@[0].length,
        compression is None && dictionaries.table().contains_key(id) ==> (r is Ok <==> prim_ok(
            old(field_nodes)@[0],
            old(buffers)@[0],
            old(buffers)@[1],
            body@,
        )),
        compression is None && r is Ok ==> r->Ok_0.keys_array().values_seq() == prim_values(
            old(field_nodes)@[0],
            old(buffers)@[1],
            body@,
        ) && r->Ok_0.keys_array().validity_seq() == prim_validity(
            old(field_nodes)@[0],
            old(buffers)@[0],
            body@,
        ),
        (match compression {
            Option::Some(kind) => dictionaries.table().contains_key(id) ==> {
                &&& (old(field_nodes)@[0].null_count == 0 ==> (forall|xd: Seq<u8>|
                    #[trigger] buffer_holds(kind, old(buffers)@[1], body@, xd) && 4 * old(
                        field_nodes,
                    )@[0].length <= xd.len() ==> r is Ok && r->Ok_0.keys_array().values_seq()
                        == decoded_i32s(xd, old(field_nodes)@[0].length as nat)
                        && r->Ok_0.keys_array().validity_seq() is None))
                &&& (old(field_nodes)@[0].null_count > 0 ==> (forall|xv: Seq<u8>, xd: Seq<u8>|
                    #![trigger buffer_holds(kind, old(buffers)@[0], body@, xv), buffer_holds(kind, old(buffers)@[1], body@, xd)]
                    buffer_holds(kind, old(buffers)@[0], body@, xv) && buffer_holds(
                        kind,
                        old(buffers)@[1],
                        body@,
                        xd,
                    ) && old(field_nodes)@[0].length <= xv.len() * 8 && 4 * old(
                        field_nodes,
                    )@[0].length <= xd.len() ==> r is Ok && r->Ok_0.keys_array().values_seq()
                        == decoded_i32s(xd, old(field_nodes)@[0].length as nat)
                        && r->Ok_0.keys_array().validity_seq() == Option::Some(
                        decoded_bits(xv, old(field_nodes)@[0].length as nat),
                    )))
            },
            Option::None => true,
        }),
{
    let values = match dictionaries.resolve(id) {
        Ok(values) => values,
        Err(e) => return Err(e),
    };
    let keys = match read_primitive(field_nodes, buffers, body, compression) {
        Ok(keys) => keys,
        Err(e) => return Err(e),
    };
    Ok(DictionaryArray::from_data(keys, values))
}

/// The skip counterpart of [`read_dictionary`]: a dictionary column advances
/// the queues exactly as a primitive column does.
pub fn skip_dictionary(field_nodes: &mut VecDeque<Node>, buffers: &mut VecDeque<BufferDesc>)
    requires
        old(field_nodes)@.len() >= 1,
        old(buffers)@.len() >= 2,
    ensures
        final(field_nodes)@ == old(field_nodes)@.skip(1),
        final(buffers)@ == old(buffers)@.skip(2),
{
    skip_primitive(field_nodes, buffers)
}

/// The logical type a shape reconstructs to. Dictionary values in this model
/// are UTF-8 arrays, as the dictionary builder produces them.
pub open spec fn spec_shape_data_type(shape: TypeShape) -> DataType
    decreases shape,
{
    match shape {
        TypeShape::Primitive => DataType::Int32,
        TypeShape::Dictionary(_) => DataType::Dictionary(Box::new(DataType::Utf8)),
        TypeShape::List(child) => DataType::List(Box::new(spec_shape_data_type(*child))),
    }
}

fn shape_data_type(shape: &TypeShape) -> (r: DataType)
    ensures
        r == spec_shape_data_type(*shape),
    decreases *shape,
{
    match shape {
        TypeShape::Primitive => DataType::Int32,
        TypeShape::Dictionary(_) => DataType::Dictionary(Box::new(DataType::Utf8)),
        TypeShape::List(child) => DataType::List(Box::new(shape_data_type(&**child))),
    }
}

/// What reconstruction decodes to, without compression: the direct meaning of
/// the node/buffer queues against the body, shape by shape.
pub open spec fn decodes_to(
    shape: TypeShape,
    nodes: Seq<Node>,
    buffers: Seq<BufferDesc>,
    body: Seq<u8>,
    table: Map<u64, std::sync::Arc<Array>>,
    a: Array,
) -> bool
    decreases shape,
{
    match shape {
        TypeShape::Primitive => nodes.len() >= 1 && buffers.len() >= 2 && (match a {
            Array::Int32(p) => p.values_seq() == prim_values(nodes[0], buffers[1], body)
                && p.validity_seq() == prim_validity(nodes[0], buffers[0], body)
                && p.spec_data_type() == DataType::Int32,
            _ => false,
        }),
        TypeShape::Dictionary(id) => nodes.len() >= 1 && buffers.len() >= 2 && table.contains_key(
            id,
        ) && (match a {
            Array::Dictionary(d) => d.keys_array().values_seq() == prim_values(
                nodes[0],
                buffers[1],
                body,
            ) && d.keys_array().validity_seq() == prim_validity(nodes[0], buffers[0], body)
                && d.dictionary() == table[id],
            _ => false,
        }),
        TypeShape::List(child) => nodes.len() >= 1 && buffers.len() >= 2 && (match a {
            Array::List(l) => l.offsets_seq() == decoded_i32s(
                range_of(buffers[1], body),
                (nodes[0].length + 1) as nat,
            ) && l.validity_seq() == prim_validity(nodes[0], buffers[0], body) && decodes_to(
                *child,
                nodes.skip(1),
                buffers.skip(2),
                body,
                table,
                l.child(),
            ),
            _ => false,
        }),
    }
}

/// Reconstructs one column of the given shape, depth-first: a list reads its
/// own node, validity and offsets buffers (one offset more than elements),
/// then recurses into its child on the remaining queues. On success exactly
/// `nodes_of`/`buffers_of` of the queues are consumed — the same amounts the
/// skip traversal takes — and, without compression, the result is exactly
/// what [`decodes_to`] states. Under body compression, primitive and
/// dictionary columns decode exactly as [`read_primitive`] and
/// [`read_dictionary`] promise, and a successful list pins its own offsets
/// and validity to the decompressed bytes of its buffers.
pub fn read_array(
    shape: &TypeShape,
    field_nodes: &mut VecDeque<Node>,
    buffers: &mut VecDeque<BufferDesc>,
    body: &Vec<u8>,
    compression: Option<CompressionKind>,
    dictionaries: &Dictionaries,
) -> (r: Result<Array, Error>)
    requires
        dictionaries.wf(),
        old(field_nodes)@.len() >= nodes_of(*shape),
        old(buffers)@.len() >= buffers_of(*shape),
    ensures
        r is Ok ==> final(field_nodes)@ == old(field_nodes)@.skip(nodes_of(*shape) as int) && final(buffers)@ == old(buffers)@.skip(buffers_of(*shape) as int),
        r is Ok ==> array_matches_shape(r->Ok_0, *shape) && r->Ok_0.spec_len() == old(field_nodes)@[0].length,
        compression is None && r is Ok ==> decodes_to(
            *shape,
            old(field_nodes)@,
            old(buffers)@,
            body@,
            dictionaries.table(),
            r->Ok_0,
        ),
        (match (compression, *shape) {
            (Option::Some(kind), TypeShape::Primitive) => {
                &&& (old(field_nodes)@[0].null_count == 0 ==> (forall|xd: Seq<u8>|
                    #[trigger] buffer_holds(kind, old(buffers)@[1], body@, xd) && 4 * old(
                        field_nodes,
                    )@[0].length <= xd.len() ==> r is Ok && (match r {
                        Result::Ok(Array::Int32(p)) => p.values_seq() == decoded_i32s(
                            xd,
                            old(field_nodes)@[0].length as nat,
                        ) && p.validity_seq() is None,
                        _ => false,
                    })))
                &&& (old(field_nodes)@[0].null_count > 0 ==> (forall|xv: Seq<u8>, xd: Seq<u8>|
                    #![trigger buffer_holds(kind, old(buffers)@[0], body@, xv), buffer_holds(kind, old(buffers)@[1], body@, xd)]
                    buffer_holds(kind, old(buffers)@[0], body@, xv) && buffer_holds(
                        kind,
                        old(buffers)@[1],
                        body@,
                        xd,
                    ) && old(field_nodes)@[0].length <= xv.len() * 8 && 4 * old(
                        field_nodes,
                    )@[0].length <= xd.len() ==> r is Ok && (match r {
                        Result::Ok(Array::Int32(p)) => p.values_seq() == decoded_i32s(
                            xd,
                            old(field_nodes)@[0].length as nat,
                        ) && p.validity_seq() == Option::Some(
                            decoded_bits(xv, old(field_nodes)@[0].length as nat),
                        ),
                        _ => false,
                    })))
            },
            (Option::Some(kind), TypeShape::Dictionary(id)) => dictionaries.table().contains_key(
                id,
            ) ==> {
                &&& (old(field_nodes)@[0].null_count == 0 ==> (forall|xd: Seq<u8>|
                    #[trigger] buffer_holds(kind, old(buffers)@[1], body@, xd) && 4 * old(
                        field_nodes,
                    )@[0].length <= xd.len() ==> r is Ok && (match r {
                        Result::Ok(Array::Dictionary(d)) => d.keys_array().values_seq()
                            == decoded_i32s(xd, old(field_nodes)@[0].length as nat)
                            && d.keys_array().validity_seq() is None && d.dictionary()
                            == dictionaries.table()[id],
                        _ => false,
                    })))
                &&& (old(field_nodes)@[0].null_count > 0 ==> (forall|xv: Seq<u8>, xd: Seq<u8>|
                    #![trigger buffer_holds(kind, old(buffers)@[0], body@, xv), buffer_holds(kind, old(buffers)@[1], body@, xd)]
                    buffer_holds(kind, old(buffers)@[0], body@, xv) && buffer_holds(
                        kind,
                        old(buffers)@[1],
                        body@,
                        xd,
                    ) && old(field_nodes)@[0].length <= xv.len() * 8 && 4 * old(
                        field_nodes,
                    )@[0].length <= xd.len() ==> r is Ok && (match r {
                        Result::Ok(Array::Dictionary(d)) => d.keys_array().values_seq()
                            == decoded_i32s(xd, old(field_nodes)@[0].length as nat)
                            && d.keys_array().validity_seq() == Option::Some(
                            decoded_bits(xv, old(field_nodes)@[0].length as nat),
                        ) && d.dictionary() == dictionaries.table()[id],
                        _ => false,
                    })))
            },
            (Option::Some(kind), TypeShape::List(_)) => r is Ok ==> (match r {
                Result::Ok(Array::List(l)) => (forall|xo: Seq<u8>|
                    #[trigger] buffer_holds(kind, old(buffers)@[1], body@, xo)
                        ==> l.offsets_seq() == decoded_i32s(
                        xo,
                        (old(field_nodes)@[0].length + 1) as nat,
                    )) && (old(field_nodes)@[0].null_count > 0 ==> (forall|xv: Seq<u8>|
                    #[trigger] buffer_holds(kind, old(buffers)@[0], body@, xv) && old(
                        field_nodes,
                    )@[0].length <= xv.len() * 8 ==> l.validity_seq() == Option::Some(
                        decoded_bits(xv, old(field_nodes)@[0].length as nat),
                    ))),
                _ => false,
            }),
            _ => true,
        }),
    decreases *shape,
{
    match shape {
        TypeShape::Primitive => {
            match read_primitive(field_nodes, buffers, body, compression) {
                Ok(keys) => Ok(Array::Int32(keys)),
                Err(e) => Err(e),
            }
        },
        TypeShape::Dictionary(id) => {
            match read_dictionary(field_nodes, buffers, body, compression, dictionaries, *id) {
                Ok(d) => Ok(Array::Dictionary(Box::new(d))),
                Err(e) => Err(e),
            }
        },
        TypeShape::List(child) => {
            let node = field_nodes.pop_front().unwrap();
            let vdesc = buffers.pop_front().unwrap();
            let odesc = buffers.pop_front().unwrap();
            proof {
                assert(field_nodes@ =~= old(field_nodes)@.skip(1));
                assert(buffers@ =~= old(buffers)@.skip(2));
            }
            if node.length >= usize::MAX {
                return Err(Error::TruncatedInput);
            }
            let validity = match read_validity(node, vdesc, body, compression) {
                Ok(validity) => validity,
                Err(e) => return Err(e),
            };
            let obytes = match read_buffer_bytes(body, &odesc, compression) {
                Ok(obytes) => obytes,
                Err(e) => return Err(e),
            };
            let offsets = match values_from_bytes(&obytes, node.length + 1) {
                Ok(offsets) => offsets,
                Err(e) => return Err(e),
            };
            let ghost nodes_mid = field_nodes@;
            let ghost buffers_mid = buffers@;
            let values = match read_array(child, field_nodes, buffers, body, compression, dictionaries) {
                Ok(values) => values,
                Err(e) => return Err(e),
            };
            proof {
                assert(field_nodes@ =~= old(field_nodes)@.skip(1 + nodes_of(**child) as int));
                assert(buffers@ =~= old(buffers)@.skip(2 + buffers_of(**child) as int));
            }
            let data_type = shape_data_type(shape);
            Ok(
                Array::List(
                    Box::new(ListArray::from_data(data_type, offsets, Box::new(values), validity)),
                ),
            )
        },
    }
}

/// The skip traversal: advances the two queues by exactly the same structural
/// rule as [`read_array`], consuming `nodes_of`/`buffers_of` of the shape,
/// without materializing any array.
pub fn skip_array(shape: &TypeShape, field_nodes: &mut VecDeque<Node>, buffers: &mut VecDeque<
    BufferDesc,
>)
    requires
        old(field_nodes)@.len() >= nodes_of(*shape),
        old(buffers)@.len() >= buffers_of(*shape),
    ensures
        final(field_nodes)@ == old(field_nodes)@.skip(nodes_of(*shape) as int),
        final(buffers)@ == old(buffers)@.skip(buffers_of(*shape) as int),
    decreases *shape,
{
    match shape {
        TypeShape::Primitive => skip_primitive(field_nodes, buffers),
        TypeShape::Dictionary(_) => skip_dictionary(field_nodes, buffers),
        TypeShape::List(child) => {
            skip_primitive(field_nodes, buffers);
            skip_array(child, field_nodes, buffers);
            proof {
                assert(field_nodes@ =~= old(field_nodes)@.skip(1 + nodes_of(**child) as int));
                assert(buffers@ =~= old(buffers)@.skip(2 + buffers_of(**child) as int));
            }
        },
    }
}

/// Skip/materialize parity: for every type shape, the skip traversal and a
/// successful materializing traversal leave the two queues in exactly the
/// same state, because both consume `nodes_of`/`buffers_of` of the shape, as
/// the contracts of [`read_array`] and [`skip_array`] state.
pub proof fn lemma_skip_materialize_parity(
    shape: TypeShape,
    nodes: Seq<Node>,
    buffers: Seq<BufferDesc>,
    nodes_after_read: Seq<Node>,
    buffers_after_read: Seq<BufferDesc>,
    nodes_after_skip: Seq<Node>,
    buffers_after_skip: Seq<BufferDesc>,
)
    requires
        nodes_after_read == nodes.skip(nodes_of(shape) as int),
        buffers_after_read == buffers.skip(buffers_of(shape) as int),
        nodes_after_skip == nodes.skip(nodes_of(shape) as int),
        buffers_after_skip == buffers.skip(buffers_of(shape) as int),
    ensures
        nodes_after_read == nodes_after_skip,
        buffers_after_read == buffers_after_skip,
{
}

} // verus!
