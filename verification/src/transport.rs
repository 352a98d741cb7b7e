//! The transport buffer a request is built in: a ten-byte transport header,
//! then the application payload (command, argument count, arguments).

use crate::checksum::{checksum_ieee, crc32_ieee};
use crate::endian::{le16, le32, le_read_uint};
use vstd::prelude::*;
use vstd::slice::slice_subrange;

verus! {

/// The transport header every request starts from: link header (filled in when
/// the frame is sent), transport size, sequence number 1 of 1.
pub open spec fn transport_header() -> Seq<u8> {
    seq![1u8, 0, 0, 0, 0, 0, 1, 0, 1, 0]
}

/// One argument on the wire: its id, the length of its data, the data.
pub open spec fn encode_arg(a: (u16, Seq<u8>)) -> Seq<u8> {
    le16(a.0) + le16(a.1.len() as u16) + a.1
}

/// The arguments on the wire, in order.
pub open spec fn encode_args(args: Seq<(u16, Seq<u8>)>) -> Seq<u8>
    decreases args.len(),
{
    if args.len() == 0 {
        Seq::empty()
    } else {
        encode_args(args.drop_last()) + encode_arg(args.last())
    }
}

/// An application payload: command, argument count, arguments.
pub open spec fn encode_payload(cmd: u16, args: Seq<(u16, Seq<u8>)>) -> Seq<u8> {
    le16(cmd) + le16(args.len() as u16) + encode_args(args)
}

/// The buffer with its argument count (the byte after the command) raised by one.
pub open spec fn bump_count(s: Seq<u8>) -> Seq<u8> {
    s.update(12, (s[12] + 1) as u8)
}

/// The buffer with one more argument counted and appended.
pub open spec fn append_arg(s: Seq<u8>, a: (u16, Seq<u8>)) -> Seq<u8> {
    bump_count(s) + encode_arg(a)
}

/// The buffer a fresh transport buffer becomes when the command is set and
/// the arguments are added one after another.
pub open spec fn built_request(cmd: u16, args: Seq<(u16, Seq<u8>)>) -> Seq<u8>
    decreases args.len(),
{
    if args.len() == 0 {
        transport_header() + le16(cmd) + le16(0)
    } else {
        append_arg(built_request(cmd, args.drop_last()), args.last())
    }
}

/// A fresh transport buffer holding the transport header.
pub fn create_transport_buffer() -> (r: Vec<u8>)
    ensures
        r@ == transport_header(),
{
    let mut v: Vec<u8> = Vec::with_capacity(256);
    v.push(1);
    v.push(0);
    v.push(0);
    v.push(0);
    v.push(0);
    v.push(0);
    v.push(1);
    v.push(0);
    v.push(1);
    v.push(0);
    assert(v@ =~= transport_header());
    v
}

/// Appends `data`, least significant byte first.
pub fn push_u16(buf: Vec<u8>, data: u16) -> (r: Vec<u8>)
    ensures
        r@ == buf@ + le16(data),
{
    let mut buf = buf;
    let ghost start = buf@;
    assert(0xff & data == data % 256) by (bit_vector);
    buf.push((0xff & data) as u8);
    let high = data / 256;
    assert(0xff & high == high) by (bit_vector)
        requires
            high < 256,
    ;
    buf.push((0xff & high) as u8);
    assert(buf@ =~= start + le16(data));
    buf
}

/// Appends `data`, least significant byte first.
pub fn push_u32(buf: Vec<u8>, data: u32) -> (r: Vec<u8>)
    ensures
        r@ == buf@ + le32(data),
{
    let mut buf = buf;
    let ghost start = buf@;
    assert(0xff & data == data % 256) by (bit_vector);
    buf.push((0xff & data) as u8);
    let d1 = data / 256;
    assert(0xff & d1 == d1 % 256) by (bit_vector);
    buf.push((0xff & d1) as u8);
    let d2 = d1 / 256;
    assert(0xff & d2 == d2 % 256) by (bit_vector);
    buf.push((0xff & d2) as u8);
    let d3 = d2 / 256;
    assert(0xff & d3 == d3) by (bit_vector)
        requires
            d3 < 256,
    ;
    buf.push((0xff & d3) as u8);
    assert(buf@ =~= start + le32(data));
    buf
}

/// The command in a buffer that holds one. Reading it asks byteorder for two
/// bytes from a one-byte slice, which panics; so only shorter buffers, for
/// which there is no command yet, are admitted, and they give `None`.
pub fn get_cmd(buf: &Vec<u8>) -> (r: Option<u16>)
    requires
        buf@.len() < 12,
    ensures
        r is None,
{
    if buf.len() >= 12 {
        let resp = (le_read_uint(slice_subrange(buf.as_slice(), 11, 12), 2) & 0xffff) as u16;
        return Some(resp);
    }
    None
}

/// Appends the command and an argument count of zero to a bare transport header.
pub fn set_cmd(buf: Vec<u8>, cmd: u16) -> (r: Vec<u8>)
    requires
        buf@.len() == 10,
    ensures
        r@ == buf@ + le16(cmd) + le16(0),
{
    push_u16(push_u16(buf, cmd), 0)
}

/// Appends the CRC-32 of everything after the link header (the first four bytes).
pub fn push_crc(buf: Vec<u8>) -> (r: Vec<u8>)
    requires
        buf@.len() >= 4,
    ensures
        r@ == buf@ + le32(crc32_ieee(buf@.subrange(4, buf@.len() as int))),
{
    let crc = checksum_ieee(slice_subrange(buf.as_slice(), 4, buf.len()));
    push_u32(buf, crc)
}

/// Adds an argument without data: counts it, then appends its id and a zero length.
pub fn add_arg(buf: Vec<u8>, arg: u16) -> (r: Vec<u8>)
    requires
        buf@.len() > 12,
        buf@[12] < 255,
    ensures
        r@ == bump_count(buf@) + le16(arg) + le16(0),
        r@ == append_arg(buf@, (arg, Seq::empty())),
{
    let mut buf = buf;
    let count = buf[12];
    buf.set(12, count + 1);
    push_u16(push_u16(buf, arg), 0)
}

/// Adds an argument holding one byte. Its declared length is two while one
/// byte of data follows it.
pub fn add_arg_u8(buf: Vec<u8>, arg: u16, data: u8) -> (r: Vec<u8>)
    requires
        buf@.len() > 12,
        buf@[12] < 255,
    ensures
        r@ == bump_count(buf@) + le16(arg) + le16(2) + seq![data],
{
    let mut buf = buf;
    let count = buf[12];
    buf.set(12, count + 1);
    let mut s = push_u16(push_u16(buf, arg), 2);
    s.push(data);
    s
}

/// Adds an argument holding a 16-bit number.
pub fn add_arg_u16(buf: Vec<u8>, arg: u16, data: u16) -> (r: Vec<u8>)
    requires
        buf@.len() > 12,
        buf@[12] < 255,
    ensures
        r@ == bump_count(buf@) + le16(arg) + le16(2) + le16(data),
        r@ == append_arg(buf@, (arg, le16(data))),
{
    let mut buf = buf;
    let count = buf[12];
    buf.set(12, count + 1);
    push_u16(push_u16(push_u16(buf, arg), 2), data)
}

/// Adds an argument holding a 32-bit number.
pub fn add_arg_u32(buf: Vec<u8>, arg: u16, data: u32) -> (r: Vec<u8>)
    requires
        buf@.len() > 12,
        buf@[12] < 255,
    ensures
        r@ == bump_count(buf@) + le16(arg) + le16(4) + le32(data),
        r@ == append_arg(buf@, (arg, le32(data))),
{
    let mut buf = buf;
    let count = buf[12];
    buf.set(12, count + 1);
    push_u32(push_u16(push_u16(buf, arg), 4), data)
}

/// Encoded arguments with one more argument at the end.
pub proof fn lemma_encode_args_push(args: Seq<(u16, Seq<u8>)>, a: (u16, Seq<u8>))
    ensures
        encode_args(args.push(a)) == encode_args(args) + encode_arg(a),
{
    assert(args.push(a).drop_last() =~= args);
}

/// A buffer holding only the command is the request with no arguments.
pub proof fn lemma_command_only(cmd: u16)
    ensures
        transport_header() + le16(cmd) + le16(0) == transport_header() + encode_payload(
            cmd,
            Seq::empty(),
        ),
{
    let e = Seq::<(u16, Seq<u8>)>::empty();
    assert(encode_args(e) =~= Seq::<u8>::empty());
    assert(transport_header() + le16(cmd) + le16(0) =~= transport_header() + encode_payload(cmd, e));
}

/// Counting an argument and appending it to a request gives the request with
/// that argument at the end, while fewer than 255 arguments are present.
pub proof fn lemma_add_encoded(cmd: u16, args: Seq<(u16, Seq<u8>)>, a: (u16, Seq<u8>))
    requires
        args.len() < 255,
    ensures
        (transport_header() + encode_payload(cmd, args)).len() > 12,
        (transport_header() + encode_payload(cmd, args))[12] < 255,
        bump_count(transport_header() + encode_payload(cmd, args)) + encode_arg(a)
            == transport_header() + encode_payload(cmd, args.push(a)),
{
    let s = transport_header() + encode_payload(cmd, args);
    lemma_encode_args_push(args, a);
    assert(s[12] == args.len());
    assert(s[13] == 0);
    assert(bump_count(s) + encode_arg(a) =~= transport_header() + encode_payload(cmd, args.push(a)));
}

} // verus!
