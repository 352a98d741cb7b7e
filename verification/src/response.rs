//! The reply payload: command, argument count, then each argument as id,
//! length and data.

use crate::bmlitelib::Error;
use crate::endian::{as_u16, lemma_le16_roundtrip, le16, word16};
use crate::transport::{
    built_request, encode_arg, encode_args, encode_payload, lemma_add_encoded,
    lemma_command_only, transport_header,
};
use vstd::prelude::*;
use vstd::slice::{slice_subrange, slice_to_vec};

verus! {

/// Reads `count` arguments starting at `pos`, after those already in `acc`;
/// `None` where an argument runs past the end of `s`.
pub open spec fn parse_from(s: Seq<u8>, pos: int, count: nat, acc: Seq<(u16, Seq<u8>)>) -> Option<
    Seq<(u16, Seq<u8>)>,
>
    decreases count,
{
    if count == 0 {
        Some(acc)
    } else if s.len() < pos + 4 {
        None
    } else {
        let n = word16(s[pos + 2], s[pos + 3]) as int;
        if s.len() < pos + 4 + n {
            None
        } else {
            parse_from(
                s,
                pos + 4 + n,
                (count - 1) as nat,
                acc.push((word16(s[pos], s[pos + 1]), s.subrange(pos + 4, pos + 4 + n))),
            )
        }
    }
}

/// The arguments of a reply to `cmd`: `None` for a reply shorter than six
/// bytes, for one to another command, or for one whose arguments do not fit.
pub open spec fn parse_payload(s: Seq<u8>, cmd: u16) -> Option<Seq<(u16, Seq<u8>)>> {
    if s.len() < 6 || word16(s[0], s[1]) != cmd {
        None
    } else {
        parse_from(s, 4, word16(s[2], s[3]) as nat, Seq::empty())
    }
}

/// Splits the reply to `cmd` into its arguments, in order. A refused reply
/// hands on no argument at all, not even those before the one that does not
/// fit: the error carries none.
pub fn parse_result<E>(resp: &Vec<u8>, cmd: u16) -> (r: Result<Vec<(u16, Vec<u8>)>, Error<E>>)
    ensures
        match r {
            Ok(args) => parse_payload(resp@, cmd) == Some(args.deep_view()),
            Err(e) => parse_payload(resp@, cmd) is None && e is UnexpectedResponse,
        },
{
    let len = resp.len();
    if len < 6 {
        return Err(Error::UnexpectedResponse);
    }
    if cmd != as_u16(resp[1], resp[0]) {
        return Err(Error::UnexpectedResponse);
    }
    let argc = as_u16(resp[3], resp[2]);
    let mut current: usize = 4;
    let mut args: Vec<(u16, Vec<u8>)> = Vec::new();
    let mut i: u16 = 0;
    assert(args.deep_view() =~= Seq::<(u16, Seq<u8>)>::empty());
    while i < argc
        invariant
            4 <= current <= len,
            len == resp@.len(),
            i <= argc,
            argc == word16(resp@[2], resp@[3]),
            parse_payload(resp@, cmd) == parse_from(
                resp@,
                current as int,
                (argc - i) as nat,
                args.deep_view(),
            ),
        decreases argc - i,
    {
        if len - current < 4 {
            return Err(Error::UnexpectedResponse);
        }
        let arg = as_u16(resp[1 + current], resp[current]);
        let arglen = as_u16(resp[3 + current], resp[2 + current]) as usize;
        current = current + 4;
        if len - current < arglen {
            return Err(Error::UnexpectedResponse);
        }
        let data = slice_to_vec(slice_subrange(resp.as_slice(), current, current + arglen));
        let ghost before = args.deep_view();
        assert(data.deep_view() =~= data@);
        args.push((arg, data));
        assert(args.deep_view() =~= before.push((arg, data@)));
        current = current + arglen;
        i = i + 1;
    }
    Ok(args)
}

/// Encoded arguments read front to back: the first argument, then the rest.
proof fn lemma_encode_args_front(args: Seq<(u16, Seq<u8>)>)
    requires
        args.len() > 0,
    ensures
        encode_args(args) == encode_arg(args[0]) + encode_args(args.drop_first()),
    decreases args.len(),
{
    if args.len() == 1 {
        assert(args.drop_last() =~= Seq::<(u16, Seq<u8>)>::empty());
        assert(args.drop_first() =~= Seq::<(u16, Seq<u8>)>::empty());
        assert(encode_args(args) =~= encode_arg(args[0]) + encode_args(args.drop_first()));
    } else {
        lemma_encode_args_front(args.drop_last());
        assert(args.drop_last().drop_first() =~= args.drop_first().drop_last());
        assert(args.drop_last()[0] == args[0]);
        assert(args.drop_first().last() == args.last());
        assert(encode_args(args) =~= encode_arg(args[0]) + encode_args(args.drop_first()));
    }
}

/// Arguments written one after another at `pos` are read back, in order.
proof fn lemma_parse_encoded_args(
    s: Seq<u8>,
    pos: int,
    args: Seq<(u16, Seq<u8>)>,
    acc: Seq<(u16, Seq<u8>)>,
)
    requires
        0 <= pos,
        pos + encode_args(args).len() <= s.len(),
        s.subrange(pos, pos + encode_args(args).len()) == encode_args(args),
        forall|i: int| 0 <= i < args.len() ==> #[trigger] args[i].1.len() < 0x1_0000,
    ensures
        parse_from(s, pos, args.len(), acc) == Some(acc + args),
    decreases args.len(),
{
    if args.len() == 0 {
        assert(acc + args =~= acc);
    } else {
        lemma_encode_args_front(args);
        let a = args[0];
        let rest = args.drop_first();
        let n = a.1.len();
        let enc = encode_args(args);
        lemma_le16_roundtrip(a.0);
        lemma_le16_roundtrip(n as u16);
        assert(enc.len() == 4 + n + encode_args(rest).len());
        assert(s[pos] == enc[0] && s[pos + 1] == enc[1]);
        assert(s[pos + 2] == enc[2] && s[pos + 3] == enc[3]);
        assert(word16(s[pos], s[pos + 1]) == a.0);
        assert(word16(s[pos + 2], s[pos + 3]) == n);
        let window = s.subrange(pos, pos + enc.len());
        assert forall|j: int| 0 <= j < n implies s.subrange(pos + 4, pos + 4 + n)[j] == a.1[j] by {
            assert(s[pos + 4 + j] == window[4 + j]);
            assert(enc[4 + j] == encode_arg(a)[4 + j]);
        }
        assert(s.subrange(pos + 4, pos + 4 + n) =~= a.1);
        let rest_enc = encode_args(rest);
        assert forall|j: int| 0 <= j < rest_enc.len() implies s.subrange(
            pos + 4 + n,
            pos + 4 + n + rest_enc.len(),
        )[j] == rest_enc[j] by {
            assert(s[pos + 4 + n + j] == window[4 + n + j]);
            assert(enc[4 + n + j] == rest_enc[j]);
        }
        assert(s.subrange(pos + 4 + n, pos + 4 + n + rest_enc.len()) =~= rest_enc);
        assert forall|i: int| 0 <= i < rest.len() implies #[trigger] rest[i].1.len() < 0x1_0000 by {
            assert(rest[i] == args[i + 1]);
        }
        lemma_parse_encoded_args(s, pos + 4 + n, rest, acc.push(a));
        assert(acc.push(a) + rest =~= acc + args);
    }
}

/// A payload written with `encode_payload` reads back as the same command and
/// arguments. It must hold at least one argument: a reply shorter than six
/// bytes is refused, and a payload without arguments has four.
pub proof fn lemma_payload_roundtrip(cmd: u16, args: Seq<(u16, Seq<u8>)>)
    requires
        1 <= args.len() < 0x1_0000,
        forall|i: int| 0 <= i < args.len() ==> #[trigger] args[i].1.len() < 0x1_0000,
    ensures
        parse_payload(encode_payload(cmd, args), cmd) == Some(args),
{
    let p = encode_payload(cmd, args);
    lemma_le16_roundtrip(cmd);
    lemma_le16_roundtrip(args.len() as u16);
    lemma_encode_args_front(args);
    assert(p.len() >= 8);
    assert(word16(p[0], p[1]) == cmd);
    assert(word16(p[2], p[3]) == args.len());
    assert(p.subrange(4, 4 + encode_args(args).len() as int) =~= encode_args(args));
    lemma_parse_encoded_args(p, 4, args, Seq::empty());
    assert(Seq::<(u16, Seq<u8>)>::empty() + args =~= args);
}

/// Setting the command and adding arguments one by one writes the request
/// payload of those arguments; below 256 arguments every addition is admitted
/// (the buffer holds the count byte and the count is below 255).
proof fn lemma_built_request(cmd: u16, args: Seq<(u16, Seq<u8>)>)
    requires
        args.len() <= 255,
    ensures
        built_request(cmd, args) == transport_header() + encode_payload(cmd, args),
        args.len() < 255 ==> built_request(cmd, args).len() > 12 && built_request(cmd, args)[12]
            < 255,
    decreases args.len(),
{
    lemma_command_only(cmd);
    if args.len() > 0 {
        lemma_built_request(cmd, args.drop_last());
        lemma_add_encoded(cmd, args.drop_last(), args.last());
        assert(args.drop_last().push(args.last()) =~= args);
    }
    if args.len() < 255 {
        lemma_add_encoded(cmd, args, (0, Seq::empty()));
    }
}

/// A request built on a fresh transport buffer by setting the command and
/// adding 1 to 255 arguments (each addition admitted, as the count byte stays
/// below 255 before it) reads back, from byte 10 on, as exactly those
/// arguments in order. Each argument's data must fit its 16-bit length.
pub proof fn lemma_request_chain_roundtrip(cmd: u16, args: Seq<(u16, Seq<u8>)>)
    requires
        1 <= args.len() <= 255,
        forall|i: int| 0 <= i < args.len() ==> #[trigger] args[i].1.len() < 0x1_0000,
    ensures
        forall|k: int|
            0 <= k < args.len() ==> #[trigger] built_request(cmd, args.take(k)).len() > 12
                && built_request(cmd, args.take(k))[12] < 255,
        parse_payload(
            built_request(cmd, args).subrange(10, built_request(cmd, args).len() as int),
            cmd,
        ) == Some(args),
{
    assert forall|k: int| 0 <= k < args.len() implies #[trigger] built_request(
        cmd,
        args.take(k),
    ).len() > 12 && built_request(cmd, args.take(k))[12] < 255 by {
        lemma_built_request(cmd, args.take(k));
    }
    lemma_built_request(cmd, args);
    let b = built_request(cmd, args);
    assert(b.subrange(10, b.len() as int) =~= encode_payload(cmd, args));
    lemma_payload_roundtrip(cmd, args);
}

} // verus!
