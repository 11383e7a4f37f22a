//! The segment file format: how messages are framed as bytes on disk, and
//! how a recovery scan reads them back.
//!
//! A segment file is a sequence of frames. Each frame holds the offset and
//! timestamp words, a key marker (with the key bytes when present), the
//! length-prefixed payload, and the length-prefixed headers. The scan also
//! rebuilds the offset index: the byte position of each frame in the file.

use vstd::prelude::*;

use vstd::bytes::{
    lemma_auto_spec_u32_to_from_le_bytes, lemma_auto_spec_u64_to_from_le_bytes,
    spec_u32_to_le_bytes, spec_u64_to_le_bytes, u32_from_le_bytes, u32_to_le_bytes,
    u64_from_le_bytes, u64_to_le_bytes,
};

use crate::error::Error;
use crate::message::{msgs_view, Header, HeaderV, Message, MsgV};

verus! {

/// A length-prefixed byte field.
pub open spec fn enc_bytes(b: Seq<u8>) -> Seq<u8> {
    spec_u32_to_le_bytes(b.len() as u32) + b
}

/// An optional key: one marker byte, then the field when present.
pub open spec fn enc_key(k: Option<Seq<u8>>) -> Seq<u8> {
    match k {
        None => seq![0u8],
        Some(b) => seq![1u8] + enc_bytes(b),
    }
}

/// One header: its name and value fields.
pub open spec fn enc_header(h: HeaderV) -> Seq<u8> {
    enc_bytes(h.name) + enc_bytes(h.value)
}

/// A header list: a count word, then each header.
pub open spec fn enc_headers(hs: Seq<HeaderV>) -> Seq<u8>
    decreases hs.len(),
{
    if hs.len() == 0 {
        Seq::empty()
    } else {
        enc_headers(hs.drop_last()) + enc_header(hs.last())
    }
}

/// One message frame.
pub open spec fn enc_msg(m: MsgV) -> Seq<u8> {
    spec_u64_to_le_bytes(m.offset) + spec_u64_to_le_bytes(m.timestamp) + enc_key(m.key)
        + enc_bytes(m.payload) + spec_u32_to_le_bytes(m.headers.len() as u32) + enc_headers(
        m.headers,
    )
}

/// A whole segment file: the frames in offset order.
pub open spec fn enc_msgs(s: Seq<MsgV>) -> Seq<u8>
    decreases s.len(),
{
    if s.len() == 0 {
        Seq::empty()
    } else {
        enc_msgs(s.drop_last()) + enc_msg(s.last())
    }
}

/// Whether a message's variable-length fields fit their length prefixes.
pub open spec fn msg_encodable(m: MsgV) -> bool {
    &&& (match m.key {
        Some(b) => b.len() <= u32::MAX,
        None => true,
    })
    &&& m.payload.len() <= u32::MAX
    &&& m.headers.len() <= u32::MAX
    &&& forall|i: int|
        0 <= i < m.headers.len() ==> (#[trigger] m.headers[i]).name.len() <= u32::MAX
            && m.headers[i].value.len() <= u32::MAX
}

/// Append a length-prefixed field.
fn push_bytes_field(out: &mut Vec<u8>, b: &Vec<u8>)
    requires
        b@.len() <= u32::MAX,
    ensures
        final(out)@ == old(out)@ + enc_bytes(b@),
{
    let len_bytes = u32_to_le_bytes(b.len() as u32);
    push_all(out, &len_bytes);
    push_all(out, b);
    proof {
        assert(final(out)@ =~= old(out)@ + enc_bytes(b@));
    }
}

/// Append every byte of a vector.
fn push_all(out: &mut Vec<u8>, b: &Vec<u8>)
    ensures
        final(out)@ == old(out)@ + b@,
{
    let n = b.len();
    let mut i: usize = 0;
    while i < n
        invariant
            i <= n,
            n == b@.len(),
            out@ == old(out)@ + b@.take(i as int),
        decreases n - i,
    {
        out.push(b[i]);
        proof {
            assert(out@ =~= old(out)@ + b@.take(i + 1));
        }
        i += 1;
    }
    proof {
        assert(b@.take(n as int) =~= b@);
    }
}

/// Encode one message as its frame.
pub fn message_to_bytes(m: &Message) -> (r: Vec<u8>)
    requires
        msg_encodable(m@),
    ensures
        r@ == enc_msg(m@),
{
    let mut out: Vec<u8> = Vec::new();
    let off = u64_to_le_bytes(m.offset);
    push_all(&mut out, &off);
    let ts = u64_to_le_bytes(m.timestamp);
    push_all(&mut out, &ts);
    match &m.key {
        None => {
            out.push(0);
        },
        Some(k) => {
            out.push(1);
            push_bytes_field(&mut out, k);
        },
    }
    push_bytes_field(&mut out, &m.payload);
    let count = u32_to_le_bytes(m.headers.len() as u32);
    push_all(&mut out, &count);
    let ghost hs = m@.headers;
    let n = m.headers.len();
    let ghost base = out@;
    let mut i: usize = 0;
    while i < n
        invariant
            i <= n,
            n == m.headers@.len(),
            hs == m@.headers,
            msg_encodable(m@),
            out@ == base + enc_headers(hs.take(i as int)),
        decreases n - i,
    {
        proof {
            assert(hs[i as int] == m.headers@[i as int]@);
            assert(hs[i as int].name.len() <= u32::MAX);
        }
        push_bytes_field(&mut out, &m.headers[i].name);
        push_bytes_field(&mut out, &m.headers[i].value);
        proof {
            assert(hs.take(i + 1).drop_last() =~= hs.take(i as int));
            assert(hs.take(i + 1).last() == hs[i as int]);
            assert(out@ =~= base + enc_headers(hs.take(i + 1)));
        }
        i += 1;
    }
    proof {
        assert(hs.take(n as int) =~= hs);
        assert(out@ =~= enc_msg(m@));
    }
    out
}

/// Encode a whole segment file, and the offset index beside it: the byte
/// position where each message's frame begins.
pub fn segment_to_bytes(messages: &Vec<Message>) -> (r: (Vec<u8>, Vec<u64>))
    requires
        forall|k: int| 0 <= k < messages@.len() ==> msg_encodable(#[trigger] msgs_view(
            messages@,
        )[k]),
        enc_msgs(msgs_view(messages@)).len() <= u64::MAX,
    ensures
        r.0@ == enc_msgs(msgs_view(messages@)),
        r.1@.len() == messages@.len(),
        forall|k: int|
            0 <= k < messages@.len() ==> r.1@[k] == enc_msgs(
                msgs_view(messages@).take(k),
            ).len(),
{
    let ghost model = msgs_view(messages@);
    let mut out: Vec<u8> = Vec::new();
    let mut index: Vec<u64> = Vec::new();
    let n = messages.len();
    let mut i: usize = 0;
    while i < n
        invariant
            i <= n,
            n == messages@.len(),
            model == msgs_view(messages@),
            forall|k: int| 0 <= k < n ==> msg_encodable(#[trigger] model[k]),
            enc_msgs(model).len() <= u64::MAX,
            out@ == enc_msgs(model.take(i as int)),
            index@.len() == i,
            forall|k: int| 0 <= k < i ==> index@[k] == enc_msgs(model.take(k)).len(),
        decreases n - i,
    {
        proof {
            lemma_enc_msgs_prefix_le(model, i as int);
            assert(msgs_view(messages@)[i as int] == messages@[i as int]@);
            assert(msg_encodable(model[i as int]));
        }
        index.push(out.len() as u64);
        let frame = message_to_bytes(&messages[i]);
        push_all(&mut out, &frame);
        proof {
            assert(model.take(i + 1).drop_last() =~= model.take(i as int));
            assert(model.take(i + 1).last() == model[i as int]);
            assert(out@ =~= enc_msgs(model.take(i + 1)));
        }
        i += 1;
    }
    proof {
        assert(model.take(n as int) =~= model);
    }
    (out, index)
}

/// A prefix of the file is never longer than the file.
proof fn lemma_enc_msgs_prefix_le(s: Seq<MsgV>, i: int)
    requires
        0 <= i <= s.len(),
    ensures
        enc_msgs(s.take(i)).len() <= enc_msgs(s).len(),
    decreases s.len() - i,
{
    if i == s.len() {
        assert(s.take(i) =~= s);
    } else {
        assert(s.take(i + 1).drop_last() =~= s.take(i));
        assert(s.take(i + 1).last() == s[i]);
        lemma_enc_msgs_prefix_le(s, i + 1);
    }
}

/// Read a length-prefixed field at `pos`.
fn read_bytes_field(bytes: &[u8], pos: usize) -> (r: Result<(Vec<u8>, usize), Error>)
    ensures
        match r {
            Ok((field, next)) => {
                &&& pos <= next <= bytes@.len()
                &&& field@.len() <= u32::MAX
                &&& bytes@.subrange(pos as int, next as int) == enc_bytes(field@)
            },
            Err(e) => e == Error::CorruptState,
        },
{
    if pos > bytes.len() || bytes.len() - pos < 4 {
        return Err(Error::CorruptState);
    }
    let len_slice = slice_range_to_vec(bytes, pos, pos + 4);
    let len = u32_from_le_bytes(len_slice.as_slice());
    if (len as usize) > bytes.len() - (pos + 4) {
        return Err(Error::CorruptState);
    }
    let field = slice_range_to_vec(bytes, pos + 4, pos + 4 + len as usize);
    let next = pos + 4 + len as usize;
    proof {
        lemma_auto_spec_u32_to_from_le_bytes();
        assert(spec_u32_to_le_bytes(len) =~= bytes@.subrange(pos as int, pos + 4));
        assert(bytes@.subrange(pos as int, next as int) =~= enc_bytes(field@));
    }
    Ok((field, next))
}

/// Copy `bytes[from..to]` out of a slice.
fn slice_range_to_vec(bytes: &[u8], from: usize, to: usize) -> (r: Vec<u8>)
    requires
        from <= to <= bytes@.len(),
    ensures
        r@ == bytes@.subrange(from as int, to as int),
{
    let mut out: Vec<u8> = Vec::new();
    let mut i = from;
    while i < to
        invariant
            from <= i <= to,
            to <= bytes@.len(),
            out@ == bytes@.subrange(from as int, i as int),
        decreases to - i,
    {
        let b = bytes[i];
        out.push(b);
        proof {
            assert(out@ =~= bytes@.subrange(from as int, i + 1));
        }
        i += 1;
    }
    out
}

/// Read one message frame at `pos`. Whatever is returned, the consumed
/// bytes are exactly the returned message's frame, so a scan can never
/// invent or alter a message.
pub fn message_from_bytes(bytes: &[u8], pos: usize) -> (r: Result<(Message, usize), Error>)
    ensures
        match r {
            Ok((m, next)) => {
                &&& pos < next <= bytes@.len()
                &&& msg_encodable(m@)
                &&& bytes@.subrange(pos as int, next as int) == enc_msg(m@)
            },
            Err(e) => e == Error::CorruptState,
        },
{
    if pos >= bytes.len() || bytes.len() - pos < 17 {
        return Err(Error::CorruptState);
    }
    let off_slice = slice_range_to_vec(bytes, pos, pos + 8);
    let offset = u64_from_le_bytes(off_slice.as_slice());
    let ts_slice = slice_range_to_vec(bytes, pos + 8, pos + 16);
    let timestamp = u64_from_le_bytes(ts_slice.as_slice());
    let marker = bytes[pos + 16];
    let mut cursor = pos + 17;
    let key: Option<Vec<u8>> = if marker == 0 {
        None
    } else if marker == 1 {
        let (k, next) = read_bytes_field(bytes, cursor)?;
        cursor = next;
        Some(k)
    } else {
        return Err(Error::CorruptState);
    };
    let (payload, after_payload) = read_bytes_field(bytes, cursor)?;
    let ghost key_end = cursor as int;
    cursor = after_payload;
    if bytes.len() - cursor < 4 {
        return Err(Error::CorruptState);
    }
    let count_slice = slice_range_to_vec(bytes, cursor, cursor + 4);
    let count = u32_from_le_bytes(count_slice.as_slice());
    let ghost count_pos = cursor as int;
    cursor = cursor + 4;
    let mut headers: Vec<Header> = Vec::new();
    let ghost headers_base = cursor as int;
    let mut h: u32 = 0;
    while h < count
        invariant
            h <= count,
            headers@.len() == h,
            0 <= headers_base,
            headers_base <= cursor <= bytes@.len(),
            forall|k: int|
                0 <= k < h ==> (#[trigger] headers@[k]@).name.len() <= u32::MAX && headers@[
                k]@.value.len() <= u32::MAX,
            bytes@.subrange(headers_base, cursor as int) == enc_headers(
                headers@.map_values(|hh: Header| hh@),
            ),
        decreases count - h,
    {
        let ghost before = headers@.map_values(|hh: Header| hh@);
        let ghost seg_start = cursor as int;
        let (name, next1) = read_bytes_field(bytes, cursor)?;
        let (value, next2) = read_bytes_field(bytes, next1)?;
        let ghost nv = name@;
        let ghost vv = value@;
        headers.push(Header { name, value });
        cursor = next2;
        proof {
            let now = headers@.map_values(|hh: Header| hh@);
            assert(now.drop_last() =~= before);
            assert(now.last() == HeaderV { name: nv, value: vv });
            assert(0 <= headers_base <= seg_start <= cursor as int <= bytes@.len());
            assert(enc_headers(before).len() == seg_start - headers_base);
            assert(bytes@.subrange(seg_start, cursor as int) =~= enc_header(now.last()));
            assert forall|j: int| 0 <= j < cursor as int - headers_base implies bytes@.subrange(
                headers_base,
                cursor as int,
            )[j] == enc_headers(now)[j] by {
                if j < seg_start - headers_base {
                    assert(bytes@.subrange(headers_base, seg_start)[j] == bytes@.subrange(
                        headers_base,
                        cursor as int,
                    )[j]);
                    assert(enc_headers(now)[j] == enc_headers(before)[j]);
                } else {
                    let k = j - (seg_start - headers_base);
                    assert(bytes@.subrange(seg_start, cursor as int)[k] == bytes@.subrange(
                        headers_base,
                        cursor as int,
                    )[j]);
                    assert(enc_headers(now)[j] == enc_header(now.last())[k]);
                }
            }
            assert(bytes@.subrange(headers_base, cursor as int) =~= enc_headers(now));
        }
        h += 1;
    }
    let m = Message { offset, timestamp, key, payload, headers };
    proof {
        lemma_auto_spec_u64_to_from_le_bytes();
        lemma_auto_spec_u32_to_from_le_bytes();
        assert(bytes@.subrange(pos as int, pos + 8) =~= spec_u64_to_le_bytes(offset));
        assert(bytes@.subrange(pos + 8, pos + 16) =~= spec_u64_to_le_bytes(timestamp));
        assert(m@.headers =~= headers@.map_values(|hh: Header| hh@));
        assert(m@.headers.len() == count);
        assert(bytes@.subrange(count_pos, count_pos + 4) =~= spec_u32_to_le_bytes(count));
        if marker == 0 {
            assert(bytes@.subrange(pos + 16, pos + 17) =~= enc_key(m@.key));
        } else {
            assert(bytes@.subrange(pos + 16, pos + 17) =~= seq![1u8]);
            assert(bytes@.subrange(pos + 16, key_end) =~= enc_key(m@.key));
        }
        assert(bytes@.subrange(pos as int, cursor as int) =~= enc_msg(m@));
    }
    Ok((m, cursor))
}

/// Scan a whole segment file back into messages: the recovery path. The
/// returned messages re-encode to exactly the scanned bytes, so a scan can
/// never silently skip or alter data; any leftover or malformed tail fails
/// the scan with `CorruptState` (fail-fast, applied consistently).
pub fn segment_from_bytes(bytes: &[u8]) -> (r: Result<Vec<Message>, Error>)
    ensures
        match r {
            Ok(v) => enc_msgs(msgs_view(v@)) == bytes@,
            Err(e) => e == Error::CorruptState,
        },
{
    let mut out: Vec<Message> = Vec::new();
    let mut pos: usize = 0;
    let n = bytes.len();
    while pos < n
        invariant
            pos <= n,
            n == bytes@.len(),
            enc_msgs(msgs_view(out@)) == bytes@.take(pos as int),
        decreases n - pos,
    {
        let ghost before = msgs_view(out@);
        let (m, next) = message_from_bytes(bytes, pos)?;
        let ghost mv = m@;
        out.push(m);
        proof {
            let now = msgs_view(out@);
            assert(now.drop_last() =~= before);
            assert(now.last() == mv);
            assert(bytes@.take(next as int) =~= bytes@.take(pos as int) + bytes@.subrange(
                pos as int,
                next as int,
            ));
            assert(enc_msgs(now) =~= bytes@.take(next as int));
        }
        pos = next;
    }
    proof {
        assert(bytes@.take(n as int) =~= bytes@);
    }
    Ok(out)
}

} // verus!
