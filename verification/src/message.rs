//! Messages: immutable records appended to a partition, and the payloads
//! producers hand in before offsets are assigned.

use vstd::prelude::*;

verus! {

/// One key-value metadata pair attached to a message.
#[derive(Debug)]
pub struct Header {
    pub name: Vec<u8>,
    pub value: Vec<u8>,
}

/// Mathematical model of a header.
#[verifier::ext_equal]
pub ghost struct HeaderV {
    pub name: Seq<u8>,
    pub value: Seq<u8>,
}

impl View for Header {
    type V = HeaderV;

    open spec fn view(&self) -> HeaderV {
        HeaderV { name: self.name@, value: self.value@ }
    }
}

/// What a producer submits: an optional key, an opaque payload and optional
/// headers. Offset and timestamp are assigned by the partition on append.
#[derive(Debug)]
pub struct MessagePayload {
    pub key: Option<Vec<u8>>,
    pub payload: Vec<u8>,
    pub headers: Vec<Header>,
}

/// Mathematical model of a payload.
#[verifier::ext_equal]
pub ghost struct PayloadV {
    pub key: Option<Seq<u8>>,
    pub payload: Seq<u8>,
    pub headers: Seq<HeaderV>,
}

impl View for MessagePayload {
    type V = PayloadV;

    open spec fn view(&self) -> PayloadV {
        PayloadV {
            key: match self.key {
                Some(k) => Some(k@),
                None => None,
            },
            payload: self.payload@,
            headers: self.headers@.map_values(|h: Header| h@),
        }
    }
}

/// An immutable record of the log: a payload plus its partition-relative
/// offset and the timestamp assigned at append time.
#[derive(Debug)]
pub struct Message {
    pub offset: u64,
    pub timestamp: u64,
    pub key: Option<Vec<u8>>,
    pub payload: Vec<u8>,
    pub headers: Vec<Header>,
}

/// Mathematical model of a message.
#[verifier::ext_equal]
pub ghost struct MsgV {
    pub offset: u64,
    pub timestamp: u64,
    pub key: Option<Seq<u8>>,
    pub payload: Seq<u8>,
    pub headers: Seq<HeaderV>,
}

impl View for Message {
    type V = MsgV;

    open spec fn view(&self) -> MsgV {
        MsgV {
            offset: self.offset,
            timestamp: self.timestamp,
            key: match self.key {
                Some(k) => Some(k@),
                None => None,
            },
            payload: self.payload@,
            headers: self.headers@.map_values(|h: Header| h@),
        }
    }
}

/// View of a vector of messages as a sequence of models.
pub open spec fn msgs_view(s: Seq<Message>) -> Seq<MsgV> {
    s.map_values(|m: Message| m@)
}

/// The payload carried by a message, with offset and timestamp stripped.
pub open spec fn msg_payload(m: MsgV) -> PayloadV {
    PayloadV { key: m.key, payload: m.payload, headers: m.headers }
}

/// The messages that appending `batch` at offset `start` with timestamp `ts`
/// creates: offsets are `start, start + 1, ...` in batch order.
pub open spec fn assigned(batch: Seq<PayloadV>, start: int, ts: u64) -> Seq<MsgV> {
    Seq::new(
        batch.len(),
        |i: int|
            MsgV {
                offset: (start + i) as u64,
                timestamp: ts,
                key: batch[i].key,
                payload: batch[i].payload,
                headers: batch[i].headers,
            },
    )
}

/// Accounted bytes of a header.
pub open spec fn header_size(h: HeaderV) -> int {
    h.name.len() + h.value.len() as int
}

/// Accounted bytes of a sequence of headers.
pub open spec fn headers_size(hs: Seq<HeaderV>) -> int
    decreases hs.len(),
{
    if hs.len() == 0 {
        0
    } else {
        headers_size(hs.drop_last()) + header_size(hs.last())
    }
}

/// Accounted bytes of an optional key.
pub open spec fn key_size(k: Option<Seq<u8>>) -> int {
    match k {
        Some(s) => s.len() as int,
        None => 0,
    }
}

/// Fixed per-message overhead accounted beside the variable parts: the
/// offset and timestamp words.
pub open spec fn msg_overhead() -> int {
    16
}

/// Accounted bytes of one message: fixed overhead plus key, payload and
/// header bytes. The same accounting applies before and after offsets are
/// assigned, so cache bookkeeping matches what producers submitted.
pub open spec fn msg_size(m: MsgV) -> int {
    msg_overhead() + key_size(m.key) + m.payload.len() + headers_size(m.headers)
}

/// Accounted bytes of a payload (equals `msg_size` of the assigned message).
pub open spec fn payload_msg_size(p: PayloadV) -> int {
    msg_overhead() + key_size(p.key) + p.payload.len() + headers_size(p.headers)
}

/// Total accounted bytes of a sequence of messages.
pub open spec fn msgs_size(s: Seq<MsgV>) -> int
    decreases s.len(),
{
    if s.len() == 0 {
        0
    } else {
        msgs_size(s.drop_last()) + msg_size(s.last())
    }
}

/// Total accounted bytes of a batch of payloads.
pub open spec fn batch_size(s: Seq<PayloadV>) -> int
    decreases s.len(),
{
    if s.len() == 0 {
        0
    } else {
        batch_size(s.drop_last()) + payload_msg_size(s.last())
    }
}

/// Header sizes are never negative.
pub proof fn lemma_headers_size_nonneg(hs: Seq<HeaderV>)
    ensures
        headers_size(hs) >= 0,
    decreases hs.len(),
{
    if hs.len() > 0 {
        lemma_headers_size_nonneg(hs.drop_last());
    }
}

/// Message sizes are at least the fixed overhead.
pub proof fn lemma_msg_size_lb(m: MsgV)
    ensures
        msg_size(m) >= msg_overhead(),
{
    lemma_headers_size_nonneg(m.headers);
}

/// Payload sizes are at least the fixed overhead.
pub proof fn lemma_payload_msg_size_lb(p: PayloadV)
    ensures
        payload_msg_size(p) >= msg_overhead(),
{
    lemma_headers_size_nonneg(p.headers);
}

/// Message-sequence sizes are never negative.
pub proof fn lemma_msgs_size_nonneg(s: Seq<MsgV>)
    ensures
        msgs_size(s) >= 0,
    decreases s.len(),
{
    if s.len() > 0 {
        lemma_msgs_size_nonneg(s.drop_last());
        lemma_msg_size_lb(s.last());
    }
}

/// Batch sizes are never negative.
pub proof fn lemma_batch_size_nonneg(s: Seq<PayloadV>)
    ensures
        batch_size(s) >= 0,
    decreases s.len(),
{
    if s.len() > 0 {
        lemma_batch_size_nonneg(s.drop_last());
        lemma_payload_msg_size_lb(s.last());
    }
}

/// Taking one more element adds exactly that element's size.
pub proof fn lemma_msgs_size_take_step(s: Seq<MsgV>, i: int)
    requires
        0 <= i < s.len(),
    ensures
        msgs_size(s.take(i + 1)) == msgs_size(s.take(i)) + msg_size(s[i]),
{
    assert(s.take(i + 1).drop_last() =~= s.take(i));
    assert(s.take(i + 1).last() == s[i]);
}

/// Taking one more payload adds exactly that payload's size.
pub proof fn lemma_batch_size_take_step(s: Seq<PayloadV>, i: int)
    requires
        0 <= i < s.len(),
    ensures
        batch_size(s.take(i + 1)) == batch_size(s.take(i)) + payload_msg_size(s[i]),
{
    assert(s.take(i + 1).drop_last() =~= s.take(i));
    assert(s.take(i + 1).last() == s[i]);
}

/// A prefix never weighs more than the whole batch.
pub proof fn lemma_batch_size_prefix_le(s: Seq<PayloadV>, i: int)
    requires
        0 <= i <= s.len(),
    ensures
        batch_size(s.take(i)) <= batch_size(s),
    decreases s.len() - i,
{
    if i == s.len() {
        assert(s.take(i) =~= s);
    } else {
        lemma_batch_size_take_step(s, i);
        lemma_payload_msg_size_lb(s[i]);
        lemma_batch_size_prefix_le(s, i + 1);
    }
}

/// Appending one message adds exactly its size.
pub proof fn lemma_msgs_size_push(s: Seq<MsgV>, m: MsgV)
    ensures
        msgs_size(s.push(m)) == msgs_size(s) + msg_size(m),
{
    assert(s.push(m).drop_last() =~= s);
    assert(s.push(m).last() == m);
}

/// Concatenation adds the two sizes.
pub proof fn lemma_msgs_size_add(a: Seq<MsgV>, b: Seq<MsgV>)
    ensures
        msgs_size(a + b) == msgs_size(a) + msgs_size(b),
    decreases b.len(),
{
    if b.len() == 0 {
        assert(a + b =~= a);
    } else {
        assert((a + b).drop_last() =~= a + b.drop_last());
        assert((a + b).last() == b.last());
        lemma_msgs_size_add(a, b.drop_last());
    }
}

/// The size of a subrange taken from the front equals total minus tail;
/// stated as: dropping a front part can only shrink the size.
pub proof fn lemma_msgs_size_skip(s: Seq<MsgV>, k: int)
    requires
        0 <= k <= s.len(),
    ensures
        msgs_size(s) == msgs_size(s.take(k)) + msgs_size(s.skip(k)),
{
    assert(s =~= s.take(k) + s.skip(k));
    lemma_msgs_size_add(s.take(k), s.skip(k));
}

/// The assigned messages carry exactly the batch's contents and weigh the
/// same as the batch.
pub proof fn lemma_assigned_size(batch: Seq<PayloadV>, start: int, ts: u64)
    requires
        0 <= start,
        start + batch.len() <= u64::MAX,
    ensures
        msgs_size(assigned(batch, start, ts)) == batch_size(batch),
    decreases batch.len(),
{
    if batch.len() > 0 {
        let all = assigned(batch, start, ts);
        let front = assigned(batch.drop_last(), start, ts);
        assert(all.drop_last() =~= front);
        lemma_assigned_size(batch.drop_last(), start, ts);
    }
}

impl Clone for Header {
    /// Cloning a header preserves its model.
    fn clone(&self) -> (res: Self)
        ensures
            res@ == self@,
    {
        let name = clone_bytes(&self.name);
        let value = clone_bytes(&self.value);
        Header { name, value }
    }
}

impl Clone for Message {
    /// Cloning a message preserves its model.
    fn clone(&self) -> (res: Self)
        ensures
            res@ == self@,
    {
        let key = match &self.key {
            Some(k) => Some(clone_bytes(k)),
            None => None,
        };
        let payload = clone_bytes(&self.payload);
        let headers = clone_headers(&self.headers);
        Message { offset: self.offset, timestamp: self.timestamp, key, payload, headers }
    }
}

impl Clone for MessagePayload {
    /// Cloning a payload preserves its model.
    fn clone(&self) -> (res: Self)
        ensures
            res@ == self@,
    {
        let key = match &self.key {
            Some(k) => Some(clone_bytes(k)),
            None => None,
        };
        let payload = clone_bytes(&self.payload);
        let headers = clone_headers(&self.headers);
        MessagePayload { key, payload, headers }
    }
}

/// Byte-vector clone with its contents pinned down.
pub fn clone_bytes(v: &Vec<u8>) -> (r: Vec<u8>)
    ensures
        r@ == v@,
{
    let r = v.clone();
    proof {
        assert(r@ =~= v@);
    }
    r
}

/// Header-vector clone with its model pinned down.
pub fn clone_headers(v: &Vec<Header>) -> (r: Vec<Header>)
    ensures
        r@.map_values(|h: Header| h@) == v@.map_values(|h: Header| h@),
{
    let mut r: Vec<Header> = Vec::new();
    let mut i: usize = 0;
    while i < v.len()
        invariant
            i <= v.len(),
            r@.len() == i,
            forall|j: int| 0 <= j < i ==> r@[j]@ == v@[j]@,
        decreases v.len() - i,
    {
        r.push(v[i].clone());
        i += 1;
    }
    proof {
        assert(r@.map_values(|h: Header| h@) =~= v@.map_values(|h: Header| h@));
    }
    r
}

/// Message-vector clone with its model pinned down.
pub fn clone_messages(v: &Vec<Message>) -> (r: Vec<Message>)
    ensures
        msgs_view(r@) == msgs_view(v@),
{
    let mut r: Vec<Message> = Vec::new();
    let mut i: usize = 0;
    while i < v.len()
        invariant
            i <= v.len(),
            r@.len() == i,
            forall|j: int| 0 <= j < i ==> r@[j]@ == v@[j]@,
        decreases v.len() - i,
    {
        r.push(v[i].clone());
        i += 1;
    }
    proof {
        assert(msgs_view(r@) =~= msgs_view(v@));
    }
    r
}

/// Exact accounted size of one payload, as a machine word.
pub fn payload_size_bytes(p: &MessagePayload) -> (r: u64)
    requires
        payload_msg_size(p@) <= u64::MAX,
    ensures
        r == payload_msg_size(p@),
{
    proof {
        lemma_headers_size_nonneg(p@.headers);
    }
    let mut acc: u64 = 16;
    match &p.key {
        Some(k) => {
            acc = acc + k.len() as u64;
        },
        None => {},
    }
    acc = acc + p.payload.len() as u64;
    let hs = headers_size_bytes(&p.headers, u64::MAX - acc);
    acc + hs
}

/// Exact accounted size of the headers, given a bound they are known to
/// respect (the remaining room in the caller's budget).
fn headers_size_bytes(hs: &Vec<Header>, bound: u64) -> (r: u64)
    requires
        headers_size(hs@.map_values(|h: Header| h@)) <= bound,
    ensures
        r == headers_size(hs@.map_values(|h: Header| h@)),
{
    let ghost model = hs@.map_values(|h: Header| h@);
    let mut acc: u64 = 0;
    let mut i: usize = 0;
    while i < hs.len()
        invariant
            i <= hs.len(),
            acc == headers_size(model.take(i as int)),
            headers_size(model) <= bound,
            model == hs@.map_values(|h: Header| h@),
        decreases hs.len() - i,
    {
        proof {
            lemma_headers_size_take_step(model, i as int);
            lemma_headers_size_prefix_le(model, i + 1);
        }
        acc = acc + hs[i].name.len() as u64 + hs[i].value.len() as u64;
        i += 1;
    }
    proof {
        assert(model.take(model.len() as int) =~= model);
    }
    acc
}

/// Taking one more header adds exactly that header's size.
pub proof fn lemma_headers_size_take_step(hs: Seq<HeaderV>, i: int)
    requires
        0 <= i < hs.len(),
    ensures
        headers_size(hs.take(i + 1)) == headers_size(hs.take(i)) + header_size(hs[i]),
{
    assert(hs.take(i + 1).drop_last() =~= hs.take(i));
    assert(hs.take(i + 1).last() == hs[i]);
}

/// A prefix of headers never weighs more than all of them.
pub proof fn lemma_headers_size_prefix_le(hs: Seq<HeaderV>, i: int)
    requires
        0 <= i <= hs.len(),
    ensures
        headers_size(hs.take(i)) <= headers_size(hs),
    decreases hs.len() - i,
{
    if i == hs.len() {
        assert(hs.take(i) =~= hs);
    } else {
        lemma_headers_size_take_step(hs, i);
        lemma_headers_size_prefix_le(hs, i + 1);
    }
}

} // verus!

verus! {

/// Accounted size of one message, checked against the machine word: `None`
/// exactly when the size does not fit in a `u64`.
pub fn msg_size_checked(m: &Message) -> (r: Option<u64>)
    ensures
        msg_size(m@) <= u64::MAX ==> r == Some((msg_size(m@)) as u64),
        msg_size(m@) > u64::MAX ==> r is None,
{
    let cap: u128 = 0x1_0000_0000_0000_0000;
    let mut acc: u128 = 16;
    match &m.key {
        Some(k) => {
            acc = acc + k.len() as u128;
        },
        None => {},
    }
    acc = acc + m.payload.len() as u128;
    if acc > u64::MAX as u128 {
        acc = cap;
    }
    let ghost base = msg_overhead() + key_size(m@.key) + m@.payload.len();
    let ghost model = m@.headers;
    let mut i: usize = 0;
    while i < m.headers.len()
        invariant
            i <= m.headers.len(),
            model == m@.headers,
            base == msg_overhead() + key_size(m@.key) + m@.payload.len(),
            base >= 16,
            cap == 0x1_0000_0000_0000_0000,
            base + headers_size(model.take(i as int)) <= u64::MAX ==> acc == base + headers_size(
                model.take(i as int),
            ),
            base + headers_size(model.take(i as int)) > u64::MAX ==> acc == cap,
            acc <= cap,
        decreases m.headers.len() - i,
    {
        proof {
            lemma_headers_size_take_step(model, i as int);
            lemma_headers_size_nonneg(model.take(i as int));
        }
        let term: u128 = m.headers[i].name.len() as u128 + m.headers[i].value.len() as u128;
        acc = acc + term;
        if acc > u64::MAX as u128 {
            acc = cap;
        }
        i += 1;
    }
    proof {
        assert(model.take(model.len() as int) =~= model);
    }
    if acc > u64::MAX as u128 {
        None
    } else {
        Some(acc as u64)
    }
}

} // verus!
