//! Wire codec for the worker protocol.
//!
//! A frame is a 4-byte big-endian payload length followed by the payload.
//! The payload starts with a tag byte that picks the message variant; every
//! string field is a 4-byte big-endian byte length followed by that many
//! UTF-8 bytes, and a list of strings is a 4-byte big-endian count followed
//! by the strings. The codec holds no state across frames: `encode_message`
//! turns one message into one frame, and `decode_frame` reads at most one
//! frame from the front of a buffer.

use vstd::prelude::*;
use vstd::slice::{slice_index_get, slice_subrange, slice_to_vec};
use vstd::string::StrSliceExecFns;
use vstd::utf8::{
    decode_utf8, encode_utf8, encode_utf8_decode_utf8, encode_utf8_valid_utf8, valid_utf8,
};

verus! {

/// Tag byte that opens a `RegisterWorker` payload.
pub const TAG_REGISTER: u8 = 0;

/// Tag byte that opens a `DRequest` payload.
pub const TAG_REQUEST: u8 = 1;

/// Tag byte that opens a `DResponse` payload.
pub const TAG_RESPONSE: u8 = 2;

/// A worker announcing or re-asserting its identity.
pub struct RegisterWorker {
    pub name: String,
}

/// One unit of decrypt-block-for-account work, coordinator to worker.
/// Fields other than `id` are carried for the worker and never drive the
/// coordinator's own control decisions.
pub struct DRequest {
    pub id: String,
    pub address: String,
    pub hash: String,
    pub sequence: u64,
    pub incoming_view_key: String,
    pub outgoing_view_key: String,
}

/// A completed task, worker to coordinator: `data` is the ordered list of
/// matched transaction hashes for `address` in the block the task named.
pub struct DResponse {
    pub id: String,
    pub address: String,
    pub data: Vec<String>,
}

/// The tagged union that flows over a connection.
pub enum DMessage {
    RegisterWorker(RegisterWorker),
    DRequest(DRequest),
    DResponse(DResponse),
}

/// Mathematical image of a `DRequest`: every string as its character sequence.
pub struct DRequestView {
    pub id: Seq<char>,
    pub address: Seq<char>,
    pub hash: Seq<char>,
    pub sequence: u64,
    pub incoming_view_key: Seq<char>,
    pub outgoing_view_key: Seq<char>,
}

/// Mathematical image of a `DResponse`.
pub struct DResponseView {
    pub id: Seq<char>,
    pub address: Seq<char>,
    pub data: Seq<Seq<char>>,
}

/// Mathematical image of a `DMessage`.
pub enum DMessageView {
    RegisterWorker(Seq<char>),
    DRequest(DRequestView),
    DResponse(DResponseView),
}

impl View for DRequest {
    type V = DRequestView;

    open spec fn view(&self) -> DRequestView {
        DRequestView {
            id: self.id@,
            address: self.address@,
            hash: self.hash@,
            sequence: self.sequence,
            incoming_view_key: self.incoming_view_key@,
            outgoing_view_key: self.outgoing_view_key@,
        }
    }
}

impl View for DResponse {
    type V = DResponseView;

    open spec fn view(&self) -> DResponseView {
        DResponseView { id: self.id@, address: self.address@, data: self.data.deep_view() }
    }
}

impl View for DMessage {
    type V = DMessageView;

    open spec fn view(&self) -> DMessageView {
        match self {
            DMessage::RegisterWorker(r) => DMessageView::RegisterWorker(r.name@),
            DMessage::DRequest(r) => DMessageView::DRequest(r@),
            DMessage::DResponse(r) => DMessageView::DResponse(r@),
        }
    }
}

/// The four bytes of `x`, most significant first.
pub open spec fn u32_be_bytes(x: u32) -> Seq<u8> {
    seq![
        ((x >> 24) & 0xff) as u8,
        ((x >> 16) & 0xff) as u8,
        ((x >> 8) & 0xff) as u8,
        (x & 0xff) as u8,
    ]
}

/// The value written big-endian as `b0 b1 b2 b3`.
pub open spec fn u32_from_be(b0: u8, b1: u8, b2: u8, b3: u8) -> u32 {
    ((b0 as u32) << 24) | ((b1 as u32) << 16) | ((b2 as u32) << 8) | (b3 as u32)
}

/// The eight bytes of `x`, most significant first.
pub open spec fn u64_be_bytes(x: u64) -> Seq<u8> {
    seq![
        ((x >> 56) & 0xff) as u8,
        ((x >> 48) & 0xff) as u8,
        ((x >> 40) & 0xff) as u8,
        ((x >> 32) & 0xff) as u8,
        ((x >> 24) & 0xff) as u8,
        ((x >> 16) & 0xff) as u8,
        ((x >> 8) & 0xff) as u8,
        (x & 0xff) as u8,
    ]
}

/// The value written big-endian as `b0 .. b7`.
pub open spec fn u64_from_be(
    b0: u8,
    b1: u8,
    b2: u8,
    b3: u8,
    b4: u8,
    b5: u8,
    b6: u8,
    b7: u8,
) -> u64 {
    ((b0 as u64) << 56) | ((b1 as u64) << 48) | ((b2 as u64) << 40) | ((b3 as u64) << 32) | ((
    b4 as u64) << 24) | ((b5 as u64) << 16) | ((b6 as u64) << 8) | (b7 as u64)
}

/// Reading back the four bytes of a value gives the value.
pub proof fn lemma_u32_be_round_trip(x: u32)
    ensures
        u32_from_be(
            u32_be_bytes(x)[0],
            u32_be_bytes(x)[1],
            u32_be_bytes(x)[2],
            u32_be_bytes(x)[3],
        ) == x,
{
    assert(((((x >> 24) & 0xff) as u8) as u32) << 24 | ((((x >> 16) & 0xff) as u8) as u32) << 16
        | ((((x >> 8) & 0xff) as u8) as u32) << 8 | (((x & 0xff) as u8) as u32) == x)
        by (bit_vector);
}

/// Reading back the eight bytes of a value gives the value.
pub proof fn lemma_u64_be_round_trip(x: u64)
    ensures
        u64_from_be(
            u64_be_bytes(x)[0],
            u64_be_bytes(x)[1],
            u64_be_bytes(x)[2],
            u64_be_bytes(x)[3],
            u64_be_bytes(x)[4],
            u64_be_bytes(x)[5],
            u64_be_bytes(x)[6],
            u64_be_bytes(x)[7],
        ) == x,
{
    assert(((((x >> 56) & 0xff) as u8) as u64) << 56 | ((((x >> 48) & 0xff) as u8) as u64) << 48
        | ((((x >> 40) & 0xff) as u8) as u64) << 40 | ((((x >> 32) & 0xff) as u8) as u64) << 32
        | ((((x >> 24) & 0xff) as u8) as u64) << 24 | ((((x >> 16) & 0xff) as u8) as u64) << 16
        | ((((x >> 8) & 0xff) as u8) as u64) << 8 | (((x & 0xff) as u8) as u64) == x)
        by (bit_vector);
}

/// Appends the four big-endian bytes of `x`.
fn push_u32_be(out: &mut Vec<u8>, x: u32)
    ensures
        final(out)@ == old(out)@ + u32_be_bytes(x),
{
    assert((x >> 24) & 0xff < 256 && (x >> 16) & 0xff < 256 && (x >> 8) & 0xff < 256 && x & 0xff
        < 256) by (bit_vector);
    out.push(((x >> 24) & 0xff) as u8);
    out.push(((x >> 16) & 0xff) as u8);
    out.push(((x >> 8) & 0xff) as u8);
    out.push((x & 0xff) as u8);
    assert(out@ =~= old(out)@ + u32_be_bytes(x));
}

/// Appends the eight big-endian bytes of `x`.
fn push_u64_be(out: &mut Vec<u8>, x: u64)
    ensures
        final(out)@ == old(out)@ + u64_be_bytes(x),
{
    assert((x >> 56) & 0xff < 256 && (x >> 48) & 0xff < 256 && (x >> 40) & 0xff < 256 && (x >> 32)
        & 0xff < 256 && (x >> 24) & 0xff < 256 && (x >> 16) & 0xff < 256 && (x >> 8) & 0xff < 256
        && x & 0xff < 256) by (bit_vector);
    out.push(((x >> 56) & 0xff) as u8);
    out.push(((x >> 48) & 0xff) as u8);
    out.push(((x >> 40) & 0xff) as u8);
    out.push(((x >> 32) & 0xff) as u8);
    out.push(((x >> 24) & 0xff) as u8);
    out.push(((x >> 16) & 0xff) as u8);
    out.push(((x >> 8) & 0xff) as u8);
    out.push((x & 0xff) as u8);
    assert(out@ =~= old(out)@ + u64_be_bytes(x));
}

/// Encoding of one string field: byte length, then UTF-8 bytes.
pub open spec fn spec_encode_str(s: Seq<char>) -> Seq<u8> {
    u32_be_bytes(encode_utf8(s).len() as u32) + encode_utf8(s)
}

/// Encoding of the strings of a list, in order, without the count prefix.
pub open spec fn spec_encode_strs(l: Seq<Seq<char>>) -> Seq<u8>
    decreases l.len(),
{
    if l.len() == 0 {
        Seq::empty()
    } else {
        spec_encode_str(l[0]) + spec_encode_strs(l.drop_first())
    }
}

/// Encoding of a string list field: count, then the strings.
pub open spec fn spec_encode_str_list(l: Seq<Seq<char>>) -> Seq<u8> {
    u32_be_bytes(l.len() as u32) + spec_encode_strs(l)
}

/// The payload of a frame: tag byte, then the variant's fields.
pub open spec fn spec_payload(m: DMessageView) -> Seq<u8> {
    match m {
        DMessageView::RegisterWorker(name) => seq![TAG_REGISTER] + spec_encode_str(name),
        DMessageView::DRequest(r) => seq![TAG_REQUEST] + spec_encode_str(r.id) + spec_encode_str(
            r.address,
        ) + spec_encode_str(r.hash) + u64_be_bytes(r.sequence) + spec_encode_str(
            r.incoming_view_key,
        ) + spec_encode_str(r.outgoing_view_key),
        DMessageView::DResponse(r) => seq![TAG_RESPONSE] + spec_encode_str(r.id) + spec_encode_str(
            r.address,
        ) + spec_encode_str_list(r.data),
    }
}

/// The whole frame: payload length, then payload.
pub open spec fn spec_frame(m: DMessageView) -> Seq<u8> {
    u32_be_bytes(spec_payload(m).len() as u32) + spec_payload(m)
}

/// A message small enough for the length prefixes: the payload length and,
/// for a response, the number of transaction hashes must each fit in 32 bits.
pub open spec fn msg_encodable(m: DMessageView) -> bool {
    &&& spec_payload(m).len() <= u32::MAX
    &&& (m matches DMessageView::DResponse(r) ==> r.data.len() <= u32::MAX)
}

/// Appends the encoding of one string field.
fn push_str_field(out: &mut Vec<u8>, s: &String)
    requires
        encode_utf8(s@).len() <= u32::MAX,
    ensures
        final(out)@ == old(out)@ + spec_encode_str(s@),
{
    let mut bytes = s.as_str().as_bytes_vec();
    push_u32_be(out, bytes.len() as u32);
    out.append(&mut bytes);
    assert(out@ =~= old(out)@ + spec_encode_str(s@));
}

/// Each encoded field of a payload is no longer than the payload itself, so
/// a payload that fits in 32 bits bounds every field's length prefix too.
proof fn lemma_field_within_payload(m: DMessageView)
    requires
        msg_encodable(m),
    ensures
        m matches DMessageView::RegisterWorker(name) ==> encode_utf8(name).len() <= u32::MAX,
        m matches DMessageView::DRequest(r) ==> encode_utf8(r.id).len() <= u32::MAX && encode_utf8(
            r.address,
        ).len() <= u32::MAX && encode_utf8(r.hash).len() <= u32::MAX && encode_utf8(
            r.incoming_view_key,
        ).len() <= u32::MAX && encode_utf8(r.outgoing_view_key).len() <= u32::MAX,
        m matches DMessageView::DResponse(r) ==> encode_utf8(r.id).len() <= u32::MAX
            && encode_utf8(r.address).len() <= u32::MAX,
{
}

/// Encodes one message as one frame.
///
/// The result is exactly `spec_frame` of the message: the caller owes only
/// that the message is small enough for the 32-bit length prefixes.
pub fn encode_message(m: &DMessage) -> (r: Vec<u8>)
    requires
        msg_encodable(m@),
    ensures
        r@ == spec_frame(m@),
{
    proof {
        lemma_field_within_payload(m@);
    }
    let mut payload: Vec<u8> = Vec::new();
    match m {
        DMessage::RegisterWorker(reg) => {
            payload.push(TAG_REGISTER);
            push_str_field(&mut payload, &reg.name);
            assert(payload@ =~= spec_payload(m@));
        },
        DMessage::DRequest(req) => {
            payload.push(TAG_REQUEST);
            push_str_field(&mut payload, &req.id);
            push_str_field(&mut payload, &req.address);
            push_str_field(&mut payload, &req.hash);
            push_u64_be(&mut payload, req.sequence);
            push_str_field(&mut payload, &req.incoming_view_key);
            push_str_field(&mut payload, &req.outgoing_view_key);
            assert(payload@ =~= spec_payload(m@));
        },
        DMessage::DResponse(resp) => {
            payload.push(TAG_RESPONSE);
            push_str_field(&mut payload, &resp.id);
            push_str_field(&mut payload, &resp.address);
            push_str_list_field(&mut payload, &resp.data, Ghost(m@));
            assert(payload@ =~= spec_payload(m@));
        },
    }
    let mut out: Vec<u8> = Vec::new();
    push_u32_be(&mut out, payload.len() as u32);
    out.append(&mut payload);
    out
}

/// A list encoding is never shorter than the encoding of a prefix of it.
proof fn lemma_encode_strs_take_le(l: Seq<Seq<char>>, i: int)
    requires
        0 <= i <= l.len(),
    ensures
        spec_encode_strs(l.take(i)).len() <= spec_encode_strs(l).len(),
    decreases l.len() - i,
{
    if i == l.len() {
        assert(l.take(i) =~= l);
    } else {
        lemma_encode_strs_snoc(l, i);
        lemma_encode_strs_take_le(l, i + 1);
    }
}

/// Encodes one message as one frame, checking the size limits first.
///
/// Succeeds exactly on encodable messages — those whose payload and
/// transaction-hash count fit the 32-bit prefixes — and then returns
/// exactly `spec_frame` of the message.
#[verifier::loop_isolation(false)]
pub fn encode_message_checked(m: &DMessage) -> (r: Option<Vec<u8>>)
    ensures
        match r {
            Some(v) => msg_encodable(m@) && v@ == spec_frame(m@),
            None => !msg_encodable(m@),
        },
{
    let limit: u64 = 0xffff_ffff;
    match m {
        DMessage::RegisterWorker(reg) => {
            let l0 = reg.name.as_str().as_bytes_vec().len();
            if l0 as u64 > limit {
                return None;
            }
            let total: u64 = 1 + 4 + l0 as u64;
            if total > limit {
                return None;
            }
            assert(msg_encodable(m@));
        },
        DMessage::DRequest(req) => {
            let l1 = req.id.as_str().as_bytes_vec().len();
            let l2 = req.address.as_str().as_bytes_vec().len();
            let l3 = req.hash.as_str().as_bytes_vec().len();
            let l4 = req.incoming_view_key.as_str().as_bytes_vec().len();
            let l5 = req.outgoing_view_key.as_str().as_bytes_vec().len();
            if l1 as u64 > limit || l2 as u64 > limit || l3 as u64 > limit || l4 as u64 > limit
                || l5 as u64 > limit {
                return None;
            }
            let total: u64 = 1 + (4 + l1 as u64) + (4 + l2 as u64) + (4 + l3 as u64) + 8 + (4
                + l4 as u64) + (4 + l5 as u64);
            if total > limit {
                return None;
            }
            assert(msg_encodable(m@));
        },
        DMessage::DResponse(resp) => {
            let l1 = resp.id.as_str().as_bytes_vec().len();
            let l2 = resp.address.as_str().as_bytes_vec().len();
            if l1 as u64 > limit || l2 as u64 > limit || resp.data.len() as u64 > limit {
                return None;
            }
            let mut acc: u64 = 0;
            let mut i: usize = 0;
            let ghost data = resp.data.deep_view();
            while i < resp.data.len()
                invariant
                    i <= resp.data@.len(),
                    data == resp.data.deep_view(),
                    acc == spec_encode_strs(data.take(i as int)).len(),
                    acc <= 0xffff_ffff,
                decreases resp.data@.len() - i,
            {
                let li = resp.data[i].as_str().as_bytes_vec().len();
                proof {
                    lemma_encode_strs_snoc(data, i as int);
                    assert(data[i as int] == resp.data[i as int]@);
                }
                if li as u64 > limit || acc + 4 + li as u64 > limit {
                    proof {
                        lemma_encode_strs_take_le(data, i + 1);
                    }
                    return None;
                }
                acc = acc + 4 + li as u64;
                i = i + 1;
            }
            proof {
                assert(data.take(data.len() as int) =~= data);
            }
            let total: u64 = 1 + (4 + l1 as u64) + (4 + l2 as u64) + 4 + acc;
            if total > limit {
                return None;
            }
            assert(msg_encodable(m@));
        },
    }
    Some(encode_message(m))
}

/// The encodings of a prefix of a list grow one string at a time.
proof fn lemma_encode_strs_snoc(l: Seq<Seq<char>>, i: int)
    requires
        0 <= i < l.len(),
    ensures
        spec_encode_strs(l.take(i + 1)) == spec_encode_strs(l.take(i)) + spec_encode_str(l[i]),
    decreases i,
{
    if i == 0 {
        assert(l.take(1).drop_first() =~= l.take(0));
        assert(spec_encode_strs(l.take(0)) =~= Seq::empty());
        assert(spec_encode_strs(l.take(1)) =~= spec_encode_str(l[0]) + spec_encode_strs(
            l.take(0),
        ));
        assert(spec_encode_strs(l.take(1)) =~= spec_encode_strs(l.take(0)) + spec_encode_str(
            l[0],
        ));
    } else {
        lemma_encode_strs_snoc(l.drop_first(), i - 1);
        assert(l.take(i + 1).drop_first() =~= l.drop_first().take(i));
        assert(l.take(i).drop_first() =~= l.drop_first().take(i - 1));
        assert(l.drop_first()[i - 1] == l[i]);
        assert(spec_encode_strs(l.take(i + 1)) == spec_encode_str(l[0]) + spec_encode_strs(
            l.drop_first().take(i),
        ));
        assert(spec_encode_strs(l.take(i)) == spec_encode_str(l[0]) + spec_encode_strs(
            l.drop_first().take(i - 1),
        ));
        assert(spec_encode_str(l[0]) + (spec_encode_strs(l.drop_first().take(i - 1))
            + spec_encode_str(l[i])) =~= (spec_encode_str(l[0]) + spec_encode_strs(
            l.drop_first().take(i - 1),
        )) + spec_encode_str(l[i]));
    }
}

/// Every string of an encodable response fits its 32-bit length prefix.
proof fn lemma_response_strings_bounded(m: DMessageView, i: int)
    requires
        msg_encodable(m),
        m matches DMessageView::DResponse(r) && 0 <= i < r.data.len(),
    ensures
        m matches DMessageView::DResponse(r) ==> encode_utf8(r.data[i]).len() <= u32::MAX,
{
    let r = m->DResponse_0;
    lemma_strs_len_part(r.data, i);
}

/// The encoding of one list entry sits inside the encoding of the list.
proof fn lemma_strs_len_part(l: Seq<Seq<char>>, i: int)
    requires
        0 <= i < l.len(),
    ensures
        encode_utf8(l[i]).len() + 4 <= spec_encode_strs(l).len(),
    decreases i,
{
    if i == 0 {
    } else {
        lemma_strs_len_part(l.drop_first(), i - 1);
        assert(l.drop_first()[i - 1] == l[i]);
    }
}

/// Appends the encoding of a string list field: count, then each string.
fn push_str_list_field(out: &mut Vec<u8>, l: &Vec<String>, Ghost(m): Ghost<DMessageView>)
    requires
        msg_encodable(m),
        m matches DMessageView::DResponse(r) && r.data == l.deep_view(),
    ensures
        final(out)@ == old(out)@ + spec_encode_str_list(l.deep_view()),
{
    let ghost data = l.deep_view();
    push_u32_be(out, l.len() as u32);
    let ghost base = out@;
    let mut i: usize = 0;
    while i < l.len()
        invariant
            msg_encodable(m),
            m matches DMessageView::DResponse(r) && r.data == data,
            data == l.deep_view(),
            i <= l.len(),
            out@ == base + spec_encode_strs(data.take(i as int)),
        decreases l.len() - i,
    {
        proof {
            lemma_response_strings_bounded(m, i as int);
            lemma_encode_strs_snoc(data, i as int);
            assert(l.deep_view()[i as int] == l[i as int]@);
        }
        push_str_field(out, &l[i]);
        i = i + 1;
    }
    proof {
        assert(data.take(data.len() as int) =~= data);
    }
}

/// What reading one frame from the front of `b` gives: a message and how
/// many bytes it took, a request for more bytes, or a protocol error.
pub enum DecodeResult {
    Message(DMessage, usize),
    NeedMoreData,
    ProtocolError,
}

/// Mathematical image of a `DecodeResult`.
pub enum DecodeView {
    Message(DMessageView, int),
    NeedMoreData,
    ProtocolError,
}

impl View for DecodeResult {
    type V = DecodeView;

    open spec fn view(&self) -> DecodeView {
        match self {
            DecodeResult::Message(m, n) => DecodeView::Message(m@, *n as int),
            DecodeResult::NeedMoreData => DecodeView::NeedMoreData,
            DecodeResult::ProtocolError => DecodeView::ProtocolError,
        }
    }
}

/// Parses a string field at offset `i`: its byte length, then that many
/// bytes, which must be valid UTF-8. Returns the characters and the offset
/// after the field.
pub open spec fn spec_parse_str(b: Seq<u8>, i: int) -> Option<(Seq<char>, int)> {
    if 0 <= i && i + 4 <= b.len() {
        let n = u32_from_be(b[i], b[i + 1], b[i + 2], b[i + 3]) as int;
        if i + 4 + n <= b.len() && valid_utf8(b.subrange(i + 4, i + 4 + n)) {
            Some((decode_utf8(b.subrange(i + 4, i + 4 + n)), i + 4 + n))
        } else {
            None
        }
    } else {
        None
    }
}

/// Parses `count` consecutive string fields starting at offset `i`.
pub open spec fn spec_parse_strs(b: Seq<u8>, i: int, count: int) -> Option<(Seq<Seq<char>>, int)>
    decreases count,
{
    if count <= 0 {
        Some((Seq::empty(), i))
    } else {
        match spec_parse_str(b, i) {
            Some((s, j)) => match spec_parse_strs(b, j, count - 1) {
                Some((rest, k)) => Some((seq![s] + rest, k)),
                None => None,
            },
            None => None,
        }
    }
}

/// Parses a 4-byte big-endian integer at offset `i`.
pub open spec fn spec_parse_u32(b: Seq<u8>, i: int) -> Option<(u32, int)> {
    if 0 <= i && i + 4 <= b.len() {
        Some((u32_from_be(b[i], b[i + 1], b[i + 2], b[i + 3]), i + 4))
    } else {
        None
    }
}

/// Parses an 8-byte big-endian integer at offset `i`.
pub open spec fn spec_parse_u64(b: Seq<u8>, i: int) -> Option<(u64, int)> {
    if 0 <= i && i + 8 <= b.len() {
        Some(
            (
                u64_from_be(
                    b[i],
                    b[i + 1],
                    b[i + 2],
                    b[i + 3],
                    b[i + 4],
                    b[i + 5],
                    b[i + 6],
                    b[i + 7],
                ),
                i + 8,
            ),
        )
    } else {
        None
    }
}

/// Parses a whole payload: the tag byte picks the variant, the fields
/// follow, and nothing may remain after them.
pub open spec fn spec_parse_payload(p: Seq<u8>) -> Option<DMessageView> {
    if p.len() < 1 {
        None
    } else if p[0] == TAG_REGISTER {
        match spec_parse_str(p, 1) {
            Some((name, j)) => if j == p.len() {
                Some(DMessageView::RegisterWorker(name))
            } else {
                None
            },
            None => None,
        }
    } else if p[0] == TAG_REQUEST {
        match spec_parse_str(p, 1) {
            Some((id, j1)) => match spec_parse_str(p, j1) {
                Some((address, j2)) => match spec_parse_str(p, j2) {
                    Some((hash, j3)) => match spec_parse_u64(p, j3) {
                        Some((sequence, j4)) => match spec_parse_str(p, j4) {
                            Some((incoming_view_key, j5)) => match spec_parse_str(p, j5) {
                                Some((outgoing_view_key, j6)) => if j6 == p.len() {
                                    Some(
                                        DMessageView::DRequest(
                                            DRequestView {
                                                id,
                                                address,
                                                hash,
                                                sequence,
                                                incoming_view_key,
                                                outgoing_view_key,
                                            },
                                        ),
                                    )
                                } else {
                                    None
                                },
                                None => None,
                            },
                            None => None,
                        },
                        None => None,
                    },
                    None => None,
                },
                None => None,
            },
            None => None,
        }
    } else if p[0] == TAG_RESPONSE {
        match spec_parse_str(p, 1) {
            Some((id, j1)) => match spec_parse_str(p, j1) {
                Some((address, j2)) => match spec_parse_u32(p, j2) {
                    Some((count, j3)) => match spec_parse_strs(p, j3, count as int) {
                        Some((data, j4)) => if j4 == p.len() {
                            Some(DMessageView::DResponse(DResponseView { id, address, data }))
                        } else {
                            None
                        },
                        None => None,
                    },
                    None => None,
                },
                None => None,
            },
            None => None,
        }
    } else {
        None
    }
}

/// Reading one frame from the front of `b`: too few bytes for the header or
/// the payload ask for more; a complete frame decodes, or is a protocol
/// error when its payload is malformed.
pub open spec fn spec_decode(b: Seq<u8>) -> DecodeView {
    if b.len() < 4 {
        DecodeView::NeedMoreData
    } else {
        let n = u32_from_be(b[0], b[1], b[2], b[3]) as int;
        if b.len() < 4 + n {
            DecodeView::NeedMoreData
        } else {
            match spec_parse_payload(b.subrange(4, 4 + n)) {
                Some(m) => DecodeView::Message(m, 4 + n),
                None => DecodeView::ProtocolError,
            }
        }
    }
}

/// Relies on `String::from_utf8`: it returns a string exactly when the
/// bytes are valid UTF-8, and the returned string's bytes are the input.
#[verifier::external_body]
fn bytes_to_string(v: Vec<u8>) -> (r: Option<String>)
    ensures
        match r {
            Some(s) => valid_utf8(v@) && encode_utf8(s@) == v@,
            None => !valid_utf8(v@),
        },
{
    match String::from_utf8(v) {
        Ok(s) => Some(s),
        Err(_) => None,
    }
}

/// Reads the 4-byte big-endian integer at offset `i`.
fn read_u32_at(buf: &[u8], i: usize) -> (r: u32)
    requires
        i + 4 <= buf@.len(),
    ensures
        r == u32_from_be(buf@[i as int], buf@[i + 1], buf@[i + 2], buf@[i + 3]),
{
    let _buf_len = buf.len();
    let b0 = *slice_index_get(buf, i);
    let b1 = *slice_index_get(buf, i + 1);
    let b2 = *slice_index_get(buf, i + 2);
    let b3 = *slice_index_get(buf, i + 3);
    ((b0 as u32) << 24) | ((b1 as u32) << 16) | ((b2 as u32) << 8) | (b3 as u32)
}

/// Reads the 8-byte big-endian integer at offset `i`.
fn read_u64_at(buf: &[u8], i: usize) -> (r: u64)
    requires
        i + 8 <= buf@.len(),
    ensures
        r == u64_from_be(
            buf@[i as int],
            buf@[i + 1],
            buf@[i + 2],
            buf@[i + 3],
            buf@[i + 4],
            buf@[i + 5],
            buf@[i + 6],
            buf@[i + 7],
        ),
{
    let _buf_len = buf.len();
    let b0 = *slice_index_get(buf, i);
    let b1 = *slice_index_get(buf, i + 1);
    let b2 = *slice_index_get(buf, i + 2);
    let b3 = *slice_index_get(buf, i + 3);
    let b4 = *slice_index_get(buf, i + 4);
    let b5 = *slice_index_get(buf, i + 5);
    let b6 = *slice_index_get(buf, i + 6);
    let b7 = *slice_index_get(buf, i + 7);
    ((b0 as u64) << 56) | ((b1 as u64) << 48) | ((b2 as u64) << 40) | ((b3 as u64) << 32) | ((
    b4 as u64) << 24) | ((b5 as u64) << 16) | ((b6 as u64) << 8) | (b7 as u64)
}

/// Parses a string field at offset `i` of `buf`, as `spec_parse_str` reads it.
fn parse_str_field(buf: &[u8], i: usize) -> (r: Option<(String, usize)>)
    ensures
        match r {
            Some((s, j)) => spec_parse_str(buf@, i as int) == Some((s@, j as int)),
            None => spec_parse_str(buf@, i as int) is None,
        },
{
    if buf.len() < 4 || i > buf.len() - 4 {
        return None;
    }
    let n = read_u32_at(buf, i) as usize;
    if buf.len() - (i + 4) < n {
        return None;
    }
    let bytes = slice_to_vec(slice_subrange(buf, i + 4, i + 4 + n));
    match bytes_to_string(bytes) {
        Some(s) => {
            proof {
                encode_utf8_decode_utf8(s@);
            }
            Some((s, i + 4 + n))
        },
        None => None,
    }
}

/// Decodes at most one frame from the front of `buf`.
///
/// The result is exactly `spec_decode` of the buffer: a message with the
/// number of bytes it occupied, a request for more bytes when the frame is
/// incomplete, or a protocol error when the payload is malformed.
pub fn decode_frame(buf: &[u8]) -> (r: DecodeResult)
    ensures
        r@ == spec_decode(buf@),
{
    if buf.len() < 4 {
        return DecodeResult::NeedMoreData;
    }
    let n = read_u32_at(buf, 0) as usize;
    if buf.len() - 4 < n {
        return DecodeResult::NeedMoreData;
    }
    let payload = slice_subrange(buf, 4, 4 + n);
    match decode_payload(payload) {
        Some(m) => DecodeResult::Message(m, 4 + n),
        None => DecodeResult::ProtocolError,
    }
}

/// Decodes a complete payload, as `spec_parse_payload` reads it.
fn decode_payload(p: &[u8]) -> (r: Option<DMessage>)
    ensures
        match r {
            Some(m) => spec_parse_payload(p@) == Some(m@),
            None => spec_parse_payload(p@) is None,
        },
{
    if p.len() < 1 {
        return None;
    }
    let tag = *slice_index_get(p, 0);
    if tag == TAG_REGISTER {
        match parse_str_field(p, 1) {
            Some((name, j)) => {
                if j == p.len() {
                    Some(DMessage::RegisterWorker(RegisterWorker { name }))
                } else {
                    None
                }
            },
            None => None,
        }
    } else if tag == TAG_REQUEST {
        decode_request_payload(p)
    } else if tag == TAG_RESPONSE {
        decode_response_payload(p)
    } else {
        None
    }
}

/// Decodes the fields of a `DRequest` payload after its tag byte.
fn decode_request_payload(p: &[u8]) -> (r: Option<DMessage>)
    requires
        p@.len() >= 1,
        p@[0] == TAG_REQUEST,
    ensures
        match r {
            Some(m) => spec_parse_payload(p@) == Some(m@),
            None => spec_parse_payload(p@) is None,
        },
{
    let r1 = parse_str_field(p, 1);
    if r1.is_none() {
        return None;
    }
    let (id, j1) = r1.unwrap();
    let r2 = parse_str_field(p, j1);
    if r2.is_none() {
        return None;
    }
    let (address, j2) = r2.unwrap();
    let r3 = parse_str_field(p, j2);
    if r3.is_none() {
        return None;
    }
    let (hash, j3) = r3.unwrap();
    if p.len() < 8 || j3 > p.len() - 8 {
        return None;
    }
    let sequence = read_u64_at(p, j3);
    let j4 = j3 + 8;
    let r5 = parse_str_field(p, j4);
    if r5.is_none() {
        return None;
    }
    let (incoming_view_key, j5) = r5.unwrap();
    let r6 = parse_str_field(p, j5);
    if r6.is_none() {
        return None;
    }
    let (outgoing_view_key, j6) = r6.unwrap();
    if j6 == p.len() {
        Some(
            DMessage::DRequest(
                DRequest { id, address, hash, sequence, incoming_view_key, outgoing_view_key },
            ),
        )
    } else {
        None
    }
}

/// Decodes the fields of a `DResponse` payload after its tag byte.
#[verifier::loop_isolation(false)]
fn decode_response_payload(p: &[u8]) -> (r: Option<DMessage>)
    requires
        p@.len() >= 1,
        p@[0] == TAG_RESPONSE,
    ensures
        match r {
            Some(m) => spec_parse_payload(p@) == Some(m@),
            None => spec_parse_payload(p@) is None,
        },
{
    let r1 = parse_str_field(p, 1);
    if r1.is_none() {
        return None;
    }
    let (id, j1) = r1.unwrap();
    let r2 = parse_str_field(p, j1);
    if r2.is_none() {
        return None;
    }
    let (address, j2) = r2.unwrap();
    if p.len() < 4 || j2 > p.len() - 4 {
        return None;
    }
    let count = read_u32_at(p, j2);
    let j3 = j2 + 4;
    let mut data: Vec<String> = Vec::new();
    let mut k: u32 = 0;
    let mut j: usize = j3;
    proof {
        assert(data.deep_view() =~= Seq::<Seq<char>>::empty());
        if let Some((tail, e)) = spec_parse_strs(p@, j3 as int, count as int) {
            assert(data.deep_view() + tail =~= tail);
        }
    }
    while k < count
        invariant
            k <= count,
            spec_parse_strs(p@, j3 as int, count as int) == (match spec_parse_strs(
                p@,
                j as int,
                count - k,
            ) {
                Some((tail, e)) => Some((data.deep_view() + tail, e)),
                None => None,
            }),
        decreases count - k,
    {
        let ghost dv_old = data.deep_view();
        let rs = parse_str_field(p, j);
        if rs.is_none() {
            return None;
        }
        let (s, jn) = rs.unwrap();
        data.push(s);
        proof {
            assert(data.deep_view() =~= dv_old.push(s@));
            if let Some((tail, e)) = spec_parse_strs(p@, jn as int, count - k - 1) {
                assert(dv_old + (seq![s@] + tail) =~= dv_old.push(s@) + tail);
            }
        }
        j = jn;
        k = k + 1;
    }
    proof {
        assert(spec_parse_strs(p@, j as int, 0) == Some((Seq::<Seq<char>>::empty(), j as int)));
        assert(data.deep_view() + Seq::<Seq<char>>::empty() =~= data.deep_view());
    }
    if j == p.len() {
        Some(DMessage::DResponse(DResponse { id, address, data }))
    } else {
        None
    }
}

/// When a stretch of `b` equals `s`, each byte of the stretch is the
/// corresponding byte of `s`.
proof fn lemma_subrange_eq_indices(b: Seq<u8>, i: int, s: Seq<u8>)
    requires
        0 <= i,
        i + s.len() <= b.len(),
        b.subrange(i, i + s.len() as int) == s,
    ensures
        forall|t: int| i <= t < i + s.len() ==> #[trigger] b[t] == s[t - i],
{
    assert forall|t: int| i <= t < i + s.len() implies #[trigger] b[t] == s[t - i] by {
        assert(b.subrange(i, i + s.len() as int)[t - i] == b[t]);
    }
}

/// A string field encoded at offset `i` parses back to the same characters.
proof fn lemma_parse_str_of_encoded(b: Seq<u8>, i: int, s: Seq<char>)
    requires
        0 <= i,
        encode_utf8(s).len() <= u32::MAX,
        i + spec_encode_str(s).len() <= b.len(),
        b.subrange(i, i + spec_encode_str(s).len() as int) == spec_encode_str(s),
    ensures
        spec_parse_str(b, i) == Some((s, i + spec_encode_str(s).len() as int)),
{
    let e = encode_utf8(s);
    let enc = spec_encode_str(s);
    lemma_subrange_eq_indices(b, i, enc);
    assert(b[i] == enc[0] && b[i + 1] == enc[1] && b[i + 2] == enc[2] && b[i + 3] == enc[3]);
    lemma_u32_be_round_trip(e.len() as u32);
    assert(u32_from_be(b[i], b[i + 1], b[i + 2], b[i + 3]) as int == e.len());
    assert(b.subrange(i + 4, i + 4 + e.len() as int) =~= e);
    encode_utf8_valid_utf8(s);
    encode_utf8_decode_utf8(s);
}

/// A string list encoded at offset `i` parses back to the same list.
proof fn lemma_parse_strs_of_encoded(b: Seq<u8>, i: int, l: Seq<Seq<char>>)
    requires
        0 <= i,
        spec_encode_strs(l).len() <= u32::MAX,
        i + spec_encode_strs(l).len() <= b.len(),
        b.subrange(i, i + spec_encode_strs(l).len() as int) == spec_encode_strs(l),
    ensures
        spec_parse_strs(b, i, l.len() as int) == Some((l, i + spec_encode_strs(l).len() as int)),
    decreases l.len(),
{
    if l.len() == 0 {
        assert(l =~= Seq::<Seq<char>>::empty());
    } else {
        let e0 = spec_encode_str(l[0]);
        let rest = spec_encode_strs(l.drop_first());
        let total = spec_encode_strs(l);
        assert(total == e0 + rest);
        lemma_subrange_eq_indices(b, i, total);
        assert(b.subrange(i, i + e0.len() as int) =~= e0);
        lemma_strs_len_part(l, 0);
        lemma_parse_str_of_encoded(b, i, l[0]);
        let i2 = i + e0.len() as int;
        assert(b.subrange(i2, i2 + rest.len() as int) =~= rest);
        lemma_parse_strs_of_encoded(b, i2, l.drop_first());
        assert(seq![l[0]] + l.drop_first() =~= l);
    }
}

/// An encoded `RegisterWorker` payload parses back to the same message.
proof fn lemma_parse_payload_register(m: DMessageView)
    requires
        msg_encodable(m),
        m is RegisterWorker,
    ensures
        spec_parse_payload(spec_payload(m)) == Some(m),
{
    let p = spec_payload(m);
    let name = m->RegisterWorker_0;
    lemma_field_within_payload(m);
    let e = spec_encode_str(name);
    assert(p.subrange(1, 1 + e.len() as int) =~= e);
    lemma_parse_str_of_encoded(p, 1, name);
}

/// An encoded `DRequest` payload parses back to the same message.
#[verifier::rlimit(100)]
proof fn lemma_parse_payload_request(m: DMessageView)
    requires
        msg_encodable(m),
        m is DRequest,
    ensures
        spec_parse_payload(spec_payload(m)) == Some(m),
{
    let p = spec_payload(m);
    let r = m->DRequest_0;
    lemma_field_within_payload(m);
    let e1 = spec_encode_str(r.id);
    let e2 = spec_encode_str(r.address);
    let e3 = spec_encode_str(r.hash);
    let s8 = u64_be_bytes(r.sequence);
    let e4 = spec_encode_str(r.incoming_view_key);
    let e5 = spec_encode_str(r.outgoing_view_key);
    let o1: int = 1;
    let o2 = o1 + e1.len() as int;
    let o3 = o2 + e2.len() as int;
    let o4 = o3 + e3.len() as int;
    let o5 = o4 + 8;
    let o6 = o5 + e4.len() as int;
    assert(p.subrange(o1, o1 + e1.len() as int) =~= e1);
    lemma_parse_str_of_encoded(p, o1, r.id);
    assert(p.subrange(o2, o2 + e2.len() as int) =~= e2);
    lemma_parse_str_of_encoded(p, o2, r.address);
    assert(p.subrange(o3, o3 + e3.len() as int) =~= e3);
    lemma_parse_str_of_encoded(p, o3, r.hash);
    assert(p[o4] == s8[0] && p[o4 + 1] == s8[1] && p[o4 + 2] == s8[2] && p[o4 + 3] == s8[3] && p[o4
        + 4] == s8[4] && p[o4 + 5] == s8[5] && p[o4 + 6] == s8[6] && p[o4 + 7] == s8[7]);
    lemma_u64_be_round_trip(r.sequence);
    assert(spec_parse_u64(p, o4) == Some((r.sequence, o5)));
    assert(p.subrange(o5, o5 + e4.len() as int) =~= e4);
    lemma_parse_str_of_encoded(p, o5, r.incoming_view_key);
    assert(p.subrange(o6, o6 + e5.len() as int) =~= e5);
    lemma_parse_str_of_encoded(p, o6, r.outgoing_view_key);
}

/// An encoded `DResponse` payload parses back to the same message.
#[verifier::rlimit(100)]
proof fn lemma_parse_payload_response(m: DMessageView)
    requires
        msg_encodable(m),
        m is DResponse,
    ensures
        spec_parse_payload(spec_payload(m)) == Some(m),
{
    let p = spec_payload(m);
    let r = m->DResponse_0;
    lemma_field_within_payload(m);
    let e1 = spec_encode_str(r.id);
    let e2 = spec_encode_str(r.address);
    let c4 = u32_be_bytes(r.data.len() as u32);
    let es = spec_encode_strs(r.data);
    let o1: int = 1;
    let o2 = o1 + e1.len() as int;
    let o3 = o2 + e2.len() as int;
    let o4 = o3 + 4;
    assert(p.subrange(o1, o1 + e1.len() as int) =~= e1);
    lemma_parse_str_of_encoded(p, o1, r.id);
    assert(p.subrange(o2, o2 + e2.len() as int) =~= e2);
    lemma_parse_str_of_encoded(p, o2, r.address);
    assert(p[o3] == c4[0] && p[o3 + 1] == c4[1] && p[o3 + 2] == c4[2] && p[o3 + 3] == c4[3]);
    lemma_u32_be_round_trip(r.data.len() as u32);
    assert(spec_parse_u32(p, o3) == Some((r.data.len() as u32, o4)));
    assert(p.subrange(o4, o4 + es.len() as int) =~= es);
    lemma_parse_strs_of_encoded(p, o4, r.data);
}

/// An encoded payload parses back to the message that produced it.
proof fn lemma_parse_payload_of_encoded(m: DMessageView)
    requires
        msg_encodable(m),
    ensures
        spec_parse_payload(spec_payload(m)) == Some(m),
{
    match m {
        DMessageView::RegisterWorker(_) => lemma_parse_payload_register(m),
        DMessageView::DRequest(_) => lemma_parse_payload_request(m),
        DMessageView::DResponse(_) => lemma_parse_payload_response(m),
    }
}

/// Round trip: whatever else follows it in the buffer, an encoded frame
/// decodes back to exactly the message that produced it, consuming exactly
/// the frame's bytes.
pub proof fn lemma_frame_round_trip(m: DMessageView, rest: Seq<u8>)
    requires
        msg_encodable(m),
    ensures
        spec_decode(spec_frame(m) + rest) == DecodeView::Message(m, spec_frame(m).len() as int),
{
    let p = spec_payload(m);
    let b = spec_frame(m) + rest;
    let hdr = u32_be_bytes(p.len() as u32);
    assert(b[0] == hdr[0] && b[1] == hdr[1] && b[2] == hdr[2] && b[3] == hdr[3]);
    lemma_u32_be_round_trip(p.len() as u32);
    assert(b.subrange(4, 4 + p.len() as int) =~= p);
    lemma_parse_payload_of_encoded(m);
}

} // verus!
