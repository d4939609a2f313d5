use vstd::arithmetic::div_mod::lemma_fundamental_div_mod_converse;
use crate::buffer::{frame_clear, frame_contents, frame_extend, frame_new, frame_slice};
use vstd::prelude::*;
use vstd::slice::slice_subrange;

verus! {

/// The HMAC-SHA256 tag of `msg` under `key`.
pub uninterp spec fn hmac_sha256(key: Seq<u8>, msg: Seq<u8>) -> Seq<u8>;

/// Relies on hmac::Hmac<sha2::Sha256>: `new_from_slice` accepts a key of any
/// length, and the finalized tag is the 32-byte HMAC-SHA256 of the message.
#[verifier::external_body]
fn hmac_sha256_tag(key: &[u8], msg: &[u8]) -> (r: Vec<u8>)
    ensures
        r@ == hmac_sha256(key@, msg@),
        r@.len() == 32,
{
    let mut mac = <hmac::Hmac<sha2::Sha256> as hmac::Mac>::new_from_slice(key).expect(
        "HMAC takes keys of any length",
    );
    hmac::Mac::update(&mut mac, msg);
    hmac::Mac::finalize(mac).into_bytes().to_vec()
}

/// The phase a link frame belongs to.
#[derive(Clone, Copy, Debug, PartialEq, Eq, Structural)]
pub enum LinkPhase {
    Handshake,
    Data,
}

/// The two phase bits at the top of a frame header.
pub open spec fn phase_bits(p: LinkPhase) -> u8 {
    match p {
        LinkPhase::Handshake => 2,
        LinkPhase::Data => 0,
    }
}

/// The phase that two header bits stand for: anything but `10` is data.
pub open spec fn phase_of_bits(b: int) -> LinkPhase {
    if b == 2 {
        LinkPhase::Handshake
    } else {
        LinkPhase::Data
    }
}

impl LinkPhase {
    pub fn to_bits(self) -> (r: u8)
        ensures
            r == phase_bits(self),
    {
        match self {
            LinkPhase::Handshake => 0b10,
            LinkPhase::Data => 0b00,
        }
    }

    pub fn from_bits(bits: u8) -> (r: LinkPhase)
        ensures
            r == phase_of_bits(bits as int),
    {
        if bits == 0b10 {
            LinkPhase::Handshake
        } else {
            LinkPhase::Data
        }
    }
}

/// The big-endian value of the first five bytes of `s`.
pub open spec fn be40(s: Seq<u8>) -> int {
    (((s[0] * 256 + s[1]) * 256 + s[2]) * 256 + s[3]) * 256 + s[4]
}

/// The five big-endian bytes of `x`, below `2^40`.
pub open spec fn be5(x: int) -> Seq<u8> {
    seq![
        (x / 0x1_0000_0000 % 256) as u8,
        (x / 0x100_0000 % 256) as u8,
        (x / 0x1_0000 % 256) as u8,
        (x / 0x100 % 256) as u8,
        (x % 256) as u8,
    ]
}

/// `2^34`: the tag takes the low 34 bits of the 40-bit header.
pub open spec fn tag_span() -> int {
    0x4_0000_0000
}

/// The 34-bit tag of a payload: the high 34 bits of the first five bytes of
/// its HMAC-SHA256.
pub open spec fn link_tag(key: Seq<u8>, payload: Seq<u8>) -> int {
    be40(hmac_sha256(key, payload)) / 64
}

/// The 40-bit header: phase bits, the 4-bit id, then the tag.
pub open spec fn header_value(phase: LinkPhase, id: u8, tag: int) -> int {
    (phase_bits(phase) * 16 + id % 16) * tag_span() + tag
}

/// The wire form of a link frame.
pub open spec fn frame_bytes(phase: LinkPhase, id: u8, payload: Seq<u8>, key: Seq<u8>) -> Seq<u8> {
    be5(header_value(phase, id, link_tag(key, payload))) + payload
}

/// What a received frame says: its phase and id, when it has a header and at
/// least one payload byte and its tag matches its payload.
pub open spec fn parse_frame(f: Seq<u8>, key: Seq<u8>) -> Option<(LinkPhase, u8)> {
    if f.len() < 6 {
        None
    } else if be40(f) % tag_span() != link_tag(key, f.skip(5)) {
        None
    } else {
        Some((phase_of_bits(be40(f) / (16 * tag_span())), (be40(f) / tag_span() % 16) as u8))
    }
}

/// Five big-endian bytes read back give the value they were made from.
pub proof fn lemma_be5_round_trip(x: int)
    requires
        0 <= x < 0x100_0000_0000,
    ensures
        be40(be5(x)) == x,
{
    let s = be5(x);
    assert(s[0] == x / 0x1_0000_0000 % 256);
    assert(s[1] == x / 0x100_0000 % 256);
    assert(s[2] == x / 0x1_0000 % 256);
    assert(s[3] == x / 0x100 % 256);
    assert(s[4] == x % 256);
    assert(x / 0x1_0000_0000 < 256);
    assert(s[0] * 256 + s[1] == x / 0x100_0000);
    assert((s[0] * 256 + s[1]) * 256 + s[2] == x / 0x1_0000);
    assert(((s[0] * 256 + s[1]) * 256 + s[2]) * 256 + s[3] == x / 0x100);
}

/// A link frame: phase, 4-bit id and payload.
pub struct LinkPacket {
    pub phase: LinkPhase,
    pub id: u8,
    pub payload: Vec<u8>,
}

impl LinkPacket {
    /// The 40-bit value of the first five bytes of the payload's HMAC.
    fn sign_payload(payload: &[u8], sig_key: &[u8]) -> (r: u64)
        ensures
            r == be40(hmac_sha256(sig_key@, payload@)),
            r < 0x100_0000_0000,
    {
        let sig = hmac_sha256_tag(sig_key, payload);
        (((sig[0] as u64 * 256 + sig[1] as u64) * 256 + sig[2] as u64) * 256 + sig[3] as u64) * 256
            + sig[4] as u64
    }

    /// The frame's wire form: a 5-byte header holding phase, id and the
    /// 34-bit tag of the payload under `sig_key`, then the payload.
    pub fn write(&self, sig_key: &[u8]) -> (r: Vec<u8>)
        ensures
            r@ == frame_bytes(self.phase, self.id, self.payload@, sig_key@),
    {
        let tag: u64 = Self::sign_payload(self.payload.as_slice(), sig_key) / 64;
        let meta: u64 = self.phase.to_bits() as u64 * 16 + (self.id % 16) as u64;
        let header: u64 = meta * 0x4_0000_0000 + tag;
        let mut out: Vec<u8> = Vec::new();
        out.push((header / 0x1_0000_0000 % 256) as u8);
        out.push((header / 0x100_0000 % 256) as u8);
        out.push((header / 0x1_0000 % 256) as u8);
        out.push((header / 0x100 % 256) as u8);
        out.push((header % 256) as u8);
        let ghost head = out@;
        let mut i: usize = 0;
        while i < self.payload.len()
            invariant
                out@ == head + self.payload@.take(i as int),
                i <= self.payload.len(),
            decreases self.payload.len() - i,
        {
            out.push(self.payload[i]);
            assert(self.payload@.take(i + 1) =~= self.payload@.take(i as int).push(
                self.payload@[i as int],
            ));
            i = i + 1;
        }
        assert(self.payload@.take(self.payload.len() as int) =~= self.payload@);
        assert(head =~= be5(header as int));
        out
    }

    /// Checks one received frame: its phase and id when it is long enough
    /// and its tag matches its payload under `sig_key`, `None` otherwise.
    pub fn read(frame: &[u8], sig_key: &[u8]) -> (r: Option<(LinkPhase, u8)>)
        ensures
            r == parse_frame(frame@, sig_key@),
    {
        if frame.len() < 6 {
            return None;
        }
        let header: u64 = (((frame[0] as u64 * 256 + frame[1] as u64) * 256 + frame[2] as u64)
            * 256 + frame[3] as u64) * 256 + frame[4] as u64;
        let payload = Self::get_payload(frame);
        let tag: u64 = Self::sign_payload(payload.as_slice(), sig_key) / 64;
        if header % 0x4_0000_0000 != tag {
            return None;
        }
        let phase = LinkPhase::from_bits((header / 0x40_0000_0000) as u8);
        Some((phase, (header / 0x4_0000_0000 % 16) as u8))
    }

    /// The payload of a frame: what follows its 5-byte header.
    pub fn get_payload(frame: &[u8]) -> (r: Vec<u8>)
        requires
            frame@.len() >= 5,
        ensures
            r@ == frame@.skip(5),
    {
        let mut out: Vec<u8> = Vec::new();
        let mut i: usize = 5;
        while i < frame.len()
            invariant
                5 <= i <= frame.len(),
                out@ == frame@.subrange(5, i as int),
            decreases frame.len() - i,
        {
            out.push(frame[i]);
            assert(frame@.subrange(5, i + 1) =~= frame@.subrange(5, i as int).push(frame@[i as int]));
            i = i + 1;
        }
        assert(frame@.subrange(5, frame.len() as int) =~= frame@.skip(5));
        out
    }
}

/// A frame signed under a key is accepted under that key, and gives back its
/// phase and the low four bits of its id.
pub proof fn lemma_signed_frame_verifies(
    phase: LinkPhase,
    id: u8,
    payload: Seq<u8>,
    key: Seq<u8>,
)
    requires
        payload.len() >= 1,
    ensures
        parse_frame(frame_bytes(phase, id, payload, key), key) == Some((phase, id % 16)),
        be40(frame_bytes(phase, id, payload, key)) % tag_span() == link_tag(key, payload),
{
    let f = frame_bytes(phase, id, payload, key);
    let tag = link_tag(key, payload);
    let sig = hmac_sha256(key, payload);
    assert(0 <= be40(sig) < 0x100_0000_0000) by {
        assert(0 <= sig[0] < 256 && 0 <= sig[1] < 256 && 0 <= sig[2] < 256 && 0 <= sig[3] < 256 && 0
            <= sig[4] < 256);
    }
    assert(0 <= tag < tag_span());
    let meta = phase_bits(phase) * 16 + id % 16;
    let h = header_value(phase, id, tag);
    assert(0 <= meta < 64);
    lemma_be5_round_trip(h);
    assert(f.subrange(0, 5) =~= be5(h));
    assert(be40(f) == be40(be5(h)));
    assert(f.skip(5) =~= payload);
    lemma_fundamental_div_mod_converse(h, tag_span(), meta, tag);
    lemma_fundamental_div_mod_converse(h / tag_span(), 16, phase_bits(phase) as int, (id % 16) as int);
    assert(h / (16 * tag_span()) == phase_bits(phase)) by {
        vstd::arithmetic::div_mod::lemma_div_denominator(h, tag_span(), 16);
    }
}

/// A frame whose header has any one of its 34 tag bits flipped is rejected.
pub proof fn lemma_flipped_tag_bit_rejected(
    phase: LinkPhase,
    id: u8,
    payload: Seq<u8>,
    key: Seq<u8>,
    bit: u64,
)
    requires
        payload.len() >= 1,
        bit < 34,
    ensures
        ({
            let h = be40(frame_bytes(phase, id, payload, key)) as u64;
            parse_frame(be5((h ^ (1u64 << bit)) as int) + payload, key) is None
        }),
{
    let f = frame_bytes(phase, id, payload, key);
    lemma_signed_frame_verifies(phase, id, payload, key);
    assert(0 <= be40(f) < 0x100_0000_0000) by {
        assert(0 <= f[0] < 256 && 0 <= f[1] < 256 && 0 <= f[2] < 256 && 0 <= f[3] < 256 && 0 <= f[4]
            < 256);
    }
    let h = be40(f) as u64;
    let g = h ^ (1u64 << bit);
    assert(g < 0x100_0000_0000 && g & 0x3_FFFF_FFFF != h & 0x3_FFFF_FFFF) by (bit_vector)
        requires
            h < 0x100_0000_0000,
            bit < 34,
            g == h ^ (1u64 << bit),
    ;
    assert(g & 0x3_FFFF_FFFF == g % 0x4_0000_0000) by (bit_vector);
    assert(h & 0x3_FFFF_FFFF == h % 0x4_0000_0000) by (bit_vector);
    lemma_be5_round_trip(g as int);
    let t = be5(g as int) + payload;
    assert(t.subrange(0, 5) =~= be5(g as int));
    assert(be40(t) == be40(be5(g as int)));
    assert(t.skip(5) =~= payload);
}

/// The bytes that PHY frames carry after their headers, in order.
pub open spec fn frame_payloads(frames: Seq<Vec<u8>>) -> Seq<u8>
    decreases frames.len(),
{
    if frames.len() == 0 {
        Seq::empty()
    } else {
        frame_payloads(frames.drop_last()) + frames.last()@.skip(5)
    }
}

/// Every frame is a data frame for `id`, signed under `key`, with at most
/// one PHY frame's worth of payload.
pub open spec fn data_frames(frames: Seq<Vec<u8>>, id: u8, key: Seq<u8>) -> bool {
    forall|i: int|
        0 <= i < frames.len() ==> {
            &&& frames[i]@.len() >= 5
            &&& frames[i]@.len() <= 5 + TX_CAPACITY
            &&& #[trigger] frames[i]@ == frame_bytes(LinkPhase::Data, id, frames[i]@.skip(5), key)
        }
}

/// Appending a data frame for `id` to data frames for `id` appends its
/// payload to theirs.
pub proof fn lemma_push_data_frame(
    frames: Seq<Vec<u8>>,
    f: Vec<u8>,
    payload: Seq<u8>,
    id: u8,
    key: Seq<u8>,
)
    requires
        data_frames(frames, id, key),
        f@ == frame_bytes(LinkPhase::Data, id, payload, key),
        payload.len() <= TX_CAPACITY,
    ensures
        data_frames(frames.push(f), id, key),
        frame_payloads(frames.push(f)) == frame_payloads(frames) + payload,
{
    let fs = frames.push(f);
    assert(fs.drop_last() =~= frames);
    assert(f@.skip(5) =~= payload);
    assert forall|k: int| 0 <= k < fs.len() implies {
        &&& fs[k]@.len() >= 5
        &&& fs[k]@.len() <= 5 + TX_CAPACITY
        &&& #[trigger] fs[k]@ == frame_bytes(LinkPhase::Data, id, fs[k]@.skip(5), key)
    } by {
        if k < frames.len() {
            assert(fs[k] == frames[k]);
        }
    }
}

/// The length of the chunk of a `len`-byte write that starts at offset `b`:
/// one frame's payload, or what is left.
pub open spec fn chunk_len(len: int, b: int) -> int {
    if len - b > TX_CAPACITY {
        TX_CAPACITY as int
    } else {
        len - b
    }
}

/// The frames that a write of `len` bytes sent out onto a buffer that held
/// `buffered` bytes follow the buffer-swap rule: each frame ends at the start
/// of a chunk (a multiple of one frame's payload into the write), and went
/// out only because that chunk did not fit after it. So no chunk is split
/// across frames.
#[verifier::opaque]
pub open spec fn swap_frames(frames: Seq<Vec<u8>>, buffered: int, len: int) -> bool {
    forall|k: int|
        0 <= k < frames.len() ==> {
            let end = frame_payloads(#[trigger] frames.take(k + 1)).len() - buffered;
            &&& 0 <= end < len
            &&& end % (TX_CAPACITY as int) == 0
            &&& frames[k]@.len() - 5 + chunk_len(len, end) > TX_CAPACITY
        }
}

/// A frame that went out when the chunk at `end` did not fit keeps the
/// buffer-swap rule.
proof fn lemma_push_swap_frame(frames: Seq<Vec<u8>>, f: Vec<u8>, buffered: int, len: int, end: int)
    requires
        swap_frames(frames, buffered, len),
        frame_payloads(frames.push(f)).len() - buffered == end,
        0 <= end < len,
        end % (TX_CAPACITY as int) == 0,
        f@.len() - 5 + chunk_len(len, end) > TX_CAPACITY,
    ensures
        swap_frames(frames.push(f), buffered, len),
{
    reveal(swap_frames);
    let fs = frames.push(f);
    assert forall|k: int| 0 <= k < fs.len() implies {
        let e = frame_payloads(#[trigger] fs.take(k + 1)).len() - buffered;
        &&& 0 <= e < len
        &&& e % (TX_CAPACITY as int) == 0
        &&& fs[k]@.len() - 5 + chunk_len(len, e) > TX_CAPACITY
    } by {
        if k < frames.len() {
            assert(fs.take(k + 1) =~= frames.take(k + 1));
            assert(fs[k] == frames[k]);
        } else {
            assert(fs.take(k + 1) =~= fs);
        }
    }
}

/// The most payload bytes one link frame carries.
pub const TX_CAPACITY: usize = 64;

/// The transmit buffer of a link: bytes written since the last frame went out.
pub struct TxBuffer {
    buf: heapless::Vec<u8, 64>,
}

impl TxBuffer {
    pub closed spec fn contents(&self) -> Seq<u8> {
        frame_contents(self.buf)
    }

    pub open spec fn wf(&self) -> bool {
        self.contents().len() <= TX_CAPACITY
    }

    pub fn new() -> (r: TxBuffer)
        ensures
            r.wf(),
            r.contents() == Seq::<u8>::empty(),
    {
        TxBuffer { buf: frame_new() }
    }

    /// The number of buffered bytes.
    pub fn len(&self) -> (r: usize)
        requires
            self.wf(),
        ensures
            r == self.contents().len(),
            r <= TX_CAPACITY,
    {
        frame_slice(&self.buf).len()
    }

    pub fn clear(&mut self)
        ensures
            final(self).wf(),
            final(self).contents() == Seq::<u8>::empty(),
    {
        frame_clear(&mut self.buf);
    }

    /// The buffered bytes as one data frame for `id`; the buffer is emptied.
    pub fn take_frame(&mut self, id: u8, sig_key: &[u8]) -> (r: Vec<u8>)
        requires
            old(self).wf(),
        ensures
            final(self).wf(),
            final(self).contents() == Seq::<u8>::empty(),
            r@ == frame_bytes(LinkPhase::Data, id, old(self).contents(), sig_key@),
            r@.len() == 5 + old(self).contents().len(),
    {
        let payload = frame_slice(&self.buf);
        let mut copy: Vec<u8> = Vec::new();
        let mut i: usize = 0;
        while i < payload.len()
            invariant
                copy@ == payload@.take(i as int),
                i <= payload.len(),
            decreases payload.len() - i,
        {
            copy.push(payload[i]);
            assert(payload@.take(i + 1) =~= payload@.take(i as int).push(payload@[i as int]));
            i = i + 1;
        }
        assert(payload@.take(payload.len() as int) =~= payload@);
        let packet = LinkPacket { phase: LinkPhase::Data, id, payload: copy };
        let frame = packet.write(sig_key);
        frame_clear(&mut self.buf);
        frame
    }

    /// Buffers one chunk. When it does not fit, the buffered bytes go out as
    /// a data frame for `id` first and the chunk replaces them.
    fn write_chunk(&mut self, chunk: &[u8], id: u8, sig_key: &[u8]) -> (r: Option<Vec<u8>>)
        requires
            old(self).wf(),
            chunk@.len() <= TX_CAPACITY,
        ensures
            final(self).wf(),
            match r {
                None => old(self).contents().len() + chunk@.len() <= TX_CAPACITY
                    && final(self).contents() == old(self).contents() + chunk@,
                Some(f) => f@ == frame_bytes(LinkPhase::Data, id, old(self).contents(), sig_key@)
                    && f@.len() == 5 + old(self).contents().len() && f@.skip(5) == old(self).contents() && final(self).contents() == chunk@ && old(self).contents().len()
                    + chunk@.len() > TX_CAPACITY,
            },
    {
        if frame_extend(&mut self.buf, chunk) {
            return None;
        }
        let frame = self.take_frame(id, sig_key);
        let ok = frame_extend(&mut self.buf, chunk);
        assert(ok);
        assert(self.contents() =~= chunk@);
        assert(frame@.skip(5) =~= old(self).contents());
        Some(frame)
    }

    /// Buffers `data` in chunks of at most one frame's payload. A chunk that
    /// does not fit makes the buffered bytes go out as a data frame for `id`
    /// first, and then replaces them. Returns the frames that went out.
    pub fn write(&mut self, data: &[u8], id: u8, sig_key: &[u8]) -> (r: Vec<Vec<u8>>)
        requires
            old(self).wf(),
        ensures
            final(self).wf(),
            data_frames(r@, id, sig_key@),
            frame_payloads(r@) + final(self).contents() == old(self).contents() + data@,
            data@.len() + old(self).contents().len() <= TX_CAPACITY ==> r@.len() == 0,
            swap_frames(r@, old(self).contents().len() as int, data@.len() as int),
    {
        let mut frames: Vec<Vec<u8>> = Vec::new();
        let mut i: usize = 0;
        assert(data@.take(0) =~= Seq::<u8>::empty());
        assert(old(self).contents() + Seq::<u8>::empty() =~= old(self).contents());
        assert(swap_frames(frames@, old(self).contents().len() as int, data@.len() as int)) by {
            reveal(swap_frames);
        }
        while i < data.len()
            invariant
                self.wf(),
                i <= data.len(),
                data_frames(frames@, id, sig_key@),
                frame_payloads(frames@) + self.contents() == old(self).contents() + data@.take(
                    i as int,
                ),
                data@.len() + old(self).contents().len() <= TX_CAPACITY ==> frames@.len() == 0,
                swap_frames(frames@, old(self).contents().len() as int, data@.len() as int),
                i % TX_CAPACITY == 0 || i == data.len(),
            decreases data.len() - i,
        {
            let end: usize = if data.len() - i > TX_CAPACITY {
                i + TX_CAPACITY
            } else {
                data.len()
            };
            let chunk = slice_subrange(data, i, end);
            let ghost before = self.contents();
            let ghost before_frames = frames@;
            proof {
                assert(data@.take(end as int) =~= data@.take(i as int) + chunk@);
            }
            match self.write_chunk(chunk, id, sig_key) {
                Some(frame) => {
                    proof {
                        assert(before_frames.push(frame).drop_last() =~= before_frames);
                        assert(frame_payloads(before_frames.push(frame)) == frame_payloads(
                            before_frames,
                        ) + before);
                        lemma_push_swap_frame(
                            before_frames,
                            frame,
                            old(self).contents().len() as int,
                            data@.len() as int,
                            i as int,
                        );
                    }
                    frames.push(frame);
                    proof {
                        assert(frames@.drop_last() =~= before_frames);
                        assert(frame_payloads(frames@) == frame_payloads(before_frames) + before);
                        assert(frame_payloads(frames@) + self.contents() =~= (frame_payloads(
                            before_frames,
                        ) + before) + chunk@);
                        assert forall|k: int| 0 <= k < frames@.len() implies {
                            &&& frames@[k]@.len() >= 5
                            &&& frames@[k]@.len() <= 5 + TX_CAPACITY
                            &&& #[trigger] frames@[k]@ == frame_bytes(
                                LinkPhase::Data,
                                id,
                                frames@[k]@.skip(5),
                                sig_key@,
                            )
                        } by {
                            if k < before_frames.len() {
                                assert(frames@[k] == before_frames[k]);
                            }
                        }
                    }
                },
                None => {
                    proof {
                        assert(frame_payloads(frames@) + self.contents() =~= (frame_payloads(
                            frames@,
                        ) + before) + chunk@);
                    }
                },
            }
            i = end;
        }
        assert(data@.take(data.len() as int) =~= data@);
        frames
    }
}

/// *The* gateway: this protocol has one gateway per channel.
#[derive(Clone, Copy, Debug, PartialEq, Eq, Structural)]
pub struct GatewayId;

/// The 4-bit id of a sensor board, allocated by the gateway per session.
#[derive(Clone, Copy, Debug, PartialEq, Eq, Structural)]
pub struct SensorBoardId(pub u8);

/// The receive side of a link: the payload of the last accepted frame and
/// how much of it was read.
pub struct RxBuffer {
    payload: Vec<u8>,
    start: usize,
}

impl RxBuffer {
    /// The bytes of the current payload not read yet.
    pub closed spec fn pending(&self) -> Seq<u8> {
        self.payload@.skip(self.start as int)
    }

    pub closed spec fn wf(&self) -> bool {
        self.start <= self.payload.len()
    }

    pub fn new() -> (r: RxBuffer)
        ensures
            r.wf(),
            r.pending() == Seq::<u8>::empty(),
    {
        let r = RxBuffer { payload: Vec::new(), start: 0 };
        assert(r.payload@.skip(0) =~= Seq::<u8>::empty());
        r
    }

    /// The number of bytes of the current payload not read yet.
    pub fn len(&self) -> (r: usize)
        requires
            self.wf(),
        ensures
            r == self.pending().len(),
    {
        self.payload.len() - self.start
    }

    /// Whether the current payload was read to its end.
    pub fn is_empty(&self) -> (r: bool)
        requires
            self.wf(),
        ensures
            r == (self.pending().len() == 0),
    {
        self.start >= self.payload.len()
    }

    /// Makes `payload` the current payload.
    pub fn set(&mut self, payload: Vec<u8>)
        ensures
            final(self).wf(),
            final(self).pending() == payload@,
    {
        self.payload = payload;
        self.start = 0;
        assert(self.payload@.skip(0) =~= self.payload@);
    }

    /// Reads up to `max` bytes of the current payload.
    pub fn read(&mut self, max: usize) -> (r: Vec<u8>)
        requires
            old(self).wf(),
        ensures
            final(self).wf(),
            r@.len() == (if max < old(self).pending().len() {
                max as int
            } else {
                old(self).pending().len() as int
            }),
            r@ == old(self).pending().take(r@.len() as int),
            final(self).pending() == old(self).pending().skip(r@.len() as int),
    {
        let avail = self.payload.len() - self.start;
        let n = if max < avail {
            max
        } else {
            avail
        };
        let mut out: Vec<u8> = Vec::new();
        let mut i: usize = 0;
        while i < n
            invariant
                self.start + n <= self.payload.len(),
                i <= n,
                out@ == self.payload@.subrange(self.start as int, self.start + i),
            decreases n - i,
        {
            out.push(self.payload[self.start + i]);
            assert(self.payload@.subrange(self.start as int, self.start + i + 1)
                =~= self.payload@.subrange(self.start as int, self.start + i).push(
                self.payload@[self.start + i],
            ));
            i = i + 1;
        }
        proof {
            assert(out@ =~= self.pending().take(n as int));
            assert(self.payload@.skip(self.start + n) =~= self.pending().skip(n as int));
        }
        self.start = self.start + n;
        out
    }
}

} // verus!
