use vstd::arithmetic::div_mod::lemma_fundamental_div_mod_converse;
use vstd::prelude::*;

verus! {

/// Why a byte stream could not be decoded.
#[derive(Clone, Copy, Debug, PartialEq, Eq, Structural)]
pub enum DecodeError {
    /// The input ended before the value was complete.
    EndOfInput,
    /// The bytes do not form a valid value (overlong integer, bad tag,
    /// inconsistent length).
    Malformed,
}

/// `128` raised to the power `k`.
pub open spec fn pow128(k: nat) -> int
    decreases k,
{
    if k == 0 {
        1
    } else {
        128 * pow128((k - 1) as nat)
    }
}

/// The ULEB128 encoding of `v`: seven bits per byte, least significant group
/// first, the high bit set on every byte but the last.
pub open spec fn uleb(v: nat) -> Seq<u8>
    decreases v,
{
    if v < 128 {
        seq![v as u8]
    } else {
        seq![(v % 128 + 128) as u8] + uleb(v / 128)
    }
}

/// The shortest SLEB128 encoding of `v`: like ULEB128, with bit `0x40` of the
/// last byte giving the sign of the remaining high bits.
pub open spec fn sleb(v: int) -> Seq<u8>
    decreases (if v < 0 { -v } else { v }),
{
    let low = v % 128;
    let rest = v / 128;
    if (rest == 0 && low < 64) || (rest == -1 && low >= 64) {
        seq![low as u8]
    } else {
        seq![(low + 128) as u8] + sleb(rest)
    }
}

/// Shifts the result of decoding a tail of the input up by the groups that
/// precede it.
pub open spec fn scaled(r: Result<(int, nat), DecodeError>, acc: int, pow: int, used: nat) -> Result<
    (int, nat),
    DecodeError,
> {
    match r {
        Ok((v, n)) => Ok((acc + pow * v, n + used)),
        Err(e) => Err(e),
    }
}

/// Reads a ULEB128 integer of at most `max` bytes from the front of `s`:
/// its value and the number of bytes it took.
pub open spec fn parse_uleb(s: Seq<u8>, max: nat) -> Result<(int, nat), DecodeError>
    decreases max,
{
    if max == 0 {
        Err(DecodeError::Malformed)
    } else if s.len() == 0 {
        Err(DecodeError::EndOfInput)
    } else if s[0] < 128 {
        Ok((s[0] as int, 1))
    } else {
        scaled(parse_uleb(s.skip(1), (max - 1) as nat), s[0] - 128, 128, 1)
    }
}

/// Reads an SLEB128 integer of at most `max` bytes from the front of `s`:
/// its (unbounded) value and the number of bytes it took.
pub open spec fn parse_sleb(s: Seq<u8>, max: nat) -> Result<(int, nat), DecodeError>
    decreases max,
{
    if max == 0 {
        Err(DecodeError::Malformed)
    } else if s.len() == 0 {
        Err(DecodeError::EndOfInput)
    } else if s[0] < 128 {
        Ok((if s[0] >= 64 { s[0] - 128 } else { s[0] as int }, 1))
    } else {
        scaled(parse_sleb(s.skip(1), (max - 1) as nat), s[0] - 128, 128, 1)
    }
}

/// `x` reduced into the range of `i64`, as two's complement wrapping does.
pub open spec fn wrap_i64(x: int) -> int {
    (x + 0x8000_0000_0000_0000) % 0x1_0000_0000_0000_0000 - 0x8000_0000_0000_0000
}

/// Encodes `v` as ULEB128 (at most ten bytes).
pub fn uleb_encode_u64(v: u64) -> (r: Vec<u8>)
    ensures
        r@ == uleb(v as nat),
{
    let mut out: Vec<u8> = Vec::new();
    let mut val: u64 = v;
    while val > 127
        invariant
            out@ + uleb(val as nat) == uleb(v as nat),
        decreases val,
    {
        let byte: u8 = (val % 128 + 128) as u8;
        out.push(byte);
        proof {
            assert(uleb(val as nat) == seq![byte] + uleb((val / 128) as nat));
            assert(out@ + uleb((val / 128) as nat) =~= (out@.drop_last() + seq![byte]) + uleb(
                (val / 128) as nat,
            ));
        }
        val = val / 128;
    }
    out.push(val as u8);
    out
}

/// Integers with a little-endian base-128 wire form.
pub trait ToLeb128Ext: Sized {
    /// The wire form of `self`.
    spec fn leb128_spec(self) -> Seq<u8>;

    /// Encodes `self`.
    fn to_leb128(self) -> (r: Vec<u8>)
        ensures
            r@ == self.leb128_spec(),
    ;
}

impl ToLeb128Ext for u32 {
    open spec fn leb128_spec(self) -> Seq<u8> {
        uleb(self as nat)
    }

    fn to_leb128(self) -> (r: Vec<u8>) {
        uleb_encode_u64(self as u64)
    }
}

impl ToLeb128Ext for u64 {
    open spec fn leb128_spec(self) -> Seq<u8> {
        uleb(self as nat)
    }

    fn to_leb128(self) -> (r: Vec<u8>) {
        uleb_encode_u64(self)
    }
}

impl ToLeb128Ext for i64 {
    open spec fn leb128_spec(self) -> Seq<u8> {
        sleb(self as int)
    }

    fn to_leb128(self) -> (r: Vec<u8>) {
        sleb_encode_i64(self)
    }
}

/// Splits `v` into its low seven bits and the rest, rounding towards minus
/// infinity.
fn split_low_i64(v: i64) -> (r: (u8, i64))
    ensures
        r.0 as int == v as int % 128,
        r.1 as int == v as int / 128,
{
    if v >= 0 {
        ((v % 128) as u8, v / 128)
    } else {
        let t: i64 = -(v + 1);
        let low: u8 = (127 - t % 128) as u8;
        let rest: i64 = -(t / 128) - 1;
        proof {
            assert(v == rest * 128 + low) by (nonlinear_arith)
                requires
                    t == -(v + 1),
                    t == (t / 128) * 128 + t % 128,
                    low == 127 - t % 128,
                    rest == -(t / 128) - 1,
            ;
            lemma_fundamental_div_mod_converse(v as int, 128, rest as int, low as int);
        }
        (low, rest)
    }
}

/// Encodes `v` as SLEB128 (at most ten bytes).
pub fn sleb_encode_i64(v: i64) -> (r: Vec<u8>)
    ensures
        r@ == sleb(v as int),
{
    let mut out: Vec<u8> = Vec::new();
    let mut val: i64 = v;
    loop
        invariant
            out@ + sleb(val as int) == sleb(v as int),
        decreases (if val < 0 { -val } else { val as int }),
    {
        let (low, rest) = split_low_i64(val);
        if (rest == 0 && low < 64) || (rest == -1 && low >= 64) {
            out.push(low);
            return out;
        }
        let byte: u8 = low + 128;
        out.push(byte);
        proof {
            assert(sleb(val as int) == seq![byte] + sleb(rest as int));
            assert(out@ + sleb(rest as int) =~= (out@.drop_last() + seq![byte]) + sleb(
                rest as int,
            ));
        }
        val = rest;
    }
}


/// Reads a `u8`: one byte.
pub open spec fn parse_u8(s: Seq<u8>) -> Result<(u8, nat), DecodeError> {
    if s.len() == 0 {
        Err(DecodeError::EndOfInput)
    } else {
        Ok((s[0], 1))
    }
}

/// Reads a `u32`: ULEB128 of at most five bytes, high bits beyond 32 dropped.
pub open spec fn parse_u32(s: Seq<u8>) -> Result<(u32, nat), DecodeError> {
    match parse_uleb(s, 5) {
        Ok((v, n)) => Ok(((v % 0x1_0000_0000) as u32, n)),
        Err(e) => Err(e),
    }
}

/// Reads a `u64`: ULEB128 of at most ten bytes, high bits beyond 64 dropped.
pub open spec fn parse_u64(s: Seq<u8>) -> Result<(u64, nat), DecodeError> {
    match parse_uleb(s, 10) {
        Ok((v, n)) => Ok(((v % 0x1_0000_0000_0000_0000) as u64, n)),
        Err(e) => Err(e),
    }
}

/// Reads an `i64`: SLEB128 of at most ten bytes, wrapped into range.
pub open spec fn parse_i64(s: Seq<u8>) -> Result<(i64, nat), DecodeError> {
    match parse_sleb(s, 10) {
        Ok((v, n)) => Ok((wrap_i64(v) as i64, n)),
        Err(e) => Err(e),
    }
}

/// The value of four little-endian bytes.
pub open spec fn le_u32(s: Seq<u8>) -> u32 {
    (s[0] + 0x100 * s[1] + 0x1_0000 * s[2] + 0x100_0000 * s[3]) as u32
}

/// The four little-endian bytes of `v`.
pub open spec fn le_bytes(v: u32) -> Seq<u8> {
    seq![
        (v % 0x100) as u8,
        (v / 0x100 % 0x100) as u8,
        (v / 0x1_0000 % 0x100) as u8,
        (v / 0x100_0000) as u8,
    ]
}

/// Reads the bit pattern of an `f32`: four little-endian bytes.
pub open spec fn parse_f32_bits(s: Seq<u8>) -> Result<(u32, nat), DecodeError> {
    if s.len() < 4 {
        Err(DecodeError::EndOfInput)
    } else {
        Ok((le_u32(s), 4))
    }
}

/// Appends the ULEB128 encoding of `v`.
pub fn emit_u64(out: &mut Vec<u8>, v: u64)
    ensures
        final(out)@ == old(out)@ + uleb(v as nat),
{
    let mut bytes = uleb_encode_u64(v);
    out.append(&mut bytes);
}

/// Appends the ULEB128 encoding of `v`.
pub fn emit_u32(out: &mut Vec<u8>, v: u32)
    ensures
        final(out)@ == old(out)@ + uleb(v as nat),
{
    emit_u64(out, v as u64);
}

/// Appends the SLEB128 encoding of `v`.
pub fn emit_i64(out: &mut Vec<u8>, v: i64)
    ensures
        final(out)@ == old(out)@ + sleb(v as int),
{
    let mut bytes = sleb_encode_i64(v);
    out.append(&mut bytes);
}

/// Appends one byte.
pub fn emit_u8(out: &mut Vec<u8>, v: u8)
    ensures
        final(out)@ == old(out)@.push(v),
{
    out.push(v);
}

/// Appends the bit pattern of an `f32` as four little-endian bytes.
pub fn emit_f32_bits(out: &mut Vec<u8>, bits: u32)
    ensures
        final(out)@ == old(out)@ + le_bytes(bits),
{
    let ghost start = out@;
    out.push((bits % 0x100) as u8);
    out.push((bits / 0x100 % 0x100) as u8);
    out.push((bits / 0x1_0000 % 0x100) as u8);
    out.push((bits / 0x100_0000) as u8);
    assert(out@ =~= start + le_bytes(bits));
}

/// A copy of `v`.
pub fn copy_bytes(v: &[u8]) -> (r: Vec<u8>)
    ensures
        r@ == v@,
{
    let mut out: Vec<u8> = Vec::new();
    let mut i: usize = 0;
    while i < v.len()
        invariant
            out@ == v@.take(i as int),
            i <= v.len(),
        decreases v.len() - i,
    {
        out.push(v[i]);
        assert(v@.take(i + 1) =~= v@.take(i as int).push(v@[i as int]));
        i = i + 1;
    }
    assert(v@.take(v.len() as int) =~= v@);
    out
}

/// A decoder over bytes held in memory: what is left to read, and how many
/// bytes were read so far.
pub struct Decoder {
    data: Vec<u8>,
    pos: usize,
}

impl Decoder {
    /// The bytes not read yet.
    pub closed spec fn pending(&self) -> Seq<u8> {
        self.data@.skip(self.pos as int)
    }

    /// The number of bytes read so far.
    pub closed spec fn offset(&self) -> nat {
        self.pos as nat
    }

    pub closed spec fn wf(&self) -> bool {
        self.pos <= self.data.len()
    }

    /// A decoder that reads `data` from its start.
    pub fn new(data: Vec<u8>) -> (r: Decoder)
        ensures
            r.wf(),
            r.pending() == data@,
            r.offset() == 0,
    {
        let r = Decoder { data, pos: 0 };
        assert(r.data@.skip(0) =~= r.data@);
        r
    }

    /// Appends bytes at the end of the input.
    pub fn extend(&mut self, more: &[u8])
        requires
            old(self).wf(),
        ensures
            final(self).wf(),
            final(self).pending() == old(self).pending() + more@,
            final(self).offset() == old(self).offset(),
    {
        let ghost before = self.data@;
        let mut i: usize = 0;
        while i < more.len()
            invariant
                self.pos <= self.data.len(),
                self.pos == old(self).pos,
                self.data@ == before + more@.take(i as int),
                before == old(self).data@,
                i <= more.len(),
            decreases more.len() - i,
        {
            self.data.push(more[i]);
            proof {
                assert(more@.take(i + 1) =~= more@.take(i as int).push(more[i as int]));
            }
            i = i + 1;
        }
        proof {
            assert(more@.take(more.len() as int) =~= more@);
            assert(self.data@.skip(self.pos as int) =~= before.skip(self.pos as int) + more@);
        }
    }

    /// The bytes not read yet.
    pub fn into_pending(self) -> (r: Vec<u8>)
        requires
            self.wf(),
        ensures
            r@ == self.pending(),
    {
        let mut out: Vec<u8> = Vec::new();
        let mut i: usize = self.pos;
        while i < self.data.len()
            invariant
                self.pos <= i <= self.data.len(),
                out@ == self.data@.subrange(self.pos as int, i as int),
            decreases self.data.len() - i,
        {
            out.push(self.data[i]);
            assert(self.data@.subrange(self.pos as int, i + 1) =~= self.data@.subrange(
                self.pos as int,
                i as int,
            ).push(self.data@[i as int]));
            i = i + 1;
        }
        assert(out@ =~= self.pending());
        out
    }

    /// The number of bytes read so far.
    pub fn current_offset(&self) -> (r: usize)
        ensures
            r == self.offset(),
    {
        self.pos
    }

    /// The number of bytes left to read.
    pub fn remaining(&self) -> (r: usize)
        requires
            self.wf(),
        ensures
            r == self.pending().len(),
    {
        self.data.len() - self.pos
    }

    /// Consumes `n` bytes and returns them.
    pub fn read_bytes(&mut self, n: usize) -> (r: Result<Vec<u8>, DecodeError>)
        requires
            old(self).wf(),
        ensures
            final(self).wf(),
            n <= old(self).pending().len() ==> r.is_ok() && r.unwrap()@ == old(self).pending().take(n as int) && final(self).pending() == old(self).pending().skip(
                n as int,
            ) && final(self).offset() == old(self).offset() + n,
            n > old(self).pending().len() ==> r == Err::<Vec<u8>, DecodeError>(
                DecodeError::EndOfInput,
            ) && *final(self) == *old(self),
    {
        if n > self.data.len() - self.pos {
            return Err(DecodeError::EndOfInput);
        }
        let mut out: Vec<u8> = Vec::new();
        let mut i: usize = 0;
        while i < n
            invariant
                self.pos + n <= self.data.len(),
                i <= n,
                out@ == self.data@.subrange(self.pos as int, self.pos + i),
            decreases n - i,
        {
            out.push(self.data[self.pos + i]);
            proof {
                assert(self.data@.subrange(self.pos as int, self.pos + i + 1) =~= self.data@.subrange(
                    self.pos as int,
                    self.pos + i,
                ).push(self.data@[self.pos + i]));
            }
            i = i + 1;
        }
        proof {
            assert(out@ =~= self.pending().take(n as int));
            assert(self.data@.skip(self.pos + n) =~= self.pending().skip(n as int));
        }
        self.pos = self.pos + n;
        Ok(out)
    }

    /// Consumes `n` bytes and throws them away.
    pub fn read_discard(&mut self, n: usize) -> (r: Result<(), DecodeError>)
        requires
            old(self).wf(),
        ensures
            final(self).wf(),
            n <= old(self).pending().len() ==> r is Ok && final(self).pending() == old(self).pending().skip(n as int) && final(self).offset() == old(self).offset() + n,
            n > old(self).pending().len() ==> r == Err::<(), DecodeError>(DecodeError::EndOfInput)
                && *final(self) == *old(self),
    {
        if n > self.data.len() - self.pos {
            return Err(DecodeError::EndOfInput);
        }
        proof {
            assert(self.data@.skip(self.pos + n) =~= self.pending().skip(n as int));
        }
        self.pos = self.pos + n;
        Ok(())
    }

    /// Reads one byte.
    pub fn read_u8(&mut self) -> (r: Result<u8, DecodeError>)
        requires
            old(self).wf(),
        ensures
            final(self).wf(),
            Decoder::read_spec(*old(self), *final(self), r, parse_u8(old(self).pending())),
            r is Err ==> *final(self) == *old(self),
    {
        if self.pos >= self.data.len() {
            return Err(DecodeError::EndOfInput);
        }
        let b = self.data[self.pos];
        proof {
            assert(self.data@.skip(self.pos + 1) =~= self.pending().skip(1));
        }
        self.pos = self.pos + 1;
        Ok(b)
    }

    /// Reads a ULEB128 `u32` (at most five bytes).
    pub fn read_u32(&mut self) -> (r: Result<u32, DecodeError>)
        requires
            old(self).wf(),
        ensures
            final(self).wf(),
            Decoder::read_spec(*old(self), *final(self), r, parse_u32(old(self).pending())),
            r is Err ==> *final(self) == *old(self),
    {
        match self.read_leb(5, false) {
            Ok(v) => Ok((v % 0x1_0000_0000) as u32),
            Err(e) => Err(e),
        }
    }

    /// Reads a ULEB128 `u64` (at most ten bytes).
    pub fn read_u64(&mut self) -> (r: Result<u64, DecodeError>)
        requires
            old(self).wf(),
        ensures
            final(self).wf(),
            Decoder::read_spec(*old(self), *final(self), r, parse_u64(old(self).pending())),
            r is Err ==> *final(self) == *old(self),
    {
        match self.read_leb(10, false) {
            Ok(v) => Ok((v % 0x1_0000_0000_0000_0000) as u64),
            Err(e) => Err(e),
        }
    }

    /// Reads an SLEB128 `i64` (at most ten bytes).
    pub fn read_i64(&mut self) -> (r: Result<i64, DecodeError>)
        requires
            old(self).wf(),
        ensures
            final(self).wf(),
            Decoder::read_spec(*old(self), *final(self), r, parse_i64(old(self).pending())),
            r is Err ==> *final(self) == *old(self),
    {
        match self.read_leb(10, true) {
            Ok(v) => {
                proof {
                    lemma_pow128_bound(10);
                }
                let t: i128 = v + 0x8000_0000_0000_0000 + 0x40_0000_0000_0000_0000;
                let q: i128 = t / 0x1_0000_0000_0000_0000;
                let m: i128 = t % 0x1_0000_0000_0000_0000;
                proof {
                    lemma_fundamental_div_mod_converse(
                        v + 0x8000_0000_0000_0000,
                        0x1_0000_0000_0000_0000,
                        q - 64,
                        m as int,
                    );
                }
                Ok((m - 0x8000_0000_0000_0000) as i64)
            },
            Err(e) => Err(e),
        }
    }

    /// Reads the bit pattern of an `f32` (four little-endian bytes).
    pub fn read_f32_bits(&mut self) -> (r: Result<u32, DecodeError>)
        requires
            old(self).wf(),
        ensures
            final(self).wf(),
            Decoder::read_spec(*old(self), *final(self), r, parse_f32_bits(old(self).pending())),
            r is Err ==> *final(self) == *old(self),
    {
        if self.data.len() - self.pos < 4 {
            return Err(DecodeError::EndOfInput);
        }
        let p = self.pos;
        let v: u32 = self.data[p] as u32 + 0x100 * self.data[p + 1] as u32 + 0x1_0000
            * self.data[p + 2] as u32 + 0x100_0000 * self.data[p + 3] as u32;
        proof {
            assert(self.data@.skip(p + 4) =~= self.pending().skip(4));
        }
        self.pos = p + 4;
        Ok(v)
    }

    /// How a read that returned `r` moved the decoder from `before` to
    /// `after`, for a reader whose meaning on the pending bytes is `p`: on
    /// success the value and the bytes consumed are those of `p`; on failure
    /// the error is that of `p`.
    pub open spec fn read_spec<T>(
        before: Decoder,
        after: Decoder,
        r: Result<T, DecodeError>,
        p: Result<(T, nat), DecodeError>,
    ) -> bool {
        match r {
            Ok(v) => p is Ok && v == p->Ok_0.0 && p->Ok_0.1 <= before.pending().len()
                && after.pending() == before.pending().skip(
                p->Ok_0.1 as int,
            ) && after.offset() == before.offset() + p->Ok_0.1,
            Err(e) => p == Err::<(T, nat), DecodeError>(e),
        }
    }

    /// Reads a little-endian base-128 integer of at most `max` bytes; with
    /// `signed`, bit `0x40` of the last byte is its sign.
    fn read_leb(&mut self, max: usize, signed: bool) -> (r: Result<i128, DecodeError>)
        requires
            old(self).wf(),
            1 <= max <= 10,
        ensures
            final(self).wf(),
            ({
                let p = if signed {
                    parse_sleb(old(self).pending(), max as nat)
                } else {
                    parse_uleb(old(self).pending(), max as nat)
                };
                match r {
                    Ok(v) => -pow128(10) <= v < pow128(10) && (!signed ==> v >= 0) && p is Ok
                        && v == p->Ok_0.0 && p->Ok_0.1 <= old(self).pending().len() && final(self).pending() == old(self).pending().skip(p->Ok_0.1 as int) && final(self).offset() == old(self).offset()
                        + p->Ok_0.1,
                    Err(e) => p == Err::<(int, nat), DecodeError>(e),
                }
            }),
            r is Err ==> *final(self) == *old(self),
    {
        let ghost s = self.pending();
        let ghost total = if signed {
            parse_sleb(s, max as nat)
        } else {
            parse_uleb(s, max as nat)
        };
        let mut acc: i128 = 0;
        let mut pow: i128 = 1;
        let mut i: usize = 0;
        assert(s.skip(0) =~= s);
        loop
            invariant
                self.wf(),
                self.pending() == s,
                self.offset() == old(self).offset(),
                *self == *old(self),
                s == old(self).pending(),
                1 <= max <= 10,
                i <= max,
                i <= s.len(),
                pow == pow128(i as nat),
                0 <= acc < pow,
                total == (if signed {
                    parse_sleb(s, max as nat)
                } else {
                    parse_uleb(s, max as nat)
                }),
                total == scaled(
                    if signed {
                        parse_sleb(s.skip(i as int), (max - i) as nat)
                    } else {
                        parse_uleb(s.skip(i as int), (max - i) as nat)
                    },
                    acc as int,
                    pow as int,
                    i as nat,
                ),
            decreases max - i,
        {
            proof {
                lemma_pow128_bound(i as nat);
            }
            let ghost rest = s.skip(i as int);
            if i == max {
                return Err(DecodeError::Malformed);
            }
            if i >= self.data.len() - self.pos {
                assert(rest.len() == 0);
                return Err(DecodeError::EndOfInput);
            }
            let b: u8 = self.data[self.pos + i];
            assert(rest[0] == b);
            if b < 128 {
                let last: i128 = if signed && b >= 64 {
                    b as i128 - 128
                } else {
                    b as i128
                };
                proof {
                    lemma_pow128_bound(9);
                    assert(pow128(9) * 128 == pow128(10));
                    assert(pow <= pow128(9)) by {
                        lemma_pow128_mono(i as nat, 9);
                    }
                    assert(-pow128(10) <= acc + pow * last < pow128(10)) by (nonlinear_arith)
                        requires
                            0 <= acc < pow,
                            1 <= pow <= pow128(9),
                            -128 <= last < 128,
                            pow128(9) * 128 == pow128(10),
                    ;
                }
                let v: i128 = acc + pow * last;
                proof {
                    assert(self.data@.skip(self.pos + i + 1) =~= s.skip(i + 1));
                }
                self.pos = self.pos + i + 1;
                return Ok(v);
            }
            proof {
                assert(rest.skip(1) =~= s.skip(i + 1));
                let inner = if signed {
                    parse_sleb(s.skip(i + 1), (max - i - 1) as nat)
                } else {
                    parse_uleb(s.skip(i + 1), (max - i - 1) as nat)
                };
                match inner {
                    Ok((v, n)) => {
                        assert(acc + pow * ((b - 128) + 128 * v) == (acc + pow * (b - 128)) + (pow
                            * 128) * v) by (nonlinear_arith);
                    },
                    Err(_) => {},
                }
                let d: int = b - 128;
                assert(0 <= acc + pow * d < pow * 128) by (nonlinear_arith)
                    requires
                        0 <= acc < pow,
                        0 <= d < 128,
                ;
                lemma_pow128_mono((i + 1) as nat, 10);
            }
            acc = acc + pow * (b as i128 - 128);
            pow = pow * 128;
            i = i + 1;
        }
    }
}

/// `pow128` grows with its exponent.
pub proof fn lemma_pow128_mono(a: nat, b: nat)
    requires
        a <= b,
    ensures
        1 <= pow128(a) <= pow128(b),
    decreases b,
{
    if b > a {
        lemma_pow128_mono(a, (b - 1) as nat);
    } else {
        lemma_pow128_bound(a);
    }
}

/// `pow128` is positive and, up to ten groups, fits an `i128` with room to
/// spare.
pub proof fn lemma_pow128_bound(k: nat)
    ensures
        pow128(k) >= 1,
        k <= 10 ==> pow128(k) <= pow128(10),
        pow128(10) == 0x40_0000_0000_0000_0000,
    decreases k,
{
    reveal_with_fuel(pow128, 11);
    if k > 0 {
        lemma_pow128_bound((k - 1) as nat);
    }
}

} // verus!

verus! {

/// Decoding the ULEB128 encoding of `v`, followed by anything, gives back `v`
/// and consumes exactly the encoding, when the encoding fits `max` bytes.
pub proof fn lemma_uleb_round_trip(v: nat, rest: Seq<u8>, max: nat)
    requires
        uleb(v).len() <= max,
    ensures
        parse_uleb(uleb(v) + rest, max) == Ok::<(int, nat), DecodeError>((v as int, uleb(v).len())),
    decreases v,
{
    let s = uleb(v) + rest;
    if v < 128 {
        assert(s[0] == v as u8);
    } else {
        lemma_uleb_round_trip(v / 128, rest, (max - 1) as nat);
        assert(s.skip(1) =~= uleb(v / 128) + rest);
        assert(s[0] == (v % 128 + 128) as u8);
    }
}

/// The ULEB128 encoding of a value below `128^k` takes at most `k` bytes.
pub proof fn lemma_uleb_len(v: nat, k: nat)
    requires
        1 <= k,
        v < pow128(k),
    ensures
        1 <= uleb(v).len() <= k,
    decreases v,
{
    if v >= 128 {
        assert(k >= 2) by {
            if k == 1 {
                reveal_with_fuel(pow128, 2);
            }
        }
        assert(v / 128 < pow128((k - 1) as nat));
        lemma_uleb_len(v / 128, (k - 1) as nat);
    }
}

/// Decoding the SLEB128 encoding of `v`, followed by anything, gives back `v`
/// and consumes exactly the encoding, when the encoding fits `max` bytes.
pub proof fn lemma_sleb_round_trip(v: int, rest: Seq<u8>, max: nat)
    requires
        sleb(v).len() <= max,
    ensures
        parse_sleb(sleb(v) + rest, max) == Ok::<(int, nat), DecodeError>((v, sleb(v).len())),
    decreases (if v < 0 { -v } else { v }),
{
    let s = sleb(v) + rest;
    let low = v % 128;
    let r = v / 128;
    if (r == 0 && low < 64) || (r == -1 && low >= 64) {
        assert(s[0] == low as u8);
    } else {
        lemma_sleb_round_trip(r, rest, (max - 1) as nat);
        assert(s.skip(1) =~= sleb(r) + rest);
        assert(s[0] == (low + 128) as u8);
    }
}

/// The SLEB128 encoding of a value in `[-64 * 128^(k-1), 64 * 128^(k-1))`
/// takes at most `k` bytes.
pub proof fn lemma_sleb_len(v: int, k: nat)
    requires
        1 <= k,
        -64 * pow128((k - 1) as nat) <= v < 64 * pow128((k - 1) as nat),
    ensures
        1 <= sleb(v).len() <= k,
    decreases (if v < 0 { -v } else { v }),
{
    let low = v % 128;
    let r = v / 128;
    if !((r == 0 && low < 64) || (r == -1 && low >= 64)) {
        assert(k >= 2) by {
            if k == 1 {
                reveal_with_fuel(pow128, 2);
            }
        }
        let p = pow128((k - 2) as nat);
        assert(pow128((k - 1) as nat) == 128 * p);
        assert(-64 * p <= r < 64 * p) by (nonlinear_arith)
            requires
                -64 * (128 * p) <= v < 64 * (128 * p),
                v == 128 * r + low,
                0 <= low < 128,
                p >= 1,
        ;
        lemma_sleb_len(r, (k - 1) as nat);
    }
}

/// Every `u32` encodes in at most five bytes, and decodes back.
pub proof fn lemma_u32_round_trip(v: u32, rest: Seq<u8>)
    ensures
        uleb(v as nat).len() <= 5,
        parse_u32(uleb(v as nat) + rest) == Ok::<(u32, nat), DecodeError>((v, uleb(v as nat).len())),
{
    reveal_with_fuel(pow128, 6);
    lemma_uleb_len(v as nat, 5);
    lemma_uleb_round_trip(v as nat, rest, 5);
}

/// Every `u64` encodes in at most ten bytes, and decodes back.
pub proof fn lemma_u64_round_trip(v: u64, rest: Seq<u8>)
    ensures
        uleb(v as nat).len() <= 10,
        parse_u64(uleb(v as nat) + rest) == Ok::<(u64, nat), DecodeError>((v, uleb(v as nat).len())),
{
    lemma_pow128_bound(10);
    lemma_uleb_len(v as nat, 10);
    lemma_uleb_round_trip(v as nat, rest, 10);
}

/// Every `i64` encodes in at most ten bytes, and decodes back.
pub proof fn lemma_i64_round_trip(v: i64, rest: Seq<u8>)
    ensures
        sleb(v as int).len() <= 10,
        parse_i64(sleb(v as int) + rest) == Ok::<(i64, nat), DecodeError>((v, sleb(v as int).len())),
{
    reveal_with_fuel(pow128, 10);
    lemma_sleb_len(v as int, 10);
    lemma_sleb_round_trip(v as int, rest, 10);
    assert(wrap_i64(v as int) == v as int);
}

/// The four bytes of an `f32` bit pattern decode back to it.
pub proof fn lemma_f32_bits_round_trip(v: u32, rest: Seq<u8>)
    ensures
        parse_f32_bits(le_bytes(v) + rest) == Ok::<(u32, nat), DecodeError>((v, 4)),
{
    let s = le_bytes(v) + rest;
    assert(s[0] == (v % 0x100) as u8);
    assert(s[1] == (v / 0x100 % 0x100) as u8);
    assert(s[2] == (v / 0x1_0000 % 0x100) as u8);
    assert(s[3] == (v / 0x100_0000) as u8);
    assert(le_u32(s) == v);
}

/// A byte decodes back to itself.
pub proof fn lemma_u8_round_trip(v: u8, rest: Seq<u8>)
    ensures
        parse_u8(seq![v] + rest) == Ok::<(u8, nat), DecodeError>((v, 1)),
{
    assert((seq![v] + rest)[0] == v);
}

/// Different integers have different ULEB128 encodings.
pub proof fn lemma_uleb_injective(a: nat, b: nat)
    requires
        uleb(a) == uleb(b),
    ensures
        a == b,
{
    lemma_uleb_round_trip(a, Seq::empty(), uleb(a).len());
    lemma_uleb_round_trip(b, Seq::empty(), uleb(b).len());
    assert(uleb(a) + Seq::<u8>::empty() =~= uleb(a));
    assert(uleb(b) + Seq::<u8>::empty() =~= uleb(b));
}

/// Different integers have different SLEB128 encodings.
pub proof fn lemma_sleb_injective(a: int, b: int)
    requires
        sleb(a) == sleb(b),
    ensures
        a == b,
{
    lemma_sleb_round_trip(a, Seq::empty(), sleb(a).len());
    lemma_sleb_round_trip(b, Seq::empty(), sleb(b).len());
    assert(sleb(a) + Seq::<u8>::empty() =~= sleb(a));
    assert(sleb(b) + Seq::<u8>::empty() =~= sleb(b));
}

/// Input whose first `max` bytes all carry the continuation bit is rejected
/// as malformed, whatever follows, both unsigned and signed.
pub proof fn lemma_overlong_rejected(s: Seq<u8>, max: nat)
    requires
        s.len() >= max,
        forall|i: int| 0 <= i < max ==> s[i] >= 128,
    ensures
        parse_uleb(s, max) == Err::<(int, nat), DecodeError>(DecodeError::Malformed),
        parse_sleb(s, max) == Err::<(int, nat), DecodeError>(DecodeError::Malformed),
    decreases max,
{
    if max > 0 {
        assert(s[0] >= 128);
        lemma_overlong_rejected(s.skip(1), (max - 1) as nat);
    }
}

/// Each integer has one encoding, within the documented maximum: `u32` in
/// at most five bytes, `u64` and `i64` in at most ten; the encoding decodes
/// back, and no two integers share one.
pub proof fn lemma_leb_canonical(a: u64, b: u64, x: i64, y: i64)
    ensures
        a <= 0xFFFF_FFFF ==> uleb(a as nat).len() <= 5,
        uleb(a as nat).len() <= 10,
        sleb(x as int).len() <= 10,
        parse_u64(uleb(a as nat)) == Ok::<(u64, nat), DecodeError>((a, uleb(a as nat).len())),
        parse_i64(sleb(x as int)) == Ok::<(i64, nat), DecodeError>((x, sleb(x as int).len())),
        uleb(a as nat) == uleb(b as nat) <==> a == b,
        sleb(x as int) == sleb(y as int) <==> x == y,
{
    if a <= 0xFFFF_FFFF {
        lemma_u32_round_trip(a as u32, Seq::empty());
    }
    lemma_u64_round_trip(a, Seq::empty());
    lemma_i64_round_trip(x, Seq::empty());
    assert(uleb(a as nat) + Seq::<u8>::empty() =~= uleb(a as nat));
    assert(sleb(x as int) + Seq::<u8>::empty() =~= sleb(x as int));
    if uleb(a as nat) == uleb(b as nat) {
        lemma_uleb_injective(a as nat, b as nat);
    }
    if sleb(x as int) == sleb(y as int) {
        lemma_sleb_injective(x as int, y as int);
    }
}

} // verus!
