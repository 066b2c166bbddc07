//! Framing of the byte stream: each frame is a 4-byte little-endian length
//! followed by that many bytes of UTF-8 JSON.
use vstd::prelude::*;
use vstd::arithmetic::div_mod::lemma_fundamental_div_mod;

verus! {

broadcast use vstd::seq_lib::group_seq_properties;

/// The four little-endian bytes of a length below 2^32.
pub open spec fn le_bytes(n: nat) -> Seq<u8> {
    seq![
        (n % 256) as u8,
        (n / 256 % 256) as u8,
        (n / 256 / 256 % 256) as u8,
        (n / 256 / 256 / 256 % 256) as u8,
    ]
}

/// The length that four little-endian bytes stand for.
pub open spec fn le_value(b: Seq<u8>) -> nat {
    (b[0] + 256 * b[1] + 65536 * b[2] + 16777216 * b[3]) as nat
}

/// A frame on the wire.
pub open spec fn framed(body: Seq<u8>) -> Seq<u8> {
    le_bytes(body.len()) + body
}

/// Reading back the prefix of a length gives the length.
pub proof fn lemma_le_round_trip(n: nat)
    requires
        n < 0x1_0000_0000,
    ensures
        le_value(le_bytes(n)) == n,
{
    let q1 = n / 256;
    let q2 = q1 / 256;
    let q3 = q2 / 256;
    lemma_fundamental_div_mod(n as int, 256);
    lemma_fundamental_div_mod(q1 as int, 256);
    lemma_fundamental_div_mod(q2 as int, 256);
    assert(q3 < 256) by (nonlinear_arith)
        requires
            n < 0x1_0000_0000,
            q1 == n / 256,
            q2 == q1 / 256,
            q3 == q2 / 256,
    ;
}

/// The frame for `body`: its length prefix, then the body itself.
pub fn encode_frame(body: &Vec<u8>) -> (r: Vec<u8>)
    requires
        body@.len() < 0x1_0000_0000,
    ensures
        r@ == framed(body@),
{
    let n = body.len() as u64;
    let mut r: Vec<u8> = Vec::new();
    r.push((n % 256) as u8);
    r.push((n / 256 % 256) as u8);
    r.push((n / 256 / 256 % 256) as u8);
    r.push((n / 256 / 256 / 256 % 256) as u8);
    let mut i: usize = 0;
    while i < body.len()
        invariant
            i <= body@.len(),
            n == body@.len(),
            r@ == le_bytes(n as nat) + body@.take(i as int),
        decreases body@.len() - i,
    {
        r.push(body[i]);
        assert(body@.take(i + 1) =~= body@.take(i as int).push(body@[i as int]));
        i = i + 1;
    }
    assert(body@.take(i as int) =~= body@);
    r
}

/// Splits the incoming byte stream into frames.
#[derive(Debug)]
pub struct FrameReader {
    buf: Vec<u8>,
}

impl FrameReader {
    /// The bytes received and not yet handed out as frames.
    pub closed spec fn pending(&self) -> Seq<u8> {
        self.buf@
    }

    pub fn new() -> (r: FrameReader)
        ensures
            r.pending() == Seq::<u8>::empty(),
    {
        FrameReader { buf: Vec::new() }
    }

    /// Appends bytes read from the stream.
    pub fn feed(&mut self, bytes: &[u8])
        ensures
            final(self).pending() == old(self).pending() + bytes@,
    {
        let mut i: usize = 0;
        while i < bytes.len()
            invariant
                i <= bytes@.len(),
                self.buf@ == old(self).pending() + bytes@.take(i as int),
            decreases bytes@.len() - i,
        {
            self.buf.push(bytes[i]);
            assert(bytes@.take(i + 1) =~= bytes@.take(i as int).push(bytes@[i as int]));
            i = i + 1;
        }
        assert(bytes@.take(i as int) =~= bytes@);
    }

    /// Takes the next complete frame's body, if the pending bytes hold one;
    /// otherwise leaves them as they are.
    pub fn next_frame(&mut self) -> (r: Option<Vec<u8>>)
        ensures
            ({
                let p = old(self).pending();
                let complete = p.len() >= 4 && p.len() - 4 >= le_value(p.take(4));
                &&& r is Some <==> complete
                &&& !complete ==> final(self).pending() == p
                &&& complete ==> r->0@ == p.subrange(4, 4 + le_value(p.take(4)) as int)
                    && final(self).pending() == p.skip(4 + le_value(p.take(4)) as int)
            }),
    {
        let len = self.buf.len();
        if len < 4 {
            return None;
        }
        let n: u64 = self.buf[0] as u64 + 256 * (self.buf[1] as u64) + 65536 * (self.buf[2] as u64)
            + 16777216 * (self.buf[3] as u64);
        proof {
            assert(n == le_value(self.buf@.take(4)));
        }
        if ((len - 4) as u64) < n {
            return None;
        }
        let end = 4 + n as usize;
        let mut body: Vec<u8> = Vec::new();
        let mut i: usize = 4;
        while i < end
            invariant
                4 <= i <= end,
                end <= self.buf@.len(),
                body@ == self.buf@.subrange(4, i as int),
            decreases end - i,
        {
            body.push(self.buf[i]);
            assert(self.buf@.subrange(4, i + 1) =~= self.buf@.subrange(4, i as int).push(self.buf@[i as int]));
            i = i + 1;
        }
        let mut rest: Vec<u8> = Vec::new();
        let mut j: usize = end;
        while j < self.buf.len()
            invariant
                end <= j <= self.buf@.len(),
                rest@ == self.buf@.subrange(end as int, j as int),
            decreases self.buf@.len() - j,
        {
            rest.push(self.buf[j]);
            assert(self.buf@.subrange(end as int, j + 1) =~= self.buf@.subrange(end as int, j as int).push(
                self.buf@[j as int],
            ));
            j = j + 1;
        }
        assert(rest@ =~= self.buf@.skip(end as int));
        self.buf = rest;
        Some(body)
    }
}

/// A frame read back from a stream that held nothing else yields the body
/// that was framed, and leaves nothing pending.
pub proof fn lemma_frame_round_trip(body: Seq<u8>)
    requires
        body.len() < 0x1_0000_0000,
    ensures
        framed(body).take(4) == le_bytes(body.len()),
        le_value(framed(body).take(4)) == body.len(),
        framed(body).subrange(4, 4 + body.len() as int) == body,
        framed(body).skip(4 + body.len() as int) == Seq::<u8>::empty(),
{
    lemma_le_round_trip(body.len());
    assert(framed(body).take(4) =~= le_bytes(body.len()));
    assert(framed(body).subrange(4, 4 + body.len() as int) =~= body);
    assert(framed(body).skip(4 + body.len() as int) =~= Seq::<u8>::empty());
}

} // verus!
