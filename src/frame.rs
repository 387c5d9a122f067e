use vstd::prelude::*;

use crate::key::{Key, VarHeader, VarKey, VarKeyKind, VarSeq, VarSeqKind};

verus! {

/// A single frame: a header and the serialized message payload.
#[derive(Debug)]
pub struct RpcFrame {
    pub header: VarHeader,
    pub body: Vec<u8>,
}

pub open spec fn key_code(k: VarKeyKind) -> nat {
    match k {
        VarKeyKind::Key1 => 0,
        VarKeyKind::Key2 => 1,
        VarKeyKind::Key4 => 2,
        VarKeyKind::Key8 => 3,
    }
}

pub open spec fn seq_code(s: VarSeqKind) -> nat {
    match s {
        VarSeqKind::Seq1 => 0,
        VarSeqKind::Seq2 => 1,
        VarSeqKind::Seq4 => 2,
    }
}

/// The first byte of a header: the key width in the top two bits, the
/// sequence width in the next two, and a zero version in the low four.
pub open spec fn lead_byte(h: VarHeader) -> u8 {
    (key_code(h.key.spec_kind()) * 64 + seq_code(h.seq_no.spec_kind()) * 16) as u8
}

/// A sequence number as little-endian bytes of its own width.
pub open spec fn seq_bytes(s: VarSeq) -> Seq<u8> {
    match s {
        VarSeq::Seq1(n) => seq![n],
        VarSeq::Seq2(n) => seq![(n & 0xff) as u8, (n >> 8u16) as u8],
        VarSeq::Seq4(n) => seq![
            (n & 0xff) as u8,
            ((n >> 8u32) & 0xff) as u8,
            ((n >> 16u32) & 0xff) as u8,
            (n >> 24u32) as u8,
        ],
    }
}

/// The bytes of a header: lead byte, key bytes, sequence bytes.
pub open spec fn header_bytes(h: VarHeader) -> Seq<u8> {
    seq![lead_byte(h)] + h.key@ + seq_bytes(h.seq_no)
}

/// The bytes of a whole frame: its header followed by its body.
pub open spec fn frame_bytes(h: VarHeader, body: Seq<u8>) -> Seq<u8> {
    header_bytes(h) + body
}

pub open spec fn lead_key_width(b: u8) -> nat {
    let c = b / 64;
    if c == 0 { 1 } else if c == 1 { 2 } else if c == 2 { 4 } else { 8 }
}

pub open spec fn lead_seq_width(b: u8) -> nat {
    let c = (b / 16) % 4;
    if c == 0 { 1 } else if c == 1 { 2 } else { 4 }
}

/// Whether `bytes` starts with a header this format can read.
pub open spec fn frame_readable(bytes: Seq<u8>) -> bool {
    &&& bytes.len() >= 1
    &&& bytes[0] % 16 == 0
    &&& (bytes[0] / 16) % 4 != 3
    &&& bytes.len() >= 1 + lead_key_width(bytes[0]) + lead_seq_width(bytes[0])
}

proof fn lemma_seq_bytes_injective(a: VarSeq, b: VarSeq)
    requires
        a.spec_kind() == b.spec_kind(),
        seq_bytes(a) == seq_bytes(b),
    ensures
        a == b,
{
    match (a, b) {
        (VarSeq::Seq1(x), VarSeq::Seq1(y)) => {
            assert(seq_bytes(a)[0] == x);
            assert(seq_bytes(b)[0] == y);
        },
        (VarSeq::Seq2(x), VarSeq::Seq2(y)) => {
            assert(seq_bytes(a)[0] == seq_bytes(b)[0]);
            assert(seq_bytes(a)[1] == seq_bytes(b)[1]);
            assert(x == y) by (bit_vector)
                requires
                    (x & 0xff) as u8 == (y & 0xff) as u8,
                    (x >> 8u16) as u8 == (y >> 8u16) as u8,
            ;
        },
        (VarSeq::Seq4(x), VarSeq::Seq4(y)) => {
            assert(seq_bytes(a)[0] == seq_bytes(b)[0]);
            assert(seq_bytes(a)[1] == seq_bytes(b)[1]);
            assert(seq_bytes(a)[2] == seq_bytes(b)[2]);
            assert(seq_bytes(a)[3] == seq_bytes(b)[3]);
            assert(x == y) by (bit_vector)
                requires
                    (x & 0xff) as u8 == (y & 0xff) as u8,
                    ((x >> 8u32) & 0xff) as u8 == ((y >> 8u32) & 0xff) as u8,
                    ((x >> 16u32) & 0xff) as u8 == ((y >> 16u32) & 0xff) as u8,
                    (x >> 24u32) as u8 == (y >> 24u32) as u8,
            ;
        },
        _ => {
            assert(false);
        },
    }
}

/// A frame written out is readable, and reading it gives back the same
/// header (key width, key bytes, sequence number) and the same body: no two
/// different frames share a wire form.
pub proof fn lemma_frame_round_trip(h: VarHeader, body: Seq<u8>, h2: VarHeader, body2: Seq<u8>)
    ensures
        frame_readable(frame_bytes(h, body)),
        frame_bytes(h2, body2) == frame_bytes(h, body) ==> {
            &&& h2.key.spec_kind() == h.key.spec_kind()
            &&& h2.key@ == h.key@
            &&& h2.seq_no == h.seq_no
            &&& body2 == body
        },
{
    h.key.lemma_len();
    h2.key.lemma_len();
    let bs = frame_bytes(h, body);
    assert(bs[0] == lead_byte(h));
    if frame_bytes(h2, body2) == bs {
        assert(frame_bytes(h2, body2)[0] == lead_byte(h2));
        assert(key_code(h2.key.spec_kind()) == key_code(h.key.spec_kind()));
        assert(seq_code(h2.seq_no.spec_kind()) == seq_code(h.seq_no.spec_kind()));
        assert(h2.key.spec_kind() == h.key.spec_kind());
        assert(h2.seq_no.spec_kind() == h.seq_no.spec_kind());
        let kw = h.key@.len() as int;
        let sw = seq_bytes(h.seq_no).len() as int;
        assert(seq_bytes(h2.seq_no).len() == sw);
        assert(h2.key@ =~= bs.subrange(1, 1 + kw));
        assert(h.key@ =~= bs.subrange(1, 1 + kw));
        assert(seq_bytes(h2.seq_no) =~= bs.subrange(1 + kw, 1 + kw + sw));
        assert(seq_bytes(h.seq_no) =~= bs.subrange(1 + kw, 1 + kw + sw));
        lemma_seq_bytes_injective(h.seq_no, h2.seq_no);
        assert(body2 =~= bs.subrange(1 + kw + sw, bs.len() as int));
        assert(body =~= bs.subrange(1 + kw + sw, bs.len() as int));
    }
}

impl VarHeader {
    /// The header in its wire form.
    pub fn write_to_vec(&self) -> (r: Vec<u8>)
        ensures
            r@ == header_bytes(*self),
    {
        let kc: u8 = match self.key.kind() {
            VarKeyKind::Key1 => 0,
            VarKeyKind::Key2 => 1,
            VarKeyKind::Key4 => 2,
            VarKeyKind::Key8 => 3,
        };
        let sc: u8 = match self.seq_no.kind() {
            VarSeqKind::Seq1 => 0,
            VarSeqKind::Seq2 => 1,
            VarSeqKind::Seq4 => 2,
        };
        let mut out: Vec<u8> = Vec::new();
        out.push(kc * 64 + sc * 16);
        let w = self.key.kind().width();
        proof {
            self.key.lemma_len();
        }
        let mut i: usize = 0;
        while i < w
            invariant
                i <= w,
                w == self.key@.len(),
                out@ == seq![lead_byte(*self)] + self.key@.take(i as int),
            decreases w - i,
        {
            out.push(self.key.byte(i));
            assert(self.key@.take(i as int + 1) =~= self.key@.take(i as int).push(self.key@[i as int]));
            i = i + 1;
        }
        assert(self.key@.take(w as int) =~= self.key@);
        match self.seq_no {
            VarSeq::Seq1(n) => {
                out.push(n);
            },
            VarSeq::Seq2(n) => {
                out.push((n & 0xff) as u8);
                out.push((n >> 8u16) as u8);
            },
            VarSeq::Seq4(n) => {
                out.push((n & 0xff) as u8);
                out.push(((n >> 8u32) & 0xff) as u8);
                out.push(((n >> 16u32) & 0xff) as u8);
                out.push((n >> 24u32) as u8);
            },
        }
        assert(out@ =~= header_bytes(*self));
        out
    }
}

impl RpcFrame {
    /// Read a frame back from its wire form; `None` where the bytes do not
    /// start with a readable header.
    pub fn from_bytes(bytes: &[u8]) -> (r: Option<RpcFrame>)
        ensures
            r.is_some() == frame_readable(bytes@),
            r matches Some(f) ==> frame_bytes(f.header, f.body@) == bytes@,
    {
        if bytes.len() < 1 {
            return None;
        }
        let lead = bytes[0];
        if lead % 16 != 0 || (lead / 16) % 4 == 3 {
            return None;
        }
        let kw: usize = if lead / 64 == 0 { 1 } else if lead / 64 == 1 { 2 } else if lead / 64 == 2 { 4 } else { 8 };
        let sw: usize = if (lead / 16) % 4 == 0 { 1 } else if (lead / 16) % 4 == 1 { 2 } else { 4 };
        if bytes.len() < 1 + kw + sw {
            return None;
        }
        let b = bytes;
        let key = if kw == 1 {
            VarKey::Key1([b[1]])
        } else if kw == 2 {
            VarKey::Key2([b[1], b[2]])
        } else if kw == 4 {
            VarKey::Key4([b[1], b[2], b[3], b[4]])
        } else {
            VarKey::Key8(Key([b[1], b[2], b[3], b[4], b[5], b[6], b[7], b[8]]))
        };
        assert(key@ =~= bytes@.subrange(1, 1 + kw as int));
        let s = 1 + kw;
        let seq_no = if sw == 1 {
            VarSeq::Seq1(b[s])
        } else if sw == 2 {
            let (b0, b1) = (b[s], b[s + 1]);
            let n: u16 = (b0 as u16) | ((b1 as u16) << 8u16);
            assert((n & 0xff) as u8 == b0 && (n >> 8u16) as u8 == b1) by (bit_vector)
                requires n == (b0 as u16) | ((b1 as u16) << 8u16);
            VarSeq::Seq2(n)
        } else {
            let (b0, b1, b2, b3) = (b[s], b[s + 1], b[s + 2], b[s + 3]);
            let n: u32 = (b0 as u32) | ((b1 as u32) << 8u32) | ((b2 as u32) << 16u32) | ((b3 as u32) << 24u32);
            assert((n & 0xff) as u8 == b0 && ((n >> 8u32) & 0xff) as u8 == b1
                && ((n >> 16u32) & 0xff) as u8 == b2 && (n >> 24u32) as u8 == b3) by (bit_vector)
                requires n == (b0 as u32) | ((b1 as u32) << 8u32) | ((b2 as u32) << 16u32) | ((b3 as u32) << 24u32);
            VarSeq::Seq4(n)
        };
        assert(seq_bytes(seq_no) =~= bytes@.subrange(s as int, (s + sw) as int));
        let header = VarHeader { key, seq_no };
        assert(lead_byte(header) == lead) by {
            assert(lead % 16 == 0);
        }
        let mut body: Vec<u8> = Vec::new();
        let mut i: usize = s + sw;
        while i < bytes.len()
            invariant
                s + sw <= i <= bytes@.len(),
                body@ == bytes@.subrange((s + sw) as int, i as int),
            decreases bytes@.len() - i,
        {
            body.push(bytes[i]);
            assert(bytes@.subrange((s + sw) as int, i as int + 1)
                =~= bytes@.subrange((s + sw) as int, i as int).push(bytes@[i as int]));
            i = i + 1;
        }
        assert(frame_bytes(header, body@) =~= bytes@);
        Some(RpcFrame { header, body })
    }

    /// The frame in its wire form: header bytes, then the body.
    pub fn to_bytes(&self) -> (r: Vec<u8>)
        ensures
            r@ == frame_bytes(self.header, self.body@),
    {
        let mut out = self.header.write_to_vec();
        let mut i: usize = 0;
        while i < self.body.len()
            invariant
                i <= self.body@.len(),
                out@ == header_bytes(self.header) + self.body@.take(i as int),
            decreases self.body@.len() - i,
        {
            out.push(self.body[i]);
            assert(self.body@.take(i as int + 1) =~= self.body@.take(i as int).push(self.body@[i as int]));
            i = i + 1;
        }
        assert(self.body@.take(i as int) =~= self.body@);
        out
    }
}

} // verus!
