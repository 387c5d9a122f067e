use vstd::prelude::*;

verus! {

/// The eight-byte identifier of a kind of message.
#[derive(Clone, Copy, Debug, PartialEq, Eq, PartialOrd, Ord, Hash)]
pub struct Key(pub [u8; 8]);

impl View for Key {
    type V = Seq<u8>;

    open spec fn view(&self) -> Seq<u8> {
        self.0@
    }
}

impl Key {
    /// Make a key from its eight bytes, as computed elsewhere.
    pub fn from_bytes(bytes: [u8; 8]) -> (r: Key)
        ensures
            r@ == bytes@,
    {
        Key(bytes)
    }

    /// Whether the two keys are the same eight bytes.
    pub fn same_as(&self, other: &Key) -> (r: bool)
        ensures
            r == (self@ == other@),
    {
        let mut i: usize = 0;
        while i < 8
            invariant
                i <= 8,
                self@.len() == 8,
                other@.len() == 8,
                forall|j: int| 0 <= j < i ==> self@[j] == other@[j],
            decreases 8 - i,
        {
            if self.0[i] != other.0[i] {
                return false;
            }
            i = i + 1;
        }
        assert(self@ =~= other@);
        true
    }

    /// The bytes making up this key.
    pub fn to_bytes(&self) -> (r: [u8; 8])
        ensures
            r@ == self@,
    {
        self.0
    }
}


/// The byte width at which keys travel on the wire.
#[derive(Clone, Copy, Debug, PartialEq, Eq, Structural)]
pub enum VarKeyKind {
    Key1,
    Key2,
    Key4,
    Key8,
}

impl VarKeyKind {
    pub open spec fn spec_width(self) -> nat {
        match self {
            VarKeyKind::Key1 => 1,
            VarKeyKind::Key2 => 2,
            VarKeyKind::Key4 => 4,
            VarKeyKind::Key8 => 8,
        }
    }

    /// Number of key bytes sent at this width.
    pub fn width(&self) -> (r: usize)
        ensures
            r == self.spec_width(),
    {
        match self {
            VarKeyKind::Key1 => 1,
            VarKeyKind::Key2 => 2,
            VarKeyKind::Key4 => 4,
            VarKeyKind::Key8 => 8,
        }
    }

    /// The narrower of two widths.
    pub fn narrowest(self, other: VarKeyKind) -> (r: VarKeyKind)
        ensures
            r.spec_width() == if self.spec_width() <= other.spec_width() {
                self.spec_width()
            } else {
                other.spec_width()
            },
            r == self || r == other,
    {
        if self.width() <= other.width() {
            self
        } else {
            other
        }
    }
}

/// A key together with the width it is carried at: the first bytes of the
/// full eight-byte key.
#[derive(Clone, Copy, Debug, PartialEq, Eq)]
pub enum VarKey {
    Key1([u8; 1]),
    Key2([u8; 2]),
    Key4([u8; 4]),
    Key8(Key),
}

/// Two keys match when they agree on the bytes that both carry.
pub open spec fn keys_match(a: Seq<u8>, b: Seq<u8>) -> bool {
    let n = if a.len() <= b.len() { a.len() } else { b.len() };
    a.take(n as int) == b.take(n as int)
}

impl View for VarKey {
    type V = Seq<u8>;

    open spec fn view(&self) -> Seq<u8> {
        match self {
            VarKey::Key1(b) => b@,
            VarKey::Key2(b) => b@,
            VarKey::Key4(b) => b@,
            VarKey::Key8(k) => k@,
        }
    }
}

impl VarKey {
    pub open spec fn spec_kind(&self) -> VarKeyKind {
        match self {
            VarKey::Key1(_) => VarKeyKind::Key1,
            VarKey::Key2(_) => VarKeyKind::Key2,
            VarKey::Key4(_) => VarKeyKind::Key4,
            VarKey::Key8(_) => VarKeyKind::Key8,
        }
    }

    pub proof fn lemma_len(&self)
        ensures
            self@.len() == self.spec_kind().spec_width(),
    {
    }

    /// The width this key is carried at.
    pub fn kind(&self) -> (r: VarKeyKind)
        ensures
            r == self.spec_kind(),
    {
        match self {
            VarKey::Key1(_) => VarKeyKind::Key1,
            VarKey::Key2(_) => VarKeyKind::Key2,
            VarKey::Key4(_) => VarKeyKind::Key4,
            VarKey::Key8(_) => VarKeyKind::Key8,
        }
    }

    /// The byte at position `i`.
    pub fn byte(&self, i: usize) -> (r: u8)
        requires
            i < self@.len(),
        ensures
            r == self@[i as int],
    {
        match self {
            VarKey::Key1(b) => b[i],
            VarKey::Key2(b) => b[i],
            VarKey::Key4(b) => b[i],
            VarKey::Key8(k) => k.0[i],
        }
    }

    /// This key carried at width `kind`, or at its own width where that is
    /// already narrower.
    pub fn shrunk(&self, kind: VarKeyKind) -> (r: VarKey)
        ensures
            r.spec_kind() == self.spec_kind().narrowest_spec(kind),
            r@ == self@.take(r@.len() as int),
    {
        let n = self.kind().narrowest(kind);
        proof {
            self.lemma_len();
        }
        match n {
            VarKeyKind::Key1 => {
                let r = VarKey::Key1([self.byte(0)]);
                assert(r@ =~= self@.take(1));
                r
            },
            VarKeyKind::Key2 => {
                let r = VarKey::Key2([self.byte(0), self.byte(1)]);
                assert(r@ =~= self@.take(2));
                r
            },
            VarKeyKind::Key4 => {
                let r = VarKey::Key4([self.byte(0), self.byte(1), self.byte(2), self.byte(3)]);
                assert(r@ =~= self@.take(4));
                r
            },
            VarKeyKind::Key8 => {
                assert(self@ =~= self@.take(8));
                *self
            },
        }
    }

    /// Narrow this key in place to `kind`; a key already narrower is kept.
    pub fn shrink_to(&mut self, kind: VarKeyKind)
        ensures
            final(self).spec_kind() == old(self).spec_kind().narrowest_spec(kind),
            final(self)@ == old(self)@.take(final(self)@.len() as int),
    {
        *self = self.shrunk(kind);
    }

    /// Whether the two keys agree on the bytes both carry.
    pub fn matches(&self, other: &VarKey) -> (r: bool)
        ensures
            r == keys_match(self@, other@),
    {
        proof {
            self.lemma_len();
            other.lemma_len();
        }
        let a = self.kind().width();
        let b = other.kind().width();
        let n = if a <= b { a } else { b };
        let mut i: usize = 0;
        while i < n
            invariant
                i <= n,
                n <= self@.len(),
                n <= other@.len(),
                n == if self@.len() <= other@.len() { self@.len() } else { other@.len() },
                forall|j: int| 0 <= j < i ==> self@[j] == other@[j],
            decreases n - i,
        {
            if self.byte(i) != other.byte(i) {
                assert(self@.take(n as int)[i as int] != other@.take(n as int)[i as int]);
                return false;
            }
            i = i + 1;
        }
        assert(self@.take(n as int) =~= other@.take(n as int));
        true
    }
}

impl VarKeyKind {
    pub open spec fn narrowest_spec(self, other: VarKeyKind) -> VarKeyKind {
        if self.spec_width() <= other.spec_width() {
            self
        } else {
            other
        }
    }
}


/// The byte width at which sequence numbers travel on the wire.
#[derive(Clone, Copy, Debug, PartialEq, Eq, Structural)]
pub enum VarSeqKind {
    Seq1,
    Seq2,
    Seq4,
}

impl VarSeqKind {
    pub open spec fn spec_width(self) -> nat {
        match self {
            VarSeqKind::Seq1 => 1,
            VarSeqKind::Seq2 => 2,
            VarSeqKind::Seq4 => 4,
        }
    }

    /// One more than the largest number that fits this width.
    pub open spec fn modulus(self) -> nat {
        match self {
            VarSeqKind::Seq1 => 0x100,
            VarSeqKind::Seq2 => 0x1_0000,
            VarSeqKind::Seq4 => 0x1_0000_0000,
        }
    }

    pub open spec fn narrowest_spec(self, other: VarSeqKind) -> VarSeqKind {
        if self.spec_width() <= other.spec_width() {
            self
        } else {
            other
        }
    }
}

/// A sequence number together with the width it is carried at.
#[derive(Clone, Copy, Debug, PartialEq, Eq, Structural)]
pub enum VarSeq {
    Seq1(u8),
    Seq2(u16),
    Seq4(u32),
}

/// Two sequence numbers match when they agree at the narrower of their
/// widths.
pub open spec fn seqs_match(a: VarSeq, b: VarSeq) -> bool {
    let m = a.spec_kind().narrowest_spec(b.spec_kind()).modulus();
    a.value() % m == b.value() % m
}

impl VarSeq {
    pub open spec fn value(self) -> nat {
        match self {
            VarSeq::Seq1(n) => n as nat,
            VarSeq::Seq2(n) => n as nat,
            VarSeq::Seq4(n) => n as nat,
        }
    }

    pub open spec fn spec_kind(self) -> VarSeqKind {
        match self {
            VarSeq::Seq1(_) => VarSeqKind::Seq1,
            VarSeq::Seq2(_) => VarSeqKind::Seq2,
            VarSeq::Seq4(_) => VarSeqKind::Seq4,
        }
    }

    /// The width this sequence number is carried at.
    pub fn kind(&self) -> (r: VarSeqKind)
        ensures
            r == self.spec_kind(),
    {
        match self {
            VarSeq::Seq1(_) => VarSeqKind::Seq1,
            VarSeq::Seq2(_) => VarSeqKind::Seq2,
            VarSeq::Seq4(_) => VarSeqKind::Seq4,
        }
    }

    /// The number itself.
    pub fn as_u32(&self) -> (r: u32)
        ensures
            r == self.value(),
            self.value() < self.spec_kind().modulus(),
    {
        match self {
            VarSeq::Seq1(n) => *n as u32,
            VarSeq::Seq2(n) => *n as u32,
            VarSeq::Seq4(n) => *n,
        }
    }

    /// This sequence number carried at width `kind`: cut to its low bytes
    /// when narrower, kept whole when wider.
    pub fn resized(&self, kind: VarSeqKind) -> (r: VarSeq)
        ensures
            r.spec_kind() == kind,
            r.value() == self.value() % kind.modulus(),
    {
        let n = self.as_u32();
        match kind {
            VarSeqKind::Seq1 => VarSeq::Seq1((n % 0x100) as u8),
            VarSeqKind::Seq2 => VarSeq::Seq2((n % 0x1_0000) as u16),
            VarSeqKind::Seq4 => VarSeq::Seq4(n),
        }
    }

    /// Carry this sequence number at width `kind` from now on.
    pub fn resize(&mut self, kind: VarSeqKind)
        ensures
            final(self).spec_kind() == kind,
            final(self).value() == old(self).value() % kind.modulus(),
    {
        *self = self.resized(kind);
    }

    /// Whether the two numbers agree at the narrower of their widths.
    pub fn matches(&self, other: &VarSeq) -> (r: bool)
        ensures
            r == seqs_match(*self, *other),
    {
        let a = self.as_u32();
        let b = other.as_u32();
        match (self.kind(), other.kind()) {
            (VarSeqKind::Seq1, _) | (_, VarSeqKind::Seq1) => a % 0x100 == b % 0x100,
            (VarSeqKind::Seq2, _) | (_, VarSeqKind::Seq2) => a % 0x1_0000 == b % 0x1_0000,
            _ => {
                assert(self.value() % 0x1_0000_0000 == self.value()) by (nonlinear_arith)
                    requires self.value() < 0x1_0000_0000;
                assert(other.value() % 0x1_0000_0000 == other.value()) by (nonlinear_arith)
                    requires other.value() < 0x1_0000_0000;
                a == b
            },
        }
    }
}

/// The header of a frame: what it is, and which request it belongs to.
#[derive(Clone, Copy, Debug, PartialEq, Eq)]
pub struct VarHeader {
    pub key: VarKey,
    pub seq_no: VarSeq,
}

/// Two headers name the same exchange when keys and sequence numbers both
/// match once brought to a common width.
pub open spec fn headers_match(a: VarHeader, b: VarHeader) -> bool {
    keys_match(a.key@, b.key@) && seqs_match(a.seq_no, b.seq_no)
}

impl VarHeader {
    /// Whether the two headers name the same exchange.
    pub fn matches(&self, other: &VarHeader) -> (r: bool)
        ensures
            r == headers_match(*self, *other),
    {
        self.key.matches(&other.key) && self.seq_no.matches(&other.seq_no)
    }
}

/// A header at full width: the whole key and a four-byte sequence number.
#[derive(Clone, Copy, Debug, PartialEq, Eq)]
pub struct WireHeader {
    pub key: Key,
    pub seq_no: u32,
}

impl WireHeader {
    /// The same header as a variable-width one, at full width.
    pub fn to_var(&self) -> (r: VarHeader)
        ensures
            r.key == VarKey::Key8(self.key),
            r.seq_no == VarSeq::Seq4(self.seq_no),
    {
        VarHeader { key: VarKey::Key8(self.key), seq_no: VarSeq::Seq4(self.seq_no) }
    }
}

} // verus!
