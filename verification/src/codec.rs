//! Byte encodings: little-endian `u32` length prefixes, big-endian `u64`
//! fields, and length-delimited frames.

use vstd::prelude::*;

verus! {

/// The little-endian `u32` stored at `b[i..i + 4]`.
pub open spec fn le_u32_at(b: Seq<u8>, i: int) -> int {
    (b[i] as int) + (b[i + 1] as int) * 0x100 + (b[i + 2] as int) * 0x1_0000 + (b[i + 3] as int)
        * 0x100_0000
}

/// The big-endian `u64` stored at `b[i..i + 8]`.
pub open spec fn be_u64_at(b: Seq<u8>, i: int) -> nat {
    b[i] as nat * 0x100_0000_0000_0000 + b[i + 1] as nat * 0x1_0000_0000_0000 + b[i + 2] as nat
        * 0x100_0000_0000 + b[i + 3] as nat * 0x1_0000_0000 + b[i + 4] as nat * 0x100_0000
        + b[i + 5] as nat * 0x1_0000 + b[i + 6] as nat * 0x100 + b[i + 7] as nat
}

/// `u32::to_le_bytes`.
pub open spec fn u32_le_bytes(x: u32) -> Seq<u8> {
    seq![(x & 0xff) as u8, ((x >> 8u32) & 0xff) as u8, ((x >> 16u32) & 0xff) as u8, ((x >> 24u32) & 0xff) as u8]
}

/// `u64::to_be_bytes`.
pub open spec fn u64_be_bytes(x: u64) -> Seq<u8> {
    seq![
        ((x >> 56u64) & 0xff) as u8,
        ((x >> 48u64) & 0xff) as u8,
        ((x >> 40u64) & 0xff) as u8,
        ((x >> 32u64) & 0xff) as u8,
        ((x >> 24u64) & 0xff) as u8,
        ((x >> 16u64) & 0xff) as u8,
        ((x >> 8u64) & 0xff) as u8,
        (x & 0xff) as u8,
    ]
}

pub proof fn lemma_le_u32_roundtrip(x: u32)
    ensures
        le_u32_at(u32_le_bytes(x), 0) == x,
{
    let b = u32_le_bytes(x);
    let (b0, b1, b2, b3) = (b[0], b[1], b[2], b[3]);
    assert(b0 as u32 + b1 as u32 * 0x100 + b2 as u32 * 0x1_0000 + b3 as u32 * 0x100_0000 == x) by (bit_vector)
        requires
            b0 == (x & 0xff) as u8,
            b1 == ((x >> 8u32) & 0xff) as u8,
            b2 == ((x >> 16u32) & 0xff) as u8,
            b3 == ((x >> 24u32) & 0xff) as u8,
    ;
}

pub proof fn lemma_be_u64_roundtrip(x: u64)
    ensures
        be_u64_at(u64_be_bytes(x), 0) == x,
{
    let b = u64_be_bytes(x);
    let (b0, b1, b2, b3, b4, b5, b6, b7) = (b[0], b[1], b[2], b[3], b[4], b[5], b[6], b[7]);
    assert(b0 as u64 * 0x100_0000_0000_0000 + b1 as u64 * 0x1_0000_0000_0000 + b2 as u64 * 0x100_0000_0000
        + b3 as u64 * 0x1_0000_0000 + b4 as u64 * 0x100_0000 + b5 as u64 * 0x1_0000 + b6 as u64 * 0x100
        + b7 as u64 == x) by (bit_vector)
        requires
            b0 == ((x >> 56u64) & 0xff) as u8,
            b1 == ((x >> 48u64) & 0xff) as u8,
            b2 == ((x >> 40u64) & 0xff) as u8,
            b3 == ((x >> 32u64) & 0xff) as u8,
            b4 == ((x >> 24u64) & 0xff) as u8,
            b5 == ((x >> 16u64) & 0xff) as u8,
            b6 == ((x >> 8u64) & 0xff) as u8,
            b7 == (x & 0xff) as u8,
    ;
}

/// Reads the little-endian `u32` at `b[i..i + 4]`.
pub fn read_u32_le(b: &[u8], i: usize) -> (r: u32)
    requires
        i + 4 <= b@.len(),
    ensures
        r == le_u32_at(b@, i as int),
{
    let r = b[i] as u32 | (b[i + 1] as u32) << 8u32 | (b[i + 2] as u32) << 16u32 | (b[i + 3] as u32)
        << 24u32;
    let (b0, b1, b2, b3) = (b[i], b[i + 1], b[i + 2], b[i + 3]);
    assert(r == b0 as u32 | (b1 as u32) << 8u32 | (b2 as u32) << 16u32 | (b3 as u32) << 24u32);
    assert(b0 as u32 | (b1 as u32) << 8u32 | (b2 as u32) << 16u32 | (b3 as u32) << 24u32 == b0 as u32
        + b1 as u32 * 0x100 + b2 as u32 * 0x1_0000 + b3 as u32 * 0x100_0000) by (bit_vector);
    r
}

/// Reads the big-endian `u64` at `b[i..i + 8]`.
pub fn read_u64_be(b: &[u8], i: usize) -> (r: u64)
    requires
        i + 8 <= b@.len(),
    ensures
        r == be_u64_at(b@, i as int),
{
    let (b0, b1, b2, b3) = (b[i], b[i + 1], b[i + 2], b[i + 3]);
    let (b4, b5, b6, b7) = (b[i + 4], b[i + 5], b[i + 6], b[i + 7]);
    let r = (b0 as u64) << 56u64 | (b1 as u64) << 48u64 | (b2 as u64) << 40u64 | (b3 as u64) << 32u64
        | (b4 as u64) << 24u64 | (b5 as u64) << 16u64 | (b6 as u64) << 8u64 | b7 as u64;
    assert((b0 as u64) << 56u64 | (b1 as u64) << 48u64 | (b2 as u64) << 40u64 | (b3 as u64) << 32u64
        | (b4 as u64) << 24u64 | (b5 as u64) << 16u64 | (b6 as u64) << 8u64 | b7 as u64 == b0 as u64
        * 0x100_0000_0000_0000 + b1 as u64 * 0x1_0000_0000_0000 + b2 as u64 * 0x100_0000_0000 + b3 as u64
        * 0x1_0000_0000 + b4 as u64 * 0x100_0000 + b5 as u64 * 0x1_0000 + b6 as u64 * 0x100 + b7 as u64)
        by (bit_vector);
    r
}

/// `u32::to_le_bytes`.
pub fn u32_to_le(x: u32) -> (r: [u8; 4])
    ensures
        r@ == u32_le_bytes(x),
{
    let r = [(x & 0xff) as u8, ((x >> 8u32) & 0xff) as u8, ((x >> 16u32) & 0xff) as u8, ((x >> 24u32) & 0xff) as u8];
    assert(r@ =~= u32_le_bytes(x));
    r
}

/// Appends `u64::to_be_bytes(x)`.
pub fn push_u64_be(v: &mut Vec<u8>, x: u64)
    ensures
        final(v)@ == old(v)@ + u64_be_bytes(x),
{
    v.push(((x >> 56u64) & 0xff) as u8);
    v.push(((x >> 48u64) & 0xff) as u8);
    v.push(((x >> 40u64) & 0xff) as u8);
    v.push(((x >> 32u64) & 0xff) as u8);
    v.push(((x >> 24u64) & 0xff) as u8);
    v.push(((x >> 16u64) & 0xff) as u8);
    v.push(((x >> 8u64) & 0xff) as u8);
    v.push((x & 0xff) as u8);
    assert(v@ =~= old(v)@ + u64_be_bytes(x));
}


// ---------------------------------------------------------------------------
// length-delimited frames
// ---------------------------------------------------------------------------

/// One frame: the little-endian `u32` length, then the bytes.
pub open spec fn frame(d: Seq<u8>) -> Seq<u8> {
    u32_le_bytes(d.len() as u32) + d
}

/// The frames of `items`, one after another.
pub open spec fn encode_frames(items: Seq<Seq<u8>>) -> Seq<u8>
    decreases items.len(),
{
    if items.len() == 0 {
        Seq::empty()
    } else {
        frame(items[0]) + encode_frames(items.drop_first())
    }
}

/// Reading frames until the bytes run out: `None` when the bytes end inside
/// a length prefix or inside a frame (where a reader would fail).
pub open spec fn parse_frames(b: Seq<u8>) -> Option<Seq<Seq<u8>>>
    decreases b.len(),
{
    if b.len() == 0 {
        Some(Seq::empty())
    } else if b.len() < 4 {
        None
    } else {
        let n = le_u32_at(b, 0);
        if 4 + n > b.len() {
            None
        } else {
            match parse_frames(b.subrange(4 + n, b.len() as int)) {
                Some(rest) => Some(seq![b.subrange(4, 4 + n)] + rest),
                None => None,
            }
        }
    }
}

pub open spec fn frames_fit(items: Seq<Seq<u8>>) -> bool {
    forall|i: int| 0 <= i < items.len() ==> (#[trigger] items[i]).len() <= u32::MAX
}

pub proof fn lemma_encode_frames_push(items: Seq<Seq<u8>>, x: Seq<u8>)
    ensures
        encode_frames(items.push(x)) == encode_frames(items) + frame(x),
    decreases items.len(),
{
    if items.len() == 0 {
        let p = items.push(x);
        assert(p.drop_first() =~= Seq::<Seq<u8>>::empty());
        assert(p[0] == x);
        assert(encode_frames(p.drop_first()) == Seq::<u8>::empty());
        assert(encode_frames(p) == frame(x) + Seq::<u8>::empty());
        assert(encode_frames(items) == Seq::<u8>::empty());
        assert(encode_frames(p) =~= encode_frames(items) + frame(x));
    } else {
        let rest = items.drop_first();
        lemma_encode_frames_push(rest, x);
        assert(items.push(x).drop_first() =~= rest.push(x));
        assert(items.push(x)[0] == items[0]);
        let a = frame(items[0]);
        let b = encode_frames(rest);
        let c = frame(x);
        assert(encode_frames(items.push(x)) == a + (b + c));
        assert(encode_frames(items) == a + b);
        assert(a + (b + c) =~= (a + b) + c);
    }
}

/// Reading a frame in front of `tail` gives its bytes, then what `tail` gives.
proof fn lemma_parse_frame_prefix(d: Seq<u8>, tail: Seq<u8>)
    requires
        d.len() <= u32::MAX,
    ensures
        parse_frames(frame(d) + tail) == (match parse_frames(tail) {
            Some(rest) => Some(seq![d] + rest),
            None => None::<Seq<Seq<u8>>>,
        }),
{
    let b = frame(d) + tail;
    lemma_le_u32_roundtrip(d.len() as u32);
    assert(b.subrange(0, 4) =~= u32_le_bytes(d.len() as u32));
    assert(b[0] == u32_le_bytes(d.len() as u32)[0]);
    assert(b[1] == u32_le_bytes(d.len() as u32)[1]);
    assert(b[2] == u32_le_bytes(d.len() as u32)[2]);
    assert(b[3] == u32_le_bytes(d.len() as u32)[3]);
    assert(le_u32_at(b, 0) == d.len());
    assert(b.subrange(4, 4 + d.len() as int) =~= d);
    assert(b.subrange(4 + d.len() as int, b.len() as int) =~= tail);
}

proof fn lemma_frames_fit_rest(items: Seq<Seq<u8>>)
    requires
        frames_fit(items),
        items.len() > 0,
    ensures
        frames_fit(items.drop_first()),
        items[0].len() <= u32::MAX,
{
    let rest = items.drop_first();
    assert forall|i: int| 0 <= i < rest.len() implies (#[trigger] rest[i]).len() <= u32::MAX by {
        assert(rest[i] == items[i + 1]);
    }
}

/// Law: frames written one after another read back as the same items.
pub proof fn law_frames_roundtrip(items: Seq<Seq<u8>>)
    requires
        frames_fit(items),
    ensures
        parse_frames(encode_frames(items)) == Some(items),
    decreases items.len(),
{
    if items.len() > 0 {
        let d = items[0];
        let rest = items.drop_first();
        lemma_frames_fit_rest(items);
        law_frames_roundtrip(rest);
        let tail = encode_frames(rest);
        assert(encode_frames(items) == frame(d) + tail);
        lemma_parse_frame_prefix(d, tail);
        assert(parse_frames(tail) == Some(rest));
        assert(seq![d] + rest =~= items);
    } else {
        assert(encode_frames(items) =~= Seq::<u8>::empty());
        assert(items =~= Seq::<Seq<u8>>::empty());
    }
}

/// Copies `b[lo..hi]`.
pub fn copy_range(b: &[u8], lo: usize, hi: usize) -> (r: Vec<u8>)
    requires
        lo <= hi <= b@.len(),
    ensures
        r@ == b@.subrange(lo as int, hi as int),
{
    let mut r: Vec<u8> = Vec::new();
    let mut i = lo;
    while i < hi
        invariant
            lo <= i <= hi <= b@.len(),
            r@ == b@.subrange(lo as int, i as int),
        decreases hi - i,
    {
        r.push(b[i]);
        assert(r@ =~= b@.subrange(lo as int, i + 1));
        i = i + 1;
    }
    r
}

/// Collects bytes into length-delimited frames.
pub struct LengthDelimitedWriter {
    pub buf: Vec<u8>,
}

impl LengthDelimitedWriter {
    /// An empty writer.
    pub fn new() -> (w: Self)
        ensures
            w.buf@ == Seq::<u8>::empty(),
    {
        LengthDelimitedWriter { buf: Vec::new() }
    }

    /// Appends one frame holding `data`.
    pub fn send(&mut self, data: &[u8])
        ensures
            final(self).buf@ == old(self).buf@ + frame(data@),
    {
        let len = data.len() as u32;
        let lb = u32_to_le(len);
        self.buf.push(lb[0]);
        self.buf.push(lb[1]);
        self.buf.push(lb[2]);
        self.buf.push(lb[3]);
        let mut i: usize = 0;
        let ghost mid = self.buf@;
        assert(mid =~= old(self).buf@ + u32_le_bytes(len));
        while i < data.len()
            invariant
                i <= data@.len(),
                self.buf@ == mid + data@.subrange(0, i as int),
            decreases data.len() - i,
        {
            self.buf.push(data[i]);
            assert(self.buf@ =~= mid + data@.subrange(0, i + 1));
            i = i + 1;
        }
        assert(data@.subrange(0, data@.len() as int) =~= data@);
        assert(self.buf@ =~= old(self).buf@ + frame(data@));
    }

    /// The bytes written so far.
    pub fn finish(self) -> (b: Vec<u8>)
        ensures
            b@ == self.buf@,
    {
        self.buf
    }

    /// How many bytes have been written.
    pub fn len(&self) -> (n: usize)
        ensures
            n == self.buf@.len(),
    {
        self.buf.len()
    }
}

/// Reads length-delimited frames back.
pub struct LengthDelimitedReader {
    buf: Vec<u8>,
    pos: usize,
}

impl LengthDelimitedReader {
    /// The bytes not read yet.
    pub closed spec fn remaining(&self) -> Seq<u8> {
        self.buf@.subrange(self.pos as int, self.buf@.len() as int)
    }

    pub closed spec fn wf(&self) -> bool {
        self.pos <= self.buf@.len()
    }

    /// A reader over `buf`.
    pub fn new(buf: Vec<u8>) -> (r: Self)
        ensures
            r.wf(),
            r.remaining() == buf@,
    {
        let r = LengthDelimitedReader { buf, pos: 0 };
        assert(r.remaining() =~= r.buf@);
        r
    }

    /// The next frame, or `None` when every frame has been read. The rest
    /// must be whole frames (a partial frame would make the read fail).
    pub fn next(&mut self) -> (r: Option<Vec<u8>>)
        requires
            old(self).wf(),
            parse_frames(old(self).remaining()) is Some,
        ensures
            final(self).wf(),
            parse_frames(final(self).remaining()) is Some,
            ({
                let items = parse_frames(old(self).remaining())->0;
                match r {
                    None => items.len() == 0 && final(self).remaining() == old(self).remaining(),
                    Some(d) => items.len() > 0 && d@ == items[0] && parse_frames(final(self).remaining())
                        == Some(items.drop_first()),
                }
            }),
    {
        let ghost rem = self.remaining();
        if self.pos >= self.buf.len() {
            assert(rem.len() == 0);
            return None;
        }
        let n = read_u32_le(self.buf.as_slice(), self.pos);
        assert(le_u32_at(self.buf@, self.pos as int) == le_u32_at(rem, 0));
        let start = self.pos + 4;
        let end = start + n as usize;
        let d = copy_range(self.buf.as_slice(), start, end);
        assert(d@ =~= rem.subrange(4, 4 + n));
        self.pos = end;
        assert(self.remaining() =~= rem.subrange(4 + n, rem.len() as int));
        Some(d)
    }
}

/// A key and a value.
#[derive(Debug)]
pub struct KeyValue {
    pub key: Vec<u8>,
    pub value: Vec<u8>,
}

impl View for KeyValue {
    type V = (Seq<u8>, Seq<u8>);

    open spec fn view(&self) -> (Seq<u8>, Seq<u8>) {
        (self.key@, self.value@)
    }
}

impl KeyValue {
    /// A pair of `key` and `value`.
    pub fn new(key: Vec<u8>, value: Vec<u8>) -> (kv: Self)
        ensures
            kv@ == (key@, value@),
    {
        KeyValue { key, value }
    }

    /// A copy of the pair.
    pub fn copy(&self) -> (r: Self)
        ensures
            r@ == self@,
    {
        KeyValue { key: self.key.clone(), value: self.value.clone() }
    }

    /// A copy of the key.
    pub fn key(&self) -> (k: Vec<u8>)
        ensures
            k@ == self.key@,
    {
        self.key.clone()
    }

    /// A copy of the value.
    pub fn value(&self) -> (v: Vec<u8>)
        ensures
            v@ == self.value@,
    {
        self.value.clone()
    }

    /// The key, consuming the pair.
    pub fn into_key(self) -> (k: Vec<u8>)
        ensures
            k@ == self.key@,
    {
        self.key
    }

    /// The value, consuming the pair.
    pub fn into_value(self) -> (v: Vec<u8>)
        ensures
            v@ == self.value@,
    {
        self.value
    }
}

/// Key/value pairs stored as a key frame followed by a value frame, read
/// until the bytes end or a frame is cut short (the partial tail is ignored).
pub open spec fn decode_pairs(b: Seq<u8>) -> Seq<(Seq<u8>, Seq<u8>)>
    decreases b.len(),
{
    if b.len() < 4 {
        Seq::empty()
    } else {
        let n = le_u32_at(b, 0);
        if 4 + n > b.len() {
            Seq::empty()
        } else {
            let key = b.subrange(4, 4 + n);
            let rest = b.subrange(4 + n, b.len() as int);
            if rest.len() < 4 {
                Seq::empty()
            } else {
                let m = le_u32_at(rest, 0);
                if 4 + m > rest.len() {
                    Seq::empty()
                } else {
                    seq![(key, rest.subrange(4, 4 + m))] + decode_pairs(
                        rest.subrange(4 + m, rest.len() as int),
                    )
                }
            }
        }
    }
}

/// Decodes a reduce output file into key/value pairs.
pub fn decode_output_file(data: &[u8]) -> (out: Vec<KeyValue>)
    ensures
        out@.map_values(|kv: KeyValue| kv@) == decode_pairs(data@),
{
    let mut out: Vec<KeyValue> = Vec::new();
    let mut off: usize = 0;
    proof {
        assert(data@.subrange(0, data@.len() as int) =~= data@);
    }
    while data.len() >= 4 && off <= data.len() - 4
        invariant
            off <= data@.len(),
            out@.map_values(|kv: KeyValue| kv@) + decode_pairs(data@.subrange(off as int, data@.len() as int))
                == decode_pairs(data@),
        decreases data.len() - off,
    {
        let ghost rest0 = data@.subrange(off as int, data@.len() as int);
        let len = read_u32_le(data, off) as usize;
        assert(le_u32_at(data@, off as int) == le_u32_at(rest0, 0));
        off = off + 4;
        if len > data.len() - off {
            assert(decode_pairs(rest0) =~= Seq::<(Seq<u8>, Seq<u8>)>::empty());
            assert(out@.map_values(|kv: KeyValue| kv@) =~= decode_pairs(data@));
            return out;
        }
        let key = copy_range(data, off, off + len);
        off = off + len;
        let ghost rest1 = data@.subrange(off as int, data@.len() as int);
        assert(rest1 =~= rest0.subrange(4 + len, rest0.len() as int));
        if data.len() - off < 4 {
            assert(decode_pairs(rest0) =~= Seq::<(Seq<u8>, Seq<u8>)>::empty());
            assert(out@.map_values(|kv: KeyValue| kv@) =~= decode_pairs(data@));
            return out;
        }
        let len2 = read_u32_le(data, off) as usize;
        assert(le_u32_at(data@, off as int) == le_u32_at(rest1, 0));
        off = off + 4;
        if len2 > data.len() - off {
            assert(decode_pairs(rest0) =~= Seq::<(Seq<u8>, Seq<u8>)>::empty());
            assert(out@.map_values(|kv: KeyValue| kv@) =~= decode_pairs(data@));
            return out;
        }
        let value = copy_range(data, off, off + len2);
        off = off + len2;
        let ghost prev = out@.map_values(|kv: KeyValue| kv@);
        assert(key@ =~= rest0.subrange(4, 4 + len));
        assert(value@ =~= rest1.subrange(4, 4 + len2));
        assert(data@.subrange(off as int, data@.len() as int) =~= rest1.subrange(4 + len2, rest1.len() as int));
        out.push(KeyValue::new(key, value));
        assert(out@.map_values(|kv: KeyValue| kv@) =~= prev.push((key@, value@)));
    }
    proof {
        let rest = data@.subrange(off as int, data@.len() as int);
        assert(rest.len() < 4);
        assert(decode_pairs(rest) =~= Seq::<(Seq<u8>, Seq<u8>)>::empty());
        assert(out@.map_values(|kv: KeyValue| kv@) =~= decode_pairs(data@));
    }
    out
}

/// Key and value frames of each pair, one pair after another (the layout
/// of a reduce output file).
pub open spec fn pairs_bytes(ps: Seq<(Seq<u8>, Seq<u8>)>) -> Seq<u8>
    decreases ps.len(),
{
    if ps.len() == 0 {
        Seq::empty()
    } else {
        frame(ps[0].0) + frame(ps[0].1) + pairs_bytes(ps.drop_first())
    }
}

/// Every key and value fits a `u32` length.
pub open spec fn pairs_fit(ps: Seq<(Seq<u8>, Seq<u8>)>) -> bool {
    forall|i: int| 0 <= i < ps.len() ==> (#[trigger] ps[i]).0.len() <= u32::MAX && ps[i].1.len() <= u32::MAX
}

pub proof fn lemma_pairs_bytes_push(ps: Seq<(Seq<u8>, Seq<u8>)>, p: (Seq<u8>, Seq<u8>))
    ensures
        pairs_bytes(ps.push(p)) == pairs_bytes(ps) + frame(p.0) + frame(p.1),
    decreases ps.len(),
{
    let q = ps.push(p);
    if ps.len() == 0 {
        assert(q.drop_first() =~= Seq::<(Seq<u8>, Seq<u8>)>::empty());
        assert(q[0] == p);
        assert(pairs_bytes(q.drop_first()) == Seq::<u8>::empty());
        assert(pairs_bytes(ps) == Seq::<u8>::empty());
        assert(pairs_bytes(q) =~= pairs_bytes(ps) + frame(p.0) + frame(p.1));
    } else {
        let rest = ps.drop_first();
        lemma_pairs_bytes_push(rest, p);
        assert(q.drop_first() =~= rest.push(p));
        assert(q[0] == ps[0]);
        let a = frame(ps[0].0) + frame(ps[0].1);
        assert(pairs_bytes(q) == a + pairs_bytes(rest.push(p)));
        assert(pairs_bytes(ps) == a + pairs_bytes(rest));
        assert(pairs_bytes(q) =~= pairs_bytes(ps) + frame(p.0) + frame(p.1));
    }
}

/// Reading a key frame and a value frame in front of `tail` gives that
/// pair, then what `tail` gives.
proof fn lemma_decode_pair_prefix(k: Seq<u8>, v: Seq<u8>, tail: Seq<u8>)
    requires
        k.len() <= u32::MAX,
        v.len() <= u32::MAX,
    ensures
        decode_pairs(frame(k) + frame(v) + tail) == seq![(k, v)] + decode_pairs(tail),
{
    let r1 = frame(v) + tail;
    let b = frame(k) + frame(v) + tail;
    assert(b =~= frame(k) + r1);
    lemma_le_u32_roundtrip(k.len() as u32);
    lemma_le_u32_roundtrip(v.len() as u32);
    assert(b[0] == u32_le_bytes(k.len() as u32)[0]);
    assert(b[1] == u32_le_bytes(k.len() as u32)[1]);
    assert(b[2] == u32_le_bytes(k.len() as u32)[2]);
    assert(b[3] == u32_le_bytes(k.len() as u32)[3]);
    assert(le_u32_at(b, 0) == k.len());
    assert(b.subrange(4, 4 + k.len() as int) =~= k);
    assert(b.subrange(4 + k.len() as int, b.len() as int) =~= r1);
    assert(r1[0] == u32_le_bytes(v.len() as u32)[0]);
    assert(r1[1] == u32_le_bytes(v.len() as u32)[1]);
    assert(r1[2] == u32_le_bytes(v.len() as u32)[2]);
    assert(r1[3] == u32_le_bytes(v.len() as u32)[3]);
    assert(le_u32_at(r1, 0) == v.len());
    assert(r1.subrange(4, 4 + v.len() as int) =~= v);
    assert(r1.subrange(4 + v.len() as int, r1.len() as int) =~= tail);
}

/// Pairs written as key and value frames read back as the same pairs.
pub proof fn law_pairs_roundtrip(ps: Seq<(Seq<u8>, Seq<u8>)>)
    requires
        pairs_fit(ps),
    ensures
        decode_pairs(pairs_bytes(ps)) == ps,
    decreases ps.len(),
{
    if ps.len() > 0 {
        let (k, v) = ps[0];
        let rest = ps.drop_first();
        assert(pairs_fit(rest)) by {
            assert forall|i: int| 0 <= i < rest.len() implies (#[trigger] rest[i]).0.len() <= u32::MAX
                && rest[i].1.len() <= u32::MAX by {
                assert(rest[i] == ps[i + 1]);
            }
        }
        law_pairs_roundtrip(rest);
        lemma_decode_pair_prefix(k, v, pairs_bytes(rest));
        assert(seq![(k, v)] + rest =~= ps);
    }
}


/// The bytes of some items, added up.
pub open spec fn total_len(items: Seq<Seq<u8>>) -> nat
    decreases items.len(),
{
    if items.len() == 0 {
        0
    } else {
        total_len(items.drop_last()) + items.last().len()
    }
}

/// Law: a writer that has sent `items` one after another, read back by a
/// reader over what it wrote, yields the items in order and then `None`.
/// Sending one more item appends its frame; what was written is four bytes
/// per item plus the items' bytes.
pub proof fn law_writer_frames_read_back(
    w: LengthDelimitedWriter,
    items: Seq<Seq<u8>>,
    x: Seq<u8>,
    r: LengthDelimitedReader,
)
    requires
        w.buf@ == encode_frames(items),
        frames_fit(items),
        r.wf(),
        r.remaining() == w.buf@,
    ensures
        parse_frames(r.remaining()) == Some(items),
        w.buf@.len() == 4 * items.len() + total_len(items),
        w.buf@ + frame(x) == encode_frames(items.push(x)),
{
    law_frames_roundtrip(items);
    lemma_encode_frames_push(items, x);
    lemma_encode_frames_len(items);
}

proof fn lemma_encode_frames_len(items: Seq<Seq<u8>>)
    ensures
        encode_frames(items).len() == 4 * items.len() + total_len(items),
    decreases items.len(),
{
    if items.len() > 0 {
        let init = items.drop_last();
        lemma_encode_frames_len(init);
        lemma_encode_frames_push(init, items.last());
        assert(init.push(items.last()) =~= items);
    }
}

/// Law: sending items one after another, then reading back what was
/// written. `bufs[k]` is what a new writer holds after sending the first
/// `k` items (each `send` appends its item's frame); `rems[k]` is what a
/// reader over the written bytes has left after `k` calls of `next` (each
/// call takes the first frame off). Then the writer holds the items' frames,
/// four bytes per item plus the items' bytes, and the `k`-th call of `next`
/// finds the items from the `k`-th on: it returns the `k`-th item, and the
/// call after the last item returns `None`.
pub proof fn law_sends_then_reads(items: Seq<Seq<u8>>, bufs: Seq<Seq<u8>>, rems: Seq<Seq<u8>>)
    requires
        frames_fit(items),
        bufs.len() == items.len() + 1,
        bufs[0] == Seq::<u8>::empty(),
        forall|k: int| 0 <= k < items.len() ==> #[trigger] bufs[k + 1] == bufs[k] + frame(items[k]),
        rems.len() == items.len() + 1,
        rems[0] == bufs[items.len() as int],
        forall|k: int|
            0 <= k < items.len() ==> parse_frames(#[trigger] rems[k + 1]) == Some(
                parse_frames(rems[k])->0.drop_first(),
            ),
    ensures
        bufs[items.len() as int] == encode_frames(items),
        bufs[items.len() as int].len() == 4 * items.len() + total_len(items),
        forall|k: int| 0 <= k <= items.len() ==> parse_frames(#[trigger] rems[k]) == Some(items.skip(k)),
        forall|k: int| 0 <= k < items.len() ==> #[trigger] items.skip(k)[0] == items[k],
        items.skip(items.len() as int).len() == 0,
{
    lemma_sends_build_frames(items, bufs, items.len() as int);
    lemma_encode_frames_len(items);
    law_frames_roundtrip(items);
    assert(items.skip(0) =~= items);
    lemma_reads_take_frames(items, rems, items.len() as int);
}

proof fn lemma_sends_build_frames(items: Seq<Seq<u8>>, bufs: Seq<Seq<u8>>, k: int)
    requires
        0 <= k <= items.len(),
        bufs.len() == items.len() + 1,
        bufs[0] == Seq::<u8>::empty(),
        forall|j: int| 0 <= j < items.len() ==> #[trigger] bufs[j + 1] == bufs[j] + frame(items[j]),
    ensures
        bufs[k] == encode_frames(items.take(k)),
    decreases k,
{
    if k == 0 {
        assert(items.take(0) =~= Seq::<Seq<u8>>::empty());
    } else {
        lemma_sends_build_frames(items, bufs, k - 1);
        lemma_encode_frames_push(items.take(k - 1), items[k - 1]);
        assert(items.take(k - 1).push(items[k - 1]) =~= items.take(k));
        assert(bufs[(k - 1) + 1] == bufs[k - 1] + frame(items[k - 1]));
    }
    if k == items.len() {
        assert(items.take(k) =~= items);
    }
}

proof fn lemma_reads_take_frames(items: Seq<Seq<u8>>, rems: Seq<Seq<u8>>, k: int)
    requires
        0 <= k <= items.len(),
        rems.len() == items.len() + 1,
        parse_frames(rems[0]) == Some(items),
        forall|j: int|
            0 <= j < items.len() ==> parse_frames(#[trigger] rems[j + 1]) == Some(
                parse_frames(rems[j])->0.drop_first(),
            ),
    ensures
        forall|j: int| 0 <= j <= k ==> parse_frames(#[trigger] rems[j]) == Some(items.skip(j)),
        forall|j: int| 0 <= j < items.len() ==> #[trigger] items.skip(j)[0] == items[j],
    decreases k,
{
    assert(items.skip(0) =~= items);
    if k > 0 {
        lemma_reads_take_frames(items, rems, k - 1);
        assert(parse_frames(rems[(k - 1) + 1]) == Some(parse_frames(rems[k - 1])->0.drop_first()));
        assert(items.skip(k - 1).drop_first() =~= items.skip(k));
    }
}

} // verus!
