//! The binary framing of the data-streaming endpoints: a magic preamble,
//! a size hint and a counter snapshot in big-endian form, then one
//! length-prefixed frame per transaction. Nothing is emitted at all for an
//! empty pool.

use vstd::prelude::*;

verus! {

// ---------------------------------------------------------------------------
// Big-endian words.
// ---------------------------------------------------------------------------

/// The four bytes of `n`, most significant first.
pub open spec fn be32_spec(n: u32) -> Seq<u8> {
    seq![
        ((n >> 24) & 0xff) as u8,
        ((n >> 16) & 0xff) as u8,
        ((n >> 8) & 0xff) as u8,
        (n & 0xff) as u8,
    ]
}

/// The eight bytes of `n`, most significant first.
pub open spec fn be64_spec(n: u64) -> Seq<u8> {
    seq![
        ((n >> 56) & 0xff) as u8,
        ((n >> 48) & 0xff) as u8,
        ((n >> 40) & 0xff) as u8,
        ((n >> 32) & 0xff) as u8,
        ((n >> 24) & 0xff) as u8,
        ((n >> 16) & 0xff) as u8,
        ((n >> 8) & 0xff) as u8,
        (n & 0xff) as u8,
    ]
}

/// The value read back from four big-endian bytes.
pub open spec fn be32_val(b: Seq<u8>) -> u32
    recommends
        b.len() == 4,
{
    ((b[0] as int) * 0x1000000 + (b[1] as int) * 0x10000 + (b[2] as int) * 0x100 + (
    b[3] as int)) as u32
}

/// The value read back from eight big-endian bytes.
pub open spec fn be64_val(b: Seq<u8>) -> u64
    recommends
        b.len() == 8,
{
    ((b[0] as int) * 0x100000000000000 + (b[1] as int) * 0x1000000000000 + (b[2] as int)
        * 0x10000000000 + (b[3] as int) * 0x100000000 + (b[4] as int) * 0x1000000 + (b[5] as int)
        * 0x10000 + (b[6] as int) * 0x100 + (b[7] as int)) as u64
}

pub proof fn lemma_be32_round_trip(n: u32)
    ensures
        be32_val(be32_spec(n)) == n,
{
    assert(((n >> 24) & 0xff) < 256 && ((n >> 16) & 0xff) < 256 && ((n >> 8) & 0xff) < 256 && (n
        & 0xff) < 256) by (bit_vector);
    assert(((n >> 24) & 0xff) * 0x1000000 + ((n >> 16) & 0xff) * 0x10000 + ((n >> 8) & 0xff)
        * 0x100 + (n & 0xff) == n) by (bit_vector);
}

pub proof fn lemma_be64_round_trip(n: u64)
    ensures
        be64_val(be64_spec(n)) == n,
{
    assert(((n >> 56) & 0xff) < 256 && ((n >> 48) & 0xff) < 256 && ((n >> 40) & 0xff) < 256 && ((n
        >> 32) & 0xff) < 256 && ((n >> 24) & 0xff) < 256 && ((n >> 16) & 0xff) < 256 && ((n >> 8)
        & 0xff) < 256 && (n & 0xff) < 256) by (bit_vector);
    assert(((n >> 56) & 0xff) * 0x100000000000000 + ((n >> 48) & 0xff) * 0x1000000000000 + ((n
        >> 40) & 0xff) * 0x10000000000 + ((n >> 32) & 0xff) * 0x100000000 + ((n >> 24) & 0xff)
        * 0x1000000 + ((n >> 16) & 0xff) * 0x10000 + ((n >> 8) & 0xff) * 0x100 + (n & 0xff)
        == n) by (bit_vector);
}

/// The four bytes of `n`, most significant first.
pub fn u32_to_be_bytes(n: u32) -> (r: Vec<u8>)
    ensures
        r@ == be32_spec(n),
{
    proof {
        assert(((n >> 24) & 0xff) < 256 && ((n >> 16) & 0xff) < 256 && ((n >> 8) & 0xff) < 256 && (
        n & 0xff) < 256) by (bit_vector);
    }
    let mut r: Vec<u8> = Vec::new();
    r.push(((n >> 24) & 0xff) as u8);
    r.push(((n >> 16) & 0xff) as u8);
    r.push(((n >> 8) & 0xff) as u8);
    r.push((n & 0xff) as u8);
    proof {
        assert(r@ =~= be32_spec(n));
    }
    r
}

/// The eight bytes of `n`, most significant first.
pub fn u64_to_be_bytes(n: u64) -> (r: Vec<u8>)
    ensures
        r@ == be64_spec(n),
{
    proof {
        assert(((n >> 56) & 0xff) < 256 && ((n >> 48) & 0xff) < 256 && ((n >> 40) & 0xff) < 256
            && ((n >> 32) & 0xff) < 256 && ((n >> 24) & 0xff) < 256 && ((n >> 16) & 0xff) < 256
            && ((n >> 8) & 0xff) < 256 && (n & 0xff) < 256) by (bit_vector);
    }
    let mut r: Vec<u8> = Vec::new();
    r.push(((n >> 56) & 0xff) as u8);
    r.push(((n >> 48) & 0xff) as u8);
    r.push(((n >> 40) & 0xff) as u8);
    r.push(((n >> 32) & 0xff) as u8);
    r.push(((n >> 24) & 0xff) as u8);
    r.push(((n >> 16) & 0xff) as u8);
    r.push(((n >> 8) & 0xff) as u8);
    r.push((n & 0xff) as u8);
    proof {
        assert(r@ =~= be64_spec(n));
    }
    r
}

// ---------------------------------------------------------------------------
// The stream layout.
// ---------------------------------------------------------------------------

/// The magic preamble that opens every non-empty stream.
pub open spec fn magic_spec() -> Seq<u8> {
    be64_spec(u64::MAX)
}

/// One frame: a four-byte big-endian payload length, then the payload.
pub open spec fn frame_spec(data: Seq<u8>) -> Seq<u8>
    recommends
        data.len() <= u32::MAX,
{
    be32_spec(data.len() as u32) + data
}

/// All frames of a stream, in order.
pub open spec fn frames_spec(entries: Seq<Seq<u8>>) -> Seq<u8>
    decreases entries.len(),
{
    if entries.len() == 0 {
        Seq::empty()
    } else {
        frame_spec(entries[0]) + frames_spec(entries.drop_first())
    }
}

/// The whole body of the full data stream: empty for an empty pool,
/// otherwise magic, size hint, counter snapshot, then the frames.
pub open spec fn txs_data_body_spec(entries: Seq<Seq<u8>>, size_hint: u32, counter: u64) -> Seq<
    u8,
> {
    if entries.len() == 0 {
        Seq::empty()
    } else {
        magic_spec() + be32_spec(size_hint) + be64_spec(counter) + frames_spec(entries)
    }
}

/// The body of the tail stream: as the full stream, but with no size hint.
pub open spec fn txs_data_from_body_spec(entries: Seq<Seq<u8>>, counter: u64) -> Seq<u8> {
    if entries.len() == 0 {
        Seq::empty()
    } else {
        magic_spec() + be64_spec(counter) + frames_spec(entries)
    }
}

/// The header chunk of the full data stream.
pub fn stream_header(size_hint: u32, counter: u64) -> (r: Vec<u8>)
    ensures
        r@ == magic_spec() + be32_spec(size_hint) + be64_spec(counter),
{
    let mut r = u64_to_be_bytes(u64::MAX);
    let mut hint = u32_to_be_bytes(size_hint);
    let mut ctr = u64_to_be_bytes(counter);
    r.append(&mut hint);
    r.append(&mut ctr);
    r
}

/// The header chunk of the tail stream.
pub fn stream_header_from(counter: u64) -> (r: Vec<u8>)
    ensures
        r@ == magic_spec() + be64_spec(counter),
{
    let mut r = u64_to_be_bytes(u64::MAX);
    let mut ctr = u64_to_be_bytes(counter);
    r.append(&mut ctr);
    r
}

/// The chunk for one transaction: its length, then its bytes.
pub fn frame_chunk(data: &Vec<u8>) -> (r: Vec<u8>)
    requires
        data@.len() <= u32::MAX,
    ensures
        r@ == frame_spec(data@),
{
    let mut r = u32_to_be_bytes(data.len() as u32);
    let mut i: usize = 0;
    while i < data.len()
        invariant
            i <= data@.len(),
            data@.len() <= u32::MAX,
            r@ == be32_spec(data@.len() as u32) + data@.take(i as int),
        decreases data@.len() - i,
    {
        let ghost r0 = r@;
        r.push(data[i]);
        i = i + 1;
        proof {
            assert(data@.take(i as int) =~= data@.take(i - 1) + seq![data@[i - 1]]);
            assert(r@ =~= be32_spec(data@.len() as u32) + data@.take(i as int));
        }
    }
    proof {
        assert(data@.take(data@.len() as int) =~= data@);
    }
    r
}

/// The bytes of a snapshot of store entries, in snapshot order.
pub open spec fn entries_bytes(s: Seq<(u64, Vec<u8>)>) -> Seq<Seq<u8>> {
    s.map_values(|p: (u64, Vec<u8>)| p.1@)
}

/// The whole body served for the full data stream, from a snapshot of the
/// store's entries in ascending arrival order.
pub fn txs_data_body(entries: &Vec<(u64, Vec<u8>)>, size_hint: u32, counter: u64) -> (r: Vec<u8>)
    requires
        forall|i: int| 0 <= i < entries@.len() ==> entries@[i].1@.len() <= u32::MAX,
    ensures
        r@ == txs_data_body_spec(entries_bytes(entries@), size_hint, counter),
{
    let ghost bytes = entries_bytes(entries@);
    if entries.len() == 0 {
        let r: Vec<u8> = Vec::new();
        return r;
    }
    let mut r = stream_header(size_hint, counter);
    append_frames(&mut r, entries);
    proof {
        assert(r@ == txs_data_body_spec(bytes, size_hint, counter));
    }
    r
}

/// The whole body served for the tail stream.
pub fn txs_data_from_body(entries: &Vec<(u64, Vec<u8>)>, counter: u64) -> (r: Vec<u8>)
    requires
        forall|i: int| 0 <= i < entries@.len() ==> entries@[i].1@.len() <= u32::MAX,
    ensures
        r@ == txs_data_from_body_spec(entries_bytes(entries@), counter),
{
    let ghost bytes = entries_bytes(entries@);
    if entries.len() == 0 {
        let r: Vec<u8> = Vec::new();
        return r;
    }
    let mut r = stream_header_from(counter);
    append_frames(&mut r, entries);
    r
}

/// The whole body for the full data stream, with the length check done
/// here: nothing comes back if any transaction is too large for a frame.
pub fn txs_data_body_checked(entries: &Vec<(u64, Vec<u8>)>, size_hint: u32, counter: u64) -> (r:
    Option<Vec<u8>>)
    ensures
        r is Some <==> (forall|i: int|
            0 <= i < entries@.len() ==> #[trigger] entries@[i].1@.len() <= u32::MAX),
        r matches Some(body) ==> body@ == txs_data_body_spec(
            entries_bytes(entries@),
            size_hint,
            counter,
        ),
{
    if !frames_fit(entries) {
        return None;
    }
    Some(txs_data_body(entries, size_hint, counter))
}

/// The whole body for the tail stream, with the length check done here.
pub fn txs_data_from_body_checked(entries: &Vec<(u64, Vec<u8>)>, counter: u64) -> (r: Option<
    Vec<u8>,
>)
    ensures
        r is Some <==> (forall|i: int|
            0 <= i < entries@.len() ==> #[trigger] entries@[i].1@.len() <= u32::MAX),
        r matches Some(body) ==> body@ == txs_data_from_body_spec(entries_bytes(entries@), counter),
{
    if !frames_fit(entries) {
        return None;
    }
    Some(txs_data_from_body(entries, counter))
}

/// Does every entry fit in a length-prefixed frame?
fn frames_fit(entries: &Vec<(u64, Vec<u8>)>) -> (r: bool)
    ensures
        r == (forall|i: int|
            0 <= i < entries@.len() ==> #[trigger] entries@[i].1@.len() <= u32::MAX),
{
    let mut i: usize = 0;
    while i < entries.len()
        invariant
            i <= entries@.len(),
            forall|j: int| 0 <= j < i ==> #[trigger] entries@[j].1@.len() <= u32::MAX,
        decreases entries@.len() - i,
    {
        if entries[i].1.len() > u32::MAX as usize {
            return false;
        }
        i = i + 1;
    }
    true
}

/// Append every entry's frame to the body being built.
fn append_frames(r: &mut Vec<u8>, entries: &Vec<(u64, Vec<u8>)>)
    requires
        forall|i: int| 0 <= i < entries@.len() ==> entries@[i].1@.len() <= u32::MAX,
    ensures
        final(r)@ == old(r)@ + frames_spec(entries_bytes(entries@)),
{
    let ghost bytes = entries_bytes(entries@);
    let ghost base = r@;
    proof {
        assert(bytes.skip(0) =~= bytes);
    }
    let mut i: usize = 0;
    while i < entries.len()
        invariant
            i <= entries@.len(),
            bytes == entries_bytes(entries@),
            bytes.len() == entries@.len(),
            forall|j: int| 0 <= j < entries@.len() ==> entries@[j].1@.len() <= u32::MAX,
            r@ + frames_spec(bytes.skip(i as int)) == base + frames_spec(bytes),
        decreases entries@.len() - i,
    {
        let ghost r0 = r@;
        let mut chunk = frame_chunk(&entries[i].1);
        r.append(&mut chunk);
        proof {
            let rem = bytes.skip(i as int);
            assert(rem[0] == bytes[i as int]);
            assert(bytes[i as int] == entries@[i as int].1@);
            assert(rem.drop_first() =~= bytes.skip(i + 1));
            assert(frames_spec(rem) == frame_spec(bytes[i as int]) + frames_spec(
                bytes.skip(i + 1),
            ));
            assert(r0 + frames_spec(rem) =~= (r0 + frame_spec(bytes[i as int])) + frames_spec(
                bytes.skip(i + 1),
            ));
        }
        i = i + 1;
    }
    proof {
        assert(bytes.skip(bytes.len() as int) =~= Seq::<Seq<u8>>::empty());
        assert(r@ + Seq::<u8>::empty() =~= r@);
    }
}

// ---------------------------------------------------------------------------
// Parsing a stream back, and the round-trip laws.
// ---------------------------------------------------------------------------

/// What a well-formed body denotes: nothing at all, or a stream with its
/// header fields and at least one frame.
pub enum ParsedBodySpec {
    Empty,
    Stream { size_hint: u32, counter: u64, frames: Seq<Seq<u8>> },
}

/// Parse a run of frames; `None` on trailing or truncated bytes.
pub open spec fn parse_frames_spec(b: Seq<u8>) -> Option<Seq<Seq<u8>>>
    decreases b.len(),
{
    if b.len() == 0 {
        Some(Seq::empty())
    } else if b.len() < 4 {
        None
    } else {
        let l = be32_val(b.take(4)) as int;
        if b.len() < 4 + l {
            None
        } else {
            match parse_frames_spec(b.skip(4 + l)) {
                Some(rest) => Some(seq![b.subrange(4, 4 + l)] + rest),
                None => None,
            }
        }
    }
}

/// Parse a full data-stream body: an empty body denotes the empty pool; a
/// non-empty body must open with the magic preamble, carry its header
/// fields, and hold at least one frame.
pub open spec fn parse_txs_data_body_spec(b: Seq<u8>) -> Option<ParsedBodySpec> {
    if b.len() == 0 {
        Some(ParsedBodySpec::Empty)
    } else if b.len() < 20 {
        None
    } else if b.take(8) != magic_spec() {
        None
    } else {
        match parse_frames_spec(b.skip(20)) {
            Some(frames) => if frames.len() == 0 {
                None
            } else {
                Some(
                    ParsedBodySpec::Stream {
                        size_hint: be32_val(b.subrange(8, 12)),
                        counter: be64_val(b.subrange(12, 20)),
                        frames,
                    },
                )
            },
            None => None,
        }
    }
}

/// A parsed data-stream body, as executable data.
pub enum TxsDataBody {
    Empty,
    Stream { size_hint: u32, counter: u64, frames: Vec<Vec<u8>> },
}

/// What a parsed body denotes.
pub open spec fn txs_data_body_view(t: TxsDataBody) -> ParsedBodySpec {
    match t {
        TxsDataBody::Empty => ParsedBodySpec::Empty,
        TxsDataBody::Stream { size_hint, counter, frames } => ParsedBodySpec::Stream {
            size_hint,
            counter,
            frames: frames@.map_values(|v: Vec<u8>| v@),
        },
    }
}

fn read_be32_at(b: &Vec<u8>, pos: usize) -> (n: u32)
    requires
        pos + 4 <= b@.len(),
    ensures
        n == be32_val(b@.subrange(pos as int, pos + 4)),
{
    let _n_bytes = b.len();
    let n = (b[pos] as u32) * 0x1000000 + (b[pos + 1] as u32) * 0x10000 + (b[pos + 2] as u32)
        * 0x100 + (b[pos + 3] as u32);
    proof {
        let s = b@.subrange(pos as int, pos + 4);
        assert(s[0] == b@[pos as int] && s[1] == b@[pos + 1] && s[2] == b@[pos + 2] && s[3] == b@[
            pos + 3
        ]);
    }
    n
}

fn read_be64_at(b: &Vec<u8>, pos: usize) -> (n: u64)
    requires
        pos + 8 <= b@.len(),
    ensures
        n == be64_val(b@.subrange(pos as int, pos + 8)),
{
    let _n_bytes = b.len();
    let n = (b[pos] as u64) * 0x100000000000000 + (b[pos + 1] as u64) * 0x1000000000000 + (b[pos
        + 2] as u64) * 0x10000000000 + (b[pos + 3] as u64) * 0x100000000 + (b[pos + 4] as u64)
        * 0x1000000 + (b[pos + 5] as u64) * 0x10000 + (b[pos + 6] as u64) * 0x100 + (b[pos
        + 7] as u64);
    proof {
        let s = b@.subrange(pos as int, pos + 8);
        assert(s[0] == b@[pos as int] && s[1] == b@[pos + 1] && s[2] == b@[pos + 2] && s[3] == b@[
            pos + 3
        ] && s[4] == b@[pos + 4] && s[5] == b@[pos + 5] && s[6] == b@[pos + 6] && s[7] == b@[pos
            + 7]);
    }
    n
}

fn subrange_vec(b: &Vec<u8>, from: usize, to: usize) -> (r: Vec<u8>)
    requires
        from <= to <= b@.len(),
    ensures
        r@ == b@.subrange(from as int, to as int),
{
    let mut r: Vec<u8> = Vec::new();
    let mut i: usize = from;
    while i < to
        invariant
            from <= i <= to <= b@.len(),
            r@ == b@.subrange(from as int, i as int),
        decreases to - i,
    {
        r.push(b[i]);
        i = i + 1;
        proof {
            assert(b@.subrange(from as int, i as int) =~= b@.subrange(from as int, i - 1)
                + seq![b@[i - 1]]);
        }
    }
    r
}

/// The payload sequences carried by a list of frames.
pub open spec fn frames_views(fs: Seq<Vec<u8>>) -> Seq<Seq<u8>> {
    fs.map_values(|v: Vec<u8>| v@)
}

spec fn prepend_frames(pre: Seq<Seq<u8>>, o: Option<Seq<Seq<u8>>>) -> Option<Seq<Seq<u8>>> {
    match o {
        Some(r) => Some(pre + r),
        None => None,
    }
}

/// Parse a full data-stream body. Returns the empty marker for an empty
/// body, the header fields and frames for a well-formed stream, and nothing
/// for a malformed one.
pub fn parse_txs_data_body(b: &Vec<u8>) -> (r: Option<TxsDataBody>)
    ensures
        match r {
            Some(t) => parse_txs_data_body_spec(b@) == Some(txs_data_body_view(t)),
            None => parse_txs_data_body_spec(b@) is None,
        },
{
    if b.len() == 0 {
        return Some(TxsDataBody::Empty);
    }
    if b.len() < 20 {
        return None;
    }
    let mut i: usize = 0;
    while i < 8
        invariant
            i <= 8,
            b@.len() >= 20,
            forall|j: int| 0 <= j < i ==> b@[j] == 0xff,
        decreases 8 - i,
    {
        if b[i] != 0xff {
            proof {
                lemma_magic_bytes();
                assert(b@.take(8)[i as int] != magic_spec()[i as int]);
            }
            return None;
        }
        i = i + 1;
    }
    proof {
        lemma_magic_bytes();
        assert(b@.take(8) =~= magic_spec());
    }
    let size_hint = read_be32_at(b, 8);
    let counter = read_be64_at(b, 12);
    let mut frames: Vec<Vec<u8>> = Vec::new();
    let mut pos: usize = 20;
    proof {
        assert(frames_views(frames@) =~= Seq::<Seq<u8>>::empty());
        assert(Seq::<Seq<u8>>::empty() + parse_frames_spec(b@.skip(20)).unwrap()
            =~= parse_frames_spec(b@.skip(20)).unwrap());
        if parse_frames_spec(b@.skip(20)) is Some {
            assert(prepend_frames(frames_views(frames@), parse_frames_spec(b@.skip(20)))
                == parse_frames_spec(b@.skip(20)));
        }
    }
    while pos < b.len()
        invariant
            20 <= pos <= b@.len(),
            b@.len() >= 20,
            b@.take(8) == magic_spec(),
            size_hint == be32_val(b@.subrange(8, 12)),
            counter == be64_val(b@.subrange(12, 20)),
            prepend_frames(frames_views(frames@), parse_frames_spec(b@.skip(pos as int)))
                == parse_frames_spec(b@.skip(20)),
        decreases b@.len() - pos,
    {
        let ghost s = b@.skip(pos as int);
        let rem = b.len() - pos;
        if rem < 4 {
            proof {
                assert(0 < s.len() < 4);
                assert(parse_frames_spec(s) is None);
            }
            return None;
        }
        let l32 = read_be32_at(b, pos);
        proof {
            assert(s.take(4) =~= b@.subrange(pos as int, pos + 4));
        }
        let l = l32 as usize;
        if b.len() - (pos + 4) < l {
            proof {
                assert(s.len() < 4 + l32);
                assert(parse_frames_spec(s) is None);
            }
            return None;
        }
        let payload = subrange_vec(b, pos + 4, pos + 4 + l);
        let ghost frames0 = frames@;
        frames.push(payload);
        proof {
            assert(s.subrange(4, 4 + l32 as int) =~= b@.subrange(pos + 4, pos + 4 + l32 as int));
            assert(s.skip(4 + l32 as int) =~= b@.skip(pos + 4 + l32 as int));
            assert(frames_views(frames@) =~= frames_views(frames0) + seq![payload@]);
            if parse_frames_spec(b@.skip(pos + 4 + l32 as int)) is Some {
                let rest = parse_frames_spec(b@.skip(pos + 4 + l32 as int)).unwrap();
                assert(parse_frames_spec(s) == Some(seq![payload@] + rest));
                assert(frames_views(frames0) + (seq![payload@] + rest) =~= (frames_views(frames0)
                    + seq![payload@]) + rest);
            }
        }
        pos = pos + 4 + l;
    }
    proof {
        assert(b@.skip(pos as int).len() == 0);
        assert(parse_frames_spec(b@.skip(pos as int)) == Some(Seq::<Seq<u8>>::empty()));
        assert(frames_views(frames@) + Seq::<Seq<u8>>::empty() =~= frames_views(frames@));
        assert(parse_frames_spec(b@.skip(20)) == Some(frames_views(frames@)));
    }
    if frames.len() == 0 {
        return None;
    }
    Some(TxsDataBody::Stream { size_hint, counter, frames })
}

proof fn lemma_magic_bytes()
    ensures
        forall|j: int| 0 <= j < 8 ==> magic_spec()[j] == 0xff,
{
    let n = u64::MAX;
    assert(((n >> 56) & 0xff) == 0xff && ((n >> 48) & 0xff) == 0xff && ((n >> 40) & 0xff) == 0xff
        && ((n >> 32) & 0xff) == 0xff && ((n >> 24) & 0xff) == 0xff && ((n >> 16) & 0xff) == 0xff
        && ((n >> 8) & 0xff) == 0xff && (n & 0xff) == 0xff) by (bit_vector)
        requires
            n == u64::MAX,
    ;
    assert forall|j: int| 0 <= j < 8 implies magic_spec()[j] == 0xff by {
        assert(magic_spec() == be64_spec(u64::MAX));
    }
}

/// Law: parsing the frames written for a list of payloads gives back exactly
/// those payloads.
pub proof fn lemma_parse_frames_round_trip(entries: Seq<Seq<u8>>)
    requires
        forall|i: int| 0 <= i < entries.len() ==> entries[i].len() <= u32::MAX,
    ensures
        parse_frames_spec(frames_spec(entries)) == Some(entries),
    decreases entries.len(),
{
    if entries.len() == 0 {
        assert(frames_spec(entries).len() == 0);
        assert(Seq::<Seq<u8>>::empty() =~= entries);
    } else {
        let e = entries[0];
        let rest = entries.drop_first();
        let b = frames_spec(entries);
        let l = e.len() as int;
        assert(b == (be32_spec(e.len() as u32) + e) + frames_spec(rest));
        assert(b.len() == 4 + l + frames_spec(rest).len());
        assert(b.take(4) =~= be32_spec(e.len() as u32));
        lemma_be32_round_trip(e.len() as u32);
        assert(be32_val(b.take(4)) as int == l);
        assert(b.subrange(4, 4 + l) =~= e);
        assert(b.skip(4 + l) =~= frames_spec(rest));
        lemma_parse_frames_round_trip(rest);
        assert(seq![e] + rest =~= entries);
    }
}

/// Law: parsing the body written for a pool snapshot yields the snapshot
/// back — the empty marker for an empty pool, and otherwise the very size
/// hint, counter and payloads that were framed.
pub proof fn lemma_txs_data_round_trip(entries: Seq<Seq<u8>>, size_hint: u32, counter: u64)
    requires
        forall|i: int| 0 <= i < entries.len() ==> entries[i].len() <= u32::MAX,
    ensures
        entries.len() == 0 ==> parse_txs_data_body_spec(
            txs_data_body_spec(entries, size_hint, counter),
        ) == Some(ParsedBodySpec::Empty),
        entries.len() > 0 ==> parse_txs_data_body_spec(
            txs_data_body_spec(entries, size_hint, counter),
        ) == Some(ParsedBodySpec::Stream { size_hint, counter, frames: entries }),
{
    if entries.len() > 0 {
        let b = txs_data_body_spec(entries, size_hint, counter);
        let e = entries[0];
        assert(frames_spec(entries) == frame_spec(e) + frames_spec(entries.drop_first()));
        assert(frames_spec(entries).len() >= 4);
        assert(b.len() >= 24);
        assert(b.take(8) =~= magic_spec());
        assert(b.subrange(8, 12) =~= be32_spec(size_hint));
        assert(b.subrange(12, 20) =~= be64_spec(counter));
        assert(b.skip(20) =~= frames_spec(entries));
        lemma_be32_round_trip(size_hint);
        lemma_be64_round_trip(counter);
        lemma_parse_frames_round_trip(entries);
    }
}

/// Law: a pool snapshot yields an empty body exactly when it has no
/// entries, and every non-empty body opens with the magic preamble.
pub proof fn lemma_magic_marks_nonempty(entries: Seq<Seq<u8>>, size_hint: u32, counter: u64)
    ensures
        txs_data_body_spec(entries, size_hint, counter).len() == 0 <==> entries.len() == 0,
        entries.len() > 0 ==> txs_data_body_spec(entries, size_hint, counter).take(8)
            == magic_spec(),
{
    if entries.len() > 0 {
        assert(txs_data_body_spec(entries, size_hint, counter).take(8) =~= magic_spec());
    }
}

} // verus!
