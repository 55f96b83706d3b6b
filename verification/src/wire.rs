//! What travels on a stream: an eight byte request, then zero bytes one way or
//! the other.

use vstd::prelude::*;

verus! {

/// The size of a request in bytes.
pub const HEADER_LEN: usize = 8;

/// The most bytes that one read takes or one write offers.
pub const CHUNK_LEN: usize = 65535;

/// What a dialer measures on one connection.
#[derive(Clone, Copy, Debug, PartialEq, Eq, Structural)]
pub enum TestType {
    /// The dialer sends `bytes` bytes.
    Upload { bytes: u64 },
    /// The listener sends `bytes` bytes.
    Download { bytes: u64 },
    /// The listener sends one byte.
    Latency,
}

/// Bytes to offer to a stream, and whether the stream ends with them.
#[derive(Clone, Copy, Debug, PartialEq, Eq, Structural)]
pub struct Chunk {
    pub len: usize,
    pub fin: bool,
}

/// What came of reading a stream.
pub enum ReadEvent<'a> {
    /// These bytes came, and `fin` says whether they are the last.
    Data { data: &'a [u8], fin: bool },
    /// There is nothing to read now.
    Blocked,
    /// The stream cannot be read.
    Failed,
}

/// What came of offering bytes to a stream.
#[derive(Clone, Copy, Debug, PartialEq, Eq, Structural)]
pub enum WriteEvent {
    /// The stream took this many of the bytes.
    Accepted(usize),
    /// The stream takes nothing now.
    Blocked,
    /// The stream cannot be written.
    Failed,
}

/// What to do after a write.
#[derive(Clone, Copy, Debug, PartialEq, Eq, Structural)]
pub enum WriteAction {
    /// Offer the next chunk.
    Again,
    /// Leave the stream.
    Stop,
    /// Ask to be called back when the stream can be written.
    WantWrite,
}

/// The number that bytes stand for, the first byte being the most significant.
pub open spec fn be_value(s: Seq<u8>) -> nat
    decreases s.len(),
{
    if s.len() == 0 {
        0
    } else {
        be_value(s.drop_last()) * 256 + s.last() as nat
    }
}

/// The last `len` bytes of a number, the most significant one first.
pub open spec fn be_bytes(n: nat, len: nat) -> Seq<u8>
    decreases len,
{
    if len == 0 {
        Seq::empty()
    } else {
        be_bytes(n / 256, (len - 1) as nat).push((n % 256) as u8)
    }
}

/// How many numbers `len` bytes can stand for.
pub open spec fn be_limit(len: nat) -> nat
    decreases len,
{
    if len == 0 {
        1
    } else {
        256 * be_limit((len - 1) as nat)
    }
}

/// The number of bytes that a test asks the listener for; zero announces an
/// upload.
pub open spec fn requested(test: TestType) -> u64 {
    match test {
        TestType::Upload { .. } => 0,
        TestType::Download { bytes } => bytes,
        TestType::Latency => 1,
    }
}

/// The bytes of the request that opens a test.
pub open spec fn request_bytes(test: TestType) -> Seq<u8> {
    be_bytes(requested(test) as nat, HEADER_LEN as nat)
}

/// What to offer of `remaining` bytes: as many as one write may hold, and the
/// end of the stream with the last of them.
pub open spec fn chunk_of(remaining: nat) -> (nat, bool) {
    let len = if remaining <= CHUNK_LEN {
        remaining
    } else {
        CHUNK_LEN as nat
    };
    (len, len == remaining)
}

proof fn lemma_be_bytes(n: nat, len: nat)
    requires
        n < be_limit(len),
    ensures
        be_bytes(n, len).len() == len,
        be_value(be_bytes(n, len)) == n,
    decreases len,
{
    if len > 0 {
        lemma_be_bytes(n / 256, (len - 1) as nat);
        let b = be_bytes(n, len);
        assert(b.drop_last() =~= be_bytes(n / 256, (len - 1) as nat));
    }
}

proof fn lemma_be_value(s: Seq<u8>)
    ensures
        be_value(s) < be_limit(s.len()),
        be_bytes(be_value(s), s.len()) == s,
    decreases s.len(),
{
    if s.len() > 0 {
        lemma_be_value(s.drop_last());
        let v = be_value(s);
        assert(v / 256 == be_value(s.drop_last()));
        assert(v % 256 == s.last());
        assert(be_bytes(v, s.len()) =~= s);
    } else {
        assert(be_bytes(be_value(s), s.len()) =~= s);
    }
}

proof fn lemma_header_limit()
    ensures
        be_limit(8) == 0x1_0000_0000_0000_0000,
{
    reveal_with_fuel(be_limit, 9);
}

/// A request is read as the number that was written.
pub proof fn law_request_is_read_back(n: u64)
    ensures
        be_bytes(n as nat, 8).len() == 8,
        be_value(be_bytes(n as nat, 8)) == n,
{
    lemma_header_limit();
    lemma_be_bytes(n as nat, 8);
}

/// Every eight bytes are a request, and no other eight bytes say the same.
pub proof fn law_every_header_is_a_request(s: Seq<u8>)
    requires
        s.len() == 8,
    ensures
        be_value(s) <= u64::MAX,
        be_bytes(be_value(s), 8) == s,
{
    lemma_header_limit();
    lemma_be_value(s);
}

/// The bytes of a request for `n` bytes.
pub fn encode_request(n: u64) -> (r: [u8; 8])
    ensures
        r@ == be_bytes(n as nat, 8),
{
    let mut r: [u8; 8] = [0u8; 8];
    let mut rest: u64 = n;
    let mut i: usize = 8;
    proof {
        assert(r@.subrange(8, 8) =~= Seq::<u8>::empty());
        assert(be_bytes(n as nat, 8) =~= be_bytes(rest as nat, i as nat) + r@.subrange(8, 8));
    }
    while i > 0
        invariant
            i <= 8,
            r@.len() == 8,
            be_bytes(n as nat, 8) == be_bytes(rest as nat, i as nat) + r@.subrange(i as int, 8),
        decreases i,
    {
        let ghost before = r@;
        let ghost whole = be_bytes(rest as nat, i as nat);
        i = i - 1;
        r[i] = (rest % 256) as u8;
        rest = rest / 256;
        proof {
            assert(r@.subrange(i as int, 8) =~= seq![r@[i as int]] + before.subrange(i + 1, 8));
            assert(whole + before.subrange(i + 1, 8) =~= be_bytes(rest as nat, i as nat)
                + r@.subrange(i as int, 8));
        }
    }
    proof {
        assert(be_bytes(rest as nat, 0) =~= Seq::<u8>::empty());
        assert(r@.subrange(0, 8) =~= r@);
        assert(be_bytes(n as nat, 8) =~= r@);
    }
    r
}

/// The number of bytes that a request asks for.
pub fn decode_request(header: &[u8; 8]) -> (r: u64)
    ensures
        r == be_value(header@),
{
    let mut r: u64 = 0;
    for i in 0..8
        invariant
            header@.len() == 8,
            r == be_value(header@.take(i as int)),
            r < be_limit(i as nat),
    {
        proof {
            assert(header@.take(i + 1).drop_last() =~= header@.take(i as int));
            lemma_header_limit();
            reveal_with_fuel(be_limit, 9);
            assert(be_limit((i + 1) as nat) == 256 * be_limit(i as nat));
            assert(be_limit(i as nat) * 256 <= 0x1_0000_0000_0000_0000);
        }
        r = r * 256 + header[i] as u64;
    }
    proof {
        assert(header@.take(8) =~= header@);
    }
    r
}

/// The request that opens a test.
pub fn request_header(test: &TestType) -> (r: [u8; 8])
    ensures
        r@ == request_bytes(*test),
{
    match test {
        TestType::Upload { .. } => encode_request(0),
        TestType::Download { bytes } => encode_request(*bytes),
        TestType::Latency => encode_request(1),
    }
}

/// What to offer of `remaining` bytes.
pub fn next_chunk(remaining: u64) -> (r: Chunk)
    ensures
        (r.len as nat, r.fin) == chunk_of(remaining as nat),
{
    if remaining <= CHUNK_LEN as u64 {
        Chunk { len: remaining as usize, fin: true }
    } else {
        Chunk { len: CHUNK_LEN, fin: false }
    }
}

/// The first of eight bytes counts most: each counts 256 times as much as the one behind
/// it.
pub proof fn law_request_counts_by_place(s: Seq<u8>)
    requires
        s.len() == 8,
    ensures
        be_value(s) == s[0] * 0x100_0000_0000_0000 + s[1] * 0x1_0000_0000_0000 + s[2]
            * 0x100_0000_0000 + s[3] * 0x1_0000_0000 + s[4] * 0x100_0000 + s[5] * 0x1_0000
            + s[6] * 0x100 + s[7],
{
    reveal_with_fuel(be_value, 9);
    let t = s.drop_last();
    let u = t.drop_last();
    let v = u.drop_last();
    let w = v.drop_last();
    let x = w.drop_last();
    let y = x.drop_last();
    assert(y.drop_last() =~= seq![s[0]]);
    assert(seq![s[0]].drop_last() =~= Seq::<u8>::empty());
}

/// The request of a test says how many bytes the listener is to send: none for an upload,
/// those of a download, and one to measure latency.
pub proof fn law_request_says_what_to_send(test: TestType)
    ensures
        ({
            let r = request_bytes(test);
            &&& r.len() == 8
            &&& r[0] * 0x100_0000_0000_0000 + r[1] * 0x1_0000_0000_0000 + r[2]
            * 0x100_0000_0000 + r[3] * 0x1_0000_0000 + r[4] * 0x100_0000 + r[5] * 0x1_0000
            + r[6] * 0x100 + r[7] == (match test {
                TestType::Upload { .. } => 0,
                TestType::Download { bytes } => bytes,
                TestType::Latency => 1,
            })
        }),
{
    law_request_is_read_back(requested(test));
    law_request_counts_by_place(request_bytes(test));
}

/// As many bytes are offered as there are, up to 65535, and the stream ends with them
/// exactly when there are no more.
pub proof fn law_chunk_is_as_long_as_may_be(remaining: nat, len: nat)
    ensures
        chunk_of(remaining).0 <= remaining,
        chunk_of(remaining).0 <= 65535,
        len <= remaining && len <= 65535 ==> len <= chunk_of(remaining).0,
        chunk_of(remaining).1 <==> chunk_of(remaining).0 == remaining,
{
}

} // verus!
