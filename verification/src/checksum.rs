//! Sizes and digests of byte streams.
//!
//! A stream is fed to a [`HashEngine`] chunk by chunk. The engine leaves out
//! the header of the system, counts what follows, and hands it to the digest
//! of the chosen algorithm. The digests themselves are computed by the
//! crates `crc32fast`, `md5` and `sha1_smol`; what they return has a name
//! here and no definition.

use crate::model::{HashAlgorithm, Header};
use crate::text::chain;
use vstd::prelude::*;

verus! {

/// The running state of a CRC-32 checksum, of `crc32fast`.
#[verifier::external_type_specification]
#[verifier::external_body]
pub struct ExCrcHasher(crc32fast::Hasher);

/// The running state of an MD5 digest, of `md5`.
#[verifier::external_type_specification]
#[verifier::external_body]
pub struct ExMd5Context(md5::Context);

/// The running state of a SHA-1 digest, of `sha1_smol`.
#[verifier::external_type_specification]
#[verifier::external_body]
pub struct ExSha1(sha1_smol::Sha1);

/// The bytes that a CRC hasher has taken in, in order.
pub uninterp spec fn crc_taken(hasher: crc32fast::Hasher) -> Seq<u8>;

/// The bytes that an MD5 context has taken in, in order.
pub uninterp spec fn md5_taken(context: md5::Context) -> Seq<u8>;

/// The bytes that a SHA-1 state has taken in, in order.
pub uninterp spec fn sha1_taken(state: sha1_smol::Sha1) -> Seq<u8>;

/// The CRC-32 checksum of a sequence of bytes, as `crc32fast` computes it.
pub uninterp spec fn crc32_of(bytes: Seq<u8>) -> u32;

/// The MD5 digest of a sequence of bytes, as `md5` computes it.
pub uninterp spec fn md5_of(bytes: Seq<u8>) -> Seq<u8>;

/// The SHA-1 digest of a sequence of bytes, as `sha1_smol` computes it.
pub uninterp spec fn sha1_of(bytes: Seq<u8>) -> Seq<u8>;

/// The most bytes that a digest is given: beyond it `sha1_smol` can no
/// longer count the bits of its input.
pub open spec fn digest_limit() -> u64 {
    0x1fff_ffff_ffff_ffff
}

/// Calls `crc32fast::Hasher::new`. Trusted: the new hasher has taken in
/// nothing.
#[verifier::external_body]
fn crc_new() -> (hasher: crc32fast::Hasher)
    ensures
        crc_taken(hasher) == Seq::<u8>::empty(),
{
    crc32fast::Hasher::new()
}

/// Calls `crc32fast::Hasher::update`, which counts the bytes it is given
/// in 64 bits. Trusted: the hasher has then taken in the bytes after what it
/// had.
#[verifier::external_body]
fn crc_update(hasher: &mut crc32fast::Hasher, bytes: &[u8])
    requires
        crc_taken(*old(hasher)).len() + bytes@.len() <= digest_limit(),
    ensures
        crc_taken(*final(hasher)) == crc_taken(*old(hasher)) + bytes@,
{
    hasher.update(bytes)
}

/// Calls `crc32fast::Hasher::finalize`. Trusted: the result is the
/// checksum of all that the hasher has taken in.
#[verifier::external_body]
fn crc_finalize(hasher: crc32fast::Hasher) -> (checksum: u32)
    ensures
        checksum == crc32_of(crc_taken(hasher)),
{
    hasher.finalize()
}

/// Calls `md5::Context::new`. Trusted: the new context has taken in nothing.
#[verifier::external_body]
fn md5_new() -> (context: md5::Context)
    ensures
        md5_taken(context) == Seq::<u8>::empty(),
{
    md5::Context::new()
}

/// Calls `md5::Context::consume`. Trusted: the context has then taken in
/// the bytes after what it had.
#[verifier::external_body]
fn md5_consume(context: &mut md5::Context, bytes: &[u8])
    ensures
        md5_taken(*final(context)) == md5_taken(*old(context)) + bytes@,
{
    context.consume(bytes)
}

/// Calls `md5::Context::finalize`. Trusted: the result is the digest of
/// all that the context has taken in.
#[verifier::external_body]
fn md5_finalize(context: md5::Context) -> (digest: Vec<u8>)
    ensures
        digest@ == md5_of(md5_taken(context)),
{
    context.finalize().0.to_vec()
}

/// Calls `sha1_smol::Sha1::new`. Trusted: the new state has taken in nothing.
#[verifier::external_body]
fn sha1_new() -> (state: sha1_smol::Sha1)
    ensures
        sha1_taken(state) == Seq::<u8>::empty(),
{
    sha1_smol::Sha1::new()
}

/// Calls `sha1_smol::Sha1::update`, which counts the bytes it is given in
/// 64 bits. Trusted: the state has then taken in the bytes after what it had.
#[verifier::external_body]
fn sha1_update(state: &mut sha1_smol::Sha1, bytes: &[u8])
    requires
        sha1_taken(*old(state)).len() + bytes@.len() <= digest_limit(),
    ensures
        sha1_taken(*final(state)) == sha1_taken(*old(state)) + bytes@,
{
    state.update(bytes)
}

/// Calls `sha1_smol::Sha1::digest`, which counts the bits of its input in
/// 64 bits, and turns the digest into its bytes. Trusted: the result is the
/// digest of all that the state has taken in.
#[verifier::external_body]
fn sha1_digest(state: &sha1_smol::Sha1) -> (digest: Vec<u8>)
    requires
        sha1_taken(*state).len() <= digest_limit(),
    ensures
        digest@ == sha1_of(sha1_taken(*state)),
{
    state.digest().bytes().to_vec()
}

/// The lower-case hexadecimal digit of a value below 16.
pub open spec fn hex_char(value: int) -> char {
    if value == 0 {
        '0'
    } else if value == 1 {
        '1'
    } else if value == 2 {
        '2'
    } else if value == 3 {
        '3'
    } else if value == 4 {
        '4'
    } else if value == 5 {
        '5'
    } else if value == 6 {
        '6'
    } else if value == 7 {
        '7'
    } else if value == 8 {
        '8'
    } else if value == 9 {
        '9'
    } else if value == 10 {
        'a'
    } else if value == 11 {
        'b'
    } else if value == 12 {
        'c'
    } else if value == 13 {
        'd'
    } else if value == 14 {
        'e'
    } else {
        'f'
    }
}

/// Bytes in lower-case hexadecimal, two digits to a byte, without separators.
pub open spec fn hex_text(bytes: Seq<u8>) -> Seq<char> {
    Seq::new(
        2 * bytes.len(),
        |i: int|
            if i % 2 == 0 {
                hex_char(bytes[i / 2] as int / 16)
            } else {
                hex_char(bytes[i / 2] as int % 16)
            },
    )
}

/// The four bytes of a checksum, the most significant first.
pub open spec fn checksum_bytes(checksum: u32) -> Seq<u8> {
    seq![
        (checksum as int / 0x100_0000) as u8,
        (checksum as int / 0x1_0000 % 0x100) as u8,
        (checksum as int / 0x100 % 0x100) as u8,
        (checksum as int % 0x100) as u8,
    ]
}

/// The digest of a sequence of bytes as the catalog writes it: lower-case
/// hexadecimal without separators.
pub open spec fn digest_text(algorithm: HashAlgorithm, bytes: Seq<u8>) -> Seq<char> {
    match algorithm {
        HashAlgorithm::Crc => hex_text(checksum_bytes(crc32_of(bytes))),
        HashAlgorithm::Md5 => hex_text(md5_of(bytes)),
        HashAlgorithm::Sha1 => hex_text(sha1_of(bytes)),
    }
}

fn hex_digit(value: u8) -> (digit: &'static str)
    requires
        value < 16,
    ensures
        digit@ == seq![hex_char(value as int)],
{
    proof {
        reveal_strlit("0");
        reveal_strlit("1");
        reveal_strlit("2");
        reveal_strlit("3");
        reveal_strlit("4");
        reveal_strlit("5");
        reveal_strlit("6");
        reveal_strlit("7");
        reveal_strlit("8");
        reveal_strlit("9");
        reveal_strlit("a");
        reveal_strlit("b");
        reveal_strlit("c");
        reveal_strlit("d");
        reveal_strlit("e");
        reveal_strlit("f");
    }
    let digit = if value == 0 {
        "0"
    } else if value == 1 {
        "1"
    } else if value == 2 {
        "2"
    } else if value == 3 {
        "3"
    } else if value == 4 {
        "4"
    } else if value == 5 {
        "5"
    } else if value == 6 {
        "6"
    } else if value == 7 {
        "7"
    } else if value == 8 {
        "8"
    } else if value == 9 {
        "9"
    } else if value == 10 {
        "a"
    } else if value == 11 {
        "b"
    } else if value == 12 {
        "c"
    } else if value == 13 {
        "d"
    } else if value == 14 {
        "e"
    } else {
        "f"
    };
    assert(digit@ =~= seq![hex_char(value as int)]);
    digit
}

/// Writes bytes in lower-case hexadecimal.
pub fn to_hex(bytes: &[u8]) -> (text: String)
    ensures
        text@ == hex_text(bytes@),
{
    let mut text = String::new();
    let mut i: usize = 0;
    while i < bytes.len()
        invariant
            i <= bytes.len(),
            text@ == hex_text(bytes@.take(i as int)),
        decreases bytes.len() - i,
    {
        let ghost before = text@;
        let high = chain(text.as_str(), hex_digit(bytes[i] / 16));
        text = chain(high.as_str(), hex_digit(bytes[i] % 16));
        assert(text@ =~= hex_text(bytes@.take(i + 1))) by {
            let now = hex_text(bytes@.take(i + 1));
            assert(text@.len() == now.len());
            assert forall|k: int| 0 <= k < now.len() implies text@[k] == now[k] by {
                if k < 2 * i {
                    assert(before[k] == hex_text(bytes@.take(i as int))[k]);
                    assert(bytes@.take(i as int)[k / 2] == bytes@.take(i + 1)[k / 2]);
                }
            }
        }
        i += 1;
    }
    assert(bytes@.take(i as int) == bytes@);
    text
}

fn checksum_to_bytes(checksum: u32) -> (bytes: Vec<u8>)
    ensures
        bytes@ == checksum_bytes(checksum),
{
    let bytes = vec![
        (checksum / 0x100_0000) as u8,
        (checksum / 0x1_0000 % 0x100) as u8,
        (checksum / 0x100 % 0x100) as u8,
        (checksum % 0x100) as u8,
    ];
    assert(bytes@ =~= checksum_bytes(checksum));
    bytes
}

/// The running digest of one of the algorithms.
enum DigestState {
    Crc(crc32fast::Hasher),
    Md5(md5::Context),
    Sha1(sha1_smol::Sha1),
}

impl DigestState {
    /// The algorithm of the digest.
    spec fn algorithm(&self) -> HashAlgorithm {
        match self {
            DigestState::Crc(_) => HashAlgorithm::Crc,
            DigestState::Md5(_) => HashAlgorithm::Md5,
            DigestState::Sha1(_) => HashAlgorithm::Sha1,
        }
    }

    /// The bytes that the digest has taken in.
    spec fn taken(&self) -> Seq<u8> {
        match self {
            DigestState::Crc(hasher) => crc_taken(*hasher),
            DigestState::Md5(context) => md5_taken(*context),
            DigestState::Sha1(state) => sha1_taken(*state),
        }
    }
}

/// The number of bytes of a stream that a header of `header` bytes leaves out.
pub open spec fn left_out(header: nat, stream: Seq<u8>) -> nat {
    if header <= stream.len() {
        header
    } else {
        stream.len()
    }
}

/// What is left of a stream after a header of `header` bytes.
pub open spec fn content_of(header: nat, stream: Seq<u8>) -> Seq<u8> {
    stream.skip(left_out(header, stream) as int)
}

/// Of a stream that is at least as long as the header, what is left is the
/// stream without its first `header` bytes: the size counts none of them,
/// and two streams that differ in those bytes alone leave the same content,
/// and so have the same size and the same digest.
pub proof fn lemma_header_left_out(header: nat, stream: Seq<u8>, other: Seq<u8>)
    requires
        header <= stream.len(),
        other.len() == stream.len(),
        forall|i: int| header <= i < stream.len() ==> stream[i] == other[i],
    ensures
        content_of(header, stream) == stream.skip(header as int),
        content_of(header, stream).len() == stream.len() - header,
        content_of(header, other) == content_of(header, stream),
{
    assert(content_of(header, other) =~= content_of(header, stream));
}

/// Computes the size and the digest of a stream that is fed to it in chunks.
pub struct HashEngine {
    header: u64,
    skipped: u64,
    size: u64,
    state: DigestState,
    stream: Ghost<Seq<u8>>,
}

impl HashEngine {
    /// The number of leading bytes that the engine leaves out.
    pub closed spec fn header(&self) -> nat {
        self.header as nat
    }

    /// The algorithm of the digest.
    pub closed spec fn algorithm(&self) -> HashAlgorithm {
        self.state.algorithm()
    }

    /// All that the engine has been fed, in order.
    pub closed spec fn stream(&self) -> Seq<u8> {
        self.stream@
    }

    /// What the engine holds agrees with what it has been fed.
    pub closed spec fn wf(&self) -> bool {
        &&& self.skipped == left_out(self.header as nat, self.stream@)
        &&& self.state.taken() == content_of(self.header as nat, self.stream@)
        &&& self.size == self.state.taken().len()
        &&& self.size <= digest_limit()
    }

    /// An engine that has been fed nothing. It leaves out as many bytes as
    /// the header has, and none where the system has no header.
    pub fn new(header: &Option<Header>, algorithm: HashAlgorithm) -> (engine: HashEngine)
        ensures
            engine.wf(),
            engine.algorithm() == algorithm,
            engine.stream() == Seq::<u8>::empty(),
            engine.header() == match *header {
                Some(h) => h.size as nat,
                None => 0,
            },
    {
        let length = match header {
            Some(h) => h.size,
            None => 0,
        };
        let state = match algorithm {
            HashAlgorithm::Crc => DigestState::Crc(crc_new()),
            HashAlgorithm::Md5 => DigestState::Md5(md5_new()),
            HashAlgorithm::Sha1 => DigestState::Sha1(sha1_new()),
        };
        let engine = HashEngine {
            header: length,
            skipped: 0,
            size: 0,
            state,
            stream: Ghost(Seq::empty()),
        };
        assert(content_of(length as nat, Seq::<u8>::empty()) =~= Seq::<u8>::empty());
        engine
    }

    /// Whether the engine can take `chunk` after what it has been fed: the
    /// bytes to digest must stay within [`digest_limit`].
    pub open spec fn can_take(&self, chunk: Seq<u8>) -> bool {
        content_of(self.header(), self.stream() + chunk).len() <= digest_limit()
    }

    /// Feeds the next chunk of the stream. A chunk that the engine cannot
    /// take leaves it as it was.
    pub fn update(&mut self, chunk: &[u8]) -> (taken: bool)
        requires
            old(self).wf(),
        ensures
            final(self).wf(),
            final(self).header() == old(self).header(),
            final(self).algorithm() == old(self).algorithm(),
            taken == old(self).can_take(chunk@),
            final(self).stream() == if taken {
                old(self).stream() + chunk@
            } else {
                old(self).stream()
            },
    {
        let ghost before = self.stream@;
        let ghost after = before + chunk@;
        let ghost header = self.header as nat;
        let remaining = self.header - self.skipped;
        let start: usize = if remaining >= chunk.len() as u64 {
            chunk.len()
        } else {
            remaining as usize
        };
        let kept = chunk.len() - start;
        proof {
            assert(left_out(header, after) == self.skipped + start);
            assert(content_of(header, after) =~= content_of(header, before) + chunk@.skip(
                start as int,
            ));
        }
        if kept as u64 > 0x1fff_ffff_ffff_ffff - self.size {
            return false;
        }
        let part = slice_from(chunk, start);
        match &mut self.state {
            DigestState::Crc(hasher) => crc_update(hasher, part),
            DigestState::Md5(context) => md5_consume(context, part),
            DigestState::Sha1(state) => sha1_update(state, part),
        }
        self.skipped = self.skipped + start as u64;
        self.size = self.size + kept as u64;
        self.stream = Ghost(after);
        true
    }

    /// The size and the digest of what the engine has been fed, without the
    /// header: the size counts the bytes after the header, and the digest is
    /// of those bytes alone.
    pub fn finish(self) -> (result: (u64, String))
        requires
            self.wf(),
        ensures
            result.0 == content_of(self.header(), self.stream()).len(),
            result.1@ == digest_text(self.algorithm(), content_of(self.header(), self.stream())),
    {
        let digest = match self.state {
            DigestState::Crc(hasher) => checksum_to_bytes(crc_finalize(hasher)),
            DigestState::Md5(context) => md5_finalize(context),
            DigestState::Sha1(state) => sha1_digest(&state),
        };
        (self.size, to_hex(digest.as_slice()))
    }
}

fn slice_from(bytes: &[u8], start: usize) -> (part: &[u8])
    requires
        start <= bytes@.len(),
    ensures
        part@ == bytes@.skip(start as int),
{
    let (_, part) = bytes.split_at(start);
    assert(part@ =~= bytes@.skip(start as int));
    part
}

/// The size and the digest of a whole stream, without the header. There is
/// none for a stream whose content is beyond [`digest_limit`].
pub fn hash(stream: &[u8], header: &Option<Header>, algorithm: HashAlgorithm) -> (result: Option<
    (u64, String),
>)
    ensures
        match result {
            Some((size, digest)) => {
                let content = content_of(
                    match *header {
                        Some(h) => h.size as nat,
                        None => 0,
                    },
                    stream@,
                );
                &&& content.len() <= digest_limit()
                &&& size == content.len()
                &&& digest@ == digest_text(algorithm, content)
            },
            None => content_of(
                match *header {
                    Some(h) => h.size as nat,
                    None => 0,
                },
                stream@,
            ).len() > digest_limit(),
        },
{
    let mut engine = HashEngine::new(header, algorithm);
    assert(Seq::<u8>::empty() + stream@ =~= stream@);
    if engine.update(stream) {
        Some(engine.finish())
    } else {
        None
    }
}

} // verus!
