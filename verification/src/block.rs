//! Blocks, their headers, and the proof of work that seals them.
use vstd::prelude::*;
use vstd::arithmetic::power2::{lemma2_to64, lemma_pow2_adds, lemma_pow2_pos, lemma_pow2_strictly_increases, pow2};

use crate::codec::{be_value, bincode_str, hex_char, hex_lower, lemma_hex_lower_len, le_bytes};
use crate::hashing::sha3_256;
use crate::serializer::{hash_to_str, hash_to_u8};

verus! {

/// Largest nonce the proof of work tries (exclusive).
pub const MAX_NONCE: usize = usize::MAX;

/// A block header.
#[derive(Debug)]
pub struct BlockHeader {
    timestamp: i64,
    prev_hash: String,
    bits: usize,
    nonce: usize,
}

/// What a `BlockHeader` holds.
pub struct BlockHeaderModel {
    pub timestamp: i64,
    pub prev_hash: Seq<char>,
    pub bits: usize,
    pub nonce: usize,
}

impl View for BlockHeader {
    type V = BlockHeaderModel;

    closed spec fn view(&self) -> BlockHeaderModel {
        BlockHeaderModel {
            timestamp: self.timestamp,
            prev_hash: self.prev_hash@,
            bits: self.bits,
            nonce: self.nonce,
        }
    }
}

/// A block: header, payload and the hash found by the proof of work.
#[derive(Debug)]
pub struct Block {
    header: BlockHeader,
    data: String,
    hash: String,
}

/// What a `Block` holds.
pub struct BlockModel {
    pub header: BlockHeaderModel,
    pub data: Seq<char>,
    pub hash: Seq<char>,
}

impl View for Block {
    type V = BlockModel;

    closed spec fn view(&self) -> BlockModel {
        BlockModel { header: self.header@, data: self.data@, hash: self.hash@ }
    }
}

/// bincode's encoding of a header.
pub open spec fn header_bytes(h: BlockHeaderModel) -> Seq<u8> {
    le_bytes(h.timestamp as int, 8) + bincode_str(h.prev_hash) + le_bytes(h.bits as int, 8)
        + le_bytes(h.nonce as int, 8)
}

/// `h` with its nonce replaced by `nonce`.
pub open spec fn with_nonce(h: BlockHeaderModel, nonce: usize) -> BlockHeaderModel {
    BlockHeaderModel { nonce, ..h }
}

/// The SHA3-256 of a header's encoding, as a number.
pub open spec fn header_hash_value(h: BlockHeaderModel) -> nat {
    be_value(sha3_256(header_bytes(h)))
}

/// The hash text of a header: hexadecimal SHA3-256 of its encoding.
pub open spec fn header_hash_text(h: BlockHeaderModel) -> Seq<char> {
    hex_lower(sha3_256(header_bytes(h)))
}

/// Hexadecimal text of a non-empty byte sequence starts with the two
/// digits of its first byte.
proof fn lemma_hex_lower_first(bytes: Seq<u8>)
    requires
        bytes.len() >= 1,
    ensures
        hex_lower(bytes).len() >= 2,
        hex_lower(bytes)[0] == hex_char(bytes[0] as int / 16),
        hex_lower(bytes)[1] == hex_char(bytes[0] as int % 16),
    decreases bytes.len(),
{
    lemma_hex_lower_len(bytes);
    let init = bytes.drop_last();
    lemma_hex_lower_len(init);
    if bytes.len() > 1 {
        lemma_hex_lower_first(init);
        assert(init[0] == bytes[0]);
    } else {
        assert(hex_lower(init) =~= Seq::<char>::empty());
    }
}

/// The first byte of a big-endian number weighs `2^(8 * (len - 1))`.
proof fn lemma_be_value_first(bytes: Seq<u8>)
    requires
        bytes.len() >= 1,
    ensures
        be_value(bytes) >= bytes[0] * pow2((8 * (bytes.len() - 1)) as nat),
    decreases bytes.len(),
{
    lemma2_to64();
    let init = bytes.drop_last();
    assert(be_value(bytes) == be_value(init) * 256 + bytes.last());
    if bytes.len() == 1 {
        assert(be_value(init) == 0);
        assert((8 * (bytes.len() - 1)) as nat == 0);
        assert(pow2(0) == 1);
        assert(bytes.last() == bytes[0]);
        assert(bytes[0] * pow2(0) == bytes[0] as int);
    } else {
        lemma_be_value_first(init);
        assert(init[0] == bytes[0]);
        let e = (8 * (init.len() - 1)) as nat;
        lemma_pow2_adds(e, 8);
        assert((8 * (bytes.len() - 1)) as nat == e + 8);
        let a = be_value(init);
        let p = pow2(e);
        let f = bytes[0] as int;
        assert(a * 256 >= (f * p) * 256) by (nonlinear_arith)
            requires
                a >= f * p,
        ;
        assert((f * p) * 256 == f * (p * 256)) by (nonlinear_arith);
        assert(pow2(e + 8) == p * 256);
        assert(be_value(bytes) >= f * pow2(e + 8));
    }
}

/// A number below `2^(8 * (len - 1))` has a zero first byte, so its
/// hexadecimal text starts with two zero digits.
pub proof fn lemma_small_value_hex(bytes: Seq<u8>)
    requires
        bytes.len() >= 1,
        be_value(bytes) < pow2((8 * (bytes.len() - 1)) as nat),
    ensures
        hex_lower(bytes).len() >= 2,
        hex_lower(bytes)[0] == '0',
        hex_lower(bytes)[1] == '0',
{
    let e = (8 * (bytes.len() - 1)) as nat;
    lemma_be_value_first(bytes);
    lemma_pow2_pos(e);
    let f = bytes[0] as int;
    let p = pow2(e);
    if f > 0 {
        assert(f * p >= p) by (nonlinear_arith)
            requires
                f >= 1,
                p > 0,
        ;
    }
    assert(f == 0);
    lemma_hex_lower_first(bytes);
}

/// The target of a proof of work of difficulty `bits`:
/// `2^(256 - bits)` reduced to 256 bits.
pub open spec fn pow_target(bits: nat) -> nat {
    if bits == 0 {
        0
    } else {
        pow2((256 - bits) as nat)
    }
}

/// Whether `h` satisfies a proof of work of difficulty `bits`.
pub open spec fn meets_target(h: BlockHeaderModel, bits: nat) -> bool {
    header_hash_value(h) < pow_target(bits)
}

/// What `ProofOfWork::run` leaves in a block that held `before`: the first
/// nonce, counting from zero, whose header hash is below the target, with
/// the hash text of that header; or, when no nonce below `MAX_NONCE`
/// works, the last nonce tried and the hash that was there.
pub open spec fn mined(before: BlockModel, bits: nat, after: BlockModel) -> bool {
    &&& after.data == before.data
    &&& after.header == with_nonce(before.header, after.header.nonce)
    &&& after.header.nonce < MAX_NONCE
    &&& forall|n: usize| n < after.header.nonce ==> !#[trigger] meets_target(with_nonce(before.header, n), bits)
    &&& meets_target(after.header, bits) ==> after.hash == header_hash_text(after.header)
    &&& !meets_target(after.header, bits) ==> after.header.nonce == MAX_NONCE - 1 && after.hash == before.hash
    &&& meets_target(after.header, bits) && 8 <= bits <= 256 ==> zero_led(after.hash)
}

/// Whether a hash text starts with two zero digits, that is, the hash has
/// a zero first byte.
pub open spec fn zero_led(text: Seq<char>) -> bool {
    &&& text.len() >= 2
    &&& text[0] == '0'
    &&& text[1] == '0'
}

/// Encodes a header with `bincode::serialize`, passing its fields as a
/// tuple of plain values (which bincode encodes exactly as the struct).
/// Trusted: bincode 1.x with its default options returns `Ok` with the
/// bytes of `header_bytes`: the `i64` and the two `usize` (as `u64`)
/// little-endian in eight bytes each, the string as a `u64` length and its
/// UTF-8 bytes, fields in order; no error path is reached for these types.
#[verifier::external_body]
fn serialize_header(h: &BlockHeader) -> (res: Option<Vec<u8>>)
    ensures
        res is Some,
        res.unwrap()@ == header_bytes(h@),
{
    bincode::serialize(&(h.timestamp, &h.prev_hash, h.bits, h.nonce)).ok()
}

/// The current time as seconds since the Unix epoch, from
/// `chrono::Utc::now().timestamp()`. Trusted for nothing: it reads the
/// clock.
#[verifier::external_body]
fn now_timestamp() -> (res: i64) {
    chrono::Utc::now().timestamp()
}

/// `bigint::U256::from(1usize) << shift`, as its 32 big-endian bytes
/// (`From<U256> for [u8; 32]`). Trusted: the bytes read as the number
/// `2^shift` when `shift < 256`, and as zero otherwise (the shift drops the
/// bits that leave the 256-bit word).
#[verifier::external_body]
fn u256_one_shl(shift: usize) -> (res: Vec<u8>)
    ensures
        res@.len() == 32,
        be_value(res@) == if shift < 256 { pow2(shift as nat) } else { 0 },
{
    let target = bigint::U256::from(1usize) << shift;
    let bytes: [u8; 32] = target.into();
    bytes.to_vec()
}

/// Compares two 32-byte big-endian numbers with
/// `bigint::U256::from(&[u8])` and `PartialOrd::lt`. Trusted: the answer
/// is whether the first number is below the second. (`from_big_endian`
/// copies the bytes into the little-endian words of a `U256`, which gives
/// this reading on little-endian targets.)
#[verifier::external_body]
fn u256_lt(a: &[u8], b: &[u8]) -> (res: bool)
    requires
        a@.len() == 32,
        b@.len() == 32,
    ensures
        res == (be_value(a@) < be_value(b@)),
{
    bigint::U256::from(a).lt(&bigint::U256::from(b))
}

impl BlockHeader {
    /// A header at `timestamp` following `prev_hash`, with nonce zero.
    pub fn new_at(prev_hash: &str, bits: usize, timestamp: i64) -> (res: Self)
        ensures
            res@ == (BlockHeaderModel { timestamp, prev_hash: prev_hash@, bits, nonce: 0 }),
    {
        Self { timestamp, prev_hash: prev_hash.to_owned(), bits, nonce: 0 }
    }

    /// A header stamped with the current time.
    fn new(prev_hash: &str, bits: usize) -> (res: Self)
        ensures
            res@.prev_hash == prev_hash@,
            res@.bits == bits,
            res@.nonce == 0,
    {
        Self::new_at(prev_hash, bits, now_timestamp())
    }

    /// A header made of the given fields.
    pub fn from_parts(timestamp: i64, prev_hash: String, bits: usize, nonce: usize) -> (res: Self)
        ensures
            res@ == (BlockHeaderModel { timestamp, prev_hash: prev_hash@, bits, nonce }),
    {
        Self { timestamp, prev_hash, bits, nonce }
    }

    /// The creation time.
    pub fn get_timestamp(&self) -> (res: i64)
        ensures
            res == self@.timestamp,
    {
        self.timestamp
    }

    /// The hash of the previous block.
    pub fn get_prev_hash(&self) -> (res: String)
        ensures
            res@ == self@.prev_hash,
    {
        self.prev_hash.clone()
    }

    /// The difficulty.
    pub fn get_bits(&self) -> (res: usize)
        ensures
            res == self@.bits,
    {
        self.bits
    }

    /// The nonce.
    pub fn get_nonce(&self) -> (res: usize)
        ensures
            res == self@.nonce,
    {
        self.nonce
    }

    /// A copy of this header.
    pub fn duplicate(&self) -> (res: Self)
        ensures
            res@ == self@,
    {
        Self {
            timestamp: self.timestamp,
            prev_hash: self.prev_hash.clone(),
            bits: self.bits,
            nonce: self.nonce,
        }
    }
}

/// The proof of work for one difficulty: a 256-bit target, held as its 32
/// big-endian bytes.
pub struct ProofOfWork {
    target: Vec<u8>,
    bits: Ghost<nat>,
}

impl ProofOfWork {
    /// The target is 32 bytes long and is `pow_target(bits)`.
    #[verifier::type_invariant]
    spec fn inv(&self) -> bool {
        &&& self.target@.len() == 32
        &&& self.bits@ <= 256
        &&& be_value(self.target@) == pow_target(self.bits@)
    }

    /// The difficulty this proof of work was made for.
    pub closed spec fn difficulty(&self) -> nat {
        self.bits@
    }

    /// The proof of work of difficulty `bits`: target `1 << (256 - bits)`.
    pub fn new(bits: usize) -> (res: Self)
        requires
            bits <= 256,
        ensures
            res.difficulty() == bits,
    {
        let target = u256_one_shl(256 - bits);
        ProofOfWork { target, bits: Ghost(bits as nat) }
    }

    /// Seals `block`: tries nonces from zero up and keeps the first whose
    /// header hash is below the target, setting the block hash to that
    /// header's hash text.
    pub fn run(&self, block: &mut Block)
        ensures
            mined(old(block)@, self.difficulty(), final(block)@),
    {
        proof {
            use_type_invariant(self);
        }
        let ghost start = block@;
        let mut nonce: usize = 0;
        while nonce < MAX_NONCE
            invariant
                self.target@.len() == 32,
                self.difficulty() <= 256,
                be_value(self.target@) == pow_target(self.difficulty()),
                start == old(block)@,
                block@.data == start.data,
                block@.hash == start.hash,
                block@.header == with_nonce(start.header, block@.header.nonce),
                nonce > 0 ==> block@.header.nonce == nonce - 1,
                nonce == 0 ==> block@.header.nonce == start.header.nonce,
                forall|n: usize| n < nonce ==> !#[trigger] meets_target(with_nonce(start.header, n), self.difficulty()),
            decreases MAX_NONCE - nonce,
        {
            let pre_hash = Self::prepare_data(block, nonce);
            let mut hash_u: Vec<u8> = vec![0u8; 32];
            hash_to_u8(pre_hash.as_slice(), hash_u.as_mut_slice());
            assert(hash_u@ =~= sha3_256(header_bytes(block@.header)));
            if u256_lt(hash_u.as_slice(), self.target.as_slice()) {
                proof {
                    let bits = self.difficulty();
                    if 8 <= bits {
                        if bits > 8 {
                            lemma_pow2_strictly_increases((256 - bits) as nat, 248);
                        }
                        assert((8 * (hash_u@.len() - 1)) as nat == 248);
                        lemma_small_value_hex(hash_u@);
                    }
                }
                block.set_hash(hash_to_str(pre_hash.as_slice()));
                return;
            } else {
                nonce = nonce + 1;
            }
        }
    }

    /// Sets the nonce of `block` and encodes its header.
    fn prepare_data(block: &mut Block, nonce: usize) -> (res: Vec<u8>)
        ensures
            final(block)@ == (BlockModel {
                header: with_nonce(old(block)@.header, nonce),
                ..old(block)@
            }),
            res@ == header_bytes(final(block)@.header),
    {
        block.set_nonce(nonce);
        let header = block.get_header();
        match serialize_header(&header) {
            Some(bytes) => bytes,
            None => Vec::new(),
        }
    }
}

/// The text of the first block of a chain.
pub open spec fn genesis_data() -> Seq<char> {
    "创世区块"@
}

impl Block {
    /// A block holding `data` after `prev_hash`, stamped with `timestamp`
    /// and sealed by a proof of work of difficulty `bits`.
    pub fn new_at(data: &str, prev_hash: &str, bits: usize, timestamp: i64) -> (res: Self)
        requires
            bits <= 256,
        ensures
            mined(
                BlockModel {
                    header: BlockHeaderModel { timestamp, prev_hash: prev_hash@, bits, nonce: 0 },
                    data: data@,
                    hash: Seq::empty(),
                },
                bits as nat,
                res@,
            ),
    {
        Self::seal(BlockHeader::new_at(prev_hash, bits, timestamp), data, bits)
    }

    /// A block holding `data` after `prev_hash`, stamped with the current
    /// time and sealed by a proof of work of difficulty `bits`.
    pub fn new(data: &str, prev_hash: &str, bits: usize) -> (res: Self)
        requires
            bits <= 256,
        ensures
            mined(
                BlockModel {
                    header: with_nonce(res@.header, 0),
                    data: data@,
                    hash: Seq::empty(),
                },
                bits as nat,
                res@,
            ),
            res@.header.prev_hash == prev_hash@,
            res@.header.bits == bits,
    {
        Self::seal(BlockHeader::new(prev_hash, bits), data, bits)
    }

    /// Runs the proof of work over a fresh block with `header` and `data`.
    fn seal(header: BlockHeader, data: &str, bits: usize) -> (res: Self)
        requires
            bits <= 256,
        ensures
            mined(BlockModel { header: header@, data: data@, hash: Seq::empty() }, bits as nat, res@),
    {
        let mut block = Block { header, data: data.to_owned(), hash: String::new() };
        let pow = ProofOfWork::new(bits);
        pow.run(&mut block);
        block
    }

    /// The first block of a chain: fixed text, no previous hash.
    pub fn create_genesis_block(bits: usize) -> (res: Self)
        requires
            bits <= 256,
        ensures
            mined(
                BlockModel {
                    header: with_nonce(res@.header, 0),
                    data: genesis_data(),
                    hash: Seq::empty(),
                },
                bits as nat,
                res@,
            ),
            res@.header.prev_hash == Seq::<char>::empty(),
            res@.header.bits == bits,
    {
        let prev = "";
        proof {
            reveal_strlit("");
        }
        Self::new("创世区块", prev, bits)
    }

    /// A block made of the given parts.
    pub fn from_parts(header: BlockHeader, data: String, hash: String) -> (res: Self)
        ensures
            res@ == (BlockModel { header: header@, data: data@, hash: hash@ }),
    {
        Self { header, data, hash }
    }

    /// The block hash.
    pub fn get_hash(&self) -> (res: String)
        ensures
            res@ == self@.hash,
    {
        self.hash.clone()
    }

    /// A copy of the header.
    pub fn get_header(&self) -> (res: BlockHeader)
        ensures
            res@ == self@.header,
    {
        self.header.duplicate()
    }

    /// The payload.
    pub fn get_data(&self) -> (res: String)
        ensures
            res@ == self@.data,
    {
        self.data.clone()
    }

    /// Replaces the nonce.
    pub fn set_nonce(&mut self, nonce: usize)
        ensures
            final(self)@ == (BlockModel { header: with_nonce(old(self)@.header, nonce), ..old(self)@ }),
    {
        self.header.nonce = nonce;
    }

    /// Replaces the hash.
    pub fn set_hash(&mut self, hash: String)
        ensures
            final(self)@ == (BlockModel { hash: hash@, ..old(self)@ }),
    {
        self.hash = hash;
    }

    /// A copy of this block.
    pub fn duplicate(&self) -> (res: Self)
        ensures
            res@ == self@,
    {
        Self { header: self.header.duplicate(), data: self.data.clone(), hash: self.hash.clone() }
    }
}

} // verus!
