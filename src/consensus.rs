//! Compact difficulty targets, the proof-of-work predicate, mining and
//! difficulty retargeting.
use vstd::prelude::*;

use num_bigint::BigUint;
use vstd::arithmetic::power2::pow2;

use crate::bignum::{
    be_value, byte_len, is_minimal, lemma_be_value_bound, lemma_be_value_div,
    lemma_be_value_leading_zeros, lemma_be_value_ones, lemma_be_value_single, lemma_minimal_len,
    lemma_byte_len, lemma_pow256_adds, lemma_pow256_mono, lemma_pow256_pos, lemma_pow256_pow2,
    max_u256, ones, pow256,
};
use crate::block::{Block, Header, Transaction, TxView, lemma_header_view_injective, txs_view};
use crate::chain::{Blockchain, accepts, block_valid_at, chain_valid, template_header};
use crate::codec::header_hash;
use crate::merkle::{compute_merkle_root, merkle_ok, merkle_root_spec, zero_hash};
use crate::crypto::Hashable;
use crate::error::HeaderError;

verus! {

/// Target block time in seconds.
pub const TARGET_BLOCK_TIME: u32 = 600;

/// Number of blocks between two difficulty adjustments.
pub const ADJUSTMENT_INTERVAL: usize = 10;

const MANTISSA_MASK: u32 = 0x007fffff;

/// The exponent byte of a compact target.
pub open spec fn compact_exponent(c: u32) -> nat {
    (c >> 24u32) as nat
}

/// The 23-bit mantissa of a compact target; the sign bit is always dropped.
pub open spec fn compact_mantissa(c: u32) -> nat {
    (c & 0x007fffffu32) as nat
}

/// The 256-bit target that a compact value stands for, before any cap.
pub open spec fn target_value(c: u32) -> nat {
    let e = compact_exponent(c);
    let m = compact_mantissa(c);
    if e >= 3 {
        m * pow256((e - 3) as nat)
    } else {
        m / pow256((3 - e) as nat)
    }
}

/// `v`, or the all-ones 256-bit number where `v` does not fit in 256 bits.
pub open spec fn cap_u256(v: nat) -> nat {
    if v > max_u256() {
        max_u256()
    } else {
        v
    }
}

/// The three leading bytes of the minimal rendering of `v`, as a number,
/// zero-filled on the right when there are fewer.
pub open spec fn leading_mantissa(v: nat) -> nat {
    let size = byte_len(v);
    if size <= 3 {
        v * pow256((3 - size) as nat)
    } else {
        v / pow256((size - 3) as nat)
    }
}

/// The compact encoding of a target: `size << 24 | mantissa`, with the
/// mantissa shifted down one byte (and the size raised) where its top bit
/// would be set.
pub open spec fn compact_of(v: nat) -> u32 {
    let size = byte_len(v);
    let m = leading_mantissa(v);
    if m >= 0x800000 {
        ((size + 1) * 0x1000000 + m / 256) as u32
    } else {
        (size * 0x1000000 + m) as u32
    }
}

/// The proof-of-work predicate: the header's digest, read as a big-endian
/// number, is at most the target of its compact difficulty.
pub open spec fn pow_ok(h: Header) -> bool {
    be_value(header_hash(h)) <= target_value(h.difficulty_compact)
}

/// Relies on `num_bigint`: `BigUint::from(v) << bits`, rendered by
/// `BigUint::to_bytes_be`.
#[verifier::external_body]
fn shl_to_bytes(v: u32, bits: u32) -> (r: Vec<u8>)
    ensures
        be_value(r@) == (v as nat) * pow2(bits as nat),
        is_minimal(r@),
{
    (BigUint::from(v) << bits).to_bytes_be()
}

/// Relies on `num_bigint`: `BigUint::from(v) >> bits`, rendered by
/// `BigUint::to_bytes_be`.
#[verifier::external_body]
fn shr_to_bytes(v: u32, bits: u32) -> (r: Vec<u8>)
    ensures
        be_value(r@) == (v as nat) / pow2(bits as nat),
        is_minimal(r@),
{
    (BigUint::from(v) >> bits).to_bytes_be()
}

/// Relies on `num_bigint`: `BigUint * u32` on the big-endian number `a`.
#[verifier::external_body]
fn mul_to_bytes(a: &[u8], k: u32) -> (r: Vec<u8>)
    ensures
        be_value(r@) == be_value(a@) * (k as nat),
        is_minimal(r@),
{
    (BigUint::from_bytes_be(a) * k).to_bytes_be()
}

/// Relies on `num_bigint`: `BigUint / u32` on the big-endian number `a`,
/// which panics on a zero divisor.
#[verifier::external_body]
fn div_to_bytes(a: &[u8], d: u32) -> (r: Vec<u8>)
    requires
        d > 0,
    ensures
        be_value(r@) == be_value(a@) / (d as nat),
        is_minimal(r@),
{
    (BigUint::from_bytes_be(a) / d).to_bytes_be()
}

/// Relies on `num_bigint`: `BigUint <= BigUint` on two big-endian numbers.
#[verifier::external_body]
fn be_le(a: &[u8], b: &[u8]) -> (r: bool)
    ensures
        r == (be_value(a@) <= be_value(b@)),
{
    BigUint::from_bytes_be(a) <= BigUint::from_bytes_be(b)
}

/// Renders a minimal big-endian number as 32 bytes, saturating at the
/// all-ones value.
fn fit_u256(bytes: &Vec<u8>) -> (r: [u8; 32])
    requires
        is_minimal(bytes@),
    ensures
        be_value(r@) == cap_u256(be_value(bytes@)),
{
    proof {
        lemma_minimal_len(bytes@);
    }
    let n = bytes.len();
    if n > 32 {
        proof {
            lemma_pow256_mono(32, (n - 1) as nat);
            lemma_be_value_ones(32);
        }
        let r = [0xffu8; 32];
        assert(r@ =~= ones(32));
        return r;
    }
    let mut out = [0u8; 32];
    let start = 32 - n;
    let mut i: usize = 0;
    while i < n
        invariant
            n == bytes@.len(),
            n <= 32,
            start == 32 - n,
            0 <= i <= n,
            forall|j: int| 0 <= j < start ==> out@[j] == 0,
            forall|j: int| 0 <= j < i ==> out@[start + j] == bytes@[j],
        decreases n - i,
    {
        out[start + i] = bytes[i];
        i += 1;
    }
    proof {
        lemma_be_value_leading_zeros(out@, start as int);
        assert(out@.subrange(start as int, 32) =~= bytes@);
        lemma_pow256_mono(n as nat, 32);
    }
    out
}

/// The 256-bit target of a compact difficulty, big-endian; a target too
/// large for 256 bits saturates at all ones.
pub fn compact_to_target(difficulty_compact: u32) -> (r: [u8; 32])
    ensures
        be_value(r@) == cap_u256(target_value(difficulty_compact)),
{
    let exponent = difficulty_compact >> 24u32;
    let mantissa = difficulty_compact & MANTISSA_MASK;
    assert(difficulty_compact >> 24u32 <= 255) by (bit_vector);
    let bytes = if exponent >= 3 {
        let k = exponent - 3;
        proof {
            lemma_pow256_pow2(k as nat);
        }
        shl_to_bytes(mantissa, 8 * k)
    } else {
        let k = 3 - exponent;
        proof {
            lemma_pow256_pow2(k as nat);
        }
        shr_to_bytes(mantissa, 8 * k)
    };
    fit_u256(&bytes)
}

proof fn lemma_be_value_three(s: Seq<u8>)
    requires
        s.len() == 3,
    ensures
        be_value(s) == (s[0] as nat) * 65536 + (s[1] as nat) * 256 + (s[2] as nat),
{
    assert(s.drop_last().drop_last() =~= seq![s[0]]);
    lemma_be_value_single(s[0]);
    assert(be_value(s) == be_value(s.drop_last()) * 256 + (s[2] as nat));
    assert(be_value(s.drop_last()) == be_value(s.drop_last().drop_last()) * 256 + (s[1] as nat));
}

proof fn lemma_be_value_two(s: Seq<u8>)
    requires
        s.len() == 2,
    ensures
        be_value(s) == (s[0] as nat) * 256 + (s[1] as nat),
{
    assert(s.drop_last() =~= seq![s[0]]);
    lemma_be_value_single(s[0]);
    assert(be_value(s) == be_value(s.drop_last()) * 256 + (s[1] as nat));
}

/// After `i` zero bytes, the first non-zero byte of a 256-bit target starts
/// its minimal rendering, and it and the next two bytes form the leading
/// mantissa.
#[verifier::spinoff_prover]
proof fn lemma_leading_bytes(t: Seq<u8>, i: int)
    requires
        t.len() == 32,
        0 <= i < 32,
        t[i] != 0,
        forall|j: int| 0 <= j < i ==> t[j] == 0,
    ensures
        byte_len(be_value(t)) == 32 - i,
        leading_mantissa(be_value(t)) == (t[i] as nat) * 65536 + (if i + 1 < 32 {
            t[i + 1] as nat
        } else {
            0
        }) * 256 + (if i + 2 < 32 {
            t[i + 2] as nat
        } else {
            0
        }),
{
    lemma_be_value_leading_zeros(t, i);
    let s = t.subrange(i, 32);
    let v = be_value(t);
    let size = 32 - i;
    lemma_minimal_len(s);
    assert(byte_len(v) == size);
    if size > 3 {
        lemma_be_value_div(s, size - 3);
        let s3 = s.subrange(0, 3);
        lemma_be_value_three(s3);
        assert(s3[0] == t[i] && s3[1] == t[i + 1] && s3[2] == t[i + 2]);
        assert(s.subrange(0, s.len() - (size - 3)) =~= s3);
        assert(leading_mantissa(v) == v / pow256((size - 3) as nat));
    } else if size == 3 {
        lemma_be_value_three(s);
        assert(pow256(0) == 1);
        assert(leading_mantissa(v) == v * pow256(0));
    } else if size == 2 {
        lemma_be_value_two(s);
        assert(pow256(1) == 256) by {
            reveal_with_fuel(pow256, 2);
        }
        assert(leading_mantissa(v) == v * pow256(1));
    } else {
        assert(s =~= seq![s[0]]);
        lemma_be_value_single(s[0]);
        assert(pow256(2) == 65536) by {
            reveal_with_fuel(pow256, 3);
        }
        assert(leading_mantissa(v) == v * pow256(2));
    }
}

/// The compact encoding of a 256-bit big-endian target.
pub fn target_to_compact(target: &[u8; 32]) -> (r: u32)
    ensures
        r == compact_of(be_value(target@)),
{
    let mut i: usize = 0;
    while i < 32 && target[i] == 0
        invariant
            0 <= i <= 32,
            forall|j: int| 0 <= j < i ==> target@[j] == 0,
        decreases 32 - i,
    {
        i += 1;
    }
    proof {
        lemma_be_value_leading_zeros(target@, i as int);
    }
    let ghost v = be_value(target@);
    let mut size: u32;
    let mut mantissa: u32;
    if i == 32 {
        assert(target@.subrange(32, 32) =~= Seq::<u8>::empty());
        assert(v == 0);
        assert(pow256(2) == 65536) by {
            reveal_with_fuel(pow256, 3);
        }
        size = 1;
        mantissa = 0;
    } else {
        size = (32 - i) as u32;
        let b0 = target[i] as u32;
        let b1 = if i + 1 < 32 {
            target[i + 1] as u32
        } else {
            0
        };
        let b2 = if i + 2 < 32 {
            target[i + 2] as u32
        } else {
            0
        };
        mantissa = b0 * 65536 + b1 * 256 + b2;
        proof {
            lemma_leading_bytes(target@, i as int);
        }
        assert(mantissa == leading_mantissa(v));
    }
    assert(byte_len(v) == size);
    if mantissa >= 0x800000 {
        mantissa = mantissa / 256;
        size = size + 1;
    }
    size * 0x1000000 + mantissa
}

impl Header {
    /// The 256-bit target of this header's compact difficulty.
    pub fn compact_to_target(&self) -> (r: [u8; 32])
        ensures
            be_value(r@) == cap_u256(target_value(self.difficulty_compact)),
    {
        compact_to_target(self.difficulty_compact)
    }

    /// Checks the proof of work of this header.
    pub fn validate_pow(&self) -> (r: Result<(), HeaderError>)
        ensures
            pow_ok(*self) ==> r is Ok,
            !pow_ok(*self) ==> r == Err::<(), _>(HeaderError::InvalidPoW),
    {
        if !validate_pow(self) {
            return Err(HeaderError::InvalidPoW);
        }
        Ok(())
    }
}

/// The proof-of-work predicate on a given digest: `hash`, read as a
/// big-endian number, is at most the target of `difficulty_compact`.
pub fn fake_validate_pow(hash: [u8; 32], difficulty_compact: u32) -> (r: bool)
    ensures
        r == (be_value(hash@) <= target_value(difficulty_compact)),
{
    let target = compact_to_target(difficulty_compact);
    proof {
        lemma_be_value_bound(hash@);
    }
    be_le(&hash, &target)
}

/// The proof-of-work predicate on a header.
pub fn validate_pow(header: &Header) -> (r: bool)
    ensures
        r == pow_ok(*header),
{
    let hash = header.double_sha256();
    let target = compact_to_target(header.difficulty_compact);
    proof {
        lemma_be_value_bound(hash@);
    }
    be_le(&hash, &target)
}


/// `h` with its nonce replaced by `n`.
pub open spec fn with_nonce(h: Header, n: u64) -> Header {
    Header { nonce: n, ..h }
}

/// No nonce below the header's own meets its target: the header is the one
/// that a search upward from zero finds.
pub open spec fn least_nonce(h: Header) -> bool {
    forall|n: u64| n < h.nonce ==> !pow_ok(#[trigger] with_nonce(h, n))
}

/// Searches nonces upward from zero for the first one that meets the
/// header's target. The header is left holding the nonce last tried.
pub fn mine_block(header: &mut Header) -> (r: Option<Header>)
    ensures
        match r {
            Some(h) => {
                &&& h == with_nonce(*old(header), h.nonce)
                &&& pow_ok(h)
                &&& forall|n: u64| n < h.nonce ==> !pow_ok(#[trigger] with_nonce(*old(header), n))
                &&& *final(header) == h
            },
            None => forall|n: u64| !pow_ok(#[trigger] with_nonce(*old(header), n)),
        },
{
    let ghost h0 = *header;
    let mut nonce: u64 = 0;
    loop
        invariant
            *header == with_nonce(h0, header.nonce),
            h0 == *old(header),
            forall|n: u64| n < nonce ==> !pow_ok(#[trigger] with_nonce(h0, n)),
        decreases u64::MAX - nonce,
    {
        header.nonce = nonce;
        if validate_pow(header) {
            return Some(*header);
        }
        if nonce == u64::MAX {
            return None;
        }
        nonce = nonce + 1;
    }
}


/// The compact difficulty that follows a window from `first_time` to
/// `last_time` whose last block had `last_compact`: the target scaled by the
/// actual span (at least one second) over the expected one, capped at 256
/// bits.
pub open spec fn retarget(first_time: u32, last_time: u32, last_compact: u32) -> u32 {
    let actual: nat = if last_time > first_time {
        (last_time - first_time) as nat
    } else {
        1
    };
    compact_of(cap_u256(cap_u256(target_value(last_compact)) * actual / 6000))
}

/// The difficulty required of the block after `blocks`: unchanged except at
/// the end of each adjustment window.
pub open spec fn next_difficulty(blocks: Seq<Block>) -> u32 {
    let n = blocks.len();
    if n < 10 || n % 10 != 0 {
        blocks.last().header.difficulty_compact
    } else {
        retarget(
            blocks[n - 10].header.time,
            blocks.last().header.time,
            blocks.last().header.difficulty_compact,
        )
    }
}

/// The compact difficulty required of the next block of `chain`.
pub fn adjust_difficulty(chain: &Blockchain) -> (r: u32)
    requires
        chain.blocks@.len() > 0,
    ensures
        r == next_difficulty(chain.blocks@),
{
    let len = chain.len();
    let last_block = chain.latest_block();
    if len < ADJUSTMENT_INTERVAL || len % ADJUSTMENT_INTERVAL != 0 {
        return last_block.header.difficulty_compact;
    }
    let first_block = &chain.blocks[len - ADJUSTMENT_INTERVAL];
    let actual_time = if last_block.header.time > first_block.header.time {
        last_block.header.time - first_block.header.time
    } else {
        1
    };
    let expected_time = TARGET_BLOCK_TIME * (ADJUSTMENT_INTERVAL as u32);
    let target = compact_to_target(last_block.header.difficulty_compact);
    let scaled = mul_to_bytes(&target, actual_time);
    let quotient = div_to_bytes(scaled.as_slice(), expected_time);
    let capped = fit_u256(&quotient);
    target_to_compact(&capped)
}

/// When the window's last timestamp is before its first, the span counts as
/// one second.
pub proof fn lemma_retarget_clamps_span(first_time: u32, last_time: u32, last_compact: u32)
    requires
        last_time <= first_time,
    ensures
        retarget(first_time, last_time, last_compact) == compact_of(
            cap_u256(cap_u256(target_value(last_compact)) / 6000),
        ),
{
}

/// "genesis"
pub open spec fn genesis_input() -> Seq<u8> {
    seq![103u8, 101, 110, 101, 115, 105, 115]
}

/// "genesis_out"
pub open spec fn genesis_output() -> Seq<u8> {
    seq![103u8, 101, 110, 101, 115, 105, 115, 95, 111, 117, 116]
}

/// The one transaction of the genesis block.
pub open spec fn genesis_tx() -> TxView {
    TxView { inputs: seq![genesis_input()], outputs: seq![genesis_output()] }
}

/// A genesis header, whatever its nonce.
pub open spec fn is_genesis_header(h: Header) -> bool {
    &&& h.version == 1
    &&& h.time == 0
    &&& h.difficulty_compact == 0x207fffff
    &&& h.prev_hash@ == zero_hash()
    &&& h.merkle_root@ == merkle_root_spec(seq![genesis_tx()])
}

/// Builds and mines the genesis block; `None` only when no nonce meets its
/// target.
pub fn create_genesis_block() -> (r: Option<Block>)
    ensures
        match r {
            Some(b) => {
                &&& is_genesis_header(b.header)
                &&& txs_view(b.transactions@) == seq![genesis_tx()]
                &&& merkle_ok(b)
                &&& pow_ok(b.header)
                &&& least_nonce(b.header)
            },
            None => forall|h: Header| is_genesis_header(h) ==> !pow_ok(h),
        },
{
    let input: Vec<u8> = vec![103u8, 101, 110, 101, 115, 105, 115];
    let output: Vec<u8> = vec![103u8, 101, 110, 101, 115, 105, 115, 95, 111, 117, 116];
    assert(input.deep_view() =~= genesis_input());
    assert(output.deep_view() =~= genesis_output());
    let inputs: Vec<Vec<u8>> = vec![input];
    let outputs: Vec<Vec<u8>> = vec![output];
    assert(inputs.deep_view() =~= seq![genesis_input()]);
    assert(outputs.deep_view() =~= seq![genesis_output()]);
    let tx = Transaction { inputs, outputs };
    let txs: Vec<Transaction> = vec![tx];
    assert(txs_view(txs@) =~= seq![genesis_tx()]);
    let merkle_root = compute_merkle_root(txs.as_slice());
    let zero = [0u8; 32];
    assert(zero@ =~= zero_hash());
    let mut header = Header::new(1, 0, 0x207fffff, 0, zero, merkle_root);
    let ghost template = header;
    match mine_block(&mut header) {
        Some(mined) => {
            assert forall|n: u64| n < mined.nonce implies !pow_ok(#[trigger] with_nonce(mined, n)) by {
                assert(with_nonce(mined, n) == with_nonce(template, n));
            }
            Some(Block::new(mined, txs))
        },
        None => {
            assert forall|h: Header| is_genesis_header(h) implies !pow_ok(h) by {
                assert(with_nonce(template, h.nonce)@ == h@);
                lemma_header_view_injective(with_nonce(template, h.nonce), h);
            }
            None
        },
    }
}

impl Blockchain {
    /// A chain whose only block is a freshly mined genesis block.
    pub fn new_with_genesis() -> (r: Option<Blockchain>)
        ensures
            match r {
                Some(c) => {
                    &&& c.blocks@.len() == 1
                    &&& is_genesis_header(c.blocks@[0].header)
                    &&& txs_view(c.blocks@[0].transactions@) == seq![genesis_tx()]
                    &&& least_nonce(c.blocks@[0].header)
                    &&& chain_valid(c.blocks@, false)
                },
                None => forall|h: Header| is_genesis_header(h) ==> !pow_ok(h),
            },
    {
        match create_genesis_block() {
            Some(genesis) => {
                let c = Blockchain::new(genesis);
                assert(block_valid_at(c.blocks@, 0, false));
                Some(c)
            },
            None => None,
        }
    }

    /// Builds a template on the tail at the required difficulty and mines it.
    pub fn mine_new_block(chain: &Blockchain, transactions: Vec<Transaction>, timestamp: u32) -> (r:
        Option<Block>)
        requires
            chain.blocks@.len() > 0,
        ensures
            match r {
                Some(b) => {
                    &&& template_header(
                        chain.blocks@.last(),
                        txs_view(transactions@),
                        next_difficulty(chain.blocks@),
                        timestamp,
                        b.header,
                    )
                    &&& b.transactions == transactions
                    &&& accepts(chain.blocks@.last(), b, false)
                    &&& least_nonce(b.header)
                },
                None => forall|h: Header|
                    template_header(
                        chain.blocks@.last(),
                        txs_view(transactions@),
                        next_difficulty(chain.blocks@),
                        timestamp,
                        h,
                    ) ==> !pow_ok(h),
            },
    {
        let difficulty = adjust_difficulty(chain);
        let mut block = chain.create_block_template(transactions, difficulty, timestamp);
        let ghost template = block.header;
        match mine_block(&mut block.header) {
            Some(mined) => {
                assert forall|n: u64| n < mined.nonce implies !pow_ok(
                    #[trigger] with_nonce(mined, n),
                ) by {
                    assert(with_nonce(mined, n) == with_nonce(template, n));
                }
                Some(block)
            },
            None => {
                assert forall|h: Header|
                    template_header(
                        chain.blocks@.last(),
                        txs_view(transactions@),
                        next_difficulty(chain.blocks@),
                        timestamp,
                        h,
                    ) implies !pow_ok(h) by {
                    assert(with_nonce(template, h.nonce)@ == h@);
                    lemma_header_view_injective(with_nonce(template, h.nonce), h);
                }
                None
            },
        }
    }
}

/// Appending a block that `add_block` accepts with proof of work keeps a
/// fully valid chain fully valid.
pub proof fn lemma_append_keeps_chain_valid(blocks: Seq<Block>, b: Block)
    requires
        blocks.len() > 0,
        chain_valid(blocks, false),
        accepts(blocks.last(), b, false),
    ensures
        chain_valid(blocks.push(b), false),
{
    let nb = blocks.push(b);
    assert forall|i: int| 0 <= i < nb.len() implies #[trigger] block_valid_at(nb, i, false) by {
        if i < blocks.len() {
            assert(block_valid_at(blocks, i, false));
        }
    }
}

/// A chain that starts from a mined genesis block and grows only by blocks
/// that `add_block` accepts with proof of work passes full validation.
#[verifier::spinoff_prover]
pub proof fn lemma_mined_chain_valid(blocks: Seq<Block>)
    requires
        blocks.len() > 0,
        merkle_ok(blocks[0]),
        pow_ok(blocks[0].header),
        forall|i: int| 0 < i < blocks.len() ==> #[trigger] accepts(blocks[i - 1], blocks[i], false),
    ensures
        chain_valid(blocks, false),
    decreases blocks.len(),
{
    if blocks.len() == 1 {
        lemma_genesis_chain_valid(blocks[0]);
        assert(blocks =~= seq![blocks[0]]);
    } else {
        let prefix = blocks.drop_last();
        assert forall|i: int| 0 < i < prefix.len() implies #[trigger] accepts(
            prefix[i - 1],
            prefix[i],
            false,
        ) by {
            assert(accepts(blocks[i - 1], blocks[i], false));
        }
        lemma_mined_chain_valid(prefix);
        let i = blocks.len() - 1;
        assert(0 < i < blocks.len());
        assert(accepts(blocks[i - 1], blocks[i], false));
        assert(prefix.last() == blocks[i - 1]);
        lemma_append_keeps_chain_valid(prefix, blocks.last());
        assert(prefix.push(blocks.last()) =~= blocks);
    }
}

/// A mined genesis block alone is a fully valid chain.
pub proof fn lemma_genesis_chain_valid(g: Block)
    requires
        merkle_ok(g),
        pow_ok(g.header),
    ensures
        chain_valid(seq![g], false),
{
    assert(block_valid_at(seq![g], 0, false));
}


/// The compact values that `target_to_compact` gives back unchanged after
/// `compact_to_target`: the sign bit clear, and a mantissa normalised to its
/// exponent. These are the values that `target_to_compact` produces.
pub open spec fn is_canonical_compact(c: u32) -> bool {
    let e = compact_exponent(c);
    let m = compact_mantissa(c);
    &&& c & 0x00800000u32 == 0
    &&& {
        ||| c == 0x01000000u32
        ||| (0x10000 <= m && 1 <= e <= 32 && (e < 3 ==> m % pow256((3 - e) as nat) == 0))
        ||| (0x8000 <= m < 0x10000 && 2 <= e <= 33 && (e == 2 ==> m % 256 == 0))
    }
}

proof fn lemma_small_powers()
    ensures
        pow256(0) == 1,
        pow256(1) == 256,
        pow256(2) == 65536,
        pow256(3) == 16777216,
{
    reveal_with_fuel(pow256, 4);
}

proof fn lemma_compact_fields(c: u32)
    requires
        c & 0x00800000u32 == 0,
    ensures
        c as nat == compact_exponent(c) * 0x1000000 + compact_mantissa(c),
        compact_exponent(c) <= 255,
        compact_mantissa(c) < 0x800000,
{
    assert(c & 0x00800000u32 == 0 ==> c == (c >> 24u32) * 0x1000000u32 + (c & 0x007fffffu32))
        by (bit_vector);
    assert((c >> 24u32) <= 255u32) by (bit_vector);
    assert((c & 0x007fffffu32) < 0x800000u32) by (bit_vector);
}

proof fn lemma_mul_div_cancel(m: nat, p: nat)
    requires
        p > 0,
    ensures
        (m * p) / p == m,
{
    vstd::arithmetic::div_mod::lemma_div_by_multiple(m as int, p as int);
}

/// Converting a canonical compact value to its target and back gives the
/// same compact value.
#[verifier::spinoff_prover]
pub proof fn lemma_compact_round_trip(c: u32)
    requires
        is_canonical_compact(c),
    ensures
        compact_of(cap_u256(target_value(c))) == c,
{
    let e = compact_exponent(c);
    let m = compact_mantissa(c);
    lemma_compact_fields(c);
    lemma_small_powers();
    let v = target_value(c);
    if c == 0x01000000u32 {
        assert(c == 0x01000000u32 ==> (c >> 24u32) == 1u32 && (c & 0x007fffffu32) == 0u32)
            by (bit_vector);
        assert(v == 0);
        lemma_byte_len(0, 1);
        assert(cap_u256(v) == 0);
    } else if 0x10000 <= m {
        // The mantissa fills three bytes; the target has `e` bytes.
        if e >= 3 {
            let k = (e - 3) as nat;
            let p = pow256(k);
            lemma_pow256_adds(2, k);
            lemma_pow256_adds(3, k);
            lemma_pow256_pos(k);
            assert(v == m * p);
            assert(65536 * p <= m * p) by (nonlinear_arith)
                requires
                    65536 <= m,
            ;
            assert(m * p < 16777216 * p) by (nonlinear_arith)
                requires
                    m < 0x800000,
                    p >= 1,
            ;
            assert((2 + k) as nat == (e - 1) as nat);
            assert((3 + k) as nat == e);
            lemma_byte_len(v, e);
            lemma_pow256_mono(e, 32);
            lemma_mul_div_cancel(m, p);
            assert(leading_mantissa(v) == m);
        } else {
            let k = (3 - e) as nat;
            let p = pow256(k);
            assert(p == 256 || p == 65536);
            assert(v == m / p);
            let q = m / p;
            assert(m == q * p) by (nonlinear_arith)
                requires
                    m % p == 0,
                    p > 0,
                    q == m / p,
            ;
            if e == 1 {
                assert(1 <= q < 256) by (nonlinear_arith)
                    requires
                        q * 65536 == m,
                        0x10000 <= m < 0x800000,
                ;
            } else {
                assert(256 <= q < 65536) by (nonlinear_arith)
                    requires
                        q * 256 == m,
                        0x10000 <= m < 0x800000,
                ;
            }
            lemma_byte_len(v, e);
            lemma_pow256_mono(e, 32);
            assert(leading_mantissa(v) == m);
        }
        assert(cap_u256(v) == v);
    } else {
        // The mantissa's top byte is zero and its second byte has the high
        // bit set: the target has `e - 1` bytes.
        if e >= 3 {
            let k = (e - 3) as nat;
            let p = pow256(k);
            lemma_pow256_adds(1, k);
            lemma_pow256_adds(2, k);
            lemma_pow256_pos(k);
            assert(v == m * p);
            assert(256 * p <= m * p) by (nonlinear_arith)
                requires
                    0x8000 <= m,
            ;
            assert(m * p < 65536 * p) by (nonlinear_arith)
                requires
                    m < 0x10000,
                    p >= 1,
            ;
            assert((1 + k) as nat == (e - 2) as nat);
            assert((2 + k) as nat == (e - 1) as nat);
            lemma_byte_len(v, (e - 1) as nat);
            lemma_pow256_mono((e - 1) as nat, 32);
            if e - 1 <= 3 {
                assert(e == 3 || e == 4);
                if e == 3 {
                    assert(k == 0);
                    assert(p == 1);
                    assert(v == m * 1);
                    assert(v == m);
                    assert(leading_mantissa(v) == v * pow256(1));
                    assert(leading_mantissa(v) == m * 256);
                } else {
                    assert(p == 256) by {
                        reveal_with_fuel(pow256, 2);
                    }
                    assert(leading_mantissa(v) == v * pow256(0));
                    assert(leading_mantissa(v) == m * 256);
                }
            } else {
                let k2 = (e - 4) as nat;
                let p2 = pow256(k2);
                assert(k == k2 + 1);
                assert(p == 256 * p2);
                lemma_pow256_pos(k2);
                assert(v == (m * 256) * p2) by (nonlinear_arith)
                    requires
                        v == m * p,
                        p == 256 * p2,
                ;
                lemma_mul_div_cancel(m * 256, p2);
                assert(leading_mantissa(v) == m * 256);
            }
        } else {
            assert(e == 2);
            let q = m / 256;
            assert(m == q * 256);
            assert(128 <= q < 256);
            assert(v == q);
            lemma_byte_len(v, 1);
            lemma_pow256_mono(1, 32);
            assert(leading_mantissa(v) == q * 65536);
            assert(leading_mantissa(v) == m * 256);
        }
        assert(cap_u256(v) == v);
        assert((m * 256) / 256 == m);
    }
}


/// A canonical compact value denotes `m * 256^(e-3)` exactly, and fits in
/// 256 bits.
#[verifier::spinoff_prover]
proof fn lemma_canonical_exact(c: u32)
    requires
        is_canonical_compact(c),
    ensures
        target_value(c) * pow256(3) == compact_mantissa(c) * pow256(compact_exponent(c)),
        target_value(c) <= max_u256(),
{
    let e = compact_exponent(c);
    let m = compact_mantissa(c);
    let v = target_value(c);
    lemma_compact_fields(c);
    lemma_small_powers();
    if e >= 3 {
        let k = (e - 3) as nat;
        lemma_pow256_adds(k, 3);
        assert((k + 3) as nat == e);
        assert(v * pow256(3) == m * pow256(e)) by (nonlinear_arith)
            requires
                v == m * pow256(k),
                pow256(e) == pow256(k) * pow256(3),
        ;
    } else {
        let k = (3 - e) as nat;
        lemma_pow256_adds(k, e);
        assert((k + e) as nat == 3);
        if c == 0x01000000u32 {
            assert(c == 0x01000000u32 ==> (c & 0x007fffffu32) == 0u32) by (bit_vector);
            assert(m == 0);
        } else {
            assert(m % pow256(k) == 0);
        }
        lemma_pow256_pos(k);
        assert(v * pow256(3) == m * pow256(e)) by (nonlinear_arith)
            requires
                v == m / pow256(k),
                m % pow256(k) == 0,
                pow256(k) > 0,
                pow256(3) == pow256(k) * pow256(e),
        ;
    }
    // Bound: m < 256^3 and e <= 32, or m < 256^2 and e <= 33.
    let bound: nat = if m >= 0x10000 {
        3
    } else {
        2
    };
    if c != 0x01000000u32 {
        assert(e + bound <= 35);
    } else {
        assert(c == 0x01000000u32 ==> (c >> 24u32) == 1u32) by (bit_vector);
    }
    lemma_pow256_mono(e + bound, 35);
    lemma_pow256_adds(bound, e);
    lemma_pow256_adds(32, 3);
    lemma_pow256_pos(e);
    assert(m < pow256(bound));
    assert(m * pow256(e) < pow256(bound) * pow256(e)) by (nonlinear_arith)
        requires
            m < pow256(bound),
            pow256(e) > 0,
    ;
    assert(v * pow256(3) < pow256(32) * pow256(3));
    assert(v < pow256(32)) by (nonlinear_arith)
        requires
            v * pow256(3) < pow256(32) * pow256(3),
            pow256(3) > 0,
    ;
}

/// Between canonical compact values, a larger compact (an easier difficulty)
/// stands for a strictly larger target.
#[verifier::spinoff_prover]
pub proof fn lemma_easier_compact_larger_target(c1: u32, c2: u32)
    requires
        is_canonical_compact(c1),
        is_canonical_compact(c2),
        c1 > c2,
    ensures
        cap_u256(target_value(c1)) > cap_u256(target_value(c2)),
{
    let e1 = compact_exponent(c1);
    let m1 = compact_mantissa(c1);
    let e2 = compact_exponent(c2);
    let m2 = compact_mantissa(c2);
    lemma_canonical_exact(c1);
    lemma_canonical_exact(c2);
    lemma_compact_fields(c1);
    lemma_compact_fields(c2);
    lemma_small_powers();
    let x1 = m1 * pow256(e1);
    let x2 = m2 * pow256(e2);
    lemma_pow256_pos(e1);
    lemma_pow256_pos(e2);
    if c2 == 0x01000000u32 {
        assert(c2 == 0x01000000u32 ==> (c2 & 0x007fffffu32) == 0u32) by (bit_vector);
        assert(x2 == 0);
        assert(m1 >= 0x8000);
        assert(x1 > 0) by (nonlinear_arith)
            requires
                m1 >= 0x8000,
                pow256(e1) > 0,
                x1 == m1 * pow256(e1),
        ;
    } else {
        assert(m1 >= 0x8000 && m2 >= 0x8000);
        assert(e1 >= e2);
        if e1 == e2 {
            assert(m1 > m2);
            assert(x1 > x2) by (nonlinear_arith)
                requires
                    m1 > m2,
                    pow256(e1) > 0,
                    e1 == e2,
                    x1 == m1 * pow256(e1),
                    x2 == m2 * pow256(e2),
            ;
        } else {
            let q = pow256((e1 - 1) as nat);
            assert(pow256(e1) == 256 * q);
            lemma_pow256_mono(e2, (e1 - 1) as nat);
            assert(x1 > x2) by (nonlinear_arith)
                requires
                    m1 >= 0x8000,
                    m2 < 0x800000,
                    pow256(e1) == 256 * q,
                    pow256(e2) <= q,
                    pow256(e2) > 0,
                    x1 == m1 * pow256(e1),
                    x2 == m2 * pow256(e2),
            ;
        }
    }
    let v1 = target_value(c1);
    let v2 = target_value(c2);
    assert(v1 > v2) by (nonlinear_arith)
        requires
            v1 * 16777216 == x1,
            v2 * 16777216 == x2,
            x1 > x2,
    ;
}

} // verus!
