//! Block value model: versioned blocks, content-addressed references and
//! digests, and the canonical wire encoding the digest is computed over.

use crate::committee::AuthorityIndex;
use vstd::array::ArrayAdditionalExecFns;
use vstd::prelude::*;

verus! {

/// Round number of a block.
pub type Round = u32;

/// Block proposal timestamp in milliseconds.
pub type BlockTimestampMs = u64;

/// Width of a block digest in bytes.
pub const DIGEST_LENGTH: usize = 32;

/// The transaction serialised bytes.
#[derive(Clone, Eq, PartialEq, Default, Debug)]
pub struct Transaction {
    data: Vec<u8>,
}

impl Transaction {
    pub fn new(data: Vec<u8>) -> (r: Self)
        ensures
            r@ == data@,
    {
        Self { data }
    }

    pub fn data(&self) -> (r: &[u8])
        ensures
            r@ == self@,
    {
        self.data.as_slice()
    }

    pub fn into_data(self) -> (r: Vec<u8>)
        ensures
            r@ == self@,
    {
        self.data
    }
}

impl View for Transaction {
    type V = Seq<u8>;

    closed spec fn view(&self) -> Seq<u8> {
        self.data@
    }
}

/// Hash of a block; covers all fields of the canonical encoding.
#[derive(Clone, Copy, Default, PartialEq, Eq, PartialOrd, Ord, Hash, Debug)]
pub struct BlockDigest(pub [u8; DIGEST_LENGTH]);

impl View for BlockDigest {
    type V = Seq<u8>;

    open spec fn view(&self) -> Seq<u8> {
        self.0@
    }
}

/// BlockRef is the minimum info that uniquely identifies a block.
#[derive(Clone, Copy, Default, PartialEq, Eq, PartialOrd, Ord, Hash, Debug)]
pub struct BlockRef {
    pub round: Round,
    pub author: AuthorityIndex,
    pub digest: BlockDigest,
}

impl BlockRef {
    pub fn new_test(author: AuthorityIndex, round: Round, digest: BlockDigest) -> (r: Self)
        ensures
            r == (BlockRef { round, author, digest }),
    {
        Self { round, author, digest }
    }
}

/// Little-endian bytes of a 32-bit integer.
pub open spec fn u32_le_bytes(x: u32) -> Seq<u8> {
    seq![
        (x & 0xff) as u8,
        ((x >> 8) & 0xff) as u8,
        ((x >> 16) & 0xff) as u8,
        ((x >> 24) & 0xff) as u8,
    ]
}

/// Little-endian bytes of a 64-bit integer.
pub open spec fn u64_le_bytes(x: u64) -> Seq<u8> {
    seq![
        (x & 0xff) as u8,
        ((x >> 8) & 0xff) as u8,
        ((x >> 16) & 0xff) as u8,
        ((x >> 24) & 0xff) as u8,
        ((x >> 32) & 0xff) as u8,
        ((x >> 40) & 0xff) as u8,
        ((x >> 48) & 0xff) as u8,
        ((x >> 56) & 0xff) as u8,
    ]
}

/// Unsigned LEB128 bytes of a length or variant tag: seven value bits per
/// byte, least significant group first, high bit set on every byte but the
/// last.
pub open spec fn uleb128_bytes(n: nat) -> Seq<u8>
    decreases n,
{
    if n < 0x80 {
        seq![n as u8]
    } else {
        seq![((n % 0x80) + 0x80) as u8] + uleb128_bytes(n / 0x80)
    }
}

/// The fields a block reference contributes to the canonical encoding.
pub struct BlockRefData {
    pub round: u32,
    pub author: u32,
    pub digest: Seq<u8>,
}

impl View for BlockRef {
    type V = BlockRefData;

    open spec fn view(&self) -> BlockRefData {
        BlockRefData { round: self.round, author: self.author, digest: self.digest@ }
    }
}

/// Canonical bytes of one block reference.
pub open spec fn block_ref_bytes(r: BlockRefData) -> Seq<u8> {
    u32_le_bytes(r.round) + u32_le_bytes(r.author) + r.digest
}

/// Canonical bytes of a list of block references, in order.
pub open spec fn ancestors_bytes(refs: Seq<BlockRefData>) -> Seq<u8>
    decreases refs.len(),
{
    if refs.len() == 0 {
        Seq::empty()
    } else {
        block_ref_bytes(refs[0]) + ancestors_bytes(refs.drop_first())
    }
}

/// Canonical bytes of one transaction: its length, then its payload.
pub open spec fn transaction_bytes(t: Seq<u8>) -> Seq<u8> {
    uleb128_bytes(t.len()) + t
}

/// Canonical bytes of a list of transactions, in order.
pub open spec fn transactions_bytes(ts: Seq<Seq<u8>>) -> Seq<u8>
    decreases ts.len(),
{
    if ts.len() == 0 {
        Seq::empty()
    } else {
        transaction_bytes(ts[0]) + transactions_bytes(ts.drop_first())
    }
}

/// The fields of a block, as the canonical encoding sees them.
pub struct BlockData {
    pub round: Round,
    pub author: AuthorityIndex,
    pub timestamp_ms: BlockTimestampMs,
    pub ancestors: Seq<BlockRefData>,
    pub transactions: Seq<Seq<u8>>,
}

impl BlockData {
    /// Every ancestor digest has the fixed width.
    pub open spec fn wf(&self) -> bool {
        forall|i: int|
            0 <= i < self.ancestors.len() ==> (#[trigger] self.ancestors[i]).digest.len()
                == DIGEST_LENGTH
    }
}

/// Canonical bytes of the fields of a block: fixed field order, fixed
/// integer widths, length-prefixed variable-length fields; the memoised
/// digest is never part of the encoding.
pub open spec fn block_v1_bytes(b: BlockData) -> Seq<u8> {
    u32_le_bytes(b.round) + u32_le_bytes(b.author) + u64_le_bytes(b.timestamp_ms) + uleb128_bytes(
        b.ancestors.len(),
    ) + ancestors_bytes(b.ancestors) + uleb128_bytes(b.transactions.len()) + transactions_bytes(
        b.transactions,
    )
}

/// Canonical bytes of a whole block: the version tag, then the fields.
pub open spec fn block_bytes(b: BlockData) -> Seq<u8> {
    seq![0u8] + block_v1_bytes(b)
}

fn write_u32_le(out: &mut Vec<u8>, x: u32)
    ensures
        final(out)@ == old(out)@ + u32_le_bytes(x),
{
    out.push((x & 0xff) as u8);
    out.push(((x >> 8) & 0xff) as u8);
    out.push(((x >> 16) & 0xff) as u8);
    out.push(((x >> 24) & 0xff) as u8);
    proof {
        assert(out@ =~= old(out)@ + u32_le_bytes(x));
    }
}

fn write_u64_le(out: &mut Vec<u8>, x: u64)
    ensures
        final(out)@ == old(out)@ + u64_le_bytes(x),
{
    out.push((x & 0xff) as u8);
    out.push(((x >> 8) & 0xff) as u8);
    out.push(((x >> 16) & 0xff) as u8);
    out.push(((x >> 24) & 0xff) as u8);
    out.push(((x >> 32) & 0xff) as u8);
    out.push(((x >> 40) & 0xff) as u8);
    out.push(((x >> 48) & 0xff) as u8);
    out.push(((x >> 56) & 0xff) as u8);
    proof {
        assert(out@ =~= old(out)@ + u64_le_bytes(x));
    }
}

fn write_uleb128(out: &mut Vec<u8>, n: u64)
    ensures
        final(out)@ == old(out)@ + uleb128_bytes(n as nat),
{
    let ghost n0 = n;
    let mut n = n;
    while n >= 0x80
        invariant
            out@ + uleb128_bytes(n as nat) == old(out)@ + uleb128_bytes(n0 as nat),
        decreases n,
    {
        let b: u8 = ((n & 0x7f) | 0x80) as u8;
        proof {
            assert((n & 0x7f) | 0x80 == (n % 0x80) + 0x80) by (bit_vector)
                requires
                    n >= 0x80,
            ;
            assert(uleb128_bytes(n as nat) == seq![b] + uleb128_bytes((n / 0x80) as nat));
        }
        let ghost pre = out@;
        out.push(b);
        proof {
            assert(pre + uleb128_bytes(n as nat) =~= out@ + uleb128_bytes((n / 0x80) as nat));
        }
        n = n / 0x80;
    }
    out.push(n as u8);
    proof {
        assert(out@ =~= old(out)@ + uleb128_bytes(n0 as nat));
    }
}

/// Names the 32-byte hash the digest is computed with; the result depends on
/// the input bytes alone.
pub uninterp spec fn hash_bytes(s: Seq<u8>) -> Seq<u8>;

/// Relies on fastcrypto's Blake2b256: a pure 32-byte digest of the input.
#[verifier::external_body]
fn blake2b256(bytes: &Vec<u8>) -> (r: [u8; 32])
    ensures
        r@ == hash_bytes(bytes@),
        r@.len() == 32,
{
    <fastcrypto::hash::Blake2b256 as fastcrypto::hash::HashFunction<32>>::digest(
        bytes.as_slice(),
    ).digest
}

/// Names the standard base64 rendering of a byte string; the result depends
/// on the bytes alone.
pub uninterp spec fn base64_of(bytes: Seq<u8>) -> Seq<char>;

/// Relies on base64's standard-alphabet engine: a pure rendering of the
/// bytes; an empty input renders empty.
#[verifier::external_body]
fn base64_encode(bytes: &[u8]) -> (r: String)
    ensures
        r@ == base64_of(bytes@),
        bytes@.len() == 0 ==> r@.len() == 0,
{
    base64::Engine::encode(&base64::engine::general_purpose::STANDARD, bytes)
}

impl BlockDigest {
    /// The digest rendered in standard base64, for logs and operators.
    pub fn to_base64(&self) -> (r: String)
        ensures
            r@ == base64_of(self@),
    {
        base64_encode(self.0.as_slice())
    }
}

/// A block includes references to previous round blocks and transactions
/// that the validator considers valid. Well behaved validators produce at
/// most one block per round, but malicious validators can equivocate.
///
/// Blocks are a tagged union so the wire format can evolve; the variant tag
/// leads the canonical encoding and is therefore covered by the digest.
pub enum Block {
    V1(BlockV1),
}

/// The first (and only) block version.
pub struct BlockV1 {
    pub round: Round,
    pub author: AuthorityIndex,
    pub timestamp_ms: BlockTimestampMs,
    pub ancestors: Vec<BlockRef>,
    pub transactions: Vec<Transaction>,
}

impl View for BlockV1 {
    type V = BlockData;

    open spec fn view(&self) -> BlockData {
        BlockData {
            round: self.round,
            author: self.author,
            timestamp_ms: self.timestamp_ms,
            ancestors: self.ancestors@.map_values(|r: BlockRef| r@),
            transactions: self.transactions@.map_values(|t: Transaction| t@),
        }
    }
}

impl View for Block {
    type V = BlockData;

    open spec fn view(&self) -> BlockData {
        match self {
            Block::V1(inner) => inner@,
        }
    }
}

/// Read access to a block's fields and derived identity, for every version.
pub trait BlockAPI: View<V = BlockData> {
    fn reference(&self) -> (r: BlockRef)
        ensures
            r.round == self@.round,
            r.author == self@.author,
            r.digest@ == hash_bytes(block_bytes(self@)),
    ;

    fn digest(&self) -> (r: BlockDigest)
        ensures
            r@ == hash_bytes(block_bytes(self@)),
    ;

    fn round(&self) -> (r: Round)
        ensures
            r == self@.round,
    ;

    fn author(&self) -> (r: AuthorityIndex)
        ensures
            r == self@.author,
    ;

    fn timestamp_ms(&self) -> (r: BlockTimestampMs)
        ensures
            r == self@.timestamp_ms,
    ;

    fn ancestors(&self) -> (r: &[BlockRef])
        ensures
            r@.map_values(|a: BlockRef| a@) == self@.ancestors,
    ;
}

fn write_bytes(out: &mut Vec<u8>, v: &[u8])
    ensures
        final(out)@ == old(out)@ + v@,
{
    let mut i: usize = 0;
    while i < v.len()
        invariant
            0 <= i <= v@.len(),
            out@ == old(out)@ + v@.take(i as int),
        decreases v@.len() - i,
    {
        out.push(v[i]);
        proof {
            assert(old(out)@ + v@.take(i as int + 1) =~= (old(out)@ + v@.take(i as int)).push(
                v@[i as int],
            ));
        }
        i = i + 1;
    }
    proof {
        assert(v@.take(v@.len() as int) =~= v@);
        assert(out@ =~= old(out)@ + v@);
    }
}

/// Appending one reference extends the encoding by that reference.
proof fn lemma_ancestors_bytes_push(refs: Seq<BlockRefData>, r: BlockRefData)
    ensures
        ancestors_bytes(refs.push(r)) == ancestors_bytes(refs) + block_ref_bytes(r),
    decreases refs.len(),
{
    if refs.len() == 0 {
        assert(refs.push(r)[0] == r);
        assert(refs.push(r).drop_first() =~= Seq::<BlockRefData>::empty());
        assert(ancestors_bytes(Seq::<BlockRefData>::empty()) == Seq::<u8>::empty());
        assert(ancestors_bytes(refs.push(r)) == block_ref_bytes(r) + Seq::<u8>::empty());
        assert(block_ref_bytes(r) + Seq::<u8>::empty() =~= block_ref_bytes(r));
        assert(ancestors_bytes(refs) + block_ref_bytes(r) =~= block_ref_bytes(r));
    } else {
        assert(refs.push(r).drop_first() =~= refs.drop_first().push(r));
        lemma_ancestors_bytes_push(refs.drop_first(), r);
        assert(refs.push(r)[0] == refs[0]);
        assert(ancestors_bytes(refs.push(r)) == block_ref_bytes(refs[0]) + (ancestors_bytes(
            refs.drop_first(),
        ) + block_ref_bytes(r)));
        assert(block_ref_bytes(refs[0]) + (ancestors_bytes(refs.drop_first()) + block_ref_bytes(r))
            =~= (block_ref_bytes(refs[0]) + ancestors_bytes(refs.drop_first())) + block_ref_bytes(
            r,
        ));
    }
}

/// Appending one transaction extends the encoding by that transaction.
proof fn lemma_transactions_bytes_push(ts: Seq<Seq<u8>>, t: Seq<u8>)
    ensures
        transactions_bytes(ts.push(t)) == transactions_bytes(ts) + transaction_bytes(t),
    decreases ts.len(),
{
    if ts.len() == 0 {
        assert(ts.push(t)[0] == t);
        assert(ts.push(t).drop_first() =~= Seq::<Seq<u8>>::empty());
        assert(transactions_bytes(Seq::<Seq<u8>>::empty()) == Seq::<u8>::empty());
        assert(transactions_bytes(ts.push(t)) == transaction_bytes(t) + Seq::<u8>::empty());
        assert(transaction_bytes(t) + Seq::<u8>::empty() =~= transaction_bytes(t));
        assert(transactions_bytes(ts) + transaction_bytes(t) =~= transaction_bytes(t));
    } else {
        assert(ts.push(t).drop_first() =~= ts.drop_first().push(t));
        lemma_transactions_bytes_push(ts.drop_first(), t);
        assert(ts.push(t)[0] == ts[0]);
        assert(transaction_bytes(ts[0]) + (transactions_bytes(ts.drop_first())
            + transaction_bytes(t)) =~= (transaction_bytes(ts[0]) + transactions_bytes(
            ts.drop_first(),
        )) + transaction_bytes(t));
    }
}

fn write_block_ref(out: &mut Vec<u8>, r: &BlockRef)
    ensures
        final(out)@ == old(out)@ + block_ref_bytes(r@),
{
    write_u32_le(out, r.round);
    write_u32_le(out, r.author);
    write_bytes(out, r.digest.0.as_slice());
    proof {
        assert(out@ =~= old(out)@ + block_ref_bytes(r@));
    }
}

fn write_block_v1(out: &mut Vec<u8>, b: &BlockV1)
    ensures
        final(out)@ == old(out)@ + block_v1_bytes(b@),
{
    let ghost base = out@;
    write_u32_le(out, b.round);
    write_u32_le(out, b.author);
    write_u64_le(out, b.timestamp_ms);
    write_uleb128(out, b.ancestors.len() as u64);
    let ghost anc = b@.ancestors;
    let ghost head = out@;
    let mut i: usize = 0;
    proof {
        assert(anc.take(0) =~= Seq::<BlockRefData>::empty());
        assert(head + ancestors_bytes(anc.take(0)) =~= head);
    }
    while i < b.ancestors.len()
        invariant
            0 <= i <= b.ancestors@.len(),
            anc == b@.ancestors,
            anc.len() == b.ancestors@.len(),
            forall|j: int| 0 <= j < anc.len() ==> anc[j] == b.ancestors@[j]@,
            out@ == head + ancestors_bytes(anc.take(i as int)),
        decreases b.ancestors@.len() - i,
    {
        write_block_ref(out, &b.ancestors[i]);
        proof {
            assert(anc.take(i as int + 1) =~= anc.take(i as int).push(anc[i as int]));
            lemma_ancestors_bytes_push(anc.take(i as int), anc[i as int]);
        }
        i = i + 1;
    }
    proof {
        assert(anc.take(anc.len() as int) =~= anc);
    }
    write_uleb128(out, b.transactions.len() as u64);
    let ghost txs = b@.transactions;
    let ghost head2 = out@;
    let mut k: usize = 0;
    proof {
        assert(txs.take(0) =~= Seq::<Seq<u8>>::empty());
        assert(head2 + transactions_bytes(txs.take(0)) =~= head2);
    }
    while k < b.transactions.len()
        invariant
            0 <= k <= b.transactions@.len(),
            txs == b@.transactions,
            txs.len() == b.transactions@.len(),
            forall|j: int| 0 <= j < txs.len() ==> txs[j] == b.transactions@[j]@,
            out@ == head2 + transactions_bytes(txs.take(k as int)),
        decreases b.transactions@.len() - k,
    {
        let t = &b.transactions[k];
        write_uleb128(out, t.data().len() as u64);
        write_bytes(out, t.data());
        proof {
            assert(txs.take(k as int + 1) =~= txs.take(k as int).push(txs[k as int]));
            lemma_transactions_bytes_push(txs.take(k as int), txs[k as int]);
        }
        k = k + 1;
    }
    proof {
        assert(txs.take(txs.len() as int) =~= txs);
        assert(out@ =~= base + block_v1_bytes(b@));
    }
}

impl BlockV1 {
    pub fn new(
        round: Round,
        author: AuthorityIndex,
        timestamp_ms: BlockTimestampMs,
        ancestors: Vec<BlockRef>,
        transactions: Vec<Transaction>,
    ) -> (r: BlockV1)
        ensures
            r == (BlockV1 { round, author, timestamp_ms, ancestors, transactions }),
    {
        Self { round, author, timestamp_ms, ancestors, transactions }
    }
}

impl Block {
    /// The canonical deterministic encoding of this block, version tag first.
    pub fn serialize(&self) -> (r: Vec<u8>)
        ensures
            r@ == block_bytes(self@),
    {
        let mut out: Vec<u8> = Vec::new();
        out.push(0u8);
        proof {
            assert(out@ =~= seq![0u8]);
        }
        match self {
            Block::V1(inner) => {
                write_block_v1(&mut out, inner);
            },
        }
        out
    }
}

impl BlockAPI for Block {
    fn reference(&self) -> (r: BlockRef)
        ensures
            r.round == self@.round,
            r.author == self@.author,
            r.digest@ == hash_bytes(block_bytes(self@)),
    {
        match self {
            Block::V1(inner) => inner.reference(),
        }
    }

    fn digest(&self) -> (r: BlockDigest)
        ensures
            r@ == hash_bytes(block_bytes(self@)),
    {
        match self {
            Block::V1(inner) => BlockAPI::digest(inner),
        }
    }

    fn round(&self) -> (r: Round)
        ensures
            r == self@.round,
    {
        match self {
            Block::V1(inner) => inner.round,
        }
    }

    fn author(&self) -> (r: AuthorityIndex)
        ensures
            r == self@.author,
    {
        match self {
            Block::V1(inner) => inner.author,
        }
    }

    fn timestamp_ms(&self) -> (r: BlockTimestampMs)
        ensures
            r == self@.timestamp_ms,
    {
        match self {
            Block::V1(inner) => inner.timestamp_ms,
        }
    }

    fn ancestors(&self) -> (r: &[BlockRef])
        ensures
            r@.map_values(|a: BlockRef| a@) == self@.ancestors,
    {
        match self {
            Block::V1(inner) => inner.ancestors.as_slice(),
        }
    }
}

impl BlockAPI for BlockV1 {
    fn reference(&self) -> (r: BlockRef)
        ensures
            r.round == self@.round,
            r.author == self@.author,
            r.digest@ == hash_bytes(block_bytes(self@)),
    {
        BlockRef { round: self.round, author: self.author, digest: BlockAPI::digest(self) }
    }

    /// The digest is a pure function of the canonical bytes, so recomputing
    /// it is deterministic; no cache is kept.
    fn digest(&self) -> (r: BlockDigest)
        ensures
            r@ == hash_bytes(block_bytes(self@)),
    {
        let mut out: Vec<u8> = Vec::new();
        out.push(0u8);
        proof {
            assert(out@ =~= seq![0u8]);
        }
        write_block_v1(&mut out, self);
        BlockDigest(blake2b256(&out))
    }

    fn round(&self) -> (r: Round)
        ensures
            r == self@.round,
    {
        self.round
    }

    fn author(&self) -> (r: AuthorityIndex)
        ensures
            r == self@.author,
    {
        self.author
    }

    fn timestamp_ms(&self) -> (r: BlockTimestampMs)
        ensures
            r == self@.timestamp_ms,
    {
        self.timestamp_ms
    }

    fn ancestors(&self) -> (r: &[BlockRef])
        ensures
            r@.map_values(|a: BlockRef| a@) == self@.ancestors,
    {
        self.ancestors.as_slice()
    }
}

/// Unverified block: its signature has not been checked yet, so only limited
/// access to its content is allowed.
pub struct SignedBlock {
    pub block: Block,
    pub signature: Vec<u8>,
    pub serialized: Vec<u8>,
}

/// Verified block: the signature check has completed, so the content is
/// available.
pub struct VerifiedBlock {
    pub block: Block,
    pub signature: Vec<u8>,
    pub serialized: Vec<u8>,
}

impl VerifiedBlock {
    pub fn new_for_test(block: Block) -> (r: VerifiedBlock)
        ensures
            r.block == block,
            r.signature@ == Seq::<u8>::empty(),
            r.serialized@ == Seq::<u8>::empty(),
    {
        Self { block, signature: Vec::new(), serialized: Vec::new() }
    }

    /// The underlying block.
    pub fn block(&self) -> (r: &Block)
        ensures
            r == &self.block,
    {
        &self.block
    }
}


/// The 32-bit integer the four little-endian bytes denote.
pub open spec fn u32_from_le(b0: u8, b1: u8, b2: u8, b3: u8) -> u32 {
    (b0 as u32) | ((b1 as u32) << 8) | ((b2 as u32) << 16) | ((b3 as u32) << 24)
}

/// The 64-bit integer the eight little-endian bytes denote.
pub open spec fn u64_from_le(
    b0: u8,
    b1: u8,
    b2: u8,
    b3: u8,
    b4: u8,
    b5: u8,
    b6: u8,
    b7: u8,
) -> u64 {
    (b0 as u64) | ((b1 as u64) << 8) | ((b2 as u64) << 16) | ((b3 as u64) << 24) | ((b4
        as u64) << 32) | ((b5 as u64) << 40) | ((b6 as u64) << 48) | ((b7 as u64) << 56)
}

/// Reads a 32-bit integer at `i`; yields the value and the next position.
pub open spec fn parse_u32(s: Seq<u8>, i: int) -> Option<(u32, int)> {
    if 0 <= i && i + 4 <= s.len() {
        Some((u32_from_le(s[i], s[i + 1], s[i + 2], s[i + 3]), i + 4))
    } else {
        None
    }
}

/// Reads a 64-bit integer at `i`.
pub open spec fn parse_u64(s: Seq<u8>, i: int) -> Option<(u64, int)> {
    if 0 <= i && i + 8 <= s.len() {
        Some(
            (
                u64_from_le(
                    s[i],
                    s[i + 1],
                    s[i + 2],
                    s[i + 3],
                    s[i + 4],
                    s[i + 5],
                    s[i + 6],
                    s[i + 7],
                ),
                i + 8,
            ),
        )
    } else {
        None
    }
}

/// Reads an unsigned LEB128 number at `i`.
pub open spec fn parse_uleb128(s: Seq<u8>, i: int) -> Option<(nat, int)>
    decreases s.len() - i,
{
    if 0 <= i && i < s.len() {
        let b = s[i];
        if b < 0x80 {
            Some((b as nat, i + 1))
        } else {
            match parse_uleb128(s, i + 1) {
                Some((n, j)) => Some(((b - 0x80) as nat + n * 0x80, j)),
                None => None,
            }
        }
    } else {
        None
    }
}

/// Reads a fixed-width digest at `i`.
pub open spec fn parse_digest(s: Seq<u8>, i: int) -> Option<(Seq<u8>, int)> {
    if 0 <= i && i + DIGEST_LENGTH <= s.len() {
        Some((s.subrange(i, i + DIGEST_LENGTH), i + DIGEST_LENGTH))
    } else {
        None
    }
}

/// Reads one block reference at `i`.
pub open spec fn parse_block_ref(s: Seq<u8>, i: int) -> Option<(BlockRefData, int)> {
    match parse_u32(s, i) {
        Some((round, j)) => match parse_u32(s, j) {
            Some((author, k)) => match parse_digest(s, k) {
                Some((digest, m)) => Some((BlockRefData { round, author, digest }, m)),
                None => None,
            },
            None => None,
        },
        None => None,
    }
}

/// Reads `count` block references at `i`.
pub open spec fn parse_ancestors(s: Seq<u8>, i: int, count: nat) -> Option<
    (Seq<BlockRefData>, int),
>
    decreases count,
{
    if count == 0 {
        Some((Seq::empty(), i))
    } else {
        match parse_block_ref(s, i) {
            Some((r, j)) => match parse_ancestors(s, j, (count - 1) as nat) {
                Some((rest, k)) => Some((seq![r] + rest, k)),
                None => None,
            },
            None => None,
        }
    }
}

/// Reads one length-prefixed transaction payload at `i`.
pub open spec fn parse_transaction(s: Seq<u8>, i: int) -> Option<(Seq<u8>, int)> {
    match parse_uleb128(s, i) {
        Some((n, j)) => if j + n <= s.len() {
            Some((s.subrange(j, j + n), j + n))
        } else {
            None
        },
        None => None,
    }
}

/// Reads `count` transactions at `i`.
pub open spec fn parse_transactions(s: Seq<u8>, i: int, count: nat) -> Option<(Seq<Seq<u8>>, int)>
    decreases count,
{
    if count == 0 {
        Some((Seq::empty(), i))
    } else {
        match parse_transaction(s, i) {
            Some((t, j)) => match parse_transactions(s, j, (count - 1) as nat) {
                Some((rest, k)) => Some((seq![t] + rest, k)),
                None => None,
            },
            None => None,
        }
    }
}

/// Reads the fields of a block at `i`.
pub open spec fn parse_block_v1(s: Seq<u8>, i: int) -> Option<(BlockData, int)> {
    match parse_u32(s, i) {
        Some((round, i1)) => match parse_u32(s, i1) {
            Some((author, i2)) => match parse_u64(s, i2) {
                Some((timestamp_ms, i3)) => match parse_uleb128(s, i3) {
                    Some((anc_count, i4)) => match parse_ancestors(s, i4, anc_count) {
                        Some((ancestors, i5)) => match parse_uleb128(s, i5) {
                            Some((tx_count, i6)) => match parse_transactions(s, i6, tx_count) {
                                Some((transactions, i7)) => Some(
                                    (
                                        BlockData {
                                            round,
                                            author,
                                            timestamp_ms,
                                            ancestors,
                                            transactions,
                                        },
                                        i7,
                                    ),
                                ),
                                None => None,
                            },
                            None => None,
                        },
                        None => None,
                    },
                    None => None,
                },
                None => None,
            },
            None => None,
        },
        None => None,
    }
}

/// Reads a whole block: the version tag, then the fields, consuming all of
/// the input.
pub open spec fn parse_block(s: Seq<u8>) -> Option<BlockData> {
    if s.len() >= 1 && s[0] == 0u8 {
        match parse_block_v1(s, 1) {
            Some((b, j)) => if j == s.len() {
                Some(b)
            } else {
                None
            },
            None => None,
        }
    } else {
        None
    }
}

proof fn lemma_subrange_head(s: Seq<u8>, i: int, a: Seq<u8>, rest: Seq<u8>)
    requires
        0 <= i <= s.len(),
        s.subrange(i, s.len() as int) == a + rest,
    ensures
        i + a.len() + rest.len() == s.len(),
        s.subrange(i, i + a.len()) =~= a,
        s.subrange(i + a.len(), s.len() as int) =~= rest,
        forall|k: int| 0 <= k < a.len() ==> s[i + k] == a[k],
{
    assert(s.subrange(i, s.len() as int).len() == a.len() + rest.len());
    assert forall|k: int| 0 <= k < a.len() implies s[i + k] == a[k] by {
        assert(s.subrange(i, s.len() as int)[k] == s[i + k]);
        assert((a + rest)[k] == a[k]);
    }
    assert forall|k: int| 0 <= k < a.len() implies s.subrange(i, i + a.len() as int)[k] == a[k] by {
        assert(s.subrange(i, i + a.len() as int)[k] == s[i + k]);
    }
    assert forall|k: int|
        0 <= k < rest.len() implies s.subrange(i + a.len(), s.len() as int)[k] == rest[k] by {
        assert(s.subrange(i + a.len(), s.len() as int)[k] == s[i + a.len() + k]);
        assert(s.subrange(i, s.len() as int)[a.len() + k] == s[i + a.len() + k]);
        assert((a + rest)[a.len() + k] == rest[k]);
    }
}

proof fn lemma_parse_u32_rt(s: Seq<u8>, i: int, x: u32, rest: Seq<u8>)
    requires
        0 <= i <= s.len(),
        s.subrange(i, s.len() as int) == u32_le_bytes(x) + rest,
    ensures
        parse_u32(s, i) == Some((x, i + 4)),
        i + 4 <= s.len(),
        s.subrange(i + 4, s.len() as int) == rest,
{
    lemma_subrange_head(s, i, u32_le_bytes(x), rest);
    assert(s[i] == (x & 0xff) as u8);
    assert(s[i + 1] == ((x >> 8) & 0xff) as u8);
    assert(s[i + 2] == ((x >> 16) & 0xff) as u8);
    assert(s[i + 3] == ((x >> 24) & 0xff) as u8);
    assert(u32_from_le(
        (x & 0xff) as u8,
        ((x >> 8) & 0xff) as u8,
        ((x >> 16) & 0xff) as u8,
        ((x >> 24) & 0xff) as u8,
    ) == x) by (bit_vector);
}

proof fn lemma_parse_u64_rt(s: Seq<u8>, i: int, x: u64, rest: Seq<u8>)
    requires
        0 <= i <= s.len(),
        s.subrange(i, s.len() as int) == u64_le_bytes(x) + rest,
    ensures
        parse_u64(s, i) == Some((x, i + 8)),
        i + 8 <= s.len(),
        s.subrange(i + 8, s.len() as int) == rest,
{
    lemma_subrange_head(s, i, u64_le_bytes(x), rest);
    assert(u64_from_le(
        (x & 0xff) as u8,
        ((x >> 8) & 0xff) as u8,
        ((x >> 16) & 0xff) as u8,
        ((x >> 24) & 0xff) as u8,
        ((x >> 32) & 0xff) as u8,
        ((x >> 40) & 0xff) as u8,
        ((x >> 48) & 0xff) as u8,
        ((x >> 56) & 0xff) as u8,
    ) == x) by (bit_vector);
}

proof fn lemma_parse_uleb128_rt(s: Seq<u8>, i: int, n: nat, rest: Seq<u8>)
    requires
        0 <= i <= s.len(),
        s.subrange(i, s.len() as int) == uleb128_bytes(n) + rest,
    ensures
        parse_uleb128(s, i) == Some((n, i + uleb128_bytes(n).len())),
        i + uleb128_bytes(n).len() <= s.len(),
        s.subrange(i + uleb128_bytes(n).len(), s.len() as int) == rest,
    decreases n,
{
    if n < 0x80 {
        lemma_subrange_head(s, i, uleb128_bytes(n), rest);
        assert(uleb128_bytes(n) == seq![n as u8]);
        assert(s[i + 0] == uleb128_bytes(n)[0]);
        assert(s[i] == n as u8);
    } else {
        let b = ((n % 0x80) + 0x80) as u8;
        let tail = uleb128_bytes(n / 0x80);
        assert(uleb128_bytes(n) + rest =~= seq![b] + (tail + rest));
        lemma_subrange_head(s, i, seq![b], tail + rest);
        assert(s[i + 0] == seq![b][0]);
        assert(s[i] == b);
        lemma_parse_uleb128_rt(s, i + 1, n / 0x80, rest);
        assert((b - 0x80) as nat + (n / 0x80) * 0x80 == n);
        assert(uleb128_bytes(n).len() == 1 + tail.len());
    }
}

proof fn lemma_parse_digest_rt(s: Seq<u8>, i: int, d: Seq<u8>, rest: Seq<u8>)
    requires
        0 <= i <= s.len(),
        d.len() == DIGEST_LENGTH,
        s.subrange(i, s.len() as int) == d + rest,
    ensures
        parse_digest(s, i) == Some((d, i + DIGEST_LENGTH)),
        i + DIGEST_LENGTH <= s.len(),
        s.subrange(i + DIGEST_LENGTH, s.len() as int) == rest,
{
    lemma_subrange_head(s, i, d, rest);
}

proof fn lemma_parse_block_ref_rt(s: Seq<u8>, i: int, r: BlockRefData, rest: Seq<u8>)
    requires
        0 <= i <= s.len(),
        r.digest.len() == DIGEST_LENGTH,
        s.subrange(i, s.len() as int) == block_ref_bytes(r) + rest,
    ensures
        parse_block_ref(s, i) == Some((r, i + block_ref_bytes(r).len())),
        i + block_ref_bytes(r).len() <= s.len(),
        s.subrange(i + block_ref_bytes(r).len(), s.len() as int) == rest,
{
    assert(block_ref_bytes(r) + rest =~= u32_le_bytes(r.round) + (u32_le_bytes(r.author) + (
    r.digest + rest)));
    lemma_parse_u32_rt(s, i, r.round, u32_le_bytes(r.author) + (r.digest + rest));
    lemma_parse_u32_rt(s, i + 4, r.author, r.digest + rest);
    lemma_parse_digest_rt(s, i + 8, r.digest, rest);
}

proof fn lemma_parse_ancestors_rt(s: Seq<u8>, i: int, refs: Seq<BlockRefData>, rest: Seq<u8>)
    requires
        0 <= i <= s.len(),
        forall|k: int| 0 <= k < refs.len() ==> (#[trigger] refs[k]).digest.len() == DIGEST_LENGTH,
        s.subrange(i, s.len() as int) == ancestors_bytes(refs) + rest,
    ensures
        parse_ancestors(s, i, refs.len()) == Some((refs, i + ancestors_bytes(refs).len())),
        i + ancestors_bytes(refs).len() <= s.len(),
        s.subrange(i + ancestors_bytes(refs).len(), s.len() as int) == rest,
    decreases refs.len(),
{
    if refs.len() == 0 {
        assert(ancestors_bytes(refs) + rest =~= rest);
        assert(parse_ancestors(s, i, 0) == Some((Seq::<BlockRefData>::empty(), i)));
        assert(Seq::<BlockRefData>::empty() =~= refs);
    } else {
        let r0 = refs[0];
        let tail = refs.drop_first();
        assert(ancestors_bytes(refs) + rest =~= block_ref_bytes(r0) + (ancestors_bytes(tail)
            + rest));
        lemma_parse_block_ref_rt(s, i, r0, ancestors_bytes(tail) + rest);
        let j = i + block_ref_bytes(r0).len();
        lemma_parse_ancestors_rt(s, j, tail, rest);
        assert(seq![r0] + tail =~= refs);
        assert((refs.len() - 1) as nat == tail.len());
    }
}

proof fn lemma_parse_transaction_rt(s: Seq<u8>, i: int, t: Seq<u8>, rest: Seq<u8>)
    requires
        0 <= i <= s.len(),
        s.subrange(i, s.len() as int) == transaction_bytes(t) + rest,
    ensures
        parse_transaction(s, i) == Some((t, i + transaction_bytes(t).len())),
        i + transaction_bytes(t).len() <= s.len(),
        s.subrange(i + transaction_bytes(t).len(), s.len() as int) == rest,
{
    assert(transaction_bytes(t) + rest =~= uleb128_bytes(t.len()) + (t + rest));
    lemma_parse_uleb128_rt(s, i, t.len(), t + rest);
    let j = i + uleb128_bytes(t.len()).len();
    lemma_subrange_head(s, j, t, rest);
    assert(s.subrange(j, j + t.len() as int) =~= t);
}

proof fn lemma_parse_transactions_rt(s: Seq<u8>, i: int, ts: Seq<Seq<u8>>, rest: Seq<u8>)
    requires
        0 <= i <= s.len(),
        s.subrange(i, s.len() as int) == transactions_bytes(ts) + rest,
    ensures
        parse_transactions(s, i, ts.len()) == Some((ts, i + transactions_bytes(ts).len())),
        i + transactions_bytes(ts).len() <= s.len(),
        s.subrange(i + transactions_bytes(ts).len(), s.len() as int) == rest,
    decreases ts.len(),
{
    if ts.len() == 0 {
        assert(transactions_bytes(ts) + rest =~= rest);
        assert(Seq::<Seq<u8>>::empty() =~= ts);
    } else {
        let t0 = ts[0];
        let tail = ts.drop_first();
        assert(transactions_bytes(ts) + rest =~= transaction_bytes(t0) + (transactions_bytes(tail)
            + rest));
        lemma_parse_transaction_rt(s, i, t0, transactions_bytes(tail) + rest);
        let j = i + transaction_bytes(t0).len();
        lemma_parse_transactions_rt(s, j, tail, rest);
        assert(seq![t0] + tail =~= ts);
        assert((ts.len() - 1) as nat == tail.len());
    }
}

proof fn lemma_parse_block_v1_rt(s: Seq<u8>, i: int, b: BlockData, rest: Seq<u8>)
    requires
        0 <= i <= s.len(),
        b.wf(),
        s.subrange(i, s.len() as int) == block_v1_bytes(b) + rest,
    ensures
        parse_block_v1(s, i) == Some((b, i + block_v1_bytes(b).len())),
        i + block_v1_bytes(b).len() <= s.len(),
        s.subrange(i + block_v1_bytes(b).len(), s.len() as int) == rest,
{
    let c1 = u32_le_bytes(b.round);
    let c2 = u32_le_bytes(b.author);
    let c3 = u64_le_bytes(b.timestamp_ms);
    let c4 = uleb128_bytes(b.ancestors.len());
    let c5 = ancestors_bytes(b.ancestors);
    let c6 = uleb128_bytes(b.transactions.len());
    let c7 = transactions_bytes(b.transactions);
    assert(block_v1_bytes(b) + rest =~= c1 + (c2 + (c3 + (c4 + (c5 + (c6 + (c7 + rest)))))));
    lemma_parse_u32_rt(s, i, b.round, c2 + (c3 + (c4 + (c5 + (c6 + (c7 + rest))))));
    let i1 = i + 4;
    lemma_parse_u32_rt(s, i1, b.author, c3 + (c4 + (c5 + (c6 + (c7 + rest)))));
    let i2 = i1 + 4;
    lemma_parse_u64_rt(s, i2, b.timestamp_ms, c4 + (c5 + (c6 + (c7 + rest))));
    let i3 = i2 + 8;
    lemma_parse_uleb128_rt(s, i3, b.ancestors.len(), c5 + (c6 + (c7 + rest)));
    let i4 = i3 + c4.len();
    lemma_parse_ancestors_rt(s, i4, b.ancestors, c6 + (c7 + rest));
    let i5 = i4 + c5.len();
    lemma_parse_uleb128_rt(s, i5, b.transactions.len(), c7 + rest);
    let i6 = i5 + c6.len();
    lemma_parse_transactions_rt(s, i6, b.transactions, rest);
    let i7 = i6 + c7.len();
    assert(i7 == i + block_v1_bytes(b).len());
}

/// Deserialising the canonical bytes of a block yields exactly the block's
/// fields back: the encoding loses nothing.
pub proof fn lemma_block_bytes_roundtrip(b: BlockData)
    requires
        b.wf(),
    ensures
        parse_block(block_bytes(b)) == Some(b),
{
    let s = block_bytes(b);
    assert(s[0] == 0u8);
    assert(s.subrange(1, s.len() as int) =~= block_v1_bytes(b) + Seq::<u8>::empty());
    lemma_parse_block_v1_rt(s, 1, b, Seq::<u8>::empty());
}

/// Deserialising a serialised block yields a block whose digest equals the
/// original's: the digest is a function of the canonical bytes alone.
pub proof fn lemma_deserialized_digest_matches(b: BlockData)
    requires
        b.wf(),
    ensures
        parse_block(block_bytes(b)) matches Some(b2) && hash_bytes(block_bytes(b2)) == hash_bytes(
            block_bytes(b),
        ),
{
    lemma_block_bytes_roundtrip(b);
}


proof fn lemma_parse_uleb128_bounds(s: Seq<u8>, i: int)
    ensures
        parse_uleb128(s, i) matches Some((n, j)) ==> i + 1 <= j <= s.len(),
    decreases s.len() - i,
{
    if 0 <= i && i < s.len() && s[i] >= 0x80 {
        lemma_parse_uleb128_bounds(s, i + 1);
    }
}

proof fn lemma_parse_ancestors_bounds(s: Seq<u8>, i: int, count: nat)
    ensures
        parse_ancestors(s, i, count) matches Some((refs, j)) ==> refs.len() == count && j >= i + 40
            * count && (count > 0 ==> j <= s.len()),
    decreases count,
{
    if count > 0 {
        match parse_block_ref(s, i) {
            Some((r, j)) => {
                assert(j == i + 40 && j <= s.len());
                lemma_parse_ancestors_bounds(s, j, (count - 1) as nat);
                match parse_ancestors(s, j, (count - 1) as nat) {
                    Some((rest, j2)) => {
                        assert((seq![r] + rest).len() == count);
                        assert(j2 >= j + 40 * ((count - 1) as int));
                        if count == 1 {
                            assert(j2 == j);
                        }
                    },
                    None => {},
                }
            },
            None => {},
        }
    }
}

proof fn lemma_parse_transactions_bounds(s: Seq<u8>, i: int, count: nat)
    ensures
        parse_transactions(s, i, count) matches Some((ts, j)) ==> ts.len() == count && j >= i
            + count && (count > 0 ==> j <= s.len()),
    decreases count,
{
    if count > 0 {
        match parse_transaction(s, i) {
            Some((t, j)) => {
                lemma_parse_uleb128_bounds(s, i);
                assert(j >= i + 1 && j <= s.len());
                lemma_parse_transactions_bounds(s, j, (count - 1) as nat);
                match parse_transactions(s, j, (count - 1) as nat) {
                    Some((rest, j2)) => {
                        assert((seq![t] + rest).len() == count);
                        if count == 1 {
                            assert(j2 == j);
                        }
                    },
                    None => {},
                }
            },
            None => {},
        }
    }
}

fn read_u32(bytes: &Vec<u8>, pos: usize) -> (r: Option<(u32, usize)>)
    ensures
        match r {
            Some((v, j)) => parse_u32(bytes@, pos as int) == Some((v, j as int)),
            None => parse_u32(bytes@, pos as int) is None,
        },
{
    if bytes.len() >= 4 && pos <= bytes.len() - 4 {
        let v = (bytes[pos] as u32) | ((bytes[pos + 1] as u32) << 8) | ((bytes[pos + 2]
            as u32) << 16) | ((bytes[pos + 3] as u32) << 24);
        Some((v, pos + 4))
    } else {
        None
    }
}

fn read_u64(bytes: &Vec<u8>, pos: usize) -> (r: Option<(u64, usize)>)
    ensures
        match r {
            Some((v, j)) => parse_u64(bytes@, pos as int) == Some((v, j as int)),
            None => parse_u64(bytes@, pos as int) is None,
        },
{
    if bytes.len() >= 8 && pos <= bytes.len() - 8 {
        let v = (bytes[pos] as u64) | ((bytes[pos + 1] as u64) << 8) | ((bytes[pos + 2]
            as u64) << 16) | ((bytes[pos + 3] as u64) << 24) | ((bytes[pos + 4] as u64) << 32) | ((
        bytes[pos + 5] as u64) << 40) | ((bytes[pos + 6] as u64) << 48) | ((bytes[pos + 7]
            as u64) << 56);
        Some((v, pos + 8))
    } else {
        None
    }
}

fn read_uleb128(bytes: &Vec<u8>, pos: usize) -> (r: Option<(u64, usize)>)
    ensures
        match r {
            Some((v, j)) => parse_uleb128(bytes@, pos as int) == Some((v as nat, j as int)),
            None => parse_uleb128(bytes@, pos as int) is None || (parse_uleb128(
                bytes@,
                pos as int,
            ) matches Some((n, _)) && n > u64::MAX),
        },
    decreases bytes@.len() - pos,
{
    if pos >= bytes.len() {
        return None;
    }
    let b = bytes[pos];
    if b < 0x80 {
        Some((b as u64, pos + 1))
    } else {
        match read_uleb128(bytes, pos + 1) {
            None => None,
            Some((n, j)) => {
                let low: u64 = (b - 0x80) as u64;
                if n > (u64::MAX - low) / 0x80 {
                    proof {
                        let q = (u64::MAX - low) as int / 0x80;
                        assert(q * 0x80 <= u64::MAX - low);
                        assert(n as int * 0x80 >= (q + 1) * 0x80);
                        match parse_uleb128(bytes@, pos as int + 1) {
                            Some((m, _)) => {
                                assert(m == n as nat);
                                assert(low + m * 0x80 > u64::MAX);
                            },
                            None => {},
                        }
                    }
                    None
                } else {
                    proof {
                        let q = (u64::MAX - low) as int / 0x80;
                        assert(q * 0x80 <= u64::MAX - low);
                        assert(n as int * 0x80 <= q * 0x80);
                    }
                    Some((low + n * 0x80, j))
                }
            },
        }
    }
}

fn read_digest(bytes: &Vec<u8>, pos: usize) -> (r: Option<(BlockDigest, usize)>)
    ensures
        match r {
            Some((d, j)) => parse_digest(bytes@, pos as int) == Some((d@, j as int)),
            None => parse_digest(bytes@, pos as int) is None,
        },
{
    if bytes.len() >= DIGEST_LENGTH && pos <= bytes.len() - DIGEST_LENGTH {
        let mut d = [0u8; DIGEST_LENGTH];
        let mut k: usize = 0;
        proof {
            vstd::std_specs::vec::axiom_spec_len(bytes);
        }
        while k < DIGEST_LENGTH
            invariant
                0 <= k <= DIGEST_LENGTH,
                pos + DIGEST_LENGTH <= bytes@.len(),
                bytes@.len() <= usize::MAX,
                d@.len() == DIGEST_LENGTH,
                forall|m: int| 0 <= m < k ==> d@[m] == bytes@[pos + m],
            decreases DIGEST_LENGTH - k,
        {
            d.set(k, bytes[pos + k]);
            k = k + 1;
        }
        proof {
            assert(d@ =~= bytes@.subrange(pos as int, pos as int + DIGEST_LENGTH));
        }
        Some((BlockDigest(d), pos + DIGEST_LENGTH))
    } else {
        None
    }
}

fn read_block_ref(bytes: &Vec<u8>, pos: usize) -> (r: Option<(BlockRef, usize)>)
    ensures
        match r {
            Some((b, j)) => parse_block_ref(bytes@, pos as int) == Some((b@, j as int)),
            None => parse_block_ref(bytes@, pos as int) is None,
        },
{
    let (round, p1) = match read_u32(bytes, pos) {
        Some(x) => x,
        None => {
            return None;
        },
    };
    let (author, p2) = match read_u32(bytes, p1) {
        Some(x) => x,
        None => {
            return None;
        },
    };
    let (digest, p3) = match read_digest(bytes, p2) {
        Some(x) => x,
        None => {
            return None;
        },
    };
    Some((BlockRef { round, author, digest }, p3))
}

/// Prepends already-parsed references to the outcome of parsing the rest.
spec fn prepend_ancestors(acc: Seq<BlockRefData>, o: Option<(Seq<BlockRefData>, int)>) -> Option<
    (Seq<BlockRefData>, int),
> {
    match o {
        Some((rest, j)) => Some((acc + rest, j)),
        None => None,
    }
}

fn read_ancestors(bytes: &Vec<u8>, pos: usize, count: u64) -> (r: Option<(Vec<BlockRef>, usize)>)
    ensures
        match r {
            Some((v, j)) => parse_ancestors(bytes@, pos as int, count as nat) == Some(
                (v@.map_values(|b: BlockRef| b@), j as int),
            ),
            None => parse_ancestors(bytes@, pos as int, count as nat) is None,
        },
{
    let ghost s = bytes@;
    let mut out: Vec<BlockRef> = Vec::new();
    let mut cur = pos;
    let mut k: u64 = 0;
    proof {
        assert(out@.map_values(|b: BlockRef| b@) =~= Seq::<BlockRefData>::empty());
        match parse_ancestors(s, pos as int, count as nat) {
            Some((rest, j)) => {
                assert(Seq::<BlockRefData>::empty() + rest =~= rest);
            },
            None => {},
        }
    }
    while k < count
        invariant
            0 <= k <= count,
            s == bytes@,
            out@.len() == k,
            prepend_ancestors(
                out@.map_values(|b: BlockRef| b@),
                parse_ancestors(s, cur as int, (count - k) as nat),
            ) == parse_ancestors(s, pos as int, count as nat),
        decreases count - k,
    {
        let ghost acc = out@.map_values(|b: BlockRef| b@);
        match read_block_ref(bytes, cur) {
            Some((b, j)) => {
                proof {
                    lemma_parse_ancestors_bounds(s, j as int, (count - k - 1) as nat);
                    match parse_ancestors(s, j as int, (count - k - 1) as nat) {
                        Some((rest, _)) => {
                            assert(acc.push(b@) + rest =~= acc + (seq![b@] + rest));
                        },
                        None => {},
                    }
                }
                out.push(b);
                proof {
                    assert(out@.map_values(|x: BlockRef| x@) =~= acc.push(b@));
                }
                cur = j;
            },
            None => {
                return None;
            },
        }
        k = k + 1;
    }
    proof {
        assert(parse_ancestors(s, cur as int, 0) == Some((Seq::<BlockRefData>::empty(), cur as int)));
        assert(out@.map_values(|b: BlockRef| b@) + Seq::<BlockRefData>::empty() =~= out@.map_values(
            |b: BlockRef| b@,
        ));
    }
    Some((out, cur))
}

/// Prepends already-parsed transactions to the outcome of parsing the rest.
spec fn prepend_transactions(acc: Seq<Seq<u8>>, o: Option<(Seq<Seq<u8>>, int)>) -> Option<
    (Seq<Seq<u8>>, int),
> {
    match o {
        Some((rest, j)) => Some((acc + rest, j)),
        None => None,
    }
}

fn read_transaction(bytes: &Vec<u8>, pos: usize) -> (r: Option<(Transaction, usize)>)
    ensures
        match r {
            Some((t, j)) => parse_transaction(bytes@, pos as int) == Some((t@, j as int)),
            None => parse_transaction(bytes@, pos as int) is None,
        },
{
    let (n, p1) = match read_uleb128(bytes, pos) {
        Some(x) => x,
        None => {
            proof {
                lemma_parse_uleb128_bounds(bytes@, pos as int);
                vstd::std_specs::vec::axiom_spec_len(bytes);
                match parse_uleb128(bytes@, pos as int) {
                    Some((m, j)) => {
                        if m > u64::MAX {
                            assert(j + m > bytes@.len());
                        }
                    },
                    None => {},
                }
            }
            return None;
        },
    };
    proof {
        lemma_parse_uleb128_bounds(bytes@, pos as int);
        vstd::std_specs::vec::axiom_spec_len(bytes);
    }
    if n > (bytes.len() - p1) as u64 {
        return None;
    }
    let n_usize = n as usize;
    let mut data: Vec<u8> = Vec::new();
    let mut k: usize = 0;
    while k < n_usize
        invariant
            0 <= k <= n_usize,
            p1 + n_usize <= bytes@.len(),
            bytes@.len() <= usize::MAX,
            data@.len() == k,
            forall|m: int| 0 <= m < k ==> data@[m] == bytes@[p1 + m],
        decreases n_usize - k,
    {
        data.push(bytes[p1 + k]);
        k = k + 1;
    }
    proof {
        assert(data@ =~= bytes@.subrange(p1 as int, p1 as int + n as int));
    }
    Some((Transaction::new(data), p1 + n_usize))
}

fn read_transactions(bytes: &Vec<u8>, pos: usize, count: u64) -> (r: Option<
    (Vec<Transaction>, usize),
>)
    ensures
        match r {
            Some((v, j)) => parse_transactions(bytes@, pos as int, count as nat) == Some(
                (v@.map_values(|t: Transaction| t@), j as int),
            ),
            None => parse_transactions(bytes@, pos as int, count as nat) is None,
        },
{
    let ghost s = bytes@;
    let mut out: Vec<Transaction> = Vec::new();
    let mut cur = pos;
    let mut k: u64 = 0;
    proof {
        assert(out@.map_values(|t: Transaction| t@) =~= Seq::<Seq<u8>>::empty());
        match parse_transactions(s, pos as int, count as nat) {
            Some((rest, j)) => {
                assert(Seq::<Seq<u8>>::empty() + rest =~= rest);
            },
            None => {},
        }
    }
    while k < count
        invariant
            0 <= k <= count,
            s == bytes@,
            out@.len() == k,
            prepend_transactions(
                out@.map_values(|t: Transaction| t@),
                parse_transactions(s, cur as int, (count - k) as nat),
            ) == parse_transactions(s, pos as int, count as nat),
        decreases count - k,
    {
        let ghost acc = out@.map_values(|t: Transaction| t@);
        match read_transaction(bytes, cur) {
            Some((t, j)) => {
                proof {
                    lemma_parse_uleb128_bounds(s, cur as int);
                    lemma_parse_transactions_bounds(s, j as int, (count - k - 1) as nat);
                    match parse_transactions(s, j as int, (count - k - 1) as nat) {
                        Some((rest, _)) => {
                            assert(acc.push(t@) + rest =~= acc + (seq![t@] + rest));
                        },
                        None => {},
                    }
                }
                let ghost tv = t@;
                out.push(t);
                proof {
                    assert(out@.map_values(|x: Transaction| x@) =~= acc.push(tv));
                }
                cur = j;
            },
            None => {
                return None;
            },
        }
        k = k + 1;
    }
    proof {
        assert(parse_transactions(s, cur as int, 0) == Some((Seq::<Seq<u8>>::empty(), cur as int)));
        assert(out@.map_values(|t: Transaction| t@) + Seq::<Seq<u8>>::empty() =~= out@.map_values(
            |t: Transaction| t@,
        ));
    }
    Some((out, cur))
}

impl Block {
    /// Decodes a block from its canonical bytes; `None` exactly when the
    /// bytes are not the canonical encoding of any block.
    pub fn deserialize(bytes: &Vec<u8>) -> (r: Option<Block>)
        ensures
            match r {
                Some(b) => parse_block(bytes@) == Some(b@),
                None => parse_block(bytes@) is None,
            },
    {
        let ghost s = bytes@;
        if bytes.len() == 0 || bytes[0] != 0 {
            return None;
        }
        let (round, p1) = match read_u32(bytes, 1) {
            Some(x) => x,
            None => {
                return None;
            },
        };
        let (author, p2) = match read_u32(bytes, p1) {
            Some(x) => x,
            None => {
                return None;
            },
        };
        let (timestamp_ms, p3) = match read_u64(bytes, p2) {
            Some(x) => x,
            None => {
                return None;
            },
        };
        let (anc_count, p4) = match read_uleb128(bytes, p3) {
            Some(x) => x,
            None => {
                proof {
                    lemma_parse_uleb128_bounds(s, p3 as int);
                    match parse_uleb128(s, p3 as int) {
                        Some((m, j)) => {
                            lemma_parse_ancestors_bounds(s, j, m);
                        },
                        None => {},
                    }
                }
                return None;
            },
        };
        if anc_count > bytes.len() as u64 {
            proof {
                lemma_parse_ancestors_bounds(s, p4 as int, anc_count as nat);
            }
            return None;
        }
        let (ancestors, p5) = match read_ancestors(bytes, p4, anc_count) {
            Some(x) => x,
            None => {
                return None;
            },
        };
        let (tx_count, p6) = match read_uleb128(bytes, p5) {
            Some(x) => x,
            None => {
                proof {
                    lemma_parse_uleb128_bounds(s, p5 as int);
                    match parse_uleb128(s, p5 as int) {
                        Some((m, j)) => {
                            lemma_parse_transactions_bounds(s, j, m);
                        },
                        None => {},
                    }
                }
                return None;
            },
        };
        if tx_count > bytes.len() as u64 {
            proof {
                lemma_parse_transactions_bounds(s, p6 as int, tx_count as nat);
            }
            return None;
        }
        let (transactions, p7) = match read_transactions(bytes, p6, tx_count) {
            Some(x) => x,
            None => {
                return None;
            },
        };
        if p7 != bytes.len() {
            return None;
        }
        Some(Block::V1(BlockV1 { round, author, timestamp_ms, ancestors, transactions }))
    }
}


} // verus!
