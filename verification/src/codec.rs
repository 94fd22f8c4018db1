//! The byte format of the chain: a deterministic, length-prefixed binary
//! encoding for every record that is hashed, stored, or put on the wire.
//!
//! Integers are big-endian and fixed width, byte strings carry a u64 length,
//! lists carry a u64 count, and optional fields a one-byte tag. Every
//! decoder is proved sound against the encoder: whatever it accepts
//! re-encodes to exactly the bytes it consumed, so a decoded value is the
//! one and only preimage of its bytes.

use vstd::prelude::*;

use crate::types::{
    bytes_view, body_view, BftProposal, BftProposalV, Block, BlockHeader, BlockHeaderV, BlockV,
    CompactBlockBody, CompactBlockBodyV, ProposalEnum, ProposalEnumV, RawTransaction,
    RawTransactionV, Transaction, TransactionV, Tx, TxV, UnverifiedTransaction,
    UnverifiedTransactionV, UnverifiedUtxoTransaction, UnverifiedUtxoTransactionV,
    UtxoTransaction, UtxoTransactionV, Witness, WitnessV,
};

verus! {

// ---------------------------------------------------------------------------
// Big-endian integers
// ---------------------------------------------------------------------------

/// The eight big-endian bytes of a u64.
pub open spec fn spec_enc_u64(x: u64) -> Seq<u8> {
    seq![
        ((x >> 56) & 0xff) as u8,
        ((x >> 48) & 0xff) as u8,
        ((x >> 40) & 0xff) as u8,
        ((x >> 32) & 0xff) as u8,
        ((x >> 24) & 0xff) as u8,
        ((x >> 16) & 0xff) as u8,
        ((x >> 8) & 0xff) as u8,
        (x & 0xff) as u8,
    ]
}

/// The u64 read from eight big-endian bytes.
pub open spec fn spec_u64_from_be(s: Seq<u8>) -> u64
    recommends
        s.len() == 8,
{
    ((s[0] as u64) << 56) | ((s[1] as u64) << 48) | ((s[2] as u64) << 40) | ((s[3] as u64) << 32)
        | ((s[4] as u64) << 24) | ((s[5] as u64) << 16) | ((s[6] as u64) << 8) | (s[7] as u64)
}

/// Big-endian u64 encoding and decoding invert each other.
pub proof fn lemma_u64_be_round_trip()
    ensures
        forall|x: u64| #[trigger] spec_u64_from_be(spec_enc_u64(x)) == x,
        forall|s: Seq<u8>|
            s.len() == 8 ==> #[trigger] spec_enc_u64(spec_u64_from_be(s)) =~= s,
{
    assert forall|x: u64| #[trigger] spec_u64_from_be(spec_enc_u64(x)) == x by {
        let b0 = ((x >> 56) & 0xff) as u8;
        let b1 = ((x >> 48) & 0xff) as u8;
        let b2 = ((x >> 40) & 0xff) as u8;
        let b3 = ((x >> 32) & 0xff) as u8;
        let b4 = ((x >> 24) & 0xff) as u8;
        let b5 = ((x >> 16) & 0xff) as u8;
        let b6 = ((x >> 8) & 0xff) as u8;
        let b7 = (x & 0xff) as u8;
        assert(((b0 as u64) << 56) | ((b1 as u64) << 48) | ((b2 as u64) << 40) | ((b3 as u64)
            << 32) | ((b4 as u64) << 24) | ((b5 as u64) << 16) | ((b6 as u64) << 8) | (b7 as u64)
            == x) by (bit_vector)
            requires
                b0 == ((x >> 56) & 0xff) as u8,
                b1 == ((x >> 48) & 0xff) as u8,
                b2 == ((x >> 40) & 0xff) as u8,
                b3 == ((x >> 32) & 0xff) as u8,
                b4 == ((x >> 24) & 0xff) as u8,
                b5 == ((x >> 16) & 0xff) as u8,
                b6 == ((x >> 8) & 0xff) as u8,
                b7 == (x & 0xff) as u8,
        ;
    }
    assert forall|s: Seq<u8>| s.len() == 8 implies #[trigger] spec_enc_u64(spec_u64_from_be(s))
        =~= s by {
        let x = spec_u64_from_be(s);
        let s0 = s[0];
        let s1 = s[1];
        let s2 = s[2];
        let s3 = s[3];
        let s4 = s[4];
        let s5 = s[5];
        let s6 = s[6];
        let s7 = s[7];
        assert(((x >> 56) & 0xff) as u8 == s0 && ((x >> 48) & 0xff) as u8 == s1 && ((x >> 40)
            & 0xff) as u8 == s2 && ((x >> 32) & 0xff) as u8 == s3 && ((x >> 24) & 0xff) as u8 == s4
            && ((x >> 16) & 0xff) as u8 == s5 && ((x >> 8) & 0xff) as u8 == s6 && (x & 0xff) as u8
            == s7) by (bit_vector)
            requires
                x == ((s0 as u64) << 56) | ((s1 as u64) << 48) | ((s2 as u64) << 40) | ((s3 as u64)
                    << 32) | ((s4 as u64) << 24) | ((s5 as u64) << 16) | ((s6 as u64) << 8) | (
                s7 as u64),
        ;
    }
}

/// The eight big-endian bytes of `x`, as used for storage keys and length
/// prefixes.
pub fn enc_u64(x: u64) -> (r: Vec<u8>)
    ensures
        r@ == spec_enc_u64(x),
        r@.len() == 8,
{
    let mut r: Vec<u8> = Vec::new();
    r.push(((x >> 56) & 0xff) as u8);
    r.push(((x >> 48) & 0xff) as u8);
    r.push(((x >> 40) & 0xff) as u8);
    r.push(((x >> 32) & 0xff) as u8);
    r.push(((x >> 24) & 0xff) as u8);
    r.push(((x >> 16) & 0xff) as u8);
    r.push(((x >> 8) & 0xff) as u8);
    r.push((x & 0xff) as u8);
    proof {
        assert(r@ =~= spec_enc_u64(x));
    }
    r
}

/// Decoding a u64 at `i`: eight big-endian bytes.
pub open spec fn spec_dec_u64(s: Seq<u8>, i: int) -> Option<(u64, int)> {
    if 0 <= i && i + 8 <= s.len() {
        Some((spec_u64_from_be(s.subrange(i, i + 8)), i + 8))
    } else {
        None
    }
}

/// Reads the eight big-endian bytes at `pos`.
pub fn dec_u64(s: &Vec<u8>, pos: usize) -> (r: Option<(u64, usize)>)
    ensures
        match r {
            Some(p) => spec_dec_u64(s@, pos as int) == Some((p.0, p.1 as int)),
            None => spec_dec_u64(s@, pos as int) is None,
        },
{
    if pos > s.len() || s.len() - pos < 8 {
        return None;
    }
    let x: u64 = ((s[pos] as u64) << 56) | ((s[pos + 1] as u64) << 48) | ((s[pos + 2] as u64)
        << 40) | ((s[pos + 3] as u64) << 32) | ((s[pos + 4] as u64) << 24) | ((s[pos + 5] as u64)
        << 16) | ((s[pos + 6] as u64) << 8) | (s[pos + 7] as u64);
    proof {
        let sub = s@.subrange(pos as int, pos as int + 8);
        assert(sub[0] == s@[pos as int]);
        assert(sub[1] == s@[pos as int + 1]);
        assert(sub[2] == s@[pos as int + 2]);
        assert(sub[3] == s@[pos as int + 3]);
        assert(sub[4] == s@[pos as int + 4]);
        assert(sub[5] == s@[pos as int + 5]);
        assert(sub[6] == s@[pos as int + 6]);
        assert(sub[7] == s@[pos as int + 7]);
    }
    Some((x, pos + 8))
}

/// The four big-endian bytes of a u32.
pub open spec fn spec_enc_u32(x: u32) -> Seq<u8> {
    seq![
        ((x >> 24) & 0xff) as u8,
        ((x >> 16) & 0xff) as u8,
        ((x >> 8) & 0xff) as u8,
        (x & 0xff) as u8,
    ]
}

/// The u32 read from four big-endian bytes.
pub open spec fn spec_u32_from_be(s: Seq<u8>) -> u32
    recommends
        s.len() == 4,
{
    ((s[0] as u32) << 24) | ((s[1] as u32) << 16) | ((s[2] as u32) << 8) | (s[3] as u32)
}

/// Big-endian u32 encoding and decoding invert each other.
pub proof fn lemma_u32_be_round_trip()
    ensures
        forall|x: u32| #[trigger] spec_u32_from_be(spec_enc_u32(x)) == x,
        forall|s: Seq<u8>|
            s.len() == 4 ==> #[trigger] spec_enc_u32(spec_u32_from_be(s)) =~= s,
{
    assert forall|x: u32| #[trigger] spec_u32_from_be(spec_enc_u32(x)) == x by {
        let b0 = ((x >> 24) & 0xff) as u8;
        let b1 = ((x >> 16) & 0xff) as u8;
        let b2 = ((x >> 8) & 0xff) as u8;
        let b3 = (x & 0xff) as u8;
        assert(((b0 as u32) << 24) | ((b1 as u32) << 16) | ((b2 as u32) << 8) | (b3 as u32)
            == x) by (bit_vector)
            requires
                b0 == ((x >> 24) & 0xff) as u8,
                b1 == ((x >> 16) & 0xff) as u8,
                b2 == ((x >> 8) & 0xff) as u8,
                b3 == (x & 0xff) as u8,
        ;
    }
    assert forall|s: Seq<u8>| s.len() == 4 implies #[trigger] spec_enc_u32(spec_u32_from_be(s))
        =~= s by {
        let x = spec_u32_from_be(s);
        let s0 = s[0];
        let s1 = s[1];
        let s2 = s[2];
        let s3 = s[3];
        assert(((x >> 24) & 0xff) as u8 == s0 && ((x >> 16) & 0xff) as u8 == s1 && ((x >> 8)
            & 0xff) as u8 == s2 && (x & 0xff) as u8 == s3) by (bit_vector)
            requires
                x == ((s0 as u32) << 24) | ((s1 as u32) << 16) | ((s2 as u32) << 8) | (s3 as u32),
        ;
    }
}

/// The four big-endian bytes of `x`.
pub fn enc_u32(x: u32) -> (r: Vec<u8>)
    ensures
        r@ == spec_enc_u32(x),
        r@.len() == 4,
{
    let mut r: Vec<u8> = Vec::new();
    r.push(((x >> 24) & 0xff) as u8);
    r.push(((x >> 16) & 0xff) as u8);
    r.push(((x >> 8) & 0xff) as u8);
    r.push((x & 0xff) as u8);
    proof {
        assert(r@ =~= spec_enc_u32(x));
    }
    r
}

/// Decoding a u32 at `i`: four big-endian bytes.
pub open spec fn spec_dec_u32(s: Seq<u8>, i: int) -> Option<(u32, int)> {
    if 0 <= i && i + 4 <= s.len() {
        Some((spec_u32_from_be(s.subrange(i, i + 4)), i + 4))
    } else {
        None
    }
}

/// Reads the four big-endian bytes at `pos`.
pub fn dec_u32(s: &Vec<u8>, pos: usize) -> (r: Option<(u32, usize)>)
    ensures
        match r {
            Some(p) => spec_dec_u32(s@, pos as int) == Some((p.0, p.1 as int)),
            None => spec_dec_u32(s@, pos as int) is None,
        },
{
    if pos > s.len() || s.len() - pos < 4 {
        return None;
    }
    let x: u32 = ((s[pos] as u32) << 24) | ((s[pos + 1] as u32) << 16) | ((s[pos + 2] as u32)
        << 8) | (s[pos + 3] as u32);
    proof {
        let sub = s@.subrange(pos as int, pos as int + 4);
        assert(sub[0] == s@[pos as int]);
        assert(sub[1] == s@[pos as int + 1]);
        assert(sub[2] == s@[pos as int + 2]);
        assert(sub[3] == s@[pos as int + 3]);
    }
    Some((x, pos + 4))
}

// ---------------------------------------------------------------------------
// Sequencing lemmas
// ---------------------------------------------------------------------------

/// Splitting a subrange that equals a concatenation of two pieces.
pub proof fn lemma_split_prefix(s: Seq<u8>, i: int, a: Seq<u8>, b: Seq<u8>)
    requires
        0 <= i,
        i + a.len() + b.len() <= s.len(),
        s.subrange(i, i + a.len() + b.len()) == a + b,
    ensures
        s.subrange(i, i + a.len()) == a,
        s.subrange(i + a.len(), i + a.len() + b.len()) == b,
{
    let ab = s.subrange(i, i + a.len() + b.len());
    assert forall|j: int| 0 <= j < a.len() implies s.subrange(i, i + a.len())[j] == a[j] by {
        assert(ab[j] == (a + b)[j]);
    }
    assert(s.subrange(i, i + a.len()) =~= a);
    assert forall|j: int| 0 <= j < b.len() implies s.subrange(
        i + a.len(),
        i + a.len() + b.len(),
    )[j] == b[j] by {
        assert(ab[a.len() + j] == (a + b)[a.len() + j]);
    }
    assert(s.subrange(i + a.len(), i + a.len() + b.len()) =~= b);
}

/// Two consecutive subranges concatenate to the enclosing one.
pub proof fn lemma_join_subranges(s: Seq<u8>, i: int, j: int, k: int)
    requires
        0 <= i <= j <= k <= s.len(),
    ensures
        s.subrange(i, j) + s.subrange(j, k) == s.subrange(i, k),
{
    assert(s.subrange(i, j) + s.subrange(j, k) =~= s.subrange(i, k));
}

// ---------------------------------------------------------------------------
// Byte strings
// ---------------------------------------------------------------------------

/// A byte string: u64 length, then the bytes.
pub open spec fn spec_enc_bytes(b: Seq<u8>) -> Seq<u8> {
    spec_enc_u64(b.len() as u64) + b
}

/// Decoding a byte string at `i`.
pub open spec fn spec_dec_bytes(s: Seq<u8>, i: int) -> Option<(Seq<u8>, int)> {
    match spec_dec_u64(s, i) {
        Some((n, j)) => {
            if j + n <= s.len() {
                Some((s.subrange(j, j + n), j + n))
            } else {
                None
            }
        },
        None => None,
    }
}

/// Appends the encoding of `b` to `out`.
pub fn enc_bytes_into(out: &mut Vec<u8>, b: &Vec<u8>)
    ensures
        final(out)@ == old(out)@ + spec_enc_bytes(b@),
{
    let mut len_bytes = enc_u64(b.len() as u64);
    out.append(&mut len_bytes);
    let mut payload = crate::util::copy_bytes(b);
    out.append(&mut payload);
    proof {
        assert(out@ =~= old(out)@ + spec_enc_bytes(b@));
    }
}

/// Reads a byte string at `pos`.
pub fn dec_bytes(s: &Vec<u8>, pos: usize) -> (r: Option<(Vec<u8>, usize)>)
    ensures
        match r {
            Some(p) => spec_dec_bytes(s@, pos as int) == Some((p.0@, p.1 as int)),
            None => spec_dec_bytes(s@, pos as int) is None,
        },
{
    match dec_u64(s, pos) {
        None => None,
        Some((n, j)) => {
            if n > (s.len() - j) as u64 {
                return None;
            }
            let n_us: usize = n as usize;
            let end: usize = j + n_us;
            let payload = vstd::slice::slice_to_vec(
                vstd::slice::slice_subrange(s.as_slice(), j, end),
            );
            Some((payload, end))
        },
    }
}

/// A decoded byte string re-encodes to exactly the consumed bytes.
pub proof fn lemma_dec_bytes_sound(s: Seq<u8>, i: int)
    requires
        spec_dec_bytes(s, i) is Some,
    ensures
        ({
            let (b, j) = spec_dec_bytes(s, i)->Some_0;
            &&& i <= j <= s.len()
            &&& j == i + 8 + b.len()
            &&& s.subrange(i, j) == spec_enc_bytes(b)
        }),
{
    let (n, m) = spec_dec_u64(s, i)->Some_0;
    let (b, j) = spec_dec_bytes(s, i)->Some_0;
    lemma_u64_be_round_trip();
    assert(spec_enc_u64(n) =~= s.subrange(i, i + 8));
    assert(b.len() as u64 == n);
    lemma_join_subranges(s, i, m, j);
    assert(s.subrange(i, j) =~= spec_enc_bytes(b));
}

// ---------------------------------------------------------------------------
// Lists of byte strings
// ---------------------------------------------------------------------------

/// The concatenated encodings of a list of byte strings.
pub open spec fn spec_enc_hashes_items(l: Seq<Seq<u8>>) -> Seq<u8>
    decreases l.len(),
{
    if l.len() == 0 {
        Seq::empty()
    } else {
        spec_enc_bytes(l.first()) + spec_enc_hashes_items(l.drop_first())
    }
}

/// Appending one item extends the encoding on the right.
#[verifier::spinoff_prover]
#[verifier::rlimit(50)]
pub proof fn lemma_enc_hashes_items_push(l: Seq<Seq<u8>>, x: Seq<u8>)
    ensures
        spec_enc_hashes_items(l.push(x)) == spec_enc_hashes_items(l) + spec_enc_bytes(x),
    decreases l.len(),
{
    if l.len() == 0 {
        assert(l.push(x).drop_first() =~= Seq::<Seq<u8>>::empty());
        assert(l.push(x).first() == x);
        assert(spec_enc_hashes_items(Seq::<Seq<u8>>::empty()) == Seq::<u8>::empty());
        assert(spec_enc_hashes_items(l.push(x)) == spec_enc_bytes(x) + spec_enc_hashes_items(
            l.push(x).drop_first(),
        ));
        assert(spec_enc_hashes_items(l.push(x)) =~= spec_enc_hashes_items(l) + spec_enc_bytes(x));
    } else {
        assert(l.push(x).drop_first() =~= l.drop_first().push(x));
        assert(l.push(x).first() == l.first());
        lemma_enc_hashes_items_push(l.drop_first(), x);
        assert(spec_enc_hashes_items(l.push(x)) == spec_enc_bytes(l.first())
            + spec_enc_hashes_items(l.drop_first().push(x)));
        assert(spec_enc_hashes_items(l.drop_first().push(x)) == spec_enc_hashes_items(
            l.drop_first(),
        ) + spec_enc_bytes(x));
        assert(spec_enc_hashes_items(l.push(x)) =~= spec_enc_hashes_items(l) + spec_enc_bytes(x));
    }
}

/// A list of byte strings: u64 count, then the items.
pub open spec fn spec_enc_hash_list(l: Seq<Seq<u8>>) -> Seq<u8> {
    spec_enc_u64(l.len() as u64) + spec_enc_hashes_items(l)
}

/// Decoding `n` byte strings starting at `i`.
pub open spec fn spec_dec_hashes_items(s: Seq<u8>, i: int, n: nat) -> Option<(Seq<Seq<u8>>, int)>
    decreases n,
{
    if n == 0 {
        Some((Seq::empty(), i))
    } else {
        match spec_dec_bytes(s, i) {
            Some((b, j)) => match spec_dec_hashes_items(s, j, (n - 1) as nat) {
                Some((rest, k)) => Some((seq![b] + rest, k)),
                None => None,
            },
            None => None,
        }
    }
}

/// Decoding a list of byte strings at `i`.
pub open spec fn spec_dec_hash_list(s: Seq<u8>, i: int) -> Option<(Seq<Seq<u8>>, int)> {
    match spec_dec_u64(s, i) {
        Some((n, j)) => spec_dec_hashes_items(s, j, n as nat),
        None => None,
    }
}

/// Appends the encoding of the list to `out`.
pub fn enc_hash_list_into(out: &mut Vec<u8>, l: &Vec<Vec<u8>>)
    ensures
        final(out)@ == old(out)@ + spec_enc_hash_list(bytes_view(l@)),
{
    let ghost base = out@;
    let mut count = enc_u64(l.len() as u64);
    out.append(&mut count);
    let n = l.len();
    let mut i: usize = 0;
    proof {
        assert(bytes_view(l@).len() == l@.len());
        assert(bytes_view(l@).take(0) =~= Seq::<Seq<u8>>::empty());
    }
    while i < n
        invariant
            n == l@.len(),
            0 <= i <= n,
            out@ == base + spec_enc_u64(n as u64) + spec_enc_hashes_items(
                bytes_view(l@).take(i as int),
            ),
        decreases n - i,
    {
        enc_bytes_into(out, &l[i]);
        proof {
            assert(bytes_view(l@).take(i as int + 1) =~= bytes_view(l@).take(i as int).push(
                l@[i as int]@,
            ));
            lemma_enc_hashes_items_push(bytes_view(l@).take(i as int), l@[i as int]@);
            assert(out@ =~= base + spec_enc_u64(n as u64) + spec_enc_hashes_items(
                bytes_view(l@).take(i as int + 1),
            ));
        }
        i += 1;
    }
    proof {
        assert(bytes_view(l@).take(n as int) =~= bytes_view(l@));
        assert(out@ =~= base + spec_enc_hash_list(bytes_view(l@)));
    }
}

/// Reads a list of byte strings at `pos`.
pub fn dec_hash_list(s: &Vec<u8>, pos: usize) -> (r: Option<(Vec<Vec<u8>>, usize)>)
    ensures
        match r {
            Some(p) => spec_dec_hash_list(s@, pos as int) == Some((bytes_view(p.0@), p.1 as int)),
            None => spec_dec_hash_list(s@, pos as int) is None,
        },
{
    let (n, start) = match dec_u64(s, pos) {
        Some(p) => p,
        None => {
            return None;
        },
    };
    let mut acc: Vec<Vec<u8>> = Vec::new();
    let mut cur: usize = start;
    let mut t: u64 = 0;
    proof {
        assert(bytes_view(acc@) =~= Seq::<Seq<u8>>::empty());
        assert(match spec_dec_hashes_items(s@, cur as int, (n - t) as nat) {
            Some((r2, e)) => spec_dec_hashes_items(s@, start as int, n as nat) == Some(
                (bytes_view(acc@) + r2, e),
            ),
            None => spec_dec_hashes_items(s@, start as int, n as nat) is None,
        }) by {
            assert(bytes_view(acc@) + spec_dec_hashes_items(s@, cur as int, n as nat)->Some_0.0
                =~= spec_dec_hashes_items(s@, cur as int, n as nat)->Some_0.0) by {
            }
            if spec_dec_hashes_items(s@, cur as int, n as nat) is Some {
                let (r2, e) = spec_dec_hashes_items(s@, cur as int, n as nat)->Some_0;
                assert(bytes_view(acc@) + r2 =~= r2);
            }
        }
    }
    while t < n
        invariant
            0 <= t <= n,
            cur <= s@.len(),
            spec_dec_u64(s@, pos as int) == Some((n, start as int)),
            match spec_dec_hashes_items(s@, cur as int, (n - t) as nat) {
                Some((r2, e)) => spec_dec_hashes_items(s@, start as int, n as nat) == Some(
                    (bytes_view(acc@) + r2, e),
                ),
                None => spec_dec_hashes_items(s@, start as int, n as nat) is None,
            },
        decreases n - t,
    {
        let (b, j) = match dec_bytes(s, cur) {
            Some(p) => p,
            None => {
                proof {
                    assert(spec_dec_hashes_items(s@, cur as int, (n - t) as nat) is None);
                    assert(spec_dec_hash_list(s@, pos as int) is None);
                }
                return None;
            },
        };
        proof {
            lemma_dec_bytes_sound(s@, cur as int);
        }
        let ghost prev_acc = acc@;
        acc.push(b);
        proof {
            assert(bytes_view(acc@) =~= bytes_view(prev_acc).push(b@));
            if spec_dec_hashes_items(s@, j as int, (n - t - 1) as nat) is Some {
                let (r2, e) = spec_dec_hashes_items(s@, j as int, (n - t - 1) as nat)->Some_0;
                assert(spec_dec_hashes_items(s@, cur as int, (n - t) as nat) == Some(
                    (seq![b@] + r2, e),
                ));
                assert(bytes_view(prev_acc) + (seq![b@] + r2) =~= bytes_view(acc@) + r2);
            } else {
                assert(spec_dec_hashes_items(s@, cur as int, (n - t) as nat) is None);
            }
        }
        cur = j;
        t += 1;
    }
    proof {
        assert(spec_dec_hashes_items(s@, cur as int, 0) == Some(
            (Seq::<Seq<u8>>::empty(), cur as int),
        ));
        assert(bytes_view(acc@) + Seq::<Seq<u8>>::empty() =~= bytes_view(acc@));
    }
    Some((acc, cur))
}

/// Decoded byte-string items re-encode to exactly the consumed bytes.
pub proof fn lemma_dec_hashes_items_sound(s: Seq<u8>, i: int, n: nat)
    requires
        0 <= i <= s.len(),
        spec_dec_hashes_items(s, i, n) is Some,
    ensures
        ({
            let (l, j) = spec_dec_hashes_items(s, i, n)->Some_0;
            &&& i <= j <= s.len()
            &&& l.len() == n
            &&& s.subrange(i, j) == spec_enc_hashes_items(l)
        }),
    decreases n,
{
    let (l, j) = spec_dec_hashes_items(s, i, n)->Some_0;
    if n == 0 {
        assert(s.subrange(i, i) =~= spec_enc_hashes_items(l));
    } else {
        let (b, m) = spec_dec_bytes(s, i)->Some_0;
        lemma_dec_bytes_sound(s, i);
        let (rest, k) = spec_dec_hashes_items(s, m, (n - 1) as nat)->Some_0;
        lemma_dec_hashes_items_sound(s, m, (n - 1) as nat);
        assert(l == seq![b] + rest);
        assert(l.first() == b);
        assert(l.drop_first() =~= rest);
        lemma_join_subranges(s, i, m, k);
        assert(s.subrange(i, j) == spec_enc_bytes(b) + spec_enc_hashes_items(rest));
    }
}

/// A decoded hash list re-encodes to exactly the consumed bytes.
pub proof fn lemma_dec_hash_list_sound(s: Seq<u8>, i: int)
    requires
        spec_dec_hash_list(s, i) is Some,
    ensures
        ({
            let (l, j) = spec_dec_hash_list(s, i)->Some_0;
            &&& i <= j <= s.len()
            &&& s.subrange(i, j) == spec_enc_hash_list(l)
        }),
{
    let (n, m) = spec_dec_u64(s, i)->Some_0;
    let (l, j) = spec_dec_hash_list(s, i)->Some_0;
    lemma_u64_be_round_trip();
    assert(spec_enc_u64(n) =~= s.subrange(i, i + 8));
    lemma_dec_hashes_items_sound(s, m, n as nat);
    assert(l.len() as u64 == n);
    lemma_join_subranges(s, i, m, j);
    assert(s.subrange(i, j) =~= spec_enc_hash_list(l));
}

// ---------------------------------------------------------------------------
// Single bytes and integer soundness
// ---------------------------------------------------------------------------

/// Decoding one byte at `i`.
pub open spec fn spec_dec_u8(s: Seq<u8>, i: int) -> Option<(u8, int)> {
    if 0 <= i && i + 1 <= s.len() {
        Some((s[i], i + 1))
    } else {
        None
    }
}

/// Reads the byte at `pos`.
pub fn dec_u8(s: &Vec<u8>, pos: usize) -> (r: Option<(u8, usize)>)
    ensures
        match r {
            Some(p) => spec_dec_u8(s@, pos as int) == Some((p.0, p.1 as int)),
            None => spec_dec_u8(s@, pos as int) is None,
        },
{
    if pos < s.len() {
        Some((s[pos], pos + 1))
    } else {
        None
    }
}

/// A decoded u64 re-encodes to exactly the consumed bytes.
pub proof fn lemma_dec_u64_sound(s: Seq<u8>, i: int)
    requires
        spec_dec_u64(s, i) is Some,
    ensures
        ({
            let (x, j) = spec_dec_u64(s, i)->Some_0;
            &&& i <= j <= s.len()
            &&& j == i + 8
            &&& s.subrange(i, j) == spec_enc_u64(x)
        }),
{
    lemma_u64_be_round_trip();
}

/// A decoded u32 re-encodes to exactly the consumed bytes.
pub proof fn lemma_dec_u32_sound(s: Seq<u8>, i: int)
    requires
        spec_dec_u32(s, i) is Some,
    ensures
        ({
            let (x, j) = spec_dec_u32(s, i)->Some_0;
            &&& i <= j <= s.len()
            &&& j == i + 4
            &&& s.subrange(i, j) == spec_enc_u32(x)
        }),
{
    lemma_u32_be_round_trip();
}

// ---------------------------------------------------------------------------
// Witness
// ---------------------------------------------------------------------------

/// A witness: sender, then signature.
pub open spec fn spec_enc_witness(w: WitnessV) -> Seq<u8> {
    spec_enc_bytes(w.sender) + spec_enc_bytes(w.signature)
}

/// Decoding a witness at `i`.
pub open spec fn spec_dec_witness(s: Seq<u8>, i: int) -> Option<(WitnessV, int)> {
    match spec_dec_bytes(s, i) {
        Some((sender, j)) => match spec_dec_bytes(s, j) {
            Some((signature, k)) => Some((WitnessV { sender, signature }, k)),
            None => None,
        },
        None => None,
    }
}

/// Appends the encoding of `w` to `out`.
pub fn enc_witness_into(out: &mut Vec<u8>, w: &Witness)
    ensures
        final(out)@ == old(out)@ + spec_enc_witness(w@),
{
    enc_bytes_into(out, &w.sender);
    enc_bytes_into(out, &w.signature);
    proof {
        assert(out@ =~= old(out)@ + spec_enc_witness(w@));
    }
}

/// Reads a witness at `pos`.
pub fn dec_witness(s: &Vec<u8>, pos: usize) -> (r: Option<(Witness, usize)>)
    ensures
        match r {
            Some(p) => spec_dec_witness(s@, pos as int) == Some((p.0@, p.1 as int)),
            None => spec_dec_witness(s@, pos as int) is None,
        },
{
    let (sender, j) = match dec_bytes(s, pos) {
        Some(p) => p,
        None => {
            return None;
        },
    };
    let (signature, k) = match dec_bytes(s, j) {
        Some(p) => p,
        None => {
            return None;
        },
    };
    Some((Witness { sender, signature }, k))
}

/// A decoded witness re-encodes to exactly the consumed bytes.
pub proof fn lemma_dec_witness_sound(s: Seq<u8>, i: int)
    requires
        spec_dec_witness(s, i) is Some,
    ensures
        ({
            let (w, j) = spec_dec_witness(s, i)->Some_0;
            &&& i <= j <= s.len()
            &&& s.subrange(i, j) == spec_enc_witness(w)
        }),
{
    let (sender, j) = spec_dec_bytes(s, i)->Some_0;
    let (signature, k) = spec_dec_bytes(s, j)->Some_0;
    lemma_dec_bytes_sound(s, i);
    lemma_dec_bytes_sound(s, j);
    lemma_join_subranges(s, i, j, k);
}

// ---------------------------------------------------------------------------
// Transaction
// ---------------------------------------------------------------------------

/// A normal transaction body, field by field.
pub open spec fn spec_enc_transaction(t: TransactionV) -> Seq<u8> {
    spec_enc_u32(t.version) + spec_enc_bytes(t.to) + spec_enc_bytes(t.nonce) + spec_enc_u64(
        t.quota,
    ) + spec_enc_u64(t.valid_until_block) + spec_enc_bytes(t.data) + spec_enc_bytes(t.value)
        + spec_enc_bytes(t.chain_id)
}

/// Decoding a normal transaction body at `i`.
pub open spec fn spec_dec_transaction(s: Seq<u8>, i: int) -> Option<(TransactionV, int)> {
    match spec_dec_u32(s, i) {
        Some((version, i1)) => match spec_dec_bytes(s, i1) {
            Some((to, i2)) => match spec_dec_bytes(s, i2) {
                Some((nonce, i3)) => match spec_dec_u64(s, i3) {
                    Some((quota, i4)) => match spec_dec_u64(s, i4) {
                        Some((valid_until_block, i5)) => match spec_dec_bytes(s, i5) {
                            Some((data, i6)) => match spec_dec_bytes(s, i6) {
                                Some((value, i7)) => match spec_dec_bytes(s, i7) {
                                    Some((chain_id, i8)) => Some(
                                        (
                                            TransactionV {
                                                version,
                                                to,
                                                nonce,
                                                quota,
                                                valid_until_block,
                                                data,
                                                value,
                                                chain_id,
                                            },
                                            i8,
                                        ),
                                    ),
                                    None => None,
                                },
                                None => None,
                            },
                            None => None,
                        },
                        None => None,
                    },
                    None => None,
                },
                None => None,
            },
            None => None,
        },
        None => None,
    }
}

/// Appends the encoding of `t` to `out`.
pub fn enc_transaction_into(out: &mut Vec<u8>, t: &Transaction)
    ensures
        final(out)@ == old(out)@ + spec_enc_transaction(t@),
{
    let mut version = enc_u32(t.version);
    out.append(&mut version);
    enc_bytes_into(out, &t.to);
    enc_bytes_into(out, &t.nonce);
    let mut quota = enc_u64(t.quota);
    out.append(&mut quota);
    let mut until = enc_u64(t.valid_until_block);
    out.append(&mut until);
    enc_bytes_into(out, &t.data);
    enc_bytes_into(out, &t.value);
    enc_bytes_into(out, &t.chain_id);
    proof {
        assert(out@ =~= old(out)@ + spec_enc_transaction(t@));
    }
}

/// Reads a normal transaction body at `pos`.
pub fn dec_transaction(s: &Vec<u8>, pos: usize) -> (r: Option<(Transaction, usize)>)
    ensures
        match r {
            Some(p) => spec_dec_transaction(s@, pos as int) == Some((p.0@, p.1 as int)),
            None => spec_dec_transaction(s@, pos as int) is None,
        },
{
    let (version, i1) = match dec_u32(s, pos) {
        Some(p) => p,
        None => {
            return None;
        },
    };
    let (to, i2) = match dec_bytes(s, i1) {
        Some(p) => p,
        None => {
            return None;
        },
    };
    let (nonce, i3) = match dec_bytes(s, i2) {
        Some(p) => p,
        None => {
            return None;
        },
    };
    let (quota, i4) = match dec_u64(s, i3) {
        Some(p) => p,
        None => {
            return None;
        },
    };
    let (valid_until_block, i5) = match dec_u64(s, i4) {
        Some(p) => p,
        None => {
            return None;
        },
    };
    let (data, i6) = match dec_bytes(s, i5) {
        Some(p) => p,
        None => {
            return None;
        },
    };
    let (value, i7) = match dec_bytes(s, i6) {
        Some(p) => p,
        None => {
            return None;
        },
    };
    let (chain_id, i8) = match dec_bytes(s, i7) {
        Some(p) => p,
        None => {
            return None;
        },
    };
    Some(
        (
            Transaction { version, to, nonce, quota, valid_until_block, data, value, chain_id },
            i8,
        ),
    )
}

/// A decoded transaction body re-encodes to exactly the consumed bytes.
pub proof fn lemma_dec_transaction_sound(s: Seq<u8>, i: int)
    requires
        spec_dec_transaction(s, i) is Some,
    ensures
        ({
            let (t, j) = spec_dec_transaction(s, i)->Some_0;
            &&& i <= j <= s.len()
            &&& s.subrange(i, j) == spec_enc_transaction(t)
        }),
{
    let (version, i1) = spec_dec_u32(s, i)->Some_0;
    let (to, i2) = spec_dec_bytes(s, i1)->Some_0;
    let (nonce, i3) = spec_dec_bytes(s, i2)->Some_0;
    let (quota, i4) = spec_dec_u64(s, i3)->Some_0;
    let (valid_until_block, i5) = spec_dec_u64(s, i4)->Some_0;
    let (data, i6) = spec_dec_bytes(s, i5)->Some_0;
    let (value, i7) = spec_dec_bytes(s, i6)->Some_0;
    let (chain_id, i8) = spec_dec_bytes(s, i7)->Some_0;
    lemma_dec_u32_sound(s, i);
    lemma_dec_bytes_sound(s, i1);
    lemma_dec_bytes_sound(s, i2);
    lemma_dec_u64_sound(s, i3);
    lemma_dec_u64_sound(s, i4);
    lemma_dec_bytes_sound(s, i5);
    lemma_dec_bytes_sound(s, i6);
    lemma_dec_bytes_sound(s, i7);
    lemma_join_subranges(s, i, i1, i2);
    lemma_join_subranges(s, i, i2, i3);
    lemma_join_subranges(s, i, i3, i4);
    lemma_join_subranges(s, i, i4, i5);
    lemma_join_subranges(s, i, i5, i6);
    lemma_join_subranges(s, i, i6, i7);
    lemma_join_subranges(s, i, i7, i8);
    assert(s.subrange(i, i8) =~= spec_enc_transaction(
        spec_dec_transaction(s, i)->Some_0.0,
    ));
}

// ---------------------------------------------------------------------------
// Utxo transaction
// ---------------------------------------------------------------------------

/// A utxo transaction body, field by field.
pub open spec fn spec_enc_utxo_transaction(t: UtxoTransactionV) -> Seq<u8> {
    spec_enc_u32(t.version) + spec_enc_bytes(t.pre_tx_hash) + spec_enc_bytes(t.output)
        + spec_enc_u64(t.lock_id)
}

/// Decoding a utxo transaction body at `i`.
pub open spec fn spec_dec_utxo_transaction(s: Seq<u8>, i: int) -> Option<(UtxoTransactionV, int)> {
    match spec_dec_u32(s, i) {
        Some((version, i1)) => match spec_dec_bytes(s, i1) {
            Some((pre_tx_hash, i2)) => match spec_dec_bytes(s, i2) {
                Some((output, i3)) => match spec_dec_u64(s, i3) {
                    Some((lock_id, i4)) => Some(
                        (UtxoTransactionV { version, pre_tx_hash, output, lock_id }, i4),
                    ),
                    None => None,
                },
                None => None,
            },
            None => None,
        },
        None => None,
    }
}

/// Appends the encoding of `t` to `out`.
pub fn enc_utxo_transaction_into(out: &mut Vec<u8>, t: &UtxoTransaction)
    ensures
        final(out)@ == old(out)@ + spec_enc_utxo_transaction(t@),
{
    let mut version = enc_u32(t.version);
    out.append(&mut version);
    enc_bytes_into(out, &t.pre_tx_hash);
    enc_bytes_into(out, &t.output);
    let mut lock_id = enc_u64(t.lock_id);
    out.append(&mut lock_id);
    proof {
        assert(out@ =~= old(out)@ + spec_enc_utxo_transaction(t@));
    }
}

/// Reads a utxo transaction body at `pos`.
pub fn dec_utxo_transaction(s: &Vec<u8>, pos: usize) -> (r: Option<(UtxoTransaction, usize)>)
    ensures
        match r {
            Some(p) => spec_dec_utxo_transaction(s@, pos as int) == Some((p.0@, p.1 as int)),
            None => spec_dec_utxo_transaction(s@, pos as int) is None,
        },
{
    let (version, i1) = match dec_u32(s, pos) {
        Some(p) => p,
        None => {
            return None;
        },
    };
    let (pre_tx_hash, i2) = match dec_bytes(s, i1) {
        Some(p) => p,
        None => {
            return None;
        },
    };
    let (output, i3) = match dec_bytes(s, i2) {
        Some(p) => p,
        None => {
            return None;
        },
    };
    let (lock_id, i4) = match dec_u64(s, i3) {
        Some(p) => p,
        None => {
            return None;
        },
    };
    Some((UtxoTransaction { version, pre_tx_hash, output, lock_id }, i4))
}

/// A decoded utxo transaction body re-encodes to exactly the consumed bytes.
pub proof fn lemma_dec_utxo_transaction_sound(s: Seq<u8>, i: int)
    requires
        spec_dec_utxo_transaction(s, i) is Some,
    ensures
        ({
            let (t, j) = spec_dec_utxo_transaction(s, i)->Some_0;
            &&& i <= j <= s.len()
            &&& s.subrange(i, j) == spec_enc_utxo_transaction(t)
        }),
{
    let (version, i1) = spec_dec_u32(s, i)->Some_0;
    let (pre_tx_hash, i2) = spec_dec_bytes(s, i1)->Some_0;
    let (output, i3) = spec_dec_bytes(s, i2)->Some_0;
    let (lock_id, i4) = spec_dec_u64(s, i3)->Some_0;
    lemma_dec_u32_sound(s, i);
    lemma_dec_bytes_sound(s, i1);
    lemma_dec_bytes_sound(s, i2);
    lemma_dec_u64_sound(s, i3);
    lemma_join_subranges(s, i, i1, i2);
    lemma_join_subranges(s, i, i2, i3);
    lemma_join_subranges(s, i, i3, i4);
    assert(s.subrange(i, i4) =~= spec_enc_utxo_transaction(
        spec_dec_utxo_transaction(s, i)->Some_0.0,
    ));
}

// ---------------------------------------------------------------------------
// Block header
// ---------------------------------------------------------------------------

/// A block header, field by field.
pub open spec fn spec_enc_block_header(h: BlockHeaderV) -> Seq<u8> {
    spec_enc_bytes(h.prevhash) + spec_enc_u64(h.timestamp) + spec_enc_u64(h.height)
        + spec_enc_bytes(h.transactions_root) + spec_enc_bytes(h.proposer)
}

/// Decoding a block header at `i`.
pub open spec fn spec_dec_block_header(s: Seq<u8>, i: int) -> Option<(BlockHeaderV, int)> {
    match spec_dec_bytes(s, i) {
        Some((prevhash, i1)) => match spec_dec_u64(s, i1) {
            Some((timestamp, i2)) => match spec_dec_u64(s, i2) {
                Some((height, i3)) => match spec_dec_bytes(s, i3) {
                    Some((transactions_root, i4)) => match spec_dec_bytes(s, i4) {
                        Some((proposer, i5)) => Some(
                            (
                                BlockHeaderV {
                                    prevhash,
                                    timestamp,
                                    height,
                                    transactions_root,
                                    proposer,
                                },
                                i5,
                            ),
                        ),
                        None => None,
                    },
                    None => None,
                },
                None => None,
            },
            None => None,
        },
        None => None,
    }
}

/// Appends the encoding of `h` to `out`.
pub fn enc_block_header_into(out: &mut Vec<u8>, h: &BlockHeader)
    ensures
        final(out)@ == old(out)@ + spec_enc_block_header(h@),
{
    enc_bytes_into(out, &h.prevhash);
    let mut timestamp = enc_u64(h.timestamp);
    out.append(&mut timestamp);
    let mut height = enc_u64(h.height);
    out.append(&mut height);
    enc_bytes_into(out, &h.transactions_root);
    enc_bytes_into(out, &h.proposer);
    proof {
        assert(out@ =~= old(out)@ + spec_enc_block_header(h@));
    }
}

/// The encoding of a block header, whose hash identifies the block.
pub fn encode_block_header(h: &BlockHeader) -> (r: Vec<u8>)
    ensures
        r@ == spec_enc_block_header(h@),
{
    let mut out: Vec<u8> = Vec::new();
    enc_block_header_into(&mut out, h);
    proof {
        assert(out@ =~= spec_enc_block_header(h@));
    }
    out
}

/// Reads a block header at `pos`.
pub fn dec_block_header(s: &Vec<u8>, pos: usize) -> (r: Option<(BlockHeader, usize)>)
    ensures
        match r {
            Some(p) => spec_dec_block_header(s@, pos as int) == Some((p.0@, p.1 as int)),
            None => spec_dec_block_header(s@, pos as int) is None,
        },
{
    let (prevhash, i1) = match dec_bytes(s, pos) {
        Some(p) => p,
        None => {
            return None;
        },
    };
    let (timestamp, i2) = match dec_u64(s, i1) {
        Some(p) => p,
        None => {
            return None;
        },
    };
    let (height, i3) = match dec_u64(s, i2) {
        Some(p) => p,
        None => {
            return None;
        },
    };
    let (transactions_root, i4) = match dec_bytes(s, i3) {
        Some(p) => p,
        None => {
            return None;
        },
    };
    let (proposer, i5) = match dec_bytes(s, i4) {
        Some(p) => p,
        None => {
            return None;
        },
    };
    Some((BlockHeader { prevhash, timestamp, height, transactions_root, proposer }, i5))
}

/// A decoded block header re-encodes to exactly the consumed bytes.
pub proof fn lemma_dec_block_header_sound(s: Seq<u8>, i: int)
    requires
        spec_dec_block_header(s, i) is Some,
    ensures
        ({
            let (h, j) = spec_dec_block_header(s, i)->Some_0;
            &&& i <= j <= s.len()
            &&& s.subrange(i, j) == spec_enc_block_header(h)
        }),
{
    let (prevhash, i1) = spec_dec_bytes(s, i)->Some_0;
    let (timestamp, i2) = spec_dec_u64(s, i1)->Some_0;
    let (height, i3) = spec_dec_u64(s, i2)->Some_0;
    let (transactions_root, i4) = spec_dec_bytes(s, i3)->Some_0;
    let (proposer, i5) = spec_dec_bytes(s, i4)->Some_0;
    lemma_dec_bytes_sound(s, i);
    lemma_dec_u64_sound(s, i1);
    lemma_dec_u64_sound(s, i2);
    lemma_dec_bytes_sound(s, i3);
    lemma_dec_bytes_sound(s, i4);
    lemma_join_subranges(s, i, i1, i2);
    lemma_join_subranges(s, i, i2, i3);
    lemma_join_subranges(s, i, i3, i4);
    lemma_join_subranges(s, i, i4, i5);
    assert(s.subrange(i, i5) =~= spec_enc_block_header(
        spec_dec_block_header(s, i)->Some_0.0,
    ));
}

// ---------------------------------------------------------------------------
// Compact block body
// ---------------------------------------------------------------------------

/// A compact block body: the list of transaction hashes.
pub open spec fn spec_enc_compact_body(b: CompactBlockBodyV) -> Seq<u8> {
    spec_enc_hash_list(b.tx_hashes)
}

/// Decoding a compact block body at `i`.
pub open spec fn spec_dec_compact_body(s: Seq<u8>, i: int) -> Option<(CompactBlockBodyV, int)> {
    match spec_dec_hash_list(s, i) {
        Some((tx_hashes, j)) => Some((CompactBlockBodyV { tx_hashes }, j)),
        None => None,
    }
}

/// The encoding of a compact block body, as stored for each height.
pub fn encode_compact_body(b: &CompactBlockBody) -> (r: Vec<u8>)
    ensures
        r@ == spec_enc_compact_body(b@),
{
    let mut out: Vec<u8> = Vec::new();
    enc_hash_list_into(&mut out, &b.tx_hashes);
    proof {
        assert(out@ =~= spec_enc_compact_body(b@));
    }
    out
}

/// Reads a compact block body at `pos`.
pub fn dec_compact_body(s: &Vec<u8>, pos: usize) -> (r: Option<(CompactBlockBody, usize)>)
    ensures
        match r {
            Some(p) => spec_dec_compact_body(s@, pos as int) == Some((p.0@, p.1 as int)),
            None => spec_dec_compact_body(s@, pos as int) is None,
        },
{
    match dec_hash_list(s, pos) {
        Some((tx_hashes, j)) => Some((CompactBlockBody { tx_hashes }, j)),
        None => None,
    }
}

/// A decoded compact body re-encodes to exactly the consumed bytes.
pub proof fn lemma_dec_compact_body_sound(s: Seq<u8>, i: int)
    requires
        spec_dec_compact_body(s, i) is Some,
    ensures
        ({
            let (b, j) = spec_dec_compact_body(s, i)->Some_0;
            &&& i <= j <= s.len()
            &&& s.subrange(i, j) == spec_enc_compact_body(b)
        }),
{
    lemma_dec_hash_list_sound(s, i);
}

// ---------------------------------------------------------------------------
// Witness lists
// ---------------------------------------------------------------------------

/// The concatenated encodings of a list of witnesses.
pub open spec fn spec_enc_witness_items(l: Seq<WitnessV>) -> Seq<u8>
    decreases l.len(),
{
    if l.len() == 0 {
        Seq::empty()
    } else {
        spec_enc_witness(l.first()) + spec_enc_witness_items(l.drop_first())
    }
}

/// Appending one witness extends the encoding on the right.
#[verifier::spinoff_prover]
#[verifier::rlimit(50)]
pub proof fn lemma_enc_witness_items_push(l: Seq<WitnessV>, x: WitnessV)
    ensures
        spec_enc_witness_items(l.push(x)) == spec_enc_witness_items(l) + spec_enc_witness(x),
    decreases l.len(),
{
    if l.len() == 0 {
        assert(l.push(x).drop_first() =~= Seq::<WitnessV>::empty());
        assert(l.push(x).first() == x);
        assert(spec_enc_witness_items(Seq::<WitnessV>::empty()) == Seq::<u8>::empty());
        assert(spec_enc_witness_items(l.push(x)) == spec_enc_witness(x) + spec_enc_witness_items(
            l.push(x).drop_first(),
        ));
        assert(spec_enc_witness_items(l.push(x)) =~= spec_enc_witness_items(l)
            + spec_enc_witness(x));
    } else {
        assert(l.push(x).drop_first() =~= l.drop_first().push(x));
        assert(l.push(x).first() == l.first());
        lemma_enc_witness_items_push(l.drop_first(), x);
        assert(spec_enc_witness_items(l.push(x)) == spec_enc_witness(l.first())
            + spec_enc_witness_items(l.drop_first().push(x)));
        assert(spec_enc_witness_items(l.push(x)) =~= spec_enc_witness_items(l)
            + spec_enc_witness(x));
    }
}

/// A list of witnesses: u64 count, then the items.
pub open spec fn spec_enc_witness_list(l: Seq<WitnessV>) -> Seq<u8> {
    spec_enc_u64(l.len() as u64) + spec_enc_witness_items(l)
}

/// Decoding `n` witnesses starting at `i`.
pub open spec fn spec_dec_witness_items(s: Seq<u8>, i: int, n: nat) -> Option<(Seq<WitnessV>, int)>
    decreases n,
{
    if n == 0 {
        Some((Seq::empty(), i))
    } else {
        match spec_dec_witness(s, i) {
            Some((w, j)) => match spec_dec_witness_items(s, j, (n - 1) as nat) {
                Some((rest, k)) => Some((seq![w] + rest, k)),
                None => None,
            },
            None => None,
        }
    }
}

/// Decoding a list of witnesses at `i`.
pub open spec fn spec_dec_witness_list(s: Seq<u8>, i: int) -> Option<(Seq<WitnessV>, int)> {
    match spec_dec_u64(s, i) {
        Some((n, j)) => spec_dec_witness_items(s, j, n as nat),
        None => None,
    }
}

/// View of a list of witnesses.
pub open spec fn witness_view(l: Seq<Witness>) -> Seq<WitnessV> {
    l.map_values(|w: Witness| w@)
}

/// Appends the encoding of the witness list to `out`.
pub fn enc_witness_list_into(out: &mut Vec<u8>, l: &Vec<Witness>)
    ensures
        final(out)@ == old(out)@ + spec_enc_witness_list(witness_view(l@)),
{
    let ghost base = out@;
    let mut count = enc_u64(l.len() as u64);
    out.append(&mut count);
    let n = l.len();
    let mut i: usize = 0;
    proof {
        assert(witness_view(l@).take(0) =~= Seq::<WitnessV>::empty());
    }
    while i < n
        invariant
            n == l@.len(),
            0 <= i <= n,
            out@ == base + spec_enc_u64(n as u64) + spec_enc_witness_items(
                witness_view(l@).take(i as int),
            ),
        decreases n - i,
    {
        enc_witness_into(out, &l[i]);
        proof {
            assert(witness_view(l@).take(i as int + 1) =~= witness_view(l@).take(i as int).push(
                l@[i as int]@,
            ));
            lemma_enc_witness_items_push(witness_view(l@).take(i as int), l@[i as int]@);
            assert(out@ =~= base + spec_enc_u64(n as u64) + spec_enc_witness_items(
                witness_view(l@).take(i as int + 1),
            ));
        }
        i += 1;
    }
    proof {
        assert(witness_view(l@).take(n as int) =~= witness_view(l@));
        assert(out@ =~= base + spec_enc_witness_list(witness_view(l@)));
    }
}

/// Reads a list of witnesses at `pos`.
pub fn dec_witness_list(s: &Vec<u8>, pos: usize) -> (r: Option<(Vec<Witness>, usize)>)
    ensures
        match r {
            Some(p) => spec_dec_witness_list(s@, pos as int) == Some(
                (witness_view(p.0@), p.1 as int),
            ),
            None => spec_dec_witness_list(s@, pos as int) is None,
        },
{
    let (n, start) = match dec_u64(s, pos) {
        Some(p) => p,
        None => {
            return None;
        },
    };
    let mut acc: Vec<Witness> = Vec::new();
    let mut cur: usize = start;
    let mut t: u64 = 0;
    proof {
        assert(witness_view(acc@) =~= Seq::<WitnessV>::empty());
        if spec_dec_witness_items(s@, cur as int, n as nat) is Some {
            let (r2, e) = spec_dec_witness_items(s@, cur as int, n as nat)->Some_0;
            assert(witness_view(acc@) + r2 =~= r2);
        }
    }
    while t < n
        invariant
            0 <= t <= n,
            cur <= s@.len(),
            spec_dec_u64(s@, pos as int) == Some((n, start as int)),
            match spec_dec_witness_items(s@, cur as int, (n - t) as nat) {
                Some((r2, e)) => spec_dec_witness_items(s@, start as int, n as nat) == Some(
                    (witness_view(acc@) + r2, e),
                ),
                None => spec_dec_witness_items(s@, start as int, n as nat) is None,
            },
        decreases n - t,
    {
        let (w, j) = match dec_witness(s, cur) {
            Some(p) => p,
            None => {
                proof {
                    assert(spec_dec_witness_items(s@, cur as int, (n - t) as nat) is None);
                    assert(spec_dec_witness_list(s@, pos as int) is None);
                }
                return None;
            },
        };
        proof {
            lemma_dec_witness_sound(s@, cur as int);
        }
        let ghost prev_acc = acc@;
        acc.push(w);
        proof {
            assert(witness_view(acc@) =~= witness_view(prev_acc).push(w@));
            if spec_dec_witness_items(s@, j as int, (n - t - 1) as nat) is Some {
                let (r2, e) = spec_dec_witness_items(s@, j as int, (n - t - 1) as nat)->Some_0;
                assert(spec_dec_witness_items(s@, cur as int, (n - t) as nat) == Some(
                    (seq![w@] + r2, e),
                ));
                assert(witness_view(prev_acc) + (seq![w@] + r2) =~= witness_view(acc@) + r2);
            } else {
                assert(spec_dec_witness_items(s@, cur as int, (n - t) as nat) is None);
            }
        }
        cur = j;
        t += 1;
    }
    proof {
        assert(spec_dec_witness_items(s@, cur as int, 0) == Some(
            (Seq::<WitnessV>::empty(), cur as int),
        ));
        assert(witness_view(acc@) + Seq::<WitnessV>::empty() =~= witness_view(acc@));
    }
    Some((acc, cur))
}

/// Decoded witness items re-encode to exactly the consumed bytes.
pub proof fn lemma_dec_witness_items_sound(s: Seq<u8>, i: int, n: nat)
    requires
        0 <= i <= s.len(),
        spec_dec_witness_items(s, i, n) is Some,
    ensures
        ({
            let (l, j) = spec_dec_witness_items(s, i, n)->Some_0;
            &&& i <= j <= s.len()
            &&& l.len() == n
            &&& s.subrange(i, j) == spec_enc_witness_items(l)
        }),
    decreases n,
{
    let (l, j) = spec_dec_witness_items(s, i, n)->Some_0;
    if n == 0 {
        assert(s.subrange(i, i) =~= spec_enc_witness_items(l));
    } else {
        let (w, m) = spec_dec_witness(s, i)->Some_0;
        lemma_dec_witness_sound(s, i);
        let (rest, k) = spec_dec_witness_items(s, m, (n - 1) as nat)->Some_0;
        lemma_dec_witness_items_sound(s, m, (n - 1) as nat);
        assert(l == seq![w] + rest);
        assert(l.first() == w);
        assert(l.drop_first() =~= rest);
        lemma_join_subranges(s, i, m, k);
        assert(s.subrange(i, j) == spec_enc_witness(w) + spec_enc_witness_items(rest));
    }
}

/// A decoded witness list re-encodes to exactly the consumed bytes.
pub proof fn lemma_dec_witness_list_sound(s: Seq<u8>, i: int)
    requires
        spec_dec_witness_list(s, i) is Some,
    ensures
        ({
            let (l, j) = spec_dec_witness_list(s, i)->Some_0;
            &&& i <= j <= s.len()
            &&& s.subrange(i, j) == spec_enc_witness_list(l)
        }),
{
    let (n, m) = spec_dec_u64(s, i)->Some_0;
    let (l, j) = spec_dec_witness_list(s, i)->Some_0;
    lemma_u64_be_round_trip();
    assert(spec_enc_u64(n) =~= s.subrange(i, i + 8));
    lemma_dec_witness_items_sound(s, m, n as nat);
    assert(l.len() as u64 == n);
    lemma_join_subranges(s, i, m, j);
    assert(s.subrange(i, j) =~= spec_enc_witness_list(l));
}

// ---------------------------------------------------------------------------
// Raw transactions
// ---------------------------------------------------------------------------

/// An optional normal transaction body: a tag byte, then the body if any.
pub open spec fn spec_enc_opt_transaction(o: Option<TransactionV>) -> Seq<u8> {
    match o {
        None => seq![0u8],
        Some(t) => seq![1u8] + spec_enc_transaction(t),
    }
}

/// Decoding an optional normal transaction body at `i`.
pub open spec fn spec_dec_opt_transaction(s: Seq<u8>, i: int) -> Option<
    (Option<TransactionV>, int),
> {
    match spec_dec_u8(s, i) {
        Some((tag, j)) => {
            if tag == 0 {
                Some((None, j))
            } else if tag == 1 {
                match spec_dec_transaction(s, j) {
                    Some((t, k)) => Some((Some(t), k)),
                    None => None,
                }
            } else {
                None
            }
        },
        None => None,
    }
}

/// An optional witness: a tag byte, then the witness if any.
pub open spec fn spec_enc_opt_witness(o: Option<WitnessV>) -> Seq<u8> {
    match o {
        None => seq![0u8],
        Some(w) => seq![1u8] + spec_enc_witness(w),
    }
}

/// Decoding an optional witness at `i`.
pub open spec fn spec_dec_opt_witness(s: Seq<u8>, i: int) -> Option<(Option<WitnessV>, int)> {
    match spec_dec_u8(s, i) {
        Some((tag, j)) => {
            if tag == 0 {
                Some((None, j))
            } else if tag == 1 {
                match spec_dec_witness(s, j) {
                    Some((w, k)) => Some((Some(w), k)),
                    None => None,
                }
            } else {
                None
            }
        },
        None => None,
    }
}

/// An optional utxo transaction body: a tag byte, then the body if any.
pub open spec fn spec_enc_opt_utxo_transaction(o: Option<UtxoTransactionV>) -> Seq<u8> {
    match o {
        None => seq![0u8],
        Some(t) => seq![1u8] + spec_enc_utxo_transaction(t),
    }
}

/// Decoding an optional utxo transaction body at `i`.
pub open spec fn spec_dec_opt_utxo_transaction(s: Seq<u8>, i: int) -> Option<
    (Option<UtxoTransactionV>, int),
> {
    match spec_dec_u8(s, i) {
        Some((tag, j)) => {
            if tag == 0 {
                Some((None, j))
            } else if tag == 1 {
                match spec_dec_utxo_transaction(s, j) {
                    Some((t, k)) => Some((Some(t), k)),
                    None => None,
                }
            } else {
                None
            }
        },
        None => None,
    }
}

/// A received normal transaction: body, claimed hash, witness.
pub open spec fn spec_enc_unverified_transaction(t: UnverifiedTransactionV) -> Seq<u8> {
    spec_enc_opt_transaction(t.transaction) + spec_enc_bytes(t.transaction_hash)
        + spec_enc_opt_witness(t.witness)
}

/// Decoding a received normal transaction at `i`.
pub open spec fn spec_dec_unverified_transaction(s: Seq<u8>, i: int) -> Option<
    (UnverifiedTransactionV, int),
> {
    match spec_dec_opt_transaction(s, i) {
        Some((transaction, i1)) => match spec_dec_bytes(s, i1) {
            Some((transaction_hash, i2)) => match spec_dec_opt_witness(s, i2) {
                Some((witness, i3)) => Some(
                    (UnverifiedTransactionV { transaction, transaction_hash, witness }, i3),
                ),
                None => None,
            },
            None => None,
        },
        None => None,
    }
}

/// A received utxo transaction: body, claimed hash, witnesses.
pub open spec fn spec_enc_unverified_utxo_transaction(t: UnverifiedUtxoTransactionV) -> Seq<u8> {
    spec_enc_opt_utxo_transaction(t.transaction) + spec_enc_bytes(t.transaction_hash)
        + spec_enc_witness_list(t.witnesses)
}

/// Decoding a received utxo transaction at `i`.
pub open spec fn spec_dec_unverified_utxo_transaction(s: Seq<u8>, i: int) -> Option<
    (UnverifiedUtxoTransactionV, int),
> {
    match spec_dec_opt_utxo_transaction(s, i) {
        Some((transaction, i1)) => match spec_dec_bytes(s, i1) {
            Some((transaction_hash, i2)) => match spec_dec_witness_list(s, i2) {
                Some((witnesses, i3)) => Some(
                    (UnverifiedUtxoTransactionV { transaction, transaction_hash, witnesses }, i3),
                ),
                None => None,
            },
            None => None,
        },
        None => None,
    }
}

/// A raw transaction: a variant tag, then the variant.
pub open spec fn spec_enc_raw_transaction(r: RawTransactionV) -> Seq<u8> {
    match r.tx {
        None => seq![0u8],
        Some(TxV::NormalTx(t)) => seq![1u8] + spec_enc_unverified_transaction(t),
        Some(TxV::UtxoTx(t)) => seq![2u8] + spec_enc_unverified_utxo_transaction(t),
    }
}

/// Decoding a raw transaction at `i`.
pub open spec fn spec_dec_raw_transaction(s: Seq<u8>, i: int) -> Option<(RawTransactionV, int)> {
    match spec_dec_u8(s, i) {
        Some((tag, j)) => {
            if tag == 0 {
                Some((RawTransactionV { tx: None }, j))
            } else if tag == 1 {
                match spec_dec_unverified_transaction(s, j) {
                    Some((t, k)) => Some((RawTransactionV { tx: Some(TxV::NormalTx(t)) }, k)),
                    None => None,
                }
            } else if tag == 2 {
                match spec_dec_unverified_utxo_transaction(s, j) {
                    Some((t, k)) => Some((RawTransactionV { tx: Some(TxV::UtxoTx(t)) }, k)),
                    None => None,
                }
            } else {
                None
            }
        },
        None => None,
    }
}

/// Appends the encoding of `r` to `out`.
pub fn enc_raw_transaction_into(out: &mut Vec<u8>, r: &RawTransaction)
    ensures
        final(out)@ == old(out)@ + spec_enc_raw_transaction(r@),
{
    match &r.tx {
        None => {
            out.push(0u8);
            proof {
                assert(out@ =~= old(out)@ + spec_enc_raw_transaction(r@));
            }
        },
        Some(Tx::NormalTx(t)) => {
            out.push(1u8);
            match &t.transaction {
                None => {
                    out.push(0u8);
                },
                Some(body) => {
                    out.push(1u8);
                    enc_transaction_into(out, body);
                },
            }
            enc_bytes_into(out, &t.transaction_hash);
            match &t.witness {
                None => {
                    out.push(0u8);
                },
                Some(w) => {
                    out.push(1u8);
                    enc_witness_into(out, w);
                },
            }
            proof {
                assert(out@ =~= old(out)@ + spec_enc_raw_transaction(r@));
            }
        },
        Some(Tx::UtxoTx(t)) => {
            out.push(2u8);
            match &t.transaction {
                None => {
                    out.push(0u8);
                },
                Some(body) => {
                    out.push(1u8);
                    enc_utxo_transaction_into(out, body);
                },
            }
            enc_bytes_into(out, &t.transaction_hash);
            enc_witness_list_into(out, &t.witnesses);
            proof {
                assert(out@ =~= old(out)@ + spec_enc_raw_transaction(r@));
            }
        },
    }
}

/// The encoding of a raw transaction, as stored under its hash.
pub fn encode_raw_transaction(r: &RawTransaction) -> (out: Vec<u8>)
    ensures
        out@ == spec_enc_raw_transaction(r@),
{
    let mut out: Vec<u8> = Vec::new();
    enc_raw_transaction_into(&mut out, r);
    proof {
        assert(out@ =~= spec_enc_raw_transaction(r@));
    }
    out
}

/// The encoding of a normal transaction body, whose hash the submitter
/// claims.
pub fn encode_transaction(t: &Transaction) -> (out: Vec<u8>)
    ensures
        out@ == spec_enc_transaction(t@),
{
    let mut out: Vec<u8> = Vec::new();
    enc_transaction_into(&mut out, t);
    proof {
        assert(out@ =~= spec_enc_transaction(t@));
    }
    out
}

/// The encoding of a utxo transaction body, whose hash the submitter claims.
pub fn encode_utxo_transaction(t: &UtxoTransaction) -> (out: Vec<u8>)
    ensures
        out@ == spec_enc_utxo_transaction(t@),
{
    let mut out: Vec<u8> = Vec::new();
    enc_utxo_transaction_into(&mut out, t);
    proof {
        assert(out@ =~= spec_enc_utxo_transaction(t@));
    }
    out
}

/// Reads a raw transaction at `pos`.
pub fn dec_raw_transaction(s: &Vec<u8>, pos: usize) -> (r: Option<(RawTransaction, usize)>)
    ensures
        match r {
            Some(p) => spec_dec_raw_transaction(s@, pos as int) == Some((p.0@, p.1 as int)),
            None => spec_dec_raw_transaction(s@, pos as int) is None,
        },
{
    let (tag, j) = match dec_u8(s, pos) {
        Some(p) => p,
        None => {
            return None;
        },
    };
    if tag == 0 {
        Some((RawTransaction { tx: None }, j))
    } else if tag == 1 {
        let (transaction, i1) = {
            let (t2, j2) = match dec_u8(s, j) {
                Some(p) => p,
                None => {
                    return None;
                },
            };
            if t2 == 0 {
                (None, j2)
            } else if t2 == 1 {
                match dec_transaction(s, j2) {
                    Some((body, k)) => (Some(body), k),
                    None => {
                        return None;
                    },
                }
            } else {
                return None;
            }
        };
        let (transaction_hash, i2) = match dec_bytes(s, i1) {
            Some(p) => p,
            None => {
                return None;
            },
        };
        let (witness, i3) = {
            let (t2, j2) = match dec_u8(s, i2) {
                Some(p) => p,
                None => {
                    return None;
                },
            };
            if t2 == 0 {
                (None, j2)
            } else if t2 == 1 {
                match dec_witness(s, j2) {
                    Some((w, k)) => (Some(w), k),
                    None => {
                        return None;
                    },
                }
            } else {
                return None;
            }
        };
        Some(
            (
                RawTransaction {
                    tx: Some(
                        Tx::NormalTx(
                            UnverifiedTransaction { transaction, transaction_hash, witness },
                        ),
                    ),
                },
                i3,
            ),
        )
    } else if tag == 2 {
        let (transaction, i1) = {
            let (t2, j2) = match dec_u8(s, j) {
                Some(p) => p,
                None => {
                    return None;
                },
            };
            if t2 == 0 {
                (None, j2)
            } else if t2 == 1 {
                match dec_utxo_transaction(s, j2) {
                    Some((body, k)) => (Some(body), k),
                    None => {
                        return None;
                    },
                }
            } else {
                return None;
            }
        };
        let (transaction_hash, i2) = match dec_bytes(s, i1) {
            Some(p) => p,
            None => {
                return None;
            },
        };
        let (witnesses, i3) = match dec_witness_list(s, i2) {
            Some(p) => p,
            None => {
                return None;
            },
        };
        Some(
            (
                RawTransaction {
                    tx: Some(
                        Tx::UtxoTx(
                            UnverifiedUtxoTransaction { transaction, transaction_hash, witnesses },
                        ),
                    ),
                },
                i3,
            ),
        )
    } else {
        None
    }
}

/// A decoded tag byte is the one-byte subrange it came from.
pub proof fn lemma_dec_u8_sound(s: Seq<u8>, i: int)
    requires
        spec_dec_u8(s, i) is Some,
    ensures
        ({
            let (b, j) = spec_dec_u8(s, i)->Some_0;
            &&& j == i + 1 <= s.len()
            &&& s.subrange(i, j) == seq![b]
        }),
{
    let (b, j) = spec_dec_u8(s, i)->Some_0;
    assert(s.subrange(i, j) =~= seq![b]);
}

/// A decoded raw transaction re-encodes to exactly the consumed bytes.
pub proof fn lemma_dec_raw_transaction_sound(s: Seq<u8>, i: int)
    requires
        spec_dec_raw_transaction(s, i) is Some,
    ensures
        ({
            let (r, j) = spec_dec_raw_transaction(s, i)->Some_0;
            &&& i <= j <= s.len()
            &&& s.subrange(i, j) == spec_enc_raw_transaction(r)
        }),
{
    let (tag, j0) = spec_dec_u8(s, i)->Some_0;
    lemma_dec_u8_sound(s, i);
    let (r, j) = spec_dec_raw_transaction(s, i)->Some_0;
    if tag == 0 {
        assert(s.subrange(i, j) =~= spec_enc_raw_transaction(r));
    } else if tag == 1 {
        let (t, k) = spec_dec_unverified_transaction(s, j0)->Some_0;
        lemma_dec_unverified_transaction_sound(s, j0);
        lemma_join_subranges(s, i, j0, k);
        assert(s.subrange(i, j) =~= spec_enc_raw_transaction(r));
    } else {
        let (t, k) = spec_dec_unverified_utxo_transaction(s, j0)->Some_0;
        lemma_dec_unverified_utxo_transaction_sound(s, j0);
        lemma_join_subranges(s, i, j0, k);
        assert(s.subrange(i, j) =~= spec_enc_raw_transaction(r));
    }
}

/// A decoded received normal transaction re-encodes to the consumed bytes.
pub proof fn lemma_dec_unverified_transaction_sound(s: Seq<u8>, i: int)
    requires
        spec_dec_unverified_transaction(s, i) is Some,
    ensures
        ({
            let (t, j) = spec_dec_unverified_transaction(s, i)->Some_0;
            &&& i <= j <= s.len()
            &&& s.subrange(i, j) == spec_enc_unverified_transaction(t)
        }),
{
    let (transaction, i1) = spec_dec_opt_transaction(s, i)->Some_0;
    let (transaction_hash, i2) = spec_dec_bytes(s, i1)->Some_0;
    let (witness, i3) = spec_dec_opt_witness(s, i2)->Some_0;
    lemma_dec_opt_transaction_sound(s, i);
    lemma_dec_bytes_sound(s, i1);
    lemma_dec_opt_witness_sound(s, i2);
    lemma_join_subranges(s, i, i1, i2);
    lemma_join_subranges(s, i, i2, i3);
    assert(s.subrange(i, i3) =~= spec_enc_unverified_transaction(
        spec_dec_unverified_transaction(s, i)->Some_0.0,
    ));
}

/// A decoded received utxo transaction re-encodes to the consumed bytes.
pub proof fn lemma_dec_unverified_utxo_transaction_sound(s: Seq<u8>, i: int)
    requires
        spec_dec_unverified_utxo_transaction(s, i) is Some,
    ensures
        ({
            let (t, j) = spec_dec_unverified_utxo_transaction(s, i)->Some_0;
            &&& i <= j <= s.len()
            &&& s.subrange(i, j) == spec_enc_unverified_utxo_transaction(t)
        }),
{
    let (transaction, i1) = spec_dec_opt_utxo_transaction(s, i)->Some_0;
    let (transaction_hash, i2) = spec_dec_bytes(s, i1)->Some_0;
    let (witnesses, i3) = spec_dec_witness_list(s, i2)->Some_0;
    lemma_dec_opt_utxo_transaction_sound(s, i);
    lemma_dec_bytes_sound(s, i1);
    lemma_dec_witness_list_sound(s, i2);
    lemma_join_subranges(s, i, i1, i2);
    lemma_join_subranges(s, i, i2, i3);
    assert(s.subrange(i, i3) =~= spec_enc_unverified_utxo_transaction(
        spec_dec_unverified_utxo_transaction(s, i)->Some_0.0,
    ));
}

/// A decoded optional normal transaction re-encodes to the consumed bytes.
pub proof fn lemma_dec_opt_transaction_sound(s: Seq<u8>, i: int)
    requires
        spec_dec_opt_transaction(s, i) is Some,
    ensures
        ({
            let (o, j) = spec_dec_opt_transaction(s, i)->Some_0;
            &&& i <= j <= s.len()
            &&& s.subrange(i, j) == spec_enc_opt_transaction(o)
        }),
{
    let (tag, j0) = spec_dec_u8(s, i)->Some_0;
    lemma_dec_u8_sound(s, i);
    let (o, j) = spec_dec_opt_transaction(s, i)->Some_0;
    if tag == 0 {
        assert(s.subrange(i, j) =~= spec_enc_opt_transaction(o));
    } else {
        let (t, k) = spec_dec_transaction(s, j0)->Some_0;
        lemma_dec_transaction_sound(s, j0);
        lemma_join_subranges(s, i, j0, k);
        assert(s.subrange(i, j) =~= spec_enc_opt_transaction(o));
    }
}

/// A decoded optional witness re-encodes to the consumed bytes.
pub proof fn lemma_dec_opt_witness_sound(s: Seq<u8>, i: int)
    requires
        spec_dec_opt_witness(s, i) is Some,
    ensures
        ({
            let (o, j) = spec_dec_opt_witness(s, i)->Some_0;
            &&& i <= j <= s.len()
            &&& s.subrange(i, j) == spec_enc_opt_witness(o)
        }),
{
    let (tag, j0) = spec_dec_u8(s, i)->Some_0;
    lemma_dec_u8_sound(s, i);
    let (o, j) = spec_dec_opt_witness(s, i)->Some_0;
    if tag == 0 {
        assert(s.subrange(i, j) =~= spec_enc_opt_witness(o));
    } else {
        let (w, k) = spec_dec_witness(s, j0)->Some_0;
        lemma_dec_witness_sound(s, j0);
        lemma_join_subranges(s, i, j0, k);
        assert(s.subrange(i, j) =~= spec_enc_opt_witness(o));
    }
}

/// A decoded optional utxo transaction re-encodes to the consumed bytes.
pub proof fn lemma_dec_opt_utxo_transaction_sound(s: Seq<u8>, i: int)
    requires
        spec_dec_opt_utxo_transaction(s, i) is Some,
    ensures
        ({
            let (o, j) = spec_dec_opt_utxo_transaction(s, i)->Some_0;
            &&& i <= j <= s.len()
            &&& s.subrange(i, j) == spec_enc_opt_utxo_transaction(o)
        }),
{
    let (tag, j0) = spec_dec_u8(s, i)->Some_0;
    lemma_dec_u8_sound(s, i);
    let (o, j) = spec_dec_opt_utxo_transaction(s, i)->Some_0;
    if tag == 0 {
        assert(s.subrange(i, j) =~= spec_enc_opt_utxo_transaction(o));
    } else {
        let (t, k) = spec_dec_utxo_transaction(s, j0)->Some_0;
        lemma_dec_utxo_transaction_sound(s, j0);
        lemma_join_subranges(s, i, j0, k);
        assert(s.subrange(i, j) =~= spec_enc_opt_utxo_transaction(o));
    }
}

// ---------------------------------------------------------------------------
// Blocks
// ---------------------------------------------------------------------------

/// The concatenated encodings of a block body.
pub open spec fn spec_enc_body_items(l: Seq<RawTransactionV>) -> Seq<u8>
    decreases l.len(),
{
    if l.len() == 0 {
        Seq::empty()
    } else {
        spec_enc_raw_transaction(l.first()) + spec_enc_body_items(l.drop_first())
    }
}

/// Appending one transaction extends the encoding on the right.
#[verifier::spinoff_prover]
#[verifier::rlimit(50)]
pub proof fn lemma_enc_body_items_push(l: Seq<RawTransactionV>, x: RawTransactionV)
    ensures
        spec_enc_body_items(l.push(x)) == spec_enc_body_items(l) + spec_enc_raw_transaction(x),
    decreases l.len(),
{
    if l.len() == 0 {
        assert(l.push(x).drop_first() =~= Seq::<RawTransactionV>::empty());
        assert(l.push(x).first() == x);
        assert(spec_enc_body_items(Seq::<RawTransactionV>::empty()) == Seq::<u8>::empty());
        assert(spec_enc_body_items(l.push(x)) == spec_enc_raw_transaction(x)
            + spec_enc_body_items(l.push(x).drop_first()));
        assert(spec_enc_body_items(l.push(x)) =~= spec_enc_body_items(l)
            + spec_enc_raw_transaction(x));
    } else {
        assert(l.push(x).drop_first() =~= l.drop_first().push(x));
        assert(l.push(x).first() == l.first());
        lemma_enc_body_items_push(l.drop_first(), x);
        assert(spec_enc_body_items(l.push(x)) == spec_enc_raw_transaction(l.first())
            + spec_enc_body_items(l.drop_first().push(x)));
        assert(spec_enc_body_items(l.push(x)) =~= spec_enc_body_items(l)
            + spec_enc_raw_transaction(x));
    }
}

/// A block body: u64 count, then the transactions.
pub open spec fn spec_enc_body_list(l: Seq<RawTransactionV>) -> Seq<u8> {
    spec_enc_u64(l.len() as u64) + spec_enc_body_items(l)
}

/// Decoding `n` raw transactions starting at `i`.
pub open spec fn spec_dec_body_items(s: Seq<u8>, i: int, n: nat) -> Option<
    (Seq<RawTransactionV>, int),
>
    decreases n,
{
    if n == 0 {
        Some((Seq::empty(), i))
    } else {
        match spec_dec_raw_transaction(s, i) {
            Some((r, j)) => match spec_dec_body_items(s, j, (n - 1) as nat) {
                Some((rest, k)) => Some((seq![r] + rest, k)),
                None => None,
            },
            None => None,
        }
    }
}

/// Decoding a block body at `i`.
pub open spec fn spec_dec_body_list(s: Seq<u8>, i: int) -> Option<(Seq<RawTransactionV>, int)> {
    match spec_dec_u64(s, i) {
        Some((n, j)) => spec_dec_body_items(s, j, n as nat),
        None => None,
    }
}

/// Appends the encoding of the block body to `out`.
pub fn enc_body_list_into(out: &mut Vec<u8>, l: &Vec<RawTransaction>)
    ensures
        final(out)@ == old(out)@ + spec_enc_body_list(body_view(l@)),
{
    let ghost base = out@;
    let mut count = enc_u64(l.len() as u64);
    out.append(&mut count);
    let n = l.len();
    let mut i: usize = 0;
    proof {
        assert(body_view(l@).take(0) =~= Seq::<RawTransactionV>::empty());
    }
    while i < n
        invariant
            n == l@.len(),
            0 <= i <= n,
            out@ == base + spec_enc_u64(n as u64) + spec_enc_body_items(
                body_view(l@).take(i as int),
            ),
        decreases n - i,
    {
        enc_raw_transaction_into(out, &l[i]);
        proof {
            assert(body_view(l@).take(i as int + 1) =~= body_view(l@).take(i as int).push(
                l@[i as int]@,
            ));
            lemma_enc_body_items_push(body_view(l@).take(i as int), l@[i as int]@);
            assert(out@ =~= base + spec_enc_u64(n as u64) + spec_enc_body_items(
                body_view(l@).take(i as int + 1),
            ));
        }
        i += 1;
    }
    proof {
        assert(body_view(l@).take(n as int) =~= body_view(l@));
        assert(out@ =~= base + spec_enc_body_list(body_view(l@)));
    }
}

/// Reads a block body at `pos`.
pub fn dec_body_list(s: &Vec<u8>, pos: usize) -> (r: Option<(Vec<RawTransaction>, usize)>)
    ensures
        match r {
            Some(p) => spec_dec_body_list(s@, pos as int) == Some((body_view(p.0@), p.1 as int)),
            None => spec_dec_body_list(s@, pos as int) is None,
        },
{
    let (n, start) = match dec_u64(s, pos) {
        Some(p) => p,
        None => {
            return None;
        },
    };
    let mut acc: Vec<RawTransaction> = Vec::new();
    let mut cur: usize = start;
    let mut t: u64 = 0;
    proof {
        assert(body_view(acc@) =~= Seq::<RawTransactionV>::empty());
        if spec_dec_body_items(s@, cur as int, n as nat) is Some {
            let (r2, e) = spec_dec_body_items(s@, cur as int, n as nat)->Some_0;
            assert(body_view(acc@) + r2 =~= r2);
        }
    }
    while t < n
        invariant
            0 <= t <= n,
            cur <= s@.len(),
            spec_dec_u64(s@, pos as int) == Some((n, start as int)),
            match spec_dec_body_items(s@, cur as int, (n - t) as nat) {
                Some((r2, e)) => spec_dec_body_items(s@, start as int, n as nat) == Some(
                    (body_view(acc@) + r2, e),
                ),
                None => spec_dec_body_items(s@, start as int, n as nat) is None,
            },
        decreases n - t,
    {
        let (r1, j) = match dec_raw_transaction(s, cur) {
            Some(p) => p,
            None => {
                proof {
                    assert(spec_dec_body_items(s@, cur as int, (n - t) as nat) is None);
                    assert(spec_dec_body_list(s@, pos as int) is None);
                }
                return None;
            },
        };
        proof {
            lemma_dec_raw_transaction_sound(s@, cur as int);
        }
        let ghost prev_acc = acc@;
        acc.push(r1);
        proof {
            assert(body_view(acc@) =~= body_view(prev_acc).push(r1@));
            if spec_dec_body_items(s@, j as int, (n - t - 1) as nat) is Some {
                let (r2, e) = spec_dec_body_items(s@, j as int, (n - t - 1) as nat)->Some_0;
                assert(spec_dec_body_items(s@, cur as int, (n - t) as nat) == Some(
                    (seq![r1@] + r2, e),
                ));
                assert(body_view(prev_acc) + (seq![r1@] + r2) =~= body_view(acc@) + r2);
            } else {
                assert(spec_dec_body_items(s@, cur as int, (n - t) as nat) is None);
            }
        }
        cur = j;
        t += 1;
    }
    proof {
        assert(spec_dec_body_items(s@, cur as int, 0) == Some(
            (Seq::<RawTransactionV>::empty(), cur as int),
        ));
        assert(body_view(acc@) + Seq::<RawTransactionV>::empty() =~= body_view(acc@));
    }
    Some((acc, cur))
}

/// Decoded body items re-encode to exactly the consumed bytes.
pub proof fn lemma_dec_body_items_sound(s: Seq<u8>, i: int, n: nat)
    requires
        0 <= i <= s.len(),
        spec_dec_body_items(s, i, n) is Some,
    ensures
        ({
            let (l, j) = spec_dec_body_items(s, i, n)->Some_0;
            &&& i <= j <= s.len()
            &&& l.len() == n
            &&& s.subrange(i, j) == spec_enc_body_items(l)
        }),
    decreases n,
{
    let (l, j) = spec_dec_body_items(s, i, n)->Some_0;
    if n == 0 {
        assert(s.subrange(i, i) =~= spec_enc_body_items(l));
    } else {
        let (r, m) = spec_dec_raw_transaction(s, i)->Some_0;
        lemma_dec_raw_transaction_sound(s, i);
        let (rest, k) = spec_dec_body_items(s, m, (n - 1) as nat)->Some_0;
        lemma_dec_body_items_sound(s, m, (n - 1) as nat);
        assert(l == seq![r] + rest);
        assert(l.first() == r);
        assert(l.drop_first() =~= rest);
        lemma_join_subranges(s, i, m, k);
        assert(s.subrange(i, j) == spec_enc_raw_transaction(r) + spec_enc_body_items(rest));
    }
}

/// A decoded block body re-encodes to exactly the consumed bytes.
pub proof fn lemma_dec_body_list_sound(s: Seq<u8>, i: int)
    requires
        spec_dec_body_list(s, i) is Some,
    ensures
        ({
            let (l, j) = spec_dec_body_list(s, i)->Some_0;
            &&& i <= j <= s.len()
            &&& s.subrange(i, j) == spec_enc_body_list(l)
        }),
{
    let (n, m) = spec_dec_u64(s, i)->Some_0;
    let (l, j) = spec_dec_body_list(s, i)->Some_0;
    lemma_u64_be_round_trip();
    assert(spec_enc_u64(n) =~= s.subrange(i, i + 8));
    lemma_dec_body_items_sound(s, m, n as nat);
    assert(l.len() as u64 == n);
    lemma_join_subranges(s, i, m, j);
    assert(s.subrange(i, j) =~= spec_enc_body_list(l));
}

/// A full block: version, header, body, proof.
pub open spec fn spec_enc_block(b: BlockV) -> Seq<u8> {
    spec_enc_u32(b.version) + spec_enc_block_header(b.header) + spec_enc_body_list(b.body)
        + spec_enc_bytes(b.proof)
}

/// Decoding a full block at `i`.
pub open spec fn spec_dec_block(s: Seq<u8>, i: int) -> Option<(BlockV, int)> {
    match spec_dec_u32(s, i) {
        Some((version, i1)) => match spec_dec_block_header(s, i1) {
            Some((header, i2)) => match spec_dec_body_list(s, i2) {
                Some((body, i3)) => match spec_dec_bytes(s, i3) {
                    Some((proof, i4)) => Some((BlockV { version, header, body, proof }, i4)),
                    None => None,
                },
                None => None,
            },
            None => None,
        },
        None => None,
    }
}

/// Appends the encoding of `b` to `out`.
pub fn enc_block_into(out: &mut Vec<u8>, b: &Block)
    ensures
        final(out)@ == old(out)@ + spec_enc_block(b@),
{
    let mut version = enc_u32(b.version);
    out.append(&mut version);
    enc_block_header_into(out, &b.header);
    enc_body_list_into(out, &b.body);
    enc_bytes_into(out, &b.proof);
    proof {
        assert(out@ =~= old(out)@ + spec_enc_block(b@));
    }
}

/// The encoding of a full block.
pub fn encode_block(b: &Block) -> (out: Vec<u8>)
    ensures
        out@ == spec_enc_block(b@),
{
    let mut out: Vec<u8> = Vec::new();
    enc_block_into(&mut out, b);
    proof {
        assert(out@ =~= spec_enc_block(b@));
    }
    out
}

/// Reads a full block at `pos`.
pub fn dec_block(s: &Vec<u8>, pos: usize) -> (r: Option<(Block, usize)>)
    ensures
        match r {
            Some(p) => spec_dec_block(s@, pos as int) == Some((p.0@, p.1 as int)),
            None => spec_dec_block(s@, pos as int) is None,
        },
{
    let (version, i1) = match dec_u32(s, pos) {
        Some(p) => p,
        None => {
            return None;
        },
    };
    let (header, i2) = match dec_block_header(s, i1) {
        Some(p) => p,
        None => {
            return None;
        },
    };
    let (body, i3) = match dec_body_list(s, i2) {
        Some(p) => p,
        None => {
            return None;
        },
    };
    let (proof, i4) = match dec_bytes(s, i3) {
        Some(p) => p,
        None => {
            return None;
        },
    };
    Some((Block { version, header, body, proof }, i4))
}

/// A decoded block re-encodes to exactly the consumed bytes.
pub proof fn lemma_dec_block_sound(s: Seq<u8>, i: int)
    requires
        spec_dec_block(s, i) is Some,
    ensures
        ({
            let (b, j) = spec_dec_block(s, i)->Some_0;
            &&& i <= j <= s.len()
            &&& s.subrange(i, j) == spec_enc_block(b)
        }),
{
    let (version, i1) = spec_dec_u32(s, i)->Some_0;
    let (header, i2) = spec_dec_block_header(s, i1)->Some_0;
    let (body, i3) = spec_dec_body_list(s, i2)->Some_0;
    let (proof, i4) = spec_dec_bytes(s, i3)->Some_0;
    lemma_dec_u32_sound(s, i);
    lemma_dec_block_header_sound(s, i1);
    lemma_dec_body_list_sound(s, i2);
    lemma_dec_bytes_sound(s, i3);
    lemma_join_subranges(s, i, i1, i2);
    lemma_join_subranges(s, i, i2, i3);
    lemma_join_subranges(s, i, i3, i4);
    assert(s.subrange(i, i4) =~= spec_enc_block(spec_dec_block(s, i)->Some_0.0));
}

// ---------------------------------------------------------------------------
// Proposals
// ---------------------------------------------------------------------------

/// An optional block: a tag byte, then the block if any.
pub open spec fn spec_enc_opt_block(o: Option<BlockV>) -> Seq<u8> {
    match o {
        None => seq![0u8],
        Some(b) => seq![1u8] + spec_enc_block(b),
    }
}

/// Decoding an optional block at `i`.
pub open spec fn spec_dec_opt_block(s: Seq<u8>, i: int) -> Option<(Option<BlockV>, int)> {
    match spec_dec_u8(s, i) {
        Some((tag, j)) => {
            if tag == 0 {
                Some((None, j))
            } else if tag == 1 {
                match spec_dec_block(s, j) {
                    Some((b, k)) => Some((Some(b), k)),
                    None => None,
                }
            } else {
                None
            }
        },
        None => None,
    }
}

/// A decoded optional block re-encodes to the consumed bytes.
pub proof fn lemma_dec_opt_block_sound(s: Seq<u8>, i: int)
    requires
        spec_dec_opt_block(s, i) is Some,
    ensures
        ({
            let (o, j) = spec_dec_opt_block(s, i)->Some_0;
            &&& i <= j <= s.len()
            &&& s.subrange(i, j) == spec_enc_opt_block(o)
        }),
{
    let (tag, j0) = spec_dec_u8(s, i)->Some_0;
    lemma_dec_u8_sound(s, i);
    let (o, j) = spec_dec_opt_block(s, i)->Some_0;
    if tag == 0 {
        assert(s.subrange(i, j) =~= spec_enc_opt_block(o));
    } else {
        let (b, k) = spec_dec_block(s, j0)->Some_0;
        lemma_dec_block_sound(s, j0);
        lemma_join_subranges(s, i, j0, k);
        assert(s.subrange(i, j) =~= spec_enc_opt_block(o));
    }
}

/// A consensus proposal: optional block, then the two historical anchors.
pub open spec fn spec_enc_bft_proposal(p: BftProposalV) -> Seq<u8> {
    spec_enc_opt_block(p.proposal) + spec_enc_bytes(p.pre_state_root) + spec_enc_bytes(
        p.pre_proof,
    )
}

/// Decoding a consensus proposal at `i`.
pub open spec fn spec_dec_bft_proposal(s: Seq<u8>, i: int) -> Option<(BftProposalV, int)> {
    match spec_dec_opt_block(s, i) {
        Some((proposal, i1)) => match spec_dec_bytes(s, i1) {
            Some((pre_state_root, i2)) => match spec_dec_bytes(s, i2) {
                Some((pre_proof, i3)) => Some(
                    (BftProposalV { proposal, pre_state_root, pre_proof }, i3),
                ),
                None => None,
            },
            None => None,
        },
        None => None,
    }
}

/// A decoded consensus proposal re-encodes to the consumed bytes.
pub proof fn lemma_dec_bft_proposal_sound(s: Seq<u8>, i: int)
    requires
        spec_dec_bft_proposal(s, i) is Some,
    ensures
        ({
            let (p, j) = spec_dec_bft_proposal(s, i)->Some_0;
            &&& i <= j <= s.len()
            &&& s.subrange(i, j) == spec_enc_bft_proposal(p)
        }),
{
    let (proposal, i1) = spec_dec_opt_block(s, i)->Some_0;
    let (pre_state_root, i2) = spec_dec_bytes(s, i1)->Some_0;
    let (pre_proof, i3) = spec_dec_bytes(s, i2)->Some_0;
    lemma_dec_opt_block_sound(s, i);
    lemma_dec_bytes_sound(s, i1);
    lemma_dec_bytes_sound(s, i2);
    lemma_join_subranges(s, i, i1, i2);
    lemma_join_subranges(s, i, i2, i3);
    assert(s.subrange(i, i3) =~= spec_enc_bft_proposal(spec_dec_bft_proposal(s, i)->Some_0.0));
}

/// The tagged union around every proposal on the wire.
pub open spec fn spec_enc_proposal_enum(p: ProposalEnumV) -> Seq<u8> {
    match p.proposal {
        None => seq![0u8],
        Some(b) => seq![1u8] + spec_enc_bft_proposal(b),
    }
}

/// Decoding a proposal union at `i`.
pub open spec fn spec_dec_proposal_enum(s: Seq<u8>, i: int) -> Option<(ProposalEnumV, int)> {
    match spec_dec_u8(s, i) {
        Some((tag, j)) => {
            if tag == 0 {
                Some((ProposalEnumV { proposal: None }, j))
            } else if tag == 1 {
                match spec_dec_bft_proposal(s, j) {
                    Some((b, k)) => Some((ProposalEnumV { proposal: Some(b) }, k)),
                    None => None,
                }
            } else {
                None
            }
        },
        None => None,
    }
}

/// A decoded proposal union re-encodes to the consumed bytes.
pub proof fn lemma_dec_proposal_enum_sound(s: Seq<u8>, i: int)
    requires
        spec_dec_proposal_enum(s, i) is Some,
    ensures
        ({
            let (p, j) = spec_dec_proposal_enum(s, i)->Some_0;
            &&& i <= j <= s.len()
            &&& s.subrange(i, j) == spec_enc_proposal_enum(p)
        }),
{
    let (tag, j0) = spec_dec_u8(s, i)->Some_0;
    lemma_dec_u8_sound(s, i);
    let (p, j) = spec_dec_proposal_enum(s, i)->Some_0;
    if tag == 0 {
        assert(s.subrange(i, j) =~= spec_enc_proposal_enum(p));
    } else {
        let (b, k) = spec_dec_bft_proposal(s, j0)->Some_0;
        lemma_dec_bft_proposal_sound(s, j0);
        lemma_join_subranges(s, i, j0, k);
        assert(s.subrange(i, j) =~= spec_enc_proposal_enum(p));
    }
}

/// The encoding of a proposal union, as handed to the consensus engine.
pub fn encode_proposal_enum(p: &ProposalEnum) -> (out: Vec<u8>)
    ensures
        out@ == spec_enc_proposal_enum(p@),
{
    let mut out: Vec<u8> = Vec::new();
    match &p.proposal {
        None => {
            out.push(0u8);
        },
        Some(b) => {
            out.push(1u8);
            match &b.proposal {
                None => {
                    out.push(0u8);
                },
                Some(blk) => {
                    out.push(1u8);
                    enc_block_into(&mut out, blk);
                },
            }
            enc_bytes_into(&mut out, &b.pre_state_root);
            enc_bytes_into(&mut out, &b.pre_proof);
        },
    }
    proof {
        assert(out@ =~= spec_enc_proposal_enum(p@));
    }
    out
}

/// Reads a proposal union at `pos`.
pub fn dec_proposal_enum(s: &Vec<u8>, pos: usize) -> (r: Option<(ProposalEnum, usize)>)
    ensures
        match r {
            Some(p) => spec_dec_proposal_enum(s@, pos as int) == Some((p.0@, p.1 as int)),
            None => spec_dec_proposal_enum(s@, pos as int) is None,
        },
{
    let (tag, j) = match dec_u8(s, pos) {
        Some(p) => p,
        None => {
            return None;
        },
    };
    if tag == 0 {
        Some((ProposalEnum { proposal: None }, j))
    } else if tag == 1 {
        let (proposal, i1) = {
            let (t2, j2) = match dec_u8(s, j) {
                Some(p) => p,
                None => {
                    return None;
                },
            };
            if t2 == 0 {
                (None, j2)
            } else if t2 == 1 {
                match dec_block(s, j2) {
                    Some((b, k)) => (Some(b), k),
                    None => {
                        return None;
                    },
                }
            } else {
                return None;
            }
        };
        let (pre_state_root, i2) = match dec_bytes(s, i1) {
            Some(p) => p,
            None => {
                return None;
            },
        };
        let (pre_proof, i3) = match dec_bytes(s, i2) {
            Some(p) => p,
            None => {
                return None;
            },
        };
        Some(
            (
                ProposalEnum {
                    proposal: Some(BftProposal { proposal, pre_state_root, pre_proof }),
                },
                i3,
            ),
        )
    } else {
        None
    }
}

// ---------------------------------------------------------------------------
// Round-trip laws
// ---------------------------------------------------------------------------

/// Whatever the block-header decoder accepts in full re-encodes to exactly
/// the bytes given: decoding followed by encoding is the identity on valid
/// header encodings.
pub proof fn lemma_round_trip_block_header(bytes: Seq<u8>)
    requires
        spec_dec_block_header(bytes, 0) is Some,
        spec_dec_block_header(bytes, 0)->Some_0.1 == bytes.len(),
    ensures
        spec_enc_block_header(spec_dec_block_header(bytes, 0)->Some_0.0) == bytes,
{
    lemma_dec_block_header_sound(bytes, 0);
    assert(bytes.subrange(0, bytes.len() as int) =~= bytes);
}

/// Decoding a compact body in full and re-encoding gives back the bytes.
pub proof fn lemma_round_trip_compact_body(bytes: Seq<u8>)
    requires
        spec_dec_compact_body(bytes, 0) is Some,
        spec_dec_compact_body(bytes, 0)->Some_0.1 == bytes.len(),
    ensures
        spec_enc_compact_body(spec_dec_compact_body(bytes, 0)->Some_0.0) == bytes,
{
    lemma_dec_compact_body_sound(bytes, 0);
    assert(bytes.subrange(0, bytes.len() as int) =~= bytes);
}

/// Decoding a raw transaction in full and re-encoding gives back the bytes.
pub proof fn lemma_round_trip_raw_transaction(bytes: Seq<u8>)
    requires
        spec_dec_raw_transaction(bytes, 0) is Some,
        spec_dec_raw_transaction(bytes, 0)->Some_0.1 == bytes.len(),
    ensures
        spec_enc_raw_transaction(spec_dec_raw_transaction(bytes, 0)->Some_0.0) == bytes,
{
    lemma_dec_raw_transaction_sound(bytes, 0);
    assert(bytes.subrange(0, bytes.len() as int) =~= bytes);
}

/// Decoding a block in full and re-encoding gives back the bytes.
pub proof fn lemma_round_trip_block(bytes: Seq<u8>)
    requires
        spec_dec_block(bytes, 0) is Some,
        spec_dec_block(bytes, 0)->Some_0.1 == bytes.len(),
    ensures
        spec_enc_block(spec_dec_block(bytes, 0)->Some_0.0) == bytes,
{
    lemma_dec_block_sound(bytes, 0);
    assert(bytes.subrange(0, bytes.len() as int) =~= bytes);
}

/// Decoding a proposal union in full and re-encoding gives back the bytes.
pub proof fn lemma_round_trip_proposal_enum(bytes: Seq<u8>)
    requires
        spec_dec_proposal_enum(bytes, 0) is Some,
        spec_dec_proposal_enum(bytes, 0)->Some_0.1 == bytes.len(),
    ensures
        spec_enc_proposal_enum(spec_dec_proposal_enum(bytes, 0)->Some_0.0) == bytes,
{
    lemma_dec_proposal_enum_sound(bytes, 0);
    assert(bytes.subrange(0, bytes.len() as int) =~= bytes);
}

// ---------------------------------------------------------------------------
// Completeness: every encoding is accepted
// ---------------------------------------------------------------------------

/// A byte string whose length fits its u64 prefix.
pub open spec fn encodable_bytes(b: Seq<u8>) -> bool {
    b.len() <= u64::MAX
}

/// A hash list whose count and items fit their u64 prefixes.
pub open spec fn encodable_hashes(l: Seq<Seq<u8>>) -> bool {
    &&& l.len() <= u64::MAX
    &&& forall|k: int| 0 <= k < l.len() ==> encodable_bytes(#[trigger] l[k])
}

/// A witness whose fields fit their length prefixes.
pub open spec fn encodable_witness(w: WitnessV) -> bool {
    encodable_bytes(w.sender) && encodable_bytes(w.signature)
}

/// A witness list whose count and items fit their length prefixes.
pub open spec fn encodable_witnesses(l: Seq<WitnessV>) -> bool {
    &&& l.len() <= u64::MAX
    &&& forall|k: int| 0 <= k < l.len() ==> encodable_witness(#[trigger] l[k])
}

/// A transaction body whose fields fit their length prefixes.
pub open spec fn encodable_transaction(t: TransactionV) -> bool {
    &&& encodable_bytes(t.to)
    &&& encodable_bytes(t.nonce)
    &&& encodable_bytes(t.data)
    &&& encodable_bytes(t.value)
    &&& encodable_bytes(t.chain_id)
}

/// A utxo transaction body whose fields fit their length prefixes.
pub open spec fn encodable_utxo_transaction(t: UtxoTransactionV) -> bool {
    encodable_bytes(t.pre_tx_hash) && encodable_bytes(t.output)
}

/// A received normal transaction whose fields fit their length prefixes.
pub open spec fn encodable_unverified_transaction(t: UnverifiedTransactionV) -> bool {
    &&& match t.transaction {
        Some(b) => encodable_transaction(b),
        None => true,
    }
    &&& encodable_bytes(t.transaction_hash)
    &&& match t.witness {
        Some(w) => encodable_witness(w),
        None => true,
    }
}

/// A received utxo transaction whose fields fit their length prefixes.
pub open spec fn encodable_unverified_utxo_transaction(t: UnverifiedUtxoTransactionV) -> bool {
    &&& match t.transaction {
        Some(b) => encodable_utxo_transaction(b),
        None => true,
    }
    &&& encodable_bytes(t.transaction_hash)
    &&& encodable_witnesses(t.witnesses)
}

/// A raw transaction whose fields fit their length prefixes.
pub open spec fn encodable_raw_transaction(r: RawTransactionV) -> bool {
    match r.tx {
        None => true,
        Some(TxV::NormalTx(t)) => encodable_unverified_transaction(t),
        Some(TxV::UtxoTx(t)) => encodable_unverified_utxo_transaction(t),
    }
}

/// A block body whose count and items fit their length prefixes.
pub open spec fn encodable_body(l: Seq<RawTransactionV>) -> bool {
    &&& l.len() <= u64::MAX
    &&& forall|k: int| 0 <= k < l.len() ==> encodable_raw_transaction(#[trigger] l[k])
}

/// A block header whose fields fit their length prefixes.
pub open spec fn encodable_block_header(h: BlockHeaderV) -> bool {
    &&& encodable_bytes(h.prevhash)
    &&& encodable_bytes(h.transactions_root)
    &&& encodable_bytes(h.proposer)
}

/// A block whose fields fit their length prefixes.
pub open spec fn encodable_block(b: BlockV) -> bool {
    &&& encodable_block_header(b.header)
    &&& encodable_body(b.body)
    &&& encodable_bytes(b.proof)
}

/// A proposal whose fields fit their length prefixes.
pub open spec fn encodable_bft_proposal(p: BftProposalV) -> bool {
    &&& match p.proposal {
        Some(b) => encodable_block(b),
        None => true,
    }
    &&& encodable_bytes(p.pre_state_root)
    &&& encodable_bytes(p.pre_proof)
}

/// A proposal union whose fields fit their length prefixes.
pub open spec fn encodable_proposal_enum(p: ProposalEnumV) -> bool {
    match p.proposal {
        Some(b) => encodable_bft_proposal(b),
        None => true,
    }
}

/// A u64 encoding placed anywhere in a byte string decodes to its value.
pub proof fn lemma_dec_u64_complete(s: Seq<u8>, i: int, x: u64)
    requires
        0 <= i,
        i + 8 <= s.len(),
        s.subrange(i, i + 8) == spec_enc_u64(x),
    ensures
        spec_dec_u64(s, i) == Some((x, i + 8)),
{
    lemma_u64_be_round_trip();
}

/// A u32 encoding placed anywhere in a byte string decodes to its value.
pub proof fn lemma_dec_u32_complete(s: Seq<u8>, i: int, x: u32)
    requires
        0 <= i,
        i + 4 <= s.len(),
        s.subrange(i, i + 4) == spec_enc_u32(x),
    ensures
        spec_dec_u32(s, i) == Some((x, i + 4)),
{
    lemma_u32_be_round_trip();
}

/// A single byte placed anywhere in a byte string decodes to itself.
pub proof fn lemma_dec_u8_complete(s: Seq<u8>, i: int, b: u8)
    requires
        0 <= i,
        i + 1 <= s.len(),
        s.subrange(i, i + 1) == seq![b],
    ensures
        spec_dec_u8(s, i) == Some((b, i + 1)),
{
    assert(s[i] == s.subrange(i, i + 1)[0]);
}

/// A byte-string encoding placed anywhere decodes to its value.
pub proof fn lemma_dec_bytes_complete(s: Seq<u8>, i: int, b: Seq<u8>)
    requires
        0 <= i,
        encodable_bytes(b),
        i + spec_enc_bytes(b).len() <= s.len(),
        s.subrange(i, i + spec_enc_bytes(b).len()) == spec_enc_bytes(b),
    ensures
        spec_dec_bytes(s, i) == Some((b, i + spec_enc_bytes(b).len())),
{
    let n = b.len() as u64;
    lemma_split_prefix(s, i, spec_enc_u64(n), b);
    lemma_dec_u64_complete(s, i, n);
    assert(s.subrange(i + 8, i + 8 + b.len()) == b);
}

/// A witness encoding placed anywhere decodes to its value.
pub proof fn lemma_dec_witness_complete(s: Seq<u8>, i: int, w: WitnessV)
    requires
        0 <= i,
        encodable_witness(w),
        i + spec_enc_witness(w).len() <= s.len(),
        s.subrange(i, i + spec_enc_witness(w).len()) == spec_enc_witness(w),
    ensures
        spec_dec_witness(s, i) == Some((w, i + spec_enc_witness(w).len())),
{
    let e1 = spec_enc_bytes(w.sender);
    let e2 = spec_enc_bytes(w.signature);
    lemma_split_prefix(s, i, e1, e2);
    lemma_dec_bytes_complete(s, i, w.sender);
    lemma_dec_bytes_complete(s, i + e1.len(), w.signature);
    assert(spec_dec_witness(s, i)->Some_0.0 =~= w);
}

/// Encoded byte-string items placed anywhere decode to their values.
pub proof fn lemma_dec_hashes_items_complete(s: Seq<u8>, i: int, l: Seq<Seq<u8>>)
    requires
        0 <= i,
        encodable_hashes(l),
        i + spec_enc_hashes_items(l).len() <= s.len(),
        s.subrange(i, i + spec_enc_hashes_items(l).len()) == spec_enc_hashes_items(l),
    ensures
        spec_dec_hashes_items(s, i, l.len()) == Some(
            (l, i + spec_enc_hashes_items(l).len()),
        ),
    decreases l.len(),
{
    if l.len() == 0 {
        assert(spec_dec_hashes_items(s, i, 0) == Some((Seq::<Seq<u8>>::empty(), i)));
        assert(l =~= Seq::<Seq<u8>>::empty());
    } else {
        let e1 = spec_enc_bytes(l.first());
        let rest = spec_enc_hashes_items(l.drop_first());
        lemma_split_prefix(s, i, e1, rest);
        lemma_dec_bytes_complete(s, i, l.first());
        assert(encodable_hashes(l.drop_first())) by {
            assert(forall|k: int|
                0 <= k < l.drop_first().len() ==> #[trigger] l.drop_first()[k] == l[k + 1]);
        }
        lemma_dec_hashes_items_complete(s, i + e1.len(), l.drop_first());
        assert(seq![l.first()] + l.drop_first() =~= l);
    }
}

/// A hash-list encoding placed anywhere decodes to its value.
pub proof fn lemma_dec_hash_list_complete(s: Seq<u8>, i: int, l: Seq<Seq<u8>>)
    requires
        0 <= i,
        encodable_hashes(l),
        i + spec_enc_hash_list(l).len() <= s.len(),
        s.subrange(i, i + spec_enc_hash_list(l).len()) == spec_enc_hash_list(l),
    ensures
        spec_dec_hash_list(s, i) == Some((l, i + spec_enc_hash_list(l).len())),
{
    let n = l.len() as u64;
    lemma_split_prefix(s, i, spec_enc_u64(n), spec_enc_hashes_items(l));
    lemma_dec_u64_complete(s, i, n);
    lemma_dec_hashes_items_complete(s, i + 8, l);
}

/// Encoded witness items placed anywhere decode to their values.
pub proof fn lemma_dec_witness_items_complete(s: Seq<u8>, i: int, l: Seq<WitnessV>)
    requires
        0 <= i,
        encodable_witnesses(l),
        i + spec_enc_witness_items(l).len() <= s.len(),
        s.subrange(i, i + spec_enc_witness_items(l).len()) == spec_enc_witness_items(l),
    ensures
        spec_dec_witness_items(s, i, l.len()) == Some(
            (l, i + spec_enc_witness_items(l).len()),
        ),
    decreases l.len(),
{
    if l.len() == 0 {
        assert(spec_dec_witness_items(s, i, 0) == Some((Seq::<WitnessV>::empty(), i)));
        assert(l =~= Seq::<WitnessV>::empty());
    } else {
        let e1 = spec_enc_witness(l.first());
        let rest = spec_enc_witness_items(l.drop_first());
        lemma_split_prefix(s, i, e1, rest);
        lemma_dec_witness_complete(s, i, l.first());
        assert(encodable_witnesses(l.drop_first())) by {
            assert(forall|k: int|
                0 <= k < l.drop_first().len() ==> #[trigger] l.drop_first()[k] == l[k + 1]);
        }
        lemma_dec_witness_items_complete(s, i + e1.len(), l.drop_first());
        assert(seq![l.first()] + l.drop_first() =~= l);
    }
}

/// A witness-list encoding placed anywhere decodes to its value.
pub proof fn lemma_dec_witness_list_complete(s: Seq<u8>, i: int, l: Seq<WitnessV>)
    requires
        0 <= i,
        encodable_witnesses(l),
        i + spec_enc_witness_list(l).len() <= s.len(),
        s.subrange(i, i + spec_enc_witness_list(l).len()) == spec_enc_witness_list(l),
    ensures
        spec_dec_witness_list(s, i) == Some((l, i + spec_enc_witness_list(l).len())),
{
    let n = l.len() as u64;
    lemma_split_prefix(s, i, spec_enc_u64(n), spec_enc_witness_items(l));
    lemma_dec_u64_complete(s, i, n);
    lemma_dec_witness_items_complete(s, i + 8, l);
}

/// A transaction-body encoding placed anywhere decodes to its value.
#[verifier::spinoff_prover]
#[verifier::rlimit(50)]
pub proof fn lemma_dec_transaction_complete(s: Seq<u8>, i: int, t: TransactionV)
    requires
        0 <= i,
        encodable_transaction(t),
        i + spec_enc_transaction(t).len() <= s.len(),
        s.subrange(i, i + spec_enc_transaction(t).len()) == spec_enc_transaction(t),
    ensures
        spec_dec_transaction(s, i) == Some((t, i + spec_enc_transaction(t).len())),
{
    let e1 = spec_enc_u32(t.version);
    let e2 = spec_enc_bytes(t.to);
    let e3 = spec_enc_bytes(t.nonce);
    let e4 = spec_enc_u64(t.quota);
    let e5 = spec_enc_u64(t.valid_until_block);
    let e6 = spec_enc_bytes(t.data);
    let e7 = spec_enc_bytes(t.value);
    let e8 = spec_enc_bytes(t.chain_id);
    let total = spec_enc_transaction(t).len();
    assert(s.subrange(i, i + total) =~= e1 + (e2 + e3 + e4 + e5 + e6 + e7 + e8));
    lemma_split_prefix(s, i, e1, e2 + e3 + e4 + e5 + e6 + e7 + e8);
    let i1 = i + e1.len();
    assert((e2 + e3 + e4 + e5 + e6 + e7 + e8) =~= e2 + (e3 + e4 + e5 + e6 + e7 + e8));
    lemma_split_prefix(s, i1, e2, e3 + e4 + e5 + e6 + e7 + e8);
    let i2 = i1 + e2.len();
    assert((e3 + e4 + e5 + e6 + e7 + e8) =~= e3 + (e4 + e5 + e6 + e7 + e8));
    lemma_split_prefix(s, i2, e3, e4 + e5 + e6 + e7 + e8);
    let i3 = i2 + e3.len();
    assert((e4 + e5 + e6 + e7 + e8) =~= e4 + (e5 + e6 + e7 + e8));
    lemma_split_prefix(s, i3, e4, e5 + e6 + e7 + e8);
    let i4 = i3 + e4.len();
    assert((e5 + e6 + e7 + e8) =~= e5 + (e6 + e7 + e8));
    lemma_split_prefix(s, i4, e5, e6 + e7 + e8);
    let i5 = i4 + e5.len();
    assert((e6 + e7 + e8) =~= e6 + (e7 + e8));
    lemma_split_prefix(s, i5, e6, e7 + e8);
    let i6 = i5 + e6.len();
    lemma_split_prefix(s, i6, e7, e8);
    let i7 = i6 + e7.len();
    lemma_dec_u32_complete(s, i, t.version);
    lemma_dec_bytes_complete(s, i1, t.to);
    lemma_dec_bytes_complete(s, i2, t.nonce);
    lemma_dec_u64_complete(s, i3, t.quota);
    lemma_dec_u64_complete(s, i4, t.valid_until_block);
    lemma_dec_bytes_complete(s, i5, t.data);
    lemma_dec_bytes_complete(s, i6, t.value);
    lemma_dec_bytes_complete(s, i7, t.chain_id);
    assert(spec_dec_transaction(s, i)->Some_0.0 =~= t);
}

/// A utxo-body encoding placed anywhere decodes to its value.
pub proof fn lemma_dec_utxo_transaction_complete(s: Seq<u8>, i: int, t: UtxoTransactionV)
    requires
        0 <= i,
        encodable_utxo_transaction(t),
        i + spec_enc_utxo_transaction(t).len() <= s.len(),
        s.subrange(i, i + spec_enc_utxo_transaction(t).len()) == spec_enc_utxo_transaction(t),
    ensures
        spec_dec_utxo_transaction(s, i) == Some((t, i + spec_enc_utxo_transaction(t).len())),
{
    let e1 = spec_enc_u32(t.version);
    let e2 = spec_enc_bytes(t.pre_tx_hash);
    let e3 = spec_enc_bytes(t.output);
    let e4 = spec_enc_u64(t.lock_id);
    let total = spec_enc_utxo_transaction(t).len();
    assert(s.subrange(i, i + total) =~= e1 + (e2 + e3 + e4));
    lemma_split_prefix(s, i, e1, e2 + e3 + e4);
    let i1 = i + e1.len();
    assert((e2 + e3 + e4) =~= e2 + (e3 + e4));
    lemma_split_prefix(s, i1, e2, e3 + e4);
    let i2 = i1 + e2.len();
    lemma_split_prefix(s, i2, e3, e4);
    let i3 = i2 + e3.len();
    lemma_dec_u32_complete(s, i, t.version);
    lemma_dec_bytes_complete(s, i1, t.pre_tx_hash);
    lemma_dec_bytes_complete(s, i2, t.output);
    lemma_dec_u64_complete(s, i3, t.lock_id);
    assert(spec_dec_utxo_transaction(s, i)->Some_0.0 =~= t);
}

/// A block-header encoding placed anywhere decodes to its value.
pub proof fn lemma_dec_block_header_complete(s: Seq<u8>, i: int, h: BlockHeaderV)
    requires
        0 <= i,
        encodable_block_header(h),
        i + spec_enc_block_header(h).len() <= s.len(),
        s.subrange(i, i + spec_enc_block_header(h).len()) == spec_enc_block_header(h),
    ensures
        spec_dec_block_header(s, i) == Some((h, i + spec_enc_block_header(h).len())),
{
    let e1 = spec_enc_bytes(h.prevhash);
    let e2 = spec_enc_u64(h.timestamp);
    let e3 = spec_enc_u64(h.height);
    let e4 = spec_enc_bytes(h.transactions_root);
    let e5 = spec_enc_bytes(h.proposer);
    let total = spec_enc_block_header(h).len();
    assert(s.subrange(i, i + total) =~= e1 + (e2 + e3 + e4 + e5));
    lemma_split_prefix(s, i, e1, e2 + e3 + e4 + e5);
    let i1 = i + e1.len();
    assert((e2 + e3 + e4 + e5) =~= e2 + (e3 + e4 + e5));
    lemma_split_prefix(s, i1, e2, e3 + e4 + e5);
    let i2 = i1 + e2.len();
    assert((e3 + e4 + e5) =~= e3 + (e4 + e5));
    lemma_split_prefix(s, i2, e3, e4 + e5);
    let i3 = i2 + e3.len();
    lemma_split_prefix(s, i3, e4, e5);
    let i4 = i3 + e4.len();
    lemma_dec_bytes_complete(s, i, h.prevhash);
    lemma_dec_u64_complete(s, i1, h.timestamp);
    lemma_dec_u64_complete(s, i2, h.height);
    lemma_dec_bytes_complete(s, i3, h.transactions_root);
    lemma_dec_bytes_complete(s, i4, h.proposer);
    assert(spec_dec_block_header(s, i)->Some_0.0 =~= h);
}

/// An optional-transaction encoding placed anywhere decodes to its value.
pub proof fn lemma_dec_opt_transaction_complete(s: Seq<u8>, i: int, o: Option<TransactionV>)
    requires
        0 <= i,
        (o matches Some(b) ==> encodable_transaction(b)),
        i + spec_enc_opt_transaction(o).len() <= s.len(),
        s.subrange(i, i + spec_enc_opt_transaction(o).len()) == spec_enc_opt_transaction(o),
    ensures
        spec_dec_opt_transaction(s, i) == Some((o, i + spec_enc_opt_transaction(o).len())),
{
    match o {
        None => {
            lemma_dec_u8_complete(s, i, 0u8);
        },
        Some(b) => {
            lemma_split_prefix(s, i, seq![1u8], spec_enc_transaction(b));
            lemma_dec_u8_complete(s, i, 1u8);
            lemma_dec_transaction_complete(s, i + 1, b);
        },
    }
}

/// An optional-witness encoding placed anywhere decodes to its value.
pub proof fn lemma_dec_opt_witness_complete(s: Seq<u8>, i: int, o: Option<WitnessV>)
    requires
        0 <= i,
        (o matches Some(w) ==> encodable_witness(w)),
        i + spec_enc_opt_witness(o).len() <= s.len(),
        s.subrange(i, i + spec_enc_opt_witness(o).len()) == spec_enc_opt_witness(o),
    ensures
        spec_dec_opt_witness(s, i) == Some((o, i + spec_enc_opt_witness(o).len())),
{
    match o {
        None => {
            lemma_dec_u8_complete(s, i, 0u8);
        },
        Some(w) => {
            lemma_split_prefix(s, i, seq![1u8], spec_enc_witness(w));
            lemma_dec_u8_complete(s, i, 1u8);
            lemma_dec_witness_complete(s, i + 1, w);
        },
    }
}

/// An optional-utxo-body encoding placed anywhere decodes to its value.
pub proof fn lemma_dec_opt_utxo_transaction_complete(
    s: Seq<u8>,
    i: int,
    o: Option<UtxoTransactionV>,
)
    requires
        0 <= i,
        (o matches Some(b) ==> encodable_utxo_transaction(b)),
        i + spec_enc_opt_utxo_transaction(o).len() <= s.len(),
        s.subrange(i, i + spec_enc_opt_utxo_transaction(o).len())
            == spec_enc_opt_utxo_transaction(o),
    ensures
        spec_dec_opt_utxo_transaction(s, i) == Some(
            (o, i + spec_enc_opt_utxo_transaction(o).len()),
        ),
{
    match o {
        None => {
            lemma_dec_u8_complete(s, i, 0u8);
        },
        Some(b) => {
            lemma_split_prefix(s, i, seq![1u8], spec_enc_utxo_transaction(b));
            lemma_dec_u8_complete(s, i, 1u8);
            lemma_dec_utxo_transaction_complete(s, i + 1, b);
        },
    }
}

/// A received-normal-transaction encoding placed anywhere decodes to its
/// value.
pub proof fn lemma_dec_unverified_transaction_complete(
    s: Seq<u8>,
    i: int,
    t: UnverifiedTransactionV,
)
    requires
        0 <= i,
        encodable_unverified_transaction(t),
        i + spec_enc_unverified_transaction(t).len() <= s.len(),
        s.subrange(i, i + spec_enc_unverified_transaction(t).len())
            == spec_enc_unverified_transaction(t),
    ensures
        spec_dec_unverified_transaction(s, i) == Some(
            (t, i + spec_enc_unverified_transaction(t).len()),
        ),
{
    let e1 = spec_enc_opt_transaction(t.transaction);
    let e2 = spec_enc_bytes(t.transaction_hash);
    let e3 = spec_enc_opt_witness(t.witness);
    let total = spec_enc_unverified_transaction(t).len();
    assert(s.subrange(i, i + total) =~= e1 + (e2 + e3));
    lemma_split_prefix(s, i, e1, e2 + e3);
    let i1 = i + e1.len();
    lemma_split_prefix(s, i1, e2, e3);
    let i2 = i1 + e2.len();
    lemma_dec_opt_transaction_complete(s, i, t.transaction);
    lemma_dec_bytes_complete(s, i1, t.transaction_hash);
    lemma_dec_opt_witness_complete(s, i2, t.witness);
    assert(spec_dec_unverified_transaction(s, i)->Some_0.0 =~= t);
}

/// A received-utxo-transaction encoding placed anywhere decodes to its
/// value.
pub proof fn lemma_dec_unverified_utxo_transaction_complete(
    s: Seq<u8>,
    i: int,
    t: UnverifiedUtxoTransactionV,
)
    requires
        0 <= i,
        encodable_unverified_utxo_transaction(t),
        i + spec_enc_unverified_utxo_transaction(t).len() <= s.len(),
        s.subrange(i, i + spec_enc_unverified_utxo_transaction(t).len())
            == spec_enc_unverified_utxo_transaction(t),
    ensures
        spec_dec_unverified_utxo_transaction(s, i) == Some(
            (t, i + spec_enc_unverified_utxo_transaction(t).len()),
        ),
{
    let e1 = spec_enc_opt_utxo_transaction(t.transaction);
    let e2 = spec_enc_bytes(t.transaction_hash);
    let e3 = spec_enc_witness_list(t.witnesses);
    let total = spec_enc_unverified_utxo_transaction(t).len();
    assert(s.subrange(i, i + total) =~= e1 + (e2 + e3));
    lemma_split_prefix(s, i, e1, e2 + e3);
    let i1 = i + e1.len();
    lemma_split_prefix(s, i1, e2, e3);
    let i2 = i1 + e2.len();
    lemma_dec_opt_utxo_transaction_complete(s, i, t.transaction);
    lemma_dec_bytes_complete(s, i1, t.transaction_hash);
    lemma_dec_witness_list_complete(s, i2, t.witnesses);
    assert(spec_dec_unverified_utxo_transaction(s, i)->Some_0.0 =~= t);
}

/// A raw-transaction encoding placed anywhere decodes to its value.
pub proof fn lemma_dec_raw_transaction_complete(s: Seq<u8>, i: int, r: RawTransactionV)
    requires
        0 <= i,
        encodable_raw_transaction(r),
        i + spec_enc_raw_transaction(r).len() <= s.len(),
        s.subrange(i, i + spec_enc_raw_transaction(r).len()) == spec_enc_raw_transaction(r),
    ensures
        spec_dec_raw_transaction(s, i) == Some((r, i + spec_enc_raw_transaction(r).len())),
{
    match r.tx {
        None => {
            lemma_dec_u8_complete(s, i, 0u8);
            assert(spec_dec_raw_transaction(s, i)->Some_0.0 =~= r);
        },
        Some(TxV::NormalTx(t)) => {
            lemma_split_prefix(s, i, seq![1u8], spec_enc_unverified_transaction(t));
            lemma_dec_u8_complete(s, i, 1u8);
            lemma_dec_unverified_transaction_complete(s, i + 1, t);
            assert(spec_dec_raw_transaction(s, i)->Some_0.0 =~= r);
        },
        Some(TxV::UtxoTx(t)) => {
            lemma_split_prefix(s, i, seq![2u8], spec_enc_unverified_utxo_transaction(t));
            lemma_dec_u8_complete(s, i, 2u8);
            lemma_dec_unverified_utxo_transaction_complete(s, i + 1, t);
            assert(spec_dec_raw_transaction(s, i)->Some_0.0 =~= r);
        },
    }
}

/// Encoded body items placed anywhere decode to their values.
pub proof fn lemma_dec_body_items_complete(s: Seq<u8>, i: int, l: Seq<RawTransactionV>)
    requires
        0 <= i,
        encodable_body(l),
        i + spec_enc_body_items(l).len() <= s.len(),
        s.subrange(i, i + spec_enc_body_items(l).len()) == spec_enc_body_items(l),
    ensures
        spec_dec_body_items(s, i, l.len()) == Some((l, i + spec_enc_body_items(l).len())),
    decreases l.len(),
{
    if l.len() == 0 {
        assert(spec_dec_body_items(s, i, 0) == Some((Seq::<RawTransactionV>::empty(), i)));
        assert(l =~= Seq::<RawTransactionV>::empty());
    } else {
        let e1 = spec_enc_raw_transaction(l.first());
        let rest = spec_enc_body_items(l.drop_first());
        lemma_split_prefix(s, i, e1, rest);
        lemma_dec_raw_transaction_complete(s, i, l.first());
        assert(encodable_body(l.drop_first())) by {
            assert(forall|k: int|
                0 <= k < l.drop_first().len() ==> #[trigger] l.drop_first()[k] == l[k + 1]);
        }
        lemma_dec_body_items_complete(s, i + e1.len(), l.drop_first());
        assert(seq![l.first()] + l.drop_first() =~= l);
    }
}

/// A block-body encoding placed anywhere decodes to its value.
pub proof fn lemma_dec_body_list_complete(s: Seq<u8>, i: int, l: Seq<RawTransactionV>)
    requires
        0 <= i,
        encodable_body(l),
        i + spec_enc_body_list(l).len() <= s.len(),
        s.subrange(i, i + spec_enc_body_list(l).len()) == spec_enc_body_list(l),
    ensures
        spec_dec_body_list(s, i) == Some((l, i + spec_enc_body_list(l).len())),
{
    let n = l.len() as u64;
    lemma_split_prefix(s, i, spec_enc_u64(n), spec_enc_body_items(l));
    lemma_dec_u64_complete(s, i, n);
    lemma_dec_body_items_complete(s, i + 8, l);
}

/// A block encoding placed anywhere decodes to its value.
pub proof fn lemma_dec_block_complete(s: Seq<u8>, i: int, b: BlockV)
    requires
        0 <= i,
        encodable_block(b),
        i + spec_enc_block(b).len() <= s.len(),
        s.subrange(i, i + spec_enc_block(b).len()) == spec_enc_block(b),
    ensures
        spec_dec_block(s, i) == Some((b, i + spec_enc_block(b).len())),
{
    let e1 = spec_enc_u32(b.version);
    let e2 = spec_enc_block_header(b.header);
    let e3 = spec_enc_body_list(b.body);
    let e4 = spec_enc_bytes(b.proof);
    let total = spec_enc_block(b).len();
    assert(s.subrange(i, i + total) =~= e1 + (e2 + e3 + e4));
    lemma_split_prefix(s, i, e1, e2 + e3 + e4);
    let i1 = i + e1.len();
    assert((e2 + e3 + e4) =~= e2 + (e3 + e4));
    lemma_split_prefix(s, i1, e2, e3 + e4);
    let i2 = i1 + e2.len();
    lemma_split_prefix(s, i2, e3, e4);
    let i3 = i2 + e3.len();
    lemma_dec_u32_complete(s, i, b.version);
    lemma_dec_block_header_complete(s, i1, b.header);
    lemma_dec_body_list_complete(s, i2, b.body);
    lemma_dec_bytes_complete(s, i3, b.proof);
    assert(spec_dec_block(s, i)->Some_0.0 =~= b);
}

/// A consensus-proposal encoding placed anywhere decodes to its value.
pub proof fn lemma_dec_bft_proposal_complete(s: Seq<u8>, i: int, p: BftProposalV)
    requires
        0 <= i,
        encodable_bft_proposal(p),
        i + spec_enc_bft_proposal(p).len() <= s.len(),
        s.subrange(i, i + spec_enc_bft_proposal(p).len()) == spec_enc_bft_proposal(p),
    ensures
        spec_dec_bft_proposal(s, i) == Some((p, i + spec_enc_bft_proposal(p).len())),
{
    let e1 = spec_enc_opt_block(p.proposal);
    let e2 = spec_enc_bytes(p.pre_state_root);
    let e3 = spec_enc_bytes(p.pre_proof);
    let total = spec_enc_bft_proposal(p).len();
    assert(s.subrange(i, i + total) =~= e1 + (e2 + e3));
    lemma_split_prefix(s, i, e1, e2 + e3);
    let i1 = i + e1.len();
    lemma_split_prefix(s, i1, e2, e3);
    let i2 = i1 + e2.len();
    match p.proposal {
        None => {
            lemma_dec_u8_complete(s, i, 0u8);
        },
        Some(b) => {
            lemma_split_prefix(s, i, seq![1u8], spec_enc_block(b));
            lemma_dec_u8_complete(s, i, 1u8);
            lemma_dec_block_complete(s, i + 1, b);
        },
    }
    lemma_dec_bytes_complete(s, i1, p.pre_state_root);
    lemma_dec_bytes_complete(s, i2, p.pre_proof);
    assert(spec_dec_bft_proposal(s, i)->Some_0.0 =~= p);
}

/// A proposal-union encoding placed anywhere decodes to its value.
pub proof fn lemma_dec_proposal_enum_complete(s: Seq<u8>, i: int, p: ProposalEnumV)
    requires
        0 <= i,
        encodable_proposal_enum(p),
        i + spec_enc_proposal_enum(p).len() <= s.len(),
        s.subrange(i, i + spec_enc_proposal_enum(p).len()) == spec_enc_proposal_enum(p),
    ensures
        spec_dec_proposal_enum(s, i) == Some((p, i + spec_enc_proposal_enum(p).len())),
{
    match p.proposal {
        None => {
            lemma_dec_u8_complete(s, i, 0u8);
            assert(spec_dec_proposal_enum(s, i)->Some_0.0 =~= p);
        },
        Some(b) => {
            lemma_split_prefix(s, i, seq![1u8], spec_enc_bft_proposal(b));
            lemma_dec_u8_complete(s, i, 1u8);
            lemma_dec_bft_proposal_complete(s, i + 1, b);
            assert(spec_dec_proposal_enum(s, i)->Some_0.0 =~= p);
        },
    }
}

/// Decoding an encoding gives the value back: together with the sound
/// direction, the codec is a bijection between values and their encodings.
pub proof fn lemma_enc_dec_block(b: BlockV)
    requires
        encodable_block(b),
    ensures
        spec_dec_block(spec_enc_block(b), 0) == Some((b, spec_enc_block(b).len() as int)),
{
    let s = spec_enc_block(b);
    assert(s.subrange(0, s.len() as int) =~= s);
    lemma_dec_block_complete(s, 0, b);
}

/// Decoding an encoded header gives the header back.
pub proof fn lemma_enc_dec_block_header(h: BlockHeaderV)
    requires
        encodable_block_header(h),
    ensures
        spec_dec_block_header(spec_enc_block_header(h), 0) == Some(
            (h, spec_enc_block_header(h).len() as int),
        ),
{
    let s = spec_enc_block_header(h);
    assert(s.subrange(0, s.len() as int) =~= s);
    lemma_dec_block_header_complete(s, 0, h);
}

/// Decoding an encoded compact body gives the body back.
pub proof fn lemma_enc_dec_compact_body(b: CompactBlockBodyV)
    requires
        encodable_hashes(b.tx_hashes),
    ensures
        spec_dec_compact_body(spec_enc_compact_body(b), 0) == Some(
            (b, spec_enc_compact_body(b).len() as int),
        ),
{
    let s = spec_enc_compact_body(b);
    assert(s.subrange(0, s.len() as int) =~= s);
    lemma_dec_hash_list_complete(s, 0, b.tx_hashes);
    assert(spec_dec_compact_body(s, 0)->Some_0.0 =~= b);
}

/// Decoding an encoded raw transaction gives the transaction back.
pub proof fn lemma_enc_dec_raw_transaction(r: RawTransactionV)
    requires
        encodable_raw_transaction(r),
    ensures
        spec_dec_raw_transaction(spec_enc_raw_transaction(r), 0) == Some(
            (r, spec_enc_raw_transaction(r).len() as int),
        ),
{
    let s = spec_enc_raw_transaction(r);
    assert(s.subrange(0, s.len() as int) =~= s);
    lemma_dec_raw_transaction_complete(s, 0, r);
}

/// Decoding an encoded proposal union gives the union back.
pub proof fn lemma_enc_dec_proposal_enum(p: ProposalEnumV)
    requires
        encodable_proposal_enum(p),
    ensures
        spec_dec_proposal_enum(spec_enc_proposal_enum(p), 0) == Some(
            (p, spec_enc_proposal_enum(p).len() as int),
        ),
{
    let s = spec_enc_proposal_enum(p);
    assert(s.subrange(0, s.len() as int) =~= s);
    lemma_dec_proposal_enum_complete(s, 0, p);
}

} // verus!
