//! The canonical binary codec for witness maps.
//!
//! A witness map is encoded as a fixed-stride sequence of 36-byte records,
//! one per entry, sorted ascending by index: a 4-byte big-endian witness
//! index followed by the 32 canonical bytes of the field element. The
//! encoding of a map is a function of its logical content alone, and
//! decoding an encoded map yields the map back.
use vstd::prelude::*;

use crate::errors::CliError;
use crate::witness::{
    lemma_kv_is_sorted_kv_of, lemma_sorted_kv_unique, map_of_kv, sorted_kv_of, FieldElement,
    WitnessMap,
};

verus! {

/// The 4 big-endian bytes of a witness index.
pub open spec fn be4(k: u32) -> Seq<u8> {
    seq![(k >> 24) as u8, (k >> 16) as u8, (k >> 8) as u8, k as u8]
}

/// The witness index read back from 4 big-endian bytes.
pub open spec fn u32_of_be4(b0: u8, b1: u8, b2: u8, b3: u8) -> u32 {
    ((b0 as u32) << 24) | ((b1 as u32) << 16) | ((b2 as u32) << 8) | (b3 as u32)
}

/// The 36 bytes of one record: index, then field element.
pub open spec fn record_bytes(p: (u32, Seq<u8>)) -> Seq<u8> {
    be4(p.0) + p.1
}

/// The bytes of a whole entry sequence: its records, in order.
pub open spec fn encode_kv(s: Seq<(u32, Seq<u8>)>) -> Seq<u8>
    decreases s.len(),
{
    if s.len() == 0 {
        Seq::<u8>::empty()
    } else {
        encode_kv(s.drop_last()) + record_bytes(s.last())
    }
}

/// The record starting at byte 36*i.
pub open spec fn record_at(b: Seq<u8>, i: int) -> (u32, Seq<u8>) {
    (
        u32_of_be4(b[36 * i], b[36 * i + 1], b[36 * i + 2], b[36 * i + 3]),
        b.subrange(36 * i + 4, 36 * i + 36),
    )
}

/// The entries read back from a byte sequence, record by record.
pub open spec fn records_of(b: Seq<u8>) -> Seq<(u32, Seq<u8>)> {
    Seq::new((b.len() / 36) as nat, |i: int| record_at(b, i))
}

/// A byte sequence is a well-formed encoding exactly when it is a whole
/// number of records.
pub open spec fn decode_ok(b: Seq<u8>) -> bool {
    b.len() % 36 == 0
}

/// The canonical encoding of a logical witness map: the records of its
/// entries in ascending index order.
pub open spec fn canonical_encoding(m: Map<u32, Seq<u8>>) -> Seq<u8> {
    encode_kv(sorted_kv_of(m))
}

/// Appends the bytes of `v` to `out`.
fn push_bytes(out: &mut Vec<u8>, v: &Vec<u8>)
    ensures
        final(out)@ == old(out)@ + v@,
{
    let mut j: usize = 0;
    while j < v.len()
        invariant
            j <= v@.len(),
            out@ == old(out)@ + v@.take(j as int),
        decreases v@.len() - j,
    {
        out.push(v[j]);
        proof {
            assert(old(out)@ + v@.take(j + 1) =~= (old(out)@ + v@.take(j as int)).push(
                v@[j as int],
            ));
        }
        j = j + 1;
    }
    proof {
        assert(v@.take(v@.len() as int) =~= v@);
    }
}

/// Encodes a witness map as its canonical byte sequence: one 36-byte
/// record per entry, ascending by index.
pub fn encode(w: &WitnessMap) -> (r: Vec<u8>)
    requires
        w.wf(),
    ensures
        r@ == encode_kv(w.kv()),
        r@ == canonical_encoding(w@),
{
    let pairs = w.to_pairs();
    let ghost kvs = w.kv();
    proof {
        lemma_kv_is_sorted_kv_of(w);
        assert forall|j: int| 0 <= j < pairs@.len() implies (#[trigger] pairs@[j]).0 == kvs[j].0
            && pairs@[j].1@ == kvs[j].1 by {
            assert(pairs@.map_values(|p: (u32, Vec<u8>)| (p.0, p.1@))[j] == kvs[j]);
        }
    }
    let mut out: Vec<u8> = Vec::new();
    let mut i: usize = 0;
    while i < pairs.len()
        invariant
            i <= pairs@.len(),
            pairs@.len() == kvs.len(),
            forall|j: int|
                0 <= j < pairs@.len() ==> (#[trigger] pairs@[j]).0 == kvs[j].0 && pairs@[j].1@
                    == kvs[j].1,
            out@ == encode_kv(kvs.take(i as int)),
        decreases pairs@.len() - i,
    {
        let ghost before = out@;
        let k = pairs[i].0;
        out.push((k >> 24) as u8);
        out.push((k >> 16) as u8);
        out.push((k >> 8) as u8);
        out.push(k as u8);
        push_bytes(&mut out, &pairs[i].1);
        proof {
            assert(kvs.take(i + 1).drop_last() =~= kvs.take(i as int));
            assert(kvs.take(i + 1).last() == kvs[i as int]);
            assert(out@ =~= before + record_bytes(kvs[i as int]));
        }
        i = i + 1;
    }
    proof {
        assert(kvs.take(kvs.len() as int) =~= kvs);
    }
    out
}

/// Decodes a byte sequence into a witness map. Fails exactly when the
/// length is not a whole number of records; otherwise every record is
/// taken in order, a later record for an index overwriting an earlier
/// one. Under the fixed-stride reading every 32-byte block stands for a
/// field element; a block at or above the field modulus is carried as
/// written and reduced by the solver on use.
pub fn decode(bytes: &[u8]) -> (r: Result<WitnessMap, CliError>)
    ensures
        r is Ok <==> decode_ok(bytes@),
        !decode_ok(bytes@) ==> r == Err::<WitnessMap, CliError>(CliError::MalformedWitness),
        r matches Ok(w) ==> w.wf() && w@ == map_of_kv(records_of(bytes@)),
{
    if bytes.len() % 36 != 0 {
        return Err(CliError::MalformedWitness);
    }
    let count = bytes.len() / 36;
    let ghost recs = records_of(bytes@);
    let mut w = WitnessMap::new();
    let mut rec: usize = 0;
    while rec < count
        invariant
            rec <= count,
            count == bytes@.len() / 36,
            bytes@.len() % 36 == 0,
            bytes@.len() <= usize::MAX,
            recs == records_of(bytes@),
            w.wf(),
            w@ == map_of_kv(recs.take(rec as int)),
        decreases count - rec,
    {
        proof {
            assert(36 * (rec as int) + 36 <= bytes@.len()) by (nonlinear_arith)
                requires
                    0 <= rec < count,
                    count == bytes@.len() / 36,
                    bytes@.len() % 36 == 0,
            ;
        }
        let base = 36 * rec;
        let index = ((bytes[base] as u32) << 24) | ((bytes[base + 1] as u32) << 16) | ((bytes[base
            + 2] as u32) << 8) | (bytes[base + 3] as u32);
        let mut vb: Vec<u8> = Vec::new();
        let mut j: usize = 0;
        while j < 32
            invariant
                j <= 32,
                36 * rec + 36 <= bytes@.len(),
                bytes@.len() <= usize::MAX,
                base == 36 * rec,
                vb@ == bytes@.subrange(base + 4, base + 4 + j),
            decreases 32 - j,
        {
            vb.push(bytes[base + 4 + j]);
            proof {
                assert(bytes@.subrange(base + 4, base + 4 + (j + 1)) =~= bytes@.subrange(
                    base + 4,
                    base + 4 + j,
                ).push(bytes@[base + 4 + j]));
            }
            j = j + 1;
        }
        let value = FieldElement::from_bytes(vb).unwrap();
        proof {
            assert(recs[rec as int] == record_at(bytes@, rec as int));
            assert(recs[rec as int].0 == index);
            assert(recs[rec as int].1 =~= value@);
        }
        w.insert(index, value);
        proof {
            assert(recs.take(rec + 1).drop_last() =~= recs.take(rec as int));
            assert(recs.take(rec + 1).last() == recs[rec as int]);
        }
        rec = rec + 1;
    }
    proof {
        assert(recs.take(count as int) =~= recs);
    }
    Ok(w)
}

/// An encoding is 36 bytes per entry.
pub proof fn lemma_encode_kv_len(s: Seq<(u32, Seq<u8>)>)
    requires
        forall|i: int| 0 <= i < s.len() ==> (#[trigger] s[i]).1.len() == 32,
    ensures
        encode_kv(s).len() == 36 * s.len(),
    decreases s.len(),
{
    if s.len() > 0 {
        lemma_encode_kv_len(s.drop_last());
    }
}

/// Reading the records back from an encoded entry sequence yields the
/// entries themselves.
pub proof fn lemma_records_of_encode_kv(s: Seq<(u32, Seq<u8>)>)
    requires
        forall|i: int| 0 <= i < s.len() ==> (#[trigger] s[i]).1.len() == 32,
    ensures
        records_of(encode_kv(s)) == s,
        decode_ok(encode_kv(s)),
    decreases s.len(),
{
    lemma_encode_kv_len(s);
    assert(encode_kv(s).len() == 36 * s.len());
    assert(36 * s.len() % 36 == 0) by (nonlinear_arith);
    assert((36 * s.len()) / 36 == s.len()) by (nonlinear_arith);
    if s.len() == 0 {
        assert(records_of(encode_kv(s)) =~= s);
    } else {
        let t = s.drop_last();
        let b = encode_kv(s);
        let pre = encode_kv(t);
        lemma_records_of_encode_kv(t);
        lemma_encode_kv_len(t);
        assert forall|i: int| 0 <= i < s.len() implies records_of(b)[i] == s[i] by {
            if i < s.len() - 1 {
                assert(36 * i + 36 <= 36 * t.len()) by (nonlinear_arith)
                    requires
                        i + 1 <= t.len(),
                ;
                assert(record_at(b, i).0 == record_at(pre, i).0);
                assert(record_at(b, i).1 =~= record_at(pre, i).1);
                assert(records_of(pre)[i] == t[i]);
            } else {
                let k = s.last().0;
                assert(b[36 * i] == (k >> 24) as u8);
                assert(b[36 * i + 1] == (k >> 16) as u8);
                assert(b[36 * i + 2] == (k >> 8) as u8);
                assert(b[36 * i + 3] == k as u8);
                assert(u32_of_be4((k >> 24) as u8, (k >> 16) as u8, (k >> 8) as u8, k as u8)
                    == k) by (bit_vector);
                assert(record_at(b, i).1 =~= s.last().1);
            }
        }
        assert(records_of(b) =~= s);
    }
}

/// Round trip: decoding the encoding of a well-formed witness map yields
/// the same logical witness map.
pub proof fn lemma_round_trip(w: WitnessMap)
    requires
        w.wf(),
    ensures
        decode_ok(encode_kv(w.kv())),
        map_of_kv(records_of(encode_kv(w.kv()))) == w@,
{
    lemma_records_of_encode_kv(w.kv());
}

/// Determinism: two well-formed witness maps with the same logical content
/// have byte-identical encodings, whatever order their entries were
/// inserted in.
pub proof fn lemma_encode_deterministic(a: WitnessMap, b: WitnessMap)
    requires
        a.wf(),
        b.wf(),
        a@ == b@,
    ensures
        encode_kv(a.kv()) == encode_kv(b.kv()),
{
    lemma_sorted_kv_unique(a.kv(), b.kv());
}

} // verus!
