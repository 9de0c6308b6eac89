use vstd::prelude::*;
use vstd::bytes::{spec_u32_to_le_bytes, spec_u64_from_le_bytes, spec_u64_to_le_bytes};
use vstd::endian::{endianness, Endian};

verus! {

/// The bytes of a little-endian encoding, put in the byte order of the
/// machine that runs the code.
pub open spec fn native_order(le: Seq<u8>) -> Seq<u8> {
    match endianness() {
        Endian::Little => le,
        Endian::Big => le.reverse(),
    }
}

/// The machine encoding of a `u64`.
pub open spec fn u64_native_bytes(x: u64) -> Seq<u8> {
    native_order(spec_u64_to_le_bytes(x))
}

/// The machine encoding of a `u32`.
pub open spec fn u32_native_bytes(x: u32) -> Seq<u8> {
    native_order(spec_u32_to_le_bytes(x))
}

/// The machine encodings of `words`, one after the other.
pub open spec fn words_native_bytes(words: Seq<u32>) -> Seq<u8>
    decreases words.len(),
{
    if words.len() == 0 {
        Seq::empty()
    } else {
        words_native_bytes(words.drop_last()) + u32_native_bytes(words.last())
    }
}

/// Calls `u64::to_ne_bytes`, which gives the memory representation of `x`
/// in the byte order of the machine: the little-endian bytes on a
/// little-endian machine, the same bytes reversed on a big-endian one.
#[verifier::external_body]
fn u64_to_ne_bytes(x: u64) -> (res: [u8; 8])
    ensures
        res@ == u64_native_bytes(x),
{
    x.to_ne_bytes()
}

/// Calls `u32::to_ne_bytes`, which gives the memory representation of `x`
/// in the byte order of the machine: the little-endian bytes on a
/// little-endian machine, the same bytes reversed on a big-endian one.
#[verifier::external_body]
fn u32_to_ne_bytes(x: u32) -> (res: [u8; 4])
    ensures
        res@ == u32_native_bytes(x),
{
    x.to_ne_bytes()
}

/// The record of one source id: its 8 bytes in machine byte order.
pub fn u64_record(x: u64) -> (res: Vec<u8>)
    ensures
        res@ == u64_native_bytes(x),
        res@.len() == 8,
{
    proof {
        vstd::bytes::lemma_auto_spec_u64_to_from_le_bytes();
    }
    let bytes = u64_to_ne_bytes(x);
    let mut res: Vec<u8> = Vec::new();
    let mut i: usize = 0;
    while i < 8
        invariant
            i <= 8,
            bytes@ == u64_native_bytes(x),
            bytes@.len() == 8,
            res@ == bytes@.subrange(0, i as int),
        decreases 8 - i,
    {
        res.push(bytes[i]);
        i = i + 1;
        assert(res@ =~= bytes@.subrange(0, i as int));
    }
    assert(bytes@.subrange(0, 8) =~= bytes@);
    res
}

/// Appends the machine encoding of each of `words`, in order: how the values
/// of a numeric record (taken by their bits) go into an output buffer.
pub fn extend_with_native_words(out: &mut Vec<u8>, words: &[u32])
    ensures
        final(out)@ == old(out)@ + words_native_bytes(words@),
{
    let ghost start = out@;
    let mut k: usize = 0;
    while k < words.len()
        invariant
            k <= words@.len(),
            out@ == start + words_native_bytes(words@.subrange(0, k as int)),
        decreases words@.len() - k,
    {
        let bytes = u32_to_ne_bytes(words[k]);
        let ghost before = out@;
        let mut i: usize = 0;
        while i < 4
            invariant
                i <= 4,
                bytes@ == u32_native_bytes(words@[k as int]),
                bytes@.len() == 4,
                out@ == before + bytes@.subrange(0, i as int),
            decreases 4 - i,
        {
            out.push(bytes[i]);
            i = i + 1;
            assert(out@ =~= before + bytes@.subrange(0, i as int));
        }
        proof {
            assert(bytes@.subrange(0, 4) =~= bytes@);
            let pre = words@.subrange(0, k as int);
            let next = words@.subrange(0, k + 1);
            assert(next.drop_last() =~= pre);
            assert(next.last() == words@[k as int]);
            assert(out@ =~= start + words_native_bytes(next));
        }
        k = k + 1;
    }
    assert(words@.subrange(0, words@.len() as int) =~= words@);
}

/// Putting bytes in machine order twice gives them back.
pub proof fn lemma_native_order_involutive(s: Seq<u8>)
    ensures
        native_order(native_order(s)) == s,
{
    match endianness() {
        Endian::Little => {},
        Endian::Big => {
            if s.len() > 0 {
                assert(s.reverse().reverse() =~= s);
            }
        },
    }
}

proof fn lemma_native_order_len(s: Seq<u8>)
    ensures
        native_order(s).len() == s.len(),
{
}

/// A source-id record is 8 bytes, and read back in machine byte order it
/// gives the id again.
pub proof fn lemma_u64_record_roundtrip(x: u64)
    ensures
        u64_native_bytes(x).len() == 8,
        spec_u64_from_le_bytes(native_order(u64_native_bytes(x))) == x,
{
    vstd::bytes::lemma_auto_spec_u64_to_from_le_bytes();
    lemma_native_order_involutive(spec_u64_to_le_bytes(x));
    lemma_native_order_len(spec_u64_to_le_bytes(x));
}

/// Values encoded one after the other take 4 bytes each, and value `k`
/// sits at bytes `4 * k .. 4 * k + 4`.
pub proof fn lemma_words_layout(words: Seq<u32>)
    ensures
        words_native_bytes(words).len() == 4 * words.len(),
        forall|k: int|
            0 <= k < words.len() ==> #[trigger] words_native_bytes(words).subrange(4 * k, 4 * k + 4)
                == u32_native_bytes(words[k]),
    decreases words.len(),
{
    vstd::bytes::lemma_auto_spec_u32_to_from_le_bytes();
    if words.len() > 0 {
        let init = words.drop_last();
        lemma_words_layout(init);
        lemma_native_order_len(spec_u32_to_le_bytes(words.last()));
        let all = words_native_bytes(words);
        let prev = words_native_bytes(init);
        let tail = u32_native_bytes(words.last());
        assert(all == prev + tail);
        assert forall|k: int| 0 <= k < words.len() implies #[trigger] all.subrange(4 * k, 4 * k + 4)
            == u32_native_bytes(words[k]) by {
            if k < words.len() - 1 {
                assert(init[k] == words[k]);
                assert(all.subrange(4 * k, 4 * k + 4) =~= prev.subrange(4 * k, 4 * k + 4));
            } else {
                assert(all.subrange(4 * k, 4 * k + 4) =~= tail);
            }
        }
    }
}

/// The values of a feature record: for each passband in turn, the values
/// computed on magnitudes, then those computed on fluxes.
pub open spec fn record_words(per_band: Seq<(Seq<u32>, Seq<u32>)>) -> Seq<u32>
    decreases per_band.len(),
{
    if per_band.len() == 0 {
        Seq::empty()
    } else {
        record_words(per_band.drop_last()) + per_band.last().0 + per_band.last().1
    }
}

pub open spec fn per_band_view(per_band: Seq<(Vec<u32>, Vec<u32>)>) -> Seq<(Seq<u32>, Seq<u32>)> {
    per_band.map_values(|p: (Vec<u32>, Vec<u32>)| (p.0@, p.1@))
}

fn push_words(out: &mut Vec<u32>, words: &Vec<u32>)
    ensures
        final(out)@ == old(out)@ + words@,
{
    let ghost start = out@;
    let mut i: usize = 0;
    while i < words.len()
        invariant
            i <= words@.len(),
            out@ == start + words@.subrange(0, i as int),
        decreases words@.len() - i,
    {
        out.push(words[i]);
        i = i + 1;
        assert(out@ =~= start + words@.subrange(0, i as int));
    }
    assert(words@.subrange(0, words@.len() as int) =~= words@);
}

/// The record of a feature dump for one source, from the bits of the values
/// computed in each passband (on magnitudes, on fluxes): the values, band
/// after band, magnitude values first, each in machine byte order.
pub fn feature_record(per_band: &[(Vec<u32>, Vec<u32>)]) -> (res: Vec<u8>)
    ensures
        res@ == words_native_bytes(record_words(per_band_view(per_band@))),
{
    let ghost bands = per_band_view(per_band@);
    let mut words: Vec<u32> = Vec::new();
    let mut b: usize = 0;
    while b < per_band.len()
        invariant
            b <= per_band@.len(),
            bands == per_band_view(per_band@),
            words@ == record_words(bands.subrange(0, b as int)),
        decreases per_band@.len() - b,
    {
        push_words(&mut words, &per_band[b].0);
        push_words(&mut words, &per_band[b].1);
        proof {
            let next = bands.subrange(0, b + 1);
            assert(next.drop_last() =~= bands.subrange(0, b as int));
            assert(next.last() == bands[b as int]);
            assert(bands[b as int] == (per_band@[b as int].0@, per_band@[b as int].1@));
        }
        b = b + 1;
    }
    assert(bands.subrange(0, per_band@.len() as int) =~= bands);
    let mut res: Vec<u8> = Vec::new();
    extend_with_native_words(&mut res, words.as_slice());
    assert(res@ =~= words_native_bytes(words@));
    res
}

/// Where each value of a feature record sits: with `m` magnitude and `f`
/// flux values in every passband, the magnitude value `j` of passband `b`
/// is value `b * (m + f) + j` of the record, the flux value `j` is value
/// `b * (m + f) + m + j`.
pub proof fn lemma_record_words_layout(per_band: Seq<(Seq<u32>, Seq<u32>)>, m: nat, f: nat)
    requires
        forall|b: int|
            0 <= b < per_band.len() ==> (#[trigger] per_band[b]).0.len() == m && per_band[b].1.len()
                == f,
    ensures
        record_words(per_band).len() == per_band.len() * (m + f),
        forall|b: int, j: int|
            0 <= b < per_band.len() && 0 <= j < m ==> #[trigger] record_words(per_band)[b * (m + f)
                + j] == (#[trigger] per_band[b]).0[j],
        forall|b: int, j: int|
            0 <= b < per_band.len() && 0 <= j < f ==> #[trigger] record_words(per_band)[b * (m + f)
                + m + j] == (#[trigger] per_band[b]).1[j],
    decreases per_band.len(),
{
    let w = m + f;
    if per_band.len() > 0 {
        let init = per_band.drop_last();
        assert forall|b: int| 0 <= b < init.len() implies (#[trigger] init[b]).0.len() == m
            && init[b].1.len() == f by {
            assert(init[b] == per_band[b]);
        }
        lemma_record_words_layout(init, m, f);
        let prev = record_words(init);
        let last = per_band.last();
        assert(last == per_band[per_band.len() - 1]);
        let all = record_words(per_band);
        assert(all == prev + last.0 + last.1);
        let n = per_band.len();
        assert((n - 1) * w + w == n * w) by (nonlinear_arith);
        assert forall|b: int, j: int| 0 <= b < per_band.len() && 0 <= j < m implies #[trigger] all[b
            * w + j] == (#[trigger] per_band[b]).0[j] by {
            if b < n - 1 {
                assert(b * w + w <= (n - 1) * w) by (nonlinear_arith)
                    requires
                        b < n - 1,
                        w >= 0,
                ;
                assert(init[b] == per_band[b]);
                assert(all[b * w + j] == prev[b * w + j]);
            } else {
                assert(b * w == (n - 1) * w);
                assert(all[b * w + j] == last.0[j]);
            }
        }
        assert forall|b: int, j: int| 0 <= b < per_band.len() && 0 <= j < f implies #[trigger] all[b
            * w + m + j] == (#[trigger] per_band[b]).1[j] by {
            if b < n - 1 {
                assert(b * w + w <= (n - 1) * w) by (nonlinear_arith)
                    requires
                        b < n - 1,
                        w >= 0,
                ;
                assert(init[b] == per_band[b]);
                assert(all[b * w + m + j] == prev[b * w + m + j]);
            } else {
                assert(b * w == (n - 1) * w);
                assert(all[b * w + m + j] == last.1[j]);
            }
        }
    }
}

} // verus!
