//! Wire encoding of a 256-bit Merkle root.
//!
//! A root is held as four 64-bit limbs.  On the wire it travels as 32 bytes:
//! limb 0 first, and each limb in big-endian byte order.
use vstd::prelude::*;

verus! {

/// The number `b[start] b[start+1] .. b[start+n-1]` read as a big-endian
/// base-256 numeral.
pub open spec fn be_word(b: Seq<u8>, start: int, n: nat) -> nat
    decreases n,
{
    if n == 0 {
        0
    } else {
        be_word(b, start, (n - 1) as nat) * 256 + b[start + n - 1] as nat
    }
}

/// The four limbs that the first 32 bytes of `b` encode.
pub open spec fn bytes_to_limbs(b: Seq<u8>) -> Seq<u64> {
    Seq::new(4, |k: int| be_word(b, 8 * k, 8) as u64)
}

/// Byte `j` of the big-endian encoding of `x`; byte 0 is the most significant.
pub open spec fn be_byte(x: u64, j: int) -> u8 {
    ((x >> ((56 - 8 * j) as u64)) & 0xffu64) as u8
}

/// The 32 bytes that encode the four limbs `a`.
pub open spec fn limbs_to_bytes(a: Seq<u64>) -> Seq<u8> {
    Seq::new(32, |i: int| be_byte(a[i / 8], i % 8))
}

/// The largest value of a big-endian numeral of `n` bytes.
spec fn max_word(n: nat) -> nat
    decreases n,
{
    if n == 0 {
        0
    } else {
        max_word((n - 1) as nat) * 256 + 255
    }
}

proof fn lemma_be_word_bound(b: Seq<u8>, start: int, n: nat)
    ensures
        be_word(b, start, n) <= max_word(n),
    decreases n,
{
    if n > 0 {
        lemma_be_word_bound(b, start, (n - 1) as nat);
    }
}

proof fn lemma_max_word_7()
    ensures
        max_word(7) == 0xff_ffff_ffff_ffffnat,
{
    reveal_with_fuel(max_word, 8);
}

proof fn lemma_shift_in_byte(x: u64, v: u8)
    requires
        x <= 0xff_ffff_ffff_ffffu64,
    ensures
        (x << 8u64) ^ (v as u64) == x * 256 + v,
{
    assert((x << 8u64) ^ (v as u64) == x * 256 + v) by (bit_vector)
        requires
            x <= 0xff_ffff_ffff_ffffu64,
    ;
}

/// Reads the first 32 bytes of `vec_u8` as four big-endian 64-bit limbs.
pub fn convert_u8_vec_to_u64_array(vec_u8: Vec<u8>) -> (res: [u64; 4])
    requires
        vec_u8@.len() >= 32,
    ensures
        res@ == bytes_to_limbs(vec_u8@),
{
    let mut res: [u64; 4] = [0u64, 0u64, 0u64, 0u64];
    let mut i: usize = 0;
    while i < 32
        invariant
            i <= 32,
            vec_u8@.len() >= 32,
            res@.len() == 4,
            forall|k: int| 0 <= k < i / 8 ==> res@[k] == be_word(vec_u8@, 8 * k, 8),
            i < 32 ==> res@[(i / 8) as int] == be_word(vec_u8@, 8 * ((i / 8) as int), (i % 8) as nat),
            forall|k: int| i / 8 < k < 4 ==> res@[k] == 0,
        decreases 32 - i,
    {
        let idx: usize = i / 8;
        let cur: u64 = res[idx];
        proof {
            lemma_be_word_bound(vec_u8@, 8 * (idx as int), (i % 8) as nat);
            if i % 8 < 7 {
                assert(max_word((i % 8) as nat) <= max_word(7)) by {
                    lemma_max_word_mono((i % 8) as nat, 7);
                }
            }
            lemma_max_word_7();
            lemma_shift_in_byte(cur, vec_u8@[i as int]);
        }
        res[idx] = (cur << 8u64) ^ (vec_u8[i] as u64);
        assert(be_word(vec_u8@, 8 * (idx as int), ((i % 8) + 1) as nat) == cur * 256
            + vec_u8@[8 * (idx as int) + (i % 8)]);
        i = i + 1;
    }
    assert(res@ =~= bytes_to_limbs(vec_u8@));
    res
}

proof fn lemma_max_word_mono(m: nat, n: nat)
    requires
        m <= n,
    ensures
        max_word(m) <= max_word(n),
    decreases n - m,
{
    if m < n {
        lemma_max_word_mono(m, (n - 1) as nat);
    }
}


/// The masks of `convert_u64_array_to_u8_vec`, each selecting one byte.
proof fn lemma_byte_masks()
    by (bit_vector)
    ensures
        0xff00_0000_0000_0000u64 == 0xffu64 << 56u64,
        0x00ff_0000_0000_0000u64 == 0xffu64 << 48u64,
        0x0000_ff00_0000_0000u64 == 0xffu64 << 40u64,
        0x0000_00ff_0000_0000u64 == 0xffu64 << 32u64,
        0x0000_0000_ff00_0000u64 == 0xffu64 << 24u64,
        0x0000_0000_00ff_0000u64 == 0xffu64 << 16u64,
        0x0000_0000_0000_ff00u64 == 0xffu64 << 8u64,
        0x0000_0000_0000_00ffu64 == 0xffu64 << 0u64,
{
}

proof fn lemma_masked_shift(a: u64, m: u64, s: u64)
    by (bit_vector)
    requires
        s < 64,
        m == 0xffu64 << s,
    ensures
        ((a & m) >> s) & 0xffu64 == (a >> s) & 0xffu64,
        (a >> s) & 0xffu64 < 256,
{
}

/// Writes the four limbs as 32 bytes, each limb in big-endian order.
pub fn convert_u64_array_to_u8_vec(array_u64: [u64; 4]) -> (res: Vec<u8>)
    ensures
        res@ == limbs_to_bytes(array_u64@),
{
    let mut res = Vec::<u8>::new();
    let mask: [u64; 8] = [
        0xff00_0000_0000_0000,
        0x00ff_0000_0000_0000,
        0x0000_ff00_0000_0000,
        0x0000_00ff_0000_0000,
        0x0000_0000_ff00_0000,
        0x0000_0000_00ff_0000,
        0x0000_0000_0000_ff00,
        0x0000_0000_0000_00ff,
    ];
    proof {
        lemma_byte_masks();
    }
    let mut i: usize = 0;
    while i < 4
        invariant
            i <= 4,
            res@.len() == 8 * i,
            forall|p: int| 0 <= p < res@.len() ==> res@[p] == be_byte(array_u64@[p / 8], p % 8),
            forall|j: int| 0 <= j < 8 ==> mask@[j] == 0xffu64 << ((56 - 8 * j) as u64),
        decreases 4 - i,
    {
        let a: u64 = array_u64[i];
        let mut j: usize = 0;
        while j < 8
            invariant
                i < 4,
                j <= 8,
                a == array_u64@[i as int],
                res@.len() == 8 * i + j,
                forall|p: int| 0 <= p < res@.len() ==> res@[p] == be_byte(array_u64@[p / 8], p % 8),
                forall|j: int| 0 <= j < 8 ==> mask@[j] == 0xffu64 << ((56 - 8 * j) as u64),
            decreases 8 - j,
        {
            proof {
                lemma_masked_shift(a, mask@[j as int], (8 * (7 - j)) as u64);
            }
            let b: u8 = (((a & mask[j]) >> (8 * (7 - j))) & 0xff) as u8;
            res.push(b);
            assert(res@[res@.len() - 1] == be_byte(array_u64@[(res@.len() - 1) / 8], (res@.len() - 1) % 8));
            j = j + 1;
        }
        i = i + 1;
    }
    assert(res@ =~= limbs_to_bytes(array_u64@));
    res
}


/// The eight-byte big-endian numeral `b0 .. b7`.
spec fn numeral8(b0: u8, b1: u8, b2: u8, b3: u8, b4: u8, b5: u8, b6: u8, b7: u8) -> int {
    ((((((b0 as int * 256 + b1 as int) * 256 + b2 as int) * 256 + b3 as int) * 256 + b4 as int)
        * 256 + b5 as int) * 256 + b6 as int) * 256 + b7 as int
}

proof fn lemma_word_is_numeral_of_its_bytes(x: u64)
    by (bit_vector)
    ensures
        x as int == ((((((((x >> 56u64) & 0xff) * 256 + ((x >> 48u64) & 0xff)) * 256 + ((x
            >> 40u64) & 0xff)) * 256 + ((x >> 32u64) & 0xff)) * 256 + ((x >> 24u64) & 0xff)) * 256
            + ((x >> 16u64) & 0xff)) * 256 + ((x >> 8u64) & 0xff)) * 256 + ((x >> 0u64) & 0xff),
{
}

proof fn lemma_bytes_of_numeral(b0: u8, b1: u8, b2: u8, b3: u8, b4: u8, b5: u8, b6: u8, b7: u8)
    by (bit_vector)
    ensures
        ({
            let w: u64 = (((((((((b0 as u64) * 256 + b1 as u64) * 256 + b2 as u64) * 256 + b3 as u64)
                * 256 + b4 as u64) * 256 + b5 as u64) * 256 + b6 as u64) * 256 + b7 as u64) as u64);
            &&& (w >> 56u64) & 0xff == b0 as u64
            &&& (w >> 48u64) & 0xff == b1 as u64
            &&& (w >> 40u64) & 0xff == b2 as u64
            &&& (w >> 32u64) & 0xff == b3 as u64
            &&& (w >> 24u64) & 0xff == b4 as u64
            &&& (w >> 16u64) & 0xff == b5 as u64
            &&& (w >> 8u64) & 0xff == b6 as u64
            &&& (w >> 0u64) & 0xff == b7 as u64
        }),
{
}

proof fn lemma_be_word_8(b: Seq<u8>, s: int)
    ensures
        be_word(b, s, 8) == numeral8(b[s], b[s + 1], b[s + 2], b[s + 3], b[s + 4], b[s + 5], b[s + 6], b[s + 7]),
{
    reveal_with_fuel(be_word, 9);
}

proof fn lemma_be_byte_small(x: u64, j: int)
    requires
        0 <= j < 8,
    ensures
        be_byte(x, j) as int == (x >> ((56 - 8 * j) as u64)) & 0xffu64,
{
    lemma_masked_shift(x, 0xffu64 << ((56 - 8 * j) as u64), (56 - 8 * j) as u64);
}

proof fn lemma_word_from_its_bytes(x: u64)
    ensures
        numeral8(be_byte(x, 0), be_byte(x, 1), be_byte(x, 2), be_byte(x, 3), be_byte(x, 4),
            be_byte(x, 5), be_byte(x, 6), be_byte(x, 7)) == x as int,
{
    lemma_be_byte_small(x, 0);
    lemma_be_byte_small(x, 1);
    lemma_be_byte_small(x, 2);
    lemma_be_byte_small(x, 3);
    lemma_be_byte_small(x, 4);
    lemma_be_byte_small(x, 5);
    lemma_be_byte_small(x, 6);
    lemma_be_byte_small(x, 7);
    lemma_word_is_numeral_of_its_bytes(x);
}

proof fn lemma_bytes_from_their_word(b: Seq<u8>, s: int)
    requires
        0 <= s,
        s + 8 <= b.len(),
    ensures
        forall|j: int| 0 <= j < 8 ==> #[trigger] be_byte(be_word(b, s, 8) as u64, j) == b[s + j],
{
    lemma_be_word_8(b, s);
    let w: u64 = be_word(b, s, 8) as u64;
    lemma_bytes_of_numeral(b[s], b[s + 1], b[s + 2], b[s + 3], b[s + 4], b[s + 5], b[s + 6], b[s + 7]);
    assert forall|j: int| 0 <= j < 8 implies #[trigger] be_byte(w, j) == b[s + j] by {
        lemma_be_byte_small(w, j);
    }
}

/// Decoding the bytes that encode four limbs gives those limbs back.
pub proof fn lemma_limbs_survive_encoding(a: Seq<u64>)
    requires
        a.len() == 4,
    ensures
        limbs_to_bytes(a).len() == 32,
        bytes_to_limbs(limbs_to_bytes(a)) == a,
{
    let b = limbs_to_bytes(a);
    assert forall|k: int| 0 <= k < 4 implies #[trigger] bytes_to_limbs(b)[k] == a[k] by {
        lemma_limb_bytes_read_back(a, k);
    }
    assert(bytes_to_limbs(b) =~= a);
}

/// Encoding the limbs that 32 bytes decode to gives those bytes back.
pub proof fn lemma_bytes_survive_decoding(b: Seq<u8>)
    requires
        b.len() == 32,
    ensures
        limbs_to_bytes(bytes_to_limbs(b)) == b,
{
    let a = bytes_to_limbs(b);
    assert forall|i: int| 0 <= i < 32 implies #[trigger] limbs_to_bytes(a)[i] == b[i] by {
        let k: int = i / 8;
        lemma_bytes_from_their_word(b, 8 * k);
        assert(be_byte(be_word(b, 8 * k, 8) as u64, i % 8) == b[8 * k + i % 8]);
    }
    assert(limbs_to_bytes(a) =~= b);
}


/// `a` comes before `b` in lexicographic order: at the first position where
/// they differ, `a` holds the smaller limb.
pub open spec fn limbs_less(a: Seq<u64>, b: Seq<u64>) -> bool {
    exists|i: int|
        0 <= i < a.len() && i < b.len() && a[i] < b[i] && (forall|j: int| 0 <= j < i ==> a[j] == b[j])
}

/// `a` comes before `b` in lexicographic order: at the first position where
/// they differ, `a` holds the smaller byte.
pub open spec fn bytes_less(a: Seq<u8>, b: Seq<u8>) -> bool {
    exists|i: int|
        0 <= i < a.len() && i < b.len() && a[i] < b[i] && (forall|j: int| 0 <= j < i ==> a[j] == b[j])
}

/// The `n` bytes of `d` and of `e` from `s` on agree.
spec fn digits_equal(d: Seq<u8>, e: Seq<u8>, s: int, n: int) -> bool {
    forall|j: int| s <= j < s + n ==> d[j] == e[j]
}

/// The `n` bytes of `d` from `s` on come before those of `e` in lexicographic order.
spec fn digits_less(d: Seq<u8>, e: Seq<u8>, s: int, n: int) -> bool {
    exists|i: int| s <= i < s + n && d[i] < e[i] && (forall|j: int| s <= j < i ==> d[j] == e[j])
}

/// Big-endian numerals compare as their digit strings do.
proof fn lemma_digits_compare(d: Seq<u8>, e: Seq<u8>, s: int, n: nat)
    ensures
        digits_equal(d, e, s, n as int) <==> be_word(d, s, n) == be_word(e, s, n),
        digits_less(d, e, s, n as int) <==> be_word(d, s, n) < be_word(e, s, n),
    decreases n,
{
    if n > 0 {
        let m: nat = (n - 1) as nat;
        lemma_digits_compare(d, e, s, m);
        let x = be_word(d, s, m);
        let y = be_word(e, s, m);
        let p = d[s + m];
        let q = e[s + m];
        assert(be_word(d, s, n) == x * 256 + p);
        assert(be_word(e, s, n) == y * 256 + q);
        if x < y {
            assert(x * 256 + p < y * 256 + q) by {
                assert((x + 1) * 256 <= y * 256);
            }
        }
        if y < x {
            assert(y * 256 + q < x * 256 + p) by {
                assert((y + 1) * 256 <= x * 256);
            }
        }
        assert(digits_equal(d, e, s, n as int) <==> (digits_equal(d, e, s, m as int) && p == q)) by {
            if digits_equal(d, e, s, m as int) && p == q {
                assert forall|j: int| s <= j < s + n implies d[j] == e[j] by {
                    if j < s + m {
                        assert(d[j] == e[j]);
                    }
                }
            }
        }
        assert(digits_less(d, e, s, n as int) <==> (digits_less(d, e, s, m as int) || (digits_equal(
            d,
            e,
            s,
            m as int,
        ) && p < q))) by {
            if digits_less(d, e, s, n as int) {
                let i = choose|i: int|
                    s <= i < s + n && d[i] < e[i] && (forall|j: int| s <= j < i ==> d[j] == e[j]);
                if i < s + m {
                    assert(digits_less(d, e, s, m as int));
                } else {
                    assert(digits_equal(d, e, s, m as int));
                }
            }
            if digits_less(d, e, s, m as int) {
                let i = choose|i: int|
                    s <= i < s + m && d[i] < e[i] && (forall|j: int| s <= j < i ==> d[j] == e[j]);
                assert(digits_less(d, e, s, n as int));
            }
            if digits_equal(d, e, s, m as int) && p < q {
                assert(digits_less(d, e, s, n as int));
            }
        }
    }
}

/// The eight bytes that encode limb `k` read back as that limb.
proof fn lemma_limb_bytes_read_back(a: Seq<u64>, k: int)
    requires
        a.len() == 4,
        0 <= k < 4,
    ensures
        be_word(limbs_to_bytes(a), 8 * k, 8) == a[k],
{
    let b = limbs_to_bytes(a);
    lemma_be_word_8(b, 8 * k);
    assert(b[8 * k] == be_byte(a[k], 0));
    assert(b[8 * k + 1] == be_byte(a[k], 1));
    assert(b[8 * k + 2] == be_byte(a[k], 2));
    assert(b[8 * k + 3] == be_byte(a[k], 3));
    assert(b[8 * k + 4] == be_byte(a[k], 4));
    assert(b[8 * k + 5] == be_byte(a[k], 5));
    assert(b[8 * k + 6] == be_byte(a[k], 6));
    assert(b[8 * k + 7] == be_byte(a[k], 7));
    lemma_word_from_its_bytes(a[k]);
}

/// The encoding keeps the order of roots: one list of limbs comes before
/// another exactly when its bytes come before the other's, and different
/// limbs give different bytes.
pub proof fn lemma_encoding_keeps_order(a: Seq<u64>, b: Seq<u64>)
    requires
        a.len() == 4,
        b.len() == 4,
    ensures
        limbs_less(a, b) <==> bytes_less(limbs_to_bytes(a), limbs_to_bytes(b)),
        a != b ==> limbs_to_bytes(a) != limbs_to_bytes(b),
{
    let ea = limbs_to_bytes(a);
    let eb = limbs_to_bytes(b);
    assert forall|k: int| 0 <= k < 4 implies (digits_equal(ea, eb, 8 * k, 8) <==> a[k] == b[k]) && (
    digits_less(ea, eb, 8 * k, 8) <==> a[k] < b[k]) by {
        lemma_limb_bytes_read_back(a, k);
        lemma_limb_bytes_read_back(b, k);
        lemma_digits_compare(ea, eb, 8 * k, 8);
    }
    if limbs_less(a, b) {
        let i = choose|i: int|
            0 <= i < a.len() && i < b.len() && a[i] < b[i] && (forall|j: int| 0 <= j < i ==> a[j] == b[j]);
        assert(digits_less(ea, eb, 8 * i, 8));
        let q = choose|q: int|
            8 * i <= q < 8 * i + 8 && ea[q] < eb[q] && (forall|j: int| 8 * i <= j < q ==> ea[j] == eb[j]);
        assert forall|r: int| 0 <= r < q implies ea[r] == eb[r] by {
            let k = r / 8;
            if k < i {
                assert(a[k] == b[k]);
                assert(digits_equal(ea, eb, 8 * k, 8));
                assert(8 * k <= r < 8 * k + 8);
            }
        }
        assert(ea.len() == 32 && eb.len() == 32);
        assert(bytes_less(ea, eb));
    }
    if bytes_less(ea, eb) {
        let q = choose|q: int|
            0 <= q < ea.len() && q < eb.len() && ea[q] < eb[q] && (forall|j: int| 0 <= j < q ==> ea[j] == eb[j]);
        let i = q / 8;
        let p = q % 8;
        assert(q == 8 * i + p);
        assert forall|k: int| 0 <= k < i implies a[k] == b[k] by {
            assert forall|j: int| 8 * k <= j < 8 * k + 8 implies ea[j] == eb[j] by {
                assert(j < q);
            }
            assert(digits_equal(ea, eb, 8 * k, 8));
        }
        assert(digits_less(ea, eb, 8 * i, 8));
        assert(a[i] < b[i]);
        assert(limbs_less(a, b));
    }
    if ea == eb {
        lemma_limbs_survive_encoding(a);
        lemma_limbs_survive_encoding(b);
    }
}

} // verus!
