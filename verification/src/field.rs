//! Field elements of the sponge hash, and the byte layouts that turn an
//! account address and a storage value into two of them.

use vstd::prelude::*;
use vstd::string::StringExecFns;

verus! {

/// The prime modulus of the field over which the sponge hash works.
pub open spec fn field_modulus() -> nat {
    0x40000000000000000000000000000000224698fc094cf91b992d30ed00000001nat
}

/// The modulus, least significant byte first.
pub const MODULUS_LE: [u8; 32] = [
    0x01, 0x00, 0x00, 0x00, 0xed, 0x30, 0x2d, 0x99,
    0x1b, 0xf9, 0x4c, 0x09, 0xfc, 0x98, 0x46, 0x22,
    0x00, 0x00, 0x00, 0x00, 0x00, 0x00, 0x00, 0x00,
    0x00, 0x00, 0x00, 0x00, 0x00, 0x00, 0x00, 0x40,
];

/// 256 to the power `n`.
pub open spec fn pow256(n: nat) -> nat
    decreases n,
{
    if n == 0 {
        1
    } else {
        256 * pow256((n - 1) as nat)
    }
}

/// The number that `bytes` spell, least significant byte first.
pub open spec fn le_value(bytes: Seq<u8>) -> nat
    decreases bytes.len(),
{
    if bytes.len() == 0 {
        0
    } else {
        bytes[0] as nat + 256 * le_value(bytes.drop_first())
    }
}

/// The number that `bytes` spell, most significant byte first.
pub open spec fn be_value(bytes: Seq<u8>) -> nat {
    le_value(bytes.reverse())
}

/// A sequence of bytes spells a number below 256 to the power of its length.
pub proof fn lemma_le_value_bound(bytes: Seq<u8>)
    ensures
        le_value(bytes) < pow256(bytes.len()),
    decreases bytes.len(),
{
    if bytes.len() > 0 {
        lemma_le_value_bound(bytes.drop_first());
    }
}

/// The value of a sequence is the value of its first `k` bytes plus the value
/// of the rest, shifted by `k` bytes.
pub proof fn lemma_le_value_split(bytes: Seq<u8>, k: int)
    requires
        0 <= k <= bytes.len(),
    ensures
        le_value(bytes) == le_value(bytes.take(k)) + pow256(k as nat) * le_value(bytes.skip(k)),
    decreases k,
{
    if k == 0 {
        assert(bytes.skip(0) =~= bytes);
        assert(le_value(bytes.take(0)) == 0);
        assert(pow256(k as nat) == 1);
        assert(le_value(bytes.skip(k)) == le_value(bytes));
        assert(pow256(k as nat) * le_value(bytes.skip(k)) == le_value(bytes)) by (nonlinear_arith)
            requires
                pow256(k as nat) == 1,
                le_value(bytes.skip(k)) == le_value(bytes),
        ;
    } else {
        let tail = bytes.drop_first();
        lemma_le_value_split(tail, k - 1);
        assert(tail.take(k - 1) =~= bytes.take(k).drop_first());
        assert(tail.skip(k - 1) =~= bytes.skip(k));
        assert(bytes.take(k)[0] == bytes[0]);
        let high = le_value(bytes.skip(k));
        let low = le_value(tail.take(k - 1));
        let p = pow256((k - 1) as nat);
        assert(le_value(tail) == low + p * high);
        assert(le_value(bytes) == bytes[0] as nat + 256 * le_value(tail));
        assert(le_value(bytes.take(k)) == bytes[0] as nat + 256 * low);
        assert(pow256(k as nat) == 256 * p);
        assert(256 * (low + p * high) == 256 * low + (256 * p) * high) by (nonlinear_arith);
    }
}

/// Two sequences of one length that spell the same number are the same.
pub proof fn lemma_le_value_injective(a: Seq<u8>, b: Seq<u8>)
    requires
        a.len() == b.len(),
        le_value(a) == le_value(b),
    ensures
        a == b,
    decreases a.len(),
{
    if a.len() > 0 {
        let ta = a.drop_first();
        let tb = b.drop_first();
        assert(a[0] as nat + 256 * le_value(ta) == b[0] as nat + 256 * le_value(tb));
        assert(a[0] == b[0]);
        lemma_le_value_injective(ta, tb);
        assert(a =~= seq![a[0]] + ta);
        assert(b =~= seq![b[0]] + tb);
    } else {
        assert(a =~= b);
    }
}

/// Where two sequences of one length agree above position `i` and differ at
/// `i`, the one with the smaller byte there spells the smaller number.
pub proof fn lemma_le_value_order(a: Seq<u8>, b: Seq<u8>, i: int)
    requires
        a.len() == b.len(),
        0 <= i < a.len(),
        a.skip(i + 1) == b.skip(i + 1),
        a[i] < b[i],
    ensures
        le_value(a) < le_value(b),
{
    lemma_le_value_split(a, i);
    lemma_le_value_split(b, i);
    lemma_le_value_bound(a.take(i));
    assert(a.skip(i).drop_first() =~= a.skip(i + 1));
    assert(b.skip(i).drop_first() =~= b.skip(i + 1));
    let p = pow256(i as nat);
    let ha = le_value(a.skip(i));
    let hb = le_value(b.skip(i));
    assert(ha + 1 <= hb);
    assert(p * (ha + 1) <= p * hb) by (nonlinear_arith)
        requires
            ha + 1 <= hb,
    ;
    assert(p * (ha + 1) == p * ha + p) by (nonlinear_arith);
}

/// The bytes of `MODULUS_LE` spell the modulus.
pub proof fn lemma_modulus_bytes()
    ensures
        le_value(MODULUS_LE@) == field_modulus(),
{
    let m = MODULUS_LE@;
    assert(m.len() == 32);
    lemma_le_value_split(m, 8);
    lemma_le_value_split(m.skip(8), 8);
    lemma_le_value_split(m.skip(8).skip(8), 8);
    let a = m.take(8);
    let b = m.skip(8).take(8);
    let c = m.skip(8).skip(8).take(8);
    let d = m.skip(8).skip(8).skip(8);
    assert(a =~= seq![0x01u8, 0x00, 0x00, 0x00, 0xed, 0x30, 0x2d, 0x99]);
    assert(b =~= seq![0x1bu8, 0xf9, 0x4c, 0x09, 0xfc, 0x98, 0x46, 0x22]);
    assert(c =~= seq![0x00u8, 0x00, 0x00, 0x00, 0x00, 0x00, 0x00, 0x00]);
    assert(d =~= seq![0x00u8, 0x00, 0x00, 0x00, 0x00, 0x00, 0x00, 0x40]);
    lemma_le_value_of_eight(a);
    lemma_le_value_of_eight(b);
    lemma_le_value_of_eight(c);
    lemma_le_value_of_eight(d);
    assert(pow256(8) == 0x1_0000_0000_0000_0000) by {
        reveal_with_fuel(pow256, 9);
    }
    let v2 = le_value(m.skip(8).skip(8));
    let v1 = le_value(m.skip(8));
    assert(le_value(a) == 0x992d30ed00000001);
    assert(le_value(b) == 0x224698fc094cf91b);
    assert(le_value(c) == 0);
    assert(le_value(d) == 0x4000000000000000);
    assert(v2 == 0x4000_0000_0000_0000_0000_0000_0000_0000) by (nonlinear_arith)
        requires
            v2 == le_value(c) + pow256(8) * le_value(d),
            pow256(8) == 0x1_0000_0000_0000_0000,
            le_value(c) == 0,
            le_value(d) == 0x4000000000000000,
    ;
    assert(v1 == 0x4000_0000_0000_0000_0000_0000_0000_0000_2246_98fc_094c_f91b)
        by (nonlinear_arith)
        requires
            v1 == le_value(b) + pow256(8) * v2,
            pow256(8) == 0x1_0000_0000_0000_0000,
            le_value(b) == 0x224698fc094cf91b,
            v2 == 0x4000_0000_0000_0000_0000_0000_0000_0000,
    ;
    assert(le_value(m) == field_modulus()) by (nonlinear_arith)
        requires
            le_value(m) == le_value(a) + pow256(8) * v1,
            pow256(8) == 0x1_0000_0000_0000_0000,
            le_value(a) == 0x992d30ed00000001,
            v1 == 0x4000_0000_0000_0000_0000_0000_0000_0000_2246_98fc_094c_f91b,
            field_modulus()
                == 0x40000000000000000000000000000000224698fc094cf91b992d30ed00000001,
    ;
}

/// The value of eight bytes, written out.
proof fn lemma_le_value_of_eight(s: Seq<u8>)
    requires
        s.len() == 8,
    ensures
        le_value(s) == s[0] as nat + 0x100 * s[1] as nat + 0x1_0000 * s[2] as nat + 0x100_0000
            * s[3] as nat + 0x1_0000_0000 * s[4] as nat + 0x100_0000_0000 * s[5] as nat
            + 0x1_0000_0000_0000 * s[6] as nat + 0x100_0000_0000_0000 * s[7] as nat,
{
    let s1 = s.drop_first();
    let s2 = s1.drop_first();
    let s3 = s2.drop_first();
    let s4 = s3.drop_first();
    let s5 = s4.drop_first();
    let s6 = s5.drop_first();
    let s7 = s6.drop_first();
    let s8 = s7.drop_first();
    assert(le_value(s8) == 0);
    assert(le_value(s7) == s[7] as nat);
    assert(le_value(s6) == s[6] as nat + 256 * le_value(s7));
    assert(le_value(s5) == s[5] as nat + 256 * le_value(s6));
    assert(le_value(s4) == s[4] as nat + 256 * le_value(s5));
    assert(le_value(s3) == s[3] as nat + 256 * le_value(s4));
    assert(le_value(s2) == s[2] as nat + 256 * le_value(s3));
    assert(le_value(s1) == s[1] as nat + 256 * le_value(s2));
    assert(le_value(s) == s[0] as nat + 256 * le_value(s1));
}

/// Why a sequence of 32 bytes was not taken as a field element.
#[derive(Clone, Copy, Debug, PartialEq, Eq)]
pub enum FieldError {
    /// The bytes spell a number that is not below the modulus.
    NotCanonical,
}

impl FieldError {
    /// The error as a line of text.
    pub fn message(&self) -> (text: String)
        ensures
            text@ == "the bytes do not spell a number below the field's modulus"@,
    {
        String::from_str("the bytes do not spell a number below the field's modulus")
    }
}

/// An element of the field, held as its 32 little-endian bytes.
#[derive(Clone, Copy, Debug, PartialEq, Eq)]
pub struct FieldElement {
    bytes: [u8; 32],
}

impl View for FieldElement {
    type V = nat;

    /// The number below the modulus that the element stands for.
    closed spec fn view(&self) -> nat {
        le_value(self.bytes@)
    }
}

impl FieldElement {
    #[verifier::type_invariant]
    closed spec fn canonical(self) -> bool {
        le_value(self.bytes@) < field_modulus()
    }

    /// The zero of the field.
    pub fn zero() -> (z: FieldElement)
        ensures
            z@ == 0,
    {
        let bytes = [0u8; 32];
        proof {
            lemma_le_value_of_zeros(bytes@);
        }
        FieldElement { bytes }
    }

    /// Reads an element from its 32 little-endian bytes. The bytes are taken
    /// exactly when the number they spell is below the modulus.
    pub fn from_bytes(bytes: &[u8; 32]) -> (r: Result<FieldElement, FieldError>)
        ensures
            le_value(bytes@) < field_modulus() ==> r is Ok && r->Ok_0@ == le_value(bytes@),
            le_value(bytes@) >= field_modulus() ==> r == Err::<FieldElement, FieldError>(
                FieldError::NotCanonical,
            ),
    {
        if below_modulus(bytes) {
            Ok(FieldElement { bytes: *bytes })
        } else {
            Err(FieldError::NotCanonical)
        }
    }

    /// The element's 32 little-endian bytes.
    pub fn to_bytes(&self) -> (bytes: [u8; 32])
        ensures
            le_value(bytes@) == self@,
            self@ < field_modulus(),
    {
        proof {
            use_type_invariant(self);
        }
        self.bytes
    }

    /// The element as a 32-byte big-endian digest.
    pub fn to_digest(&self) -> (digest: [u8; 32])
        ensures
            be_value(digest@) == self@,
    {
        let mut digest = [0u8; 32];
        let mut i: usize = 0;
        while i < 32
            invariant
                i <= 32,
                forall|j: int| 0 <= j < i ==> digest@[j] == self.bytes@[31 - j],
            decreases 32 - i,
        {
            digest[i] = self.bytes[31 - i];
            i = i + 1;
        }
        assert(digest@.reverse() =~= self.bytes@);
        digest
    }
}

/// A sequence of zero bytes spells zero.
pub proof fn lemma_le_value_of_zeros(bytes: Seq<u8>)
    requires
        forall|i: int| 0 <= i < bytes.len() ==> bytes[i] == 0,
    ensures
        le_value(bytes) == 0,
    decreases bytes.len(),
{
    if bytes.len() > 0 {
        lemma_le_value_of_zeros(bytes.drop_first());
    }
}

/// Whether the number that `bytes` spell, least significant byte first, is
/// below the modulus.
pub fn below_modulus(bytes: &[u8; 32]) -> (below: bool)
    ensures
        below == (le_value(bytes@) < field_modulus()),
{
    proof {
        lemma_modulus_bytes();
    }
    let mut i: usize = 32;
    while i > 0
        invariant
            i <= 32,
            bytes@.skip(i as int) == MODULUS_LE@.skip(i as int),
            le_value(MODULUS_LE@) == field_modulus(),
        decreases i,
    {
        i = i - 1;
        let ours = bytes[i];
        let theirs = MODULUS_LE[i];
        if ours < theirs {
            proof {
                lemma_le_value_order(bytes@, MODULUS_LE@, i as int);
            }
            return true;
        }
        if ours > theirs {
            proof {
                lemma_le_value_order(MODULUS_LE@, bytes@, i as int);
            }
            return false;
        }
        assert(bytes@.skip(i as int) =~= seq![ours] + bytes@.skip(i + 1));
        assert(MODULUS_LE@.skip(i as int) =~= seq![theirs] + MODULUS_LE@.skip(i + 1));
    }
    assert(bytes@ =~= bytes@.skip(0));
    assert(MODULUS_LE@ =~= MODULUS_LE@.skip(0));
    false
}

} // verus!
