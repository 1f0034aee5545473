//! The multisig record's data blob and inputs. The blob's first 64 bytes
//! hold the signing threshold as a big-endian integer; owner keys follow,
//! 64 bytes each.
use vstd::prelude::*;

use super::k_signature::KSignature;
use crate::bytes::{all_zero, be_value, eq64, lemma_be_value_high_byte, lemma_be_value_split,
    lemma_be_value_u64_be, lemma_be_value_zero, spec_u64_be, u64_from_be_8, u64_to_be_bytes};
use crate::circuits::ecdsa_record::k_public_key::KPublicKey;

verus! {

pub struct CurrentData([u8; 256]);

impl View for CurrentData {
    type V = Seq<u8>;

    closed spec fn view(&self) -> Seq<u8> {
        self.0@
    }
}

impl CurrentData {
    /// Whether the recovered key equals the owner key stored in slot
    /// `owner_index`. The threshold takes the blob's first 64 bytes, so
    /// owner slots start at byte 64; the blob holds three of them.
    pub fn assert_owner(&self, owner_index: u8, recovered_key: [u8; 64]) -> (r: bool)
        requires
            owner_index <= 2,
        ensures
            r == (self@.subrange(
                (owner_index + 1) as int * 64,
                (owner_index + 2) as int * 64,
            ) == recovered_key@),
    {
        let base: usize = (owner_index as usize + 1) * 64;
        let mut owner: [u8; 64] = [0; 64];
        let mut i: usize = 0;
        while i < 64
            invariant
                i <= 64,
                base == (owner_index + 1) as int * 64,
                owner_index <= 2,
                forall|j: int| 0 <= j < i ==> owner@[j] == self@[base + j],
            decreases 64 - i,
        {
            owner[i] = self.0[base + i];
            i += 1;
        }
        proof {
            assert(owner@ =~= self@.subrange(
                (owner_index + 1) as int * 64,
                (owner_index + 2) as int * 64,
            ));
        }
        eq64(&owner, &recovered_key)
    }

    /// Whether the number of distinct owner slots in `owner_indexes`
    /// reaches the threshold stored big-endian in the blob's first 64
    /// bytes.
    pub fn assert_threshold(&self, owner_indexes: Vec<u8>) -> (r: bool)
        ensures
            r == (be_value(self@.take(64)) <= owner_indexes@.to_set().len()),
    {
        let count = distinct_count(&owner_indexes);
        let mut i: usize = 0;
        while i < 56
            invariant
                i <= 56,
                count == owner_indexes@.to_set().len(),
                forall|j: int| 0 <= j < i ==> self@[j] == 0u8,
            decreases 56 - i,
        {
            if self.0[i] != 0 {
                proof {
                    assert(self@.take(64)[i as int] != 0);
                    lemma_be_value_high_byte(self@.take(64), i as int);
                    vstd::arithmetic::power::lemma_pow_increases(256, 8, (63 - i) as nat);
                    crate::bytes::lemma_pow256_8();
                    assert(be_value(self@.take(64)) >= 0x10000000000000000);
                    assert(count as nat <= usize::MAX);
                    assert(be_value(self@.take(64)) > owner_indexes@.to_set().len());
                }
                return false;
            }
            i += 1;
        }
        let w = u64_from_be_8(
            self.0[56],
            self.0[57],
            self.0[58],
            self.0[59],
            self.0[60],
            self.0[61],
            self.0[62],
            self.0[63],
        );
        proof {
            assert(seq![
                self@[56],
                self@[57],
                self@[58],
                self@[59],
                self@[60],
                self@[61],
                self@[62],
                self@[63],
            ] =~= self@.take(64).skip(56));
            lemma_be_value_split(self@.take(64), 56);
            assert(self@.take(64).take(56) =~= self@.take(56));
            assert(all_zero(self@.take(56)));
            lemma_be_value_zero(self@.take(56));
        }
        w <= count as u64
    }
}

/// The number of distinct values in a list.
fn distinct_count(xs: &Vec<u8>) -> (r: usize)
    ensures
        r == xs@.to_set().len(),
{
    let mut seen: Vec<u8> = Vec::new();
    let mut i: usize = 0;
    proof {
        assert(xs@.take(0).to_set() =~= Set::<u8>::empty());
        assert(seen@.to_set() =~= Set::<u8>::empty());
    }
    while i < xs.len()
        invariant
            i <= xs@.len(),
            seen@.to_set() == xs@.take(i as int).to_set(),
            seen@.no_duplicates(),
        decreases xs@.len() - i,
    {
        let ghost pre = i as int;
        let ghost seen_pre = seen@;
        let x = xs[i];
        let fresh = !contains_byte(&seen, x);
        if fresh {
            seen.push(x);
        }
        proof {
            assert(xs@.take(pre).push(xs@[pre]) =~= xs@.take(pre + 1));
            xs@.take(pre).lemma_push_to_set_commute(xs@[pre]);
            if fresh {
                seen_pre.lemma_push_to_set_commute(x);
                assert forall|a: int, b: int|
                    0 <= a < seen@.len() && 0 <= b < seen@.len() && a != b implies seen@[a]
                    != seen@[b] by {
                    if a < seen_pre.len() && b < seen_pre.len() {
                        assert(seen_pre[a] != seen_pre[b]);
                    }
                }
                assert(seen@.no_duplicates());
            } else {
                assert(seen@.to_set().insert(x) =~= seen@.to_set());
            }
            assert(seen@.to_set() =~= xs@.take(pre + 1).to_set());
        }
        i += 1;
    }
    proof {
        assert(xs@.take(xs@.len() as int) =~= xs@);
        seen@.unique_seq_to_set();
    }
    seen.len()
}

/// Whether a list holds a value.
fn contains_byte(xs: &Vec<u8>, x: u8) -> (r: bool)
    ensures
        r == xs@.contains(x),
{
    let mut i: usize = 0;
    while i < xs.len()
        invariant
            i <= xs@.len(),
            forall|j: int| 0 <= j < i ==> xs@[j] != x,
        decreases xs@.len() - i,
    {
        if xs[i] == x {
            return true;
        }
        i += 1;
    }
    false
}

pub struct Inputs {
    pub current_data: CurrentData,
    pub new_key: [u8; 32],
    pub signatures: Vec<KSignature>,
}

/// The error of building multisig inputs from more signers than the data
/// blob has slots for.
#[derive(Clone, Copy, Debug, PartialEq, Eq, Structural)]
pub struct InputError;

impl Inputs {
    /// Build the inputs over a packed signer blob: the threshold in the
    /// blob's first 64 bytes, owner keys from byte 64 on; at most three
    /// owners fit.
    pub fn new(
        signers: &[KPublicKey],
        threshold: u64,
        new_key: [u8; 32],
        signatures: Vec<KSignature>,
    ) -> (r: Result<Self, InputError>)
        ensures
            match r {
                Ok(inputs) => {
                    &&& signers@.len() <= 3
                    &&& inputs.new_key == new_key
                    &&& inputs.signatures == signatures
                    &&& inputs.current_data@.len() == 256
                    &&& be_value(inputs.current_data@.take(64)) == threshold
                    &&& forall|i: int|
                        0 <= i < signers@.len() ==> inputs.current_data@.subrange(
                            64 * (i + 1),
                            64 * (i + 1) + 64,
                        ) == (#[trigger] signers@[i]).0@
                    &&& forall|j: int|
                        64 * (signers@.len() + 1) <= j < 256 ==> inputs.current_data@[j] == 0u8
                },
                Err(_) => signers@.len() > 3,
            },
    {
        let current_data = serialize_signers(signers, threshold)?;
        Ok(Self { current_data, new_key, signatures })
    }
}

/// Pack a signer blob: the threshold as a big-endian integer in the
/// first 64 bytes, then the owner keys, 64 bytes each; at most three
/// owners fit beside the threshold.
pub fn serialize_signers(signers: &[KPublicKey], threshold: u64) -> (r: Result<
    CurrentData,
    InputError,
>)
    ensures
        match r {
            Ok(cd) => {
                &&& signers@.len() <= 3
                &&& cd@.len() == 256
                &&& be_value(cd@.take(64)) == threshold
                &&& cd@.subrange(56, 64) == spec_u64_be(threshold)
                &&& forall|i: int|
                    0 <= i < signers@.len() ==> cd@.subrange(64 * (i + 1), 64 * (i + 1) + 64) == (
                    #[trigger] signers@[i]).0@
                &&& forall|j: int| 64 * (signers@.len() + 1) <= j < 256 ==> cd@[j] == 0u8
            },
            Err(_) => signers@.len() > 3,
        },
{
    if signers.len() > 3 {
        return Err(InputError);
    }
    let mut bytes: [u8; 256] = [0; 256];
    let tb = u64_to_be_bytes(threshold);
    let mut t: usize = 0;
    while t < 8
        invariant
            t <= 8,
            tb@ == spec_u64_be(threshold),
            forall|j: int| 0 <= j < t ==> bytes@[56 + j] == tb@[j],
            forall|j: int| 0 <= j < 56 ==> bytes@[j] == 0u8,
            forall|j: int| 64 <= j < 256 ==> bytes@[j] == 0u8,
        decreases 8 - t,
    {
        bytes[56 + t] = tb[t];
        t += 1;
    }
    let mut i: usize = 0;
    while i < signers.len()
        invariant
            i <= signers@.len(),
            signers@.len() <= 3,
            forall|j: int| 0 <= j < 56 ==> bytes@[j] == 0u8,
            forall|j: int| 0 <= j < 8 ==> bytes@[56 + j] == spec_u64_be(threshold)[j],
            forall|k: int|
                0 <= k < i ==> bytes@.subrange(64 * (k + 1), 64 * (k + 1) + 64) == (
                #[trigger] signers@[k]).0@,
            forall|j: int| 64 * (i + 1) <= j < 256 ==> bytes@[j] == 0u8,
        decreases signers@.len() - i,
    {
        let mut b: usize = 0;
        while b < 64
            invariant
                b <= 64,
                i < signers@.len(),
                signers@.len() <= 3,
                forall|j: int| 0 <= j < 56 ==> bytes@[j] == 0u8,
                forall|j: int| 0 <= j < 8 ==> bytes@[56 + j] == spec_u64_be(threshold)[j],
                forall|k: int|
                    0 <= k < i ==> bytes@.subrange(64 * (k + 1), 64 * (k + 1) + 64) == (
                    #[trigger] signers@[k]).0@,
                forall|j: int| 0 <= j < b ==> bytes@[64 * (i + 1) + j] == signers@[i as int].0@[j],
                forall|j: int| 64 * (i + 1) + b <= j < 256 ==> bytes@[j] == 0u8,
            decreases 64 - b,
        {
            bytes[64 * (i + 1) + b] = vstd::slice::slice_index_get(signers, i).0[b];
            proof {
                assert forall|k: int| 0 <= k < i implies bytes@.subrange(
                    64 * (k + 1),
                    64 * (k + 1) + 64,
                ) == (#[trigger] signers@[k]).0@ by {
                    assert(bytes@.subrange(64 * (k + 1), 64 * (k + 1) + 64) =~= signers@[k].0@);
                }
            }
            b += 1;
        }
        proof {
            assert(bytes@.subrange(64 * (i as int + 1), 64 * (i as int + 1) + 64)
                =~= signers@[i as int].0@);
        }
        i += 1;
    }
    proof {
        assert(bytes@.subrange(56, 64) =~= spec_u64_be(threshold));
        lemma_be_value_split(bytes@.take(64), 56);
        assert(bytes@.take(64).take(56) =~= bytes@.take(56));
        assert(all_zero(bytes@.take(56)));
        lemma_be_value_zero(bytes@.take(56));
        assert(bytes@.take(64).skip(56) =~= spec_u64_be(threshold));
        lemma_be_value_u64_be(threshold);
        assert(be_value(bytes@.take(56)) == 0);
        assert(be_value(bytes@.take(64).take(56)) == 0);
        assert(be_value(bytes@.take(64).skip(56)) == threshold);
        assert(be_value(bytes@.take(64)) == be_value(bytes@.take(64).take(56))
            * vstd::arithmetic::power::pow(256, (bytes@.take(64).len() - 56) as nat) + be_value(
            bytes@.take(64).skip(56),
        ));
        let a = be_value(bytes@.take(64).take(56));
        let p = vstd::arithmetic::power::pow(256, (bytes@.take(64).len() - 56) as nat);
        assert(a * p == 0) by (nonlinear_arith)
            requires
                a == 0,
        ;
        assert(be_value(bytes@.take(64)) == threshold);
    }
    Ok(CurrentData(bytes))
}

} // verus!
