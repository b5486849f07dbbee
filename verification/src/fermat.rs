//! The multi-base Fermat primality test, natively and as witness data.
//!
//! Test bases are derived deterministically from a randomness value and the
//! base index, then folded into the range `[2, n-2]` so that a prime
//! modulus is always accepted.  The native test is the cheap check the
//! search loop runs; the constructor records, for the one winning
//! candidate, the reduction witnesses the circuit gadget replays.

use crate::bigint::{
    big_add, big_clone, big_div_rem, big_eq, big_from_u64, big_lt, big_sub, big_value,
};
use crate::errors::PrimeSnarkError;
use crate::gadget::CircuitConfig;
use crate::hash::derive_spec;
use crate::field::fr_modulus;
use crate::witness::{
    mod_pow_generate_witnesses, nat_bit, ExponentiationWitness, ModularReductionWitness,
};
use num_bigint::BigUint;
use vstd::arithmetic::power::pow;
use vstd::arithmetic::power2::pow2;
use vstd::prelude::*;

verus! {

/// The `k`-th test base for modulus `n`: the derived value folded into
/// `[2, n-2]`.  Meaningful for `n >= 5`.
pub open spec fn base_value(r: nat, k: nat, n: nat) -> nat {
    2 + derive_spec(r, k) % ((n - 3) as nat)
}

/// Whether base `k` passes Fermat's congruence for `n`.
pub open spec fn fermat_base_passes(n: nat, r: nat, k: nat) -> bool {
    pow(base_value(r, k, n) as int, (n - 1) as nat) % (n as int) == 1
}

/// The native primality decision: tiny moduli are decided directly, even
/// ones rejected, and everything else must pass Fermat's congruence for
/// every one of the `kcount` derived bases.
pub open spec fn fermat_passes(n: nat, r: nat, kcount: nat) -> bool {
    if n <= 1 {
        false
    } else if n <= 3 {
        true
    } else if n % 2 == 0 {
        false
    } else {
        forall|k: nat| k < kcount ==> fermat_base_passes(n, r, k)
    }
}

/// One Fermat check of the winning candidate: the derived base, its
/// range-folding witness, and the recorded exponentiation trace for
/// `base ^ (n-1) mod n`.
pub struct FermatInstance {
    pub n: BigUint,
    pub base_derivation: ModularReductionWitness,
    pub base: BigUint,
    pub witness: ExponentiationWitness,
    pub result_is_one: bool,
}

impl FermatInstance {
    /// The instance is the honest record for modulus `n`, randomness `r`,
    /// base index `k` and trace width `w`.
    pub open spec fn wf_for(self, n: nat, r: nat, k: nat, w: nat) -> bool {
        &&& big_value(self.n) == n
        &&& big_value(self.base_derivation.dividend) == derive_spec(r, k)
        &&& big_value(self.base_derivation.divisor) == n - 3
        &&& self.base_derivation.wf()
        &&& big_value(self.base) == base_value(r, k, n)
        &&& self.witness.wf_for(base_value(r, k, n), n, w)
        &&& forall|j: int| 0 <= j < w ==> self.witness.bits@[j] == nat_bit((n - 1) as nat, j as nat)
        &&& crate::witness::bits_value(self.witness.bits@, w) == (n - 1) as nat % pow2(w)
        &&& (self.result_is_one <==> big_value(self.witness.result) == 1)
    }
}

/// Whether a configuration is usable: at least one base, and a trace width
/// that keeps every candidate inside the proving field.
pub open spec fn valid_config(cfg: CircuitConfig) -> bool {
    cfg.num_bases >= 1 && 1 <= cfg.bit_width <= 254
}

/// Checks a configuration.
pub fn check_config(cfg: &CircuitConfig) -> (r: bool)
    ensures
        r == valid_config(*cfg),
{
    cfg.num_bases >= 1 && 1 <= cfg.bit_width && cfg.bit_width <= 254
}

/// The largest trace value bound: `2 ^ bits`.
pub fn get_max_val(bits: usize) -> (r: BigUint)
    ensures
        big_value(r) == pow2(bits as nat),
{
    let two = big_from_u64(2);
    let mut acc = big_from_u64(1);
    let mut i: usize = 0;
    proof {
        assert(pow2(0) == 1) by {
            vstd::arithmetic::power2::lemma2_to64();
        }
    }
    while i < bits
        invariant
            i <= bits,
            big_value(two) == 2,
            big_value(acc) == pow2(i as nat),
        decreases bits - i,
    {
        acc = crate::bigint::big_mul(&acc, &two);
        proof {
            vstd::arithmetic::power2::lemma_pow2_adds(i as nat, 1);
            assert(pow2(1) == 2) by {
                vstd::arithmetic::power2::lemma2_to64();
            }
        }
        i = i + 1;
    }
    acc
}

/// Computes one derived, range-folded base together with its reduction
/// witness.
fn derive_base(
    randomness: &BigUint,
    k: u64,
    n: &BigUint,
    p: &BigUint,
) -> (r: (BigUint, ModularReductionWitness))
    requires
        big_value(*randomness) < fr_modulus(),
        big_value(*p) == fr_modulus(),
        big_value(*n) >= 5,
    ensures
        big_value(r.0) == base_value(big_value(*randomness), k as nat, big_value(*n)),
        r.1.wf(),
        big_value(r.1.dividend) == derive_spec(big_value(*randomness), k as nat),
        big_value(r.1.divisor) == big_value(*n) - 3,
        big_value(r.0) == big_value(r.1.remainder) + 2,
{
    let three = big_from_u64(3);
    let two = big_from_u64(2);
    let d = crate::hash::derive(randomness, k, p);
    let n3 = big_sub(n, &three);
    let wit = crate::witness::get_mod_vals(&d, &n3);
    let base = big_add(&wit.remainder, &two);
    (base, wit)
}

/// The cheap native primality check the search loop runs: no witnesses
/// are recorded.
pub fn fermat_test(
    n: &BigUint,
    randomness: &BigUint,
    kcount: usize,
    width: usize,
    p: &BigUint,
) -> (r: bool)
    requires
        big_value(*randomness) < fr_modulus(),
        big_value(*p) == fr_modulus(),
        big_value(*n) < pow2(width as nat),
    ensures
        r == fermat_passes(big_value(*n), big_value(*randomness), kcount as nat),
{
    let ghost nv = big_value(*n);
    let ghost rv = big_value(*randomness);
    let one = big_from_u64(1);
    let two = big_from_u64(2);
    let four = big_from_u64(4);
    if big_lt(n, &two) {
        return false;
    }
    if big_lt(n, &four) {
        return true;
    }
    let (_, parity) = big_div_rem(n, &two);
    if big_eq(&parity, &crate::bigint::big_from_u64(0)) {
        return false;
    }
    let nm1 = big_sub(n, &one);
    let mut k: usize = 0;
    while k < kcount
        invariant
            k <= kcount,
            nv == big_value(*n),
            rv == big_value(*randomness),
            nv >= 4,
            nv % 2 != 0,
            nv < pow2(width as nat),
            big_value(*p) == fr_modulus(),
            rv < fr_modulus(),
            big_value(one) == 1,
            big_value(nm1) == nv - 1,
            forall|kk: nat| kk < k ==> fermat_base_passes(nv, rv, kk),
        decreases kcount - k,
    {
        let (base, _) = derive_base(randomness, k as u64, n, p);
        let ew = mod_pow_generate_witnesses(&base, n, &nm1, width);
        proof {
            crate::witness::lemma_small_exponent_exact((nv - 1) as nat, width as nat);
        }
        if !big_eq(&ew.result, &one) {
            proof {
                assert(!fermat_base_passes(nv, rv, k as nat));
            }
            return false;
        }
        k = k + 1;
    }
    true
}

/// Builds the `num_bases` Fermat instances for the winning candidate and
/// the combined primality bit.  Fails with `InputError` on an unusable
/// configuration, and with `WitnessError` exactly when the modulus is too
/// small, even, or out of trace range, so that no base range or exact
/// exponent trace exists.
pub fn fermat_constructor(
    randomness: &BigUint,
    n: &BigUint,
    cfg: CircuitConfig,
    p: &BigUint,
) -> (res: Result<(Vec<FermatInstance>, bool), PrimeSnarkError>)
    requires
        big_value(*randomness) < fr_modulus(),
        big_value(*p) == fr_modulus(),
    ensures
        match res {
            Ok(out) => {
                &&& valid_config(cfg)
                &&& big_value(*n) >= 5
                &&& big_value(*n) % 2 == 1
                &&& big_value(*n) < pow2(cfg.bit_width as nat)
                &&& out.0@.len() == cfg.num_bases
                &&& forall|k: int|
                    0 <= k < cfg.num_bases ==> (#[trigger] out.0@[k]).wf_for(
                        big_value(*n),
                        big_value(*randomness),
                        k as nat,
                        cfg.bit_width as nat,
                    )
                &&& out.1 == fermat_passes(
                    big_value(*n),
                    big_value(*randomness),
                    cfg.num_bases as nat,
                )
            },
            Err(e) => {
                &&& (e == PrimeSnarkError::InputError <==> !valid_config(cfg))
                &&& (valid_config(cfg) ==> e == PrimeSnarkError::WitnessError && !(big_value(*n)
                    >= 5 && big_value(*n) % 2 == 1 && big_value(*n) < pow2(cfg.bit_width as nat)))
            },
        },
{
    let ghost nv = big_value(*n);
    let ghost rv = big_value(*randomness);
    if !check_config(&cfg) {
        return Err(PrimeSnarkError::InputError);
    }
    let five = big_from_u64(5);
    let two = big_from_u64(2);
    let one = big_from_u64(1);
    if big_lt(n, &five) {
        return Err(PrimeSnarkError::WitnessError);
    }
    let (_, parity) = big_div_rem(n, &two);
    if big_eq(&parity, &crate::bigint::big_from_u64(0)) {
        return Err(PrimeSnarkError::WitnessError);
    }
    let maxval = get_max_val(cfg.bit_width);
    if !big_lt(n, &maxval) {
        return Err(PrimeSnarkError::WitnessError);
    }
    let nm1 = big_sub(n, &one);
    let mut instances: Vec<FermatInstance> = Vec::new();
    let mut all_pass = true;
    let mut k: usize = 0;
    while k < cfg.num_bases
        invariant
            k <= cfg.num_bases,
            nv == big_value(*n),
            rv == big_value(*randomness),
            nv >= 5,
            nv % 2 == 1,
            nv < pow2(cfg.bit_width as nat),
            big_value(*p) == fr_modulus(),
            rv < fr_modulus(),
            big_value(one) == 1,
            big_value(nm1) == nv - 1,
            instances@.len() == k,
            forall|kk: int|
                0 <= kk < k ==> (#[trigger] instances@[kk]).wf_for(
                    nv,
                    rv,
                    kk as nat,
                    cfg.bit_width as nat,
                ),
            all_pass == (forall|kk: nat| kk < k ==> fermat_base_passes(nv, rv, kk)),
        decreases cfg.num_bases - k,
    {
        let ghost all0 = all_pass;
        let (base, wit) = derive_base(randomness, k as u64, n, p);
        let ew = mod_pow_generate_witnesses(&base, n, &nm1, cfg.bit_width);
        proof {
            crate::witness::lemma_small_exponent_exact((nv - 1) as nat, cfg.bit_width as nat);
        }
        let ok = big_eq(&ew.result, &one);
        let inst = FermatInstance {
            n: big_clone(n),
            base_derivation: wit,
            base,
            witness: ew,
            result_is_one: ok,
        };
        proof {
            assert(inst.wf_for(nv, rv, k as nat, cfg.bit_width as nat));
            assert(ok == fermat_base_passes(nv, rv, k as nat));
        }
        all_pass = all_pass && ok;
        instances.push(inst);
        k = k + 1;
        proof {
            assert(all_pass == (forall|kk: nat| kk < k ==> fermat_base_passes(nv, rv, kk))) by {
                if all_pass {
                    assert(forall|kk: nat| kk < k - 1 ==> fermat_base_passes(nv, rv, kk));
                    assert(fermat_base_passes(nv, rv, (k - 1) as nat));
                } else {
                    if !all0 {
                        let ghost bad = choose|kk: nat|
                            kk < k - 1 && !fermat_base_passes(nv, rv, kk);
                        assert(bad < k && !fermat_base_passes(nv, rv, bad));
                    } else {
                        assert(!fermat_base_passes(nv, rv, (k - 1) as nat));
                    }
                }
            }
        }
    }
    Ok((instances, all_pass))
}

/// Derivation equivalence law: for an honest instance, the base value the
/// circuit binds - the folded remainder plus two, over the field - is
/// exactly the natively derived base.  The native pipeline and the
/// circuit-facing witness agree because both go through the one
/// derivation definition.
pub proof fn lemma_native_circuit_base_agree(
    n: nat,
    r: nat,
    k: nat,
    w: nat,
    fi: FermatInstance,
)
    requires
        fi.wf_for(n, r, k, w),
        5 <= n < fr_modulus(),
    ensures
        (crate::gadget::fr_red(big_value(fi.base_derivation.remainder)) + 2) % fr_modulus()
            == base_value(r, k, n),
        base_value(r, k, n) == big_value(fi.base),
{
    let p = fr_modulus();
    let drem = big_value(fi.base_derivation.remainder);
    let dq = big_value(fi.base_derivation.quotient);
    let dval = crate::hash::derive_spec(r, k);
    vstd::arithmetic::div_mod::lemma_small_mod(drem, p);
    assert(dval % ((n - 3) as nat) == drem) by {
        vstd::arithmetic::div_mod::lemma_fundamental_div_mod_converse(
            dval as int,
            (n - 3) as int,
            dq as int,
            drem as int,
        );
    }
    vstd::arithmetic::div_mod::lemma_small_mod((drem + 2) as nat, p);
}

} // verus!
