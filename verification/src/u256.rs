//! 256-bit unsigned integers: amounts of wei, amounts of gas and the pool's internal nonces.

use vstd::prelude::*;

verus! {

/// The four 64-bit digits of a 256-bit number, least significant first.
pub type Limbs = (u64, u64, u64, u64);

/// A 256-bit unsigned integer.
///
/// The digits are the ones of `ethers::types::U256`, in the same order; arithmetic on them is done
/// there.
#[derive(Clone, Copy, Debug, PartialEq, Eq)]
pub struct U256 {
    /// The digits, least significant first.
    pub limbs: Limbs,
}

/// The base in which the digits are written: two to the power of 64.
pub open spec fn word() -> nat {
    0x1_0000_0000_0000_0000
}

/// The first natural number that 256 bits cannot hold.
pub open spec fn modulus() -> nat {
    0x1_0000_0000_0000_0000_0000_0000_0000_0000_0000_0000_0000_0000_0000_0000_0000_0000nat
}

/// The number that four digits stand for.
pub open spec fn value(limbs: Limbs) -> nat {
    limbs.0 as nat + limbs.1 as nat * 0x1_0000_0000_0000_0000 + limbs.2 as nat
        * 0x1_0000_0000_0000_0000_0000_0000_0000_0000nat + limbs.3 as nat
        * 0x1_0000_0000_0000_0000_0000_0000_0000_0000_0000_0000_0000_0000nat
}

/// The four digits of a number.
pub open spec fn digits(n: nat) -> Limbs {
    (
        (n % word()) as u64,
        (n / word() % word()) as u64,
        (n / word() / word() % word()) as u64,
        (n / word() / word() / word() % word()) as u64,
    )
}

impl View for U256 {
    type V = nat;

    open spec fn view(&self) -> nat {
        value(self.limbs)
    }
}

/// Four digits stand for a number below `modulus()`, and are the digits of that number.
pub proof fn lemma_digits_of_value(limbs: Limbs)
    ensures
        value(limbs) < modulus(),
        digits(value(limbs)) == limbs,
{
    let w = word();
    let n = value(limbs);
    let n1 = limbs.1 as nat + limbs.2 as nat * w + limbs.3 as nat
        * 0x1_0000_0000_0000_0000_0000_0000_0000_0000nat;
    let n2 = limbs.2 as nat + limbs.3 as nat * w;
    assert(n == limbs.0 as nat + n1 * w);
    assert(n % w == limbs.0 as nat && n / w == n1);
    assert(n1 == limbs.1 as nat + n2 * w);
    assert(n1 % w == limbs.1 as nat && n1 / w == n2);
    assert(n2 % w == limbs.2 as nat && n2 / w == limbs.3 as nat);
}

/// The digits of a number below `modulus()` stand for that number.
pub proof fn lemma_value_of_digits(n: nat)
    requires
        n < modulus(),
    ensures
        value(digits(n)) == n,
{
    let w = word();
    let n1 = n / w;
    let n2 = n1 / w;
    let n3 = n2 / w;
    assert(n == n % w + n1 * w);
    assert(n1 == n1 % w + n2 * w);
    assert(n2 == n2 % w + n3 * w);
    assert(n3 < w);
}

/// A map from digits, seen as a map from the numbers that the digits stand for.
pub open spec fn by_value<V>(m: Map<Limbs, V>) -> Map<nat, V> {
    Map::new(|n: nat| n < modulus() && m.contains_key(digits(n)), |n: nat| m[digits(n)])
}

/// `by_value` holds under a number what the map holds under its digits.
pub proof fn lemma_by_value_lookup<V>(m: Map<Limbs, V>, key: U256)
    ensures
        by_value(m).contains_key(key@) <==> m.contains_key(key.limbs),
        m.contains_key(key.limbs) ==> by_value(m)[key@] == m[key.limbs],
{
    lemma_digits_of_value(key.limbs);
}

/// To insert under the digits of a number is to insert under the number.
pub proof fn lemma_by_value_insert<V>(m: Map<Limbs, V>, key: U256, v: V)
    ensures
        by_value(m.insert(key.limbs, v)) == by_value(m).insert(key@, v),
{
    lemma_digits_of_value(key.limbs);
    let left = by_value(m.insert(key.limbs, v));
    let right = by_value(m).insert(key@, v);
    assert forall|n: nat| left.contains_key(n) == right.contains_key(n) && (left.contains_key(n)
        ==> left[n] == right[n]) by {
        if n < modulus() {
            lemma_value_of_digits(n);
        }
    }
    assert(left =~= right);
}

/// To remove the digits of a number is to remove the number.
pub proof fn lemma_by_value_remove<V>(m: Map<Limbs, V>, key: U256)
    ensures
        by_value(m.remove(key.limbs)) == by_value(m).remove(key@),
{
    lemma_digits_of_value(key.limbs);
    let left = by_value(m.remove(key.limbs));
    let right = by_value(m).remove(key@);
    assert forall|n: nat| left.contains_key(n) == right.contains_key(n) && (left.contains_key(n)
        ==> left[n] == right[n]) by {
        if n < modulus() {
            lemma_value_of_digits(n);
        }
    }
    assert(left =~= right);
}

/// A map is empty where `by_value` of it is, and finite where it is.
pub proof fn lemma_by_value_extent<V>(m: Map<Limbs, V>)
    ensures
        m.is_empty() <==> by_value(m).is_empty(),
        m.dom().finite() ==> by_value(m).dom().finite(),
{
    let f = |l: Limbs| value(l);
    assert forall|l: Limbs| m.contains_key(l) implies by_value(m).contains_key(#[trigger] f(l)) by {
        lemma_digits_of_value(l);
    }
    assert forall|n: nat| by_value(m).contains_key(n) implies m.dom().map(f).contains(n) by {
        lemma_value_of_digits(n);
        assert(m.dom().contains(digits(n)) && f(digits(n)) == n);
    }
    if m.is_empty() {
        assert(by_value(m) =~= Map::empty());
    } else {
        let l = choose|l: Limbs| m.contains_key(l);
        assert(by_value(m).contains_key(f(l)));
    }
    if m.dom().finite() {
        m.dom().lemma_map_finite(f);
        vstd::set_lib::lemma_set_subset_finite(m.dom().map(f), by_value(m).dom());
    }
}

impl vstd::std_specs::convert::FromSpecImpl<u64> for U256 {
    open spec fn obeys_from_spec() -> bool {
        true
    }

    open spec fn from_spec(v: u64) -> U256 {
        U256 { limbs: (v, 0, 0, 0) }
    }
}

impl From<u64> for U256 {
    fn from(v: u64) -> (r: U256) {
        U256 { limbs: (v, 0, 0, 0) }
    }
}

/// Digits count by their place: the first one counts as it is, and the others stand for a number
/// that counts two to the power of 64 times. No digits but zeros make zero.
pub proof fn law_digits_count_by_place(a: u64, b: u64, c: u64, d: u64)
    ensures
        (U256 { limbs: (0, 0, 0, 0) })@ == 0,
        (U256 { limbs: (a, b, c, d) })@ == a + 0x1_0000_0000_0000_0000 * (U256 {
            limbs: (b, c, d, 0),
        })@,
{
}

/// Two numbers of the same value are the same number.
pub proof fn law_value_tells_numbers_apart(a: U256, b: U256)
    requires
        a@ == b@,
    ensures
        a == b,
{
    lemma_digits_of_value(a.limbs);
    lemma_digits_of_value(b.limbs);
}

/// The largest number is the one with the largest digits; the next one no longer fits. Every
/// smaller one has digits.
pub proof fn law_largest_number(n: nat)
    ensures
        (U256 { limbs: (u64::MAX, u64::MAX, u64::MAX, u64::MAX) })@ + 1 == modulus(),
        n < modulus() <==> exists|key: U256| key@ == n,
{
    if n < modulus() {
        lemma_value_of_digits(n);
        assert((U256 { limbs: digits(n) })@ == n);
    }
    assert forall|key: U256| key@ == n implies n < modulus() by {
        lemma_digits_of_value(key.limbs);
    }
}

/// A 64-bit number keeps its value.
pub proof fn law_conversion_keeps_value(v: u64)
    ensures
        <U256 as vstd::std_specs::convert::FromSpec<u64>>::from_spec(v)@ == v,
{
}

/// A map from digits holds under a number what it holds under the digits of that number, and
/// nothing else.
pub proof fn law_by_value_is_the_same_map<V>(m: Map<Limbs, V>, n: nat)
    ensures
        by_value(m).contains_key(n) <==> exists|key: U256|
            key@ == n && #[trigger] m.contains_key(key.limbs),
        forall|key: U256|
            key@ == n && #[trigger] m.contains_key(key.limbs) ==> by_value(m)[n] == m[key.limbs],
{
    if by_value(m).contains_key(n) {
        lemma_value_of_digits(n);
        let key = U256 { limbs: digits(n) };
        assert(key@ == n && m.contains_key(key.limbs));
    }
    assert forall|key: U256| key@ == n && #[trigger] m.contains_key(key.limbs) implies by_value(
        m,
    ).contains_key(n) && by_value(m)[n] == m[key.limbs] by {
        lemma_by_value_lookup(m, key);
    }
}

impl U256 {
    /// The sum of two numbers, by `+` on `ethers::types::U256`.
    ///
    /// Where 256 bits hold the sum, `+` returns it. Where they do not, it panics, so such operands
    /// are left out.
    #[verifier::external_body]
    pub(crate) fn plus(self, other: U256) -> (r: U256)
        requires
            self@ + other@ < modulus(),
        ensures
            r@ == self@ + other@,
    {
        let (a, b) = (self.limbs, other.limbs);
        let sum = ethers::types::U256([a.0, a.1, a.2, a.3])
            + ethers::types::U256([b.0, b.1, b.2, b.3]);
        U256 { limbs: (sum.0[0], sum.0[1], sum.0[2], sum.0[3]) }
    }

    /// The difference of two numbers, by `-` on `ethers::types::U256`.
    ///
    /// Where the second number is not the larger one, `-` returns the difference. Otherwise it
    /// panics, so such operands are left out.
    #[verifier::external_body]
    pub(crate) fn minus(self, other: U256) -> (r: U256)
        requires
            other@ <= self@,
        ensures
            r@ == self@ - other@,
    {
        let (a, b) = (self.limbs, other.limbs);
        let rest = ethers::types::U256([a.0, a.1, a.2, a.3])
            - ethers::types::U256([b.0, b.1, b.2, b.3]);
        U256 { limbs: (rest.0[0], rest.0[1], rest.0[2], rest.0[3]) }
    }

    /// The product of two numbers, by `*` on `ethers::types::U256`.
    ///
    /// Where 256 bits hold the product, `*` returns it. Where they do not, it panics, so such
    /// operands are left out.
    #[verifier::external_body]
    pub(crate) fn times(self, other: U256) -> (r: U256)
        requires
            self@ * other@ < modulus(),
        ensures
            r@ == self@ * other@,
    {
        let (a, b) = (self.limbs, other.limbs);
        let product = ethers::types::U256([a.0, a.1, a.2, a.3])
            * ethers::types::U256([b.0, b.1, b.2, b.3]);
        U256 { limbs: (product.0[0], product.0[1], product.0[2], product.0[3]) }
    }

    /// The product of two numbers where 256 bits hold it, by `checked_mul` of
    /// `ethers::types::U256`.
    ///
    /// `checked_mul` returns the product where 256 bits hold it, and `None` where they do not.
    #[verifier::external_body]
    pub(crate) fn checked_times(self, other: U256) -> (r: Option<U256>)
        ensures
            r is Some <==> self@ * other@ < modulus(),
            r matches Some(product) ==> product@ == self@ * other@,
    {
        let (a, b) = (self.limbs, other.limbs);
        let product = ethers::types::U256([a.0, a.1, a.2, a.3]).checked_mul(
            ethers::types::U256([b.0, b.1, b.2, b.3]),
        );
        product.map(|p| U256 { limbs: (p.0[0], p.0[1], p.0[2], p.0[3]) })
    }

    /// Whether this number is no smaller than the other, by `>=` on `ethers::types::U256`.
    ///
    /// `>=` compares the numbers that the digits stand for.
    #[verifier::external_body]
    pub(crate) fn at_least(self, other: U256) -> (r: bool)
        ensures
            r == (self@ >= other@),
    {
        let (a, b) = (self.limbs, other.limbs);
        ethers::types::U256([a.0, a.1, a.2, a.3]) >= ethers::types::U256([b.0, b.1, b.2, b.3])
    }
}

} // verus!
