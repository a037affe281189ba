//! Per-row-group bloom filters over primary-key bytes.
//!
//! The filter itself is the 2048-bit bloom of the `ethbloom` crate; this
//! module pins down what inserting and probing do to its bit set, and
//! proves that a probe never denies a key that was inserted.

use vstd::prelude::*;

verus! {

#[verifier::external_type_specification]
#[verifier::external_body]
pub struct ExBloom(ethbloom::Bloom);

/// The bits set in a bloom value.
pub uninterp spec fn bloom_bits(b: ethbloom::Bloom) -> Set<int>;

/// The three bit positions a byte string drives into a bloom: a function
/// of the bytes alone, through their keccak-256 digest.
pub uninterp spec fn bloom_pattern(data: Seq<u8>) -> Set<int>;

/// Relies on ethbloom::Bloom::default: a bloom with no bit set.
#[verifier::external_body]
fn bloom_new() -> (r: ethbloom::Bloom)
    ensures
        bloom_bits(r) == Set::<int>::empty(),
{
    ethbloom::Bloom::default()
}

/// Relies on ethbloom::Bloom::accrue: it ors into the bloom the three
/// bits driven by the keccak-256 digest of the input bytes.
#[verifier::external_body]
fn bloom_accrue(b: &mut ethbloom::Bloom, data: &Vec<u8>)
    ensures
        bloom_bits(*final(b)) == bloom_bits(*old(b)).union(bloom_pattern(data@)),
{
    b.accrue(ethbloom::Input::Raw(data.as_slice()));
}

/// Relies on ethbloom::Bloom::contains_input: it reports whether every
/// bit the input drives is set in the bloom.
#[verifier::external_body]
fn bloom_contains(b: &ethbloom::Bloom, data: &Vec<u8>) -> (r: bool)
    ensures
        r == bloom_pattern(data@).subset_of(bloom_bits(*b)),
{
    b.contains_input(ethbloom::Input::Raw(data.as_slice()))
}

/// A bloom filter over the keys of one row group. Probing a key that was
/// inserted always answers "possibly present".
pub struct BloomFilter {
    filter: ethbloom::Bloom,
    /// The keys inserted so far.
    keys: Ghost<Set<Seq<u8>>>,
}

impl BloomFilter {
    /// The keys inserted so far.
    pub closed spec fn spec_keys(&self) -> Set<Seq<u8>> {
        self.keys@
    }

    /// Every inserted key's bits stay set in the filter.
    pub closed spec fn inv(&self) -> bool {
        forall|k: Seq<u8>|
            self.keys@.contains(k) ==> (#[trigger] bloom_pattern(k)).subset_of(
                bloom_bits(self.filter),
            )
    }

    /// An empty filter.
    pub fn new() -> (r: Self)
        ensures
            r.inv(),
            r.spec_keys() == Set::<Seq<u8>>::empty(),
    {
        BloomFilter { filter: bloom_new(), keys: Ghost(Set::empty()) }
    }

    /// Record a key.
    pub fn insert(&mut self, key: &Vec<u8>)
        requires
            old(self).inv(),
        ensures
            final(self).inv(),
            final(self).spec_keys() == old(self).spec_keys().insert(key@),
    {
        bloom_accrue(&mut self.filter, key);
        proof {
            self.keys@ = self.keys@.insert(key@);
            assert forall|k: Seq<u8>| self.keys@.contains(k) implies (
            #[trigger] bloom_pattern(k)).subset_of(bloom_bits(self.filter)) by {
                if k == key@ {
                    assert(bloom_pattern(k).subset_of(
                        bloom_bits(self.filter),
                    ));
                }
            }
        }
    }

    /// Probe a key: an inserted key always answers "possibly present";
    /// any other key may collide, so a positive answer promises nothing.
    pub fn probe(&self, key: &Vec<u8>) -> (r: bool)
        requires
            self.inv(),
        ensures
            self.spec_keys().contains(key@) ==> r,
    {
        bloom_contains(&self.filter, key)
    }
}

} // verus!
