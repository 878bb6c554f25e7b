//! Cuckoo filter: a set of short fingerprints, each in one of two buckets
//! of four slots, that answers "possibly present" or "certainly absent"
//! and supports removal.
use vstd::prelude::*;
use vstd::string::{StringExecFns, StringSliceAdditionalSpecFns};
use vstd::utf8::encode_utf8;
use crate::str_map::StrMap;
use crate::digest::{hex_text, sha256_hex};
use crate::text::same_text;
use crate::digest::{sha256, sha256_of};
use crate::file_kv::types::u64_from_le;

verus! {

/// Slots per bucket.
pub const BUCKET_SIZE: usize = 4;

/// A fingerprint; zero marks no fingerprint.
pub type Fingerprint = u16;

/// A bucket of four slots.
pub type Bucket = [Option<u16>; 4];

/// `rand::random::<bool>()`: a random flag. Nothing is stated of it.
#[verifier::external_body]
fn random_flag() -> bool {
    rand::random::<bool>()
}

/// `rand::random::<usize>()`: a random number. Nothing is stated of it.
#[verifier::external_body]
fn random_number() -> usize {
    rand::random::<usize>()
}

/// The bytes hashed for the first index of an item.
pub open spec fn index1_tag() -> Seq<u8> {
    seq![105u8, 110u8, 100u8, 101u8, 120u8, 49u8, 95u8]
}

/// The fingerprint of an item with bytes `item`, for `bits` fingerprint
/// bits: the low `bits` bits of the first two digest bytes read
/// little-endian, with zero turned into one.
pub open spec fn fingerprint_of(item: Seq<u8>, bits: usize) -> u16 {
    let h = sha256_of(item);
    let fp = ((h[0] as u16) | ((h[1] as u16) << 8u16)) & (((1u16 << (bits as u16)) - 1) as u16);
    if fp == 0 { 1 } else { fp }
}

/// The bucket an item with bytes `item` hashes to under the tag `tag`:
/// the first eight digest bytes read little-endian, modulo the bucket
/// count.
pub open spec fn index_of(tag: Seq<u8>, item: Seq<u8>, num_buckets: usize) -> usize {
    ((u64_from_le(sha256_of(tag + item), 0) as usize) as int % (num_buckets as int)) as usize
}

/// The digest of fingerprint `fp`, taken as a bucket number: the first
/// eight digest bytes of its two little-endian bytes, read little-endian,
/// modulo the bucket count.
pub open spec fn fingerprint_bucket(fp: u16, num_buckets: usize) -> int {
    let fp_bytes = seq![(fp & 0xff) as u8, ((fp >> 8u16) & 0xff) as u8];
    (u64_from_le(sha256_of(fp_bytes), 0) as usize) as int % (num_buckets as int)
}

/// The partner of bucket `b` for fingerprint `fp`: the fingerprint's bucket
/// number minus `b`, modulo the bucket count. The partner of the partner is
/// `b` again, so a fingerprint moved out of either bucket of its pair goes
/// to the other one.
pub open spec fn alternate_of(b: usize, fp: u16, num_buckets: usize) -> usize {
    let h = fingerprint_bucket(fp, num_buckets);
    if h >= b {
        (h - b) as usize
    } else {
        (h + num_buckets - b) as usize
    }
}

/// Whether bucket `b` is one of the two buckets of the item with bytes `x`.
pub open spec fn in_pair(x: Seq<u8>, b: usize, bits: usize, num_buckets: usize) -> bool {
    let a = index_of(index1_tag(), x, num_buckets);
    b == a || b == alternate_of(a, fingerprint_of(x, bits), num_buckets)
}

/// Whether one of the two buckets of the item with bytes `x` holds its
/// fingerprint in the table `bs`.
pub open spec fn pair_holds(bs: Seq<Bucket>, x: Seq<u8>, bits: usize, num_buckets: usize) -> bool {
    let fp = fingerprint_of(x, bits);
    let a = index_of(index1_tag(), x, num_buckets);
    bucket_has(bs[a as int], fp) || bucket_has(bs[alternate_of(a, fp, num_buckets) as int], fp)
}

proof fn lemma_alternate(b: usize, fp: u16, num_buckets: usize)
    requires
        b < num_buckets,
    ensures
        alternate_of(b, fp, num_buckets) < num_buckets,
        alternate_of(alternate_of(b, fp, num_buckets), fp, num_buckets) == b,
{
    let h = fingerprint_bucket(fp, num_buckets);
    assert(0 <= h < num_buckets);
}

proof fn lemma_index_bound(x: Seq<u8>, num_buckets: usize)
    requires
        num_buckets > 0,
    ensures
        index_of(index1_tag(), x, num_buckets) < num_buckets,
{
}

/// A bucket of a pair, moved to its partner, stays in the pair.
proof fn lemma_pair_partner(x: Seq<u8>, b: usize, bits: usize, num_buckets: usize)
    requires
        num_buckets > 0,
        in_pair(x, b, bits, num_buckets),
    ensures
        in_pair(x, alternate_of(b, fingerprint_of(x, bits), num_buckets), bits, num_buckets),
{
    let a = index_of(index1_tag(), x, num_buckets);
    lemma_index_bound(x, num_buckets);
    lemma_alternate(a, fingerprint_of(x, bits), num_buckets);
}

/// A table that only gains fingerprints in bucket `i` keeps every item it
/// held.
proof fn lemma_gain(t: Seq<Bucket>, u: Seq<Bucket>, i: int, bits: usize, num_buckets: usize)
    requires
        0 <= i < t.len(),
        t.len() == num_buckets,
        u == t.update(i, u[i]),
        forall|f: u16| bucket_has(t[i], f) ==> bucket_has(u[i], f),
    ensures
        forall|x: Seq<u8>| pair_holds(t, x, bits, num_buckets) ==> #[trigger] pair_holds(u, x, bits, num_buckets),
{
    assert forall|x: Seq<u8>| pair_holds(t, x, bits, num_buckets) implies #[trigger] pair_holds(u, x, bits, num_buckets) by {
        let fp = fingerprint_of(x, bits);
        let a = index_of(index1_tag(), x, num_buckets);
        let c = alternate_of(a, fp, num_buckets);
        lemma_index_bound(x, num_buckets);
        lemma_alternate(a, fp, num_buckets);
        if a == i {
            assert(bucket_has(t[i], fp) ==> bucket_has(u[i], fp));
        }
        if c == i {
            assert(bucket_has(t[i], fp) ==> bucket_has(u[i], fp));
        }
    }
}

/// Whether bucket `b` holds fingerprint `fp`.
pub open spec fn bucket_has(b: Bucket, fp: u16) -> bool {
    b@.contains(Some(fp))
}

/// Whether bucket `b` has a free slot.
pub open spec fn bucket_has_room(b: Bucket) -> bool {
    b@.contains(None)
}

/// Number of occupied slots of `b`.
pub open spec fn bucket_load(b: Bucket) -> nat {
    (if b@[0] is Some { 1nat } else { 0nat }) + (if b@[1] is Some { 1nat } else { 0nat })
        + (if b@[2] is Some { 1nat } else { 0nat }) + (if b@[3] is Some { 1nat } else { 0nat })
}

/// Number of occupied slots of all buckets.
pub open spec fn load(bs: Seq<Bucket>) -> nat
    decreases bs.len(),
{
    if bs.len() == 0 {
        0
    } else {
        load(bs.drop_last()) + bucket_load(bs.last())
    }
}

proof fn lemma_load_update(bs: Seq<Bucket>, i: int, b: Bucket)
    requires
        0 <= i < bs.len(),
    ensures
        load(bs.update(i, b)) == load(bs) - bucket_load(bs[i]) + bucket_load(b),
    decreases bs.len(),
{
    if i < bs.len() - 1 {
        lemma_load_update(bs.drop_last(), i, b);
        assert(bs.update(i, b).drop_last() =~= bs.drop_last().update(i, b));
    } else {
        assert(bs.update(i, b).drop_last() =~= bs.drop_last());
    }
}

proof fn lemma_load_bucket(bs: Seq<Bucket>, i: int)
    requires
        0 <= i < bs.len(),
    ensures
        bucket_load(bs[i]) <= load(bs),
    decreases bs.len(),
{
    if i < bs.len() - 1 {
        lemma_load_bucket(bs.drop_last(), i);
    }
}

fn with_slot(b: Bucket, s: usize, v: Option<u16>) -> (r: Bucket)
    requires
        s < 4,
    ensures
        r@ == b@.update(s as int, v),
{
    let r = [
        if s == 0 { v } else { b[0] },
        if s == 1 { v } else { b[1] },
        if s == 2 { v } else { b[2] },
        if s == 3 { v } else { b[3] },
    ];
    assert(r@ =~= b@.update(s as int, v));
    r
}

fn empty_bucket() -> (b: Bucket)
    ensures
        b@ == seq![None::<u16>, None, None, None],
{
    let b = [None, None, None, None];
    assert(b@ =~= seq![None::<u16>, None, None, None]);
    b
}

fn le_u64(d: &Vec<u8>) -> (x: u64)
    requires
        d@.len() >= 8,
    ensures
        x == u64_from_le(d@, 0),
{
    (d[0] as u64) | ((d[1] as u64) << 8u64) | ((d[2] as u64) << 16u64) | ((d[3] as u64) << 24u64)
        | ((d[4] as u64) << 32u64) | ((d[5] as u64) << 40u64) | ((d[6] as u64) << 48u64) | ((d[7]
        as u64) << 56u64)
}

/// A cuckoo filter of string items.
pub struct CuckooFilter {
    buckets: Vec<Bucket>,
    num_buckets: usize,
    max_kicks: usize,
    fingerprint_bits: usize,
    item_count: usize,
}

/// Figures of a cuckoo filter.
#[derive(Debug, Clone, Copy)]
pub struct CuckooCounts {
    /// Number of buckets.
    pub num_buckets: usize,
    /// Number of stored fingerprints.
    pub item_count: usize,
    /// Fingerprint length in bits.
    pub fingerprint_bits: usize,
}

impl CuckooFilter {
    /// The buckets.
    pub closed spec fn table(&self) -> Seq<Bucket> {
        self.buckets@
    }

    /// Number of buckets.
    pub closed spec fn bucket_count(&self) -> usize {
        self.num_buckets
    }

    /// Fingerprint length in bits.
    pub closed spec fn bits(&self) -> usize {
        self.fingerprint_bits
    }

    /// Bound on displacements per insertion.
    pub closed spec fn kicks(&self) -> usize {
        self.max_kicks
    }

    /// Number of stored fingerprints.
    pub closed spec fn count(&self) -> usize {
        self.item_count
    }

    /// The filter's bookkeeping holds: one bucket per bucket number, a
    /// fingerprint length below sixteen, and the count equal to the number
    /// of occupied slots.
    pub closed spec fn wf(&self) -> bool {
        &&& self.buckets@.len() == self.num_buckets
        &&& self.fingerprint_bits < 16
        &&& self.item_count == load(self.buckets@)
    }

    /// The fingerprint of `item`.
    pub open spec fn fp_of(&self, item: &str) -> u16 {
        fingerprint_of(item.spec_bytes(), self.bits())
    }

    /// The first bucket of `item`.
    pub open spec fn first_index(&self, item: &str) -> usize {
        index_of(index1_tag(), item.spec_bytes(), self.bucket_count())
    }

    /// The second bucket of `item`: the partner of its first bucket for
    /// its fingerprint.
    pub open spec fn second_index(&self, item: &str) -> usize {
        alternate_of(self.first_index(item), self.fp_of(item), self.bucket_count())
    }

    /// Whether the filter answers that the item with bytes `x` may be
    /// present: one of its two buckets holds its fingerprint.
    pub open spec fn holds_bytes(&self, x: Seq<u8>) -> bool {
        pair_holds(self.table(), x, self.bits(), self.bucket_count())
    }

    /// Whether the filter answers that `item` may be present.
    pub open spec fn holds(&self, item: &str) -> bool {
        self.holds_bytes(item.spec_bytes())
    }

    /// Whether the filter answers that the text `t` may be present.
    pub open spec fn holds_text(&self, t: Seq<char>) -> bool {
        self.holds_bytes(encode_utf8(t))
    }

    /// An empty filter of `num_buckets` buckets with `fingerprint_bits`-bit
    /// fingerprints, displacing at most `max_kicks` fingerprints per
    /// insertion.
    pub fn with_parameters(num_buckets: usize, fingerprint_bits: usize, max_kicks: usize) -> (f: Self)
        requires
            fingerprint_bits < 16,
        ensures
            f.wf(),
            f.bucket_count() == num_buckets,
            f.bits() == fingerprint_bits,
            f.kicks() == max_kicks,
            f.count() == 0,
            forall|i: int| 0 <= i < num_buckets ==> bucket_has_room(#[trigger] f.table()[i]),
    {
        let mut buckets: Vec<Bucket> = Vec::new();
        let mut i: usize = 0;
        while i < num_buckets
            invariant
                i <= num_buckets,
                buckets@.len() == i,
                forall|j: int| 0 <= j < i ==> (#[trigger] buckets@[j])@ == seq![None::<u16>, None, None, None],
                load(buckets@) == 0,
            decreases num_buckets - i,
        {
            let b = empty_bucket();
            let ghost before = buckets@;
            buckets.push(b);
            assert(buckets@.drop_last() =~= before);
            assert(bucket_load(b) == 0);
            i += 1;
        }
        proof {
            assert forall|j: int| 0 <= j < num_buckets implies bucket_has_room(buckets@[j]) by {
                assert(buckets@[j]@[0] is None);
            }
        }
        CuckooFilter { buckets, num_buckets, max_kicks, fingerprint_bits, item_count: 0 }
    }

    fn fingerprint(&self, item: &str) -> (fp: u16)
        requires
            self.wf(),
        ensures
            fp == self.fp_of(item),
            fp != 0,
    {
        let h = sha256(item.as_bytes());
        let bits = self.fingerprint_bits as u16;
        assert((1u16 << bits) >= 1) by (bit_vector)
            requires
                bits < 16;
        let mask: u16 = ((1u16 << bits) - 1) as u16;
        let fp = ((h[0] as u16) | ((h[1] as u16) << 8u16)) & mask;
        if fp == 0 { 1 } else { fp }
    }

    fn indices(&self, item: &str) -> (r: (usize, usize))
        requires
            self.wf(),
            self.bucket_count() > 0,
        ensures
            r.0 == self.first_index(item),
            r.1 == self.second_index(item),
            r.0 < self.bucket_count(),
            r.1 < self.bucket_count(),
    {
        let bytes = item.as_bytes();
        let mut d1: Vec<u8> = vec![105u8, 110u8, 100u8, 101u8, 120u8, 49u8, 95u8];
        assert(d1@ =~= index1_tag());
        append_bytes(&mut d1, bytes);
        let hash1 = sha256(d1.as_slice());
        let h1 = le_u64(&hash1);
        let i1 = (h1 as usize) % self.num_buckets;
        let fingerprint = self.fingerprint(item);
        let i2 = self.alternate_index(i1, fingerprint);
        (i1, i2)
    }

    fn alternate_index(&self, b: usize, fingerprint: u16) -> (i: usize)
        requires
            self.wf(),
            b < self.bucket_count(),
        ensures
            i == alternate_of(b, fingerprint, self.bucket_count()),
            i < self.bucket_count(),
    {
        let fp_bytes: Vec<u8> = vec![(fingerprint & 0xff) as u8, ((fingerprint >> 8u16) & 0xff) as u8];
        let hash = sha256(fp_bytes.as_slice());
        let h = (le_u64(&hash) as usize) % self.num_buckets;
        if h >= b {
            h - b
        } else {
            h + (self.num_buckets - b)
        }
    }

    fn try_insert_at(&mut self, bucket_idx: usize, fingerprint: u16) -> (placed: bool)
        requires
            old(self).wf(),
            bucket_idx < old(self).bucket_count(),
            old(self).count() < usize::MAX,
        ensures
            final(self).wf(),
            final(self).bucket_count() == old(self).bucket_count(),
            final(self).bits() == old(self).bits(),
            final(self).kicks() == old(self).kicks(),
            placed == bucket_has_room(old(self).table()[bucket_idx as int]),
            !placed ==> final(self).table() == old(self).table() && final(self).count() == old(self).count(),
            placed ==> final(self).count() == old(self).count() + 1 && bucket_has(
                final(self).table()[bucket_idx as int],
                fingerprint,
            ) && final(self).table() == old(self).table().update(bucket_idx as int, final(self).table()[bucket_idx as int]),
            forall|f: u16| bucket_has(old(self).table()[bucket_idx as int], f) ==> bucket_has(final(self).table()[bucket_idx as int], f),
    {
        let placed = try_place(&mut self.buckets, bucket_idx, fingerprint);
        if placed {
            self.item_count = self.item_count + 1;
        }
        placed
    }

    fn contains_at(&self, bucket_idx: usize, fingerprint: u16) -> (r: bool)
        requires
            bucket_idx < self.table().len(),
        ensures
            r == bucket_has(self.table()[bucket_idx as int], fingerprint),
    {
        slot_of(self.buckets[bucket_idx], fingerprint).is_some()
    }

    /// Whether `item` may be present; false means it certainly was not
    /// inserted, or was removed, or was displaced.
    pub fn contains(&self, item: &str) -> (r: bool)
        requires
            self.wf(),
            self.bucket_count() > 0,
        ensures
            r == self.holds(item),
    {
        let fingerprint = self.fingerprint(item);
        let (i1, i2) = self.indices(item);
        self.contains_at(i1, fingerprint) || self.contains_at(i2, fingerprint)
    }

    fn remove_at(&mut self, bucket_idx: usize, fingerprint: u16) -> (removed: bool)
        requires
            old(self).wf(),
            bucket_idx < old(self).bucket_count(),
        ensures
            final(self).wf(),
            final(self).bucket_count() == old(self).bucket_count(),
            final(self).bits() == old(self).bits(),
            final(self).kicks() == old(self).kicks(),
            removed == bucket_has(old(self).table()[bucket_idx as int], fingerprint),
            removed ==> final(self).table() == old(self).table().update(bucket_idx as int,
                without_fp(old(self).table()[bucket_idx as int], fingerprint)) && final(self).count()
                == old(self).count() - 1,
            !removed ==> final(self).table() == old(self).table() && final(self).count() == old(self).count(),
    {
        let b = self.buckets[bucket_idx];
        match slot_of(b, fingerprint) {
            Some(slot) => {
                let nb = with_slot(b, slot, None);
                proof {
                    assert(b@.contains(Some(fingerprint))) by { assert(b@[slot as int] == Some(fingerprint)); }
                    assert(nb == without_fp(b, fingerprint)) by {
                        assert(nb@ =~= without_fp(b, fingerprint)@);
                    }
                    lemma_load_update(self.buckets@, bucket_idx as int, nb);
                    lemma_load_bucket(self.buckets@, bucket_idx as int);
                }
                self.buckets.set(bucket_idx, nb);
                self.item_count = self.item_count - 1;
                true
            },
            None => false,
        }
    }

    /// Adds `item`. An item already reported present is left as it is.
    /// Otherwise its fingerprint goes to a free slot of its first bucket,
    /// else of its second; where both are full, stored fingerprints are
    /// displaced at random, each to the other bucket of its pair, at most
    /// the configured number of times. Returns false where no free slot was
    /// found; the filter is then left as it was. Every item reported present
    /// before stays reported present, and after a true answer so is `item`.
    pub fn insert(&mut self, item: &str) -> (r: bool)
        requires
            old(self).wf(),
            old(self).bucket_count() > 0,
            old(self).count() < usize::MAX,
        ensures
            final(self).wf(),
            final(self).bucket_count() == old(self).bucket_count(),
            final(self).bits() == old(self).bits(),
            final(self).kicks() == old(self).kicks(),
            r ==> final(self).holds(item),
            forall|x: Seq<u8>| old(self).holds_bytes(x) ==> #[trigger] final(self).holds_bytes(x),
            !r ==> final(self).table() == old(self).table(),
            old(self).holds(item) ==> r && final(self).table() == old(self).table(),
            !old(self).holds(item) && (bucket_has_room(old(self).table()[old(self).first_index(item) as int])
                || bucket_has_room(old(self).table()[old(self).second_index(item) as int])) ==> r,
            final(self).count() == if r && !old(self).holds(item) { old(self).count() + 1 } else { old(self).count() as int },
    {
        let fingerprint = self.fingerprint(item);
        let (i1, i2) = self.indices(item);
        let ghost xb = item.spec_bytes();
        let ghost bits = self.bits();
        let ghost n = self.bucket_count();
        let ghost t0 = self.table();
        if self.contains(item) {
            return true;
        }
        if self.try_insert_at(i1, fingerprint) {
            proof {
                lemma_gain(t0, self.table(), i1 as int, bits, n);
            }
            return true;
        }
        if self.try_insert_at(i2, fingerprint) {
            proof {
                lemma_gain(t0, self.table(), i2 as int, bits, n);
            }
            return true;
        }
        let mut t = copy_table(&self.buckets);
        let mut i = if random_flag() { i1 } else { i2 };
        let mut current_fp = fingerprint;
        let mut kick: usize = 0;
        proof {
            assert forall|x: Seq<u8>| #[trigger] kept(t0, t@, x, xb, current_fp, i, bits, n) by {}
        }
        while kick < self.max_kicks
            invariant
                self.wf(),
                self.table() == t0,
                t0 == old(self).table(),
                self.bucket_count() == old(self).bucket_count(),
                self.bits() == old(self).bits(),
                self.kicks() == old(self).kicks(),
                self.count() == old(self).count(),
                self.count() < usize::MAX,
                bits == self.bits(),
                n == self.bucket_count(),
                n > 0,
                t@.len() == n,
                load(t@) == self.count(),
                i < n,
                !old(self).holds(item),
                xb == item.spec_bytes(),
                forall|x: Seq<u8>| #[trigger] kept(t0, t@, x, xb, current_fp, i, bits, n),
            decreases self.max_kicks - kick,
        {
            let slot = random_number() % BUCKET_SIZE;
            let b = t[i];
            let ghost tp = t@;
            let ghost cp = current_fp;
            let ghost ip = i;
            match b[slot] {
                Some(old_fp) => {
                    let nb = with_slot(b, slot, Some(current_fp));
                    proof {
                        lemma_load_update(t@, i as int, nb);
                    }
                    t.set(i, nb);
                    current_fp = old_fp;
                    i = self.alternate_index(i, current_fp);
                    proof {
                        lemma_kick(tp, t@, t0, xb, cp, ip, slot as int, old_fp, bits, n);
                    }
                    let ghost tk = t@;
                    if try_place(&mut t, i, current_fp) {
                        proof {
                            lemma_settle(t0, tk, t@, xb, current_fp, i, bits, n);
                        }
                        self.buckets = t;
                        self.item_count = self.item_count + 1;
                        return true;
                    }
                },
                None => {
                    let nb = with_slot(b, slot, Some(current_fp));
                    proof {
                        lemma_load_update(t@, i as int, nb);
                        lemma_slot_keeps(b, nb, slot as int);
                    }
                    t.set(i, nb);
                    proof {
                        lemma_settle(t0, tp, t@, xb, current_fp, i, bits, n);
                    }
                    self.buckets = t;
                    self.item_count = self.item_count + 1;
                    return true;
                },
            }
            kick += 1;
        }
        false
    }

    /// Removes one fingerprint of `item` from its first bucket, else its
    /// second; false where neither holds it.
    pub fn remove(&mut self, item: &str) -> (r: bool)
        requires
            old(self).wf(),
            old(self).bucket_count() > 0,
        ensures
            final(self).wf(),
            final(self).bucket_count() == old(self).bucket_count(),
            final(self).bits() == old(self).bits(),
            final(self).kicks() == old(self).kicks(),
            r == old(self).holds(item),
            bucket_has(old(self).table()[old(self).first_index(item) as int], old(self).fp_of(item))
                ==> final(self).table() == old(self).table().update(old(self).first_index(item) as int,
                without_fp(old(self).table()[old(self).first_index(item) as int], old(self).fp_of(item))),
            !bucket_has(old(self).table()[old(self).first_index(item) as int], old(self).fp_of(item)) && r
                ==> final(self).table() == old(self).table().update(old(self).second_index(item) as int,
                without_fp(old(self).table()[old(self).second_index(item) as int], old(self).fp_of(item))),
            !r ==> final(self).table() == old(self).table(),
            final(self).count() == if r { old(self).count() - 1 } else { old(self).count() as int },
    {
        let fingerprint = self.fingerprint(item);
        let (i1, i2) = self.indices(item);
        if self.remove_at(i1, fingerprint) {
            return true;
        }
        self.remove_at(i2, fingerprint)
    }

    /// Number of stored fingerprints.
    pub fn len(&self) -> (n: usize)
        ensures
            n == self.count(),
    {
        self.item_count
    }

    /// Whether no fingerprint is stored.
    pub fn is_empty(&self) -> (b: bool)
        ensures
            b == (self.count() == 0),
    {
        self.item_count == 0
    }

    /// Empties every bucket.
    pub fn clear(&mut self)
        requires
            old(self).wf(),
        ensures
            final(self).wf(),
            final(self).bucket_count() == old(self).bucket_count(),
            final(self).bits() == old(self).bits(),
            final(self).kicks() == old(self).kicks(),
            final(self).count() == 0,
            final(self).table().len() == old(self).table().len(),
            forall|j: int| 0 <= j < final(self).table().len() ==> (#[trigger] final(self).table()[j])@ == seq![
                None::<u16>,
                None,
                None,
                None,
            ],
    {
        let mut j: usize = 0;
        while j < self.buckets.len()
            invariant
                j <= self.buckets@.len(),
                self.buckets@.len() == old(self).buckets@.len(),
                self.num_buckets == old(self).num_buckets,
                self.fingerprint_bits == old(self).fingerprint_bits,
                self.max_kicks == old(self).max_kicks,
                self.fingerprint_bits < 16,
                self.buckets@.len() == self.num_buckets,
                forall|k: int| 0 <= k < j ==> (#[trigger] self.buckets@[k])@ == seq![None::<u16>, None, None, None],
            decreases self.buckets@.len() - j,
        {
            let e = empty_bucket();
            self.buckets.set(j, e);
            j += 1;
        }
        self.item_count = 0;
        proof {
            lemma_load_empty(self.buckets@);
        }
    }

    /// The bucket count, fingerprint count and fingerprint length.
    pub fn counts(&self) -> (c: CuckooCounts)
        ensures
            c.num_buckets == self.bucket_count(),
            c.item_count == self.count(),
            c.fingerprint_bits == self.bits(),
    {
        CuckooCounts { num_buckets: self.num_buckets, item_count: self.item_count, fingerprint_bits: self.fingerprint_bits }
    }
}

proof fn lemma_load_empty(bs: Seq<Bucket>)
    requires
        forall|k: int| 0 <= k < bs.len() ==> (#[trigger] bs[k])@ == seq![None::<u16>, None, None, None],
    ensures
        load(bs) == 0,
    decreases bs.len(),
{
    if bs.len() > 0 {
        lemma_load_empty(bs.drop_last());
        assert(bs.last()@ == seq![None::<u16>, None, None, None]);
    }
}

/// `b` with the first slot that holds `fp` freed.
pub open spec fn without_fp(b: Bucket, fp: u16) -> Bucket {
    if b@[0] == Some(fp) {
        [None, b@[1], b@[2], b@[3]]
    } else if b@[1] == Some(fp) {
        [b@[0], None, b@[2], b@[3]]
    } else if b@[2] == Some(fp) {
        [b@[0], b@[1], None, b@[3]]
    } else {
        [b@[0], b@[1], b@[2], None]
    }
}

/// The first free slot of `b`.
fn free_slot(b: Bucket) -> (r: Option<usize>)
    ensures
        r matches Some(s) ==> s < 4 && b@[s as int] is None,
        r is None <==> !bucket_has_room(b),
{
    let mut slot: usize = 0;
    while slot < BUCKET_SIZE
        invariant
            slot <= 4,
            forall|k: int| 0 <= k < slot ==> b@[k] is Some,
        decreases 4 - slot,
    {
        if b[slot].is_none() {
            assert(b@.contains(None)) by { assert(b@[slot as int] is None); }
            return Some(slot);
        }
        slot += 1;
    }
    proof {
        if b@.contains(None) {
            let k = choose|k: int| 0 <= k < 4 && b@[k] == None::<u16>;
        }
    }
    None
}

/// The first slot of `b` that holds `fp`.
fn slot_of(b: Bucket, fp: u16) -> (r: Option<usize>)
    ensures
        r matches Some(s) ==> s < 4 && b@[s as int] == Some(fp) && forall|k: int| 0 <= k < s ==> b@[k] != Some(fp),
        r is None <==> !bucket_has(b, fp),
{
    let mut slot: usize = 0;
    while slot < BUCKET_SIZE
        invariant
            slot <= 4,
            forall|k: int| 0 <= k < slot ==> b@[k] != Some(fp),
        decreases 4 - slot,
    {
        match b[slot] {
            Some(x) => {
                if x == fp {
                    assert(b@[slot as int] == Some(fp));
                    return Some(slot);
                }
            },
            None => {},
        }
        slot += 1;
    }
    proof {
        if b@.contains(Some(fp)) {
            let k = choose|k: int| 0 <= k < 4 && b@[k] == Some(fp);
        }
    }
    None
}

/// Puts `fp` in the first free slot of bucket `idx` of `t`, where there is
/// one; the bucket keeps what it held.
fn try_place(t: &mut Vec<Bucket>, idx: usize, fp: u16) -> (placed: bool)
    requires
        idx < old(t)@.len(),
    ensures
        final(t)@.len() == old(t)@.len(),
        placed == bucket_has_room(old(t)@[idx as int]),
        !placed ==> final(t)@ == old(t)@,
        placed ==> load(final(t)@) == load(old(t)@) + 1 && bucket_has(final(t)@[idx as int], fp)
            && final(t)@ == old(t)@.update(idx as int, final(t)@[idx as int]),
        forall|f: u16| bucket_has(old(t)@[idx as int], f) ==> bucket_has(final(t)@[idx as int], f),
{
    let b = t[idx];
    match free_slot(b) {
        Some(slot) => {
            let nb = with_slot(b, slot, Some(fp));
            proof {
                lemma_load_update(t@, idx as int, nb);
                assert(b@.contains(None)) by { assert(b@[slot as int] is None); }
                assert(nb@[slot as int] == Some(fp));
                lemma_slot_keeps(b, nb, slot as int);
            }
            t.set(idx, nb);
            true
        },
        None => false,
    }
}

/// Writing into a free slot keeps what a bucket held and adds one to its
/// load.
proof fn lemma_slot_keeps(b: Bucket, nb: Bucket, s: int)
    requires
        0 <= s < 4,
        b@[s] is None,
        nb@[s] is Some,
        nb@ == b@.update(s, nb@[s]),
    ensures
        bucket_load(nb) == bucket_load(b) + 1,
        forall|f: u16| bucket_has(b, f) ==> bucket_has(nb, f),
{
    assert forall|f: u16| bucket_has(b, f) implies bucket_has(nb, f) by {
        let k = choose|k: int| 0 <= k < 4 && b@[k] == Some(f);
        assert(nb@[k] == Some(f));
    }
}

/// A copy of the table `v`.
fn copy_table(v: &Vec<Bucket>) -> (r: Vec<Bucket>)
    ensures
        r@ == v@,
{
    let mut r: Vec<Bucket> = Vec::new();
    let mut j: usize = 0;
    while j < v.len()
        invariant
            j <= v@.len(),
            r@ == v@.take(j as int),
        decreases v@.len() - j,
    {
        r.push(v[j]);
        assert(v@.take(j + 1) =~= v@.take(j as int).push(v@[j as int]));
        j += 1;
    }
    assert(v@.take(j as int) =~= v@);
    r
}

/// While a fingerprint is being moved, every item that the table `t0` held,
/// and the item with bytes `xb`, is held by `t`, or its fingerprint is the
/// one in hand, `cur`, and `i`, the bucket it goes to next, is one of its
/// pair.
pub open spec fn kept(
    t0: Seq<Bucket>,
    t: Seq<Bucket>,
    x: Seq<u8>,
    xb: Seq<u8>,
    cur: u16,
    i: usize,
    bits: usize,
    n: usize,
) -> bool {
    (pair_holds(t0, x, bits, n) || x == xb) ==> (pair_holds(t, x, bits, n) || (fingerprint_of(x, bits) == cur
        && in_pair(x, i, bits, n)))
}

/// Swapping the fingerprint in hand into slot `s` of bucket `i`, and taking
/// the one that stood there, moves every item along.
proof fn lemma_kick(
    tp: Seq<Bucket>,
    t: Seq<Bucket>,
    t0: Seq<Bucket>,
    xb: Seq<u8>,
    cp: u16,
    ip: usize,
    s: int,
    taken: u16,
    bits: usize,
    n: usize,
)
    requires
        n > 0,
        tp.len() == n,
        ip < n,
        0 <= s < 4,
        tp[ip as int]@[s] == Some(taken),
        t == tp.update(ip as int, t[ip as int]),
        t[ip as int]@ == tp[ip as int]@.update(s, Some(cp)),
        forall|x: Seq<u8>| #[trigger] kept(t0, tp, x, xb, cp, ip, bits, n),
    ensures
        forall|x: Seq<u8>| #[trigger] kept(t0, t, x, xb, taken, alternate_of(ip, taken, n), bits, n),
{
    let ni = alternate_of(ip, taken, n);
    assert forall|x: Seq<u8>| #[trigger] kept(t0, t, x, xb, taken, ni, bits, n) by {
        assert(kept(t0, tp, x, xb, cp, ip, bits, n));
        let fp = fingerprint_of(x, bits);
        let a = index_of(index1_tag(), x, n);
        let c = alternate_of(a, fp, n);
        lemma_index_bound(x, n);
        lemma_alternate(a, fp, n);
        if pair_holds(t0, x, bits, n) || x == xb {
            if fp == cp && in_pair(x, ip, bits, n) {
                assert(t[ip as int]@[s] == Some(cp));
                assert(bucket_has(t[ip as int], fp));
            } else {
                assert(pair_holds(tp, x, bits, n));
                let k = if bucket_has(tp[a as int], fp) { a } else { c };
                assert(bucket_has(tp[k as int], fp));
                let j = choose|j: int| 0 <= j < 4 && tp[k as int]@[j] == Some(fp);
                if k != ip {
                    assert(t[k as int] == tp[k as int]);
                } else if j != s {
                    assert(t[k as int]@[j] == Some(fp));
                } else {
                    assert(fp == taken);
                    assert(in_pair(x, ip, bits, n));
                    lemma_pair_partner(x, ip, bits, n);
                }
            }
        }
    }
}

/// Placing the fingerprint in hand in bucket `i`, where nothing held was
/// lost, leaves every item held.
proof fn lemma_settle(
    t0: Seq<Bucket>,
    tp: Seq<Bucket>,
    t: Seq<Bucket>,
    xb: Seq<u8>,
    cur: u16,
    i: usize,
    bits: usize,
    n: usize,
)
    requires
        n > 0,
        tp.len() == n,
        i < n,
        t == tp.update(i as int, t[i as int]),
        bucket_has(t[i as int], cur),
        forall|f: u16| bucket_has(tp[i as int], f) ==> bucket_has(t[i as int], f),
        forall|x: Seq<u8>| #[trigger] kept(t0, tp, x, xb, cur, i, bits, n),
    ensures
        forall|x: Seq<u8>| pair_holds(t0, x, bits, n) ==> #[trigger] pair_holds(t, x, bits, n),
        pair_holds(t, xb, bits, n),
{
    lemma_gain(tp, t, i as int, bits, n);
    assert forall|x: Seq<u8>| pair_holds(t0, x, bits, n) || x == xb implies #[trigger] pair_holds(t, x, bits, n) by {
        assert(kept(t0, tp, x, xb, cur, i, bits, n));
        let fp = fingerprint_of(x, bits);
        let a = index_of(index1_tag(), x, n);
        lemma_index_bound(x, n);
        lemma_alternate(a, fp, n);
        if !pair_holds(tp, x, bits, n) {
            assert(fp == cur && in_pair(x, i, bits, n));
        }
    }
}

/// Appends `src` to `dst`.
fn append_bytes(dst: &mut Vec<u8>, src: &[u8])
    ensures
        final(dst)@ == old(dst)@ + src@,
{
    let mut i: usize = 0;
    while i < src.len()
        invariant
            i <= src@.len(),
            dst@ == old(dst)@ + src@.take(i as int),
        decreases src@.len() - i,
    {
        dst.push(src[i]);
        assert(src@.take(i + 1) =~= src@.take(i as int).push(src@[i as int]));
        i += 1;
    }
    assert(src@.take(i as int) =~= src@);
}


/// A file whose content differs between the two sides.
pub struct ContentConflict {
    /// `conflict_` and the path
    pub conflict_id: String,
    /// The path
    pub item_id: String,
    /// Content hash on the source side
    pub source_hash: String,
    /// Content hash on the target side
    pub target_hash: String,
}

/// Finds files changed on both sides: each side's paths go into a cuckoo
/// filter, and their content hashes into a map.
pub struct CuckooConflictDetector {
    source_cuckoo: CuckooFilter,
    target_cuckoo: CuckooFilter,
    source_hashes: StrMap<String>,
    target_hashes: StrMap<String>,
    target_complete: bool,
}

impl CuckooConflictDetector {
    /// Both filters are well formed and have buckets.
    pub closed spec fn wf(&self) -> bool {
        &&& self.source_cuckoo.wf()
        &&& self.target_cuckoo.wf()
        &&& self.source_cuckoo.bucket_count() > 0
        &&& self.target_cuckoo.bucket_count() > 0
        &&& self.target_complete ==> self.target_covered()
    }

    /// Whether the target filter accepted every target path so far.
    pub closed spec fn target_complete(&self) -> bool {
        self.target_complete
    }

    /// Whether the target filter answers "may be present" for every path of
    /// the target map.
    pub open spec fn target_covered(&self) -> bool {
        forall|k: Seq<char>| #[trigger] self.target_map().dom().contains(k) ==> self.target_filter().holds_text(k)
    }

    /// The filter of the target side.
    pub closed spec fn target_filter(&self) -> CuckooFilter {
        self.target_cuckoo
    }

    /// The filter of the source side.
    pub closed spec fn source_filter(&self) -> CuckooFilter {
        self.source_cuckoo
    }

    /// Content hashes of the source side, by path.
    pub closed spec fn source_map(&self) -> Map<Seq<char>, Seq<char>> {
        self.source_hashes.contents().map_values(|h: String| h@)
    }

    /// Content hashes of the target side, by path.
    pub closed spec fn target_map(&self) -> Map<Seq<char>, Seq<char>> {
        self.target_hashes.contents().map_values(|h: String| h@)
    }

    /// A detector with two empty filters of `num_buckets` buckets and
    /// `fingerprint_bits`-bit fingerprints.
    pub fn with_parameters(num_buckets: usize, fingerprint_bits: usize, max_kicks: usize) -> (d: Self)
        requires
            num_buckets > 0,
            fingerprint_bits < 16,
        ensures
            d.wf(),
            d.source_map() == Map::<Seq<char>, Seq<char>>::empty(),
            d.target_map() == Map::<Seq<char>, Seq<char>>::empty(),
            d.source_filter().count() == 0,
            d.target_filter().count() == 0,
            d.target_filter().bucket_count() == num_buckets,
            d.target_complete(),
    {
        let d = CuckooConflictDetector {
            source_cuckoo: CuckooFilter::with_parameters(num_buckets, fingerprint_bits, max_kicks),
            target_cuckoo: CuckooFilter::with_parameters(num_buckets, fingerprint_bits, max_kicks),
            source_hashes: StrMap::new(),
            target_hashes: StrMap::new(),
            target_complete: true,
        };
        proof {
            assert(d.source_map() =~= Map::<Seq<char>, Seq<char>>::empty());
            assert(d.target_map() =~= Map::<Seq<char>, Seq<char>>::empty());
        }
        d
    }

    fn add_files(cuckoo: &mut CuckooFilter, hashes: &mut StrMap<String>, files: &[(String, Vec<u8>)]) -> (all: bool)
        requires
            old(cuckoo).wf(),
            old(cuckoo).bucket_count() > 0,
            old(cuckoo).count() + files@.len() < usize::MAX,
        ensures
            final(cuckoo).wf(),
            final(cuckoo).bucket_count() == old(cuckoo).bucket_count(),
            final(cuckoo).bits() == old(cuckoo).bits(),
            final(cuckoo).count() <= old(cuckoo).count() + files@.len(),
            forall|k: Seq<char>| old(cuckoo).holds_text(k) ==> #[trigger] final(cuckoo).holds_text(k),
            all ==> forall|i: int| 0 <= i < files@.len() ==> final(cuckoo).holds_text(#[trigger] files@[i].0@),
            forall|k: Seq<char>| #[trigger] final(hashes).contents().dom().contains(k) <==> (old(hashes).contents().dom().contains(k)
                || exists|i: int| 0 <= i < files@.len() && files@[i].0@ == k),
            forall|i: int|
                0 <= i < files@.len() && (forall|j: int| i < j < files@.len() ==> files@[j].0@ != files@[i].0@) ==> (
                #[trigger] final(hashes).contents()[files@[i].0@])@ == hex_text(sha256_of(files@[i].1@)),
    {
        let mut i: usize = 0;
        let mut all = true;
        while i < files.len()
            invariant
                i <= files@.len(),
                forall|k: Seq<char>| old(cuckoo).holds_text(k) ==> #[trigger] cuckoo.holds_text(k),
                all ==> forall|j: int| 0 <= j < i ==> cuckoo.holds_text(#[trigger] files@[j].0@),
                cuckoo.wf(),
                cuckoo.bucket_count() == old(cuckoo).bucket_count(),
                old(cuckoo).bucket_count() > 0,
                cuckoo.bits() == old(cuckoo).bits(),
                cuckoo.count() <= old(cuckoo).count() + i,
                old(cuckoo).count() + files@.len() < usize::MAX,
                forall|k: Seq<char>| #[trigger] hashes.contents().dom().contains(k) <==> (old(hashes).contents().dom().contains(k)
                    || exists|j: int| 0 <= j < i && files@[j].0@ == k),
                forall|j: int|
                    0 <= j < i && (forall|m: int| j < m < i ==> files@[m].0@ != files@[j].0@) ==> (
                    #[trigger] hashes.contents()[files@[j].0@])@ == hex_text(sha256_of(files@[j].1@)),
            decreases files@.len() - i,
        {
            let path = files[i].0.as_str();
            let ghost before = *cuckoo;
            let accepted = cuckoo.insert(path);
            all = all && accepted;
            proof {
                assert forall|k: Seq<char>| old(cuckoo).holds_text(k) implies #[trigger] cuckoo.holds_text(k) by {
                    assert(before.holds_text(k));
                    assert(before.holds_bytes(encode_utf8(k)));
                }
                if all {
                    assert forall|j: int| 0 <= j < i + 1 implies cuckoo.holds_text(#[trigger] files@[j].0@) by {
                        if j < i {
                            assert(before.holds_text(files@[j].0@));
                            assert(before.holds_bytes(encode_utf8(files@[j].0@)));
                        }
                    }
                }
            }
            let h = sha256_hex(files[i].1.as_slice());
            hashes.insert(String::from_str(path), h);
            proof {
                assert forall|k: Seq<char>| #[trigger] hashes.contents().dom().contains(k) <==> (old(hashes).contents().dom().contains(k)
                    || exists|j: int| 0 <= j < i + 1 && files@[j].0@ == k) by {
                    if k == files@[i as int].0@ {
                        assert(0 <= i < i + 1 && files@[i as int].0@ == k);
                    }
                }
            }
            i += 1;
        }
        all
    }

    /// Whether the target filter accepted every target path so far; where
    /// it did, no file whose hashes differ on the two sides is missed.
    pub fn target_filter_complete(&self) -> (b: bool)
        ensures
            b == self.target_complete(),
    {
        self.target_complete
    }

    /// Reads the files of the source side, as paths and contents, into the
    /// source filter and map; gives their number.
    pub fn build_source(&mut self, files: &[(String, Vec<u8>)]) -> (n: usize)
        requires
            old(self).wf(),
            old(self).source_filter().count() + files@.len() < usize::MAX,
        ensures
            final(self).wf(),
            n == files@.len(),
            forall|k: Seq<char>| #[trigger] final(self).source_map().dom().contains(k) <==> (old(self).source_map().dom().contains(k)
                || exists|i: int| 0 <= i < files@.len() && files@[i].0@ == k),
            forall|i: int|
                0 <= i < files@.len() && (forall|j: int| i < j < files@.len() ==> files@[j].0@ != files@[i].0@) ==>
                #[trigger] final(self).source_map()[files@[i].0@] == hex_text(sha256_of(files@[i].1@)),
            final(self).target_map() == old(self).target_map(),
            final(self).target_filter() == old(self).target_filter(),
            final(self).target_complete() == old(self).target_complete(),
    {
        let _ = Self::add_files(&mut self.source_cuckoo, &mut self.source_hashes, files);
        proof {
            assert(self.target_map() == old(self).target_map());
            assert(self.target_filter() == old(self).target_filter());
        }
        files.len()
    }

    /// Reads the files of the target side, as paths and contents, into the
    /// target filter and map; gives their number.
    pub fn build_target(&mut self, files: &[(String, Vec<u8>)]) -> (n: usize)
        requires
            old(self).wf(),
            old(self).target_filter().count() + files@.len() < usize::MAX,
        ensures
            final(self).wf(),
            n == files@.len(),
            forall|k: Seq<char>| #[trigger] final(self).target_map().dom().contains(k) <==> (old(self).target_map().dom().contains(k)
                || exists|i: int| 0 <= i < files@.len() && files@[i].0@ == k),
            forall|i: int|
                0 <= i < files@.len() && (forall|j: int| i < j < files@.len() ==> files@[j].0@ != files@[i].0@) ==>
                #[trigger] final(self).target_map()[files@[i].0@] == hex_text(sha256_of(files@[i].1@)),
            final(self).source_map() == old(self).source_map(),
            final(self).target_complete() ==> old(self).target_complete(),
            forall|k: Seq<char>| old(self).target_filter().holds_text(k) ==> #[trigger] final(self).target_filter().holds_text(k),
    {
        let ghost old_map = self.target_map();
        let all = Self::add_files(&mut self.target_cuckoo, &mut self.target_hashes, files);
        self.target_complete = self.target_complete && all;
        proof {
            if self.target_complete {
                assert forall|k: Seq<char>| #[trigger] self.target_map().dom().contains(k) implies self.target_filter().holds_text(k) by {
                    if old_map.dom().contains(k) {
                        assert(old(self).target_filter().holds_text(k));
                    } else {
                        let j = choose|j: int| 0 <= j < files@.len() && files@[j].0@ == k;
                        assert(self.target_filter().holds_text(files@[j].0@));
                    }
                }
            }
        }
        files.len()
    }

    /// Whether the path `p` is a conflict: a source path that the target
    /// filter may hold, with a target hash that differs from its source
    /// hash.
    pub open spec fn is_conflict(&self, p: Seq<char>) -> bool {
        &&& self.source_map().dom().contains(p)
        &&& self.target_filter().holds_text(p)
        &&& self.target_map().dom().contains(p)
        &&& self.source_map()[p] != self.target_map()[p]
    }

    /// The files changed on both sides, each once: the source paths that
    /// the target filter may hold and whose hashes differ on the two
    /// sides.
    #[verifier::rlimit(40)]
    #[verifier::spinoff_prover]
    pub fn detect_conflicts(&self) -> (cs: Vec<ContentConflict>)
        requires
            self.wf(),
        ensures
            forall|i: int| 0 <= i < cs@.len() ==> {
                let c = #[trigger] cs@[i];
                &&& self.is_conflict(c.item_id@)
                &&& c.conflict_id@ == "conflict_"@ + c.item_id@
                &&& c.source_hash@ == self.source_map()[c.item_id@]
                &&& c.target_hash@ == self.target_map()[c.item_id@]
            },
            forall|p: Seq<char>| self.is_conflict(p) ==> exists|i: int| 0 <= i < cs@.len() && #[trigger] cs@[i].item_id@ == p,
            self.target_complete() ==> forall|p: Seq<char>|
                #![trigger self.source_map().dom().contains(p), self.target_map().dom().contains(p)]
                self.source_map().dom().contains(p) && self.target_map().dom().contains(p) && self.source_map()[p]
                    != self.target_map()[p] ==> exists|i: int| 0 <= i < cs@.len() && #[trigger] cs@[i].item_id@ == p,
            forall|i: int, j: int| 0 <= i < j < cs@.len() ==> (#[trigger] cs@[i]).item_id@ != (#[trigger] cs@[j]).item_id@,
    {
        let paths = self.source_hashes.keys();
        let mut cs: Vec<ContentConflict> = Vec::new();
        let mut i: usize = 0;
        while i < paths.len()
            invariant
                i <= paths@.len(),
                self.target_cuckoo.wf(),
                self.target_cuckoo.bucket_count() > 0,
                forall|j: int| 0 <= j < paths@.len() ==> self.source_map().dom().contains(#[trigger] paths@[j]@),
                forall|k: Seq<char>|
                    self.source_map().dom().contains(k) ==> exists|j: int| 0 <= j < paths@.len() && #[trigger] paths@[j]@ == k,
                forall|a: int, b: int| 0 <= a < b < paths@.len() ==> (#[trigger] paths@[a])@ != (#[trigger] paths@[b])@,
                forall|m: int| 0 <= m < cs@.len() ==> {
                    let c = #[trigger] cs@[m];
                    &&& self.is_conflict(c.item_id@)
                    &&& c.conflict_id@ == "conflict_"@ + c.item_id@
                    &&& c.source_hash@ == self.source_map()[c.item_id@]
                    &&& c.target_hash@ == self.target_map()[c.item_id@]
                    &&& exists|j: int| 0 <= j < i && paths@[j]@ == c.item_id@
                },
                forall|j: int| 0 <= j < i && self.is_conflict(#[trigger] paths@[j]@) ==> exists|m: int| 0 <= m < cs@.len() && #[trigger] cs@[m].item_id@ == paths@[j]@,
                forall|a: int, b: int| 0 <= a < b < cs@.len() ==> (#[trigger] cs@[a]).item_id@ != (#[trigger] cs@[b]).item_id@,
            decreases paths@.len() - i,
        {
            let p = paths[i].as_str();
            let ghost old_cs = cs@;
            assert(self.source_map().dom().contains(p@));
            if self.target_cuckoo.contains(p) {
                match self.target_hashes.get(p) {
                    Some(th) => {
                        match self.source_hashes.get(p) {
                            Some(sh) => {
                                if !same_text(sh.as_str(), th.as_str()) {
                                    let mut id = String::from_str("conflict_");
                                    id.append(p);
                                    cs.push(ContentConflict {
                                        conflict_id: id,
                                        item_id: String::from_str(p),
                                        source_hash: String::from_str(sh.as_str()),
                                        target_hash: String::from_str(th.as_str()),
                                    });
                                }
                            },
                            None => {},
                        }
                    },
                    None => {},
                }
            }
            proof {
                assert forall|m: int| 0 <= m < cs@.len() implies exists|j: int| 0 <= j < i + 1 && paths@[j]@ == (#[trigger] cs@[m]).item_id@ by {
                    if m < old_cs.len() {
                        assert(cs@[m] == old_cs[m]);
                    } else {
                        assert(paths@[i as int]@ == cs@[m].item_id@);
                    }
                }
                assert forall|j: int| 0 <= j < i + 1 && self.is_conflict(#[trigger] paths@[j]@) implies exists|m: int| 0 <= m < cs@.len() && #[trigger] cs@[m].item_id@ == paths@[j]@ by {
                    if j < i {
                        let m = choose|m: int| 0 <= m < old_cs.len() && #[trigger] old_cs[m].item_id@ == paths@[j]@;
                        assert(cs@[m] == old_cs[m]);
                    } else {
                        assert(cs@[cs@.len() - 1].item_id@ == paths@[j]@);
                    }
                }
                assert forall|a: int, b: int| 0 <= a < b < cs@.len() implies (#[trigger] cs@[a]).item_id@ != (#[trigger] cs@[b]).item_id@ by {
                    if b >= old_cs.len() {
                        assert(cs@[a] == old_cs[a]);
                        let ja = choose|ja: int| 0 <= ja < i && paths@[ja]@ == old_cs[a].item_id@;
                        assert(paths@[ja]@ != paths@[i as int]@);
                    } else {
                        assert(cs@[a] == old_cs[a] && cs@[b] == old_cs[b]);
                    }
                }
            }
            i += 1;
        }
        proof {
            assert forall|p: Seq<char>| self.is_conflict(p) implies exists|m: int| 0 <= m < cs@.len() && #[trigger] cs@[m].item_id@ == p by {
                let j = choose|j: int| 0 <= j < paths@.len() && #[trigger] paths@[j]@ == p;
                assert(self.is_conflict(paths@[j]@));
            }
        }
        cs
    }
}

} // verus!
