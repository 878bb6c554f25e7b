//! MinHash signatures of documents, for estimating their Jaccard
//! similarity.
use vstd::prelude::*;
use vstd::utf8::encode_utf8;
use crate::digest::{sha256, sha256_of};
use crate::file_kv::types::{le_bytes_u64, u64_from_le};
use crate::layers::texts_of;
use crate::str_map::StrMap;
use crate::text::{chars_of, is_white_space, lowercase, lowercase_of, same_text, string_from_chars, white_space};
use vstd::string::StringExecFns;

verus! {

/// A MinHash signature: one minimum per hash function.
pub type MinHashSignature = Vec<u64>;

/// Document id.
pub type DocumentId = String;

/// The bytes that prefix a seed index when a seed is derived.
pub open spec fn seed_tag() -> Seq<u8> {
    seq![109u8, 105u8, 110u8, 104u8, 97u8, 115u8, 104u8, 95u8, 115u8, 101u8, 101u8, 100u8, 95u8]
}

/// The seed of hash function `index`: the first eight bytes,
/// little-endian, of the digest of the seed tag and the index's bytes.
pub open spec fn seed_of(index: u64) -> u64 {
    u64_from_le(sha256_of(seed_tag() + le_bytes_u64(index)), 0)
}

/// The hash of the feature `item` under `seed`: the first eight bytes,
/// little-endian, of the digest of the seed's bytes and the item's UTF-8
/// bytes.
pub open spec fn seeded_hash(item: Seq<char>, seed: u64) -> u64 {
    u64_from_le(sha256_of(le_bytes_u64(seed) + encode_utf8(item)), 0)
}

/// The characters of `text` that are not white space, lowercased.
pub open spec fn cleaned(text: Seq<char>) -> Seq<char> {
    lowercase_of(text.filter(|c: char| !is_white_space(c)))
}

/// The features of `cs`: its windows of three characters, or `cs` itself
/// where it is shorter.
pub open spec fn trigrams(cs: Seq<char>) -> Seq<Seq<char>> {
    if cs.len() < 3 {
        seq![cs]
    } else {
        Seq::new((cs.len() - 2) as nat, |j: int| cs.subrange(j, j + 3))
    }
}

/// The least hash of the features `fs` under `seed`; the largest value
/// where there are none.
pub open spec fn min_hash(fs: Seq<Seq<char>>, seed: u64) -> u64
    decreases fs.len(),
{
    if fs.len() == 0 {
        u64::MAX
    } else {
        let m = min_hash(fs.drop_last(), seed);
        let h = seeded_hash(fs.last(), seed);
        if h < m { h } else { m }
    }
}

/// A generator of MinHash signatures.
pub struct MinHashGenerator {
    num_permutations: usize,
    seeds: Vec<u64>,
}

fn u64_le_vec(x: u64) -> (v: Vec<u8>)
    ensures
        v@ == le_bytes_u64(x),
{
    let v = vec![
        (x & 0xff) as u8,
        ((x >> 8u64) & 0xff) as u8,
        ((x >> 16u64) & 0xff) as u8,
        ((x >> 24u64) & 0xff) as u8,
        ((x >> 32u64) & 0xff) as u8,
        ((x >> 40u64) & 0xff) as u8,
        ((x >> 48u64) & 0xff) as u8,
        ((x >> 56u64) & 0xff) as u8,
    ];
    assert(v@ =~= le_bytes_u64(x));
    v
}

fn first_u64(d: &Vec<u8>) -> (x: u64)
    requires
        d@.len() >= 8,
    ensures
        x == u64_from_le(d@, 0),
{
    (d[0] as u64) | ((d[1] as u64) << 8u64) | ((d[2] as u64) << 16u64) | ((d[3] as u64) << 24u64)
        | ((d[4] as u64) << 32u64) | ((d[5] as u64) << 40u64) | ((d[6] as u64) << 48u64) | ((d[7]
        as u64) << 56u64)
}

fn append_all(dst: &mut Vec<u8>, src: &[u8])
    ensures
        final(dst)@ == old(dst)@ + src@,
{
    let mut i: usize = 0;
    while i < src.len()
        invariant
            i <= src@.len(),
            dst@ == old(dst)@ + src@.take(i as int),
        decreases src@.len() - i,
    {
        dst.push(src[i]);
        assert(src@.take(i + 1) =~= src@.take(i as int).push(src@[i as int]));
        i += 1;
    }
    assert(src@.take(i as int) =~= src@);
}

impl MinHashGenerator {
    #[verifier::type_invariant]
    closed spec fn one_seed_each(self) -> bool {
        self.seeds@.len() == self.num_permutations
    }

    /// The number of hash functions.
    pub closed spec fn permutations(&self) -> usize {
        self.num_permutations
    }

    /// The seeds of the hash functions.
    pub closed spec fn seeds_spec(&self) -> Seq<u64> {
        self.seeds@
    }

    fn generate_seed(index: u64) -> (s: u64)
        ensures
            s == seed_of(index),
    {
        let mut data: Vec<u8> = vec![109u8, 105u8, 110u8, 104u8, 97u8, 115u8, 104u8, 95u8, 115u8, 101u8, 101u8, 100u8, 95u8];
        assert(data@ =~= seed_tag());
        let idx = u64_le_vec(index);
        append_all(&mut data, idx.as_slice());
        let d = sha256(data.as_slice());
        first_u64(&d)
    }

    /// A generator of `num_permutations` hash functions, the `i`-th seeded
    /// with `seed_of(i)`.
    pub fn new(num_permutations: usize) -> (g: Self)
        ensures
            g.permutations() == num_permutations,
            g.seeds_spec().len() == num_permutations,
            forall|i: int| 0 <= i < num_permutations ==> #[trigger] g.seeds_spec()[i] == seed_of(i as u64),
    {
        let mut seeds: Vec<u64> = Vec::new();
        let mut i: usize = 0;
        while i < num_permutations
            invariant
                i <= num_permutations,
                seeds@.len() == i,
                forall|j: int| 0 <= j < i ==> #[trigger] seeds@[j] == seed_of(j as u64),
            decreases num_permutations - i,
        {
            let s = Self::generate_seed(i as u64);
            seeds.push(s);
            i += 1;
        }
        MinHashGenerator { num_permutations, seeds }
    }

    fn hash_with_seed(item: &str, seed: u64) -> (h: u64)
        ensures
            h == seeded_hash(item@, seed),
    {
        let mut data = u64_le_vec(seed);
        append_all(&mut data, item.as_bytes());
        let d = sha256(data.as_slice());
        first_u64(&d)
    }

    fn extract_ngrams(text: &str) -> (fs: Vec<String>)
        ensures
            fs@.map_values(|f: String| f@) == trigrams(cleaned(text@)),
    {
        let cs = chars_of(text);
        let mut kept: Vec<char> = Vec::new();
        let mut i: usize = 0;
        assert(cs@.take(0).filter(|c: char| !is_white_space(c)) =~= Seq::<char>::empty());
        while i < cs.len()
            invariant
                i <= cs@.len(),
                cs@ == text@,
                kept@ == cs@.take(i as int).filter(|c: char| !is_white_space(c)),
            decreases cs@.len() - i,
        {
            let c = cs[i];
            proof {
                assert(cs@.take(i + 1) =~= cs@.take(i as int).push(c));
                cs@.take(i as int).lemma_filter_push(c, |c: char| !is_white_space(c));
            }
            if !white_space(c) {
                kept.push(c);
            }
            i += 1;
        }
        assert(cs@.take(i as int) =~= cs@);
        let joined = string_from_chars(&kept);
        let low = lowercase(joined.as_str());
        let lc = chars_of(low.as_str());
        let mut fs: Vec<String> = Vec::new();
        if lc.len() < 3 {
            fs.push(low);
            assert(fs@.map_values(|f: String| f@) =~= trigrams(cleaned(text@)));
            return fs;
        }
        let ghost want = trigrams(cleaned(text@));
        let mut j: usize = 0;
        while j < lc.len() - 2
            invariant
                lc@ == cleaned(text@),
                lc@.len() >= 3,
                j <= lc@.len() - 2,
                want == trigrams(cleaned(text@)),
                fs@.map_values(|f: String| f@) == want.take(j as int),
            decreases lc@.len() - j,
        {
            let w: Vec<char> = vec![lc[j], lc[j + 1], lc[j + 2]];
            assert(w@ =~= lc@.subrange(j as int, j + 3));
            let f = string_from_chars(&w);
            let ghost before = fs@.map_values(|f: String| f@);
            fs.push(f);
            assert(fs@.map_values(|f: String| f@) =~= before.push(want[j as int]));
            assert(want.take(j + 1) =~= want.take(j as int).push(want[j as int]));
            j += 1;
        }
        assert(want.take(j as int) =~= want);
        fs
    }

    /// The MinHash signature of `document`: for each hash function, the
    /// least hash of the document's features under its seed. The features
    /// are the three-character windows of the document without white
    /// space, lowercased (the whole of it where shorter).
    pub fn generate_signature(&self, document: &str) -> (sig: MinHashSignature)
        ensures
            sig@.len() == self.permutations(),
            forall|i: int| 0 <= i < sig@.len() ==> #[trigger] sig@[i] == min_hash(trigrams(cleaned(document@)),
                self.seeds_spec()[i]),
    {
        proof {
            use_type_invariant(self);
        }
        let features = Self::extract_ngrams(document);
        let ghost fv = features@.map_values(|f: String| f@);
        let mut signature: Vec<u64> = Vec::new();
        let mut k: usize = 0;
        while k < self.num_permutations
            invariant
                k <= self.num_permutations,
                signature@.len() == k,
                forall|i: int| 0 <= i < k ==> signature@[i] == u64::MAX,
            decreases self.num_permutations - k,
        {
            signature.push(u64::MAX);
            k += 1;
        }
        let mut f: usize = 0;
        while f < features.len()
            invariant
                f <= features@.len(),
                fv == features@.map_values(|f: String| f@),
                signature@.len() == self.permutations(),
                self.seeds_spec().len() == self.permutations(),
                forall|i: int| 0 <= i < signature@.len() ==> #[trigger] signature@[i] == min_hash(fv.take(f as int),
                    self.seeds_spec()[i]),
            decreases features@.len() - f,
        {
            assert(fv.take(f + 1).drop_last() =~= fv.take(f as int));
            assert(fv.take(f + 1).last() == features@[f as int]@);
            let mut i: usize = 0;
            while i < self.seeds.len()
                invariant
                    i <= self.seeds@.len(),
                    f < features@.len(),
                    fv == features@.map_values(|f: String| f@),
                    fv.take(f + 1).drop_last() == fv.take(f as int),
                    fv.take(f + 1).last() == features@[f as int]@,
                    signature@.len() == self.permutations(),
                    self.seeds_spec().len() == self.permutations(),
                    forall|j: int| 0 <= j < i ==> #[trigger] signature@[j] == min_hash(fv.take(f + 1), self.seeds_spec()[j]),
                    forall|j: int| i <= j < signature@.len() ==> #[trigger] signature@[j] == min_hash(fv.take(f as int),
                        self.seeds_spec()[j]),
                decreases self.seeds@.len() - i,
            {
                let h = Self::hash_with_seed(features[f].as_str(), self.seeds[i]);
                let cur = signature[i];
                let m = if h < cur { h } else { cur };
                signature.set(i, m);
                i += 1;
            }
            f += 1;
        }
        assert(fv.take(f as int) =~= fv);
        signature
    }

    /// The signature length.
    pub fn signature_length(&self) -> (n: usize)
        ensures
            n == self.permutations(),
    {
        self.num_permutations
    }
}

/// The rows of `sig` in band `b` of bands of `r` rows: from row `b * r`,
/// at most `r` of them.
pub open spec fn band_of(sig: Seq<u64>, r: nat, b: int) -> Seq<u64> {
    sig.subrange(b * r, if (b + 1) * r <= sig.len() { (b + 1) * r } else { sig.len() as int })
}

/// Whether band `b` of `sig` is hashed into an index of `bands` bands of
/// `r` rows: the index has the band and the band starts within `sig`.
pub open spec fn band_used(sig: Seq<u64>, r: nat, bands: nat, b: int) -> bool {
    0 <= b < bands && b * r < sig.len()
}

/// The first position in `bv` of a bucket keyed `key`.
pub open spec fn key_index(bv: Seq<(Seq<u64>, Seq<Seq<char>>)>, key: Seq<u64>) -> int {
    choose|j: int| 0 <= j < bv.len() && bv[j].0 == key && forall|i: int| 0 <= i < j ==> bv[i].0 != key
}

/// Whether `bv` has a bucket keyed `key`.
pub open spec fn has_key(bv: Seq<(Seq<u64>, Seq<Seq<char>>)>, key: Seq<u64>) -> bool {
    exists|j: int| 0 <= j < bv.len() && bv[j].0 == key
}

/// The documents of the bucket keyed `key` in `bv`; none where there is no
/// such bucket.
pub open spec fn bucket_of(bv: Seq<(Seq<u64>, Seq<Seq<char>>)>, key: Seq<u64>) -> Seq<Seq<char>> {
    if has_key(bv, key) { bv[key_index(bv, key)].1 } else { Seq::empty() }
}

/// `s` with `x` added at the end where it is not in it.
pub open spec fn add_once(s: Seq<Seq<char>>, x: Seq<char>) -> Seq<Seq<char>> {
    if s.contains(x) { s } else { s.push(x) }
}

/// The buckets `bv` of a band after document `id` is hashed to `key`: its
/// bucket gains the document, or a new bucket holds it.
pub open spec fn bucket_added(bv: Seq<(Seq<u64>, Seq<Seq<char>>)>, key: Seq<u64>, id: Seq<char>) -> Seq<(Seq<u64>, Seq<Seq<char>>)> {
    if has_key(bv, key) {
        bv.update(key_index(bv, key), (key, add_once(bv[key_index(bv, key)].1, id)))
    } else {
        bv.push((key, seq![id]))
    }
}

/// `s` without `x`.
pub open spec fn without(s: Seq<Seq<char>>, x: Seq<char>) -> Seq<Seq<char>> {
    s.filter(|y: Seq<char>| y != x)
}

/// The positions below `n` at which `a` and `b` agree.
pub open spec fn agreeing(a: Seq<u64>, b: Seq<u64>, n: int) -> nat
    decreases n,
{
    if n <= 0 {
        0
    } else {
        agreeing(a, b, n - 1) + if a[n - 1] == b[n - 1] { 1nat } else { 0nat }
    }
}

/// The buckets `bv` of a band after document `id` leaves the bucket keyed
/// `key`, where there is one.
pub open spec fn bucket_removed(bv: Seq<(Seq<u64>, Seq<Seq<char>>)>, key: Seq<u64>, id: Seq<char>) -> Seq<(Seq<u64>, Seq<Seq<char>>)> {
    if has_key(bv, key) {
        bv.update(key_index(bv, key), (key, without(bv[key_index(bv, key)].1, id)))
    } else {
        bv
    }
}

/// The metadata by id of `entries`, a later entry for an id replacing an
/// earlier one.
pub open spec fn metadata_from<M>(entries: Seq<(String, M)>) -> Map<Seq<char>, M>
    decreases entries.len(),
{
    if entries.len() == 0 {
        Map::empty()
    } else {
        metadata_from(entries.drop_last()).insert(entries.last().0@, entries.last().1)
    }
}

/// A bucket of a band: the band's rows and the documents hashed to them.
pub struct Bucket {
    key: Vec<u64>,
    ids: Vec<String>,
}

impl Bucket {
    /// The band's rows and the documents.
    pub closed spec fn view_pair(&self) -> (Seq<u64>, Seq<Seq<char>>) {
        (self.key@, texts_of(self.ids@))
    }

    /// The band's rows.
    pub fn key(&self) -> (k: &[u64])
        ensures
            k@ == self.view_pair().0,
    {
        self.key.as_slice()
    }

    /// The documents.
    pub fn ids(&self) -> (ids: &[String])
        ensures
            texts_of(ids@) == self.view_pair().1,
    {
        self.ids.as_slice()
    }
}

/// The view of a band's buckets.
pub open spec fn band_view(v: Seq<Bucket>) -> Seq<(Seq<u64>, Seq<Seq<char>>)> {
    v.map_values(|b: Bucket| b.view_pair())
}

/// A locality-sensitive hashing index: each signature is cut into bands of
/// rows, and documents whose band rows agree share a bucket.
pub struct LSHIndex<M> {
    tables: Vec<Vec<Bucket>>,
    num_bands: usize,
    rows_per_band: usize,
    signatures: StrMap<Vec<u64>>,
    metadata: StrMap<M>,
}

impl<M> LSHIndex<M> {
    /// The number of bands.
    pub closed spec fn bands(&self) -> nat {
        self.num_bands as nat
    }

    /// The rows of each band.
    pub closed spec fn rows(&self) -> nat {
        self.rows_per_band as nat
    }

    /// The buckets of band `b`.
    pub closed spec fn buckets(&self, b: int) -> Seq<(Seq<u64>, Seq<Seq<char>>)> {
        band_view(self.tables@[b]@)
    }

    /// The signatures of the documents, by id.
    pub closed spec fn signatures(&self) -> Map<Seq<char>, Seq<u64>> {
        self.signatures.contents().map_values(|v: Vec<u64>| v@)
    }

    /// The metadata of the documents, by id.
    pub closed spec fn metadata(&self) -> Map<Seq<char>, M> {
        self.metadata.contents()
    }

    /// One table per band, bands of at least one row.
    pub closed spec fn wf(&self) -> bool {
        &&& self.tables@.len() == self.num_bands
        &&& self.rows_per_band > 0
    }

    /// An empty index of `num_bands` bands of `rows_per_band` rows each.
    pub fn new(num_bands: usize, rows_per_band: usize) -> (ix: Self)
        requires
            rows_per_band > 0,
        ensures
            ix.wf(),
            ix.bands() == num_bands,
            ix.rows() == rows_per_band,
            forall|b: int| 0 <= b < num_bands ==> #[trigger] ix.buckets(b).len() == 0,
            ix.signatures() == Map::<Seq<char>, Seq<u64>>::empty(),
            ix.metadata() == Map::<Seq<char>, M>::empty(),
    {
        let mut tables: Vec<Vec<Bucket>> = Vec::new();
        let mut i: usize = 0;
        while i < num_bands
            invariant
                i <= num_bands,
                tables@.len() == i,
                forall|b: int| 0 <= b < i ==> #[trigger] tables@[b]@.len() == 0,
            decreases num_bands - i,
        {
            tables.push(Vec::new());
            i += 1;
        }
        let ix = LSHIndex { tables, num_bands, rows_per_band, signatures: StrMap::new(), metadata: StrMap::new() };
        proof {
            assert(ix.signatures() =~= Map::<Seq<char>, Seq<u64>>::empty());
        }
        ix
    }

    /// Puts document `id` in the bucket of the rows `band` of band `b`.
    #[verifier::rlimit(40)]
    #[verifier::spinoff_prover]
    fn add_to_band(&mut self, b: usize, band: Vec<u64>, id: &str)
        requires
            old(self).wf(),
            b < old(self).bands(),
        ensures
            final(self).wf(),
            final(self).bands() == old(self).bands(),
            final(self).rows() == old(self).rows(),
            final(self).signatures() == old(self).signatures(),
            final(self).metadata() == old(self).metadata(),
            final(self).buckets(b as int) == bucket_added(old(self).buckets(b as int), band@, id@),
            forall|c: int| 0 <= c < old(self).bands() && c != b ==> #[trigger] final(self).buckets(c) == old(self).buckets(c),
    {
        let ghost t0 = self.tables@;
        let table = self.tables.remove(b);
        assert(band_view(table@) == old(self).buckets(b as int));
        let table = table_added(table, band, id);
        self.tables.insert(b, table);
        proof {
            assert(self.tables@ =~= t0.update(b as int, table));
            assert forall|c: int| 0 <= c < old(self).bands() && c != b implies #[trigger] self.buckets(c) == old(self).buckets(c) by {
                assert(self.tables@[c] == old(self).tables@[c]);
            }
        }
    }

    /// The signature of document `id`, where it has one.
    pub fn signature(&self, id: &str) -> (r: Option<&Vec<u64>>)
        ensures
            r is Some <==> self.signatures().contains_key(id@),
            r matches Some(v) ==> v@ == self.signatures()[id@],
    {
        self.signatures.get(id)
    }

    /// The ids of the documents with a signature.
    pub fn document_ids(&self) -> (ids: Vec<String>)
        ensures
            forall|i: int| 0 <= i < ids@.len() ==> self.signatures().contains_key(#[trigger] ids@[i]@),
            forall|k: Seq<char>| self.signatures().contains_key(k) ==> exists|i: int| 0 <= i < ids@.len() && #[trigger] ids@[i]@ == k,
    {
        self.signatures.keys()
    }

    /// The metadata of document `id`, where it has some.
    pub fn metadata_of(&self, id: &str) -> (r: Option<&M>)
        ensures
            r is Some <==> self.metadata().contains_key(id@),
            r matches Some(m) ==> *m == self.metadata()[id@],
    {
        self.metadata.get(id)
    }

    /// The ids of the documents with metadata.
    pub fn metadata_ids(&self) -> (ids: Vec<String>)
        ensures
            forall|i: int| 0 <= i < ids@.len() ==> self.metadata().contains_key(#[trigger] ids@[i]@),
            forall|k: Seq<char>| self.metadata().contains_key(k) ==> exists|i: int| 0 <= i < ids@.len() && #[trigger] ids@[i]@ == k,
    {
        self.metadata.keys()
    }

    /// Replaces all metadata with `entries`, a later entry for an id
    /// replacing an earlier one.
    pub fn replace_metadata(&mut self, entries: Vec<(String, M)>)
        ensures
            final(self).metadata() == metadata_from(entries@),
            final(self).signatures() == old(self).signatures(),
            final(self).bands() == old(self).bands(),
            final(self).rows() == old(self).rows(),
            forall|b: int| #[trigger] final(self).buckets(b) == old(self).buckets(b),
            old(self).wf() ==> final(self).wf(),
    {
        self.metadata.clear();
        let ghost all = entries@;
        let mut rest = entries;
        let ghost mut n: int = 0;
        proof {
            assert(all.take(0) =~= Seq::<(String, M)>::empty());
            assert(self.metadata() =~= metadata_from(all.take(0)));
            assert(all.skip(0) =~= all);
        }
        while rest.len() > 0
            invariant
                0 <= n <= all.len(),
                rest@ == all.skip(n),
                self.metadata() == metadata_from(all.take(n)),
                self.signatures() == old(self).signatures(),
                self.tables == old(self).tables,
                self.num_bands == old(self).num_bands,
                self.rows_per_band == old(self).rows_per_band,
            decreases rest@.len(),
        {
            let (k, m) = rest.remove(0);
            assert(all[n] == (k, m));
            assert(all.take(n + 1).drop_last() =~= all.take(n));
            assert(all.skip(n + 1) =~= all.skip(n).drop_first());
            self.metadata.insert(k, m);
            proof {
                n = n + 1;
            }
        }
        assert(all.take(n) =~= all);
    }

    /// The buckets of band `b`.
    pub fn band(&self, b: usize) -> (r: &[Bucket])
        requires
            self.wf(),
            b < self.bands(),
        ensures
            band_view(r@) == self.buckets(b as int),
    {
        self.tables[b].as_slice()
    }

    /// Whether document `id` is a candidate for the signature `q` among
    /// the bands before `upto`: some used band of `q` has a bucket holding it.
    pub open spec fn found_by(&self, q: Seq<u64>, id: Seq<char>, upto: int) -> bool {
        exists|c: int|
            0 <= c < upto && band_used(q, self.rows(), self.bands(), c) && #[trigger] bucket_of(
                self.buckets(c),
                band_of(q, self.rows(), c),
            ).contains(id)
    }

    /// The candidates for the signature `query_signature`: each document
    /// once that shares a bucket with one of its bands, in no particular
    /// order.
    pub fn query_similar(&self, query_signature: &[u64]) -> (r: Vec<String>)
        requires
            self.wf(),
        ensures
            texts_of(r@).no_duplicates(),
            forall|id: Seq<char>| texts_of(r@).contains(id) <==> self.found_by(
                query_signature@,
                id,
                self.bands() as int,
            ),
    {
        let rows = self.rows_per_band;
        let n = query_signature.len();
        let mut out: Vec<String> = Vec::new();
        let mut b: usize = 0;
        let mut start: usize = 0;
        while b < self.num_bands && start < n
            invariant
                self.wf(),
                rows == self.rows_per_band,
                n == query_signature@.len(),
                start == (if b * rows < n { b * rows } else { n as int }),
                b <= self.bands(),
                texts_of(out@).no_duplicates(),
                forall|id: Seq<char>| texts_of(out@).contains(id) <==> self.found_by(
                    query_signature@,
                    id,
                    b as int,
                ),
            decreases self.num_bands - b,
        {
            let end: usize = if n - start >= rows { start + rows } else { n };
            let band = rows_between(query_signature, start, end);
            proof {
                assert((b + 1) * rows == b * rows + rows) by (nonlinear_arith);
                assert(start == b * rows);
                assert(band@ == band_of(query_signature@, rows as nat, b as int));
                assert(band_used(query_signature@, rows as nat, self.bands(), b as int));
            }
            let ghost before = texts_of(out@);
            let ghost bucket = bucket_of(self.buckets(b as int), band@);
            match find_bucket(&self.tables[b], band.as_slice()) {
                Some(j) => {
                    let ids = &self.tables[b][j].ids;
                    assert(texts_of(ids@) == bucket);
                    merge_ids(&mut out, ids);
                },
                None => {
                    assert(bucket =~= Seq::<Seq<char>>::empty());
                },
            }
            proof {
                assert forall|id: Seq<char>| texts_of(out@).contains(id) <==> #[trigger] self.found_by(
                    query_signature@,
                    id,
                    b + 1,
                ) by {
                    if bucket.contains(id) {
                        assert(bucket_of(self.buckets(b as int), band_of(query_signature@, self.rows(), b as int)).contains(id));
                    }
                    if self.found_by(query_signature@, id, b + 1) && !self.found_by(query_signature@, id, b as int) {
                        let c = choose|c: int|
                            0 <= c < b + 1 && band_used(query_signature@, self.rows(), self.bands(), c) && #[trigger] bucket_of(
                                self.buckets(c),
                                band_of(query_signature@, self.rows(), c),
                            ).contains(id);
                        assert(c == b);
                    }
                }
            }
            proof {
                assert((b + 1) * rows == b * rows + rows) by (nonlinear_arith);
            }
            b += 1;
            if n - start > rows {
                start = start + rows;
            } else {
                start = n;
            }
        }
        proof {
            assert forall|id: Seq<char>| self.found_by(query_signature@, id, b as int) <==> #[trigger] self.found_by(
                query_signature@,
                id,
                self.bands() as int,
            ) by {
                if self.found_by(query_signature@, id, self.bands() as int) {
                    let c = choose|c: int|
                        0 <= c < self.bands() && band_used(query_signature@, self.rows(), self.bands(), c) && #[trigger] bucket_of(
                            self.buckets(c),
                            band_of(query_signature@, self.rows(), c),
                        ).contains(id);
                    if c >= b {
                        assert(c * rows >= b * rows) by (nonlinear_arith)
                            requires c >= b, rows > 0;
                    }
                }
            }
        }
        out
    }

    /// The number of buckets over the bands before `upto`.
    pub open spec fn bucket_total(&self, upto: int) -> nat
        decreases upto,
    {
        if upto <= 0 {
            0
        } else {
            self.bucket_total(upto - 1) + self.buckets(upto - 1).len()
        }
    }

    /// Drops document `doc_id`: where it has a signature, it leaves the
    /// bucket of each band of that signature; its signature and metadata
    /// go.
    pub fn remove_document(&mut self, doc_id: &str)
        requires
            old(self).wf(),
            old(self).signatures().contains_key(doc_id@) ==> old(self).signatures()[doc_id@].len() <= old(self).bands()
                * old(self).rows(),
        ensures
            final(self).wf(),
            final(self).bands() == old(self).bands(),
            final(self).rows() == old(self).rows(),
            final(self).signatures() == old(self).signatures().remove(doc_id@),
            final(self).metadata() == old(self).metadata().remove(doc_id@),
            forall|b: int| 0 <= b < old(self).bands() ==> #[trigger] final(self).buckets(b) == if old(self).signatures().contains_key(doc_id@)
                && band_used(old(self).signatures()[doc_id@], old(self).rows(), old(self).bands(), b) {
                bucket_removed(old(self).buckets(b), band_of(old(self).signatures()[doc_id@], old(self).rows(), b), doc_id@)
            } else {
                old(self).buckets(b)
            },
    {
        let sig = match self.signatures.get(doc_id) {
            Some(v) => rows_between(v.as_slice(), 0, v.len()),
            None => Vec::new(),
        };
        let has = self.signatures.contains_key(doc_id);
        assert(has == old(self).signatures().contains_key(doc_id@));
        proof {
            if has {
                assert(sig@ =~= old(self).signatures()[doc_id@]);
            }
        }
        let r = self.rows_per_band;
        let n = sig.len();
        let mut b: usize = 0;
        let mut start: usize = 0;
        if has {
            while b < self.num_bands && start < n
                invariant
                    self.wf(),
                    self.bands() == old(self).bands(),
                    self.rows() == old(self).rows(),
                    r == self.rows_per_band,
                    n == sig@.len(),
                    sig@ == old(self).signatures()[doc_id@],
                    start == (if b * r < n { b * r } else { n as int }),
                    b <= self.bands(),
                    self.signatures() == old(self).signatures(),
                    self.metadata() == old(self).metadata(),
                    forall|c: int| 0 <= c < b ==> #[trigger] self.buckets(c) == bucket_removed(
                        old(self).buckets(c),
                        band_of(sig@, r as nat, c),
                        doc_id@,
                    ) && band_used(sig@, r as nat, old(self).bands(), c),
                    forall|c: int| b <= c < old(self).bands() ==> #[trigger] self.buckets(c) == old(self).buckets(c),
                decreases self.num_bands - b,
            {
                let end: usize = if n - start >= r { start + r } else { n };
                let band = rows_between(sig.as_slice(), start, end);
                proof {
                    assert((b + 1) * r == b * r + r) by (nonlinear_arith);
                    assert(start == b * r);
                    assert(band@ == band_of(sig@, r as nat, b as int));
                }
                self.remove_from_band(b, band, doc_id);
                proof {
                    assert(band_used(sig@, r as nat, old(self).bands(), b as int));
                    assert(self.buckets(b as int) == bucket_removed(old(self).buckets(b as int), band_of(sig@, r as nat, b as int), doc_id@));
                }
                b += 1;
                if n - start > r {
                    start = start + r;
                } else {
                    start = n;
                }
            }
        }
        proof {
            if has {
                assert forall|c: int| b <= c < old(self).bands() implies !band_used(sig@, r as nat, old(self).bands(), c) by {
                    assert(c * r >= b * r) by (nonlinear_arith)
                        requires c >= b, r > 0;
                }
            }
        }
        let ghost tables = self.tables@;
        let ghost done = *self;
        let _ = self.signatures.remove(doc_id);
        let _ = self.metadata.remove(doc_id);
        proof {
            assert(self.signatures() =~= old(self).signatures().remove(doc_id@));
            assert(self.tables@ == tables);
            assert forall|c: int| 0 <= c < old(self).bands() implies #[trigger] self.buckets(c) == (if has
                && band_used(old(self).signatures()[doc_id@], old(self).rows(), old(self).bands(), c) {
                bucket_removed(old(self).buckets(c), band_of(old(self).signatures()[doc_id@], old(self).rows(), c), doc_id@)
            } else {
                old(self).buckets(c)
            }) by {
                assert(self.buckets(c) == done.buckets(c));
                if has && c < b {
                    assert(done.buckets(c) == bucket_removed(old(self).buckets(c), band_of(sig@, r as nat, c), doc_id@));
                }
            }
        }
    }

    /// Takes document `id` out of the bucket of the rows `band` of band `b`.
    #[verifier::rlimit(40)]
    #[verifier::spinoff_prover]
    fn remove_from_band(&mut self, b: usize, band: Vec<u64>, id: &str)
        requires
            old(self).wf(),
            b < old(self).bands(),
        ensures
            final(self).wf(),
            final(self).bands() == old(self).bands(),
            final(self).rows() == old(self).rows(),
            final(self).signatures() == old(self).signatures(),
            final(self).metadata() == old(self).metadata(),
            final(self).buckets(b as int) == bucket_removed(old(self).buckets(b as int), band@, id@),
            forall|c: int| 0 <= c < old(self).bands() && c != b ==> #[trigger] final(self).buckets(c) == old(self).buckets(c),
    {
        let ghost t0 = self.tables@;
        let table = self.tables.remove(b);
        assert(band_view(table@) == old(self).buckets(b as int));
        let table = table_removed(table, band, id);
        self.tables.insert(b, table);
        proof {
            assert(self.tables@ =~= t0.update(b as int, table));
            assert forall|c: int| 0 <= c < old(self).bands() && c != b implies #[trigger] self.buckets(c) == old(self).buckets(c) by {
                assert(self.tables@[c] == old(self).tables@[c]);
            }
        }
    }

    /// The numbers of the index.
    pub fn stats(&self) -> (c: LSHIndexCounts)
        requires
            self.wf(),
            self.bucket_total(self.bands() as int) <= usize::MAX,
        ensures
            c.num_documents == self.signatures().dom().len(),
            c.num_bands == self.bands(),
            c.rows_per_band == self.rows(),
            c.total_buckets == self.bucket_total(self.bands() as int),
    {
        let mut total: usize = 0;
        let mut b: usize = 0;
        while b < self.tables.len()
            invariant
                self.wf(),
                b <= self.tables@.len(),
                self.bucket_total(self.bands() as int) <= usize::MAX,
                total == self.bucket_total(b as int),
            decreases self.tables@.len() - b,
        {
            proof {
                self.lemma_bucket_total_grows(b as int + 1, self.bands() as int);
            }
            assert(self.buckets(b as int).len() == self.tables@[b as int]@.len());
            total = total + self.tables[b].len();
            b += 1;
        }
        proof {
            assert(self.signatures().dom() =~= self.signatures.contents().dom());
        }
        LSHIndexCounts {
            num_documents: self.signatures.len(),
            num_bands: self.num_bands,
            rows_per_band: self.rows_per_band,
            total_buckets: total,
        }
    }

    proof fn lemma_bucket_total_grows(&self, i: int, j: int)
        requires
            0 <= i <= j,
        ensures
            self.bucket_total(i) <= self.bucket_total(j),
        decreases j - i,
    {
        if i < j {
            self.lemma_bucket_total_grows(i, j - 1);
        }
    }


    /// Adds document `doc_id` with `signature` and `metadata`: its signature
    /// and metadata replace any earlier ones, and each band of the signature
    /// that the index has puts the document in the bucket of the band's rows.
    pub fn add_document(&mut self, doc_id: String, signature: Vec<u64>, metadata: M)
        requires
            old(self).wf(),
        ensures
            final(self).wf(),
            final(self).bands() == old(self).bands(),
            final(self).rows() == old(self).rows(),
            final(self).signatures() == old(self).signatures().insert(doc_id@, signature@),
            final(self).metadata() == old(self).metadata().insert(doc_id@, metadata),
            signature@.len() > 0 && old(self).bands() > 0 ==> final(self).found_by(signature@, doc_id@, final(self).bands() as int),
            forall|b: int| 0 <= b < old(self).bands() ==> #[trigger] final(self).buckets(b) == if band_used(
                signature@,
                old(self).rows(),
                old(self).bands(),
                b,
            ) {
                bucket_added(old(self).buckets(b), band_of(signature@, old(self).rows(), b), doc_id@)
            } else {
                old(self).buckets(b)
            },
    {
        let r = self.rows_per_band;
        let n = signature.len();
        let mut b: usize = 0;
        let mut start: usize = 0;
        while b < self.num_bands && start < n
            invariant
                self.wf(),
                self.bands() == old(self).bands(),
                self.rows() == old(self).rows(),
                r == self.rows_per_band,
                n == signature@.len(),
                start == (if b * r < n { b * r } else { n as int }),
                b <= self.bands(),
                self.signatures() == old(self).signatures(),
                self.metadata() == old(self).metadata(),
                forall|c: int| 0 <= c < b ==> #[trigger] self.buckets(c) == bucket_added(
                    old(self).buckets(c),
                    band_of(signature@, r as nat, c),
                    doc_id@,
                ) && band_used(signature@, r as nat, old(self).bands(), c),
                forall|c: int| b <= c < old(self).bands() ==> #[trigger] self.buckets(c) == old(self).buckets(c),
            decreases self.num_bands - b,
        {
            let end: usize = if n - start >= r { start + r } else { n };
            let band = rows_between(signature.as_slice(), start, end);
            proof {
                assert((b + 1) * r == b * r + r) by (nonlinear_arith);
                assert(start == b * r);
                assert(band@ == band_of(signature@, r as nat, b as int));
            }
            self.add_to_band(b, band, doc_id.as_str());
            proof {
                assert(band_used(signature@, r as nat, old(self).bands(), b as int));
                assert(self.buckets(b as int) == bucket_added(old(self).buckets(b as int), band_of(signature@, r as nat, b as int), doc_id@));
                assert((b + 1) * r == b * r + r) by (nonlinear_arith);
            }
            b += 1;
            if n - start > r {
                start = start + r;
            } else {
                start = n;
            }
        }
        proof {
            assert forall|c: int| b <= c < old(self).bands() implies !band_used(signature@, r as nat, old(self).bands(), c) by {
                assert(c * r >= b * r) by (nonlinear_arith)
                    requires c >= b, r > 0;
            }
        }
        let ghost sig = signature@;
        let ghost id = doc_id@;
        let ghost tables = self.tables@;
        let ghost done = *self;
        let key = String::from_str(doc_id.as_str());
        self.signatures.insert(key, signature);
        self.metadata.insert(doc_id, metadata);
        proof {
            assert(self.signatures() =~= old(self).signatures().insert(id, sig));
            assert(self.tables@ == tables);
            assert forall|c: int| 0 <= c < old(self).bands() implies #[trigger] self.buckets(c) == (if band_used(
                sig,
                old(self).rows(),
                old(self).bands(),
                c,
            ) {
                bucket_added(old(self).buckets(c), band_of(sig, old(self).rows(), c), id)
            } else {
                old(self).buckets(c)
            }) by {
                assert(self.buckets(c) == done.buckets(c));
                if c < b {
                    assert(done.buckets(c) == bucket_added(old(self).buckets(c), band_of(sig, r as nat, c), id));
                } else {
                    assert(!band_used(sig, r as nat, old(self).bands(), c));
                }
            }
            if sig.len() > 0 && old(self).bands() > 0 {
                assert(band_used(sig, r as nat, old(self).bands(), 0));
                lemma_added_is_in_bucket(old(self).buckets(0), band_of(sig, r as nat, 0), id);
                assert(self.buckets(0) == bucket_added(old(self).buckets(0), band_of(sig, r as nat, 0), id));
                assert(bucket_of(self.buckets(0), band_of(sig, self.rows(), 0)).contains(id));
            }
        }
    }
}

fn find_bucket(v: &Vec<Bucket>, key: &[u64]) -> (r: Option<usize>)
    ensures
        r is None <==> !has_key(band_view(v@), key@),
        r matches Some(j) ==> j == key_index(band_view(v@), key@) && j < v@.len() && band_view(v@)[j as int].0 == key@,
{
    let ghost bv = band_view(v@);
    let mut j: usize = 0;
    while j < v.len()
        invariant
            j <= v@.len(),
            bv == band_view(v@),
            forall|i: int| 0 <= i < j ==> bv[i].0 != key@,
        decreases v@.len() - j,
    {
        assert(bv[j as int] == v@[j as int].view_pair());
        if same_rows(&v[j].key, key) {
            proof {
                let k = key_index(bv, key@);
                assert(0 <= j < bv.len() && bv[j as int].0 == key@ && forall|i: int| 0 <= i < j ==> bv[i].0 != key@);
                if k < j {
                    assert(bv[k].0 != key@);
                }
                if j < k {
                    assert(bv[j as int].0 != key@);
                }
            }
            return Some(j);
        }
        j += 1;
    }
    None
}

#[verifier::rlimit(80)]
#[verifier::spinoff_prover]
fn table_added(table: Vec<Bucket>, band: Vec<u64>, id: &str) -> (t: Vec<Bucket>)
    ensures
        band_view(t@) == bucket_added(band_view(table@), band@, id@),
{
    let mut table = table;
    let ghost t0 = table@;
    let ghost bv = band_view(table@);
    match find_bucket(&table, band.as_slice()) {
        Some(j) => {
            proof {
                assert(has_key(bv, band@));
            }
            let ghost upd = bv.update(j as int, (band@, add_once(bv[j as int].1, id@)));
            assert(bucket_added(bv, band@, id@) == upd);
            let bucket = table.remove(j);
            assert(bucket == t0[j as int]);
            let bucket = with_id(bucket, id);
            assert(bucket.view_pair() == (band@, add_once(bv[j as int].1, id@)));
            table.insert(j, bucket);
            proof {
                assert(table@ =~= t0.update(j as int, bucket));
                assert(band_view(table@) =~= upd);
            }
        },
        None => {
            let mut ids: Vec<String> = Vec::new();
            ids.push(String::from_str(id));
            let fresh = Bucket { key: band, ids };
            assert(fresh.view_pair() == (band@, seq![id@]));
            table.push(fresh);
            proof {
                assert(band_view(table@) =~= bv.push((band@, seq![id@])));
            }
        },
    }
    table
}

/// One more document taken: `without` grows by it where it differs.
proof fn lemma_without_step(s: Seq<Seq<char>>, x: Seq<char>, i: int)
    requires
        0 <= i < s.len(),
    ensures
        without(s.take(i + 1), x) == (if s[i] != x { without(s.take(i), x).push(s[i]) } else { without(s.take(i), x) }),
{
    reveal(Seq::filter);
    assert(s.take(i + 1).drop_last() =~= s.take(i));
    assert(s.take(i + 1).last() == s[i]);
}

fn ids_without(ids: &Vec<String>, id: &str) -> (r: Vec<String>)
    ensures
        texts_of(r@) == without(texts_of(ids@), id@),
{
    let ghost v = texts_of(ids@);
    let mut r: Vec<String> = Vec::new();
    let mut i: usize = 0;
    proof {
        reveal(Seq::filter);
        assert(without(v.take(0), id@) =~= Seq::<Seq<char>>::empty());
    }
    while i < ids.len()
        invariant
            i <= ids@.len(),
            v == texts_of(ids@),
            texts_of(r@) == without(v.take(i as int), id@),
        decreases ids@.len() - i,
    {
        proof {
            lemma_without_step(v, id@, i as int);
        }
        assert(v[i as int] == ids@[i as int]@);
        if !same_text(ids[i].as_str(), id) {
            let ghost before = texts_of(r@);
            r.push(String::from_str(ids[i].as_str()));
            assert(texts_of(r@) =~= before.push(v[i as int]));
        }
        i += 1;
    }
    assert(v.take(i as int) =~= v);
    r
}

#[verifier::rlimit(80)]
#[verifier::spinoff_prover]
fn table_removed(table: Vec<Bucket>, band: Vec<u64>, id: &str) -> (t: Vec<Bucket>)
    ensures
        band_view(t@) == bucket_removed(band_view(table@), band@, id@),
{
    let mut table = table;
    let ghost t0 = table@;
    let ghost bv = band_view(table@);
    match find_bucket(&table, band.as_slice()) {
        Some(j) => {
            proof {
                assert(has_key(bv, band@));
            }
            let ghost upd = bv.update(j as int, (band@, without(bv[j as int].1, id@)));
            assert(bucket_removed(bv, band@, id@) == upd);
            let bucket = table.remove(j);
            assert(bucket == t0[j as int]);
            let kept = ids_without(&bucket.ids, id);
            let bucket = Bucket { key: bucket.key, ids: kept };
            assert(bucket.view_pair() == (band@, without(bv[j as int].1, id@)));
            table.insert(j, bucket);
            proof {
                assert(table@ =~= t0.update(j as int, bucket));
                assert(band_view(table@) =~= upd);
            }
        },
        None => {},
    }
    table
}

/// The positions at which two signatures agree; none where their lengths
/// differ.
pub fn matching_positions(sig1: &[u64], sig2: &[u64]) -> (n: usize)
    ensures
        sig1@.len() != sig2@.len() ==> n == 0,
        sig1@.len() == sig2@.len() ==> n == agreeing(sig1@, sig2@, sig1@.len() as int),
{
    if sig1.len() != sig2.len() {
        return 0;
    }
    let mut n: usize = 0;
    let mut i: usize = 0;
    while i < sig1.len()
        invariant
            i <= sig1@.len(),
            sig1@.len() == sig2@.len(),
            n <= i,
            n == agreeing(sig1@, sig2@, i as int),
        decreases sig1@.len() - i,
    {
        if sig1[i] == sig2[i] {
            n += 1;
        }
        i += 1;
    }
    n
}

/// The numbers of an index.
#[derive(Debug, Clone, Copy)]
pub struct LSHIndexCounts {
    /// Documents with a signature
    pub num_documents: usize,
    /// Bands
    pub num_bands: usize,
    /// Rows per band
    pub rows_per_band: usize,
    /// Buckets over all bands
    pub total_buckets: usize,
}

/// The first bucket keyed `key` is the one at `j` where no earlier one is.
proof fn lemma_key_index(bv: Seq<(Seq<u64>, Seq<Seq<char>>)>, key: Seq<u64>, j: int)
    requires
        0 <= j < bv.len(),
        bv[j].0 == key,
        forall|i: int| 0 <= i < j ==> bv[i].0 != key,
    ensures
        has_key(bv, key),
        key_index(bv, key) == j,
{
    let k = key_index(bv, key);
    if k < j {
        assert(bv[k].0 != key);
    }
    if j < k {
        assert(bv[j].0 != key);
    }
}

/// A document just hashed to `key` is in the bucket keyed `key`.
pub proof fn lemma_added_is_in_bucket(bv: Seq<(Seq<u64>, Seq<Seq<char>>)>, key: Seq<u64>, id: Seq<char>)
    ensures
        bucket_of(bucket_added(bv, key, id), key).contains(id),
{
    let nb = bucket_added(bv, key, id);
    if has_key(bv, key) {
        let w = choose|w: int| 0 <= w < bv.len() && bv[w].0 == key;
        lemma_first_exists(bv, key, w);
        lemma_key_index(bv, key, key_index(bv, key));
        let k = key_index(bv, key);
        lemma_key_index(nb, key, k);
        let ids = add_once(bv[k].1, id);
        if !bv[k].1.contains(id) {
            assert(ids[ids.len() - 1] == id);
        }
    } else {
        let k = bv.len() as int;
        assert forall|i: int| 0 <= i < k implies nb[i].0 != key by {
            if nb[i].0 == key {
                assert(bv[i].0 == key);
            }
        }
        lemma_key_index(nb, key, k);
        assert(nb[k].1 == seq![id]);
        assert(nb[k].1[0] == id);
    }
}

/// Where some bucket is keyed `key`, there is a first one.
proof fn lemma_first_exists(bv: Seq<(Seq<u64>, Seq<Seq<char>>)>, key: Seq<u64>, w: int)
    requires
        0 <= w < bv.len(),
        bv[w].0 == key,
    ensures
        0 <= key_index(bv, key) < bv.len(),
        bv[key_index(bv, key)].0 == key,
        forall|i: int| 0 <= i < key_index(bv, key) ==> bv[i].0 != key,
    decreases w,
{
    if exists|i: int| 0 <= i < w && bv[i].0 == key {
        let i = choose|i: int| 0 <= i < w && bv[i].0 == key;
        lemma_first_exists(bv, key, i);
    } else {
        lemma_key_index(bv, key, w);
    }
}

fn with_id(bucket: Bucket, id: &str) -> (b: Bucket)
    ensures
        b.view_pair() == (bucket.view_pair().0, add_once(bucket.view_pair().1, id@)),
{
    let mut bucket = bucket;
    let ghost ids0 = texts_of(bucket.ids@);
    if !holds_id(&bucket.ids, id) {
        bucket.ids.push(String::from_str(id));
        assert(texts_of(bucket.ids@) =~= ids0.push(id@));
    }
    bucket
}

fn merge_ids(out: &mut Vec<String>, ids: &Vec<String>)
    requires
        texts_of(old(out)@).no_duplicates(),
    ensures
        texts_of(final(out)@).no_duplicates(),
        forall|id: Seq<char>| #[trigger] texts_of(final(out)@).contains(id) <==> (texts_of(old(out)@).contains(id) || texts_of(ids@).contains(id)),
{
    let ghost before = texts_of(out@);
    let ghost bucket = texts_of(ids@);
    let mut k: usize = 0;
    while k < ids.len()
        invariant
            k <= ids@.len(),
            bucket == texts_of(ids@),
            before == texts_of(old(out)@),
            texts_of(out@).no_duplicates(),
            forall|id: Seq<char>| #[trigger] texts_of(out@).contains(id) <==> (before.contains(id)
                || bucket.take(k as int).contains(id)),
        decreases ids@.len() - k,
    {
        let ghost cur = texts_of(out@);
        let ghost x = bucket[k as int];
        assert(x == ids@[k as int]@);
        assert(bucket.take(k + 1) =~= bucket.take(k as int).push(x));
        if !holds_id(out, ids[k].as_str()) {
            out.push(String::from_str(ids[k].as_str()));
            assert(texts_of(out@) =~= cur.push(x));
            proof {
                assert forall|id: Seq<char>| #[trigger] cur.push(x).contains(id) <==> (cur.contains(id) || id == x) by {
                    if cur.push(x).contains(id) {
                        let i = choose|i: int| 0 <= i < cur.push(x).len() && cur.push(x)[i] == id;
                        if i < cur.len() {
                            assert(cur[i] == id);
                        }
                    }
                    if id == x {
                        assert(cur.push(x)[cur.len() as int] == x);
                    }
                    if cur.contains(id) {
                        let i = choose|i: int| 0 <= i < cur.len() && cur[i] == id;
                        assert(cur.push(x)[i] == id);
                    }
                }
            }
        } else {
            assert(cur.contains(x));
        }
        proof {
            let t = bucket.take(k as int);
            assert forall|id: Seq<char>| #[trigger] t.push(x).contains(id) <==> (t.contains(id) || id == x) by {
                if t.push(x).contains(id) {
                    let i = choose|i: int| 0 <= i < t.push(x).len() && t.push(x)[i] == id;
                    if i < t.len() {
                        assert(t[i] == id);
                    }
                }
                if id == x {
                    assert(t.push(x)[t.len() as int] == x);
                }
                if t.contains(id) {
                    let i = choose|i: int| 0 <= i < t.len() && t[i] == id;
                    assert(t.push(x)[i] == id);
                }
            }
        }
        k += 1;
    }
    assert(bucket.take(k as int) =~= bucket);
}

fn same_rows(a: &Vec<u64>, b: &[u64]) -> (r: bool)
    ensures
        r == (a@ == b@),
{
    if a.len() != b.len() {
        return false;
    }
    let mut i: usize = 0;
    while i < a.len()
        invariant
            i <= a@.len(),
            a@.len() == b@.len(),
            forall|j: int| 0 <= j < i ==> a@[j] == b@[j],
        decreases a@.len() - i,
    {
        if a[i] != b[i] {
            return false;
        }
        i += 1;
    }
    assert(a@ =~= b@);
    true
}

fn holds_id(ids: &Vec<String>, id: &str) -> (r: bool)
    ensures
        r == texts_of(ids@).contains(id@),
{
    let ghost v = texts_of(ids@);
    let mut i: usize = 0;
    while i < ids.len()
        invariant
            i <= ids@.len(),
            v == texts_of(ids@),
            forall|j: int| 0 <= j < i ==> v[j] != id@,
        decreases ids@.len() - i,
    {
        assert(v[i as int] == ids@[i as int]@);
        if same_text(ids[i].as_str(), id) {
            return true;
        }
        i += 1;
    }
    false
}

fn rows_between(sig: &[u64], start: usize, end: usize) -> (r: Vec<u64>)
    requires
        start <= end <= sig@.len(),
    ensures
        r@ == sig@.subrange(start as int, end as int),
{
    let mut r: Vec<u64> = Vec::new();
    let mut i: usize = start;
    while i < end
        invariant
            start <= i <= end <= sig@.len(),
            r@ == sig@.subrange(start as int, i as int),
        decreases end - i,
    {
        r.push(sig[i]);
        assert(sig@.subrange(start as int, i + 1) =~= sig@.subrange(start as int, i as int).push(sig@[i as int]));
        i += 1;
    }
    r
}

} // verus!
