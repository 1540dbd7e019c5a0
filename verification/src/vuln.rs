//! The database of known-vulnerable driver samples: its records, how it is built
//! from the driver entries of a LOLDrivers document, and lookups by SHA-256 digest.

use vstd::prelude::*;
use std::collections::HashMap;
use crate::digest::{decode_hex_chars, hex_bytes, hex_lower, is_hex_text, law_hex_roundtrip};
use crate::text::{chars_of, join, seq_join, strings_view, trim_chars, trimmed};

verus! {

broadcast use vstd::std_specs::hash::group_hash_axioms;

/// One known-vulnerable file of a driver entry.
#[derive(Debug, Clone)]
pub struct VulnSample {
    pub filename: String,
    pub sha256: String,
    pub md5: String,
    pub sha1: String,
    pub publisher: String,
    pub company: String,
    pub description: String,
    pub product: String,
    pub product_version: String,
    pub file_version: String,
    pub signature: String,
    pub original_filename: String,
}

/// The model of a `VulnSample`: each field as a character sequence.
pub struct SampleView {
    pub filename: Seq<char>,
    pub sha256: Seq<char>,
    pub md5: Seq<char>,
    pub sha1: Seq<char>,
    pub publisher: Seq<char>,
    pub company: Seq<char>,
    pub description: Seq<char>,
    pub product: Seq<char>,
    pub product_version: Seq<char>,
    pub file_version: Seq<char>,
    pub signature: Seq<char>,
    pub original_filename: Seq<char>,
}

impl View for VulnSample {
    type V = SampleView;

    open spec fn view(&self) -> SampleView {
        SampleView {
            filename: self.filename@,
            sha256: self.sha256@,
            md5: self.md5@,
            sha1: self.sha1@,
            publisher: self.publisher@,
            company: self.company@,
            description: self.description@,
            product: self.product@,
            product_version: self.product_version@,
            file_version: self.file_version@,
            signature: self.signature@,
            original_filename: self.original_filename@,
        }
    }
}

/// The name under which a sample is shown: its original file name, else its file
/// name, else its product, else `<unknown>`.
pub open spec fn sample_display_name(s: SampleView) -> Seq<char> {
    if s.original_filename.len() != 0 {
        s.original_filename
    } else if s.filename.len() != 0 {
        s.filename
    } else if s.product.len() != 0 {
        s.product
    } else {
        "<unknown>"@
    }
}

/// The publisher under which a sample is shown: its publisher, else its company,
/// else `<unknown>`.
pub open spec fn sample_publisher(s: SampleView) -> Seq<char> {
    if s.publisher.len() != 0 {
        s.publisher
    } else if s.company.len() != 0 {
        s.company
    } else {
        "<unknown>"@
    }
}

impl VulnSample {
    /// A field-by-field copy.
    pub fn duplicate(&self) -> (r: VulnSample)
        ensures
            r@ == self@,
    {
        VulnSample {
            filename: self.filename.clone(),
            sha256: self.sha256.clone(),
            md5: self.md5.clone(),
            sha1: self.sha1.clone(),
            publisher: self.publisher.clone(),
            company: self.company.clone(),
            description: self.description.clone(),
            product: self.product.clone(),
            product_version: self.product_version.clone(),
            file_version: self.file_version.clone(),
            signature: self.signature.clone(),
            original_filename: self.original_filename.clone(),
        }
    }

    /// The name under which the sample is shown.
    pub fn display_name(&self) -> (r: String)
        ensures
            r@ == sample_display_name(self@),
    {
        if !self.original_filename.as_str().is_empty() {
            self.original_filename.clone()
        } else if !self.filename.as_str().is_empty() {
            self.filename.clone()
        } else if !self.product.as_str().is_empty() {
            self.product.clone()
        } else {
            String::from_str("<unknown>")
        }
    }

    /// The publisher under which the sample is shown.
    pub fn publisher(&self) -> (r: &str)
        ensures
            r@ == sample_publisher(self@),
    {
        if !self.publisher.as_str().is_empty() {
            self.publisher.as_str()
        } else if !self.company.as_str().is_empty() {
            self.company.as_str()
        } else {
            "<unknown>"
        }
    }
}

/// A driver entry of the database document, with its known-vulnerable samples.
#[derive(Debug, Clone)]
pub struct DriverEntry {
    pub id: String,
    pub category: String,
    pub tags: Vec<String>,
    pub author: String,
    pub mitre_id: String,
    pub created: String,
    pub resources: Vec<String>,
    pub known_vulnerable_samples: Vec<VulnSample>,
}

/// The model of a `DriverEntry`.
pub struct DriverView {
    pub id: Seq<char>,
    pub category: Seq<char>,
    pub tags: Seq<Seq<char>>,
    pub author: Seq<char>,
    pub mitre_id: Seq<char>,
    pub created: Seq<char>,
    pub resources: Seq<Seq<char>>,
    pub samples: Seq<SampleView>,
}

/// The models of a list of samples.
pub open spec fn samples_view(v: Seq<VulnSample>) -> Seq<SampleView> {
    v.map_values(|s: VulnSample| s@)
}

impl View for DriverEntry {
    type V = DriverView;

    open spec fn view(&self) -> DriverView {
        DriverView {
            id: self.id@,
            category: self.category@,
            tags: strings_view(self.tags@),
            author: self.author@,
            mitre_id: self.mitre_id@,
            created: self.created@,
            resources: strings_view(self.resources@),
            samples: samples_view(self.known_vulnerable_samples@),
        }
    }
}

/// What the database reports for a digest: the driver's classification and the sample.
#[derive(Debug, Clone)]
pub struct VulnMatch {
    pub driver_category: String,
    pub driver_tags: Vec<String>,
    pub driver_author: String,
    pub driver_mitre: String,
    pub driver_resources: Vec<String>,
    pub sample: VulnSample,
}

/// The model of a `VulnMatch`.
pub struct MatchView {
    pub category: Seq<char>,
    pub tags: Seq<Seq<char>>,
    pub author: Seq<char>,
    pub mitre: Seq<char>,
    pub resources: Seq<Seq<char>>,
    pub sample: SampleView,
}

impl View for VulnMatch {
    type V = MatchView;

    open spec fn view(&self) -> MatchView {
        MatchView {
            category: self.driver_category@,
            tags: strings_view(self.driver_tags@),
            author: self.driver_author@,
            mitre: self.driver_mitre@,
            resources: strings_view(self.driver_resources@),
            sample: self.sample@,
        }
    }
}

/// How risky a match is shown to be: the driver's category, else its tags joined with
/// `, `, else `N/A`.
pub open spec fn match_risk(m: MatchView) -> Seq<char> {
    if m.category.len() != 0 {
        m.category
    } else if m.tags.len() != 0 {
        seq_join(m.tags, ", "@)
    } else {
        "N/A"@
    }
}

impl VulnMatch {
    /// How risky the match is shown to be.
    pub fn risk_display(&self) -> (r: String)
        ensures
            r@ == match_risk(self@),
    {
        if !self.driver_category.as_str().is_empty() {
            self.driver_category.clone()
        } else if self.driver_tags.len() != 0 {
            join(&self.driver_tags, ", ")
        } else {
            String::from_str("N/A")
        }
    }
}

/// A copy of a list of strings.
fn clone_strings(v: &Vec<String>) -> (r: Vec<String>)
    ensures
        strings_view(r@) == strings_view(v@),
{
    let mut r: Vec<String> = Vec::new();
    let mut i: usize = 0;
    while i < v.len()
        invariant
            i <= v@.len(),
            r@ == v@.take(i as int),
        decreases v@.len() - i,
    {
        r.push(v[i].clone());
        i += 1;
        assert(r@ =~= v@.take(i as int));
    }
    assert(v@.take(i as int) =~= v@);
    r
}

/// The digest that a sample's `SHA256` text stands for: the text without surrounding
/// white space, when it is exactly 64 hexadecimal digits.
pub open spec fn digest_key(s: Seq<char>) -> Option<Seq<u8>> {
    let t = trimmed(s);
    if is_hex_text(t) && hex_bytes(t).len() == 32 {
        Some(hex_bytes(t))
    } else {
        None
    }
}

/// What the database reports for a sample of a driver.
pub open spec fn match_of(d: DriverView, s: SampleView) -> MatchView {
    MatchView {
        category: d.category,
        tags: d.tags,
        author: d.author,
        mitre: d.mitre_id,
        resources: d.resources,
        sample: s,
    }
}

/// The (digest, match) records of a driver's samples, in order, for the samples whose
/// `SHA256` text stands for a digest.
pub open spec fn sample_records(d: DriverView, samples: Seq<SampleView>) -> Seq<(Seq<u8>, MatchView)>
    decreases samples.len(),
{
    if samples.len() == 0 {
        Seq::empty()
    } else {
        let prev = sample_records(d, samples.drop_last());
        match digest_key(samples.last().sha256) {
            Some(k) => prev.push((k, match_of(d, samples.last()))),
            None => prev,
        }
    }
}

/// The records of one document entry; an entry that is not a driver gives none.
pub open spec fn entry_records(e: Option<DriverView>) -> Seq<(Seq<u8>, MatchView)> {
    match e {
        Some(d) => sample_records(d, d.samples),
        None => Seq::empty(),
    }
}

/// The records of all entries, in document order.
pub open spec fn document_records(entries: Seq<Option<DriverView>>) -> Seq<(Seq<u8>, MatchView)>
    decreases entries.len(),
{
    if entries.len() == 0 {
        Seq::empty()
    } else {
        document_records(entries.drop_last()) + entry_records(entries.last())
    }
}

/// The map from digest to match in which the first record of each digest wins.
pub open spec fn first_wins(r: Seq<(Seq<u8>, MatchView)>) -> Map<Seq<u8>, MatchView>
    decreases r.len(),
{
    if r.len() == 0 {
        Map::empty()
    } else {
        let m = first_wins(r.drop_last());
        if m.contains_key(r.last().0) {
            m
        } else {
            m.insert(r.last().0, r.last().1)
        }
    }
}

/// The models of the document's entries (`None` for an entry that is not a driver).
pub open spec fn entries_view(es: Seq<Option<DriverEntry>>) -> Seq<Option<DriverView>> {
    es.map_values(
        |e: Option<DriverEntry>|
            match e {
                Some(d) => Some(d@),
                None => None,
            },
    )
}

/// The database that a list of document entries describes.
pub open spec fn database_of(entries: Seq<Option<DriverView>>) -> Map<Seq<u8>, MatchView> {
    first_wins(document_records(entries))
}

/// No digest occurs twice among the records.
pub open spec fn distinct_digests(r: Seq<(Seq<u8>, MatchView)>) -> bool {
    forall|i: int, j: int| 0 <= i < j < r.len() ==> r[i].0 != r[j].0
}

/// The keys of `first_wins` are the digests of the records, and each maps to the
/// first record with that digest.
pub proof fn lemma_first_wins(r: Seq<(Seq<u8>, MatchView)>)
    ensures
        first_wins(r).dom().finite(),
        forall|k: Seq<u8>|
            #[trigger] first_wins(r).contains_key(k) <==> exists|i: int| 0 <= i < r.len() && r[i].0 == k,
        forall|i: int|
            0 <= i < r.len() && (forall|j: int| 0 <= j < i ==> r[j].0 != r[i].0) ==> #[trigger] first_wins(r)[r[i].0]
                == r[i].1,
    decreases r.len(),
{
    if r.len() > 0 {
        let p = r.drop_last();
        lemma_first_wins(p);
        assert forall|k: Seq<u8>| #[trigger] first_wins(r).contains_key(k) <==> exists|i: int|
            0 <= i < r.len() && r[i].0 == k by {
            if first_wins(r).contains_key(k) {
                if first_wins(p).contains_key(k) {
                    let i = choose|i: int| 0 <= i < p.len() && p[i].0 == k;
                    assert(r[i] == p[i]);
                } else {
                    assert(r[r.len() - 1].0 == k);
                }
            }
            if exists|i: int| 0 <= i < r.len() && r[i].0 == k {
                let i = choose|i: int| 0 <= i < r.len() && r[i].0 == k;
                if i < r.len() - 1 {
                    assert(p[i] == r[i]);
                }
            }
        }
        assert forall|i: int|
            0 <= i < r.len() && (forall|j: int| 0 <= j < i ==> r[j].0 != r[i].0) implies #[trigger] first_wins(r)[r[i].0]
            == r[i].1 by {
            if i < r.len() - 1 {
                assert(p[i] == r[i]);
                assert forall|j: int| 0 <= j < i implies p[j].0 != p[i].0 by {
                    assert(p[j] == r[j]);
                }
                assert(first_wins(p).contains_key(r[i].0));
            } else {
                if first_wins(p).contains_key(r[i].0) {
                    let j = choose|j: int| 0 <= j < p.len() && p[j].0 == r[i].0;
                    assert(p[j] == r[j]);
                }
            }
        }
    }
}

/// With distinct digests, `first_wins` has one key per record.
pub proof fn lemma_first_wins_len(r: Seq<(Seq<u8>, MatchView)>)
    requires
        distinct_digests(r),
    ensures
        first_wins(r).len() == r.len(),
    decreases r.len(),
{
    if r.len() > 0 {
        let p = r.drop_last();
        assert(distinct_digests(p)) by {
            assert forall|i: int, j: int| 0 <= i < j < p.len() implies p[i].0 != p[j].0 by {
                assert(p[i] == r[i] && p[j] == r[j]);
            }
        }
        lemma_first_wins_len(p);
        lemma_first_wins(p);
        if first_wins(p).contains_key(r.last().0) {
            let i = choose|i: int| 0 <= i < p.len() && p[i].0 == r.last().0;
            assert(p[i] == r[i]);
            assert(false);
        }
    }
}

/// Each record's digest is the one that its sample's `SHA256` text stands for.
pub open spec fn records_consistent(r: Seq<(Seq<u8>, MatchView)>) -> bool {
    forall|t: int| 0 <= t < r.len() ==> digest_key((#[trigger] r[t]).1.sample.sha256) == Some(r[t].0)
}

/// The bucket of a digest in the index: its first four bytes as a number.
spec fn bucket_of(k: Seq<u8>) -> u64 {
    (((k[0] as int * 256 + k[1] as int) * 256 + k[2] as int) * 256 + k[3] as int) as u64
}

fn bucket_key(k: &Vec<u8>) -> (r: u64)
    requires
        k@.len() >= 4,
    ensures
        r == bucket_of(k@),
{
    ((k[0] as u64 * 256 + k[1] as u64) * 256 + k[2] as u64) * 256 + k[3] as u64
}

fn bytes_equal(a: &Vec<u8>, b: &Vec<u8>) -> (r: bool)
    ensures
        r == (a@ == b@),
{
    if a.len() != b.len() {
        return false;
    }
    let mut i: usize = 0;
    while i < a.len()
        invariant
            a@.len() == b@.len(),
            i <= a@.len(),
            forall|j: int| 0 <= j < i ==> a@[j] == b@[j],
        decreases a@.len() - i,
    {
        if a[i] != b[i] {
            return false;
        }
        i += 1;
    }
    assert(a@ =~= b@);
    true
}

/// A digest held by the index and what is reported for it.
struct KnownDigest {
    digest: Vec<u8>,
    info: VulnMatch,
}

/// Known digests in insertion order, with a hash index from the first four bytes of a
/// digest to the positions of the digests that start with them.
struct DigestIndex {
    known: Vec<KnownDigest>,
    buckets: HashMap<u64, Vec<usize>>,
}

impl DigestIndex {
    spec fn records(&self) -> Seq<(Seq<u8>, MatchView)> {
        self.known@.map_values(|e: KnownDigest| (e.digest@, e.info@))
    }

    spec fn wf(&self) -> bool {
        &&& forall|i: int|
            0 <= i < self.known@.len() ==> (#[trigger] self.known@[i]).digest@.len() == 32
        &&& forall|i: int, j: int|
            0 <= i < j < self.known@.len() ==> (#[trigger] self.known@[i]).digest@ != (
            #[trigger] self.known@[j]).digest@
        &&& forall|i: int|
            0 <= i < self.known@.len() ==> {
                let b = bucket_of((#[trigger] self.known@[i]).digest@);
                &&& self.buckets@.contains_key(b)
                &&& exists|t: int|
                    0 <= t < self.buckets@[b]@.len() && #[trigger] self.buckets@[b]@[t] as int == i
            }
        &&& forall|b: u64, t: int|
            #![trigger self.buckets@[b]@[t]]
            self.buckets@.contains_key(b) && 0 <= t < self.buckets@[b]@.len() ==> {
                let i = self.buckets@[b]@[t] as int;
                &&& i < self.known@.len()
                &&& bucket_of(self.known@[i].digest@) == b
            }
    }

    proof fn lemma_records_distinct(&self)
        requires
            self.wf(),
        ensures
            distinct_digests(self.records()),
            self.records().len() == self.known@.len(),
            forall|i: int|
                0 <= i < self.known@.len() ==> #[trigger] self.records()[i] == (
                self.known@[i].digest@,
                self.known@[i].info@,
            ),
    {
        assert forall|i: int, j: int| 0 <= i < j < self.records().len() implies self.records()[i].0
            != self.records()[j].0 by {
            assert(self.known@[i].digest@ != self.known@[j].digest@);
        }
    }

    fn new() -> (r: DigestIndex)
        ensures
            r.wf(),
            r.records() == Seq::<(Seq<u8>, MatchView)>::empty(),
    {
        let r = DigestIndex { known: Vec::new(), buckets: HashMap::new() };
        assert(r.records() =~= Seq::<(Seq<u8>, MatchView)>::empty());
        r
    }

    /// The position of `key` among the known digests, if it is there.
    fn position(&self, key: &Vec<u8>) -> (r: Option<usize>)
        requires
            self.wf(),
        ensures
            match r {
                Some(i) => i < self.known@.len() && self.known@[i as int].digest@ == key@,
                None => forall|i: int|
                    0 <= i < self.known@.len() ==> #[trigger] self.known@[i].digest@ != key@,
            },
    {
        if key.len() != 32 {
            return None;
        }
        let b = bucket_key(key);
        match self.buckets.get(&b) {
            None => {
                assert forall|i: int| 0 <= i < self.known@.len() implies #[trigger] self.known@[i].digest@
                    != key@ by {
                    if self.known@[i].digest@ == key@ {
                        assert(self.buckets@.contains_key(bucket_of(self.known@[i].digest@)));
                    }
                }
                None
            },
            Some(bucket) => {
                let mut t: usize = 0;
                while t < bucket.len()
                    invariant
                        self.wf(),
                        key@.len() == 32,
                        b == bucket_of(key@),
                        self.buckets@.contains_key(b),
                        *bucket == self.buckets@[b],
                        t <= bucket@.len(),
                        forall|s: int|
                            0 <= s < t ==> self.known@[bucket@[s] as int].digest@ != key@,
                    decreases bucket@.len() - t,
                {
                    let i = bucket[t];
                    assert(self.buckets@[b]@[t as int] == i);
                    if bytes_equal(&self.known[i].digest, key) {
                        return Some(i);
                    }
                    t += 1;
                }
                assert forall|i: int| 0 <= i < self.known@.len() implies #[trigger] self.known@[i].digest@
                    != key@ by {
                    if self.known@[i].digest@ == key@ {
                        assert(self.buckets@.contains_key(bucket_of(self.known@[i].digest@)));
                        let s = choose|s: int| 0 <= s < bucket@.len() && bucket@[s] as int == i;
                        assert(s < t);
                        assert(self.known@[bucket@[s] as int].digest@ != key@);
                    }
                }
                None
            },
        }
    }

    /// Adds a digest that the index does not hold yet.
    fn add(&mut self, key: Vec<u8>, info: VulnMatch)
        requires
            old(self).wf(),
            key@.len() == 32,
            forall|i: int|
                0 <= i < old(self).known@.len() ==> #[trigger] old(self).known@[i].digest@ != key@,
        ensures
            final(self).wf(),
            final(self).records() == old(self).records().push((key@, info@)),
    {
        let b = bucket_key(&key);
        let n = self.known.len();
        let ghost old_buckets = self.buckets@;
        self.known.push(KnownDigest { digest: key, info });
        let mut bucket = match self.buckets.remove(&b) {
            Some(v) => v,
            None => Vec::new(),
        };
        let ghost before = bucket@;
        bucket.push(n);
        self.buckets.insert(b, bucket);
        proof {
            assert(self.buckets@ == old_buckets.insert(b, self.buckets@[b]));
            assert(old_buckets.contains_key(b) ==> before == old_buckets[b]@);
            assert(!old_buckets.contains_key(b) ==> before == Seq::<usize>::empty());
            assert(self.buckets@[b]@ == before.push(n));
            assert forall|i: int| 0 <= i < self.known@.len() implies {
                let bi = bucket_of((#[trigger] self.known@[i]).digest@);
                &&& self.buckets@.contains_key(bi)
                &&& exists|t: int|
                    0 <= t < self.buckets@[bi]@.len() && #[trigger] self.buckets@[bi]@[t] as int == i
            } by {
                let bi = bucket_of(self.known@[i].digest@);
                if i < n {
                    assert(self.known@[i] == old(self).known@[i]);
                    let s = choose|s: int|
                        0 <= s < old_buckets[bi]@.len() && #[trigger] old_buckets[bi]@[s] as int == i;
                    if bi == b {
                        assert(self.buckets@[b]@[s] == before[s]);
                    } else {
                        assert(self.buckets@[bi] == old_buckets[bi]);
                    }
                } else {
                    assert(self.buckets@[b]@[before.len() as int] == n);
                }
            }
            assert forall|c: u64, t: int|
                #![trigger self.buckets@[c]@[t]]
                self.buckets@.contains_key(c) && 0 <= t < self.buckets@[c]@.len() implies {
                let i = self.buckets@[c]@[t] as int;
                &&& i < self.known@.len()
                &&& bucket_of(self.known@[i].digest@) == c
            } by {
                if c == b {
                    if t < before.len() {
                        assert(old_buckets[b]@[t] == before[t]);
                        assert(self.known@[before[t] as int] == old(self).known@[before[t] as int]);
                    }
                } else {
                    assert(self.buckets@[c] == old_buckets[c]);
                    let i = old_buckets[c]@[t] as int;
                    assert(self.known@[i] == old(self).known@[i]);
                }
            }
            assert forall|i: int, j: int|
                0 <= i < j < self.known@.len() implies (#[trigger] self.known@[i]).digest@ != (
                #[trigger] self.known@[j]).digest@ by {
                assert(self.known@[i] == old(self).known@[i]);
                if j < n {
                    assert(self.known@[j] == old(self).known@[j]);
                }
            }
            assert(self.records() =~= old(self).records().push((key@, info@)));
        }
    }
}


/// The database of known-vulnerable driver samples, keyed by SHA-256 digest.
pub struct VulnDb {
    index: DigestIndex,
}

impl VulnDb {
    #[verifier::type_invariant]
    spec fn inv(self) -> bool {
        &&& self.index.wf()
        &&& records_consistent(self.index.records())
    }
}

impl View for VulnDb {
    type V = Map<Seq<u8>, MatchView>;

    /// Each digest that the database holds, with what is reported for it.
    closed spec fn view(&self) -> Map<Seq<u8>, MatchView> {
        first_wins(self.index.records())
    }
}

/// What looking up a hexadecimal digest text finds in a database.
pub open spec fn lookup_in(db: Map<Seq<u8>, MatchView>, s: Seq<char>) -> Option<MatchView> {
    match digest_key(s) {
        Some(k) => if db.contains_key(k) {
            Some(db[k])
        } else {
            None
        },
        None => None,
    }
}

/// The digest that a text stands for, computed; `None` when it stands for none.
fn digest_of_text(s: &str) -> (r: Option<Vec<u8>>)
    ensures
        match digest_key(s@) {
            Some(k) => r matches Some(v) && v@ == k,
            None => r is None,
        },
{
    let t = trim_chars(&chars_of(s));
    match decode_hex_chars(&t) {
        Some(bytes) => if bytes.len() == 32 {
            Some(bytes)
        } else {
            None
        },
        None => None,
    }
}

/// The records of `entries[..i]` followed by those of the first `j` samples of `d`.
spec fn records_so_far(
    entries: Seq<Option<DriverView>>,
    i: int,
    d: DriverView,
    j: int,
) -> Seq<(Seq<u8>, MatchView)> {
    document_records(entries.take(i)) + sample_records(d, d.samples.take(j))
}

impl VulnDb {
    /// Builds the database from the entries of a document, in order. An entry that is
    /// not a driver (`None`) is skipped, as is every sample whose `SHA256` text is not
    /// 64 hexadecimal digits once surrounding white space is removed; when several
    /// samples have the same digest, the first one is kept.
    pub fn build_from_entries(entries: &Vec<Option<DriverEntry>>) -> (r: Result<VulnDb, String>)
        ensures
            r matches Ok(db) && db@ == database_of(entries_view(entries@)),
    {
        let ghost ev = entries_view(entries@);
        let mut index = DigestIndex::new();
        let mut i: usize = 0;
        assert(ev.take(0) =~= Seq::<Option<DriverView>>::empty());
        while i < entries.len()
            invariant
                ev == entries_view(entries@),
                ev.len() == entries@.len(),
                i <= entries@.len(),
                index.wf(),
                records_consistent(index.records()),
                first_wins(index.records()) == first_wins(document_records(ev.take(i as int))),
            decreases entries@.len() - i,
        {
            assert(ev.take(i + 1).drop_last() =~= ev.take(i as int));
            match &entries[i] {
                None => {
                    assert(document_records(ev.take(i + 1)) =~= document_records(ev.take(i as int)));
                },
                Some(driver) => {
                    let ghost d = driver@;
                    assert(ev[i as int] == Some(d));
                    let samples = &driver.known_vulnerable_samples;
                    let mut j: usize = 0;
                    assert(d.samples.take(0) =~= Seq::<SampleView>::empty());
                    assert(records_so_far(ev, i as int, d, 0) =~= document_records(ev.take(i as int)));
                    while j < samples.len()
                        invariant
                            d == driver@,
                            samples == &driver.known_vulnerable_samples,
                            d.samples.len() == samples@.len(),
                            j <= samples@.len(),
                            index.wf(),
                            records_consistent(index.records()),
                            first_wins(index.records()) == first_wins(
                                records_so_far(ev, i as int, d, j as int),
                            ),
                        decreases samples@.len() - j,
                    {
                        let sample = &samples[j];
                        assert(d.samples[j as int] == sample@);
                        assert(d.samples.take(j + 1).drop_last() =~= d.samples.take(j as int));
                        assert(d.samples.take(j + 1).last() == sample@);
                        let ghost before = records_so_far(ev, i as int, d, j as int);
                        let key = digest_of_text(sample.sha256.as_str());
                        match key {
                            None => {
                                assert(records_so_far(ev, i as int, d, j + 1) =~= before);
                            },
                            Some(k) => {
                                let ghost x = (k@, match_of(d, sample@));
                                assert(records_so_far(ev, i as int, d, j + 1) =~= before.push(x));
                                assert(before.push(x).drop_last() =~= before);
                                proof {
                                    index.lemma_records_distinct();
                                    lemma_first_wins(index.records());
                                }
                                match index.position(&k) {
                                    Some(p) => {
                                        assert(index.records()[p as int].0 == k@);
                                    },
                                    None => {
                                        assert(!first_wins(index.records()).contains_key(k@)) by {
                                            if first_wins(index.records()).contains_key(k@) {
                                                let q = choose|q: int|
                                                    0 <= q < index.records().len()
                                                        && index.records()[q].0 == k@;
                                                assert(index.records()[q].0 == index.known@[q].digest@);
                                            }
                                        }
                                        let info = VulnMatch {
                                            driver_category: driver.category.clone(),
                                            driver_tags: clone_strings(&driver.tags),
                                            driver_author: driver.author.clone(),
                                            driver_mitre: driver.mitre_id.clone(),
                                            driver_resources: clone_strings(&driver.resources),
                                            sample: sample.duplicate(),
                                        };
                                        assert(info@ == match_of(d, sample@));
                                        let ghost old_records = index.records();
                                        index.add(k, info);
                                        assert(index.records().drop_last() =~= old_records);
                                        assert(records_consistent(index.records())) by {
                                            assert forall|t: int| 0 <= t < index.records().len() implies digest_key(
                                                (#[trigger] index.records()[t]).1.sample.sha256,
                                            ) == Some(index.records()[t].0) by {
                                                if t < old_records.len() {
                                                    assert(index.records()[t] == old_records[t]);
                                                }
                                            }
                                        }
                                    },
                                }
                            },
                        }
                        j += 1;
                    }
                    assert(d.samples.take(j as int) =~= d.samples);
                    assert(document_records(ev.take(i + 1)) =~= records_so_far(ev, i as int, d, j as int));
                },
            }
            i += 1;
        }
        assert(ev.take(i as int) =~= ev);
        Ok(VulnDb { index })
    }

    /// Looks up the entry for a hexadecimal SHA-256 digest (either case, surrounding
    /// white space ignored); text that is not a 32-byte digest finds nothing.
    pub fn lookup(&self, sha256_hex: &str) -> (r: Option<&VulnMatch>)
        ensures
            match r {
                Some(m) => lookup_in(self@, sha256_hex@) == Some(m@),
                None => lookup_in(self@, sha256_hex@) is None,
            },
            r matches Some(m) ==> digest_key(m.sample.sha256@) == digest_key(sha256_hex@),
    {
        proof {
            use_type_invariant(self);
            self.index.lemma_records_distinct();
            lemma_first_wins(self.index.records());
        }
        match digest_of_text(sha256_hex) {
            None => None,
            Some(key) => match self.index.position(&key) {
                Some(p) => {
                    proof {
                        let r = self.index.records();
                        assert(r[p as int].0 == key@);
                        assert forall|j: int| 0 <= j < p implies r[j].0 != r[p as int].0 by {}
                        assert(first_wins(r)[r[p as int].0] == r[p as int].1);
                        assert(r[p as int] == (self.index.known@[p as int].digest@, self.index.known@[p as int].info@));
                    }
                    Some(&self.index.known[p].info)
                },
                None => {
                    proof {
                        let r = self.index.records();
                        if first_wins(r).contains_key(key@) {
                            let q = choose|q: int| 0 <= q < r.len() && r[q].0 == key@;
                            assert(r[q].0 == self.index.known@[q].digest@);
                        }
                    }
                    None
                },
            },
        }
    }

    /// The number of digests that the database holds.
    pub fn count(&self) -> (r: usize)
        ensures
            r == self@.len(),
    {
        proof {
            use_type_invariant(self);
            self.index.lemma_records_distinct();
            lemma_first_wins_len(self.index.records());
        }
        self.index.known.len()
    }
}


/// A member of the document's root object whose value is an array: its name and the
/// array's entries, each `Some` when it is a driver entry and `None` when it is not.
pub struct DocumentMember {
    pub name: String,
    pub entries: Vec<Option<DriverEntry>>,
}

/// The shape of a database document: a root array of entries, a root object (of which
/// only the members whose values are arrays are kept, in order), or anything else.
pub enum DbDocument {
    Array(Vec<Option<DriverEntry>>),
    Object(Vec<DocumentMember>),
    Other,
}

/// The entries of the first member called `name`, if any.
pub open spec fn member_entries(members: Seq<DocumentMember>, name: Seq<char>) -> Option<
    Seq<Option<DriverEntry>>,
>
    decreases members.len(),
{
    if members.len() == 0 {
        None
    } else if members[0].name@ == name {
        Some(members[0].entries@)
    } else {
        member_entries(members.drop_first(), name)
    }
}

/// The member names under which a root object may hold the driver array, in the
/// order in which they are tried.
pub open spec fn driver_array_names() -> Seq<Seq<char>> {
    seq!["VulnerableDrivers"@, "drivers"@, "entries"@, "data"@, "results"@]
}

/// The driver array of a root object: the entries of the member with the first of
/// `driver_array_names` that the object has.
pub open spec fn driver_array_from(members: Seq<DocumentMember>, names: Seq<Seq<char>>) -> Option<
    Seq<Option<DriverEntry>>,
>
    decreases names.len(),
{
    if names.len() == 0 {
        None
    } else {
        match member_entries(members, names[0]) {
            Some(es) => Some(es),
            None => driver_array_from(members, names.drop_first()),
        }
    }
}

fn find_member<'a>(members: &'a Vec<DocumentMember>, name: &str) -> (r: Option<&'a Vec<Option<DriverEntry>>>)
    ensures
        match member_entries(members@, name@) {
            Some(es) => r matches Some(v) && v@ == es,
            None => r is None,
        },
{
    let wanted = String::from_str(name);
    let mut k: usize = 0;
    assert(members@.skip(0) =~= members@);
    while k < members.len()
        invariant
            k <= members@.len(),
            wanted@ == name@,
            member_entries(members@, name@) == member_entries(members@.skip(k as int), name@),
        decreases members@.len() - k,
    {
        assert(members@.skip(k as int)[0] == members@[k as int]);
        assert(members@.skip(k as int).drop_first() =~= members@.skip(k + 1));
        if members[k].name == wanted {
            return Some(&members[k].entries);
        }
        k += 1;
    }
    None
}

impl VulnDb {
    /// Builds the database from a document: from its root array, or from the first
    /// driver array that a root object holds under one of the names
    /// `VulnerableDrivers`, `drivers`, `entries`, `data`, `results`.
    pub fn load(doc: &DbDocument) -> (r: Result<VulnDb, String>)
        ensures
            match doc {
                DbDocument::Array(es) => r matches Ok(db) && db@ == database_of(entries_view(es@)),
                DbDocument::Object(ms) => match driver_array_from(ms@, driver_array_names()) {
                    Some(es) => r matches Ok(db) && db@ == database_of(entries_view(es)),
                    None => r matches Err(e) && e@ == "no recognizable driver array found in JSON"@,
                },
                DbDocument::Other => r matches Err(e) && e@ == "unexpected JSON root type"@,
            },
    {
        match doc {
            DbDocument::Array(es) => Self::build_from_entries(es),
            DbDocument::Object(ms) => {
                let names = ["VulnerableDrivers", "drivers", "entries", "data", "results"];
                let ghost spec_names = driver_array_names();
                proof {
                    assert(names@.map_values(|n: &str| n@) =~= spec_names);
                }
                let mut k: usize = 0;
                assert(spec_names.skip(0) =~= spec_names);
                while k < 5
                    invariant
                        k <= 5,
                        *doc == DbDocument::Object(*ms),
                        names@.len() == 5,
                        spec_names == driver_array_names(),
                        forall|q: int| 0 <= q < 5 ==> #[trigger] names@[q]@ == spec_names[q],
                        driver_array_from(ms@, spec_names) == driver_array_from(
                            ms@,
                            spec_names.skip(k as int),
                        ),
                    decreases 5 - k,
                {
                    assert(spec_names.skip(k as int)[0] == spec_names[k as int]);
                    assert(spec_names.skip(k as int).drop_first() =~= spec_names.skip(k + 1));
                    if let Some(es) = find_member(ms, names[k]) {
                        return Self::build_from_entries(es);
                    }
                    k += 1;
                }
                assert(spec_names.skip(5).len() == 0);
                Err(String::from_str("no recognizable driver array found in JSON"))
            },
            DbDocument::Other => Err(String::from_str("unexpected JSON root type")),
        }
    }
}


proof fn lemma_sample_record_present(d: DriverView, samples: Seq<SampleView>, j: int, k: Seq<u8>)
    requires
        0 <= j < samples.len(),
        digest_key(samples[j].sha256) == Some(k),
    ensures
        exists|q: int|
            0 <= q < sample_records(d, samples).len() && sample_records(d, samples)[q] == (
                k,
                match_of(d, samples[j]),
            ),
    decreases samples.len(),
{
    let r = sample_records(d, samples);
    if j == samples.len() - 1 {
        assert(r[r.len() - 1] == (k, match_of(d, samples[j])));
    } else {
        let p = samples.drop_last();
        assert(p[j] == samples[j]);
        lemma_sample_record_present(d, p, j, k);
        let q = choose|q: int|
            0 <= q < sample_records(d, p).len() && sample_records(d, p)[q] == (k, match_of(d, p[j]));
        assert(r[q] == sample_records(d, p)[q]);
    }
}

proof fn lemma_entry_record_present(entries: Seq<Option<DriverView>>, i: int, q: int)
    requires
        0 <= i < entries.len(),
        0 <= q < entry_records(entries[i]).len(),
    ensures
        exists|t: int|
            0 <= t < document_records(entries).len() && document_records(entries)[t]
                == entry_records(entries[i])[q],
    decreases entries.len(),
{
    let r = document_records(entries);
    let p = entries.drop_last();
    if i == entries.len() - 1 {
        let t = document_records(p).len() + q;
        assert(r[t] == entry_records(entries[i])[q]);
    } else {
        assert(p[i] == entries[i]);
        lemma_entry_record_present(p, i, q);
        let t = choose|t: int|
            0 <= t < document_records(p).len() && document_records(p)[t] == entry_records(
                p[i],
            )[q];
        assert(r[t] == document_records(p)[t]);
    }
}

/// The lower-case hexadecimal form of a 32-byte digest stands for that digest.
pub proof fn lemma_digest_key_of_hex(k: Seq<u8>)
    requires
        k.len() == 32,
    ensures
        digest_key(hex_lower(k)) == Some(k),
{
    law_hex_roundtrip(k);
    let h = hex_lower(k);
    crate::text::lemma_trimmed_unchanged(h);
}

/// Law: looking up the lower-case hexadecimal form of a 32-byte digest (the form in
/// which driver files are hashed) finds exactly what the database holds for that digest.
pub proof fn law_lookup_of_digest_text(db: Map<Seq<u8>, MatchView>, k: Seq<u8>)
    requires
        k.len() == 32,
    ensures
        lookup_in(db, hex_lower(k)) == if db.contains_key(k) {
            Some(db[k])
        } else {
            None
        },
{
    lemma_digest_key_of_hex(k);
}

/// Law: every sample of the document whose `SHA256` text stands for a digest is in the
/// database, so a driver file with that digest is found when its lower-case
/// hexadecimal digest is looked up.
pub proof fn law_listed_digest_found(entries: Seq<Option<DriverView>>, i: int, j: int, k: Seq<u8>)
    requires
        0 <= i < entries.len(),
        entries[i] is Some,
        0 <= j < entries[i]->0.samples.len(),
        digest_key(entries[i]->0.samples[j].sha256) == Some(k),
    ensures
        database_of(entries).contains_key(k),
        lookup_in(database_of(entries), hex_lower(k)) == Some(database_of(entries)[k]),
{
    let d = entries[i]->0;
    lemma_sample_record_present(d, d.samples, j, k);
    let q = choose|q: int|
        0 <= q < sample_records(d, d.samples).len() && sample_records(d, d.samples)[q] == (
            k,
            match_of(d, d.samples[j]),
        );
    lemma_entry_record_present(entries, i, q);
    let t = choose|t: int|
        0 <= t < document_records(entries).len() && document_records(entries)[t]
            == entry_records(entries[i])[q];
    lemma_first_wins(document_records(entries));
    assert(document_records(entries)[t].0 == k);
    assert(k.len() == 32) by {
        assert(hex_bytes(trimmed(d.samples[j].sha256)).len() == 32);
    }
    lemma_digest_key_of_hex(k);
}

/// Law: the database holds exactly the digests of the document's records, and for each
/// digest it reports the first record with that digest in document order.
pub proof fn law_first_record_wins(entries: Seq<Option<DriverView>>)
    ensures
        forall|k: Seq<u8>|
            #[trigger] database_of(entries).contains_key(k) <==> exists|t: int|
                0 <= t < document_records(entries).len() && document_records(entries)[t].0 == k,
        forall|t: int|
            0 <= t < document_records(entries).len() && (forall|u: int|
                0 <= u < t ==> document_records(entries)[u].0 != document_records(entries)[t].0)
                ==> #[trigger] database_of(entries)[document_records(entries)[t].0]
                == document_records(entries)[t].1,
{
    lemma_first_wins(document_records(entries));
}


/// The records of `first_wins(p + q)`: those of `p`, then those of `q` for digests
/// that `p` does not have.
pub proof fn lemma_first_wins_append(p: Seq<(Seq<u8>, MatchView)>, q: Seq<(Seq<u8>, MatchView)>, k: Seq<u8>)
    ensures
        first_wins(p + q).contains_key(k) <==> first_wins(p).contains_key(k) || first_wins(q).contains_key(k),
        first_wins(p).contains_key(k) ==> first_wins(p + q)[k] == first_wins(p)[k],
        !first_wins(p).contains_key(k) && first_wins(q).contains_key(k) ==> first_wins(p + q)[k]
            == first_wins(q)[k],
    decreases q.len(),
{
    if q.len() == 0 {
        assert(p + q =~= p);
    } else {
        lemma_first_wins_append(p, q.drop_last(), k);
        lemma_first_wins_append(p, q.drop_last(), q.last().0);
        assert((p + q).drop_last() =~= p + q.drop_last());
        assert((p + q).last() == q.last());
    }
}

/// A driver/sample pair of the document whose `SHA256` text stands for `k`.
pub open spec fn pair_has_digest(entries: Seq<Option<DriverView>>, i: int, j: int, k: Seq<u8>) -> bool {
    &&& 0 <= i < entries.len()
    &&& entries[i] is Some
    &&& 0 <= j < entries[i]->0.samples.len()
    &&& digest_key(entries[i]->0.samples[j].sha256) == Some(k)
}

proof fn lemma_sample_keys(d: DriverView, ss: Seq<SampleView>, k: Seq<u8>)
    ensures
        first_wins(sample_records(d, ss)).contains_key(k) <==> exists|j: int|
            0 <= j < ss.len() && digest_key(ss[j].sha256) == Some(k),
    decreases ss.len(),
{
    if ss.len() > 0 {
        let p = ss.drop_last();
        lemma_sample_keys(d, p, k);
        let prev = sample_records(d, p);
        match digest_key(ss.last().sha256) {
            Some(k2) => {
                assert(prev.push((k2, match_of(d, ss.last()))).drop_last() =~= prev);
            },
            None => {},
        }
        if exists|j: int| 0 <= j < ss.len() && digest_key(ss[j].sha256) == Some(k) {
            let j = choose|j: int| 0 <= j < ss.len() && digest_key(ss[j].sha256) == Some(k);
            if j < ss.len() - 1 {
                assert(p[j] == ss[j]);
            }
        }
        if exists|j: int| 0 <= j < p.len() && digest_key(p[j].sha256) == Some(k) {
            let j = choose|j: int| 0 <= j < p.len() && digest_key(p[j].sha256) == Some(k);
            assert(p[j] == ss[j]);
        }
    }
}

proof fn lemma_first_sample_wins(d: DriverView, ss: Seq<SampleView>, j: int, k: Seq<u8>)
    requires
        0 <= j < ss.len(),
        digest_key(ss[j].sha256) == Some(k),
        forall|j2: int| 0 <= j2 < j ==> digest_key(ss[j2].sha256) != Some(k),
    ensures
        first_wins(sample_records(d, ss)).contains_key(k),
        first_wins(sample_records(d, ss))[k] == match_of(d, ss[j]),
    decreases ss.len(),
{
    let p = ss.drop_last();
    let prev = sample_records(d, p);
    if j == ss.len() - 1 {
        lemma_sample_keys(d, p, k);
        if first_wins(prev).contains_key(k) {
            let j2 = choose|j2: int| 0 <= j2 < p.len() && digest_key(p[j2].sha256) == Some(k);
            assert(p[j2] == ss[j2]);
        }
        assert(prev.push((k, match_of(d, ss[j]))).drop_last() =~= prev);
    } else {
        assert(p[j] == ss[j]);
        assert forall|j2: int| 0 <= j2 < j implies digest_key(p[j2].sha256) != Some(k) by {
            assert(p[j2] == ss[j2]);
        }
        lemma_first_sample_wins(d, p, j, k);
        match digest_key(ss.last().sha256) {
            Some(k2) => {
                assert(prev.push((k2, match_of(d, ss.last()))).drop_last() =~= prev);
            },
            None => {},
        }
    }
}

pub proof fn lemma_document_keys(entries: Seq<Option<DriverView>>, k: Seq<u8>)
    ensures
        database_of(entries).contains_key(k) <==> exists|i: int, j: int| pair_has_digest(entries, i, j, k),
    decreases entries.len(),
{
    if entries.len() > 0 {
        let p = entries.drop_last();
        lemma_document_keys(p, k);
        lemma_first_wins_append(document_records(p), entry_records(entries.last()), k);
        let last = entries.len() - 1;
        match entries.last() {
            Some(d) => {
                lemma_sample_keys(d, d.samples, k);
                if exists|j: int| 0 <= j < d.samples.len() && digest_key(d.samples[j].sha256) == Some(k) {
                    let j = choose|j: int| 0 <= j < d.samples.len() && digest_key(d.samples[j].sha256) == Some(k);
                    assert(pair_has_digest(entries, last, j, k));
                }
            },
            None => {
                assert(first_wins(entry_records(entries.last())) == Map::<Seq<u8>, MatchView>::empty());
            },
        }
        if exists|i: int, j: int| pair_has_digest(p, i, j, k) {
            let (i, j) = choose|i: int, j: int| pair_has_digest(p, i, j, k);
            assert(p[i] == entries[i]);
            assert(pair_has_digest(entries, i, j, k));
        }
        if exists|i: int, j: int| pair_has_digest(entries, i, j, k) {
            let (i, j) = choose|i: int, j: int| pair_has_digest(entries, i, j, k);
            if i < last {
                assert(p[i] == entries[i]);
                assert(pair_has_digest(p, i, j, k));
            } else {
                let d = entries.last()->0;
                assert(0 <= j < d.samples.len() && digest_key(d.samples[j].sha256) == Some(k));
            }
        }
    }
}

/// Law: for a digest, the database reports the first driver/sample pair of the document
/// (in entry order, then sample order) whose `SHA256` text stands for that digest: its
/// driver's category, tags, author, MITRE technique and references, and the sample.
pub proof fn law_first_pair_wins(entries: Seq<Option<DriverView>>, i: int, j: int, k: Seq<u8>)
    requires
        pair_has_digest(entries, i, j, k),
        forall|i2: int, j2: int|
            #[trigger] pair_has_digest(entries, i2, j2, k) ==> i < i2 || (i == i2 && j <= j2),
    ensures
        database_of(entries).contains_key(k),
        database_of(entries)[k] == match_of(entries[i]->0, entries[i]->0.samples[j]),
        database_of(entries)[k].category == entries[i]->0.category,
        database_of(entries)[k].tags == entries[i]->0.tags,
        database_of(entries)[k].author == entries[i]->0.author,
        database_of(entries)[k].mitre == entries[i]->0.mitre_id,
        database_of(entries)[k].resources == entries[i]->0.resources,
        database_of(entries)[k].sample == entries[i]->0.samples[j],
    decreases entries.len(),
{
    let p = entries.drop_last();
    let last = entries.len() - 1;
    lemma_first_wins_append(document_records(p), entry_records(entries.last()), k);
    if i < last {
        assert(p[i] == entries[i]);
        assert forall|i2: int, j2: int| #[trigger] pair_has_digest(p, i2, j2, k) implies i < i2 || (i
            == i2 && j <= j2) by {
            assert(p[i2] == entries[i2]);
            assert(pair_has_digest(entries, i2, j2, k));
        }
        law_first_pair_wins(p, i, j, k);
    } else {
        lemma_document_keys(p, k);
        if database_of(p).contains_key(k) {
            let (i2, j2) = choose|i2: int, j2: int| pair_has_digest(p, i2, j2, k);
            assert(p[i2] == entries[i2]);
            assert(pair_has_digest(entries, i2, j2, k));
        }
        let d = entries[i]->0;
        assert forall|j2: int| 0 <= j2 < j implies digest_key(d.samples[j2].sha256) != Some(k) by {
            if digest_key(d.samples[j2].sha256) == Some(k) {
                assert(pair_has_digest(entries, i, j2, k));
            }
        }
        lemma_first_sample_wins(d, d.samples, j, k);
    }
}

proof fn lemma_sample_records_consistent(d: DriverView, ss: Seq<SampleView>)
    ensures
        records_consistent(sample_records(d, ss)),
    decreases ss.len(),
{
    if ss.len() > 0 {
        lemma_sample_records_consistent(d, ss.drop_last());
        let prev = sample_records(d, ss.drop_last());
        match digest_key(ss.last().sha256) {
            Some(k) => {
                let r = prev.push((k, match_of(d, ss.last())));
                assert forall|t: int| 0 <= t < r.len() implies digest_key((#[trigger] r[t]).1.sample.sha256)
                    == Some(r[t].0) by {
                    if t < prev.len() {
                        assert(r[t] == prev[t]);
                    }
                }
            },
            None => {},
        }
    }
}

proof fn lemma_document_records_consistent(entries: Seq<Option<DriverView>>)
    ensures
        records_consistent(document_records(entries)),
    decreases entries.len(),
{
    if entries.len() > 0 {
        let p = entries.drop_last();
        lemma_document_records_consistent(p);
        let a = document_records(p);
        let b = entry_records(entries.last());
        match entries.last() {
            Some(d) => lemma_sample_records_consistent(d, d.samples),
            None => {},
        }
        assert forall|t: int| 0 <= t < (a + b).len() implies digest_key((#[trigger] (a + b)[t]).1.sample.sha256)
            == Some((a + b)[t].0) by {
            if t < a.len() {
                assert((a + b)[t] == a[t]);
            } else {
                assert((a + b)[t] == b[t - a.len()]);
            }
        }
    }
}

proof fn lemma_first_wins_consistent(r: Seq<(Seq<u8>, MatchView)>)
    requires
        records_consistent(r),
    ensures
        forall|k: Seq<u8>|
            #[trigger] first_wins(r).contains_key(k) ==> digest_key(first_wins(r)[k].sample.sha256) == Some(k),
    decreases r.len(),
{
    if r.len() > 0 {
        let p = r.drop_last();
        assert(records_consistent(p)) by {
            assert forall|t: int| 0 <= t < p.len() implies digest_key((#[trigger] p[t]).1.sample.sha256)
                == Some(p[t].0) by {
                assert(p[t] == r[t]);
            }
        }
        lemma_first_wins_consistent(p);
        assert(digest_key(r[r.len() - 1].1.sample.sha256) == Some(r[r.len() - 1].0));
    }
}

/// Law: the match that the database reports for a digest carries a sample whose
/// `SHA256` text stands for that same digest.
pub proof fn law_match_sample_has_digest(entries: Seq<Option<DriverView>>, k: Seq<u8>)
    requires
        database_of(entries).contains_key(k),
    ensures
        digest_key(database_of(entries)[k].sample.sha256) == Some(k),
{
    lemma_document_records_consistent(entries);
    lemma_first_wins_consistent(document_records(entries));
}


/// What a text stands for does not change with ASCII case, with trimming, or with
/// white space added around it.
pub proof fn lemma_digest_key_normal_forms(s: Seq<char>, a: Seq<char>, b: Seq<char>)
    requires
        crate::text::all_white_space(a),
        crate::text::all_white_space(b),
    ensures
        digest_key(crate::text::to_ascii_lowercase(s)) == digest_key(s),
        digest_key(crate::text::to_ascii_uppercase(s)) == digest_key(s),
        digest_key(trimmed(s)) == digest_key(s),
        digest_key(a + s + b) == digest_key(s),
{
    crate::text::lemma_trimmed_case(s);
    crate::digest::lemma_hex_case(trimmed(s));
    crate::text::lemma_trimmed_idempotent(s);
    crate::text::lemma_trimmed_surrounded(a, s, b);
}

/// Law: a lookup does not change with the ASCII case of the text, with trimming it, or
/// with white space added around it.
pub proof fn law_lookup_ignores_case_and_space(
    db: Map<Seq<u8>, MatchView>,
    s: Seq<char>,
    a: Seq<char>,
    b: Seq<char>,
)
    requires
        crate::text::all_white_space(a),
        crate::text::all_white_space(b),
    ensures
        lookup_in(db, crate::text::to_ascii_lowercase(s)) == lookup_in(db, s),
        lookup_in(db, crate::text::to_ascii_uppercase(s)) == lookup_in(db, s),
        lookup_in(db, crate::text::to_ascii_lowercase(trimmed(s))) == lookup_in(db, s),
        lookup_in(db, crate::text::to_ascii_uppercase(trimmed(s))) == lookup_in(db, s),
        lookup_in(db, a + s + b) == lookup_in(db, s),
{
    lemma_digest_key_normal_forms(s, a, b);
    lemma_digest_key_normal_forms(trimmed(s), a, b);
}


/// Every entry of `first_wins` comes from a record with the same digest.
pub proof fn lemma_first_wins_from_record(r: Seq<(Seq<u8>, MatchView)>, k: Seq<u8>)
    requires
        first_wins(r).contains_key(k),
    ensures
        exists|t: int| 0 <= t < r.len() && r[t].0 == k && r[t].1 == first_wins(r)[k],
    decreases r.len(),
{
    let p = r.drop_last();
    if first_wins(p).contains_key(k) {
        lemma_first_wins_from_record(p, k);
        let t = choose|t: int| 0 <= t < p.len() && p[t].0 == k && p[t].1 == first_wins(p)[k];
        assert(r[t] == p[t]);
    } else {
        assert(r[r.len() - 1].0 == k);
    }
}

/// A record made of a driver/sample pair of the document.
pub open spec fn record_from_pair(entries: Seq<Option<DriverView>>, rec: (Seq<u8>, MatchView)) -> bool {
    exists|i: int, j: int|
        #[trigger] pair_has_digest(entries, i, j, rec.0) && rec.1 == match_of(
            entries[i]->0,
            entries[i]->0.samples[j],
        )
}

proof fn lemma_sample_records_from_samples(d: DriverView, ss: Seq<SampleView>, t: int)
    requires
        0 <= t < sample_records(d, ss).len(),
    ensures
        exists|j: int|
            0 <= j < ss.len() && digest_key(ss[j].sha256) == Some(sample_records(d, ss)[t].0)
                && sample_records(d, ss)[t].1 == match_of(d, ss[j]),
    decreases ss.len(),
{
    let p = ss.drop_last();
    let prev = sample_records(d, p);
    match digest_key(ss.last().sha256) {
        Some(k) => {
            let r = prev.push((k, match_of(d, ss.last())));
            if t == prev.len() {
                assert(sample_records(d, ss)[t] == r[t]);
            } else {
                lemma_sample_records_from_samples(d, p, t);
                let j = choose|j: int|
                    0 <= j < p.len() && digest_key(p[j].sha256) == Some(prev[t].0) && prev[t].1
                        == match_of(d, p[j]);
                assert(p[j] == ss[j]);
                assert(sample_records(d, ss)[t] == prev[t]);
            }
        },
        None => {
            lemma_sample_records_from_samples(d, p, t);
            let j = choose|j: int|
                0 <= j < p.len() && digest_key(p[j].sha256) == Some(prev[t].0) && prev[t].1
                    == match_of(d, p[j]);
            assert(p[j] == ss[j]);
        },
    }
}

proof fn lemma_document_records_from_pairs(entries: Seq<Option<DriverView>>, t: int)
    requires
        0 <= t < document_records(entries).len(),
    ensures
        record_from_pair(entries, document_records(entries)[t]),
    decreases entries.len(),
{
    let p = entries.drop_last();
    let a = document_records(p);
    let b = entry_records(entries.last());
    let last = entries.len() - 1;
    if t < a.len() {
        assert(document_records(entries)[t] == a[t]);
        lemma_document_records_from_pairs(p, t);
        let (i, j) = choose|i: int, j: int|
            #[trigger] pair_has_digest(p, i, j, a[t].0) && a[t].1 == match_of(p[i]->0, p[i]->0.samples[j]);
        assert(p[i] == entries[i]);
        assert(pair_has_digest(entries, i, j, a[t].0));
    } else {
        assert(document_records(entries)[t] == b[t - a.len()]);
        let d = entries.last()->0;
        lemma_sample_records_from_samples(d, d.samples, t - a.len());
        let j = choose|j: int|
            0 <= j < d.samples.len() && digest_key(d.samples[j].sha256) == Some(b[t - a.len()].0)
                && b[t - a.len()].1 == match_of(d, d.samples[j]);
        assert(pair_has_digest(entries, last, j, b[t - a.len()].0));
    }
}

/// Law: what the database holds for a digest is taken unchanged from one driver/sample
/// pair of the document whose `SHA256` text stands for that digest: the driver's
/// category, tags, author, MITRE technique and references, and the sample.
pub proof fn law_stored_match_fields(entries: Seq<Option<DriverView>>, k: Seq<u8>)
    requires
        database_of(entries).contains_key(k),
    ensures
        exists|i: int, j: int|
            #[trigger] pair_has_digest(entries, i, j, k) && {
                let m = database_of(entries)[k];
                let d = entries[i]->0;
                &&& m.category == d.category
                &&& m.tags == d.tags
                &&& m.author == d.author
                &&& m.mitre == d.mitre_id
                &&& m.resources == d.resources
                &&& m.sample == d.samples[j]
            },
{
    lemma_first_wins_from_record(document_records(entries), k);
    let t = choose|t: int|
        0 <= t < document_records(entries).len() && document_records(entries)[t].0 == k
            && document_records(entries)[t].1 == database_of(entries)[k];
    lemma_document_records_from_pairs(entries, t);
    let (i, j) = choose|i: int, j: int|
        #[trigger] pair_has_digest(entries, i, j, k) && database_of(entries)[k] == match_of(
            entries[i]->0,
            entries[i]->0.samples[j],
        );
    assert(pair_has_digest(entries, i, j, k));
}

/// Law: the first member with a given name, if any, is the one whose entries are taken.
pub proof fn law_member_entries(members: Seq<DocumentMember>, name: Seq<char>)
    ensures
        member_entries(members, name) is None <==> forall|q: int|
            0 <= q < members.len() ==> (#[trigger] members[q]).name@ != name,
        member_entries(members, name) is Some ==> exists|q: int|
            0 <= q < members.len() && members[q].name@ == name && (forall|q2: int|
                0 <= q2 < q ==> (#[trigger] members[q2]).name@ != name) && member_entries(
                members,
                name,
            ) == Some(members[q].entries@),
    decreases members.len(),
{
    if members.len() > 0 {
        let rest = members.drop_first();
        law_member_entries(rest, name);
        if members[0].name@ != name {
            if member_entries(rest, name) is Some {
                let q = choose|q: int|
                    0 <= q < rest.len() && rest[q].name@ == name && (forall|q2: int|
                        0 <= q2 < q ==> (#[trigger] rest[q2]).name@ != name) && member_entries(
                        rest,
                        name,
                    ) == Some(rest[q].entries@);
                assert(members[q + 1] == rest[q]);
                assert forall|q2: int| 0 <= q2 < q + 1 implies (#[trigger] members[q2]).name@ != name by {
                    if q2 > 0 {
                        assert(members[q2] == rest[q2 - 1]);
                    }
                }
            } else {
                assert forall|q: int| 0 <= q < members.len() implies (#[trigger] members[q]).name@ != name by {
                    if q > 0 {
                        assert(members[q] == rest[q - 1]);
                    }
                }
            }
            assert forall|q: int| 0 <= q < rest.len() && rest[q].name@ == name implies member_entries(
                members,
                name,
            ) is Some by {
                assert(members[q + 1] == rest[q]);
            }
        }
    }
}

/// Law: the driver array of a root object is looked for under `VulnerableDrivers`,
/// `drivers`, `entries`, `data` and `results`, in that order.
pub proof fn law_driver_array_names(members: Seq<DocumentMember>)
    ensures
        driver_array_from(members, driver_array_names()) == match member_entries(members, "VulnerableDrivers"@) {
            Some(es) => Some(es),
            None => match member_entries(members, "drivers"@) {
                Some(es) => Some(es),
                None => match member_entries(members, "entries"@) {
                    Some(es) => Some(es),
                    None => match member_entries(members, "data"@) {
                        Some(es) => Some(es),
                        None => member_entries(members, "results"@),
                    },
                },
            },
        },
{
    let n = driver_array_names();
    assert(n.drop_first() =~= seq!["drivers"@, "entries"@, "data"@, "results"@]);
    assert(n.drop_first().drop_first() =~= seq!["entries"@, "data"@, "results"@]);
    assert(n.drop_first().drop_first().drop_first() =~= seq!["data"@, "results"@]);
    assert(n.drop_first().drop_first().drop_first().drop_first() =~= seq!["results"@]);
    assert(n.drop_first().drop_first().drop_first().drop_first().drop_first() =~= Seq::<Seq<char>>::empty());
    reveal_with_fuel(driver_array_from, 6);
}

/// Law: a sample is shown under its original file name when it has one; otherwise under
/// its file name, otherwise under its product, otherwise as `<unknown>`.
pub proof fn law_display_name(s: SampleView)
    ensures
        s.original_filename.len() != 0 ==> sample_display_name(s) == s.original_filename,
        s.original_filename.len() == 0 && s.filename.len() != 0 ==> sample_display_name(s) == s.filename,
        s.original_filename.len() == 0 && s.filename.len() == 0 && s.product.len() != 0
            ==> sample_display_name(s) == s.product,
        s.original_filename.len() == 0 && s.filename.len() == 0 && s.product.len() == 0
            ==> sample_display_name(s) == "<unknown>"@,
{
}

/// Law: a sample's publisher is shown when it has one; otherwise its company, otherwise
/// `<unknown>`.
pub proof fn law_publisher(s: SampleView)
    ensures
        s.publisher.len() != 0 ==> sample_publisher(s) == s.publisher,
        s.publisher.len() == 0 && s.company.len() != 0 ==> sample_publisher(s) == s.company,
        s.publisher.len() == 0 && s.company.len() == 0 ==> sample_publisher(s) == "<unknown>"@,
{
}

/// Law: the risk shown for a match is the driver's category when it has one; otherwise
/// its tags joined with `, `, otherwise `N/A`.
pub proof fn law_risk(m: MatchView)
    ensures
        m.category.len() != 0 ==> match_risk(m) == m.category,
        m.category.len() == 0 && m.tags.len() != 0 ==> match_risk(m) == seq_join(m.tags, ", "@),
        m.category.len() == 0 && m.tags.len() == 0 ==> match_risk(m) == "N/A"@,
{
}

} // verus!
