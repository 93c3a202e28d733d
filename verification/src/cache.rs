//! The persistent thumbnail cache index and its validity checker.
//!
//! The index maps a file identity to the signature of the source file the
//! cached preview was rendered from: the triple (path, size, modified time).
//! A record's presence claims that a thumbnail artifact exists on disk at a
//! path derived from the file identity alone; the claim may be false if the
//! artifact was deleted out of band, so `is_valid` re-checks existence.

use vstd::prelude::*;
use vstd::string::StrSliceExecFns;
use vstd::string::StringExecFns;
use crate::codec::{enc_records, encode_records, parse_index, parse_records, rec_encodable};
use crate::errors::EngineError;
use crate::fsio::path_exists;
use crate::strutil::str_eq;

verus! {

/// One cached record: the identity of a source file and the signature it had
/// when its thumbnail was rendered.
#[derive(Debug, Clone)]
pub struct ThumbnailMetadata {
    pub file_id: String,
    pub path: String,
    pub size: u64,
    pub modified_time: i64,
}

/// The mathematical value of a stored signature: what the validity check
/// compares against the source file's current path, size and modified time.
#[verifier::ext_equal]
pub struct Signature {
    pub path: Seq<char>,
    pub size: u64,
    pub modified_time: i64,
}

/// The mathematical value of one record: its strings as character sequences.
#[verifier::ext_equal]
pub struct RecordV {
    pub file_id: Seq<char>,
    pub path: Seq<char>,
    pub size: u64,
    pub modified_time: i64,
}

impl View for ThumbnailMetadata {
    type V = RecordV;

    open spec fn view(&self) -> RecordV {
        RecordV {
            file_id: self.file_id@,
            path: self.path@,
            size: self.size,
            modified_time: self.modified_time,
        }
    }
}

impl ThumbnailMetadata {
    /// The signature this record stores.
    pub open spec fn sig(self) -> Signature {
        Signature { path: self.path@, size: self.size, modified_time: self.modified_time }
    }
}

/// The records of a sequence, each taken at its mathematical value.
pub open spec fn views_of(s: Seq<ThumbnailMetadata>) -> Seq<RecordV> {
    s.map_values(|m: ThumbnailMetadata| m@)
}

/// The represented mapping depends only on the records' mathematical values,
/// never on which heap strings carry them.
pub proof fn lemma_index_respects_views(a: Seq<ThumbnailMetadata>, b: Seq<ThumbnailMetadata>)
    requires
        views_of(a) == views_of(b),
    ensures
        index_of(a) == index_of(b),
        unique_ids(a) == unique_ids(b),
    decreases a.len(),
{
    assert(views_of(a).len() == a.len());
    assert(views_of(b).len() == b.len());
    assert forall|i: int| 0 <= i < a.len() implies a[i]@ == b[i]@ by {
        assert(views_of(a)[i] == a[i]@);
        assert(views_of(b)[i] == b[i]@);
    }
    if a.len() > 0 {
        assert(views_of(a.drop_last()) =~= views_of(b.drop_last())) by {
            assert forall|i: int| 0 <= i < a.len() - 1 implies views_of(a.drop_last())[i]
                == views_of(b.drop_last())[i] by {
                assert(views_of(a.drop_last())[i] == a.drop_last()[i]@);
                assert(views_of(b.drop_last())[i] == b.drop_last()[i]@);
                assert(a.drop_last()[i] == a[i] && b.drop_last()[i] == b[i]);
            }
        }
        lemma_index_respects_views(a.drop_last(), b.drop_last());
        assert(a.last()@ == b.last()@);
        assert(a.last().file_id@ == b.last().file_id@);
        assert(a.last().sig() =~= b.last().sig());
        assert(index_of(a) =~= index_of(b));
    } else {
        assert(b.len() == 0);
        assert(index_of(a) =~= index_of(b));
    }
    assert forall|i: int, j: int| 0 <= i < j < a.len() implies (a[i].file_id@ != a[j].file_id@)
        <==> (b[i].file_id@ != b[j].file_id@) by {
        assert(a[i]@ == b[i]@ && a[j]@ == b[j]@);
    }
    assert(unique_ids(a) == unique_ids(b));
}

/// No two records carry the same file identity.
pub open spec fn unique_ids(s: Seq<ThumbnailMetadata>) -> bool {
    forall|i: int, j: int| 0 <= i < j < s.len() ==> s[i].file_id@ != s[j].file_id@
}

/// Every record in the sequence fits the snapshot format.
pub open spec fn all_encodable(s: Seq<ThumbnailMetadata>) -> bool {
    forall|i: int| 0 <= i < s.len() ==> rec_encodable(#[trigger] s[i]@)
}

/// The mapping a sequence of records represents; a later record with the same
/// identity overrides an earlier one.
pub open spec fn index_of(s: Seq<ThumbnailMetadata>) -> Map<Seq<char>, Signature>
    decreases s.len(),
{
    if s.len() == 0 {
        Map::empty()
    } else {
        index_of(s.drop_last()).insert(s.last().file_id@, s.last().sig())
    }
}

/// A signature lookup succeeds exactly when some record carries the identity.
pub proof fn lemma_index_contains(s: Seq<ThumbnailMetadata>, k: Seq<char>)
    ensures
        index_of(s).contains_key(k) <==> exists|i: int| 0 <= i < s.len() && s[i].file_id@ == k,
    decreases s.len(),
{
    if s.len() > 0 {
        lemma_index_contains(s.drop_last(), k);
        if s.last().file_id@ == k {
            assert(s[s.len() - 1].file_id@ == k);
        } else {
            if exists|i: int| 0 <= i < s.len() && s[i].file_id@ == k {
                let i = choose|i: int| 0 <= i < s.len() && s[i].file_id@ == k;
                assert(s.drop_last()[i] == s[i]);
            }
        }
    }
}

/// With unique identities, the mapping returns each record's own signature.
pub proof fn lemma_index_at(s: Seq<ThumbnailMetadata>, i: int)
    requires
        unique_ids(s),
        0 <= i < s.len(),
    ensures
        index_of(s).contains_key(s[i].file_id@),
        index_of(s)[s[i].file_id@] == s[i].sig(),
    decreases s.len(),
{
    if i < s.len() - 1 {
        lemma_index_at(s.drop_last(), i);
        assert(s.drop_last()[i] == s[i]);
        assert(s[i].file_id@ != s.last().file_id@);
    }
}

/// Overwriting the record that carries an identity inserts its new signature.
pub proof fn lemma_index_update(s: Seq<ThumbnailMetadata>, i: int, m: ThumbnailMetadata)
    requires
        unique_ids(s),
        0 <= i < s.len(),
        m.file_id@ == s[i].file_id@,
    ensures
        index_of(s.update(i, m)) == index_of(s).insert(m.file_id@, m.sig()),
        unique_ids(s.update(i, m)),
    decreases s.len(),
{
    let t = s.update(i, m);
    if i == s.len() - 1 {
        assert(t.drop_last() =~= s.drop_last());
        assert(t.last() == m);
        assert(index_of(t) =~= index_of(s).insert(m.file_id@, m.sig()));
    } else {
        assert(t.drop_last() =~= s.drop_last().update(i, m));
        lemma_index_update(s.drop_last(), i, m);
        assert(t.last() == s.last());
        assert(s[i].file_id@ != s.last().file_id@);
        assert(index_of(t) =~= index_of(s).insert(m.file_id@, m.sig()));
    }
}

/// Removing the record that carries an identity removes that identity.
pub proof fn lemma_index_remove(s: Seq<ThumbnailMetadata>, i: int)
    requires
        unique_ids(s),
        0 <= i < s.len(),
    ensures
        index_of(s.remove(i)) == index_of(s).remove(s[i].file_id@),
        unique_ids(s.remove(i)),
    decreases s.len(),
{
    let t = s.remove(i);
    if i == s.len() - 1 {
        assert(t =~= s.drop_last());
        lemma_index_contains(s.drop_last(), s.last().file_id@);
        assert(forall|j: int| 0 <= j < s.len() - 1 ==> s.drop_last()[j] == s[j]);
        assert(!index_of(s.drop_last()).contains_key(s.last().file_id@));
        assert(index_of(s.drop_last()) =~= index_of(s).remove(s[i].file_id@));
    } else {
        assert(t.drop_last() =~= s.drop_last().remove(i));
        assert(t.last() == s.last());
        lemma_index_remove(s.drop_last(), i);
        assert(s.drop_last()[i] == s[i]);
        assert(s[i].file_id@ != s.last().file_id@);
        assert(index_of(t) =~= index_of(s).remove(s[i].file_id@));
        assert forall|a: int, b: int| 0 <= a < b < t.len() implies t[a].file_id@
            != t[b].file_id@ by {
            let sa = if a < i { a } else { a + 1 };
            let sb = if b < i { b } else { b + 1 };
            assert(t[a] == s[sa]);
            assert(t[b] == s[sb]);
        }
    }
}

/// True when the index holds `file_id` with exactly the supplied signature.
pub open spec fn spec_sig_matches(
    index: Map<Seq<char>, Signature>,
    file_id: Seq<char>,
    path: Seq<char>,
    size: u64,
    modified_time: i64,
) -> bool {
    index.contains_key(file_id) && index[file_id] == Signature { path, size, modified_time }
}

/// Full validity: the stored signature matches exactly and the
/// thumbnail artifact is present on disk.
pub open spec fn spec_is_valid(
    index: Map<Seq<char>, Signature>,
    file_id: Seq<char>,
    path: Seq<char>,
    size: u64,
    modified_time: i64,
    artifact_exists: bool,
) -> bool {
    spec_sig_matches(index, file_id, path, size, modified_time) && artifact_exists
}

/// The in-memory cache index together with the directory that holds the
/// thumbnail artifacts and the persisted index file.
pub struct ThumbnailCache {
    metadata: Vec<ThumbnailMetadata>,
    cache_dir: String,
}

impl ThumbnailCache {
    /// The mapping from file identity to stored signature.
    pub closed spec fn index(self) -> Map<Seq<char>, Signature> {
        index_of(self.metadata@)
    }

    /// The directory that holds the artifacts and the persisted index.
    pub closed spec fn dir(self) -> Seq<char> {
        self.cache_dir@
    }

    /// The records in insertion order; `index()` abstracts over this order.
    pub closed spec fn records(self) -> Seq<ThumbnailMetadata> {
        self.metadata@
    }

    /// Internal invariant: no two records share a file identity, and every
    /// record can be written into a snapshot.
    pub closed spec fn wf(self) -> bool {
        unique_ids(self.metadata@) && all_encodable(self.metadata@)
    }

    /// A fresh cache for the given directory, with an empty index.
    pub fn new(cache_dir: String) -> (c: Self)
        ensures
            c.wf(),
            c.index() == Map::<Seq<char>, Signature>::empty(),
            c.records() =~= Seq::<ThumbnailMetadata>::empty(),
            c.dir() == cache_dir@,
    {
        ThumbnailCache { metadata: Vec::new(), cache_dir }
    }

    /// The cache key under which a file identity is stored: the identity itself.
    pub fn get_cache_key(file_id: &str) -> (r: String)
        ensures
            r@ == file_id@,
    {
        file_id.to_owned()
    }

    /// Where the artifact for `file_id` lives: `<cache_dir>/<file_id>.jpg`.
    pub fn artifact_path(&self, file_id: &str) -> (r: String)
        ensures
            r@ == self.dir() + "/"@ + file_id@ + ".jpg"@,
    {
        let mut s = self.cache_dir.clone();
        s.append("/");
        s.append(file_id);
        s.append(".jpg");
        s
    }

    /// Index of the record that carries `file_id`, if any.
    fn find(&self, file_id: &str) -> (r: Option<usize>)
        ensures
            match r {
                Some(i) => i < self.metadata@.len() && self.metadata@[i as int].file_id@
                    == file_id@,
                None => forall|i: int|
                    0 <= i < self.metadata@.len() ==> self.metadata@[i].file_id@ != file_id@,
            },
    {
        let n = self.metadata.len();
        for i in 0..n
            invariant
                n == self.metadata@.len(),
                forall|j: int| 0 <= j < i ==> self.metadata@[j].file_id@ != file_id@,
        {
            if str_eq(self.metadata[i].file_id.as_str(), file_id) {
                return Some(i);
            }
        }
        None
    }

    /// Whether the stored signature for `file_id` equals the supplied one.
    pub fn signature_matches(&self, file_id: &str, path: &str, size: u64, modified_time: i64) -> (r:
        bool)
        requires
            self.wf(),
        ensures
            r == spec_sig_matches(self.index(), file_id@, path@, size, modified_time),
    {
        match self.find(file_id) {
            Some(i) => {
                proof {
                    lemma_index_at(self.metadata@, i as int);
                }
                let m = &self.metadata[i];
                let r = str_eq(m.path.as_str(), path) && m.size == size && m.modified_time
                    == modified_time;
                proof {
                    if !r {
                        assert(self.index()[file_id@] == self.metadata@[i as int].sig());
                    }
                }
                r
            },
            None => {
                proof {
                    lemma_index_contains(self.metadata@, file_id@);
                }
                false
            },
        }
    }

    /// The validity answer once the artifact's presence has been probed:
    /// true exactly when the signature matches and the artifact exists.
    pub fn is_valid_with_artifact(
        &self,
        file_id: &str,
        path: &str,
        size: u64,
        modified_time: i64,
        artifact_exists: bool,
    ) -> (r: bool)
        requires
            self.wf(),
        ensures
            r == spec_is_valid(
                self.index(),
                file_id@,
                path@,
                size,
                modified_time,
                artifact_exists,
            ),
    {
        self.signature_matches(file_id, path, size, modified_time) && artifact_exists
    }

    /// Whether the cached thumbnail for `file_id` may be reused for a source
    /// file that currently has the given path, size and modified time.
    ///
    /// Read-only: probes the filesystem once for the artifact and touches
    /// nothing. The answer can be true only if the stored signature matches
    /// exactly; whether the artifact is present is known only to the disk, so
    /// a false answer is always possible.
    pub fn is_valid(&self, file_id: &str, path: &str, size: u64, modified_time: i64) -> (r: bool)
        requires
            self.wf(),
        ensures
            r ==> spec_sig_matches(self.index(), file_id@, path@, size, modified_time),
    {
        if self.signature_matches(file_id, path, size, modified_time) {
            let artifact = self.artifact_path(file_id);
            let present = path_exists(artifact.as_str());
            self.is_valid_with_artifact(file_id, path, size, modified_time, present)
        } else {
            false
        }
    }

    /// Insert or overwrite the record for `file_id` unconditionally: the last
    /// writer wins and nothing is merged.
    pub fn update_metadata(&mut self, file_id: &str, path: &str, size: u64, modified_time: i64)
        requires
            old(self).wf(),
        ensures
            final(self).wf(),
            final(self).index() == old(self).index().insert(
                file_id@,
                Signature { path: path@, size, modified_time },
            ),
            final(self).dir() == old(self).dir(),
    {
        // the character counts bound the snapshot format's length prefixes
        let _fid_len = file_id.unicode_len();
        let _path_len = path.unicode_len();
        let meta = ThumbnailMetadata {
            file_id: file_id.to_owned(),
            path: path.to_owned(),
            size,
            modified_time,
        };
        proof {
            assert(rec_encodable(meta@));
        }
        match self.find(file_id) {
            Some(i) => {
                proof {
                    lemma_index_update(self.metadata@, i as int, meta);
                    let t = self.metadata@.update(i as int, meta);
                    assert forall|j: int| 0 <= j < t.len() implies rec_encodable(
                        #[trigger] t[j]@,
                    ) by {
                        if j != i {
                            assert(t[j] == self.metadata@[j]);
                        }
                    }
                }
                self.metadata[i] = meta;
            },
            None => {
                proof {
                    let s = self.metadata@;
                    assert(s.push(meta).drop_last() =~= s);
                    assert(s.push(meta).last() == meta);
                    assert forall|a: int, b: int| 0 <= a < b < s.push(meta).len() implies s.push(
                        meta,
                    )[a].file_id@ != s.push(meta)[b].file_id@ by {
                        if b < s.len() {
                            assert(s.push(meta)[a] == s[a] && s.push(meta)[b] == s[b]);
                        } else {
                            assert(s.push(meta)[a] == s[a] && s.push(meta)[b] == meta);
                        }
                    }
                    assert forall|j: int| 0 <= j < s.push(meta).len() implies rec_encodable(
                        #[trigger] s.push(meta)[j]@,
                    ) by {
                        if j < s.len() {
                            assert(s.push(meta)[j] == s[j]);
                        } else {
                            assert(s.push(meta)[j] == meta);
                        }
                    }
                }
                self.metadata.push(meta);
            },
        }
    }

    /// Delete the record for `file_id` if present; absent identities are left
    /// untouched and raise no error.
    pub fn remove_metadata(&mut self, file_id: &str)
        requires
            old(self).wf(),
        ensures
            final(self).wf(),
            final(self).index() == old(self).index().remove(file_id@),
            final(self).dir() == old(self).dir(),
    {
        match self.find(file_id) {
            Some(i) => {
                proof {
                    lemma_index_remove(self.metadata@, i as int);
                    let s = self.metadata@;
                    let t = s.remove(i as int);
                    assert forall|j: int| 0 <= j < t.len() implies rec_encodable(
                        #[trigger] t[j]@,
                    ) by {
                        if j < i {
                            assert(t[j] == s[j]);
                        } else {
                            assert(t[j] == s[j + 1]);
                        }
                    }
                }
                self.metadata.remove(i);
            },
            None => {
                proof {
                    lemma_index_contains(self.metadata@, file_id@);
                    assert(self.index().remove(file_id@) =~= self.index());
                }
            },
        }
    }
}

/// A blank character as it may surround an empty persisted snapshot.
pub open spec fn is_space(c: char) -> bool {
    c == ' ' || c == '\t' || c == '\n' || c == '\r'
}

/// Content that counts as an empty snapshot: nothing but blanks, or nothing.
pub open spec fn all_whitespace(s: Seq<char>) -> bool {
    forall|i: int| 0 <= i < s.len() ==> is_space(#[trigger] s[i])
}

/// No two parsed records carry the same file identity.
pub open spec fn unique_view_ids(rs: Seq<RecordV>) -> bool {
    forall|i: int, j: int| 0 <= i < j < rs.len() ==> rs[i].file_id != rs[j].file_id
}

pub proof fn lemma_unique_ids_views(s: Seq<ThumbnailMetadata>)
    ensures
        unique_ids(s) == unique_view_ids(views_of(s)),
{
    assert(views_of(s).len() == s.len());
    if unique_ids(s) {
        assert forall|i: int, j: int| 0 <= i < j < views_of(s).len() implies views_of(
            s,
        )[i].file_id != views_of(s)[j].file_id by {
            assert(views_of(s)[i] == s[i]@);
            assert(views_of(s)[j] == s[j]@);
            assert(s[i].file_id@ != s[j].file_id@);
        }
        assert(unique_view_ids(views_of(s)));
    }
    if unique_view_ids(views_of(s)) {
        assert forall|i: int, j: int| 0 <= i < j < s.len() implies s[i].file_id@
            != s[j].file_id@ by {
            assert(views_of(s)[i] == s[i]@);
            assert(views_of(s)[j] == s[j]@);
            assert(views_of(s)[i].file_id != views_of(s)[j].file_id);
        }
        assert(unique_ids(s));
    }
}

fn check_all_whitespace(s: &str) -> (r: bool)
    ensures
        r == all_whitespace(s@),
{
    let n = s.unicode_len();
    for i in 0..n
        invariant
            n == s@.len(),
            forall|j: int| 0 <= j < i ==> is_space(#[trigger] s@[j]),
    {
        let c = s.get_char(i);
        if !(c == ' ' || c == '\t' || c == '\n' || c == '\r') {
            return false;
        }
    }
    true
}

fn check_unique(v: &Vec<ThumbnailMetadata>) -> (r: bool)
    ensures
        r == unique_ids(v@),
{
    let n = v.len();
    for i in 0..n
        invariant
            n == v@.len(),
            forall|a: int, b: int| 0 <= a < b < v@.len() && a < i ==> v@[a].file_id@
                != v@[b].file_id@,
    {
        let mut j = i + 1;
        while j < n
            invariant
                i < j <= n,
                n == v@.len(),
                forall|b: int| i < b < j ==> v@[i as int].file_id@ != v@[b].file_id@,
            decreases n - j,
        {
            if str_eq(v[i].file_id.as_str(), v[j].file_id.as_str()) {
                return false;
            }
            j = j + 1;
        }
    }
    true
}

impl ThumbnailCache {
    /// Serializes the entire in-memory index as the persisted snapshot
    /// content; the caller overwrites the index file with it as a whole.
    pub fn save_content(&self) -> (out: String)
        ensures
            out@ == enc_records(views_of(self.records())),
    {
        encode_records(&self.metadata)
    }

    /// Replaces the index with what a persisted snapshot holds.
    ///
    /// An absent file (`None`) or blank content is an empty index and no
    /// error. Content that does not parse back to records with unique
    /// identities is a load failure: the error is reported and the index
    /// starts cold (empty), never crashing the host.
    pub fn load_from_content(&mut self, content: Option<&str>) -> (r: Result<(), EngineError>)
        ensures
            final(self).wf(),
            final(self).dir() == old(self).dir(),
            match content {
                None => r is Ok && final(self).index() == Map::<Seq<char>, Signature>::empty(),
                Some(c) => {
                    if all_whitespace(c@) {
                        r is Ok && final(self).index() == Map::<Seq<char>, Signature>::empty()
                    } else {
                        match parse_records(c@) {
                            Some(rvs) => if unique_view_ids(rvs) {
                                r is Ok && views_of(final(self).records()) == rvs
                            } else {
                                r == Err::<(), EngineError>(EngineError::IndexIOFailure)
                                    && final(self).index() == Map::<Seq<char>, Signature>::empty()
                            },
                            None => r == Err::<(), EngineError>(EngineError::IndexIOFailure)
                                && final(self).index() == Map::<Seq<char>, Signature>::empty(),
                        }
                    }
                },
            },
    {
        self.metadata = Vec::new();
        match content {
            None => Ok(()),
            Some(c) => {
                if check_all_whitespace(c) {
                    Ok(())
                } else {
                    match parse_index(c) {
                        Some(v) => {
                            if check_unique(&v) {
                                proof {
                                    lemma_unique_ids_views(v@);
                                    assert(all_encodable(v@));
                                }
                                self.metadata = v;
                                Ok(())
                            } else {
                                proof {
                                    lemma_unique_ids_views(v@);
                                }
                                Err(EngineError::IndexIOFailure)
                            }
                        },
                        None => Err(EngineError::IndexIOFailure),
                    }
                }
            },
        }
    }
}

/// Law: a snapshot of a non-empty index is never blank, so loading it back
/// never takes the empty-index path.
pub proof fn lemma_nonempty_snapshot_not_blank(rs: Seq<RecordV>)
    requires
        rs.len() > 0,
    ensures
        !all_whitespace(enc_records(rs)),
{
    crate::codec::lemma_enc_records_starts_with_digit(rs);
    assert(!is_space(enc_records(rs)[0]));
}

/// The mapping and invariant a cache exposes are those of its records: the
/// bridge between its abstract index and the record sequence a snapshot
/// carries.
pub proof fn lemma_cache_index_is_of_records(c: ThumbnailCache)
    ensures
        c.index() == index_of(c.records()),
        c.wf() == (unique_ids(c.records()) && all_encodable(c.records())),
{
}

/// Law: a snapshot written by `save_content` and read back by
/// `load_from_content` in any instance reproduces the saved index exactly.
pub proof fn lemma_save_then_load_reproduces_index(
    saved: Seq<ThumbnailMetadata>,
    loaded: Seq<ThumbnailMetadata>,
)
    requires
        unique_ids(saved),
        all_encodable(saved),
        parse_records(enc_records(views_of(saved))) == Some(views_of(loaded)),
    ensures
        index_of(loaded) == index_of(saved),
        unique_ids(loaded),
{
    assert forall|i: int| 0 <= i < views_of(saved).len() implies rec_encodable(
        #[trigger] views_of(saved)[i],
    ) by {
        assert(views_of(saved)[i] == saved[i]@);
    }
    crate::codec::lemma_snapshot_round_trip(views_of(saved));
    lemma_index_respects_views(loaded, saved);
}

/// Law: a record freshly written by `update_metadata` is reported valid for
/// the identical signature tuple whenever the artifact file is present.
pub proof fn lemma_fresh_record_is_valid(
    index: Map<Seq<char>, Signature>,
    file_id: Seq<char>,
    path: Seq<char>,
    size: u64,
    modified_time: i64,
)
    ensures
        spec_is_valid(
            index.insert(file_id, Signature { path, size, modified_time }),
            file_id,
            path,
            size,
            modified_time,
            true,
        ),
{
}

/// Law: any drift in path, size or modified time between what a record stores
/// and what the source file currently has makes the validity check fail, no
/// matter whether the artifact is present.
pub proof fn lemma_signature_drift_invalidates(
    index: Map<Seq<char>, Signature>,
    file_id: Seq<char>,
    stored: Signature,
    path: Seq<char>,
    size: u64,
    modified_time: i64,
    artifact_exists: bool,
)
    requires
        index.contains_key(file_id),
        index[file_id] == stored,
        stored.path != path || stored.size != size || stored.modified_time != modified_time,
    ensures
        !spec_is_valid(index, file_id, path, size, modified_time, artifact_exists),
{
}

/// Law: a missing artifact makes the validity check fail even for an exactly
/// matching signature.
pub proof fn lemma_missing_artifact_invalidates(
    index: Map<Seq<char>, Signature>,
    file_id: Seq<char>,
    path: Seq<char>,
    size: u64,
    modified_time: i64,
)
    ensures
        !spec_is_valid(index, file_id, path, size, modified_time, false),
{
}

} // verus!
