use crate::keyed::{
    distinct_keys, key_index, keyed_map, lemma_keyed_absent, lemma_keyed_at, lemma_keyed_len,
    lemma_keyed_push, lemma_keyed_remove, lemma_keyed_update,
};
use crate::text::{decimal, push_char, push_decimal, push_str, str_eq};
use vstd::prelude::*;
use vstd::relations::{sorted_by, total_ordering};

verus! {

/// Default chunk size: 4 MiB.
pub const DEFAULT_CHUNK_SIZE: u64 = 4 * 1024 * 1024;

/// Largest accepted chunk: 16 MiB.
pub const MAX_CHUNK_SIZE: u64 = 16 * 1024 * 1024;

/// Smallest chunk size a client may ask for: 256 KiB.
pub const MIN_CHUNK_SIZE: u64 = 256 * 1024;

/// Nominal ceiling on a single file, kept for reference; chunked uploads do not enforce it.
pub const MAX_FILE_SIZE: u64 = 10 * 1024 * 1024 * 1024;

/// A chunked upload in progress. The file is preallocated at `partial_path`
/// (`<dir>/<name>.partial`); chunks are written at their offsets; completion renames it
/// to `final_path`.
#[derive(Debug)]
pub struct UploadSession {
    pub id: String,
    /// The id the finished file gets (fixed at init).
    pub file_id: String,
    pub name: String,
    pub size: u64,
    pub mime: String,
    pub chunk_size: u64,
    pub chunk_count: u32,
    pub uploader_ip: String,
    pub created_at: i64,
    /// Indices (0-based) of the chunks received so far, ascending and without repeats.
    pub uploaded: Vec<u32>,
    pub partial_path: String,
    pub final_path: String,
}

/// The mathematical value of an [`UploadSession`].
pub ghost struct UploadSessionView {
    pub id: Seq<char>,
    pub file_id: Seq<char>,
    pub name: Seq<char>,
    pub size: u64,
    pub mime: Seq<char>,
    pub chunk_size: u64,
    pub chunk_count: u32,
    pub uploader_ip: Seq<char>,
    pub created_at: i64,
    pub uploaded: Seq<u32>,
    pub partial_path: Seq<char>,
    pub final_path: Seq<char>,
}

impl View for UploadSession {
    type V = UploadSessionView;

    open spec fn view(&self) -> UploadSessionView {
        UploadSessionView {
            id: self.id@,
            file_id: self.file_id@,
            name: self.name@,
            size: self.size,
            mime: self.mime@,
            chunk_size: self.chunk_size,
            chunk_count: self.chunk_count,
            uploader_ip: self.uploader_ip@,
            created_at: self.created_at,
            uploaded: self.uploaded@,
            partial_path: self.partial_path@,
            final_path: self.final_path@,
        }
    }
}

/// `<=` on chunk indices.
pub open spec fn index_le() -> spec_fn(u32, u32) -> bool {
    |a: u32, b: u32| a <= b
}

/// The resume key of a session: `name::size::uploader_ip`.
pub open spec fn session_signature(name: Seq<char>, size: u64, ip: Seq<char>) -> Seq<char> {
    name + seq![':', ':'] + decimal(size as nat) + seq![':', ':'] + ip
}

impl UploadSessionView {
    pub open spec fn signature(self) -> Seq<char> {
        session_signature(self.name, self.size, self.uploader_ip)
    }

    /// The received-chunk list after marking `index`.
    pub open spec fn uploaded_after_mark(self, index: u32) -> Seq<u32> {
        if self.uploaded.contains(index) {
            self.uploaded
        } else {
            self.uploaded.push(index).sort_by(index_le())
        }
    }

    /// The session after marking chunk `index` as received.
    pub open spec fn marked(self, index: u32) -> UploadSessionView {
        UploadSessionView { uploaded: self.uploaded_after_mark(index), ..self }
    }

    /// Whether every chunk has arrived, judged by the count (as the session does).
    pub open spec fn complete(self) -> bool {
        (self.uploaded.len() as u32) == self.chunk_count
    }
}

pub proof fn lemma_index_le_total()
    ensures
        total_ordering(index_le()),
{
}

fn contains_index(v: &Vec<u32>, x: u32) -> (b: bool)
    ensures
        b == v@.contains(x),
{
    let mut i: usize = 0;
    while i < v.len()
        invariant
            i <= v@.len(),
            forall|j: int| 0 <= j < i ==> v@[j] != x,
        decreases v@.len() - i,
    {
        if v[i] == x {
            assert(v@[i as int] == x);
            return true;
        }
        i = i + 1;
    }
    false
}

/// Sorts chunk indices ascending (insertion sort).
fn sort_indices(v: &mut Vec<u32>)
    ensures
        final(v)@ == old(v)@.sort_by(index_le()),
{
    broadcast use vstd::seq_lib::group_to_multiset_ensures;
    broadcast use vstd::multiset::group_multiset_axioms;
    broadcast use vstd::multiset::group_multiset_properties;

    let ghost orig = v@;
    let n = v.len();
    let mut i: usize = 0;
    while i < n
        invariant
            v@.len() == n,
            i <= n,
            forall|a: int, b: int| 0 <= a < b < i ==> #[trigger] v@[a] <= #[trigger] v@[b],
            v@.to_multiset() == orig.to_multiset(),
        decreases n - i,
    {
        let mut j: usize = i;
        while j > 0 && v[j - 1] > v[j]
            invariant
                v@.len() == n,
                j <= i < n,
                v@.to_multiset() == orig.to_multiset(),
                forall|a: int, b: int|
                    0 <= a < b <= i && a != j && b != j ==> #[trigger] v@[a] <= #[trigger] v@[b],
                forall|b: int| j < b <= i ==> v@[j as int] <= #[trigger] v@[b],
            decreases j,
        {
            let x = v[j - 1];
            let y = v[j];
            let ghost before = v@;
            v.set(j - 1, y);
            v.set(j, x);
            proof {
                vstd::seq_lib::to_multiset_update(before, j - 1, y);
                vstd::seq_lib::to_multiset_update(before.update(j - 1, y), j as int, x);
                assert(v@ == before.update(j - 1, y).update(j as int, x));
                let m = before.to_multiset();
                assert(m.count(x) > 0) by {
                    assert(before[j - 1] == x);
                    vstd::seq_lib::to_multiset_contains(before, x);
                }
                assert(before.update(j - 1, y)[j as int] == y);
                assert(m.insert(y).remove(x).insert(x).remove(y) =~= m);
            }
            j = j - 1;
        }
        proof {
            assert forall|a: int, b: int| 0 <= a < b < i + 1 implies #[trigger] v@[a]
                <= #[trigger] v@[b] by {
                if b == j && j > 0 && a < j - 1 {
                    assert(v@[a] <= v@[j - 1]);
                }
            }
        }
        i = i + 1;
    }
    proof {
        lemma_index_le_total();
        orig.lemma_sort_by_ensures(index_le());
        assert(sorted_by(v@, index_le()));
        vstd::seq_lib::lemma_sorted_unique(v@, orig.sort_by(index_le()), index_le());
    }
}

fn copy_indices(v: &Vec<u32>) -> (r: Vec<u32>)
    ensures
        r@ == v@,
{
    let mut r: Vec<u32> = Vec::new();
    let mut i: usize = 0;
    while i < v.len()
        invariant
            i <= v@.len(),
            r@ == v@.take(i as int),
        decreases v@.len() - i,
    {
        r.push(v[i]);
        i = i + 1;
        assert(r@ == v@.take(i as int));
    }
    assert(v@.take(v@.len() as int) == v@);
    r
}

impl UploadSession {
    /// The resume key: `name::size::uploader_ip`. The IP keeps two clients that upload
    /// a file of the same name and size from sharing a session.
    pub fn signature(&self) -> (r: String)
        ensures
            r@ == self@.signature(),
    {
        let mut s = String::new();
        push_str(&mut s, self.name.as_str());
        push_char(&mut s, ':');
        push_char(&mut s, ':');
        push_decimal(&mut s, self.size);
        push_char(&mut s, ':');
        push_char(&mut s, ':');
        push_str(&mut s, self.uploader_ip.as_str());
        assert(s@ == self@.signature());
        s
    }

    /// Whether as many chunks have arrived as the file has.
    pub fn is_complete(&self) -> (r: bool)
        ensures
            r == self@.complete(),
    {
        self.uploaded.len() as u32 == self.chunk_count
    }

    /// Records chunk `index` as received; the list stays ascending and free of repeats.
    pub fn mark_uploaded(&mut self, index: u32)
        ensures
            final(self)@ == old(self)@.marked(index),
    {
        if !contains_index(&self.uploaded, index) {
            self.uploaded.push(index);
            sort_indices(&mut self.uploaded);
        }
    }

    /// A copy of this session.
    pub fn duplicate(&self) -> (r: UploadSession)
        ensures
            r@ == self@,
    {
        UploadSession {
            id: self.id.clone(),
            file_id: self.file_id.clone(),
            name: self.name.clone(),
            size: self.size,
            mime: self.mime.clone(),
            chunk_size: self.chunk_size,
            chunk_count: self.chunk_count,
            uploader_ip: self.uploader_ip.clone(),
            created_at: self.created_at,
            uploaded: copy_indices(&self.uploaded),
            partial_path: self.partial_path.clone(),
            final_path: self.final_path.clone(),
        }
    }
}

} // verus!

verus! {

/// Sessions are looked up by id.
pub open spec fn session_key() -> spec_fn(UploadSessionView) -> Seq<char> {
    |v: UploadSessionView| v.id
}

/// Signature entries are looked up by signature.
pub open spec fn signature_key() -> spec_fn((Seq<char>, Seq<char>)) -> Seq<char> {
    |p: (Seq<char>, Seq<char>)| p.0
}

/// The upload sessions, with an index from resume signature to session id. A session
/// whose signature another session took later stays reachable by id only.
pub struct UploadManager {
    sessions: Vec<UploadSession>,
    by_signature: Vec<(String, String)>,
}

impl UploadManager {
    pub closed spec fn session_views(&self) -> Seq<UploadSessionView> {
        self.sessions@.map_values(|s: UploadSession| s@)
    }

    pub closed spec fn signature_entries(&self) -> Seq<(Seq<char>, Seq<char>)> {
        self.by_signature@.map_values(|p: (String, String)| (p.0@, p.1@))
    }

    /// Ids and signatures are each unique.
    pub closed spec fn wf(&self) -> bool {
        &&& distinct_keys(self.session_views(), session_key())
        &&& distinct_keys(self.signature_entries(), signature_key())
    }

    /// Session id -> session.
    pub closed spec fn sessions(&self) -> Map<Seq<char>, UploadSessionView> {
        keyed_map(self.session_views(), session_key())
    }

    /// Resume signature -> session id.
    pub closed spec fn signatures(&self) -> Map<Seq<char>, Seq<char>> {
        Map::new(
            |k: Seq<char>| keyed_map(self.signature_entries(), signature_key()).contains_key(k),
            |k: Seq<char>| keyed_map(self.signature_entries(), signature_key())[k].1,
        )
    }

    pub fn new() -> (r: UploadManager)
        ensures
            r.wf(),
            r.sessions() == Map::<Seq<char>, UploadSessionView>::empty(),
            r.signatures() == Map::<Seq<char>, Seq<char>>::empty(),
    {
        let r = UploadManager { sessions: Vec::new(), by_signature: Vec::new() };
        assert(r.sessions() =~= Map::<Seq<char>, UploadSessionView>::empty());
        assert(r.signatures() =~= Map::<Seq<char>, Seq<char>>::empty());
        r
    }

    fn position(&self, id: &str) -> (r: Option<usize>)
        requires
            self.wf(),
        ensures
            match r {
                Some(i) => i < self.session_views().len() && self.session_views()[i as int].id
                    == id@,
                None => !self.sessions().contains_key(id@),
            },
    {
        let mut i: usize = 0;
        while i < self.sessions.len()
            invariant
                i <= self.sessions@.len(),
                forall|j: int| 0 <= j < i ==> self.session_views()[j].id != id@,
            decreases self.sessions@.len() - i,
        {
            if str_eq(self.sessions[i].id.as_str(), id) {
                return Some(i);
            }
            i = i + 1;
        }
        proof {
            lemma_keyed_absent(self.session_views(), session_key(), id@);
        }
        None
    }

    fn signature_position(&self, sig: &str) -> (r: Option<usize>)
        requires
            self.wf(),
        ensures
            match r {
                Some(i) => i < self.signature_entries().len()
                    && self.signature_entries()[i as int].0 == sig@,
                None => !self.signatures().contains_key(sig@),
            },
    {
        let mut i: usize = 0;
        while i < self.by_signature.len()
            invariant
                i <= self.by_signature@.len(),
                forall|j: int| 0 <= j < i ==> self.signature_entries()[j].0 != sig@,
            decreases self.by_signature@.len() - i,
        {
            if str_eq(self.by_signature[i].0.as_str(), sig) {
                return Some(i);
            }
            i = i + 1;
        }
        proof {
            lemma_keyed_absent(self.signature_entries(), signature_key(), sig@);
        }
        None
    }

    /// The session with id `id`, if any.
    pub fn get(&self, id: &str) -> (r: Option<UploadSession>)
        requires
            self.wf(),
        ensures
            match r {
                Some(s) => self.sessions().contains_key(id@) && s@ == self.sessions()[id@],
                None => !self.sessions().contains_key(id@),
            },
    {
        match self.position(id) {
            Some(i) => {
                proof {
                    lemma_keyed_at(self.session_views(), session_key(), i as int);
                }
                Some(self.sessions[i].duplicate())
            },
            None => None,
        }
    }

    /// The session that the signature index names, if it still exists.
    pub fn find_by_signature(&self, sig: &str) -> (r: Option<UploadSession>)
        requires
            self.wf(),
        ensures
            match r {
                Some(s) => self.signatures().contains_key(sig@) && self.sessions().contains_key(
                    self.signatures()[sig@],
                ) && s@ == self.sessions()[self.signatures()[sig@]],
                None => !self.signatures().contains_key(sig@) || !self.sessions().contains_key(
                    self.signatures()[sig@],
                ),
            },
    {
        match self.signature_position(sig) {
            Some(j) => {
                proof {
                    lemma_keyed_at(self.signature_entries(), signature_key(), j as int);
                }
                let id = self.by_signature[j].1.as_str();
                assert(id@ == self.signatures()[sig@]);
                self.get(id)
            },
            None => None,
        }
    }

    /// Adds (or replaces) a session and points its signature at it.
    pub fn insert(&mut self, session: UploadSession)
        requires
            old(self).wf(),
        ensures
            final(self).wf(),
            final(self).sessions() == old(self).sessions().insert(session@.id, session@),
            final(self).signatures() == old(self).signatures().insert(
                session@.signature(),
                session@.id,
            ),
    {
        let sig = session.signature();
        let id_for_index = session.id.clone();
        let ghost old_pairs = self.signature_entries();
        let ghost pair = (sig@, session@.id);
        match self.signature_position(sig.as_str()) {
            Some(j) => {
                let _ = self.by_signature.remove(j);
                self.by_signature.insert(j, (sig, id_for_index));
                proof {
                    assert(self.signature_entries() =~= old_pairs.update(j as int, pair));
                    lemma_keyed_update(old_pairs, signature_key(), j as int, pair);
                }
            },
            None => {
                self.by_signature.push((sig, id_for_index));
                proof {
                    assert(self.signature_entries() =~= old_pairs.push(pair));
                    lemma_keyed_push(old_pairs, signature_key(), pair);
                }
            },
        }
        proof {
            let m = keyed_map(old_pairs, signature_key()).insert(pair.0, pair);
            assert(self.signatures() =~= old(self).signatures().insert(pair.0, pair.1));
        }
        let ghost old_views = self.session_views();
        let ghost v = session@;
        match self.position(session.id.as_str()) {
            Some(i) => {
                let _ = self.sessions.remove(i);
                self.sessions.insert(i, session);
                proof {
                    assert(self.session_views() =~= old_views.update(i as int, v));
                    lemma_keyed_update(old_views, session_key(), i as int, v);
                }
            },
            None => {
                self.sessions.push(session);
                proof {
                    assert(self.session_views() =~= old_views.push(v));
                    lemma_keyed_push(old_views, session_key(), v);
                }
            },
        }
    }

    /// Marks chunk `index` of session `id` as received, giving back the updated
    /// received list and the chunk count.
    pub fn mark_chunk(&mut self, id: &str, index: u32) -> (r: Option<(Vec<u32>, u32)>)
        requires
            old(self).wf(),
        ensures
            final(self).wf(),
            final(self).signatures() == old(self).signatures(),
            match r {
                Some((uploaded, count)) => {
                    &&& old(self).sessions().contains_key(id@)
                    &&& final(self).sessions() == old(self).sessions().insert(
                        id@,
                        old(self).sessions()[id@].marked(index),
                    )
                    &&& uploaded@ == old(self).sessions()[id@].marked(index).uploaded
                    &&& count == old(self).sessions()[id@].chunk_count
                },
                None => {
                    &&& !old(self).sessions().contains_key(id@)
                    &&& final(self).sessions() == old(self).sessions()
                },
            },
    {
        match self.position(id) {
            Some(i) => {
                let ghost old_views = self.session_views();
                proof {
                    lemma_keyed_at(old_views, session_key(), i as int);
                }
                let mut s = self.sessions.remove(i);
                s.mark_uploaded(index);
                let uploaded = copy_indices(&s.uploaded);
                let count = s.chunk_count;
                let ghost v = s@;
                self.sessions.insert(i, s);
                proof {
                    assert(self.session_views() =~= old_views.update(i as int, v));
                    lemma_keyed_update(old_views, session_key(), i as int, v);
                    assert(self.signature_entries() == old(self).signature_entries());
                }
                Some((uploaded, count))
            },
            None => None,
        }
    }

    /// Removes session `id` and the signature entry of its signature.
    pub fn remove(&mut self, id: &str) -> (r: Option<UploadSession>)
        requires
            old(self).wf(),
        ensures
            final(self).wf(),
            match r {
                Some(s) => {
                    &&& old(self).sessions().contains_key(id@)
                    &&& s@ == old(self).sessions()[id@]
                    &&& final(self).sessions() == old(self).sessions().remove(id@)
                    &&& final(self).signatures() == old(self).signatures().remove(s@.signature())
                },
                None => {
                    &&& !old(self).sessions().contains_key(id@)
                    &&& *final(self) == *old(self)
                },
            },
    {
        match self.position(id) {
            Some(i) => {
                let ghost old_views = self.session_views();
                proof {
                    lemma_keyed_at(old_views, session_key(), i as int);
                }
                let s = self.sessions.remove(i);
                proof {
                    assert(self.session_views() =~= old_views.remove(i as int));
                    lemma_keyed_remove(old_views, session_key(), i as int);
                }
                let sig = s.signature();
                let ghost old_pairs = self.signature_entries();
                match self.signature_position(sig.as_str()) {
                    Some(j) => {
                        proof {
                            lemma_keyed_at(old_pairs, signature_key(), j as int);
                        }
                        let _ = self.by_signature.remove(j);
                        proof {
                            assert(self.signature_entries() =~= old_pairs.remove(j as int));
                            lemma_keyed_remove(old_pairs, signature_key(), j as int);
                            assert(self.signatures() =~= old(self).signatures().remove(sig@));
                        }
                    },
                    None => {
                        assert(self.signatures() =~= old(self).signatures().remove(sig@));
                    },
                }
                Some(s)
            },
            None => None,
        }
    }

    /// Copies of all sessions (in no particular order).
    pub fn snapshot(&self) -> (r: Vec<UploadSession>)
        requires
            self.wf(),
        ensures
            r@.len() == self.sessions().len(),
            forall|i: int|
                0 <= i < r@.len() ==> self.sessions().contains_key(#[trigger] r@[i]@.id)
                    && self.sessions()[r@[i]@.id] == r@[i]@,
            forall|k: Seq<char>|
                #[trigger] self.sessions().contains_key(k) ==> exists|i: int|
                    0 <= i < r@.len() && r@[i]@.id == k,
    {
        let mut r: Vec<UploadSession> = Vec::new();
        let mut i: usize = 0;
        while i < self.sessions.len()
            invariant
                i <= self.sessions@.len(),
                self.wf(),
                r@.len() == i,
                forall|j: int| 0 <= j < i ==> #[trigger] r@[j]@ == self.session_views()[j],
            decreases self.sessions@.len() - i,
        {
            r.push(self.sessions[i].duplicate());
            i = i + 1;
        }
        proof {
            let views = self.session_views();
            assert forall|j: int| 0 <= j < r@.len() implies self.sessions().contains_key(
                #[trigger] r@[j]@.id,
            ) && self.sessions()[r@[j]@.id] == r@[j]@ by {
                assert(r@[j]@ == views[j]);
                lemma_keyed_at(views, session_key(), j);
            }
            assert forall|k: Seq<char>| #[trigger]
                self.sessions().contains_key(k) implies exists|j: int|
                0 <= j < r@.len() && r@[j]@.id == k by {
                let j = key_index(views, session_key(), k);
                assert(r@[j]@ == views[j]);
            }
            lemma_keyed_len(views, session_key());
        }
        r
    }
}

} // verus!

verus! {

/// The chunk size used for a requested one: the request (default 4 MiB) clamped to
/// 256 KiB ..= 16 MiB.
pub open spec fn effective_chunk_size(requested: Option<u64>) -> u64 {
    let r = match requested {
        Some(c) => c,
        None => DEFAULT_CHUNK_SIZE,
    };
    if r < MIN_CHUNK_SIZE {
        MIN_CHUNK_SIZE
    } else if r > MAX_CHUNK_SIZE {
        MAX_CHUNK_SIZE
    } else {
        r
    }
}

pub fn chunk_size_for(requested: Option<u64>) -> (r: u64)
    ensures
        r == effective_chunk_size(requested),
        MIN_CHUNK_SIZE <= r <= MAX_CHUNK_SIZE,
{
    let r = match requested {
        Some(c) => c,
        None => DEFAULT_CHUNK_SIZE,
    };
    if r < MIN_CHUNK_SIZE {
        MIN_CHUNK_SIZE
    } else if r > MAX_CHUNK_SIZE {
        MAX_CHUNK_SIZE
    } else {
        r
    }
}

/// The number of chunks of `chunk` bytes that cover `size` bytes, as the session stores
/// it (`u32`, wrapping).
pub open spec fn chunk_count_for(size: u64, chunk: u64) -> u32 {
    ((size + chunk - 1) / (chunk as int)) as u32
}

pub fn count_chunks(size: u64, chunk: u64) -> (r: u32)
    requires
        chunk > 0,
        size + chunk - 1 <= u64::MAX,
    ensures
        r == chunk_count_for(size, chunk),
{
    ((size + (chunk - 1)) / chunk) as u32
}

impl UploadSessionView {
    /// The chunk layout is coherent: `chunk_count` chunks of `chunk_size` bytes cover
    /// `size` bytes, the last one being non-empty.
    pub open spec fn consistent(self) -> bool {
        &&& self.chunk_size > 0
        &&& self.chunk_count > 0
        &&& self.chunk_size * (self.chunk_count - 1) < self.size
        &&& self.size <= self.chunk_size * self.chunk_count
    }

    /// Where chunk `i` starts.
    pub open spec fn chunk_offset(self, i: int) -> int {
        self.chunk_size * i
    }

    /// How many bytes chunk `i` holds: `chunk_size`, or what is left for the last one.
    pub open spec fn chunk_len(self, i: int) -> int {
        if i + 1 == self.chunk_count {
            self.size - self.chunk_size * i
        } else {
            self.chunk_size as int
        }
    }

    /// Total bytes of the first `n` chunks.
    pub open spec fn covered(self, n: int) -> int
        decreases n,
    {
        if n <= 0 {
            0
        } else {
            self.covered(n - 1) + self.chunk_len(n - 1)
        }
    }
}

/// Chunks tile the file: each starts where the previous one ended, each is non-empty
/// and at most `chunk_size` long, and together they hold exactly `size` bytes.
pub proof fn law_chunks_tile(v: UploadSessionView)
    requires
        v.consistent(),
    ensures
        forall|i: int|
            0 <= i < v.chunk_count ==> 0 < #[trigger] v.chunk_len(i) <= v.chunk_size && v.covered(i)
                == v.chunk_offset(i),
        v.covered(v.chunk_count as int) == v.size,
{
    assert forall|i: int| 0 <= i <= v.chunk_count implies #[trigger] v.covered(i) == if i
        < v.chunk_count {
        v.chunk_offset(i)
    } else {
        v.size as int
    } by {
        lemma_covered(v, i);
    }
    assert forall|i: int| 0 <= i < v.chunk_count implies 0 < #[trigger] v.chunk_len(i)
        <= v.chunk_size && v.covered(i) == v.chunk_offset(i) by {
        lemma_covered(v, i);
        if i + 1 == v.chunk_count {
            assert(v.chunk_size * i < v.size);
            assert(v.size - v.chunk_size * i <= v.chunk_size) by (nonlinear_arith)
                requires
                    v.size <= v.chunk_size * v.chunk_count,
                    i + 1 == v.chunk_count,
            ;
        }
    }
}

proof fn lemma_covered(v: UploadSessionView, i: int)
    requires
        v.consistent(),
        0 <= i <= v.chunk_count,
    ensures
        v.covered(i) == if i < v.chunk_count {
            v.chunk_size * i
        } else {
            v.size as int
        },
    decreases i,
{
    if i > 0 {
        lemma_covered(v, i - 1);
        assert(v.chunk_size * (i - 1) + v.chunk_size == v.chunk_size * i) by (nonlinear_arith);
    }
}

/// Why a chunk was refused.
pub enum ChunkRejection {
    /// The index is not below the chunk count.
    IndexOutOfRange,
    /// The chunk would exceed [`MAX_CHUNK_SIZE`].
    TooLarge,
    /// The body length differs from the chunk's size.
    LengthMismatch { expected: u64, got: u64 },
}

impl UploadSession {
    /// Whether the chunk layout is coherent (sessions made at init always are).
    pub fn layout_consistent(&self) -> (r: bool)
        ensures
            r == self@.consistent(),
    {
        if self.chunk_size == 0 || self.chunk_count == 0 {
            return false;
        }
        let c = self.chunk_size as u128;
        let n = self.chunk_count as u128;
        assert(c * n <= u64::MAX * u32::MAX) by (nonlinear_arith)
            requires
                c <= u64::MAX,
                n <= u32::MAX,
        ;
        assert(c * (n - 1) <= c * n) by (nonlinear_arith)
            requires
                n >= 1,
        ;
        c * (n - 1) < self.size as u128 && (self.size as u128) <= c * n
    }

    /// The size chunk `index` must have, or why the chunk is refused.
    pub fn expected_chunk_len(&self, index: u32) -> (r: Result<u64, ChunkRejection>)
        requires
            index + 1 == self.chunk_count ==> self.chunk_size * index <= self.size,
        ensures
            match r {
                Ok(n) => index < self.chunk_count && n == self@.chunk_len(index as int) && n
                    <= MAX_CHUNK_SIZE,
                Err(ChunkRejection::IndexOutOfRange) => index >= self.chunk_count,
                Err(ChunkRejection::TooLarge) => index < self.chunk_count && self@.chunk_len(
                    index as int,
                ) > MAX_CHUNK_SIZE,
                Err(_) => false,
            },
    {
        if index >= self.chunk_count {
            return Err(ChunkRejection::IndexOutOfRange);
        }
        let expected = if index + 1 == self.chunk_count {
            self.size - self.chunk_size * (index as u64)
        } else {
            self.chunk_size
        };
        if expected > MAX_CHUNK_SIZE {
            return Err(ChunkRejection::TooLarge);
        }
        Ok(expected)
    }

    /// Where chunk `index` starts in the file.
    pub fn chunk_offset(&self, index: u32) -> (r: u64)
        requires
            self.chunk_size * index <= u64::MAX,
        ensures
            r == self@.chunk_offset(index as int),
    {
        self.chunk_size * (index as u64)
    }
}

pub fn check_chunk_bytes(expected: u64, got: u64) -> (r: Result<(), ChunkRejection>)
    ensures
        r is Ok <==> got == expected,
        r matches Err(e) ==> e == (ChunkRejection::LengthMismatch { expected, got }),
{
    if got != expected {
        Err(ChunkRejection::LengthMismatch { expected, got })
    } else {
        Ok(())
    }
}

/// What a chunk upload answers.
pub struct ChunkReceipt {
    pub received: u32,
    pub uploaded: Vec<u32>,
    pub complete: bool,
}

impl UploadManager {
    /// Records chunk `index` of upload `id` as written; None when the upload is gone.
    pub fn record_chunk(&mut self, id: &str, index: u32) -> (r: Option<ChunkReceipt>)
        requires
            old(self).wf(),
        ensures
            final(self).wf(),
            final(self).sessions() == after_receipts(old(self).sessions(), seq![(id@, index)]),
            final(self).signatures() == old(self).signatures(),
            match r {
                Some(c) => {
                    &&& old(self).sessions().contains_key(id@)
                    &&& final(self).sessions() == old(self).sessions().insert(
                        id@,
                        old(self).sessions()[id@].marked(index),
                    )
                    &&& c.received == index
                    &&& c.uploaded@ == old(self).sessions()[id@].marked(index).uploaded
                    &&& c.complete == old(self).sessions()[id@].marked(index).complete()
                },
                None => !old(self).sessions().contains_key(id@) && final(self).sessions()
                    == old(self).sessions(),
            },
    {
        proof {
            let one = seq![(id@, index)];
            let m0 = self.sessions();
            assert(one.drop_last() =~= Seq::<(Seq<char>, u32)>::empty());
            assert(one.last() == (id@, index));
            assert(after_receipts(m0, one.drop_last()) == m0);
            assert(after_receipts(m0, one) == if m0.contains_key(id@) {
                m0.insert(id@, m0[id@].marked(index))
            } else {
                m0
            });
        }
        match self.mark_chunk(id, index) {
            Some((uploaded, count)) => {
                let complete = uploaded.len() as u32 == count;
                Some(ChunkReceipt { received: index, uploaded, complete })
            },
            None => None,
        }
    }
}

/// Why an upload cannot be completed yet.
pub enum CompleteRejection {
    /// Not every chunk has arrived.
    Incomplete { received: usize, chunk_count: u32 },
    /// The partial file on disk has another size than announced.
    SizeMismatch { expected: u64, actual: u64 },
}

/// Checks that every chunk arrived and that the partial file (`partial_len` bytes on
/// disk) has the announced size.
pub fn check_complete(session: &UploadSession, partial_len: u64) -> (r: Result<
    (),
    CompleteRejection,
>)
    ensures
        match r {
            Ok(()) => session@.complete() && partial_len == session.size,
            Err(CompleteRejection::Incomplete { received, chunk_count }) => !session@.complete()
                && received == session.uploaded@.len() && chunk_count == session.chunk_count,
            Err(CompleteRejection::SizeMismatch { expected, actual }) => session@.complete()
                && partial_len != session.size && expected == session.size && actual
                == partial_len,
        },
{
    if !session.is_complete() {
        return Err(
            CompleteRejection::Incomplete {
                received: session.uploaded.len(),
                chunk_count: session.chunk_count,
            },
        );
    }
    if partial_len != session.size {
        return Err(CompleteRejection::SizeMismatch { expected: session.size, actual: partial_len });
    }
    Ok(())
}

} // verus!

verus! {

/// Ascending without repeats.
pub open spec fn strictly_ascending(s: Seq<u32>) -> bool {
    forall|i: int, j: int| 0 <= i < j < s.len() ==> s[i] < s[j]
}

proof fn lemma_marked_contains(v: UploadSessionView, index: u32)
    ensures
        v.uploaded_after_mark(index).contains(index),
        v.uploaded_after_mark(index).to_multiset() == (if v.uploaded.contains(index) {
            v.uploaded.to_multiset()
        } else {
            v.uploaded.push(index).to_multiset()
        }),
{
    broadcast use vstd::seq_lib::group_to_multiset_ensures;

    if !v.uploaded.contains(index) {
        let p = v.uploaded.push(index);
        lemma_index_le_total();
        p.lemma_sort_by_ensures(index_le());
        assert(p[p.len() - 1] == index);
        assert(p.to_multiset().count(index) > 0);
        assert(p.sort_by(index_le()).to_multiset().count(index) > 0);
    }
}

/// Marking a chunk twice is the same as marking it once (a resent chunk changes
/// nothing).
pub proof fn law_mark_idempotent(v: UploadSessionView, index: u32)
    ensures
        v.marked(index).marked(index) == v.marked(index),
{
    lemma_marked_contains(v, index);
}

/// Chunks can arrive in any order: marking `a` then `b` gives what marking `b` then
/// `a` gives.
#[verifier::spinoff_prover]
pub proof fn law_mark_order_irrelevant(v: UploadSessionView, a: u32, b: u32)
    ensures
        v.marked(a).marked(b) == v.marked(b).marked(a),
{
    broadcast use vstd::seq_lib::group_to_multiset_ensures;
    broadcast use vstd::multiset::group_multiset_axioms;

    lemma_marked_contains(v, a);
    lemma_marked_contains(v, b);
    lemma_marked_contains(v.marked(a), b);
    lemma_marked_contains(v.marked(b), a);
    lemma_index_le_total();
    let u = v.uploaded;
    if a != b && !u.contains(a) && !u.contains(b) {
        let ua = v.uploaded_after_mark(a);
        let ub = v.uploaded_after_mark(b);
        assert(ua.to_multiset().count(b) == u.push(a).to_multiset().count(b));
        assert(!ua.contains(b));
        assert(!ub.contains(a));
        let l = ua.push(b);
        let r = ub.push(a);
        l.lemma_sort_by_ensures(index_le());
        r.lemma_sort_by_ensures(index_le());
        assert(l.to_multiset() =~= r.to_multiset()) by {
            assert(l.to_multiset() =~= u.to_multiset().insert(a).insert(b));
            assert(r.to_multiset() =~= u.to_multiset().insert(b).insert(a));
        }
        vstd::seq_lib::lemma_sorted_unique(l.sort_by(index_le()), r.sort_by(index_le()), index_le());
    }
    assert(v.marked(a).marked(b).uploaded =~= v.marked(b).marked(a).uploaded);
}

/// The received list stays ascending and free of repeats when a chunk is marked.
pub proof fn law_mark_keeps_ascending(v: UploadSessionView, index: u32)
    requires
        strictly_ascending(v.uploaded),
    ensures
        strictly_ascending(v.marked(index).uploaded),
{
    broadcast use vstd::seq_lib::group_to_multiset_ensures;

    let u = v.uploaded;
    if !u.contains(index) {
        let p = u.push(index);
        lemma_index_le_total();
        p.lemma_sort_by_ensures(index_le());
        let w = p.sort_by(index_le());
        assert(p.no_duplicates()) by {
            assert forall|i: int, j: int| 0 <= i < p.len() && 0 <= j < p.len() && i != j implies p[i]
                != p[j] by {
                if i < u.len() && j < u.len() {
                    if i < j {
                        assert(u[i] < u[j]);
                    } else {
                        assert(u[j] < u[i]);
                    }
                } else if i == u.len() {
                    assert(p[i] == index);
                    assert(p[j] == u[j]);
                } else {
                    assert(p[j] == index);
                    assert(p[i] == u[i]);
                }
            }
        }
        p.lemma_multiset_has_no_duplicates();
        assert forall|x: u32| w.to_multiset().count(x) <= 1 by {
            assert(w.to_multiset().count(x) == p.to_multiset().count(x));
        }
        w.lemma_multiset_has_no_duplicates_conv();
        assert forall|i: int, j: int| 0 <= i < j < w.len() implies w[i] < w[j] by {
            assert(sorted_by(w, index_le()));
            assert(index_le()(w[i], w[j]));
        }
    }
}

proof fn lemma_ascending_gap(s: Seq<u32>, j: int, k: int)
    requires
        strictly_ascending(s),
        0 <= j <= k < s.len(),
    ensures
        s[k] - s[j] >= k - j,
    decreases k - j,
{
    if j < k {
        lemma_ascending_gap(s, j, k - 1);
    }
}

proof fn lemma_prefix_identity(s: Seq<u32>, count: int, k: int)
    requires
        strictly_ascending(s),
        forall|i: int| 0 <= i < count ==> #[trigger] s.contains(i as u32),
        0 <= k < s.len(),
        k < count,
        count <= u32::MAX,
    ensures
        s[k] == k,
    decreases k,
{
    assert(s.contains(k as u32));
    let j = choose|j: int| 0 <= j < s.len() && s[j] == k as u32;
    if j > k {
        lemma_ascending_gap(s, 0, k);
        assert(s[k] < s[j]);
    } else if j < k {
        lemma_prefix_identity(s, count, j);
    }
}

/// With the received list ascending, without repeats and within range, a session is
/// complete exactly when every chunk has arrived.
pub proof fn law_complete_iff_all_chunks(v: UploadSessionView)
    requires
        strictly_ascending(v.uploaded),
        forall|k: int| 0 <= k < v.uploaded.len() ==> v.uploaded[k] < v.chunk_count,
    ensures
        v.complete() <==> forall|i: int|
            0 <= i < v.chunk_count ==> #[trigger] v.uploaded.contains(i as u32),
{
    let s = v.uploaded;
    let n = v.chunk_count as int;
    if s.len() > 0 {
        lemma_ascending_gap(s, 0, s.len() - 1);
    }
    assert(s.len() <= n);
    if v.complete() {
        assert(s.len() == n);
        assert forall|i: int| 0 <= i < n implies #[trigger] s.contains(i as u32) by {
            lemma_ascending_gap(s, 0, i);
            lemma_ascending_gap(s, i, n - 1);
            assert(s[i] == i);
        }
    }
    if forall|i: int| 0 <= i < n ==> #[trigger] s.contains(i as u32) {
        if s.len() < n {
            assert(s.contains((n - 1) as u32));
            let j = choose|j: int| 0 <= j < s.len() && s[j] == (n - 1) as u32;
            lemma_prefix_identity(s, n, j);
        }
        assert(s.len() == n);
    }
}

/// The sessions after a run of chunk receipts `(session id, index)`, each applied as
/// [`UploadManager::record_chunk`] applies it (an unknown id changes nothing).
pub open spec fn after_receipts(
    m: Map<Seq<char>, UploadSessionView>,
    marks: Seq<(Seq<char>, u32)>,
) -> Map<Seq<char>, UploadSessionView>
    decreases marks.len(),
{
    if marks.len() == 0 {
        m
    } else {
        let prev = after_receipts(m, marks.drop_last());
        let id = marks.last().0;
        if prev.contains_key(id) {
            prev.insert(id, prev[id].marked(marks.last().1))
        } else {
            prev
        }
    }
}

proof fn lemma_marked_keeps(v: UploadSessionView, index: u32, x: u32)
    requires
        v.uploaded.contains(x),
    ensures
        v.marked(index).uploaded.contains(x),
{
    broadcast use vstd::seq_lib::group_to_multiset_ensures;

    lemma_marked_contains(v, index);
    if !v.uploaded.contains(index) {
        let k = choose|k: int| 0 <= k < v.uploaded.len() && v.uploaded[k] == x;
        assert(v.uploaded.push(index)[k] == x);
        assert(v.uploaded.push(index).contains(x));
        assert(v.uploaded.push(index).to_multiset().count(x) > 0);
        assert(v.marked(index).uploaded.to_multiset().count(x) > 0);
    }
}

/// Resuming survives any run of chunk receipts, in any order and with repeats: the
/// session's signature still leads to it, nothing but its received list has changed,
/// every index received for it is in that list, and a list that started strictly
/// ascending is still strictly ascending.
pub proof fn law_resume_across_receipts(
    m: Map<Seq<char>, UploadSessionView>,
    sigs: Map<Seq<char>, Seq<char>>,
    s: UploadSessionView,
    marks: Seq<(Seq<char>, u32)>,
)
    requires
        m.contains_key(s.id),
        m[s.id] == s,
        sigs.contains_key(s.signature()),
        sigs[s.signature()] == s.id,
    ensures
        after_receipts(m, marks).contains_key(sigs[s.signature()]),
        after_receipts(m, marks)[s.id] == (UploadSessionView {
            uploaded: after_receipts(m, marks)[s.id].uploaded,
            ..s
        }),
        forall|k: int|
            0 <= k < marks.len() && marks[k].0 == s.id ==> after_receipts(
                m,
                marks,
            )[s.id].uploaded.contains(#[trigger] marks[k].1),
        strictly_ascending(s.uploaded) ==> strictly_ascending(
            after_receipts(m, marks)[s.id].uploaded,
        ),
    decreases marks.len(),
{
    if marks.len() > 0 {
        let p = marks.drop_last();
        law_resume_across_receipts(m, sigs, s, p);
        let prev = after_receipts(m, p);
        let a = after_receipts(m, marks);
        let (id, i) = marks.last();
        if id == s.id {
            let v = prev[s.id];
            assert(a[s.id] == v.marked(i));
            lemma_marked_contains(v, i);
            assert forall|k: int|
                0 <= k < marks.len() && marks[k].0 == s.id implies a[s.id].uploaded.contains(
                #[trigger] marks[k].1,
            ) by {
                if k < marks.len() - 1 {
                    assert(marks[k] == p[k]);
                    lemma_marked_keeps(v, i, marks[k].1);
                }
            }
            if strictly_ascending(s.uploaded) {
                law_mark_keeps_ascending(v, i);
            }
        } else {
            assert(a[s.id] == prev[s.id]);
            assert forall|k: int|
                0 <= k < marks.len() && marks[k].0 == s.id implies a[s.id].uploaded.contains(
                #[trigger] marks[k].1,
            ) by {
                assert(k < marks.len() - 1);
                assert(marks[k] == p[k]);
            }
        }
    }
}

} // verus!
