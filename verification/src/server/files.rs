use indexmap::IndexMap;
use std::sync::Arc;
use vstd::prelude::*;

verus! {

/// A shared file.
#[derive(Debug)]
pub struct FileItem {
    pub id: String,
    pub name: String,
    pub size: u64,
    pub mime: String,
    pub uploader_ip: String,
    pub created_at: i64,
    /// Absolute path on the host (never sent to clients).
    pub path: String,
}

/// A shared text snippet.
#[derive(Debug)]
pub struct TextItem {
    pub id: String,
    pub content: String,
    pub uploader_ip: String,
    pub created_at: i64,
}

/// One audit-log record.
#[derive(Debug)]
pub struct AuditLog {
    pub id: i64,
    pub ts: i64,
    pub kind: String,
    pub ip: String,
    pub detail: String,
}

#[verifier::external_type_specification]
#[verifier::external_body]
#[verifier::reject_recursive_types(K)]
#[verifier::reject_recursive_types(V)]
#[verifier::reject_recursive_types(S)]
pub struct ExIndexMap<K, V, S>(IndexMap<K, V, S>);

/// Position of the entry with key `k` (the last one, should there be several), or -1.
pub open spec fn entry_position<V>(e: Seq<(Seq<char>, V)>, k: Seq<char>) -> int
    decreases e.len(),
{
    if e.len() == 0 {
        -1
    } else if e.last().0 == k {
        e.len() - 1
    } else {
        entry_position(e.drop_last(), k)
    }
}

/// The entries after inserting `(k, v)`: an existing key keeps its place and takes the
/// new value; a new key goes last.
pub open spec fn upsert<V>(e: Seq<(Seq<char>, V)>, k: Seq<char>, v: V) -> Seq<(Seq<char>, V)> {
    if entry_position(e, k) >= 0 {
        e.update(entry_position(e, k), (k, v))
    } else {
        e.push((k, v))
    }
}

/// The entries after removing key `k`, the others keeping their order.
pub open spec fn remove_entry<V>(e: Seq<(Seq<char>, V)>, k: Seq<char>) -> Seq<(Seq<char>, V)> {
    if entry_position(e, k) >= 0 {
        e.remove(entry_position(e, k))
    } else {
        e
    }
}

/// The value stored under `k`.
pub open spec fn lookup<V>(e: Seq<(Seq<char>, V)>, k: Seq<char>) -> Option<V> {
    if entry_position(e, k) >= 0 {
        Some(e[entry_position(e, k)].1)
    } else {
        None
    }
}

/// No key occurs twice.
pub open spec fn unique_keys<V>(e: Seq<(Seq<char>, V)>) -> bool {
    forall|i: int, j: int| 0 <= i < e.len() && 0 <= j < e.len() && i != j ==> e[i].0 != e[j].0
}

pub proof fn lemma_entry_position<V>(e: Seq<(Seq<char>, V)>, k: Seq<char>)
    ensures
        -1 <= entry_position(e, k) < e.len(),
        entry_position(e, k) >= 0 ==> e[entry_position(e, k)].0 == k,
        entry_position(e, k) < 0 ==> forall|i: int| 0 <= i < e.len() ==> e[i].0 != k,
        unique_keys(e) ==> forall|i: int| 0 <= i < e.len() && e[i].0 == k ==> i == entry_position(e, k),
    decreases e.len(),
{
    if e.len() > 0 && e.last().0 != k {
        lemma_entry_position(e.drop_last(), k);
        assert forall|i: int| 0 <= i < e.len() - 1 implies e[i] == e.drop_last()[i] by {}
        if unique_keys(e) {
            assert(unique_keys(e.drop_last()));
        }
    }
}

/// The contents of a file map, in order: (id, item).
pub uninterp spec fn file_entries(m: IndexMap<String, Arc<FileItem>>) -> Seq<(Seq<char>, FileItem)>;

/// The contents of a text map, in order: (id, item).
pub uninterp spec fn text_entries(m: IndexMap<String, Arc<TextItem>>) -> Seq<(Seq<char>, TextItem)>;

/// `IndexMap::new`: an empty map.
#[verifier::external_body]
fn files_new() -> (m: IndexMap<String, Arc<FileItem>>)
    ensures
        file_entries(m) == Seq::<(Seq<char>, FileItem)>::empty(),
{
    IndexMap::new()
}

/// `IndexMap::insert`: an existing key keeps its place and gets the new value; a new
/// key is appended.
#[verifier::external_body]
fn files_insert(m: &mut IndexMap<String, Arc<FileItem>>, k: String, v: Arc<FileItem>)
    ensures
        file_entries(*final(m)) == upsert(file_entries(*old(m)), k@, *v),
{
    m.insert(k, v);
}

/// `IndexMap::shift_remove`: removes the key, later entries keep their order.
#[verifier::external_body]
fn files_shift_remove(m: &mut IndexMap<String, Arc<FileItem>>, k: &str) -> (r: Option<
    Arc<FileItem>,
>)
    ensures
        file_entries(*final(m)) == remove_entry(file_entries(*old(m)), k@),
        match r {
            Some(v) => lookup(file_entries(*old(m)), k@) == Some(*v),
            None => lookup(file_entries(*old(m)), k@) is None,
        },
{
    m.shift_remove(k)
}

/// `IndexMap::get`, the value handed out as a new `Arc` to it.
#[verifier::external_body]
fn files_get(m: &IndexMap<String, Arc<FileItem>>, k: &str) -> (r: Option<Arc<FileItem>>)
    ensures
        match r {
            Some(v) => lookup(file_entries(*m), k@) == Some(*v),
            None => lookup(file_entries(*m), k@) is None,
        },
{
    m.get(k).cloned()
}

/// `IndexMap::get_index`, the value handed out as a new `Arc` to it.
#[verifier::external_body]
fn files_get_index(m: &IndexMap<String, Arc<FileItem>>, i: usize) -> (r: Option<Arc<FileItem>>)
    ensures
        match r {
            Some(v) => i < file_entries(*m).len() && *v == file_entries(*m)[i as int].1,
            None => i >= file_entries(*m).len(),
        },
{
    m.get_index(i).map(|(_, v)| v.clone())
}

/// `IndexMap::len`.
#[verifier::external_body]
fn files_len(m: &IndexMap<String, Arc<FileItem>>) -> (n: usize)
    ensures
        n == file_entries(*m).len(),
{
    m.len()
}

/// `IndexMap::clear`.
#[verifier::external_body]
fn files_clear(m: &mut IndexMap<String, Arc<FileItem>>)
    ensures
        file_entries(*final(m)) == Seq::<(Seq<char>, FileItem)>::empty(),
{
    m.clear()
}

/// `IndexMap::new`: an empty map.
#[verifier::external_body]
fn texts_new() -> (m: IndexMap<String, Arc<TextItem>>)
    ensures
        text_entries(m) == Seq::<(Seq<char>, TextItem)>::empty(),
{
    IndexMap::new()
}

/// `IndexMap::insert`: an existing key keeps its place and gets the new value; a new
/// key is appended.
#[verifier::external_body]
fn texts_insert(m: &mut IndexMap<String, Arc<TextItem>>, k: String, v: Arc<TextItem>)
    ensures
        text_entries(*final(m)) == upsert(text_entries(*old(m)), k@, *v),
{
    m.insert(k, v);
}

/// `IndexMap::shift_remove`: removes the key, later entries keep their order.
#[verifier::external_body]
fn texts_shift_remove(m: &mut IndexMap<String, Arc<TextItem>>, k: &str) -> (r: Option<
    Arc<TextItem>,
>)
    ensures
        text_entries(*final(m)) == remove_entry(text_entries(*old(m)), k@),
        match r {
            Some(v) => lookup(text_entries(*old(m)), k@) == Some(*v),
            None => lookup(text_entries(*old(m)), k@) is None,
        },
{
    m.shift_remove(k)
}

/// `IndexMap::get_index`, the value handed out as a new `Arc` to it.
#[verifier::external_body]
fn texts_get_index(m: &IndexMap<String, Arc<TextItem>>, i: usize) -> (r: Option<Arc<TextItem>>)
    ensures
        match r {
            Some(v) => i < text_entries(*m).len() && *v == text_entries(*m)[i as int].1,
            None => i >= text_entries(*m).len(),
        },
{
    m.get_index(i).map(|(_, v)| v.clone())
}

/// `IndexMap::len`.
#[verifier::external_body]
fn texts_len(m: &IndexMap<String, Arc<TextItem>>) -> (n: usize)
    ensures
        n == text_entries(*m).len(),
{
    m.len()
}

/// `IndexMap::clear`.
#[verifier::external_body]
fn texts_clear(m: &mut IndexMap<String, Arc<TextItem>>)
    ensures
        text_entries(*final(m)) == Seq::<(Seq<char>, TextItem)>::empty(),
{
    m.clear()
}

} // verus!

verus! {

/// `Arc::clone`: another handle to the same value.
#[verifier::external_body]
pub(crate) fn share<T>(a: &Arc<T>) -> (r: Arc<T>)
    ensures
        *r == **a,
{
    Arc::clone(a)
}

pub proof fn lemma_upsert<V>(e: Seq<(Seq<char>, V)>, k: Seq<char>, v: V)
    requires
        unique_keys(e),
    ensures
        unique_keys(upsert(e, k, v)),
        lookup(upsert(e, k, v), k) == Some(v),
        forall|k2: Seq<char>| k2 != k ==> lookup(upsert(e, k, v), k2) == lookup(e, k2),
{
    lemma_entry_position(e, k);
    let u = upsert(e, k, v);
    assert(unique_keys(u)) by {
        assert forall|i: int, j: int| 0 <= i < u.len() && 0 <= j < u.len() && i != j implies u[i].0
            != u[j].0 by {
            if entry_position(e, k) >= 0 {
                assert(u[i].0 == e[i].0 && u[j].0 == e[j].0);
            } else {
                if i < e.len() && j < e.len() {
                    assert(u[i] == e[i] && u[j] == e[j]);
                } else if i < e.len() {
                    assert(u[i] == e[i]);
                } else {
                    assert(u[j] == e[j]);
                }
            }
        }
    }
    lemma_entry_position(u, k);
    if entry_position(e, k) >= 0 {
        assert(u[entry_position(e, k)].0 == k);
    } else {
        assert(u[e.len() as int].0 == k);
    }
    assert forall|k2: Seq<char>| k2 != k implies lookup(u, k2) == lookup(e, k2) by {
        lemma_entry_position(e, k2);
        lemma_entry_position(u, k2);
        if entry_position(e, k2) >= 0 {
            let p = entry_position(e, k2);
            assert(u[p] == e[p]);
        }
        if entry_position(u, k2) >= 0 {
            let p = entry_position(u, k2);
            assert(p < e.len());
            assert(u[p] == e[p]);
        }
    }
}

pub proof fn lemma_remove_entry<V>(e: Seq<(Seq<char>, V)>, k: Seq<char>)
    requires
        unique_keys(e),
    ensures
        unique_keys(remove_entry(e, k)),
        lookup(remove_entry(e, k), k) is None,
        forall|k2: Seq<char>| k2 != k ==> lookup(remove_entry(e, k), k2) == lookup(e, k2),
{
    lemma_entry_position(e, k);
    let u = remove_entry(e, k);
    let p = entry_position(e, k);
    if p >= 0 {
        assert forall|i: int| 0 <= i < u.len() implies #[trigger] u[i] == e[if i < p {
            i
        } else {
            i + 1
        }] by {}
        assert(unique_keys(u)) by {
            assert forall|i: int, j: int|
                0 <= i < u.len() && 0 <= j < u.len() && i != j implies u[i].0 != u[j].0 by {
                assert(u[i] == e[if i < p {
                    i
                } else {
                    i + 1
                }]);
                assert(u[j] == e[if j < p {
                    j
                } else {
                    j + 1
                }]);
            }
        }
        lemma_entry_position(u, k);
        if entry_position(u, k) >= 0 {
            let q = entry_position(u, k);
            assert(u[q] == e[if q < p {
                q
            } else {
                q + 1
            }]);
        }
        assert forall|k2: Seq<char>| k2 != k implies lookup(u, k2) == lookup(e, k2) by {
            lemma_entry_position(e, k2);
            lemma_entry_position(u, k2);
            if entry_position(e, k2) >= 0 {
                let q = entry_position(e, k2);
                assert(q != p);
                let q2 = if q < p {
                    q
                } else {
                    q - 1
                };
                assert(u[q2] == e[q]);
            }
            if entry_position(u, k2) >= 0 {
                let q = entry_position(u, k2);
                assert(u[q] == e[if q < p {
                    q
                } else {
                    q + 1
                }]);
            }
        }
    }
}

/// Whether every entry is stored under its own item's id.
pub open spec fn files_keyed_by_id(e: Seq<(Seq<char>, FileItem)>) -> bool {
    forall|i: int| 0 <= i < e.len() ==> #[trigger] e[i].0 == e[i].1.id@
}

pub open spec fn texts_keyed_by_id(e: Seq<(Seq<char>, TextItem)>) -> bool {
    forall|i: int| 0 <= i < e.len() ==> #[trigger] e[i].0 == e[i].1.id@
}

/// The in-memory list of shared files and texts, in the order they were added.
pub struct Registry {
    files: IndexMap<String, Arc<FileItem>>,
    texts: IndexMap<String, Arc<TextItem>>,
}

impl Registry {
    /// Shared files: (id, item), oldest first.
    pub closed spec fn files(&self) -> Seq<(Seq<char>, FileItem)> {
        file_entries(self.files)
    }

    /// Shared texts: (id, item), oldest first.
    pub closed spec fn texts(&self) -> Seq<(Seq<char>, TextItem)> {
        text_entries(self.texts)
    }

    pub open spec fn wf(&self) -> bool {
        &&& unique_keys(self.files())
        &&& unique_keys(self.texts())
        &&& files_keyed_by_id(self.files())
        &&& texts_keyed_by_id(self.texts())
    }

    /// An empty registry (no persistence).
    pub fn memory_only() -> (r: Registry)
        ensures
            r.wf(),
            r.files() == Seq::<(Seq<char>, FileItem)>::empty(),
            r.texts() == Seq::<(Seq<char>, TextItem)>::empty(),
    {
        Registry { files: files_new(), texts: texts_new() }
    }

    /// Adds a file (an existing id keeps its place and takes the new item).
    pub fn add_file(&mut self, item: FileItem) -> (r: Arc<FileItem>)
        requires
            old(self).wf(),
        ensures
            final(self).wf(),
            *r == item,
            final(self).files() == upsert(old(self).files(), item.id@, item),
            final(self).texts() == old(self).texts(),
    {
        let key = item.id.clone();
        let arc = Arc::new(item);
        files_insert(&mut self.files, key, share(&arc));
        proof {
            let e = old(self).files();
            lemma_upsert(e, item.id@, item);
            lemma_entry_position(e, item.id@);
            let u = upsert(e, item.id@, item);
            assert forall|i: int| 0 <= i < u.len() implies #[trigger] u[i].0 == u[i].1.id@ by {
                if i < e.len() && i != entry_position(e, item.id@) {
                    assert(u[i] == e[i]);
                }
            }
        }
        arc
    }

    /// All files, oldest first.
    pub fn list_files(&self) -> (r: Vec<Arc<FileItem>>)
        ensures
            r@.len() == self.files().len(),
            forall|i: int| 0 <= i < r@.len() ==> *#[trigger] r@[i] == self.files()[i].1,
    {
        let n = files_len(&self.files);
        let mut r: Vec<Arc<FileItem>> = Vec::new();
        let mut i: usize = 0;
        while i < n
            invariant
                i <= n,
                n == self.files().len(),
                r@.len() == i,
                forall|j: int| 0 <= j < i ==> *#[trigger] r@[j] == self.files()[j].1,
            decreases n - i,
        {
            match files_get_index(&self.files, i) {
                Some(v) => r.push(v),
                None => {
                    assert(false);
                },
            }
            i = i + 1;
        }
        r
    }

    /// The file with id `id`.
    pub fn get_file(&self, id: &str) -> (r: Option<Arc<FileItem>>)
        ensures
            match r {
                Some(v) => lookup(self.files(), id@) == Some(*v),
                None => lookup(self.files(), id@) is None,
            },
    {
        files_get(&self.files, id)
    }

    /// Removes the file record `id` (the file on disk stays).
    pub fn remove_file(&mut self, id: &str) -> (r: Option<Arc<FileItem>>)
        requires
            old(self).wf(),
        ensures
            final(self).wf(),
            final(self).files() == remove_entry(old(self).files(), id@),
            final(self).texts() == old(self).texts(),
            match r {
                Some(v) => lookup(old(self).files(), id@) == Some(*v),
                None => lookup(old(self).files(), id@) is None,
            },
    {
        let r = files_shift_remove(&mut self.files, id);
        proof {
            let e = old(self).files();
            lemma_remove_entry(e, id@);
            lemma_entry_position(e, id@);
            let u = remove_entry(e, id@);
            let p = entry_position(e, id@);
            assert forall|i: int| 0 <= i < u.len() implies #[trigger] u[i].0 == u[i].1.id@ by {
                if p >= 0 {
                    assert(u[i] == e[if i < p {
                        i
                    } else {
                        i + 1
                    }]);
                }
            }
        }
        r
    }

    /// The host paths of all files, oldest first.
    pub fn known_file_paths(&self) -> (r: Vec<String>)
        ensures
            r@.len() == self.files().len(),
            forall|i: int| 0 <= i < r@.len() ==> #[trigger] r@[i]@ == self.files()[i].1.path@,
    {
        let n = files_len(&self.files);
        let mut r: Vec<String> = Vec::new();
        let mut i: usize = 0;
        while i < n
            invariant
                i <= n,
                n == self.files().len(),
                r@.len() == i,
                forall|j: int| 0 <= j < i ==> #[trigger] r@[j]@ == self.files()[j].1.path@,
            decreases n - i,
        {
            match files_get_index(&self.files, i) {
                Some(v) => r.push(v.path.clone()),
                None => {
                    assert(false);
                },
            }
            i = i + 1;
        }
        r
    }

    /// Adds a text (an existing id keeps its place and takes the new item).
    pub fn add_text(&mut self, item: TextItem) -> (r: Arc<TextItem>)
        requires
            old(self).wf(),
        ensures
            final(self).wf(),
            *r == item,
            final(self).texts() == upsert(old(self).texts(), item.id@, item),
            final(self).files() == old(self).files(),
    {
        let key = item.id.clone();
        let arc = Arc::new(item);
        texts_insert(&mut self.texts, key, share(&arc));
        proof {
            let e = old(self).texts();
            lemma_upsert(e, item.id@, item);
            lemma_entry_position(e, item.id@);
            let u = upsert(e, item.id@, item);
            assert forall|i: int| 0 <= i < u.len() implies #[trigger] u[i].0 == u[i].1.id@ by {
                if i < e.len() && i != entry_position(e, item.id@) {
                    assert(u[i] == e[i]);
                }
            }
        }
        arc
    }

    /// All texts, oldest first.
    pub fn list_texts(&self) -> (r: Vec<Arc<TextItem>>)
        ensures
            r@.len() == self.texts().len(),
            forall|i: int| 0 <= i < r@.len() ==> *#[trigger] r@[i] == self.texts()[i].1,
    {
        let n = texts_len(&self.texts);
        let mut r: Vec<Arc<TextItem>> = Vec::new();
        let mut i: usize = 0;
        while i < n
            invariant
                i <= n,
                n == self.texts().len(),
                r@.len() == i,
                forall|j: int| 0 <= j < i ==> *#[trigger] r@[j] == self.texts()[j].1,
            decreases n - i,
        {
            match texts_get_index(&self.texts, i) {
                Some(v) => r.push(v),
                None => {
                    assert(false);
                },
            }
            i = i + 1;
        }
        r
    }

    /// Removes the text `id`.
    pub fn remove_text(&mut self, id: &str) -> (r: Option<Arc<TextItem>>)
        requires
            old(self).wf(),
        ensures
            final(self).wf(),
            final(self).texts() == remove_entry(old(self).texts(), id@),
            final(self).files() == old(self).files(),
            match r {
                Some(v) => lookup(old(self).texts(), id@) == Some(*v),
                None => lookup(old(self).texts(), id@) is None,
            },
    {
        let r = texts_shift_remove(&mut self.texts, id);
        proof {
            let e = old(self).texts();
            lemma_remove_entry(e, id@);
            lemma_entry_position(e, id@);
            let u = remove_entry(e, id@);
            let p = entry_position(e, id@);
            assert forall|i: int| 0 <= i < u.len() implies #[trigger] u[i].0 == u[i].1.id@ by {
                if p >= 0 {
                    assert(u[i] == e[if i < p {
                        i
                    } else {
                        i + 1
                    }]);
                }
            }
        }
        r
    }

    /// Forgets every file and text.
    pub fn clear_all(&mut self)
        ensures
            final(self).wf(),
            final(self).files() == Seq::<(Seq<char>, FileItem)>::empty(),
            final(self).texts() == Seq::<(Seq<char>, TextItem)>::empty(),
    {
        files_clear(&mut self.files);
        texts_clear(&mut self.texts);
    }
}

} // verus!

verus! {

/// The file entries whose `present` flag is set, in order.
pub open spec fn kept_files(e: Seq<(Seq<char>, FileItem)>, present: Seq<bool>) -> Seq<
    (Seq<char>, FileItem),
>
    decreases e.len(),
{
    if e.len() == 0 {
        Seq::empty()
    } else {
        let rest = kept_files(e.drop_last(), present.drop_last());
        if present.last() {
            rest.push(e.last())
        } else {
            rest
        }
    }
}

/// The ids of the file entries whose `present` flag is clear, in order.
pub open spec fn dropped_ids(e: Seq<(Seq<char>, FileItem)>, present: Seq<bool>) -> Seq<Seq<char>>
    decreases e.len(),
{
    if e.len() == 0 {
        Seq::empty()
    } else {
        let rest = dropped_ids(e.drop_last(), present.drop_last());
        if present.last() {
            rest
        } else {
            rest.push(e.last().0)
        }
    }
}

/// Files added one after another, in order.
pub open spec fn upsert_files(e: Seq<(Seq<char>, FileItem)>, items: Seq<FileItem>) -> Seq<
    (Seq<char>, FileItem),
>
    decreases items.len(),
{
    if items.len() == 0 {
        e
    } else {
        let prev = upsert_files(e, items.drop_last());
        upsert(prev, items.last().id@, items.last())
    }
}

/// Texts added one after another, in order.
pub open spec fn upsert_texts(e: Seq<(Seq<char>, TextItem)>, items: Seq<TextItem>) -> Seq<
    (Seq<char>, TextItem),
>
    decreases items.len(),
{
    if items.len() == 0 {
        e
    } else {
        let prev = upsert_texts(e, items.drop_last());
        upsert(prev, items.last().id@, items.last())
    }
}

proof fn lemma_kept_keys(e: Seq<(Seq<char>, FileItem)>, present: Seq<bool>, k: Seq<char>)
    requires
        present.len() == e.len(),
        forall|p: int| 0 <= p < e.len() ==> e[p].0 != k,
    ensures
        forall|j: int| 0 <= j < kept_files(e, present).len() ==> kept_files(e, present)[j].0 != k,
    decreases e.len(),
{
    if e.len() > 0 {
        let t = e.drop_last();
        assert forall|p: int| 0 <= p < t.len() implies t[p].0 != k by {
            assert(t[p] == e[p]);
        }
        lemma_kept_keys(t, present.drop_last(), k);
        let r = kept_files(t, present.drop_last());
        let kk = kept_files(e, present);
        assert(kk == if present.last() {
            r.push(e.last())
        } else {
            r
        });
        assert forall|j: int| 0 <= j < kk.len() implies kk[j].0 != k by {
            if j < r.len() {
                assert(kk[j] == r[j]);
            } else {
                assert(kk[j] == e.last());
            }
        }
    }
}

impl Registry {
    /// A registry holding stored records, added in the order given (oldest first).
    pub fn load(files: Vec<FileItem>, texts: Vec<TextItem>) -> (r: Registry)
        ensures
            r.wf(),
            r.files() == upsert_files(Seq::empty(), files@),
            r.texts() == upsert_texts(Seq::empty(), texts@),
    {
        let mut reg = Registry::memory_only();
        let mut files = files;
        let mut texts = texts;
        let ghost all_files = files@;
        let ghost all_texts = texts@;
        assert(all_files.len() == files.len() && all_texts.len() == texts.len());
        let mut i: usize = 0;
        while files.len() > 0
            invariant
                reg.wf(),
                i + files@.len() == all_files.len(),
                all_files.len() <= usize::MAX,
                files@ == all_files.subrange(i as int, all_files.len() as int),
                reg.files() == upsert_files(Seq::empty(), all_files.take(i as int)),
                reg.texts() == Seq::<(Seq<char>, TextItem)>::empty(),
            decreases files@.len(),
        {
            let item = files.remove(0);
            assert(item == all_files[i as int]);
            reg.add_file(item);
            i = i + 1;
            assert(all_files.take(i as int).drop_last() == all_files.take(i - 1));
            assert(files@ =~= all_files.subrange(i as int, all_files.len() as int));
        }
        assert(all_files.take(i as int) == all_files);
        let mut j: usize = 0;
        while texts.len() > 0
            invariant
                reg.wf(),
                j + texts@.len() == all_texts.len(),
                all_texts.len() <= usize::MAX,
                texts@ == all_texts.subrange(j as int, all_texts.len() as int),
                reg.files() == upsert_files(Seq::empty(), all_files),
                reg.texts() == upsert_texts(Seq::empty(), all_texts.take(j as int)),
            decreases texts@.len(),
        {
            let item = texts.remove(0);
            assert(item == all_texts[j as int]);
            reg.add_text(item);
            j = j + 1;
            assert(all_texts.take(j as int).drop_last() == all_texts.take(j - 1));
            assert(texts@ =~= all_texts.subrange(j as int, all_texts.len() as int));
        }
        assert(all_texts.take(j as int) == all_texts);
        reg
    }

    /// Drops the file records whose file is gone from disk (`present[i]` is false for
    /// the i-th file), keeping the order of the rest, and gives back the dropped ids.
    pub fn reconcile(&mut self, present: &Vec<bool>) -> (removed: Vec<String>)
        requires
            old(self).wf(),
            present@.len() == old(self).files().len(),
        ensures
            final(self).wf(),
            final(self).files() == kept_files(old(self).files(), present@),
            final(self).texts() == old(self).texts(),
            removed@.len() == dropped_ids(old(self).files(), present@).len(),
            forall|i: int|
                0 <= i < removed@.len() ==> #[trigger] removed@[i]@ == dropped_ids(
                    old(self).files(),
                    present@,
                )[i],
    {
        let ghost e = self.files();
        let n = files_len(&self.files);
        let mut kept = files_new();
        let mut removed: Vec<String> = Vec::new();
        let mut i: usize = 0;
        while i < n
            invariant
                i <= n,
                n == e.len(),
                e == self.files(),
                present@.len() == n,
                unique_keys(e),
                files_keyed_by_id(e),
                file_entries(kept) == kept_files(e.take(i as int), present@.take(i as int)),
                unique_keys(file_entries(kept)),
                files_keyed_by_id(file_entries(kept)),
                removed@.len() == dropped_ids(e.take(i as int), present@.take(i as int)).len(),
                forall|j: int|
                    0 <= j < removed@.len() ==> #[trigger] removed@[j]@ == dropped_ids(
                        e.take(i as int),
                        present@.take(i as int),
                    )[j],
            decreases n - i,
        {
            let v = files_get_index(&self.files, i).unwrap();
            let ghost pre = e.take(i as int);
            let ghost pre_flags = present@.take(i as int);
            assert(e.take(i + 1).drop_last() == pre);
            assert(present@.take(i + 1).drop_last() == pre_flags);
            assert(e.take(i + 1).last() == e[i as int]);
            if present[i] {
                proof {
                    let k = file_entries(kept);
                    assert forall|p: int| 0 <= p < pre.len() implies pre[p].0 != e[i as int].0 by {
                        assert(pre[p] == e[p]);
                    }
                    lemma_kept_keys(pre, pre_flags, e[i as int].0);
                    lemma_entry_position(k, e[i as int].0);
                    lemma_upsert(k, e[i as int].0, e[i as int].1);
                }
                let key = v.id.clone();
                files_insert(&mut kept, key, v);
                proof {
                    let k2 = file_entries(kept);
                    assert forall|j: int| 0 <= j < k2.len() implies #[trigger] k2[j].0
                        == k2[j].1.id@ by {
                        if j < k2.len() - 1 {
                            assert(k2[j] == kept_files(pre, pre_flags)[j]);
                        }
                    }
                }
            } else {
                removed.push(v.id.clone());
            }
            i = i + 1;
        }
        assert(e.take(n as int) == e);
        assert(present@.take(n as int) == present@);
        self.files = kept;
        removed
    }
}

} // verus!

verus! {

/// Largest page of audit records.
pub const AUDIT_PAGE_MAX: i64 = 500;

/// Audit records kept at most (older ones are pruned).
pub const AUDIT_KEEP: i64 = 2000;

/// The page of audit records a listing asks for: `limit` (default 200) clamped to
/// 1 ..= 500, `offset` (default 0) at least 0.
pub fn audit_window(limit: Option<i64>, offset: Option<i64>) -> (r: (i64, i64))
    ensures
        r.0 == ({
            let l = match limit {
                Some(l) => l,
                None => 200,
            };
            if l < 1 {
                1
            } else if l > AUDIT_PAGE_MAX {
                AUDIT_PAGE_MAX
            } else {
                l
            }
        }),
        r.1 == ({
            let o = match offset {
                Some(o) => o,
                None => 0,
            };
            if o < 0 {
                0
            } else {
                o
            }
        }),
{
    let l = match limit {
        Some(l) => l,
        None => 200,
    };
    let o = match offset {
        Some(o) => o,
        None => 0,
    };
    let l = if l < 1 {
        1
    } else if l > AUDIT_PAGE_MAX {
        AUDIT_PAGE_MAX
    } else {
        l
    };
    let o = if o < 0 {
        0
    } else {
        o
    };
    (l, o)
}

/// Whether the audit log is due for pruning after the insert that got row id
/// `last_id` (every 200th insert).
pub fn audit_prune_due(last_id: i64) -> (r: bool)
    ensures
        r == (last_id % 200 == 0),
{
    last_id % 200 == 0
}

} // verus!
