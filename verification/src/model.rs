use vstd::prelude::*;
use crate::hash::ContentHash;
use crate::record::StashEntry;

verus! {

// ---------------------------------------------------------------------------
// Repository data: plain values for everything the stash engine touches.
// ---------------------------------------------------------------------------

/// One file of the working tree.
#[derive(Debug)]
pub struct WtFile {
    pub path: String,
    pub content: Vec<u8>,
}

impl View for WtFile {
    type V = (Seq<char>, Seq<u8>);

    open spec fn view(&self) -> Self::V {
        (self.path@, self.content@)
    }
}

/// One entry of the staging area: what the next commit would record for a
/// path.
#[derive(Debug)]
pub struct IndexEntry {
    pub path: String,
    pub hash: ContentHash,
    pub size: u32,
}

impl View for IndexEntry {
    type V = (Seq<char>, Seq<u8>, u32);

    open spec fn view(&self) -> Self::V {
        (self.path@, self.hash@, self.size)
    }
}

/// One named branch and the commit it points to.
#[derive(Debug)]
pub struct BranchRef {
    pub name: String,
    pub commit: ContentHash,
}

impl View for BranchRef {
    type V = (Seq<char>, Seq<u8>);

    open spec fn view(&self) -> Self::V {
        (self.name@, self.commit@)
    }
}

/// One regular file of a tree snapshot: path and blob digest.
#[derive(Debug)]
pub struct TreeItem {
    pub path: String,
    pub hash: ContentHash,
}

impl View for TreeItem {
    type V = (Seq<char>, Seq<u8>);

    open spec fn view(&self) -> Self::V {
        (self.path@, self.hash@)
    }
}

/// An immutable commit object: a tree, zero or more parents, a message.
#[derive(Debug)]
pub struct CommitObj {
    pub tree: ContentHash,
    pub parents: Vec<ContentHash>,
    pub message: String,
}

/// The mathematical shape of a commit.
pub struct CommitV {
    pub tree: Seq<u8>,
    pub parents: Seq<Seq<u8>>,
    pub message: Seq<char>,
}

impl View for CommitObj {
    type V = CommitV;

    open spec fn view(&self) -> CommitV {
        CommitV {
            tree: self.tree@,
            parents: self.parents@.map_values(|h: ContentHash| h@),
            message: self.message@,
        }
    }
}

/// An object of the content-addressed store.
#[derive(Debug)]
pub enum Object {
    Blob(Vec<u8>),
    TreeNode(Vec<TreeItem>),
    CommitNode(CommitObj),
}

/// The mathematical shape of a stored object.
pub enum ObjV {
    Blob(Seq<u8>),
    Tree(Seq<(Seq<char>, Seq<u8>)>),
    Commit(CommitV),
}

impl View for Object {
    type V = ObjV;

    open spec fn view(&self) -> ObjV {
        match self {
            Object::Blob(c) => ObjV::Blob(c@),
            Object::TreeNode(v) => ObjV::Tree(v@.map_values(|t: TreeItem| t@)),
            Object::CommitNode(c) => ObjV::Commit(c@),
        }
    }
}

/// One slot of the object store.
#[derive(Debug)]
pub struct StoreEntry {
    pub key: ContentHash,
    pub obj: Object,
}

impl View for StoreEntry {
    type V = (Seq<u8>, ObjV);

    open spec fn view(&self) -> Self::V {
        (self.key@, self.obj@)
    }
}

/// The current pointer: a named branch, or a detached commit id.
#[derive(Debug)]
pub enum Head {
    Branch(String),
    Detached(ContentHash),
}

/// The mathematical shape of the head pointer.
pub enum HeadV {
    Branch(Seq<char>),
    Detached(Seq<u8>),
}

impl View for Head {
    type V = HeadV;

    open spec fn view(&self) -> HeadV {
        match self {
            Head::Branch(n) => HeadV::Branch(n@),
            Head::Detached(h) => HeadV::Detached(h@),
        }
    }
}

/// The whole repository state the stash engine works on: object store,
/// branch references, head pointer, staging area, working tree, and the
/// single stash slot.
#[derive(Debug)]
pub struct Repository {
    pub store: Vec<StoreEntry>,
    pub branches: Vec<BranchRef>,
    pub head: Head,
    pub index: Vec<IndexEntry>,
    pub worktree: Vec<WtFile>,
    pub slot: Option<StashEntry>,
}

/// The mathematical shape of the repository.
pub struct RepoV {
    pub store: Seq<(Seq<u8>, ObjV)>,
    pub branches: Seq<(Seq<char>, Seq<u8>)>,
    pub head: HeadV,
    pub index: Seq<(Seq<char>, Seq<u8>, u32)>,
    pub worktree: Seq<(Seq<char>, Seq<u8>)>,
    pub slot: Option<(Seq<u8>, Option<Seq<u8>>, Seq<char>)>,
}

impl View for Repository {
    type V = RepoV;

    open spec fn view(&self) -> RepoV {
        RepoV {
            store: self.store@.map_values(|e: StoreEntry| e@),
            branches: self.branches@.map_values(|b: BranchRef| b@),
            head: self.head@,
            index: self.index@.map_values(|e: IndexEntry| e@),
            worktree: self.worktree@.map_values(|w: WtFile| w@),
            slot: match self.slot {
                Some(e) => Some(e@),
                None => None,
            },
        }
    }
}

// ---------------------------------------------------------------------------
// First-match lookup and upsert over the view sequences.
// ---------------------------------------------------------------------------

/// Position of the first store slot at or after `from` whose key is `k`,
/// or the length if there is none.
pub open spec fn store_pos_from(s: Seq<(Seq<u8>, ObjV)>, k: Seq<u8>, from: int) -> int
    decreases s.len() - from when 0 <= from <= s.len()
{
    if from >= s.len() {
        s.len() as int
    } else if s[from].0 == k {
        from
    } else {
        store_pos_from(s, k, from + 1)
    }
}

pub open spec fn store_find(s: Seq<(Seq<u8>, ObjV)>, k: Seq<u8>) -> Option<ObjV> {
    let p = store_pos_from(s, k, 0);
    if p < s.len() {
        Some(s[p].1)
    } else {
        None
    }
}

pub proof fn lemma_store_pos(s: Seq<(Seq<u8>, ObjV)>, k: Seq<u8>, from: int)
    requires
        0 <= from <= s.len(),
    ensures
        from <= store_pos_from(s, k, from) <= s.len(),
        store_pos_from(s, k, from) < s.len() ==> s[store_pos_from(s, k, from)].0 == k,
        forall|j: int| from <= j < store_pos_from(s, k, from) ==> s[j].0 != k,
    decreases s.len() - from,
{
    if from < s.len() && s[from].0 != k {
        lemma_store_pos(s, k, from + 1);
    }
}

pub proof fn lemma_store_pos_is(s: Seq<(Seq<u8>, ObjV)>, k: Seq<u8>, from: int, p: int)
    requires
        0 <= from <= p <= s.len(),
        forall|j: int| from <= j < p ==> s[j].0 != k,
        p == s.len() || s[p].0 == k,
    ensures
        store_pos_from(s, k, from) == p,
    decreases p - from,
{
    if from < p {
        lemma_store_pos_is(s, k, from + 1, p);
    }
}

/// Content-addressed save: a key already present is left untouched (two
/// objects with the same content are the same object), an absent key is
/// appended.
pub open spec fn store_save_spec(s: Seq<(Seq<u8>, ObjV)>, k: Seq<u8>, o: ObjV) -> Seq<
    (Seq<u8>, ObjV),
> {
    if store_find(s, k) is Some {
        s
    } else {
        s.push((k, o))
    }
}

/// What a save does to every lookup.
pub proof fn lemma_store_save(s: Seq<(Seq<u8>, ObjV)>, k: Seq<u8>, o: ObjV)
    ensures
        store_find(s, k) is Some ==> store_save_spec(s, k, o) == s,
        store_find(s, k) is None ==> store_find(store_save_spec(s, k, o), k) == Some(o),
        forall|k2: Seq<u8>|
            k2 != k ==> #[trigger] store_find(store_save_spec(s, k, o), k2) == store_find(s, k2),
        forall|k2: Seq<u8>|
            store_find(s, k2) is Some ==> #[trigger] store_find(
                store_save_spec(s, k, o),
                k2,
            ) == store_find(s, k2),
{
    lemma_store_pos(s, k, 0);
    if store_find(s, k) is None {
        let t = s.push((k, o));
        lemma_store_pos_is(t, k, 0, s.len() as int);
        assert forall|k2: Seq<u8>| k2 != k implies #[trigger] store_find(t, k2) == store_find(
            s,
            k2,
        ) by {
            lemma_store_pos(s, k2, 0);
            let p = store_pos_from(s, k2, 0);
            if p < s.len() {
                lemma_store_pos_is(t, k2, 0, p);
            } else {
                lemma_store_pos_is(t, k2, 0, t.len() as int);
            }
        }
    }
}

/// Everything findable in `pre` is findable, unchanged, in `post`.
pub open spec fn store_grew(pre: Seq<(Seq<u8>, ObjV)>, post: Seq<(Seq<u8>, ObjV)>) -> bool {
    forall|k: Seq<u8>|
        #[trigger] store_find(pre, k) is Some ==> store_find(post, k) == store_find(pre, k)
}

/// Position of the first index entry at or after `from` whose path is `k`.
pub open spec fn idx_pos_from(s: Seq<(Seq<char>, Seq<u8>, u32)>, k: Seq<char>, from: int) -> int
    decreases s.len() - from when 0 <= from <= s.len()
{
    if from >= s.len() {
        s.len() as int
    } else if s[from].0 == k {
        from
    } else {
        idx_pos_from(s, k, from + 1)
    }
}

pub open spec fn idx_find(s: Seq<(Seq<char>, Seq<u8>, u32)>, k: Seq<char>) -> Option<
    (Seq<char>, Seq<u8>, u32),
> {
    let p = idx_pos_from(s, k, 0);
    if p < s.len() {
        Some(s[p])
    } else {
        None
    }
}

pub proof fn lemma_idx_pos(s: Seq<(Seq<char>, Seq<u8>, u32)>, k: Seq<char>, from: int)
    requires
        0 <= from <= s.len(),
    ensures
        from <= idx_pos_from(s, k, from) <= s.len(),
        idx_pos_from(s, k, from) < s.len() ==> s[idx_pos_from(s, k, from)].0 == k,
        forall|j: int| from <= j < idx_pos_from(s, k, from) ==> s[j].0 != k,
    decreases s.len() - from,
{
    if from < s.len() && s[from].0 != k {
        lemma_idx_pos(s, k, from + 1);
    }
}

pub proof fn lemma_idx_pos_is(s: Seq<(Seq<char>, Seq<u8>, u32)>, k: Seq<char>, from: int, p: int)
    requires
        0 <= from <= p <= s.len(),
        forall|j: int| from <= j < p ==> s[j].0 != k,
        p == s.len() || s[p].0 == k,
    ensures
        idx_pos_from(s, k, from) == p,
    decreases p - from,
{
    if from < p {
        lemma_idx_pos_is(s, k, from + 1, p);
    }
}

/// Replace the first entry with the same path, or append.
pub open spec fn idx_upsert_spec(s: Seq<(Seq<char>, Seq<u8>, u32)>, v: (Seq<char>, Seq<u8>, u32))
    -> Seq<(Seq<char>, Seq<u8>, u32)> {
    let p = idx_pos_from(s, v.0, 0);
    if p < s.len() {
        s.update(p, v)
    } else {
        s.push(v)
    }
}

/// No two index entries share a path.
pub open spec fn idx_unique(s: Seq<(Seq<char>, Seq<u8>, u32)>) -> bool {
    forall|i: int, j: int| 0 <= i < j < s.len() ==> s[i].0 != s[j].0
}

/// What an upsert does to every lookup, to uniqueness, and to membership.
pub proof fn lemma_idx_upsert(s: Seq<(Seq<char>, Seq<u8>, u32)>, v: (Seq<char>, Seq<u8>, u32))
    ensures
        idx_find(idx_upsert_spec(s, v), v.0) == Some(v),
        forall|k: Seq<char>|
            k != v.0 ==> #[trigger] idx_find(idx_upsert_spec(s, v), k) == idx_find(s, k),
        idx_unique(s) ==> idx_unique(idx_upsert_spec(s, v)),
        forall|i: int|
            0 <= i < idx_upsert_spec(s, v).len() ==> idx_upsert_spec(s, v)[i] == v || s.contains(
                #[trigger] idx_upsert_spec(s, v)[i],
            ),
        idx_find(s, v.0) is None ==> idx_upsert_spec(s, v) == s.push(v),
{
    lemma_idx_pos(s, v.0, 0);
    let p = idx_pos_from(s, v.0, 0);
    let t = idx_upsert_spec(s, v);
    if p < s.len() {
        lemma_idx_pos_is(t, v.0, 0, p);
        assert forall|k: Seq<char>| k != v.0 implies #[trigger] idx_find(t, k) == idx_find(
            s,
            k,
        ) by {
            lemma_idx_pos(s, k, 0);
            let q = idx_pos_from(s, k, 0);
            if q < s.len() {
                lemma_idx_pos_is(t, k, 0, q);
            } else {
                lemma_idx_pos_is(t, k, 0, t.len() as int);
            }
        }
        assert forall|i: int| 0 <= i < t.len() implies t[i] == v || s.contains(
            #[trigger] t[i],
        ) by {
            if i != p {
                assert(t[i] == s[i]);
            }
        }
    } else {
        lemma_idx_pos_is(t, v.0, 0, s.len() as int);
        assert forall|k: Seq<char>| k != v.0 implies #[trigger] idx_find(t, k) == idx_find(
            s,
            k,
        ) by {
            lemma_idx_pos(s, k, 0);
            let q = idx_pos_from(s, k, 0);
            if q < s.len() {
                lemma_idx_pos_is(t, k, 0, q);
            } else {
                lemma_idx_pos_is(t, k, 0, t.len() as int);
            }
        }
        assert forall|i: int| 0 <= i < t.len() implies t[i] == v || s.contains(
            #[trigger] t[i],
        ) by {
            if i < s.len() {
                assert(t[i] == s[i]);
            }
        }
    }
}

/// Position of the first pair at or after `from` whose first component is
/// `k`; used for branches, working-tree files and tree items alike.
pub open spec fn pair_pos_from(s: Seq<(Seq<char>, Seq<u8>)>, k: Seq<char>, from: int) -> int
    decreases s.len() - from when 0 <= from <= s.len()
{
    if from >= s.len() {
        s.len() as int
    } else if s[from].0 == k {
        from
    } else {
        pair_pos_from(s, k, from + 1)
    }
}

pub open spec fn pair_find(s: Seq<(Seq<char>, Seq<u8>)>, k: Seq<char>) -> Option<Seq<u8>> {
    let p = pair_pos_from(s, k, 0);
    if p < s.len() {
        Some(s[p].1)
    } else {
        None
    }
}

pub proof fn lemma_pair_pos(s: Seq<(Seq<char>, Seq<u8>)>, k: Seq<char>, from: int)
    requires
        0 <= from <= s.len(),
    ensures
        from <= pair_pos_from(s, k, from) <= s.len(),
        pair_pos_from(s, k, from) < s.len() ==> s[pair_pos_from(s, k, from)].0 == k,
        forall|j: int| from <= j < pair_pos_from(s, k, from) ==> s[j].0 != k,
    decreases s.len() - from,
{
    if from < s.len() && s[from].0 != k {
        lemma_pair_pos(s, k, from + 1);
    }
}

pub proof fn lemma_pair_pos_is(s: Seq<(Seq<char>, Seq<u8>)>, k: Seq<char>, from: int, p: int)
    requires
        0 <= from <= p <= s.len(),
        forall|j: int| from <= j < p ==> s[j].0 != k,
        p == s.len() || s[p].0 == k,
    ensures
        pair_pos_from(s, k, from) == p,
    decreases p - from,
{
    if from < p {
        lemma_pair_pos_is(s, k, from + 1, p);
    }
}

/// Replace the first pair with the same key, or append.
pub open spec fn pair_upsert_spec(s: Seq<(Seq<char>, Seq<u8>)>, v: (Seq<char>, Seq<u8>)) -> Seq<
    (Seq<char>, Seq<u8>),
> {
    let p = pair_pos_from(s, v.0, 0);
    if p < s.len() {
        s.update(p, v)
    } else {
        s.push(v)
    }
}

pub proof fn lemma_pair_upsert(s: Seq<(Seq<char>, Seq<u8>)>, v: (Seq<char>, Seq<u8>))
    ensures
        pair_find(pair_upsert_spec(s, v), v.0) == Some(v.1),
        forall|k: Seq<char>|
            k != v.0 ==> #[trigger] pair_find(pair_upsert_spec(s, v), k) == pair_find(s, k),
        pair_find(s, v.0) == Some(v.1) ==> pair_upsert_spec(s, v) == s,
{
    lemma_pair_pos(s, v.0, 0);
    let p = pair_pos_from(s, v.0, 0);
    let t = pair_upsert_spec(s, v);
    if p < s.len() {
        lemma_pair_pos_is(t, v.0, 0, p);
        if pair_find(s, v.0) == Some(v.1) {
            assert(t =~= s);
        }
    } else {
        lemma_pair_pos_is(t, v.0, 0, s.len() as int);
    }
    assert forall|k: Seq<char>| k != v.0 implies #[trigger] pair_find(t, k) == pair_find(s, k) by {
        lemma_pair_pos(s, k, 0);
        let q = pair_pos_from(s, k, 0);
        if q < s.len() {
            lemma_pair_pos_is(t, k, 0, q);
        } else {
            lemma_pair_pos_is(t, k, 0, t.len() as int);
        }
    }
}

// ---------------------------------------------------------------------------
// Executable lookups and updates on the repository's vectors.
// ---------------------------------------------------------------------------

/// Index of the first store slot keyed by `k`.
pub fn store_lookup(store: &Vec<StoreEntry>, k: &ContentHash) -> (r: Option<usize>)
    ensures
        match r {
            Some(i) => i < store.len() && store@.map_values(|e: StoreEntry| e@)[i as int].0 == k@
                && store_find(store@.map_values(|e: StoreEntry| e@), k@) == Some(
                store@[i as int].obj@,
            ),
            None => store_find(store@.map_values(|e: StoreEntry| e@), k@) is None,
        },
{
    let ghost sv = store@.map_values(|e: StoreEntry| e@);
    let mut i: usize = 0;
    while i < store.len()
        invariant
            i <= store.len(),
            sv == store@.map_values(|e: StoreEntry| e@),
            forall|j: int| 0 <= j < i ==> sv[j].0 != k@,
        decreases store.len() - i,
    {
        if store[i].key.equals(k) {
            proof {
                lemma_store_pos_is(sv, k@, 0, i as int);
            }
            return Some(i);
        }
        i += 1;
    }
    proof {
        lemma_store_pos_is(sv, k@, 0, sv.len() as int);
    }
    None
}

/// Saves an object under its key; a key already present stays as it is.
pub fn store_save(store: &mut Vec<StoreEntry>, key: ContentHash, obj: Object)
    ensures
        final(store)@.map_values(|e: StoreEntry| e@) == store_save_spec(
            old(store)@.map_values(|e: StoreEntry| e@),
            key@,
            obj@,
        ),
{
    let ghost sv = store@.map_values(|e: StoreEntry| e@);
    match store_lookup(store, &key) {
        Some(_) => {
            proof {
                assert(final(store)@.map_values(|e: StoreEntry| e@) =~= store_save_spec(
                    sv,
                    key@,
                    obj@,
                ));
            }
        },
        None => {
            store.push(StoreEntry { key, obj });
            proof {
                assert(store@.map_values(|e: StoreEntry| e@) =~= sv.push(
                    (store@.last().key@, store@.last().obj@),
                ));
            }
        },
    }
}

/// Index of the first index entry for `path`.
pub fn index_lookup(index: &Vec<IndexEntry>, path: &String) -> (r: Option<usize>)
    ensures
        match r {
            Some(i) => i < index.len() && i as int == idx_pos_from(
                index@.map_values(|e: IndexEntry| e@),
                path@,
                0,
            ) && idx_find(index@.map_values(|e: IndexEntry| e@), path@) == Some(
                index@[i as int]@,
            ),
            None => idx_find(index@.map_values(|e: IndexEntry| e@), path@) is None,
        },
{
    let ghost sv = index@.map_values(|e: IndexEntry| e@);
    let mut i: usize = 0;
    while i < index.len()
        invariant
            i <= index.len(),
            sv == index@.map_values(|e: IndexEntry| e@),
            forall|j: int| 0 <= j < i ==> sv[j].0 != path@,
        decreases index.len() - i,
    {
        if index[i].path.eq(path) {
            proof {
                lemma_idx_pos_is(sv, path@, 0, i as int);
            }
            return Some(i);
        }
        i += 1;
    }
    proof {
        lemma_idx_pos_is(sv, path@, 0, sv.len() as int);
    }
    None
}

/// Inserts or updates the entry for `e.path`.
pub fn index_upsert(index: &mut Vec<IndexEntry>, e: IndexEntry)
    ensures
        final(index)@.map_values(|x: IndexEntry| x@) == idx_upsert_spec(
            old(index)@.map_values(|x: IndexEntry| x@),
            e@,
        ),
{
    let ghost sv = index@.map_values(|x: IndexEntry| x@);
    let ghost ev = e@;
    match index_lookup(index, &e.path) {
        Some(i) => {
            proof {
                lemma_idx_pos(sv, ev.0, 0);
            }
            index.remove(i);
            index.insert(i, e);
            proof {
                assert(index@.map_values(|x: IndexEntry| x@) =~= sv.update(i as int, ev));
            }
        },
        None => {
            index.push(e);
            proof {
                assert(index@.map_values(|x: IndexEntry| x@) =~= sv.push(ev));
            }
        },
    }
}

/// Index of the first working-tree file at `path`.
pub fn worktree_lookup(wt: &Vec<WtFile>, path: &String) -> (r: Option<usize>)
    ensures
        match r {
            Some(i) => i < wt.len() && pair_find(wt@.map_values(|w: WtFile| w@), path@) == Some(
                wt@[i as int].content@,
            ),
            None => pair_find(wt@.map_values(|w: WtFile| w@), path@) is None,
        },
{
    let ghost sv = wt@.map_values(|w: WtFile| w@);
    let mut i: usize = 0;
    while i < wt.len()
        invariant
            i <= wt.len(),
            sv == wt@.map_values(|w: WtFile| w@),
            forall|j: int| 0 <= j < i ==> sv[j].0 != path@,
        decreases wt.len() - i,
    {
        if wt[i].path.eq(path) {
            proof {
                lemma_pair_pos_is(sv, path@, 0, i as int);
            }
            return Some(i);
        }
        i += 1;
    }
    proof {
        lemma_pair_pos_is(sv, path@, 0, sv.len() as int);
    }
    None
}

/// Index of the first branch named `name`.
pub fn branch_lookup(branches: &Vec<BranchRef>, name: &String) -> (r: Option<usize>)
    ensures
        match r {
            Some(i) => i < branches.len() && i as int == pair_pos_from(
                branches@.map_values(|b: BranchRef| b@),
                name@,
                0,
            ) && pair_find(branches@.map_values(|b: BranchRef| b@), name@) == Some(
                branches@[i as int].commit@,
            ),
            None => pair_find(branches@.map_values(|b: BranchRef| b@), name@) is None,
        },
{
    let ghost sv = branches@.map_values(|b: BranchRef| b@);
    let mut i: usize = 0;
    while i < branches.len()
        invariant
            i <= branches.len(),
            sv == branches@.map_values(|b: BranchRef| b@),
            forall|j: int| 0 <= j < i ==> sv[j].0 != name@,
        decreases branches.len() - i,
    {
        if branches[i].name.eq(name) {
            proof {
                lemma_pair_pos_is(sv, name@, 0, i as int);
            }
            return Some(i);
        }
        i += 1;
    }
    proof {
        lemma_pair_pos_is(sv, name@, 0, sv.len() as int);
    }
    None
}

/// Points `name` at `commit`, creating the branch if it does not exist.
pub fn branch_upsert(branches: &mut Vec<BranchRef>, name: String, commit: ContentHash)
    ensures
        final(branches)@.map_values(|b: BranchRef| b@) == pair_upsert_spec(
            old(branches)@.map_values(|b: BranchRef| b@),
            (name@, commit@),
        ),
{
    let ghost sv = branches@.map_values(|b: BranchRef| b@);
    let ghost nv = name@;
    match branch_lookup(branches, &name) {
        Some(i) => {
            proof {
                lemma_pair_pos(sv, nv, 0);
            }
            branches.remove(i);
            branches.insert(i, BranchRef { name, commit });
            proof {
                assert(branches@.map_values(|b: BranchRef| b@) =~= sv.update(
                    i as int,
                    (nv, commit@),
                ));
            }
        },
        None => {
            branches.push(BranchRef { name, commit });
            proof {
                assert(branches@.map_values(|b: BranchRef| b@) =~= sv.push((nv, commit@)));
            }
        },
    }
}

/// An element-wise copy of the staging area.
pub fn clone_index(index: &Vec<IndexEntry>) -> (r: Vec<IndexEntry>)
    ensures
        r@.map_values(|x: IndexEntry| x@) == index@.map_values(|x: IndexEntry| x@),
{
    let mut r: Vec<IndexEntry> = Vec::new();
    let mut i: usize = 0;
    while i < index.len()
        invariant
            i <= index.len(),
            r@.map_values(|x: IndexEntry| x@) =~= index@.map_values(|x: IndexEntry| x@).subrange(
                0,
                i as int,
            ),
        decreases index.len() - i,
    {
        let ghost prev = r@.map_values(|x: IndexEntry| x@);
        r.push(
            IndexEntry {
                path: index[i].path.clone(),
                hash: index[i].hash.clone_hash(),
                size: index[i].size,
            },
        );
        proof {
            assert(r@.map_values(|x: IndexEntry| x@) =~= prev.push(
                (r@.last().path@, r@.last().hash@, r@.last().size),
            ));
            assert(r@.last()@ == index@.map_values(|x: IndexEntry| x@)[i as int]);
        }
        i += 1;
    }
    proof {
        assert(r@.map_values(|x: IndexEntry| x@) =~= index@.map_values(|x: IndexEntry| x@));
    }
    r
}

} // verus!
