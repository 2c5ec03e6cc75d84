use vstd::prelude::*;
use vstd::pervasive::unreached;
use vstd::string::StrSliceExecFns;
use sha1::Digest;
use crate::hash::ContentHash;
use crate::hash::clone_bytes;
use crate::model::BranchRef;
use crate::model::CommitObj;
use crate::model::CommitV;
use crate::model::Head;
use crate::model::HeadV;
use crate::model::IndexEntry;
use crate::model::Object;
use crate::model::ObjV;
use crate::model::RepoV;
use crate::model::Repository;
use crate::model::StoreEntry;
use crate::model::TreeItem;
use crate::model::WtFile;
use crate::model::branch_lookup;
use crate::model::branch_upsert;
use crate::model::idx_find;
use crate::model::idx_unique;
use crate::model::idx_upsert_spec;
use crate::model::index_lookup;
use crate::model::index_upsert;
use crate::model::lemma_idx_upsert;
use crate::model::lemma_pair_upsert;
use crate::model::lemma_store_save;
use crate::model::pair_find;
use crate::model::pair_upsert_spec;
use crate::model::store_find;
use crate::model::store_grew;
use crate::model::store_lookup;
use crate::model::store_save;
use crate::model::store_save_spec;
use crate::model::worktree_lookup;

verus! {

// ---------------------------------------------------------------------------
// Content digests.
// ---------------------------------------------------------------------------

/// The SHA-1 digest of a byte sequence, as the outside hasher computes it.
pub uninterp spec fn digest_of(data: Seq<u8>) -> Seq<u8>;

/// Relies on sha1's `Sha1::digest`: the SHA-1 digest of the input bytes,
/// a function of those bytes alone.
#[verifier::external_body]
pub(crate) fn sha1_digest(data: &Vec<u8>) -> (h: ContentHash)
    ensures
        h@ == digest_of(data@),
{
    let out = sha1::Sha1::digest(data.as_slice());
    ContentHash { bytes: out.to_vec() }
}

// ---------------------------------------------------------------------------
// Serialized forms fed to the digest: object identity is the digest of
// these bytes, so equal content gives the same id and the store
// deduplicates it.
// ---------------------------------------------------------------------------

/// A character as four little-endian bytes of its scalar value.
pub open spec fn char_bytes(c: char) -> Seq<u8> {
    seq![
        (c as u32 % 256) as u8,
        (c as u32 / 256 % 256) as u8,
        (c as u32 / 65536 % 256) as u8,
        (c as u32 / 16777216 % 256) as u8,
    ]
}

/// A character sequence as bytes, four per character.
pub open spec fn text_bytes(s: Seq<char>) -> Seq<u8> {
    Seq::new(4 * s.len(), |i: int| char_bytes(s[i / 4])[i % 4])
}

/// Appends the byte form of `s`.
fn push_text(out: &mut Vec<u8>, s: &str)
    ensures
        final(out)@ == old(out)@ + text_bytes(s@),
{
    let n = s.unicode_len();
    let mut i: usize = 0;
    while i < n
        invariant
            i <= n,
            n == s@.len(),
            out@ =~= old(out)@ + text_bytes(s@.subrange(0, i as int)),
        decreases n - i,
    {
        let c = s.get_char(i);
        let x = c as u32;
        out.push((x % 256) as u8);
        out.push((x / 256 % 256) as u8);
        out.push((x / 65536 % 256) as u8);
        out.push((x / 16777216 % 256) as u8);
        i += 1;
        proof {
            let pre = s@.subrange(0, i - 1);
            let cur = s@.subrange(0, i as int);
            assert(forall|j: int| 0 <= j < 4 * pre.len() ==> text_bytes(pre)[j] == text_bytes(
                cur,
            )[j]);
            assert(cur[i - 1] == s@[i - 1]);
            assert(out@ =~= old(out)@ + text_bytes(cur));
        }
    }
    proof {
        assert(s@.subrange(0, s@.len() as int) =~= s@);
    }
}

/// Appends a copy of `src`.
fn push_bytes(out: &mut Vec<u8>, src: &Vec<u8>)
    ensures
        final(out)@ == old(out)@ + src@,
{
    let mut i: usize = 0;
    while i < src.len()
        invariant
            i <= src.len(),
            out@ =~= old(out)@ + src@.subrange(0, i as int),
        decreases src.len() - i,
    {
        out.push(src[i]);
        i += 1;
        proof {
            assert(out@ =~= old(out)@ + src@.subrange(0, i as int));
        }
    }
    proof {
        assert(src@.subrange(0, src@.len() as int) =~= src@);
    }
}

/// The serialized form of a tree: a tag, then each item's path and digest.
pub open spec fn tree_items_bytes(items: Seq<(Seq<char>, Seq<u8>)>) -> Seq<u8>
    decreases items.len(),
{
    if items.len() == 0 {
        seq![1u8]
    } else {
        tree_items_bytes(items.drop_last()) + text_bytes(items.last().0) + items.last().1
    }
}

/// The serialized form of a commit: a tag, the tree digest, the parent
/// digests, the message.
pub open spec fn hash_list_bytes(hs: Seq<Seq<u8>>) -> Seq<u8>
    decreases hs.len(),
{
    if hs.len() == 0 {
        Seq::empty()
    } else {
        hash_list_bytes(hs.drop_last()) + hs.last()
    }
}

pub open spec fn commit_bytes(tree: Seq<u8>, parents: Seq<Seq<u8>>, message: Seq<char>) -> Seq<
    u8,
> {
    seq![2u8] + tree + hash_list_bytes(parents) + text_bytes(message)
}

/// The id under which a commit with these fields is stored.
pub open spec fn commit_id_of(tree: Seq<u8>, parents: Seq<Seq<u8>>, message: Seq<char>) -> Seq<
    u8,
> {
    digest_of(commit_bytes(tree, parents, message))
}

fn tree_items_serialize(items: &Vec<TreeItem>) -> (out: Vec<u8>)
    ensures
        out@ == tree_items_bytes(items@.map_values(|t: TreeItem| t@)),
{
    let ghost iv = items@.map_values(|t: TreeItem| t@);
    let mut out: Vec<u8> = Vec::new();
    out.push(1u8);
    proof {
        assert(iv.subrange(0, 0) =~= Seq::<(Seq<char>, Seq<u8>)>::empty());
        assert(out@ =~= tree_items_bytes(iv.subrange(0, 0)));
    }
    let mut i: usize = 0;
    while i < items.len()
        invariant
            i <= items.len(),
            iv == items@.map_values(|t: TreeItem| t@),
            out@ == tree_items_bytes(iv.subrange(0, i as int)),
        decreases items.len() - i,
    {
        push_text(&mut out, items[i].path.as_str());
        push_bytes(&mut out, &items[i].hash.bytes);
        i += 1;
        proof {
            let cur = iv.subrange(0, i as int);
            assert(cur.drop_last() =~= iv.subrange(0, i - 1));
            assert(cur.last() == iv[i - 1]);
        }
    }
    proof {
        assert(iv.subrange(0, iv.len() as int) =~= iv);
    }
    out
}

pub(crate) fn commit_serialize(tree: &ContentHash, parents: &Vec<ContentHash>, message: &String) -> (out:
    Vec<u8>)
    ensures
        out@ == commit_bytes(tree@, parents@.map_values(|h: ContentHash| h@), message@),
{
    let ghost pv = parents@.map_values(|h: ContentHash| h@);
    let mut out: Vec<u8> = Vec::new();
    out.push(2u8);
    push_bytes(&mut out, &tree.bytes);
    proof {
        assert(pv.subrange(0, 0) =~= Seq::<Seq<u8>>::empty());
        assert(out@ =~= seq![2u8] + tree@ + hash_list_bytes(pv.subrange(0, 0)));
    }
    let mut i: usize = 0;
    while i < parents.len()
        invariant
            i <= parents.len(),
            pv == parents@.map_values(|h: ContentHash| h@),
            out@ == seq![2u8] + tree@ + hash_list_bytes(pv.subrange(0, i as int)),
        decreases parents.len() - i,
    {
        push_bytes(&mut out, &parents[i].bytes);
        i += 1;
        proof {
            let cur = pv.subrange(0, i as int);
            assert(cur.drop_last() =~= pv.subrange(0, i - 1));
            assert(cur.last() == pv[i - 1]);
            assert(out@ =~= seq![2u8] + tree@ + hash_list_bytes(cur));
        }
    }
    push_text(&mut out, message.as_str());
    proof {
        assert(pv.subrange(0, pv.len() as int) =~= pv);
        assert(out@ =~= commit_bytes(tree@, pv, message@));
    }
    out
}

// ---------------------------------------------------------------------------
// Well-formedness and resolution.
// ---------------------------------------------------------------------------

/// Every blob sits under the digest of its own content.
pub open spec fn store_blobs_wf(s: Seq<(Seq<u8>, ObjV)>) -> bool {
    forall|i: int|
        0 <= i < s.len() ==> ((#[trigger] s[i].1) matches ObjV::Blob(c) ==> s[i].0 == digest_of(
            c,
        ))
}

/// Every index entry's digest is present in the store.
pub open spec fn index_resolvable(
    index: Seq<(Seq<char>, Seq<u8>, u32)>,
    store: Seq<(Seq<u8>, ObjV)>,
) -> bool {
    forall|i: int| 0 <= i < index.len() ==> (#[trigger] store_find(store, index[i].1)) is Some
}

/// The repository invariant every operation preserves.
pub open spec fn wf(r: RepoV) -> bool {
    &&& idx_unique(r.index)
    &&& index_resolvable(r.index, r.store)
    &&& store_blobs_wf(r.store)
}

/// The commit the head pointer currently resolves to, if any.
pub open spec fn cur_commit(r: RepoV) -> Option<Seq<u8>> {
    match r.head {
        HeadV::Detached(h) => Some(h),
        HeadV::Branch(n) => pair_find(r.branches, n),
    }
}

/// Every item of the tree is a blob of the store.
pub open spec fn tree_resolves(
    store: Seq<(Seq<u8>, ObjV)>,
    items: Seq<(Seq<char>, Seq<u8>)>,
) -> bool {
    forall|i: int|
        0 <= i < items.len() ==> (#[trigger] store_find(store, items[i].1)) matches Some(
            ObjV::Blob(_),
        )
}

/// `h` is a commit of the store whose tree and blobs are all present.
pub open spec fn commit_resolves(store: Seq<(Seq<u8>, ObjV)>, h: Seq<u8>) -> bool {
    match store_find(store, h) {
        Some(ObjV::Commit(cv)) => match store_find(store, cv.tree) {
            Some(ObjV::Tree(items)) => tree_resolves(store, items),
            _ => false,
        },
        _ => false,
    }
}

/// The head either points nowhere (an unborn branch) or at a commit that
/// fully resolves.
pub open spec fn head_ok(r: RepoV) -> bool {
    match cur_commit(r) {
        Some(h) => commit_resolves(r.store, h),
        None => true,
    }
}

/// The items of the head commit's tree.
pub open spec fn head_tree_items(r: RepoV) -> Seq<(Seq<char>, Seq<u8>)> {
    match cur_commit(r) {
        Some(h) => match store_find(r.store, h) {
            Some(ObjV::Commit(cv)) => match store_find(r.store, cv.tree) {
                Some(ObjV::Tree(items)) => items,
                _ => Seq::empty(),
            },
            _ => Seq::empty(),
        },
        None => Seq::empty(),
    }
}

/// Resolution survives any growth of the store.
pub proof fn lemma_resolves_monotone(
    pre: Seq<(Seq<u8>, ObjV)>,
    post: Seq<(Seq<u8>, ObjV)>,
    h: Seq<u8>,
)
    requires
        store_grew(pre, post),
        commit_resolves(pre, h),
    ensures
        commit_resolves(post, h),
        store_find(post, h) == store_find(pre, h),
{
    assert(store_find(pre, h) is Some);
    let cv = store_find(pre, h)->Some_0->Commit_0;
    assert(store_find(pre, cv.tree) is Some);
    let items = store_find(pre, cv.tree)->Some_0->Tree_0;
    assert forall|i: int| 0 <= i < items.len() implies (#[trigger] store_find(
        post,
        items[i].1,
    )) matches Some(ObjV::Blob(_)) by {
        assert(store_find(pre, items[i].1) is Some);
    }
}

// ---------------------------------------------------------------------------
// Head and branch reference.
// ---------------------------------------------------------------------------

/// Reads the commit the head resolves to, if any.
pub fn current_commit(repo: &Repository) -> (r: Option<ContentHash>)
    ensures
        r is Some <==> cur_commit(repo@) is Some,
        r matches Some(h) ==> cur_commit(repo@) == Some(h@),
{
    match &repo.head {
        Head::Detached(h) => Some(h.clone_hash()),
        Head::Branch(n) => match branch_lookup(&repo.branches, n) {
            Some(i) => Some(repo.branches[i].commit.clone_hash()),
            None => None,
        },
    }
}

/// Points the head at `id`: for a named branch by moving the branch, for a
/// detached head by replacing the stored commit id.
pub fn set_head_commit(repo: &mut Repository, id: &ContentHash)
    ensures
        cur_commit(final(repo)@) == Some(id@),
        final(repo)@.store == old(repo)@.store,
        final(repo)@.index == old(repo)@.index,
        final(repo)@.worktree == old(repo)@.worktree,
        final(repo)@.slot == old(repo)@.slot,
        match old(repo)@.head {
            HeadV::Branch(n) => final(repo)@.head == old(repo)@.head && final(repo)@.branches
                == pair_upsert_spec(old(repo)@.branches, (n, id@)),
            HeadV::Detached(_) => final(repo)@.head == HeadV::Detached(id@)
                && final(repo)@.branches == old(repo)@.branches,
        },
{
    let name_opt: Option<String> = match &repo.head {
        Head::Branch(n) => Some(n.clone()),
        Head::Detached(_) => None,
    };
    match name_opt {
        Some(name) => {
            let ghost nv = name@;
            let ghost bv = repo@.branches;
            branch_upsert(&mut repo.branches, name, id.clone_hash());
            proof {
                lemma_pair_upsert(bv, (nv, id@));
            }
        },
        None => {
            repo.head = Head::Detached(id.clone_hash());
        },
    }
}

// ---------------------------------------------------------------------------
// Status: are there unstaged or staged changes?
// ---------------------------------------------------------------------------

/// The working-tree file at position `i` is recorded in the index under its
/// current content digest.
pub open spec fn wt_file_clean(r: RepoV, i: int) -> bool {
    match idx_find(r.index, r.worktree[i].0) {
        Some(e) => e.1 == digest_of(r.worktree[i].1),
        None => false,
    }
}

/// The indexed path at position `i` is present in the working tree.
pub open spec fn idx_path_tracked(r: RepoV, i: int) -> bool {
    pair_find(r.worktree, r.index[i].0) is Some
}

/// No unstaged changes: every working-tree file is recorded in the index
/// under its current content digest, and no indexed path is missing from
/// the working tree.
pub open spec fn wt_clean(r: RepoV) -> bool {
    &&& forall|i: int| 0 <= i < r.worktree.len() ==> #[trigger] wt_file_clean(r, i)
    &&& forall|i: int| 0 <= i < r.index.len() ==> #[trigger] idx_path_tracked(r, i)
}

/// The index entry at position `i` agrees with the head tree.
pub open spec fn idx_entry_committed(r: RepoV, i: int) -> bool {
    pair_find(head_tree_items(r), r.index[i].0) == Some(r.index[i].1)
}

/// The head tree item at position `i` is recorded unchanged in the index.
pub open spec fn tree_item_indexed(r: RepoV, i: int) -> bool {
    match idx_find(r.index, head_tree_items(r)[i].0) {
        Some(e) => e.1 == head_tree_items(r)[i].1,
        None => false,
    }
}

/// No staged changes: the index records exactly the head tree's paths and
/// digests; with no commit yet, an empty index.
pub open spec fn idx_clean(r: RepoV) -> bool {
    match cur_commit(r) {
        None => r.index.len() == 0,
        Some(_) => {
            &&& forall|i: int| 0 <= i < r.index.len() ==> #[trigger] idx_entry_committed(r, i)
            &&& forall|i: int|
                0 <= i < head_tree_items(r).len() ==> #[trigger] tree_item_indexed(r, i)
        },
    }
}

/// Whether the set of changes not yet staged is non-empty.
pub fn unstaged_changes_exist(repo: &Repository) -> (r: bool)
    ensures
        r == !wt_clean(repo@),
{
    let mut i: usize = 0;
    while i < repo.worktree.len()
        invariant
            i <= repo.worktree.len(),
            forall|j: int| 0 <= j < i ==> #[trigger] wt_file_clean(repo@, j),
        decreases repo.worktree.len() - i,
    {
        match index_lookup(&repo.index, &repo.worktree[i].path) {
            Some(k) => {
                let d = sha1_digest(&repo.worktree[i].content);
                if !repo.index[k].hash.equals(&d) {
                    proof {
                        assert(!wt_file_clean(repo@, i as int));
                    }
                    return true;
                }
            },
            None => {
                proof {
                    assert(!wt_file_clean(repo@, i as int));
                }
                return true;
            },
        }
        proof {
            assert(wt_file_clean(repo@, i as int));
        }
        i += 1;
    }
    let mut j: usize = 0;
    while j < repo.index.len()
        invariant
            j <= repo.index.len(),
            forall|k: int| 0 <= k < j ==> #[trigger] idx_path_tracked(repo@, k),
            forall|k: int| 0 <= k < repo@.worktree.len() ==> #[trigger] wt_file_clean(repo@, k),
        decreases repo.index.len() - j,
    {
        match worktree_lookup(&repo.worktree, &repo.index[j].path) {
            Some(_) => {
                proof {
                    assert(idx_path_tracked(repo@, j as int));
                }
            },
            None => {
                proof {
                    assert(!idx_path_tracked(repo@, j as int));
                }
                return true;
            },
        }
        j += 1;
    }
    false
}

/// Whether the set of changes staged for commit is non-empty.
pub fn staged_changes_exist(repo: &Repository) -> (r: bool)
    requires
        head_ok(repo@),
    ensures
        r == !idx_clean(repo@),
{
    let hc = match current_commit(repo) {
        Some(h) => h,
        None => {
            return repo.index.len() > 0;
        },
    };
    let ci = match store_lookup(&repo.store, &hc) {
        Some(i) => i,
        None => unreached(),
    };
    let tree_id = match &repo.store[ci].obj {
        Object::CommitNode(c) => c.tree.clone_hash(),
        Object::Blob(_) => unreached(),
        Object::TreeNode(_) => unreached(),
    };
    let ti = match store_lookup(&repo.store, &tree_id) {
        Some(i) => i,
        None => unreached(),
    };
    let items: &Vec<TreeItem> = match &repo.store[ti].obj {
        Object::TreeNode(v) => v,
        Object::Blob(_) => unreached(),
        Object::CommitNode(_) => unreached(),
    };
    let ghost itemsv = head_tree_items(repo@);
    proof {
        assert(items@.map_values(|t: TreeItem| t@) == itemsv);
    }
    let mut i: usize = 0;
    while i < repo.index.len()
        invariant
            i <= repo.index.len(),
            itemsv == items@.map_values(|t: TreeItem| t@),
            itemsv == head_tree_items(repo@),
            cur_commit(repo@) is Some,
            forall|j: int| 0 <= j < i ==> #[trigger] idx_entry_committed(repo@, j),
        decreases repo.index.len() - i,
    {
        match tree_lookup(items, &repo.index[i].path) {
            Some(k) => {
                if !items[k].hash.equals(&repo.index[i].hash) {
                    proof {
                        assert(!idx_entry_committed(repo@, i as int));
                    }
                    return true;
                }
                proof {
                    assert(idx_entry_committed(repo@, i as int));
                }
            },
            None => {
                proof {
                    assert(!idx_entry_committed(repo@, i as int));
                }
                return true;
            },
        }
        i += 1;
    }
    let mut j: usize = 0;
    while j < items.len()
        invariant
            j <= items.len(),
            itemsv == items@.map_values(|t: TreeItem| t@),
            itemsv == head_tree_items(repo@),
            cur_commit(repo@) is Some,
            forall|k: int| 0 <= k < j ==> #[trigger] tree_item_indexed(repo@, k),
            forall|k: int| 0 <= k < repo@.index.len() ==> #[trigger] idx_entry_committed(repo@, k),
        decreases items.len() - j,
    {
        match index_lookup(&repo.index, &items[j].path) {
            Some(k) => {
                if !repo.index[k].hash.equals(&items[j].hash) {
                    proof {
                        assert(!tree_item_indexed(repo@, j as int));
                    }
                    return true;
                }
                proof {
                    assert(tree_item_indexed(repo@, j as int));
                }
            },
            None => {
                proof {
                    assert(!tree_item_indexed(repo@, j as int));
                }
                return true;
            },
        }
        j += 1;
    }
    false
}

// ---------------------------------------------------------------------------
// Add, commit, checkout.
// ---------------------------------------------------------------------------

/// The index entry that staging a working-tree file produces.
pub open spec fn add_entry(w: (Seq<char>, Seq<u8>)) -> (Seq<char>, Seq<u8>, u32) {
    (w.0, digest_of(w.1), w.1.len() as u32)
}

/// The index after staging every working-tree file, in order.
pub open spec fn add_all_index(
    index: Seq<(Seq<char>, Seq<u8>, u32)>,
    wt: Seq<(Seq<char>, Seq<u8>)>,
) -> Seq<(Seq<char>, Seq<u8>, u32)>
    decreases wt.len(),
{
    if wt.len() == 0 {
        index
    } else {
        idx_upsert_spec(add_all_index(index, wt.drop_last()), add_entry(wt.last()))
    }
}

/// The store after saving a blob for every working-tree file, in order.
pub open spec fn add_all_store(store: Seq<(Seq<u8>, ObjV)>, wt: Seq<(Seq<char>, Seq<u8>)>) -> Seq<
    (Seq<u8>, ObjV),
>
    decreases wt.len(),
{
    if wt.len() == 0 {
        store
    } else {
        store_save_spec(
            add_all_store(store, wt.drop_last()),
            digest_of(wt.last().1),
            ObjV::Blob(wt.last().1),
        )
    }
}

/// Stages every working-tree file: saves its blob and records path, digest
/// and size in the index.
pub fn add_all(repo: &mut Repository)
    requires
        wf(old(repo)@),
    ensures
        wf(final(repo)@),
        final(repo)@.head == old(repo)@.head,
        final(repo)@.branches == old(repo)@.branches,
        final(repo)@.worktree == old(repo)@.worktree,
        final(repo)@.slot == old(repo)@.slot,
        final(repo)@.index == add_all_index(old(repo)@.index, old(repo)@.worktree),
        final(repo)@.store == add_all_store(old(repo)@.store, old(repo)@.worktree),
        store_grew(old(repo)@.store, final(repo)@.store),
{
    let ghost orig = repo@;
    let n = repo.worktree.len();
    let mut i: usize = 0;
    while i < n
        invariant
            i <= n,
            n == repo@.worktree.len(),
            wf(repo@),
            repo@.head == orig.head,
            repo@.branches == orig.branches,
            repo@.worktree == orig.worktree,
            repo@.slot == orig.slot,
            repo@.index == add_all_index(orig.index, orig.worktree.subrange(0, i as int)),
            repo@.store == add_all_store(orig.store, orig.worktree.subrange(0, i as int)),
            store_grew(orig.store, repo@.store),
        decreases n - i,
    {
        let ghost prev_store = repo@.store;
        let ghost prev_index = repo@.index;
        let d = sha1_digest(&repo.worktree[i].content);
        let c2 = clone_bytes(&repo.worktree[i].content);
        let p = repo.worktree[i].path.clone();
        let sz = repo.worktree[i].content.len();
        let key = d.clone_hash();
        store_save(&mut repo.store, key, Object::Blob(c2));
        let e = IndexEntry { path: p, hash: d, size: #[verifier::truncate] (sz as u32) };
        let ghost ev = e@;
        index_upsert(&mut repo.index, e);
        i += 1;
        proof {
            let w = orig.worktree[i - 1];
            let cur = orig.worktree.subrange(0, i as int);
            assert(cur.drop_last() =~= orig.worktree.subrange(0, i - 1));
            assert(cur.last() == w);
            assert(ev == add_entry(w));
            lemma_store_save(prev_store, digest_of(w.1), ObjV::Blob(w.1));
            lemma_idx_upsert(prev_index, ev);
            // the store only grew
            assert forall|k: Seq<u8>| #[trigger] store_find(orig.store, k) is Some implies
                store_find(repo@.store, k) == store_find(orig.store, k) by {
                assert(store_find(prev_store, k) == store_find(orig.store, k));
            }
            // every blob still sits under its digest
            assert forall|j: int| 0 <= j < repo@.store.len() implies ((#[trigger] repo@.store[j].1)
                matches ObjV::Blob(c) ==> repo@.store[j].0 == digest_of(c)) by {
                if j < prev_store.len() {
                    assert(repo@.store[j] == prev_store[j]);
                }
            }
            // every index entry still resolves
            assert forall|j: int| 0 <= j < repo@.index.len() implies (#[trigger] store_find(
                repo@.store,
                repo@.index[j].1,
            )) is Some by {
                let x = repo@.index[j];
                if x == ev {
                    assert(store_find(repo@.store, digest_of(w.1)) is Some);
                } else {
                    assert(prev_index.contains(x));
                    let j2 = choose|j2: int| 0 <= j2 < prev_index.len() && prev_index[j2] == x;
                    assert(store_find(prev_store, x.1) is Some);
                }
            }
        }
    }
    proof {
        assert(orig.worktree.subrange(0, n as int) =~= orig.worktree);
    }
}

/// Creates a commit from the current index against the current head commit
/// and advances the head to it, as the generic commit operation does.
/// Returns the new commit's id and its tree's id.
pub fn commit_execute(repo: &mut Repository, message: &String) -> (ids: (ContentHash, ContentHash))
    requires
        wf(old(repo)@),
    ensures
        wf(final(repo)@),
        final(repo)@.index == old(repo)@.index,
        final(repo)@.worktree == old(repo)@.worktree,
        final(repo)@.slot == old(repo)@.slot,
        store_grew(old(repo)@.store, final(repo)@.store),
        ids.1@ == digest_of(tree_items_bytes(idx_items(old(repo)@.index))),
        ids.0@ == commit_id_of(ids.1@, parents_of(old(repo)@), message@),
        final(repo)@.store == store_save_spec(
            store_save_spec(old(repo)@.store, ids.1@, ObjV::Tree(idx_items(old(repo)@.index))),
            ids.0@,
            ObjV::Commit(
                CommitV { tree: ids.1@, parents: parents_of(old(repo)@), message: message@ },
            ),
        ),
        cur_commit(final(repo)@) == Some(ids.0@),
        match old(repo)@.head {
            HeadV::Branch(n) => final(repo)@.head == old(repo)@.head && final(repo)@.branches
                == pair_upsert_spec(old(repo)@.branches, (n, ids.0@)),
            HeadV::Detached(_) => final(repo)@.head == HeadV::Detached(ids.0@)
                && final(repo)@.branches == old(repo)@.branches,
        },
{
    let ghost orig = repo@;
    // the tree of the current index
    let mut items: Vec<TreeItem> = Vec::new();
    let mut i: usize = 0;
    while i < repo.index.len()
        invariant
            i <= repo.index.len(),
            repo@ == orig,
            items@.map_values(|t: TreeItem| t@) =~= idx_items(orig.index).subrange(0, i as int),
        decreases repo.index.len() - i,
    {
        let ghost prev = items@.map_values(|t: TreeItem| t@);
        items.push(
            TreeItem { path: repo.index[i].path.clone(), hash: repo.index[i].hash.clone_hash() },
        );
        proof {
            assert(items@.map_values(|t: TreeItem| t@) =~= prev.push(
                (items@.last().path@, items@.last().hash@),
            ));
            assert(items@.last()@ == idx_items(orig.index)[i as int]);
        }
        i += 1;
    }
    proof {
        assert(idx_items(orig.index).subrange(0, orig.index.len() as int) =~= idx_items(
            orig.index,
        ));
    }
    let tbytes = tree_items_serialize(&items);
    let tree_id = sha1_digest(&tbytes);
    let parents: Vec<ContentHash> = match current_commit(repo) {
        Some(h) => vec![h],
        None => Vec::new(),
    };
    proof {
        assert(parents@.map_values(|h: ContentHash| h@) =~= parents_of(orig));
    }
    let cbytes = commit_serialize(&tree_id, &parents, message);
    let commit_id = sha1_digest(&cbytes);
    let ghost s0 = repo@.store;
    store_save(&mut repo.store, tree_id.clone_hash(), Object::TreeNode(items));
    let ghost s1 = repo@.store;
    store_save(
        &mut repo.store,
        commit_id.clone_hash(),
        Object::CommitNode(
            CommitObj { tree: tree_id.clone_hash(), parents, message: message.clone() },
        ),
    );
    let ghost s2 = repo@.store;
    proof {
        lemma_store_save(s0, tree_id@, ObjV::Tree(idx_items(orig.index)));
        lemma_store_save(
            s1,
            commit_id@,
            ObjV::Commit(CommitV { tree: tree_id@, parents: parents_of(orig), message: message@ }),
        );
        assert forall|k: Seq<u8>| #[trigger] store_find(s0, k) is Some implies store_find(s2, k)
            == store_find(s0, k) by {
            assert(store_find(s1, k) == store_find(s0, k));
        }
        assert forall|j: int| 0 <= j < s2.len() implies ((#[trigger] s2[j].1) matches ObjV::Blob(c)
            ==> s2[j].0 == digest_of(c)) by {
            if j < s0.len() {
                assert(s2[j] == s0[j]);
            } else if j < s1.len() {
                assert(s2[j] == s1[j]);
            }
        }
        assert forall|j: int| 0 <= j < repo@.index.len() implies (#[trigger] store_find(
            s2,
            repo@.index[j].1,
        )) is Some by {
            assert(store_find(s0, repo@.index[j].1) is Some);
        }
    }
    set_head_commit(repo, &commit_id);
    (commit_id, tree_id)
}

/// The (path, digest) pairs the index currently records.
pub open spec fn idx_items(index: Seq<(Seq<char>, Seq<u8>, u32)>) -> Seq<(Seq<char>, Seq<u8>)> {
    index.map_values(|e: (Seq<char>, Seq<u8>, u32)| (e.0, e.1))
}

/// The parent list a commit made now would carry.
pub open spec fn parents_of(r: RepoV) -> Seq<Seq<u8>> {
    match cur_commit(r) {
        Some(h) => seq![h],
        None => Seq::empty(),
    }
}

/// The working tree matches the given tree items: same paths in the same
/// order, each file holding the blob the store records for the item.
pub open spec fn wt_matches_items(
    wt: Seq<(Seq<char>, Seq<u8>)>,
    items: Seq<(Seq<char>, Seq<u8>)>,
    store: Seq<(Seq<u8>, ObjV)>,
) -> bool {
    &&& wt.len() == items.len()
    &&& forall|i: int|
        0 <= i < items.len() ==> (#[trigger] wt[i]).0 == items[i].0 && store_find(store, items[i].1)
            == Some(ObjV::Blob(wt[i].1))
}

/// Materializes the working tree from the head commit's tree, discarding
/// whatever the working tree held.
pub fn checkout_head(repo: &mut Repository)
    requires
        wf(old(repo)@),
        cur_commit(old(repo)@) is Some,
        commit_resolves(old(repo)@.store, cur_commit(old(repo)@)->Some_0),
    ensures
        wf(final(repo)@),
        final(repo)@.store == old(repo)@.store,
        final(repo)@.branches == old(repo)@.branches,
        final(repo)@.head == old(repo)@.head,
        final(repo)@.index == old(repo)@.index,
        final(repo)@.slot == old(repo)@.slot,
        wt_matches_items(final(repo)@.worktree, head_tree_items(old(repo)@), old(repo)@.store),
{
    let hc = match current_commit(repo) {
        Some(h) => h,
        None => unreached(),
    };
    let ci = match store_lookup(&repo.store, &hc) {
        Some(i) => i,
        None => unreached(),
    };
    let tree_id = match &repo.store[ci].obj {
        Object::CommitNode(c) => c.tree.clone_hash(),
        Object::Blob(_) => unreached(),
        Object::TreeNode(_) => unreached(),
    };
    let ti = match store_lookup(&repo.store, &tree_id) {
        Some(i) => i,
        None => unreached(),
    };
    let items: &Vec<TreeItem> = match &repo.store[ti].obj {
        Object::TreeNode(v) => v,
        Object::Blob(_) => unreached(),
        Object::CommitNode(_) => unreached(),
    };
    let ghost itemsv = head_tree_items(repo@);
    proof {
        assert(items@.map_values(|t: TreeItem| t@) == itemsv);
    }
    let mut wt: Vec<WtFile> = Vec::new();
    let mut i: usize = 0;
    while i < items.len()
        invariant
            i <= items.len(),
            itemsv == items@.map_values(|t: TreeItem| t@),
            tree_resolves(repo@.store, itemsv),
            wt@.map_values(|w: WtFile| w@).len() == i,
            forall|j: int|
                0 <= j < i ==> wt@.map_values(|w: WtFile| w@)[j].0 == (#[trigger] itemsv[j]).0
                    && store_find(repo@.store, itemsv[j].1) == Some(
                    ObjV::Blob(wt@.map_values(|w: WtFile| w@)[j].1),
                ),
        decreases items.len() - i,
    {
        proof {
            assert(itemsv[i as int] == items@.map_values(|t: TreeItem| t@)[i as int]);
            assert(store_find(repo@.store, itemsv[i as int].1) matches Some(ObjV::Blob(_)));
        }
        let bi = match store_lookup(&repo.store, &items[i].hash) {
            Some(b) => b,
            None => unreached(),
        };
        let content = match &repo.store[bi].obj {
            Object::Blob(c) => clone_bytes(c),
            Object::TreeNode(_) => unreached(),
            Object::CommitNode(_) => unreached(),
        };
        wt.push(WtFile { path: items[i].path.clone(), content });
        i += 1;
    }
    repo.worktree = wt;
}

/// The working tree matches the index: same paths in the same order, each
/// file holding the blob the store records for the entry.
pub open spec fn wt_matches_index(
    wt: Seq<(Seq<char>, Seq<u8>)>,
    index: Seq<(Seq<char>, Seq<u8>, u32)>,
    store: Seq<(Seq<u8>, ObjV)>,
) -> bool {
    &&& wt.len() == index.len()
    &&& forall|i: int|
        0 <= i < index.len() ==> (#[trigger] wt[i]).0 == index[i].0 && store_find(store, index[i].1)
            == Some(ObjV::Blob(wt[i].1))
}

/// Every index entry's digest resolves to a blob.
pub open spec fn index_all_blobs(
    index: Seq<(Seq<char>, Seq<u8>, u32)>,
    store: Seq<(Seq<u8>, ObjV)>,
) -> bool {
    forall|i: int|
        0 <= i < index.len() ==> (#[trigger] store_find(store, index[i].1)) matches Some(
            ObjV::Blob(_),
        )
}

/// Materializes the working tree from the index, leaving everything else
/// alone; refuses (changing nothing) if some entry is not a blob.
pub fn checkout_index(repo: &mut Repository) -> (ok: bool)
    requires
        wf(old(repo)@),
    ensures
        ok <==> index_all_blobs(old(repo)@.index, old(repo)@.store),
        !ok ==> final(repo)@ == old(repo)@,
        wf(final(repo)@),
        final(repo)@.store == old(repo)@.store,
        final(repo)@.branches == old(repo)@.branches,
        final(repo)@.head == old(repo)@.head,
        final(repo)@.index == old(repo)@.index,
        final(repo)@.slot == old(repo)@.slot,
        ok ==> wt_matches_index(final(repo)@.worktree, old(repo)@.index, old(repo)@.store),
{
    let mut wt: Vec<WtFile> = Vec::new();
    let mut i: usize = 0;
    while i < repo.index.len()
        invariant
            i <= repo.index.len(),
            wf(repo@),
            repo@ == old(repo)@,
            wt@.map_values(|w: WtFile| w@).len() == i,
            forall|j: int|
                0 <= j < i ==> (#[trigger] store_find(repo@.store, repo@.index[j].1)) matches Some(
                    ObjV::Blob(_),
                ),
            forall|j: int|
                0 <= j < i ==> wt@.map_values(|w: WtFile| w@)[j].0 == (#[trigger] repo@.index[j]).0
                    && store_find(repo@.store, repo@.index[j].1) == Some(
                    ObjV::Blob(wt@.map_values(|w: WtFile| w@)[j].1),
                ),
        decreases repo.index.len() - i,
    {
        proof {
            assert(store_find(repo@.store, repo@.index[i as int].1) is Some);
        }
        let bi = match store_lookup(&repo.store, &repo.index[i].hash) {
            Some(b) => b,
            None => unreached(),
        };
        let content = match &repo.store[bi].obj {
            Object::Blob(c) => clone_bytes(c),
            Object::TreeNode(_) => {
                proof {
                    assert(!(store_find(repo@.store, repo@.index[i as int].1) matches Some(
                        ObjV::Blob(_),
                    )));
                    assert(!index_all_blobs(repo@.index, repo@.store));
                }
                return false;
            },
            Object::CommitNode(_) => {
                proof {
                    assert(!(store_find(repo@.store, repo@.index[i as int].1) matches Some(
                        ObjV::Blob(_),
                    )));
                    assert(!index_all_blobs(repo@.index, repo@.store));
                }
                return false;
            },
        };
        wt.push(WtFile { path: repo.index[i].path.clone(), content });
        i += 1;
    }
    repo.worktree = wt;
    true
}

/// Index of the first tree item at `path`.
pub fn tree_lookup(items: &Vec<TreeItem>, path: &String) -> (r: Option<usize>)
    ensures
        match r {
            Some(i) => i < items.len() && pair_find(
                items@.map_values(|t: TreeItem| t@),
                path@,
            ) == Some(items@[i as int].hash@),
            None => pair_find(items@.map_values(|t: TreeItem| t@), path@) is None,
        },
{
    let ghost sv = items@.map_values(|t: TreeItem| t@);
    let mut i: usize = 0;
    while i < items.len()
        invariant
            i <= items.len(),
            sv == items@.map_values(|t: TreeItem| t@),
            forall|j: int| 0 <= j < i ==> sv[j].0 != path@,
        decreases items.len() - i,
    {
        if items[i].path.eq(path) {
            proof {
                crate::model::lemma_pair_pos_is(sv, path@, 0, i as int);
            }
            return Some(i);
        }
        i += 1;
    }
    proof {
        crate::model::lemma_pair_pos_is(sv, path@, 0, sv.len() as int);
    }
    None
}

} // verus!
