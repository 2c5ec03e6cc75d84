use vstd::prelude::*;
use vstd::pervasive::unreached;
use vstd::string::StringExecFns;
use crate::StashArgs;
use crate::StashCommands;
use crate::hash::ContentHash;
use crate::model::CommitObj;
use crate::model::CommitV;
use crate::model::HeadV;
use crate::model::IndexEntry;
use crate::model::Object;
use crate::model::ObjV;
use crate::model::RepoV;
use crate::model::Repository;
use crate::model::TreeItem;
use crate::model::idx_unique;
use crate::model::idx_upsert_spec;
use crate::model::index_upsert;
use crate::model::lemma_idx_upsert;
use crate::model::lemma_pair_pos;
use crate::model::lemma_pair_pos_is;
use crate::model::lemma_store_save;
use crate::model::pair_find;
use crate::model::pair_upsert_spec;
use crate::model::store_find;
use crate::model::store_grew;
use crate::model::store_lookup;
use crate::model::store_save;
use crate::model::store_save_spec;
use crate::model::clone_index;
use crate::ops::add_all;
use crate::ops::add_all_index;
use crate::ops::add_all_store;
use crate::ops::checkout_head;
use crate::ops::checkout_index;
use crate::ops::commit_execute;
use crate::ops::commit_id_of;
use crate::ops::commit_resolves;
use crate::ops::cur_commit;
use crate::ops::current_commit;
use crate::ops::digest_of;
use crate::ops::head_ok;
use crate::ops::head_tree_items;
use crate::ops::idx_clean;
use crate::ops::idx_items;
use crate::ops::index_all_blobs;
use crate::ops::lemma_resolves_monotone;
use crate::ops::set_head_commit;
use crate::ops::staged_changes_exist;
use crate::ops::tree_items_bytes;
use crate::ops::tree_resolves;
use crate::ops::unstaged_changes_exist;
use crate::ops::wf;
use crate::ops::wt_clean;
use crate::ops::wt_matches_index;
use crate::ops::wt_matches_items;
use crate::record::StashEntry;
use crate::record::clone_entry;

verus! {

// ---------------------------------------------------------------------------
// What creating a stash computes, written out as functions of the prior
// state; the executable engine is proved to realize exactly this.
// ---------------------------------------------------------------------------

/// The commit the head resolves to before stashing (meaningful when it
/// resolves at all).
pub open spec fn pre_head_of(r: RepoV) -> Seq<u8> {
    cur_commit(r)->Some_0
}

/// The human-readable stash message.
pub open spec fn stash_message(r: RepoV) -> Seq<char> {
    match r.head {
        HeadV::Branch(n) => "WIP on "@ + n,
        HeadV::Detached(_) => "WIP on "@ + "detached HEAD"@,
    }
}

/// The message of the temporary index-only commit.
pub open spec fn index_commit_message(r: RepoV) -> Seq<char> {
    "index on "@ + stash_message(r)
}

/// The id of the index-only tree: the tree of the index as it stands.
pub open spec fn index_tree_id(r: RepoV) -> Seq<u8> {
    digest_of(tree_items_bytes(idx_items(r.index)))
}

/// The id of the index-only commit, whose sole parent is the pre-stash head.
pub open spec fn index_commit_id(r: RepoV) -> Seq<u8> {
    commit_id_of(index_tree_id(r), seq![pre_head_of(r)], index_commit_message(r))
}

/// The store after the index snapshot phase: unchanged when nothing is
/// staged, else grown by the index tree and the index commit.
pub open spec fn store_after_index_commit(r: RepoV) -> Seq<(Seq<u8>, ObjV)> {
    if idx_clean(r) {
        r.store
    } else {
        store_save_spec(
            store_save_spec(r.store, index_tree_id(r), ObjV::Tree(idx_items(r.index))),
            index_commit_id(r),
            ObjV::Commit(
                CommitV {
                    tree: index_tree_id(r),
                    parents: seq![pre_head_of(r)],
                    message: index_commit_message(r),
                },
            ),
        )
    }
}

/// The index after staging every working-tree file.
pub open spec fn full_index(r: RepoV) -> Seq<(Seq<char>, Seq<u8>, u32)> {
    add_all_index(r.index, r.worktree)
}

/// The id of the full snapshot tree (staged and unstaged work together).
pub open spec fn full_tree_id(r: RepoV) -> Seq<u8> {
    digest_of(tree_items_bytes(idx_items(full_index(r))))
}

/// The id of the temporary full-snapshot commit.
pub open spec fn full_commit_id(r: RepoV) -> Seq<u8> {
    commit_id_of(full_tree_id(r), seq![pre_head_of(r)], stash_message(r))
}

/// The store right before the durable stash commit is saved.
pub open spec fn store_before_stash_save(r: RepoV) -> Seq<(Seq<u8>, ObjV)> {
    store_save_spec(
        store_save_spec(
            add_all_store(store_after_index_commit(r), r.worktree),
            full_tree_id(r),
            ObjV::Tree(idx_items(full_index(r))),
        ),
        full_commit_id(r),
        ObjV::Commit(
            CommitV {
                tree: full_tree_id(r),
                parents: seq![pre_head_of(r)],
                message: stash_message(r),
            },
        ),
    )
}

/// The parents of the durable stash commit: the pre-stash head, and the
/// index commit when staged changes existed.
pub open spec fn stash_parents(r: RepoV) -> Seq<Seq<u8>> {
    if idx_clean(r) {
        seq![pre_head_of(r)]
    } else {
        seq![pre_head_of(r), index_commit_id(r)]
    }
}

/// The durable stash commit itself, and its id.
pub open spec fn stash_commit_obj(r: RepoV) -> CommitV {
    CommitV { tree: full_tree_id(r), parents: stash_parents(r), message: stash_message(r) }
}

pub open spec fn stash_commit_id(r: RepoV) -> Seq<u8> {
    commit_id_of(full_tree_id(r), stash_parents(r), stash_message(r))
}

/// The store a successful create leaves behind.
pub open spec fn create_store(r: RepoV) -> Seq<(Seq<u8>, ObjV)> {
    store_save_spec(
        store_before_stash_save(r),
        stash_commit_id(r),
        ObjV::Commit(stash_commit_obj(r)),
    )
}

/// The stash record a successful create leaves in the slot.
pub open spec fn create_slot(r: RepoV) -> (Seq<u8>, Option<Seq<u8>>, Seq<char>) {
    (
        stash_commit_id(r),
        if idx_clean(r) {
            None
        } else {
            Some(index_commit_id(r))
        },
        stash_message(r),
    )
}

/// Everything a successful create guarantees: the head, branches and index
/// are back exactly as they were, the working tree matches the head tree,
/// the store has grown by the snapshot objects, and the slot holds the new
/// record.
pub open spec fn saved_post(pre: RepoV, post: RepoV) -> bool {
    &&& cur_commit(pre) is Some
    &&& !(wt_clean(pre) && idx_clean(pre))
    &&& post.head == pre.head
    &&& post.branches == pre.branches
    &&& cur_commit(post) == cur_commit(pre)
    &&& post.index == pre.index
    &&& post.store == create_store(pre)
    &&& store_grew(pre.store, post.store)
    &&& post.slot == Some(create_slot(pre))
    &&& wt_matches_items(post.worktree, head_tree_items(pre), pre.store)
}

#[derive(Debug)]
pub enum CreateOutcome {
    NothingToStash,
    NoCommits,
    Saved,
}

pub open spec fn create_post(pre: RepoV, post: RepoV, out: CreateOutcome) -> bool {
    &&& (out is NothingToStash <==> wt_clean(pre) && idx_clean(pre))
    &&& (out is NoCommits <==> !(wt_clean(pre) && idx_clean(pre)) && cur_commit(pre) is None)
    &&& ((out is NothingToStash || out is NoCommits) ==> post == pre)
    &&& (out is Saved ==> saved_post(pre, post))
}

/// Where both upserts hit an existing key, putting back the original value
/// undoes the first upsert.
proof fn lemma_pair_upsert_twice(s: Seq<(Seq<char>, Seq<u8>)>, n: Seq<char>, a: Seq<u8>, b: Seq<u8>)
    requires
        pair_find(s, n) == Some(b),
    ensures
        pair_upsert_spec(pair_upsert_spec(s, (n, a)), (n, b)) == s,
{
    lemma_pair_pos(s, n, 0);
    let p = crate::model::pair_pos_from(s, n, 0);
    let t = pair_upsert_spec(s, (n, a));
    assert(t == s.update(p, (n, a)));
    lemma_pair_pos_is(t, n, 0, p);
    assert(s[p].0 == n && s[p].1 == b);
    assert(s[p] == (s[p].0, s[p].1));
    assert(pair_upsert_spec(t, (n, b)) =~= s);
}

/// Growth composes.
proof fn lemma_grew_trans(a: Seq<(Seq<u8>, ObjV)>, b: Seq<(Seq<u8>, ObjV)>, c: Seq<(Seq<u8>, ObjV)>)
    requires
        store_grew(a, b),
        store_grew(b, c),
    ensures
        store_grew(a, c),
{
    assert forall|k: Seq<u8>| #[trigger] store_find(a, k) is Some implies store_find(c, k)
        == store_find(a, k) by {
        assert(store_find(b, k) == store_find(a, k));
    }
}

/// A save only grows the store.
proof fn lemma_save_grew(s: Seq<(Seq<u8>, ObjV)>, k: Seq<u8>, o: ObjV)
    ensures
        store_grew(s, store_save_spec(s, k, o)),
{
    lemma_store_save(s, k, o);
}

/// The index snapshot phase only grows the store.
proof fn lemma_index_phase_grew(r: RepoV)
    ensures
        store_grew(r.store, store_after_index_commit(r)),
{
    if !idx_clean(r) {
        let s1 = store_save_spec(r.store, index_tree_id(r), ObjV::Tree(idx_items(r.index)));
        lemma_save_grew(r.store, index_tree_id(r), ObjV::Tree(idx_items(r.index)));
        lemma_save_grew(
            s1,
            index_commit_id(r),
            ObjV::Commit(
                CommitV {
                    tree: index_tree_id(r),
                    parents: seq![pre_head_of(r)],
                    message: index_commit_message(r),
                },
            ),
        );
        lemma_grew_trans(r.store, s1, store_after_index_commit(r));
    }
}

/// The message the stash is labelled with.
fn stash_message_of(repo: &Repository) -> (s: String)
    ensures
        s@ == stash_message(repo@),
{
    match &repo.head {
        crate::model::Head::Branch(n) => String::from_str("WIP on ").concat(n.as_str()),
        crate::model::Head::Detached(_) => String::from_str("WIP on ").concat("detached HEAD"),
    }
}

/// Creates a stash: snapshots the staged and unstaged work into durable
/// commits, stores the stash record, and puts the head, index and working
/// tree back to the state of the pre-stash head commit.
pub fn create_stash(repo: &mut Repository) -> (out: CreateOutcome)
    requires
        wf(old(repo)@),
        head_ok(old(repo)@),
    ensures
        wf(final(repo)@),
        head_ok(final(repo)@),
        create_post(old(repo)@, final(repo)@, out),
{
    let ghost r0 = repo@;
    let unstaged = unstaged_changes_exist(repo);
    let staged = staged_changes_exist(repo);
    if !unstaged && !staged {
        return CreateOutcome::NothingToStash;
    }
    let pre_head = match current_commit(repo) {
        Some(h) => h,
        None => {
            return CreateOutcome::NoCommits;
        },
    };
    let message = stash_message_of(repo);
    // index snapshot: commit the staged state, then put head and index back
    let index_commit: Option<ContentHash> = if staged {
        let backup = clone_index(&repo.index);
        let tmp_msg = String::from_str("index on ").concat(message.as_str());
        let (cid, _tid) = commit_execute(repo, &tmp_msg);
        set_head_commit(repo, &pre_head);
        repo.index = backup;
        proof {
            assert(cid@ == index_commit_id(r0));
            assert(repo@.store == store_after_index_commit(r0));
            assert(repo@.index == r0.index);
            match r0.head {
                HeadV::Branch(n) => {
                    lemma_pair_upsert_twice(r0.branches, n, cid@, pre_head@);
                    assert(repo@.branches == r0.branches);
                    assert(repo@.head == r0.head);
                },
                HeadV::Detached(_) => {
                    assert(repo@.head == r0.head);
                },
            }
            assert(cur_commit(repo@) == Some(pre_head@));
        }
        Some(cid)
    } else {
        proof {
            assert(repo@.store == store_after_index_commit(r0));
        }
        None
    };
    let ghost r1 = repo@;
    proof {
        lemma_index_phase_grew(r0);
        assert(wf(r1)) by {
            assert forall|j: int| 0 <= j < r1.index.len() implies (#[trigger] store_find(
                r1.store,
                r1.index[j].1,
            )) is Some by {
                assert(store_find(r0.store, r0.index[j].1) is Some);
            }
        }
    }
    // what will be written back at the very end
    let original_index = clone_index(&repo.index);
    // stage everything, commit the full snapshot
    add_all(repo);
    let original_head = match current_commit(repo) {
        Some(h) => h,
        None => unreached(),
    };
    let (_cid2, full_tree) = commit_execute(repo, &message);
    proof {
        assert(full_tree@ == full_tree_id(r0));
        assert(repo@.store == store_before_stash_save(r0));
    }
    // the durable stash commit, built directly; no reference moves
    let parents: Vec<ContentHash> = match &index_commit {
        Some(ic) => vec![pre_head.clone_hash(), ic.clone_hash()],
        None => vec![pre_head.clone_hash()],
    };
    proof {
        assert(parents@.map_values(|h: ContentHash| h@) =~= stash_parents(r0));
    }
    let cbytes = crate::ops::commit_serialize(&full_tree, &parents, &message);
    let stash_id = crate::ops::sha1_digest(&cbytes);
    let ghost s_before = repo@.store;
    store_save(
        &mut repo.store,
        stash_id.clone_hash(),
        Object::CommitNode(
            CommitObj { tree: full_tree.clone_hash(), parents, message: message.clone() },
        ),
    );
    proof {
        assert(stash_id@ == stash_commit_id(r0));
        assert(repo@.store == create_store(r0));
        lemma_store_save(s_before, stash_commit_id(r0), ObjV::Commit(stash_commit_obj(r0)));
    }
    // head, slot, index, working tree
    set_head_commit(repo, &original_head);
    proof {
        match r0.head {
            HeadV::Branch(n) => {
                lemma_pair_upsert_twice(r0.branches, n, _cid2@, pre_head@);
                assert(repo@.branches == r0.branches);
                assert(repo@.head == r0.head);
            },
            HeadV::Detached(_) => {
                assert(repo@.head == r0.head);
            },
        }
        assert(cur_commit(repo@) == Some(pre_head@));
    }
    repo.slot = Some(
        StashEntry { stash_commit: stash_id, index_commit, message },
    );
    repo.index = original_index;
    proof {
        // the pre-stash head still fully resolves in the grown store
        let s2 = add_all_store(r1.store, r0.worktree);
        let s3 = store_before_stash_save(r0);
        lemma_save_grew(
            store_save_spec(s2, full_tree_id(r0), ObjV::Tree(idx_items(full_index(r0)))),
            full_commit_id(r0),
            ObjV::Commit(
                CommitV {
                    tree: full_tree_id(r0),
                    parents: seq![pre_head_of(r0)],
                    message: stash_message(r0),
                },
            ),
        );
        lemma_save_grew(s2, full_tree_id(r0), ObjV::Tree(idx_items(full_index(r0))));
        lemma_grew_trans(
            s2,
            store_save_spec(s2, full_tree_id(r0), ObjV::Tree(idx_items(full_index(r0)))),
            s3,
        );
        lemma_save_grew(s3, stash_commit_id(r0), ObjV::Commit(stash_commit_obj(r0)));
        lemma_grew_trans(r0.store, r1.store, s2);
        lemma_grew_trans(r0.store, s2, s3);
        lemma_grew_trans(r0.store, s3, repo@.store);
        lemma_resolves_monotone(r0.store, repo@.store, pre_head@);
        assert(wf(repo@)) by {
            assert forall|j: int| 0 <= j < repo@.index.len() implies (#[trigger] store_find(
                repo@.store,
                repo@.index[j].1,
            )) is Some by {
                assert(store_find(r0.store, r0.index[j].1) is Some);
            }
        }
    }
    checkout_head(repo);
    proof {
        // the head tree read now is the one the pre-stash store held
        let cv = store_find(r0.store, pre_head@)->Some_0->Commit_0;
        assert(store_find(repo@.store, cv.tree) == store_find(r0.store, cv.tree));
        assert(head_tree_items(repo@) == head_tree_items(r0));
        assert forall|i: int| 0 <= i < head_tree_items(r0).len() implies
            store_find(repo@.store, head_tree_items(r0)[i].1) == store_find(
            r0.store,
            head_tree_items(r0)[i].1,
        ) by {
            assert(store_find(r0.store, head_tree_items(r0)[i].1) is Some);
        }
        assert(wt_matches_items(repo@.worktree, head_tree_items(r0), r0.store));
    }
    CreateOutcome::Saved
}

// ---------------------------------------------------------------------------
// Applying ("popping") the stash.
// ---------------------------------------------------------------------------

/// The items of the stashed snapshot's tree, if the slot, its commit and
/// its tree all resolve.
pub open spec fn stash_tree_of(r: RepoV) -> Option<Seq<(Seq<char>, Seq<u8>)>> {
    match r.slot {
        Some(entry) => match store_find(r.store, entry.0) {
            Some(ObjV::Commit(cv)) => match store_find(r.store, cv.tree) {
                Some(ObjV::Tree(items)) => Some(items),
                _ => None,
            },
            _ => None,
        },
        None => None,
    }
}

/// The stored length of the blob at `h` (meaningful when it is a blob).
pub open spec fn blob_len(store: Seq<(Seq<u8>, ObjV)>, h: Seq<u8>) -> u32 {
    match store_find(store, h) {
        Some(ObjV::Blob(c)) => c.len() as u32,
        _ => 0u32,
    }
}

/// The index entry a stashed tree item is merged back as.
pub open spec fn pop_entry(store: Seq<(Seq<u8>, ObjV)>, item: (Seq<char>, Seq<u8>)) -> (
    Seq<char>,
    Seq<u8>,
    u32,
) {
    (item.0, item.1, blob_len(store, item.1))
}

/// The index after merging every stashed tree item into it, in order.
pub open spec fn pop_index(
    index: Seq<(Seq<char>, Seq<u8>, u32)>,
    items: Seq<(Seq<char>, Seq<u8>)>,
    store: Seq<(Seq<u8>, ObjV)>,
) -> Seq<(Seq<char>, Seq<u8>, u32)>
    decreases items.len(),
{
    if items.len() == 0 {
        index
    } else {
        idx_upsert_spec(pop_index(index, items.drop_last(), store), pop_entry(store, items.last()))
    }
}

/// Every object a pop has to read is present: the stashed commit, its tree,
/// every stashed blob, and a blob for every entry of the merged index.
pub open spec fn pop_ready(r: RepoV) -> bool {
    match stash_tree_of(r) {
        Some(items) => tree_resolves(r.store, items) && index_all_blobs(
            pop_index(r.index, items, r.store),
            r.store,
        ),
        None => false,
    }
}

/// Everything a successful pop guarantees: the stashed files are merged
/// into the index under their recorded digests and sizes, the working tree
/// is materialized from that index, and the slot is cleared. The store and
/// head are untouched.
pub open spec fn applied_post(pre: RepoV, post: RepoV, msg: Seq<char>) -> bool {
    &&& pre.slot matches Some(e) && msg == e.2
    &&& wt_clean(pre) && idx_clean(pre) && pop_ready(pre)
    &&& post.store == pre.store
    &&& post.branches == pre.branches
    &&& post.head == pre.head
    &&& post.slot is None
    &&& post.index == pop_index(pre.index, stash_tree_of(pre)->Some_0, pre.store)
    &&& wt_matches_index(post.worktree, post.index, pre.store)
}

#[derive(Debug)]
pub enum PopOutcome {
    NoEntry,
    Conflict,
    MissingObject,
    Applied(String),
}

pub open spec fn pop_post(pre: RepoV, post: RepoV, out: PopOutcome) -> bool {
    &&& (out is NoEntry <==> pre.slot is None)
    &&& (out is Conflict <==> pre.slot is Some && !(wt_clean(pre) && idx_clean(pre)))
    &&& (out is MissingObject <==> pre.slot is Some && wt_clean(pre) && idx_clean(pre)
        && !pop_ready(pre))
    &&& ((out is NoEntry || out is Conflict || out is MissingObject) ==> post == pre)
    &&& (out matches PopOutcome::Applied(m) ==> applied_post(pre, post, m@))
}

/// Applies the stashed snapshot to the index and working tree and clears
/// the slot. Refuses, keeping the slot, when any local change exists; a
/// missing or malformed object aborts before anything is touched.
pub fn pop_stash(repo: &mut Repository) -> (out: PopOutcome)
    requires
        wf(old(repo)@),
        head_ok(old(repo)@),
    ensures
        wf(final(repo)@),
        head_ok(final(repo)@),
        pop_post(old(repo)@, final(repo)@, out),
{
    let ghost r0 = repo@;
    let entry = match &repo.slot {
        Some(e) => clone_entry(e),
        None => {
            return PopOutcome::NoEntry;
        },
    };
    if unstaged_changes_exist(repo) {
        return PopOutcome::Conflict;
    }
    if staged_changes_exist(repo) {
        return PopOutcome::Conflict;
    }
    let ci = match store_lookup(&repo.store, &entry.stash_commit) {
        Some(i) => i,
        None => {
            return PopOutcome::MissingObject;
        },
    };
    let tree_id = match &repo.store[ci].obj {
        Object::CommitNode(c) => c.tree.clone_hash(),
        Object::Blob(_) => {
            return PopOutcome::MissingObject;
        },
        Object::TreeNode(_) => {
            return PopOutcome::MissingObject;
        },
    };
    let ti = match store_lookup(&repo.store, &tree_id) {
        Some(i) => i,
        None => {
            return PopOutcome::MissingObject;
        },
    };
    let items: &Vec<TreeItem> = match &repo.store[ti].obj {
        Object::TreeNode(v) => v,
        Object::Blob(_) => {
            return PopOutcome::MissingObject;
        },
        Object::CommitNode(_) => {
            return PopOutcome::MissingObject;
        },
    };
    let ghost itemsv = items@.map_values(|t: crate::model::TreeItem| t@);
    proof {
        assert(stash_tree_of(r0) == Some(itemsv));
    }
    // merge the stashed files into a copy of the index
    let mut new_index = clone_index(&repo.index);
    let mut i: usize = 0;
    while i < items.len()
        invariant
            i <= items.len(),
            repo@ == r0,
            r0 == old(repo)@,
            wf(r0),
            head_ok(r0),
            r0.slot is Some,
            wt_clean(r0) && idx_clean(r0),
            itemsv == items@.map_values(|t: crate::model::TreeItem| t@),
            stash_tree_of(r0) == Some(itemsv),
            forall|j: int|
                0 <= j < i ==> (#[trigger] store_find(r0.store, itemsv[j].1)) matches Some(
                    ObjV::Blob(_),
                ),
            new_index@.map_values(|x: IndexEntry| x@) == pop_index(
                r0.index,
                itemsv.subrange(0, i as int),
                r0.store,
            ),
            idx_unique(new_index@.map_values(|x: IndexEntry| x@)),
        decreases items.len() - i,
    {
        let ghost prev = new_index@.map_values(|x: IndexEntry| x@);
        proof {
            assert(itemsv[i as int] == items@.map_values(|t: crate::model::TreeItem| t@)[i as int]);
        }
        let bi = match store_lookup(&repo.store, &items[i].hash) {
            Some(b) => b,
            None => {
                proof {
                    assert(!(store_find(r0.store, itemsv[i as int].1) matches Some(
                        ObjV::Blob(_),
                    )));
                    assert(!tree_resolves(r0.store, itemsv));
                }
                return PopOutcome::MissingObject;
            },
        };
        match &repo.store[bi].obj {
            Object::Blob(c) => {
                let sz = c.len();
                let e = IndexEntry {
                    path: items[i].path.clone(),
                    hash: items[i].hash.clone_hash(),
                    size: #[verifier::truncate] (sz as u32),
                };
                proof {
                    assert(e@ == pop_entry(r0.store, itemsv[i as int]));
                    lemma_idx_upsert(prev, e@);
                }
                index_upsert(&mut new_index, e);
            },
            Object::TreeNode(_) => {
                proof {
                    assert(!(store_find(r0.store, itemsv[i as int].1) matches Some(
                        ObjV::Blob(_),
                    )));
                    assert(!tree_resolves(r0.store, itemsv));
                }
                return PopOutcome::MissingObject;
            },
            Object::CommitNode(_) => {
                proof {
                    assert(!(store_find(r0.store, itemsv[i as int].1) matches Some(
                        ObjV::Blob(_),
                    )));
                    assert(!tree_resolves(r0.store, itemsv));
                }
                return PopOutcome::MissingObject;
            },
        }
        i += 1;
        proof {
            let cur = itemsv.subrange(0, i as int);
            assert(cur.drop_last() =~= itemsv.subrange(0, i - 1));
            assert(cur.last() == itemsv[i - 1]);
        }
    }
    proof {
        assert(itemsv.subrange(0, itemsv.len() as int) =~= itemsv);
        assert(tree_resolves(r0.store, itemsv));
    }
    let ghost niv = new_index@.map_values(|x: IndexEntry| x@);
    // every merged entry must resolve to a blob before anything is written
    let mut j: usize = 0;
    while j < new_index.len()
        invariant
            j <= new_index.len(),
            repo@ == r0,
            r0 == old(repo)@,
            wf(r0),
            head_ok(r0),
            r0.slot is Some,
            wt_clean(r0) && idx_clean(r0),
            stash_tree_of(r0) == Some(itemsv),
            tree_resolves(r0.store, itemsv),
            niv == new_index@.map_values(|x: IndexEntry| x@),
            niv == pop_index(r0.index, itemsv, r0.store),
            idx_unique(niv),
            forall|k: int|
                0 <= k < j ==> (#[trigger] store_find(r0.store, niv[k].1)) matches Some(
                    ObjV::Blob(_),
                ),
        decreases new_index.len() - j,
    {
        proof {
            assert(niv[j as int] == new_index@.map_values(|x: IndexEntry| x@)[j as int]);
        }
        match store_lookup(&repo.store, &new_index[j].hash) {
            Some(b) => {
                match &repo.store[b].obj {
                    Object::Blob(_) => {},
                    Object::TreeNode(_) => {
                        proof {
                            assert(!(store_find(r0.store, niv[j as int].1) matches Some(
                                ObjV::Blob(_),
                            )));
                            assert(!index_all_blobs(niv, r0.store));
                        }
                        return PopOutcome::MissingObject;
                    },
                    Object::CommitNode(_) => {
                        proof {
                            assert(!(store_find(r0.store, niv[j as int].1) matches Some(
                                ObjV::Blob(_),
                            )));
                            assert(!index_all_blobs(niv, r0.store));
                        }
                        return PopOutcome::MissingObject;
                    },
                }
            },
            None => {
                proof {
                    assert(!(store_find(r0.store, niv[j as int].1) matches Some(ObjV::Blob(_))));
                    assert(!index_all_blobs(niv, r0.store));
                }
                return PopOutcome::MissingObject;
            },
        }
        j += 1;
    }
    proof {
        assert(index_all_blobs(niv, r0.store));
        assert(pop_ready(r0));
    }
    // write the merged index, materialize the working tree, drop the slot
    repo.index = new_index;
    proof {
        assert(wf(repo@)) by {
            assert forall|k: int| 0 <= k < repo@.index.len() implies (#[trigger] store_find(
                repo@.store,
                repo@.index[k].1,
            )) is Some by {
                assert(store_find(r0.store, niv[k].1) matches Some(ObjV::Blob(_)));
            }
        }
    }
    let ok = checkout_index(repo);
    if !ok {
        return unreached();
    }
    repo.slot = None;
    PopOutcome::Applied(entry.message)
}

// ---------------------------------------------------------------------------
// The command entry: dispatch and the user-facing messages.
// ---------------------------------------------------------------------------

/// What the stash command reports for a create, and what it leaves behind.
pub open spec fn create_messages(pre: RepoV, post: RepoV, out: Seq<String>) -> bool {
    if wt_clean(pre) && idx_clean(pre) {
        post == pre && out.len() == 1 && out[0]@ == "No local changes to save"@
    } else if cur_commit(pre) is None {
        post == pre && out.len() == 1 && out[0]@
            == "Cannot stash changes: no commits in the repository"@
    } else {
        saved_post(pre, post) && out.len() == 1 && out[0]@
            == "Saved working directory successfully"@
    }
}

/// What the stash command reports for a pop, and what it leaves behind.
pub open spec fn pop_messages(pre: RepoV, post: RepoV, out: Seq<String>) -> bool {
    if pre.slot is None {
        post == pre && out.len() == 1 && out[0]@ == "No stash entry found"@
    } else if !(wt_clean(pre) && idx_clean(pre)) {
        post == pre && out.len() == 2 && out[0]@
            == "Cannot apply stash: local changes would be overwritten"@ && out[1]@
            == "Please commit or stash your changes before applying the stash"@
    } else if !pop_ready(pre) {
        post == pre && out.len() == 1 && out[0]@
            == "Cannot apply stash: a stashed object is missing from the store"@
    } else {
        applied_post(pre, post, pre.slot->Some_0.2) && out.len() == 2 && out[0]@ == "Applied stash: "@
            + pre.slot->Some_0.2 && out[1]@ == "Dropped stash"@
    }
}

/// Runs the stash command on the repository: no subcommand creates a stash,
/// `pop` applies and drops the stored one. Returns the lines the command
/// reports.
pub fn execute(repo: &mut Repository, args: &StashArgs) -> (out: Vec<String>)
    requires
        wf(old(repo)@),
        head_ok(old(repo)@),
    ensures
        wf(final(repo)@),
        head_ok(final(repo)@),
        match args.command {
            Some(StashCommands::Pop) => pop_messages(old(repo)@, final(repo)@, out@),
            None => create_messages(old(repo)@, final(repo)@, out@),
        },
{
    let mut out: Vec<String> = Vec::new();
    match &args.command {
        Some(StashCommands::Pop) => {
            match pop_stash(repo) {
                PopOutcome::NoEntry => {
                    out.push(String::from_str("No stash entry found"));
                },
                PopOutcome::Conflict => {
                    out.push(String::from_str("Cannot apply stash: local changes would be overwritten"));
                    out.push(String::from_str("Please commit or stash your changes before applying the stash"));
                },
                PopOutcome::MissingObject => {
                    out.push(String::from_str("Cannot apply stash: a stashed object is missing from the store"));
                },
                PopOutcome::Applied(m) => {
                    out.push(String::from_str("Applied stash: ").concat(m.as_str()));
                    out.push(String::from_str("Dropped stash"));
                },
            }
        },
        None => {
            match create_stash(repo) {
                CreateOutcome::NothingToStash => {
                    out.push(String::from_str("No local changes to save"));
                },
                CreateOutcome::NoCommits => {
                    out.push(String::from_str("Cannot stash changes: no commits in the repository"));
                },
                CreateOutcome::Saved => {
                    out.push(String::from_str("Saved working directory successfully"));
                },
            }
        },
    }
    out
}

// ---------------------------------------------------------------------------
// An entry that demands nothing: it tests the repository first.
// ---------------------------------------------------------------------------

/// Decides at run time whether the repository satisfies the invariant the
/// engine works under: unique index paths, every index digest present in
/// the store, every blob stored under the digest of its content, and a head
/// that either points nowhere or fully resolves.
pub fn repo_check(repo: &Repository) -> (r: bool)
    ensures
        r == (wf(repo@) && head_ok(repo@)),
{
    let ghost iv = repo@.index;
    // index paths are pairwise distinct
    let mut i: usize = 0;
    while i < repo.index.len()
        invariant
            i <= repo.index.len(),
            iv == repo@.index,
            forall|a: int, b: int| 0 <= a < b < iv.len() && a < i ==> iv[a].0 != iv[b].0,
        decreases repo.index.len() - i,
    {
        let mut j = i + 1;
        while j < repo.index.len()
            invariant
                i < j <= repo.index.len(),
                i < repo.index.len(),
                iv == repo@.index,
                forall|b: int| i < b < j ==> iv[i as int].0 != iv[b].0,
            decreases repo.index.len() - j,
        {
            if repo.index[i].path.eq(&repo.index[j].path) {
                proof {
                    assert(iv[i as int].0 == repo.index@[i as int].path@);
                    assert(iv[j as int].0 == repo.index@[j as int].path@);
                    assert(!idx_unique(iv));
                }
                return false;
            }
            j += 1;
        }
        i += 1;
    }
    proof {
        assert(idx_unique(iv));
    }
    // every blob sits under the digest of its content
    let mut i: usize = 0;
    while i < repo.store.len()
        invariant
            i <= repo.store.len(),
            idx_unique(repo@.index),
            forall|j: int|
                0 <= j < i ==> ((#[trigger] repo@.store[j].1) matches ObjV::Blob(c)
                    ==> repo@.store[j].0 == digest_of(c)),
        decreases repo.store.len() - i,
    {
        match &repo.store[i].obj {
            Object::Blob(c) => {
                let d = crate::ops::sha1_digest(c);
                if !repo.store[i].key.equals(&d) {
                    proof {
                        assert(repo@.store[i as int].1 == ObjV::Blob(c@));
                        assert(repo@.store[i as int].0 == repo.store@[i as int].key@);
                        assert(!crate::ops::store_blobs_wf(repo@.store));
                    }
                    return false;
                }
            },
            Object::TreeNode(_) => {},
            Object::CommitNode(_) => {},
        }
        i += 1;
    }
    // every index digest is present in the store
    let mut i: usize = 0;
    while i < repo.index.len()
        invariant
            i <= repo.index.len(),
            idx_unique(repo@.index),
            crate::ops::store_blobs_wf(repo@.store),
            forall|j: int|
                0 <= j < i ==> (#[trigger] store_find(repo@.store, repo@.index[j].1)) is Some,
        decreases repo.index.len() - i,
    {
        match store_lookup(&repo.store, &repo.index[i].hash) {
            Some(_) => {},
            None => {
                proof {
                    assert(repo@.index[i as int].1 == repo.index@[i as int].hash@);
                    assert(!crate::ops::index_resolvable(repo@.index, repo@.store));
                }
                return false;
            },
        }
        proof {
            assert(repo@.index[i as int].1 == repo.index@[i as int].hash@);
        }
        i += 1;
    }
    proof {
        assert(wf(repo@));
    }
    // the head either points nowhere or fully resolves
    let hc = match current_commit(repo) {
        Some(h) => h,
        None => {
            return true;
        },
    };
    let ci = match store_lookup(&repo.store, &hc) {
        Some(ci) => ci,
        None => {
            return false;
        },
    };
    let tree_id = match &repo.store[ci].obj {
        Object::CommitNode(c) => c.tree.clone_hash(),
        Object::Blob(_) => {
            return false;
        },
        Object::TreeNode(_) => {
            return false;
        },
    };
    let ti = match store_lookup(&repo.store, &tree_id) {
        Some(ti) => ti,
        None => {
            return false;
        },
    };
    let items: &Vec<TreeItem> = match &repo.store[ti].obj {
        Object::TreeNode(v) => v,
        Object::Blob(_) => {
            return false;
        },
        Object::CommitNode(_) => {
            return false;
        },
    };
    let ghost itemsv = items@.map_values(|t: TreeItem| t@);
    let mut i: usize = 0;
    while i < items.len()
        invariant
            i <= items.len(),
            wf(repo@),
            cur_commit(repo@) == Some(hc@),
            itemsv == items@.map_values(|t: TreeItem| t@),
            store_find(repo@.store, hc@) matches Some(ObjV::Commit(cv)) && store_find(
                repo@.store,
                cv.tree,
            ) == Some(ObjV::Tree(itemsv)),
            forall|j: int|
                0 <= j < i ==> (#[trigger] store_find(repo@.store, itemsv[j].1)) matches Some(
                    ObjV::Blob(_),
                ),
        decreases items.len() - i,
    {
        proof {
            assert(itemsv[i as int] == items@.map_values(|t: TreeItem| t@)[i as int]);
        }
        match store_lookup(&repo.store, &items[i].hash) {
            Some(bi) => {
                match &repo.store[bi].obj {
                    Object::Blob(_) => {},
                    Object::TreeNode(_) => {
                        proof {
                            assert(!(store_find(repo@.store, itemsv[i as int].1) matches Some(
                                ObjV::Blob(_),
                            )));
                            assert(!tree_resolves(repo@.store, itemsv));
                        }
                        return false;
                    },
                    Object::CommitNode(_) => {
                        proof {
                            assert(!(store_find(repo@.store, itemsv[i as int].1) matches Some(
                                ObjV::Blob(_),
                            )));
                            assert(!tree_resolves(repo@.store, itemsv));
                        }
                        return false;
                    },
                }
            },
            None => {
                proof {
                    assert(!(store_find(repo@.store, itemsv[i as int].1) matches Some(
                        ObjV::Blob(_),
                    )));
                    assert(!tree_resolves(repo@.store, itemsv));
                }
                return false;
            },
        }
        i += 1;
    }
    proof {
        assert(tree_resolves(repo@.store, itemsv));
        assert(commit_resolves(repo@.store, hc@));
    }
    true
}

/// Runs the stash command after checking the repository at run time: a
/// repository that fails the check is refused untouched.
pub fn run_stash(repo: &mut Repository, args: &StashArgs) -> (out: Option<Vec<String>>)
    ensures
        match out {
            Some(msgs) => wf(old(repo)@) && head_ok(old(repo)@) && wf(final(repo)@) && head_ok(
                final(repo)@,
            ) && match args.command {
                Some(StashCommands::Pop) => pop_messages(old(repo)@, final(repo)@, msgs@),
                None => create_messages(old(repo)@, final(repo)@, msgs@),
            },
            None => !(wf(old(repo)@) && head_ok(old(repo)@)) && final(repo)@ == old(repo)@,
        },
{
    if repo_check(repo) {
        Some(execute(repo, args))
    } else {
        None
    }
}

} // verus!
