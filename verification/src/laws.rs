use vstd::prelude::*;
use crate::engine::PopOutcome;
use crate::engine::applied_post;
use crate::engine::create_slot;
use crate::engine::index_commit_id;
use crate::engine::pop_index;
use crate::engine::pop_post;
use crate::engine::pop_ready;
use crate::engine::pre_head_of;
use crate::engine::saved_post;
use crate::engine::stash_commit_id;
use crate::engine::stash_commit_obj;
use crate::engine::stash_message;
use crate::engine::stash_tree_of;
use crate::engine::store_before_stash_save;
use crate::model::ObjV;
use crate::model::RepoV;
use crate::model::lemma_pair_pos;
use crate::model::lemma_pair_pos_is;
use crate::model::lemma_store_pos;
use crate::model::lemma_store_save;
use crate::model::store_find;
use crate::ops::digest_of;
use crate::ops::head_ok;
use crate::ops::head_tree_items;
use crate::ops::idx_clean;
use crate::ops::idx_entry_committed;
use crate::ops::idx_path_tracked;
use crate::ops::store_blobs_wf;
use crate::ops::tree_item_indexed;
use crate::ops::wf;
use crate::ops::wt_clean;
use crate::ops::wt_file_clean;
use crate::ops::wt_matches_index;
use crate::ops::cur_commit;

verus! {

/// A blob found under a key sits under the digest of its own content.
proof fn lemma_blob_key(store: Seq<(Seq<u8>, ObjV)>, k: Seq<u8>)
    requires
        store_blobs_wf(store),
        store_find(store, k) matches Some(ObjV::Blob(_)),
    ensures
        store_find(store, k) == Some(ObjV::Blob(store_find(store, k)->Some_0->Blob_0)),
        k == digest_of(store_find(store, k)->Some_0->Blob_0),
{
    lemma_store_pos(store, k, 0);
}

/// Parent linkage: after a successful create, the slot records the stash
/// commit's id, and that commit carries the pre-stash head as sole parent
/// when nothing was staged, else the pre-stash head followed by the index
/// commit. The commit is retrievable under its id as long as the id was not
/// already taken by an earlier object (only a digest collision could do
/// that).
pub proof fn lemma_parent_linkage(pre: RepoV, post: RepoV)
    requires
        saved_post(pre, post),
        store_find(store_before_stash_save(pre), stash_commit_id(pre)) is None,
    ensures
        post.slot matches Some(e) && e.0 == stash_commit_id(pre) && e.1 == (if idx_clean(pre) {
            None::<Seq<u8>>
        } else {
            Some(index_commit_id(pre))
        }),
        store_find(post.store, stash_commit_id(pre)) == Some(ObjV::Commit(stash_commit_obj(pre))),
        stash_commit_obj(pre).parents == (if idx_clean(pre) {
            seq![pre_head_of(pre)]
        } else {
            seq![pre_head_of(pre), index_commit_id(pre)]
        }),
{
    lemma_store_save(
        store_before_stash_save(pre),
        stash_commit_id(pre),
        ObjV::Commit(stash_commit_obj(pre)),
    );
}

/// Single slot: a successful create stores the new record whatever the slot
/// held before, and everything findable in the store before the call — the
/// previous stash's objects among it — is still findable, unchanged.
pub proof fn lemma_single_slot(pre: RepoV, post: RepoV, k: Seq<u8>)
    requires
        saved_post(pre, post),
        store_find(pre.store, k) is Some,
    ensures
        post.slot == Some(create_slot(pre)),
        store_find(post.store, k) == store_find(pre.store, k),
{
}

/// Round trip: a create with no staged changes leaves a repository on which
/// an immediate pop reports no conflict, and — whenever every object the
/// pop reads is still retrievable, which only a digest collision defeats —
/// applies the stash: every stashed path is merged into the index under its
/// recorded digest, the working tree is materialized from that index, and
/// the slot is cleared.
pub proof fn lemma_round_trip(pre: RepoV, post: RepoV, post2: RepoV, out: PopOutcome)
    requires
        wf(pre),
        head_ok(pre),
        idx_clean(pre),
        saved_post(pre, post),
        pop_ready(post),
        pop_post(post, post2, out),
    ensures
        out matches PopOutcome::Applied(m) && m@ == stash_message(pre),
        post2.slot is None,
        post2.index == pop_index(post.index, stash_tree_of(post)->Some_0, post.store),
        wt_matches_index(post2.worktree, post2.index, post.store),
{
    let h = pre_head_of(pre);
    let items = head_tree_items(pre);
    // the head still resolves to the same commit, tree and items after create
    assert(store_find(pre.store, h) is Some);
    assert(store_find(post.store, h) == store_find(pre.store, h));
    let cv = store_find(pre.store, h)->Some_0->Commit_0;
    assert(store_find(pre.store, cv.tree) is Some);
    assert(store_find(post.store, cv.tree) == store_find(pre.store, cv.tree));
    assert(cur_commit(post) == cur_commit(pre));
    assert(head_tree_items(post) == items);
    // no staged changes after the create either
    assert(idx_clean(post)) by {
        assert forall|i: int| 0 <= i < post.index.len() implies #[trigger] idx_entry_committed(
            post,
            i,
        ) by {
            assert(idx_entry_committed(pre, i));
        }
        assert forall|i: int| 0 <= i < head_tree_items(post).len() implies
            #[trigger] tree_item_indexed(post, i) by {
            assert(tree_item_indexed(pre, i));
        }
    }
    // and no unstaged changes: the working tree holds exactly the head
    // tree's blobs, which the index records under the same digests
    assert(wt_clean(post)) by {
        assert forall|i: int| 0 <= i < post.worktree.len() implies #[trigger] wt_file_clean(
            post,
            i,
        ) by {
            assert(tree_item_indexed(pre, i));
            lemma_blob_key(pre.store, items[i].1);
        }
        assert forall|i: int| 0 <= i < post.index.len() implies #[trigger] idx_path_tracked(
            post,
            i,
        ) by {
            assert(idx_entry_committed(pre, i));
            let k = pre.index[i].0;
            lemma_pair_pos(items, k, 0);
            let p = crate::model::pair_pos_from(items, k, 0);
            assert forall|j: int| 0 <= j < p implies post.worktree[j].0 != k by {
                assert(post.worktree[j].0 == items[j].0);
            }
            assert(post.worktree[p].0 == items[p].0);
            lemma_pair_pos_is(post.worktree, k, 0, p);
        }
    }
    // the slot is occupied, there is no conflict, and every object resolves:
    // the pop can only have applied the stash
    assert(post.slot is Some);
    assert(!(out is NoEntry));
    assert(!(out is Conflict));
    assert(!(out is MissingObject));
    assert(out matches PopOutcome::Applied(m) && applied_post(post, post2, m@));
}

} // verus!
