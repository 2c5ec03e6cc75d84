use stash::StashArgs;
use stash::StashCommands;
use stash::engine::execute;
use stash::engine::repo_check;
use stash::engine::run_stash;
use stash::hash::ContentHash;
use stash::hash::to_hex;
use stash::model::Head;
use stash::model::IndexEntry;
use stash::model::Object;
use stash::model::Repository;
use stash::model::WtFile;
use stash::ops::add_all;
use stash::ops::commit_execute;
use stash::record::StashEntry;
use stash::record::parse_record;
use stash::record::render_record;

fn empty_repo() -> Repository {
    Repository {
        store: Vec::new(),
        branches: Vec::new(),
        head: Head::Branch("master".to_string()),
        index: Vec::new(),
        worktree: Vec::new(),
        slot: None,
    }
}

fn wt(path: &str, content: &[u8]) -> WtFile {
    WtFile { path: path.to_string(), content: content.to_vec() }
}

/// A repository with one commit containing the given files, clean tree.
fn base_repo(files: &[(&str, &[u8])]) -> Repository {
    let mut repo = empty_repo();
    for (p, c) in files {
        repo.worktree.push(wt(p, c));
    }
    add_all(&mut repo);
    commit_execute(&mut repo, &"init".to_string());
    assert!(repo_check(&repo));
    repo
}

fn set_file(repo: &mut Repository, path: &str, content: &[u8]) {
    for f in repo.worktree.iter_mut() {
        if f.path == path {
            f.content = content.to_vec();
            return;
        }
    }
    repo.worktree.push(wt(path, content));
}

fn file_content<'a>(repo: &'a Repository, path: &str) -> Option<&'a Vec<u8>> {
    repo.worktree.iter().find(|f| f.path == path).map(|f| &f.content)
}

fn index_entry<'a>(repo: &'a Repository, path: &str) -> Option<&'a IndexEntry> {
    repo.index.iter().find(|e| e.path == path)
}

fn store_get<'a>(repo: &'a Repository, h: &ContentHash) -> Option<&'a Object> {
    repo.store.iter().find(|e| e.key.equals(h)).map(|e| &e.obj)
}

fn create(repo: &mut Repository) -> Vec<String> {
    execute(repo, &StashArgs { command: None })
}

fn pop(repo: &mut Repository) -> Vec<String> {
    execute(repo, &StashArgs { command: Some(StashCommands::Pop) })
}

#[test]
fn clean_tree_is_a_no_op() {
    // one commit, clean tree: nothing to save, no slot, nothing changed
    let mut repo = base_repo(&[("a.txt", b"alpha\n")]);
    let objects = repo.store.len();
    let out = create(&mut repo);
    assert_eq!(out, vec!["No local changes to save".to_string()]);
    assert!(repo.slot.is_none());
    assert_eq!(repo.store.len(), objects);
    assert_eq!(file_content(&repo, "a.txt").unwrap(), b"alpha\n");
}

#[test]
fn no_commits_refuses() {
    let mut repo = empty_repo();
    set_file(&mut repo, "a.txt", b"alpha\n");
    let out = create(&mut repo);
    assert_eq!(out, vec!["Cannot stash changes: no commits in the repository".to_string()]);
    assert!(repo.slot.is_none());
    assert!(repo.store.is_empty());
}

#[test]
fn unstaged_edit_stashes_and_reverts() {
    // one commit, unstaged edit to a.txt only
    let mut repo = base_repo(&[("a.txt", b"alpha\n")]);
    set_file(&mut repo, "a.txt", b"edited\n");
    let out = create(&mut repo);
    assert_eq!(out, vec!["Saved working directory successfully".to_string()]);
    // no staged changes existed: no index commit, one parent
    let entry = repo.slot.as_ref().expect("slot");
    assert!(entry.index_commit.is_none());
    assert_eq!(entry.message, "WIP on master");
    let head_commit = match &repo.head {
        Head::Branch(n) => {
            let b = repo.branches.iter().find(|b| &b.name == n).unwrap();
            b.commit.clone_hash()
        },
        Head::Detached(h) => h.clone_hash(),
    };
    match store_get(&repo, &entry.stash_commit) {
        Some(Object::CommitNode(c)) => {
            assert_eq!(c.parents.len(), 1);
            assert!(c.parents[0].equals(&head_commit));
            assert_eq!(c.message, "WIP on master");
        },
        _ => panic!("stash commit not found"),
    }
    // the edit is reverted on disk
    assert_eq!(file_content(&repo, "a.txt").unwrap(), b"alpha\n");
    // pop restores the edited content and drops the slot
    let out = pop(&mut repo);
    assert_eq!(
        out,
        vec!["Applied stash: WIP on master".to_string(), "Dropped stash".to_string()],
    );
    assert!(repo.slot.is_none());
    assert_eq!(file_content(&repo, "a.txt").unwrap(), b"edited\n");
}

#[test]
fn staged_and_unstaged_edits_record_an_index_commit() {
    // staged edit to b.txt plus unstaged edit to c.txt
    let mut repo = base_repo(&[("b.txt", b"bee\n"), ("c.txt", b"sea\n")]);
    set_file(&mut repo, "b.txt", b"bee2\n");
    add_all(&mut repo);
    let staged_b = index_entry(&repo, "b.txt").unwrap().hash.clone_hash();
    set_file(&mut repo, "c.txt", b"sea2\n");
    let out = create(&mut repo);
    assert_eq!(out, vec!["Saved working directory successfully".to_string()]);
    let entry = repo.slot.as_ref().expect("slot");
    let ic = entry.index_commit.as_ref().expect("index commit").clone_hash();
    let head_commit = repo.branches.iter().find(|b| b.name == "master").unwrap().commit.clone_hash();
    // stash commit: parents [head, index_commit]
    match store_get(&repo, &entry.stash_commit) {
        Some(Object::CommitNode(c)) => {
            assert_eq!(c.parents.len(), 2);
            assert!(c.parents[0].equals(&head_commit));
            assert!(c.parents[1].equals(&ic));
        },
        _ => panic!("stash commit not found"),
    }
    // index commit: sole parent is the pre-stash head; its tree is the
    // index-only snapshot (b.txt staged, c.txt as committed)
    match store_get(&repo, &ic) {
        Some(Object::CommitNode(c)) => {
            assert_eq!(c.parents.len(), 1);
            assert!(c.parents[0].equals(&head_commit));
            match store_get(&repo, &c.tree) {
                Some(Object::TreeNode(items)) => {
                    let b = items.iter().find(|t| t.path == "b.txt").unwrap();
                    assert!(b.hash.equals(&staged_b));
                    let c_item = items.iter().find(|t| t.path == "c.txt").unwrap();
                    let committed_c = match store_get(&repo, &c_item.hash) {
                        Some(Object::Blob(data)) => data.clone(),
                        _ => panic!("blob missing"),
                    };
                    assert_eq!(committed_c, b"sea\n");
                },
                _ => panic!("index tree missing"),
            }
        },
        _ => panic!("index commit not found"),
    }
    // after create: b.txt still staged in the index, c.txt reverted on disk
    assert!(index_entry(&repo, "b.txt").unwrap().hash.equals(&staged_b));
    assert_eq!(file_content(&repo, "c.txt").unwrap(), b"sea\n");
    assert_eq!(file_content(&repo, "b.txt").unwrap(), b"bee\n");
}

#[test]
fn second_create_overwrites_the_slot() {
    let mut repo = base_repo(&[("a.txt", b"alpha\n")]);
    set_file(&mut repo, "a.txt", b"first\n");
    create(&mut repo);
    let first = repo.slot.as_ref().unwrap().stash_commit.clone_hash();
    set_file(&mut repo, "a.txt", b"second\n");
    create(&mut repo);
    let second = repo.slot.as_ref().unwrap().stash_commit.clone_hash();
    assert!(!first.equals(&second));
    // the first stash's objects remain fetchable by hash
    assert!(store_get(&repo, &first).is_some());
}

#[test]
fn pop_refuses_on_local_changes_and_keeps_the_slot() {
    // scenario: stash an unstaged edit, dirty the tree again, pop refuses;
    // clean the new edit, pop succeeds
    let mut repo = base_repo(&[("a.txt", b"alpha\n")]);
    set_file(&mut repo, "a.txt", b"edited\n");
    create(&mut repo);
    set_file(&mut repo, "a.txt", b"another\n");
    let out = pop(&mut repo);
    assert_eq!(
        out,
        vec![
            "Cannot apply stash: local changes would be overwritten".to_string(),
            "Please commit or stash your changes before applying the stash".to_string(),
        ],
    );
    assert!(repo.slot.is_some());
    assert_eq!(file_content(&repo, "a.txt").unwrap(), b"another\n");
    // undo the new edit and retry
    set_file(&mut repo, "a.txt", b"alpha\n");
    let out = pop(&mut repo);
    assert_eq!(
        out,
        vec!["Applied stash: WIP on master".to_string(), "Dropped stash".to_string()],
    );
    assert!(repo.slot.is_none());
    assert_eq!(file_content(&repo, "a.txt").unwrap(), b"edited\n");
}

#[test]
fn pop_without_a_stash_reports_it() {
    let mut repo = base_repo(&[("a.txt", b"alpha\n")]);
    let out = pop(&mut repo);
    assert_eq!(out, vec!["No stash entry found".to_string()]);
}

#[test]
fn detached_head_message() {
    let mut repo = base_repo(&[("a.txt", b"alpha\n")]);
    let head_commit = repo.branches.iter().find(|b| b.name == "master").unwrap().commit.clone_hash();
    repo.head = Head::Detached(head_commit);
    set_file(&mut repo, "a.txt", b"edited\n");
    create(&mut repo);
    assert_eq!(repo.slot.as_ref().unwrap().message, "WIP on detached HEAD");
}

#[test]
fn run_stash_refuses_a_malformed_repository() {
    let mut repo = base_repo(&[("a.txt", b"alpha\n")]);
    // duplicate index paths break the invariant
    let dup = IndexEntry {
        path: "a.txt".to_string(),
        hash: repo.index[0].hash.clone_hash(),
        size: repo.index[0].size,
    };
    repo.index.push(dup);
    assert!(!repo_check(&repo));
    let out = run_stash(&mut repo, &StashArgs { command: None });
    assert!(out.is_none());
}

#[test]
fn run_stash_works_on_a_sound_repository() {
    let mut repo = base_repo(&[("a.txt", b"alpha\n")]);
    set_file(&mut repo, "a.txt", b"edited\n");
    let out = run_stash(&mut repo, &StashArgs { command: None }).expect("sound repository");
    assert_eq!(out, vec!["Saved working directory successfully".to_string()]);
}

// ---------------------------------------------------------------------------
// Hash codec.
// ---------------------------------------------------------------------------

#[test]
fn from_str_parses_forty_hex_digits() {
    let h = ContentHash::from_str("0123456789abcdef0123456789abcdef01234567").unwrap();
    assert_eq!(h.bytes.len(), 20);
    assert_eq!(h.bytes[0], 0x01);
    assert_eq!(h.bytes[19], 0x67);
    assert_eq!(to_hex(&h), "0123456789abcdef0123456789abcdef01234567");
}

#[test]
fn from_str_accepts_uppercase() {
    let h = ContentHash::from_str("0123456789ABCDEF0123456789ABCDEF01234567").unwrap();
    assert_eq!(to_hex(&h), "0123456789abcdef0123456789abcdef01234567");
}

#[test]
fn from_str_empty_is_the_zero_sentinel() {
    let h = ContentHash::from_str("").unwrap();
    assert!(h.is_zero());
    assert_eq!(to_hex(&h), "0000000000000000000000000000000000000000");
}

#[test]
fn from_str_rejects_wrong_length() {
    let e = ContentHash::from_str("abc").unwrap_err();
    assert_eq!(e, "Invalid SHA1 hash: abc");
}

#[test]
fn from_str_rejects_a_bad_digit() {
    let e = ContentHash::from_str("z123456789abcdef0123456789abcdef01234567").unwrap_err();
    assert_eq!(e, "Invalid hex character in SHA1: z123456789abcdef0123456789abcdef01234567");
}

// ---------------------------------------------------------------------------
// Slot record codec.
// ---------------------------------------------------------------------------

fn hash_of(s: &str) -> ContentHash {
    ContentHash::from_str(s).unwrap()
}

#[test]
fn record_round_trips() {
    let e = StashEntry {
        stash_commit: hash_of("0123456789abcdef0123456789abcdef01234567"),
        index_commit: Some(hash_of("89abcdef0123456789abcdef0123456789abcdef")),
        message: "WIP on master".to_string(),
    };
    let line = render_record(&e);
    assert_eq!(
        line,
        "0123456789abcdef0123456789abcdef01234567:89abcdef0123456789abcdef0123456789abcdef:WIP on master",
    );
    let back = parse_record(&line).unwrap();
    assert!(back.stash_commit.equals(&e.stash_commit));
    assert!(back.index_commit.unwrap().equals(e.index_commit.as_ref().unwrap()));
    assert_eq!(back.message, "WIP on master");
}

#[test]
fn absent_index_commit_is_written_as_zeros_and_read_back_absent() {
    let e = StashEntry {
        stash_commit: hash_of("0123456789abcdef0123456789abcdef01234567"),
        index_commit: None,
        message: "WIP on master".to_string(),
    };
    let line = render_record(&e);
    assert_eq!(
        line,
        "0123456789abcdef0123456789abcdef01234567:0000000000000000000000000000000000000000:WIP on master",
    );
    let back = parse_record(&line).unwrap();
    assert!(back.index_commit.is_none());
}

#[test]
fn empty_index_field_reads_as_absent() {
    let back = parse_record("0123456789abcdef0123456789abcdef01234567::msg").unwrap();
    assert!(back.index_commit.is_none());
    assert_eq!(back.message, "msg");
}

#[test]
fn a_colon_in_the_message_truncates_it() {
    let back = parse_record("0123456789abcdef0123456789abcdef01234567::before:after").unwrap();
    assert_eq!(back.message, "before");
}

#[test]
fn only_the_first_line_is_read() {
    let back =
        parse_record("0123456789abcdef0123456789abcdef01234567::msg\ngarbage:lines").unwrap();
    assert_eq!(back.message, "msg");
}

#[test]
fn records_without_a_colon_are_malformed() {
    assert!(parse_record("no colons here").is_none());
    assert!(parse_record("").is_none());
}

#[test]
fn a_bad_digest_field_is_malformed() {
    assert!(parse_record("nothex:deadbeef:msg").is_none());
    assert!(
        parse_record("0123456789abcdef0123456789abcdef01234567:short:msg").is_none()
    );
}

#[test]
fn a_missing_message_field_is_the_empty_message() {
    let back = parse_record("0123456789abcdef0123456789abcdef01234567:").unwrap();
    assert!(back.index_commit.is_none());
    assert_eq!(back.message, "");
}
