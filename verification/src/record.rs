use vstd::prelude::*;
use vstd::string::StrSliceExecFns;
use crate::hash::ContentHash;
use crate::hash::digest_text_ok;
use crate::hash::digest_text_val;
use crate::hash::hex_seq;
use crate::hash::to_hex;
use crate::hash::zero_digest;

verus! {

/// The single persisted stash record. `stash_commit` resolves to a commit
/// whose tree is the full working+staged snapshot taken at creation time;
/// `index_commit`, when present, resolves to a commit whose tree is the
/// index-only snapshot and whose sole parent is the pre-stash head commit.
#[derive(Debug)]
pub struct StashEntry {
    pub stash_commit: ContentHash,
    pub index_commit: Option<ContentHash>,
    pub message: String,
}

impl View for StashEntry {
    type V = (Seq<u8>, Option<Seq<u8>>, Seq<char>);

    open spec fn view(&self) -> Self::V {
        (
            self.stash_commit@,
            match self.index_commit {
                Some(h) => Some(h@),
                None => None,
            },
            self.message@,
        )
    }
}

pub fn clone_entry(e: &StashEntry) -> (r: StashEntry)
    ensures
        r@ == e@,
{
    StashEntry {
        stash_commit: e.stash_commit.clone_hash(),
        index_commit: match &e.index_commit {
            Some(h) => Some(h.clone_hash()),
            None => None,
        },
        message: e.message.clone(),
    }
}

/// The one-line textual form of a stash record: the stash commit's hex,
/// the index commit's hex (the all-zero digest standing in when absent),
/// and the message, separated by colons. A colon or newline inside the
/// message corrupts this form; `record_parse` then recovers only a prefix.
pub open spec fn record_text(v: (Seq<u8>, Option<Seq<u8>>, Seq<char>)) -> Seq<char> {
    hex_seq(v.0) + seq![':'] + hex_seq(
        match v.1 {
            Some(d) => d,
            None => zero_digest(),
        },
    ) + seq![':'] + v.2
}

/// Serializes a stash record to its stored one-line form.
pub fn render_record(e: &StashEntry) -> (s: String)
    ensures
        s@ == record_text(e@),
{
    let mut s = to_hex(&e.stash_commit);
    s.append(":");
    match &e.index_commit {
        Some(h) => {
            let hx = to_hex(h);
            s.append(hx.as_str());
        },
        None => {
            let z = ContentHash::zero();
            let hx = to_hex(&z);
            s.append(hx.as_str());
        },
    }
    s.append(":");
    s.append(e.message.as_str());
    proof {
        reveal_strlit(":");
        assert(s@ =~= record_text(e@));
    }
    s
}

/// The position of the first occurrence of `c` in `s` at or after `from`,
/// or the length of `s` if there is none.
pub open spec fn idx_of(s: Seq<char>, c: char, from: int) -> int
    decreases s.len() - from when 0 <= from <= s.len()
{
    if from >= s.len() {
        s.len() as int
    } else if s[from] == c {
        from
    } else {
        idx_of(s, c, from + 1)
    }
}

pub proof fn lemma_idx_of(s: Seq<char>, c: char, from: int)
    requires
        0 <= from <= s.len(),
    ensures
        from <= idx_of(s, c, from) <= s.len(),
        idx_of(s, c, from) < s.len() ==> s[idx_of(s, c, from)] == c,
        forall|j: int| from <= j < idx_of(s, c, from) ==> s[j] != c,
    decreases s.len() - from,
{
    if from < s.len() && s[from] != c {
        lemma_idx_of(s, c, from + 1);
    }
}

proof fn lemma_idx_of_is(s: Seq<char>, c: char, from: int, k: int)
    requires
        0 <= from <= k <= s.len(),
        forall|j: int| from <= j < k ==> s[j] != c,
        k == s.len() || s[k] == c,
    ensures
        idx_of(s, c, from) == k,
    decreases k - from,
{
    if from < k {
        lemma_idx_of_is(s, c, from + 1, k);
    }
}

/// The position of the first occurrence of `c` in `s` at or after `from`,
/// or the character length of `s` if there is none.
pub fn find_char(s: &str, c: char, from: usize) -> (r: usize)
    requires
        from <= s@.len(),
    ensures
        r == idx_of(s@, c, from as int),
        from <= r <= s@.len(),
        r < s@.len() ==> s@[r as int] == c,
        forall|j: int| from <= j < r ==> s@[j] != c,
{
    let n = s.unicode_len();
    let mut i = from;
    while i < n
        invariant
            from <= i <= n,
            n == s@.len(),
            forall|j: int| from <= j < i ==> s@[j] != c,
        decreases n - i,
    {
        if s.get_char(i) == c {
            proof {
                lemma_idx_of_is(s@, c, from as int, i as int);
            }
            return i;
        }
        i += 1;
    }
    proof {
        lemma_idx_of_is(s@, c, from as int, n as int);
    }
    n
}

/// What parsing the stored form of a stash record yields: the first line is
/// split at colons; the first field must be a valid digest text, the second
/// is the index commit (absent when empty or all-zero), the third, up to any
/// further colon, is the message.
pub open spec fn record_parse(s: Seq<char>) -> Option<(Seq<u8>, Option<Seq<u8>>, Seq<char>)> {
    let line = s.subrange(0, idx_of(s, '\n', 0));
    let c1 = idx_of(line, ':', 0);
    if c1 == line.len() {
        None
    } else {
        let f0 = line.subrange(0, c1);
        let c2 = idx_of(line, ':', c1 + 1);
        let f1 = line.subrange(c1 + 1, c2);
        let msg = if c2 == line.len() {
            Seq::<char>::empty()
        } else {
            line.subrange(c2 + 1, idx_of(line, ':', c2 + 1))
        };
        if !digest_text_ok(f0) {
            None
        } else if f1.len() == 0 {
            Some((digest_text_val(f0), None, msg))
        } else if !digest_text_ok(f1) {
            None
        } else if digest_text_val(f1) == zero_digest() {
            Some((digest_text_val(f0), None, msg))
        } else {
            Some((digest_text_val(f0), Some(digest_text_val(f1)), msg))
        }
    }
}

pub open spec fn entry_opt_view(r: Option<StashEntry>) -> Option<
    (Seq<u8>, Option<Seq<u8>>, Seq<char>),
> {
    match r {
        Some(e) => Some(e@),
        None => None,
    }
}

/// Parses the stored form of a stash record; `None` on anything malformed.
/// An absent index commit may be written either as an empty field or as the
/// all-zero digest, and both are read back as absent.
pub fn parse_record(s: &str) -> (r: Option<StashEntry>)
    ensures
        entry_opt_view(r) == record_parse(s@),
{
    let nl = find_char(s, '\n', 0);
    let line = s.substring_char(0, nl);
    proof {
        lemma_idx_of(line@, ':', 0);
    }
    let c1 = find_char(line, ':', 0);
    let line_len = line.unicode_len();
    if c1 == line_len {
        return None;
    }
    let f0 = line.substring_char(0, c1);
    let c2 = find_char(line, ':', c1 + 1);
    let f1 = line.substring_char(c1 + 1, c2);
    let msg: String = if c2 == line_len {
        proof {
            reveal_strlit("");
        }
        String::new()
    } else {
        let c3 = find_char(line, ':', c2 + 1);
        let m = line.substring_char(c2 + 1, c3);
        m.to_owned()
    };
    let sc = match ContentHash::from_str(f0) {
        Ok(h) => h,
        Err(_) => {
            return None;
        },
    };
    if f1.unicode_len() == 0 {
        return Some(StashEntry { stash_commit: sc, index_commit: None, message: msg });
    }
    let ic = match ContentHash::from_str(f1) {
        Ok(h) => h,
        Err(_) => {
            return None;
        },
    };
    if ic.is_zero() {
        Some(StashEntry { stash_commit: sc, index_commit: None, message: msg })
    } else {
        Some(StashEntry { stash_commit: sc, index_commit: Some(ic), message: msg })
    }
}

/// Round trip of the stored form: a record whose digests are full-length,
/// whose index commit (when present) is not the all-zero sentinel, and
/// whose message holds neither a colon nor a line break parses back exactly
/// as it was rendered.
pub proof fn lemma_record_round_trip(v: (Seq<u8>, Option<Seq<u8>>, Seq<char>))
    requires
        v.0.len() == 20,
        v.1 matches Some(d) ==> d.len() == 20 && d != zero_digest(),
        forall|i: int| 0 <= i < v.2.len() ==> v.2[i] != ':' && v.2[i] != '\n',
    ensures
        record_parse(record_text(v)) == Some(v),
{
    let ic = match v.1 {
        Some(d) => d,
        None => zero_digest(),
    };
    let s = record_text(v);
    let h0 = hex_seq(v.0);
    let h1 = hex_seq(ic);
    crate::hash::lemma_hex_round_trip(v.0);
    crate::hash::lemma_hex_round_trip(ic);
    assert(s.len() == 82 + v.2.len());
    assert forall|j: int| 0 <= j < s.len() implies s[j] != '\n' by {
        if j < 40 {
            assert(s[j] == h0[j]);
        } else if j == 40 || j == 81 {
            assert(s[j] == ':');
        } else if j < 81 {
            assert(s[j] == h1[j - 41]);
        } else {
            assert(s[j] == v.2[j - 82]);
        }
    }
    lemma_idx_of_is(s, '\n', 0, s.len() as int);
    let line = s.subrange(0, idx_of(s, '\n', 0));
    assert(line =~= s);
    assert forall|j: int| 0 <= j < 40 implies s[j] != ':' by {
        assert(s[j] == h0[j]);
    }
    assert(s[40] == ':');
    lemma_idx_of_is(s, ':', 0, 40);
    assert forall|j: int| 41 <= j < 81 implies s[j] != ':' by {
        assert(s[j] == h1[j - 41]);
    }
    assert(s[81] == ':');
    lemma_idx_of_is(s, ':', 41, 81);
    assert forall|j: int| 82 <= j < s.len() implies s[j] != ':' by {
        assert(s[j] == v.2[j - 82]);
    }
    lemma_idx_of_is(s, ':', 82, s.len() as int);
    let f0 = s.subrange(0, 40);
    let f1 = s.subrange(41, 81);
    let msg = s.subrange(82, s.len() as int);
    assert(f0 =~= h0);
    assert(f1 =~= h1);
    assert(msg =~= v.2);
    assert(digest_text_ok(f0) && digest_text_val(f0) == v.0);
    assert(digest_text_ok(f1) && digest_text_val(f1) == ic);
    match v.1 {
        Some(d) => {
            assert(record_parse(s) == Some((v.0, Some(d), v.2)));
        },
        None => {
            assert(record_parse(s) == Some((v.0, None::<Seq<u8>>, v.2)));
        },
    }
    assert(v == (v.0, v.1, v.2));
}

} // verus!
