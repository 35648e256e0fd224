//! Name-keyed sequences: find-by-name and insert-or-replace, shared by every
//! collection whose entries are keyed by a name and where a later write for
//! an existing name replaces the earlier entry.

use vstd::prelude::*;

verus! {

/// The first index whose element carries `name` under `key`, or -1.
pub open spec fn index_by<T>(s: Seq<T>, key: spec_fn(T) -> Seq<char>, name: Seq<char>) -> int
    decreases s.len(),
{
    if s.len() == 0 {
        -1
    } else if key(s[0]) == name {
        0
    } else {
        let r = index_by(s.drop_first(), key, name);
        if r < 0 {
            -1
        } else {
            r + 1
        }
    }
}

/// `s` with `v` written under its own key: replacing the first entry of the
/// same name, or appended when no entry carries it.
pub open spec fn upsert_by<T>(s: Seq<T>, key: spec_fn(T) -> Seq<char>, v: T) -> Seq<T> {
    let i = index_by(s, key, key(v));
    if i < 0 {
        s.push(v)
    } else {
        s.update(i, v)
    }
}

pub proof fn lemma_index_by<T>(s: Seq<T>, key: spec_fn(T) -> Seq<char>, name: Seq<char>)
    ensures
        -1 <= index_by(s, key, name) < s.len(),
        index_by(s, key, name) >= 0 ==> key(s[index_by(s, key, name)]) == name,
        forall|k: int| 0 <= k < index_by(s, key, name) ==> key(s[k]) != name,
        index_by(s, key, name) == -1 ==> forall|k: int| 0 <= k < s.len() ==> key(s[k]) != name,
    decreases s.len(),
{
    if s.len() > 0 && key(s[0]) != name {
        lemma_index_by(s.drop_first(), key, name);
        assert forall|k: int| 1 <= k < s.len() implies key(s[k]) == key(s.drop_first()[k - 1]) by {
            assert(s.drop_first()[k - 1] == s[k]);
        }
    }
}

/// The index under `key` is the position `j` at which `name` first occurs.
pub proof fn lemma_index_by_at<T>(s: Seq<T>, key: spec_fn(T) -> Seq<char>, name: Seq<char>, j: int)
    requires
        0 <= j < s.len(),
        key(s[j]) == name,
        forall|k: int| 0 <= k < j ==> key(s[k]) != name,
    ensures
        index_by(s, key, name) == j,
    decreases s.len(),
{
    if j > 0 {
        assert(key(s[0]) != name);
        assert(s.drop_first()[j - 1] == s[j]);
        assert forall|k: int| 0 <= k < j - 1 implies key(s.drop_first()[k]) != name by {
            assert(s.drop_first()[k] == s[k + 1]);
        }
        lemma_index_by_at(s.drop_first(), key, name, j - 1);
    }
}

/// Without an occurrence of `name` there is no index for it.
pub proof fn lemma_index_by_none<T>(s: Seq<T>, key: spec_fn(T) -> Seq<char>, name: Seq<char>)
    requires
        forall|k: int| 0 <= k < s.len() ==> key(s[k]) != name,
    ensures
        index_by(s, key, name) == -1,
    decreases s.len(),
{
    if s.len() > 0 {
        assert forall|k: int| 0 <= k < s.len() - 1 implies key(s.drop_first()[k]) != name by {
            assert(s.drop_first()[k] == s[k + 1]);
        }
        lemma_index_by_none(s.drop_first(), key, name);
    }
}

} // verus!
