//! Finding a key in a list of keys: the first position that holds it.
use vstd::prelude::*;
use vstd::string::StringExecFns;

verus! {

/// The first position at or after `from` at which `keys` holds `key`.
pub open spec fn spec_index_from(keys: Seq<Seq<char>>, key: Seq<char>, from: int) -> Option<int>
    decreases keys.len() - from,
{
    if from < 0 || from >= keys.len() {
        None
    } else if keys[from] == key {
        Some(from)
    } else {
        spec_index_from(keys, key, from + 1)
    }
}

/// The first position at which `keys` holds `key`.
pub open spec fn spec_index_of(keys: Seq<Seq<char>>, key: Seq<char>) -> Option<int> {
    spec_index_from(keys, key, 0)
}

/// What the first position is: the key stands there and nowhere before it;
/// where there is none, the key stands nowhere.
pub(crate) proof fn lemma_index_from(keys: Seq<Seq<char>>, key: Seq<char>, from: int)
    requires
        0 <= from,
    ensures
        match spec_index_from(keys, key, from) {
            Some(i) => {
                &&& from <= i < keys.len()
                &&& keys[i] == key
                &&& forall|j: int| from <= j < i ==> keys[j] != key
            },
            None => forall|j: int| from <= j < keys.len() ==> keys[j] != key,
        },
    decreases keys.len() - from,
{
    if from < keys.len() && keys[from] != key {
        lemma_index_from(keys, key, from + 1);
    }
}

/// A position that holds the key and has no earlier one that does is the
/// first position.
pub(crate) proof fn lemma_index_is(keys: Seq<Seq<char>>, key: Seq<char>, from: int, at: int)
    requires
        0 <= from <= at < keys.len(),
        keys[at] == key,
        forall|j: int| from <= j < at ==> keys[j] != key,
    ensures
        spec_index_from(keys, key, from) == Some(at),
    decreases at - from,
{
    if from < at {
        lemma_index_is(keys, key, from + 1, at);
    }
}

/// Where the key stands nowhere at or after `from`, there is no position.
pub(crate) proof fn lemma_index_none(keys: Seq<Seq<char>>, key: Seq<char>, from: int)
    requires
        0 <= from,
        forall|j: int| from <= j < keys.len() ==> keys[j] != key,
    ensures
        spec_index_from(keys, key, from) is None,
    decreases keys.len() - from,
{
    if from < keys.len() {
        lemma_index_none(keys, key, from + 1);
    }
}

/// The first position at or after `from` and below `len` at which `ok` does
/// not hold; `len` where it holds at all of them.
pub open spec fn spec_first_failing(ok: spec_fn(int) -> bool, from: int, len: int) -> int
    decreases len - from,
{
    if from >= len {
        len
    } else if !ok(from) {
        from
    } else {
        spec_first_failing(ok, from + 1, len)
    }
}

/// What the first failing position is: `ok` fails there and holds at every
/// position before it.
pub(crate) proof fn lemma_first_failing(ok: spec_fn(int) -> bool, from: int, len: int)
    requires
        from <= len,
    ensures
        from <= spec_first_failing(ok, from, len) <= len,
        spec_first_failing(ok, from, len) < len ==> !ok(spec_first_failing(ok, from, len)),
        forall|j: int| from <= j < spec_first_failing(ok, from, len) ==> #[trigger] ok(j),
    decreases len - from,
{
    if from < len && ok(from) {
        lemma_first_failing(ok, from + 1, len);
    }
}

/// A position at which `ok` fails, with none before it, is the first.
pub(crate) proof fn lemma_first_failing_is(ok: spec_fn(int) -> bool, from: int, at: int, len: int)
    requires
        from <= at < len,
        !ok(at),
        forall|j: int| from <= j < at ==> #[trigger] ok(j),
    ensures
        spec_first_failing(ok, from, len) == at,
    decreases at - from,
{
    if from < at {
        lemma_first_failing_is(ok, from + 1, at, len);
    }
}

/// Where `ok` holds at every position, the first failing one is `len`.
pub(crate) proof fn lemma_first_failing_none(ok: spec_fn(int) -> bool, from: int, len: int)
    requires
        from <= len,
        forall|j: int| from <= j < len ==> #[trigger] ok(j),
    ensures
        spec_first_failing(ok, from, len) == len,
    decreases len - from,
{
    if from < len {
        lemma_first_failing_none(ok, from + 1, len);
    }
}

/// Compares two texts.
pub fn same_text(a: &str, b: &str) -> (same: bool)
    ensures
        same == (a@ == b@),
{
    let left = String::from_str(a);
    let right = String::from_str(b);
    left == right
}

} // verus!
