//! The in-memory index: a concurrent hash map from each live key to the place
//! of its latest record.

use vstd::prelude::*;

verus! {

/// The location of a record in a log file.
#[derive(Debug, Clone, Copy, PartialEq, Eq)]
pub struct CommandIndex {
    /// The id of the log file.
    pub log_id: u64,
    /// The offset of the record's first byte in the file.
    pub offset: u64,
    /// The number of bytes of the record.
    pub len: u64,
}

/// The concurrent hash map of the `flurry` crate. Its inside is not known
/// here; [`index_entries`] names what it holds.
#[verifier::external_type_specification]
#[verifier::external_body]
#[verifier::reject_recursive_types(K)]
#[verifier::reject_recursive_types(V)]
#[verifier::reject_recursive_types(S)]
pub struct ExFlurryHashMap<K, V, S>(flurry::HashMap<K, V, S>);

/// The hasher that a `flurry` map uses where none is named. Nothing is known
/// of it here.
#[verifier::external_type_specification]
#[verifier::external_body]
pub struct ExDefaultHashBuilder(flurry::DefaultHashBuilder);

/// What an index holds, as mathematics: each key, as its characters, with the
/// place recorded for it.
pub type IndexView = Map<Seq<char>, CommandIndex>;

/// The entries that an index holds.
pub uninterp spec fn index_entries(m: flurry::HashMap<String, CommandIndex>) -> IndexView;

/// `flurry::HashMap::new`: a map that holds nothing.
#[verifier::external_body]
pub(crate) fn index_new() -> (r: flurry::HashMap<String, CommandIndex>)
    ensures
        index_entries(r) == IndexView::empty(),
{
    flurry::HashMap::new()
}

/// `flurry::HashMap::get`: the value stored for `key`, if there is one.
#[verifier::external_body]
pub(crate) fn index_get(m: &flurry::HashMap<String, CommandIndex>, key: &str) -> (r: Option<
    CommandIndex,
>)
    ensures
        r == if index_entries(*m).dom().contains(key@) {
            Some(index_entries(*m)[key@])
        } else {
            None
        },
{
    let guard = m.guard();
    m.get(key, &guard).copied()
}

/// `flurry::HashMap::insert`: afterwards `key` maps to `value`, and every
/// other key maps to what it mapped to before.
#[verifier::external_body]
pub(crate) fn index_insert(
    m: &mut flurry::HashMap<String, CommandIndex>,
    key: String,
    value: CommandIndex,
)
    ensures
        index_entries(*final(m)) == index_entries(*old(m)).insert(key@, value),
{
    let guard = m.guard();
    m.insert(key, value, &guard);
}

/// `flurry::HashMap::remove`: afterwards `key` maps to nothing, and every
/// other key maps to what it mapped to before. The result is the value that
/// was stored for `key`, if there was one.
#[verifier::external_body]
pub(crate) fn index_remove(m: &mut flurry::HashMap<String, CommandIndex>, key: &str) -> (r: Option<
    CommandIndex,
>)
    ensures
        index_entries(*final(m)) == index_entries(*old(m)).remove(key@),
        r == if index_entries(*old(m)).dom().contains(key@) {
            Some(index_entries(*old(m))[key@])
        } else {
            None
        },
{
    let guard = m.guard();
    m.remove(key, &guard).copied()
}

/// `flurry::HashMap::len`: the number of entries.
#[verifier::external_body]
pub(crate) fn index_len(m: &flurry::HashMap<String, CommandIndex>) -> (r: usize)
    ensures
        r == index_entries(*m).dom().len(),
{
    m.len()
}

/// `flurry::HashMap::values`: the values of all entries, in no particular
/// order, one for each key.
#[verifier::external_body]
pub(crate) fn index_values(m: &flurry::HashMap<String, CommandIndex>) -> (r: Vec<CommandIndex>)
    ensures
        r@.len() == index_entries(*m).dom().len(),
        r@.to_set() == index_entries(*m).values(),
{
    let guard = m.guard();
    m.values(&guard).copied().collect()
}

} // verus!
