//! Caches that forget.
use vstd::prelude::*;

use crate::delay::{span, Delay, NANOS_PER_SEC};

verus! {

#[verifier::external_type_specification]
#[verifier::external_body]
#[verifier::reject_recursive_types(K)]
#[verifier::reject_recursive_types(V)]
#[verifier::reject_recursive_types(S)]
pub struct ExCache<K, V, S>(moka::sync::Cache<K, V, S>);

/// What was last put into a cache of texts under each name, also what it has forgotten
/// since.
pub uninterp spec fn texts_put(
    cache: moka::sync::Cache<String, String>,
) -> Map<Seq<char>, Seq<char>>;

/// How long a cache of texts keeps an entry, in nanoseconds, and how many it keeps.
pub uninterp spec fn text_limits(cache: moka::sync::Cache<String, String>) -> (nat, nat);

/// The longest time that a cache can keep an entry for: a thousand years, in nanoseconds.
pub open spec fn longest_life() -> nat {
    31_536_000_000_000_000_000
}

/// The longest time that a cache can keep an entry for, in seconds.
pub const LONGEST_LIFE_SECS: u64 = 31_536_000_000;

/// Whether a cache can keep its entries for a span of time.
pub fn can_live(life: &Delay) -> (r: bool)
    ensures
        r == (life@ <= longest_life()),
{
    let longest = Delay::from_secs(LONGEST_LIFE_SECS);
    !longest.shorter_than(life)
}

/// `Cache::builder` with `time_to_live` and `max_capacity`: nothing was put in yet.
#[verifier::external_body]
fn build_texts(secs: u64, nanos: u32, capacity: u64) -> (r: moka::sync::Cache<String, String>)
    requires
        nanos < NANOS_PER_SEC,
        span(secs, nanos) <= longest_life(),
    ensures
        texts_put(r).dom() == Set::<Seq<char>>::empty(),
        text_limits(r) == (span(secs, nanos), capacity as nat),
{
    let life = std::time::Duration::new(secs, nanos);
    moka::sync::Cache::builder().time_to_live(life).max_capacity(capacity).build()
}

/// `Cache::get`: nothing, or what was last put in under the name.
#[verifier::external_body]
pub(crate) fn find_text(cache: &moka::sync::Cache<String, String>, name: &str) -> (r: Option<
    String,
>)
    ensures
        r is Some ==> texts_put(*cache).contains_key(name@),
        r is Some ==> r->0@ == texts_put(*cache)[name@],
{
    cache.get(name)
}

/// `Cache::insert`: the name has that text.
#[verifier::external_body]
pub(crate) fn put_text(cache: &mut moka::sync::Cache<String, String>, name: &str, text: &str)
    ensures
        texts_put(*final(cache)) == texts_put(*old(cache)).insert(name@, text@),
        text_limits(*final(cache)) == text_limits(*old(cache)),
{
    cache.insert(name.to_string(), text.to_string());
}

/// A cache of texts with nothing in it.
pub(crate) fn new_texts(life: Delay, capacity: u64) -> (r: moka::sync::Cache<String, String>)
    requires
        life@ <= longest_life(),
    ensures
        texts_put(r) == Map::<Seq<char>, Seq<char>>::empty(),
        text_limits(r) == (life@, capacity as nat),
{
    let r = build_texts(life.as_secs(), life.subsec_nanos(), capacity);
    assert(texts_put(r) =~= Map::empty());
    r
}

} // verus!
