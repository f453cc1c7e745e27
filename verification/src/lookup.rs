//! The lookup of a plan in the cache: what it finds, what it writes, and what that costs.

use crate::path::{prefixes_view, BreakpointView, CachePrefix, PrefixView};
use crate::plan::{breakpoints_placed, CachePlan, PlanView};
use crate::store::{entries_wf, live, CacheEntry, CacheStore};
use crate::usage::CacheResult;
use vstd::prelude::*;
use vstd::string::*;

verus! {

/// A lookup at a breakpoint goes back over this many prefixes.
pub const CACHE_LOOKBACK_BLOCKS: usize = 20;

/// The nanoseconds of a second.
pub const NANOS_PER_SEC: u128 = 1_000_000_000;

/// Times, in nanoseconds since a fixed moment, are less than this.
pub const TIME_LIMIT: u128 = 0x1_0000_0000_0000_0000_0000_0000;

/// The key of the entry for a prefix.
pub open spec fn entry_key(api_key: Seq<char>, hash: Seq<char>) -> Seq<char> {
    "cache:"@ + api_key + ":"@ + hash
}

/// The time at which an entry expires that was wanted at `now`.
pub open spec fn expiry(now: u128, ttl_secs: int) -> u128 {
    (now + ttl_secs * NANOS_PER_SEC) as u128
}

/// The entries for the prefixes of one key.
pub open spec fn is_cached(
    entries: Map<Seq<char>, CacheEntry>,
    api_key: Seq<char>,
    prefix: PrefixView,
) -> bool {
    entries.contains_key(entry_key(api_key, prefix.hash))
}

/// The last cached prefix from `low` to `high`.
pub open spec fn find_back(
    entries: Map<Seq<char>, CacheEntry>,
    api_key: Seq<char>,
    prefixes: Seq<PrefixView>,
    low: int,
    high: int,
) -> Option<int>
    decreases high - low + 1,
{
    if high < low {
        None
    } else if is_cached(entries, api_key, prefixes[high]) {
        Some(high)
    } else {
        find_back(entries, api_key, prefixes, low, high - 1)
    }
}

/// The first prefix that the lookback of a breakpoint reaches.
pub open spec fn lookback_start(breakpoint: BreakpointView) -> int {
    if breakpoint.prefix_index < CACHE_LOOKBACK_BLOCKS {
        0
    } else {
        breakpoint.prefix_index - CACHE_LOOKBACK_BLOCKS
    }
}

/// A cached prefix that a lookup found.
pub struct Hit {
    /// Which prefix.
    pub prefix_index: int,
    /// How long its entry stays from now on.
    pub ttl_secs: int,
}

/// The prefix that a lookup finds: from the last breakpoint to the first, the last cached one
/// that the breakpoint's lookback reaches.
pub open spec fn find_hit(
    entries: Map<Seq<char>, CacheEntry>,
    api_key: Seq<char>,
    prefixes: Seq<PrefixView>,
    breakpoints: Seq<BreakpointView>,
) -> Option<Hit>
    decreases breakpoints.len(),
{
    if breakpoints.len() == 0 {
        None
    } else {
        let breakpoint = breakpoints.last();
        match find_back(
            entries,
            api_key,
            prefixes,
            lookback_start(breakpoint),
            breakpoint.prefix_index,
        ) {
            Some(found) => Some(Hit { prefix_index: found, ttl_secs: breakpoint.ttl_secs }),
            None => find_hit(entries, api_key, prefixes, breakpoints.drop_last()),
        }
    }
}

/// The key of a plan's prefix.
pub open spec fn plan_key(plan: PlanView, prefix_index: int) -> Seq<char> {
    entry_key(plan.api_key, plan.prefixes[prefix_index].hash)
}

/// The tokens that a lookup finds.
pub open spec fn hit_tokens(
    entries: Map<Seq<char>, CacheEntry>,
    plan: PlanView,
    hit: Option<Hit>,
) -> int {
    match hit {
        Some(found) => entries[plan_key(plan, found.prefix_index)].tokens as int,
        None => 0,
    }
}

/// The entries after a hit: the one that was found stays for as long again.
pub open spec fn refreshed(
    entries: Map<Seq<char>, CacheEntry>,
    plan: PlanView,
    hit: Option<Hit>,
    now: u128,
) -> Map<Seq<char>, CacheEntry> {
    match hit {
        Some(found) => {
            let key = plan_key(plan, found.prefix_index);
            entries.insert(
                key,
                CacheEntry {
                    tokens: entries[key].tokens,
                    expires_at: expiry(now, found.ttl_secs),
                },
            )
        },
        None => entries,
    }
}

/// The entries after the writes: one for each breakpoint with more tokens than were found.
pub open spec fn written(
    entries: Map<Seq<char>, CacheEntry>,
    plan: PlanView,
    breakpoints: Seq<BreakpointView>,
    read: int,
    now: u128,
) -> Map<Seq<char>, CacheEntry>
    decreases breakpoints.len(),
{
    if breakpoints.len() == 0 {
        entries
    } else {
        let earlier = written(entries, plan, breakpoints.drop_last(), read, now);
        let breakpoint = breakpoints.last();
        let prefix = plan.prefixes[breakpoint.prefix_index];
        if prefix.tokens > read {
            earlier.insert(
                plan_key(plan, breakpoint.prefix_index),
                CacheEntry {
                    tokens: prefix.tokens as i32,
                    expires_at: expiry(now, breakpoint.ttl_secs),
                },
            )
        } else {
            earlier
        }
    }
}

/// The tokens of the largest prefix that was found or written.
pub open spec fn largest(
    prefixes: Seq<PrefixView>,
    breakpoints: Seq<BreakpointView>,
    read: int,
) -> int
    decreases breakpoints.len(),
{
    if breakpoints.len() == 0 {
        read
    } else {
        let earlier = largest(prefixes, breakpoints.drop_last(), read);
        let tokens = prefixes[breakpoints.last().prefix_index].tokens;
        if tokens > earlier {
            tokens
        } else {
            earlier
        }
    }
}

/// What a lookup comes to.
#[verifier::ext_equal]
pub struct Lookup {
    /// The entries after it.
    pub entries: Map<Seq<char>, CacheEntry>,
    /// The tokens that it found.
    pub read: int,
    /// The tokens that it wrote beyond those.
    pub creation: int,
    /// The tokens of the request that are neither.
    pub uncached: int,
}

/// What the lookup of a plan comes to at a time. A plan without breakpoints leaves the cache
/// alone.
pub open spec fn lookup(
    entries: Map<Seq<char>, CacheEntry>,
    plan: PlanView,
    now: u128,
) -> Lookup {
    if plan.prefixes.len() == 0 || plan.breakpoints.len() == 0 {
        Lookup { entries, read: 0, creation: 0, uncached: plan.total_input_tokens }
    } else {
        let current = live(entries, now);
        let hit = find_hit(current, plan.api_key, plan.prefixes, plan.breakpoints);
        let read = hit_tokens(current, plan, hit);
        let top = largest(plan.prefixes, plan.breakpoints, read);
        Lookup {
            entries: written(
                refreshed(current, plan, hit, now),
                plan,
                plan.breakpoints,
                read,
                now,
            ),
            read,
            creation: top - read,
            uncached: if plan.total_input_tokens > top {
                plan.total_input_tokens - top
            } else {
                0
            },
        }
    }
}

/// The key of the entry for a prefix.
pub fn cache_key(api_key: &str, hash: &str) -> (key: String)
    ensures
        key@ == entry_key(api_key@, hash@),
{
    let mut key = "cache:".to_owned();
    key.append(api_key);
    key.append(":");
    key.append(hash);
    key
}

/// What `find_back` finds lies in its range and is cached.
pub proof fn lemma_find_back(
    entries: Map<Seq<char>, CacheEntry>,
    api_key: Seq<char>,
    prefixes: Seq<PrefixView>,
    low: int,
    high: int,
)
    ensures
        match find_back(entries, api_key, prefixes, low, high) {
            Some(found) => {
                &&& low <= found <= high
                &&& is_cached(entries, api_key, prefixes[found])
                &&& forall|i: int|
                    found < i <= high ==> !is_cached(entries, api_key, #[trigger] prefixes[i])
            },
            None => forall|i: int|
                low <= i <= high ==> !is_cached(entries, api_key, #[trigger] prefixes[i]),
        },
    decreases high - low + 1,
{
    if low <= high && !is_cached(entries, api_key, prefixes[high]) {
        lemma_find_back(entries, api_key, prefixes, low, high - 1);
    }
}

/// What `find_hit` finds is a cached prefix of the plan.
pub proof fn lemma_find_hit(
    entries: Map<Seq<char>, CacheEntry>,
    api_key: Seq<char>,
    prefixes: Seq<PrefixView>,
    breakpoints: Seq<BreakpointView>,
)
    requires
        breakpoints_placed(breakpoints, prefixes.len()),
    ensures
        find_hit(entries, api_key, prefixes, breakpoints) matches Some(hit) ==> {
            &&& 0 <= hit.prefix_index < prefixes.len()
            &&& is_cached(entries, api_key, prefixes[hit.prefix_index])
        },
    decreases breakpoints.len(),
{
    if breakpoints.len() > 0 {
        let breakpoint = breakpoints.last();
        lemma_find_back(
            entries,
            api_key,
            prefixes,
            lookback_start(breakpoint),
            breakpoint.prefix_index,
        );
        let earlier = breakpoints.drop_last();
        assert(forall|i: int| 0 <= i < earlier.len() ==> #[trigger] earlier[i] == breakpoints[i]);
        lemma_find_hit(entries, api_key, prefixes, earlier);
    }
}

/// The last cached prefix from `low` to `high`.
fn search_back(
    cache: &CacheStore,
    api_key: &str,
    prefixes: &Vec<CachePrefix>,
    low: usize,
    high: usize,
) -> (found: Option<usize>)
    requires
        low <= high < prefixes.len(),
    ensures
        match found {
            Some(at) => find_back(
                cache@,
                api_key@,
                prefixes_view(prefixes@),
                low as int,
                high as int,
            ) == Some(at as int),
            None => find_back(
                cache@,
                api_key@,
                prefixes_view(prefixes@),
                low as int,
                high as int,
            ) is None,
        },
{
    let ghost views = prefixes_view(prefixes@);
    let mut next: usize = high + 1;
    while next > low
        invariant
            low <= next <= high + 1 <= prefixes@.len(),
            views == prefixes_view(prefixes@),
            find_back(cache@, api_key@, views, low as int, high as int) == find_back(
                cache@,
                api_key@,
                views,
                low as int,
                next - 1,
            ),
        decreases next,
    {
        next = next - 1;
        assert(views[next as int] == prefixes@[next as int]@);
        let key = cache_key(api_key, prefixes[next].hash.as_str());
        if cache.get(key.as_str()).is_some() {
            return Some(next);
        }
    }
    None
}

/// Looks a plan's prefixes up in the cache, keeps what it finds for as long again, and writes
/// entries for the breakpoints beyond that.
pub fn lookup_or_create(cache: &mut CacheStore, plan: &CachePlan, now: u128) -> (result:
    CacheResult)
    requires
        old(cache).wf(),
        plan@.searchable(),
        now < TIME_LIMIT,
    ensures
        final(cache).wf(),
        final(cache)@ == lookup(old(cache)@, plan@, now).entries,
        result.cache_read_input_tokens == lookup(old(cache)@, plan@, now).read,
        result.cache_creation_input_tokens == lookup(old(cache)@, plan@, now).creation,
        result.uncached_input_tokens == lookup(old(cache)@, plan@, now).uncached,
{
    if plan.prefixes.len() == 0 || plan.breakpoints.len() == 0 {
        return CacheResult {
            cache_read_input_tokens: 0,
            cache_creation_input_tokens: 0,
            uncached_input_tokens: plan.total_input_tokens,
        };
    }
    cache.drop_expired(now);
    let ghost current = cache@;
    let ghost views = plan@.breakpoints;
    let ghost hit = find_hit(current, plan@.api_key, plan@.prefixes, views);
    proof {
        cache.lemma_entries_wf();
        lemma_find_hit(current, plan@.api_key, plan@.prefixes, views);
    }
    let mut read_tokens: i32 = 0;
    let mut next: usize = plan.breakpoints.len();
    let mut searching = true;
    assert(views.take(views.len() as int) =~= views);
    while searching && next > 0
        invariant
            next <= plan.breakpoints@.len(),
            breakpoints_placed(plan@.breakpoints, plan@.prefixes.len()),
            now < TIME_LIMIT,
            views == plan@.breakpoints,
            cache.wf(),
            entries_wf(current),
            hit matches Some(found) ==> 0 <= found.prefix_index < plan@.prefixes.len()
                && is_cached(current, plan@.api_key, plan@.prefixes[found.prefix_index]),
            searching ==> cache@ == current && read_tokens == 0 && hit == find_hit(
                current,
                plan@.api_key,
                plan@.prefixes,
                views.take(next as int),
            ),
            !searching ==> hit is Some && cache@ == refreshed(current, plan@, hit, now)
                && read_tokens == hit_tokens(current, plan@, hit),
            read_tokens >= 0,
        decreases next,
    {
        let ghost taken = views.take(next as int);
        next = next - 1;
        let breakpoint = plan.breakpoints[next];
        assert(taken.drop_last() =~= views.take(next as int));
        assert(taken.last() == breakpoint@);
        assert(views[next as int] == breakpoint@);
        let start: usize = breakpoint.prefix_index;
        let end: usize = if start < CACHE_LOOKBACK_BLOCKS {
            0
        } else {
            start - CACHE_LOOKBACK_BLOCKS
        };
        match search_back(cache, plan.api_key.as_str(), &plan.prefixes, end, start) {
            Some(found) => {
                assert(plan@.prefixes[found as int] == plan.prefixes@[found as int]@);
                let key = cache_key(plan.api_key.as_str(), plan.prefixes[found].hash.as_str());
                if let Some(entry) = cache.get(key.as_str()) {
                    read_tokens = entry.tokens;
                    cache.insert(
                        key,
                        CacheEntry {
                            tokens: entry.tokens,
                            expires_at: now + breakpoint.ttl_secs as u128 * NANOS_PER_SEC,
                        },
                    );
                    searching = false;
                }
            },
            None => {},
        }
    }
    assert(views.take(views.len() as int) =~= views);
    let ghost after_hit = cache@;
    let mut largest_written_tokens: i32 = read_tokens;
    let mut at: usize = 0;
    while at < plan.breakpoints.len()
        invariant
            at <= plan.breakpoints@.len(),
            breakpoints_placed(plan@.breakpoints, plan@.prefixes.len()),
            now < TIME_LIMIT,
            views == plan@.breakpoints,
            cache.wf(),
            read_tokens >= 0,
            cache@ == written(after_hit, plan@, views.take(at as int), read_tokens as int, now),
            largest_written_tokens == largest(
                plan@.prefixes,
                views.take(at as int),
                read_tokens as int,
            ),
            largest_written_tokens >= read_tokens,
        decreases plan.breakpoints.len() - at,
    {
        let ghost taken = views.take(at + 1);
        let breakpoint = plan.breakpoints[at];
        assert(taken.drop_last() =~= views.take(at as int));
        assert(taken.last() == breakpoint@);
        assert(views[at as int] == breakpoint@);
        let prefix = &plan.prefixes[breakpoint.prefix_index];
        assert(plan@.prefixes[breakpoint.prefix_index as int] == prefix@);
        if prefix.tokens > read_tokens {
            cache.insert(
                cache_key(plan.api_key.as_str(), prefix.hash.as_str()),
                CacheEntry {
                    tokens: prefix.tokens,
                    expires_at: now + breakpoint.ttl_secs as u128 * NANOS_PER_SEC,
                },
            );
            if prefix.tokens > largest_written_tokens {
                largest_written_tokens = prefix.tokens;
            }
        }
        at = at + 1;
    }
    let cache_creation_input_tokens: i32 = largest_written_tokens - read_tokens;
    let uncached_input_tokens: i32 = if plan.total_input_tokens > largest_written_tokens {
        plan.total_input_tokens - largest_written_tokens
    } else {
        0
    };
    CacheResult {
        cache_read_input_tokens: read_tokens,
        cache_creation_input_tokens,
        uncached_input_tokens,
    }
}

} // verus!
