//! What a lookup finds, what it leaves in the cache, and what it reports.

use crate::lookup::{
    entry_key, expiry, find_back, find_hit, is_cached, largest, lemma_find_back, lookback_start,
    lookup, plan_key, refreshed, written,
};
use crate::path::{BreakpointView, PrefixView};
use crate::plan::PlanView;
use crate::store::{live, CacheEntry};
use vstd::prelude::*;

verus! {

/// The key of an entry is `cache:`, the key of the caller, a colon and the hash of the prefix.
pub proof fn law_entry_key(api_key: Seq<char>, hash: Seq<char>)
    ensures
        entry_key(api_key, hash) == seq!['c', 'a', 'c', 'h', 'e', ':'] + api_key + seq![':'] + hash,
{
    reveal_strlit("cache:");
    reveal_strlit(":");
    assert("cache:"@ =~= seq!['c', 'a', 'c', 'h', 'e', ':']);
    assert(":"@ =~= seq![':']);
}

/// Of the entries those stay that expire later than now.
pub proof fn law_live_entries(entries: Map<Seq<char>, CacheEntry>, now: u128, key: Seq<char>)
    ensures
        live(entries, now).contains_key(key) <==> entries.contains_key(key)
            && entries[key].expires_at > now,
        live(entries, now).contains_key(key) ==> live(entries, now)[key] == entries[key],
{
}

/// The plan's prefix `i` has an entry that has not expired.
pub open spec fn is_live(
    entries: Map<Seq<char>, CacheEntry>,
    plan: PlanView,
    now: u128,
    i: int,
) -> bool {
    let key = entry_key(plan.api_key, plan.prefixes[i].hash);
    entries.contains_key(key) && entries[key].expires_at > now
}

/// The search from breakpoint `at` comes by prefix `i`: it is the breakpoint's own prefix, or one
/// of the 20 before it.
pub open spec fn reaches(plan: PlanView, at: int, i: int) -> bool {
    &&& 0 <= i
    &&& plan.breakpoints[at].prefix_index - 20 <= i
    &&& i <= plan.breakpoints[at].prefix_index
}

/// The lookup finds prefix `i` from breakpoint `at`: the prefix is live, none of those behind it
/// that the breakpoint reaches is, and none is that a later breakpoint reaches.
pub open spec fn is_found(
    entries: Map<Seq<char>, CacheEntry>,
    plan: PlanView,
    now: u128,
    at: int,
    i: int,
) -> bool {
    &&& 0 <= at < plan.breakpoints.len()
    &&& reaches(plan, at, i)
    &&& is_live(entries, plan, now, i)
    &&& forall|j: int| i < j && reaches(plan, at, j) ==> !#[trigger] is_live(entries, plan, now, j)
    &&& forall|later: int, j: int|
        at < later < plan.breakpoints.len() && #[trigger] reaches(plan, later, j) ==> !is_live(
            entries,
            plan,
            now,
            j,
        )
}

/// No breakpoint reaches a prefix that is live.
pub open spec fn finds_nothing(
    entries: Map<Seq<char>, CacheEntry>,
    plan: PlanView,
    now: u128,
) -> bool {
    forall|at: int, j: int|
        0 <= at < plan.breakpoints.len() && #[trigger] reaches(plan, at, j) ==> !is_live(
            entries,
            plan,
            now,
            j,
        )
}

/// The plan has something to look up, and each breakpoint stands at a prefix.
pub open spec fn is_looked_up(plan: PlanView) -> bool {
    &&& plan.prefixes.len() > 0
    &&& plan.breakpoints.len() > 0
    &&& forall|at: int|
        0 <= at < plan.breakpoints.len() ==> 0 <= (#[trigger] plan.breakpoints[at]).prefix_index
            < plan.prefixes.len()
}

proof fn lemma_live(entries: Map<Seq<char>, CacheEntry>, plan: PlanView, now: u128, i: int)
    ensures
        is_cached(live(entries, now), plan.api_key, plan.prefixes[i]) == is_live(
            entries,
            plan,
            now,
            i,
        ),
        is_live(entries, plan, now, i) ==> live(entries, now)[plan_key(plan, i)]
            == entries[plan_key(plan, i)],
{
}

/// What the search from a breakpoint finds, is the last live prefix that it reaches.
proof fn lemma_search(
    entries: Map<Seq<char>, CacheEntry>,
    plan: PlanView,
    now: u128,
    at: int,
)
    requires
        0 <= at < plan.breakpoints.len(),
    ensures
        match find_back(
            live(entries, now),
            plan.api_key,
            plan.prefixes,
            lookback_start(plan.breakpoints[at]),
            plan.breakpoints[at].prefix_index,
        ) {
            Some(i) => reaches(plan, at, i) && is_live(entries, plan, now, i) && forall|j: int|
                i < j && reaches(plan, at, j) ==> !#[trigger] is_live(entries, plan, now, j),
            None => forall|j: int|
                reaches(plan, at, j) ==> !#[trigger] is_live(entries, plan, now, j),
        },
{
    let current = live(entries, now);
    let low = lookback_start(plan.breakpoints[at]);
    let high = plan.breakpoints[at].prefix_index;
    lemma_find_back(current, plan.api_key, plan.prefixes, low, high);
    match find_back(current, plan.api_key, plan.prefixes, low, high) {
        Some(i) => {
            lemma_live(entries, plan, now, i);
            assert forall|j: int| i < j && reaches(plan, at, j) implies !#[trigger] is_live(
                entries,
                plan,
                now,
                j,
            ) by {
                lemma_live(entries, plan, now, j);
                assert(!is_cached(current, plan.api_key, plan.prefixes[j]));
            }
        },
        None => {
            assert forall|j: int| reaches(plan, at, j) implies !#[trigger] is_live(
                entries,
                plan,
                now,
                j,
            ) by {
                lemma_live(entries, plan, now, j);
                assert(!is_cached(current, plan.api_key, plan.prefixes[j]));
            }
        },
    }
}

proof fn lemma_search_all(
    entries: Map<Seq<char>, CacheEntry>,
    plan: PlanView,
    now: u128,
    upto: int,
) -> (at: int)
    requires
        0 <= upto <= plan.breakpoints.len(),
        forall|later: int, j: int|
            upto <= later < plan.breakpoints.len() && #[trigger] reaches(plan, later, j)
                ==> !is_live(entries, plan, now, j),
    ensures
        match find_hit(
            live(entries, now),
            plan.api_key,
            plan.prefixes,
            plan.breakpoints.take(upto),
        ) {
            Some(hit) => is_found(entries, plan, now, at, hit.prefix_index) && hit.ttl_secs
                == plan.breakpoints[at].ttl_secs,
            None => finds_nothing(entries, plan, now),
        },
    decreases upto,
{
    let taken = plan.breakpoints.take(upto);
    if upto == 0 {
        0
    } else {
        let at = upto - 1;
        assert(taken.last() == plan.breakpoints[at]);
        assert(taken.drop_last() =~= plan.breakpoints.take(at));
        lemma_search(entries, plan, now, at);
        let found = find_back(
            live(entries, now),
            plan.api_key,
            plan.prefixes,
            lookback_start(plan.breakpoints[at]),
            plan.breakpoints[at].prefix_index,
        );
        if found is Some {
            at
        } else {
            assert forall|later: int, j: int|
                at <= later < plan.breakpoints.len() && #[trigger] reaches(
                    plan,
                    later,
                    j,
                ) implies !is_live(entries, plan, now, j) by {
                if later == at {
                    assert(!is_live(entries, plan, now, j));
                }
            }
            lemma_search_all(entries, plan, now, at)
        }
    }
}

/// Only one prefix is found, and only from one breakpoint.
proof fn lemma_found_once(
    entries: Map<Seq<char>, CacheEntry>,
    plan: PlanView,
    now: u128,
    at: int,
    i: int,
    other_at: int,
    other: int,
)
    requires
        is_found(entries, plan, now, at, i),
        is_found(entries, plan, now, other_at, other),
    ensures
        at == other_at,
        i == other,
{
    assert(reaches(plan, at, i) && reaches(plan, other_at, other));
    assert(is_live(entries, plan, now, i) && is_live(entries, plan, now, other));
}

/// What the lookup of a plan finds.
proof fn lemma_hit(
    entries: Map<Seq<char>, CacheEntry>,
    plan: PlanView,
    now: u128,
    at: int,
    i: int,
)
    ensures
        is_found(entries, plan, now, at, i) ==> {
            let hit = find_hit(
                live(entries, now),
                plan.api_key,
                plan.prefixes,
                plan.breakpoints,
            );
            &&& hit is Some
            &&& hit->0.prefix_index == i
            &&& hit->0.ttl_secs == plan.breakpoints[at].ttl_secs
        },
        finds_nothing(entries, plan, now) ==> find_hit(
            live(entries, now),
            plan.api_key,
            plan.prefixes,
            plan.breakpoints,
        ) is None,
{
    let hit = find_hit(live(entries, now), plan.api_key, plan.prefixes, plan.breakpoints);
    let found_at = lemma_search_all(entries, plan, now, plan.breakpoints.len() as int);
    assert(plan.breakpoints.take(plan.breakpoints.len() as int) =~= plan.breakpoints);
    if is_found(entries, plan, now, at, i) {
        assert(reaches(plan, at, i));
        assert(is_live(entries, plan, now, i));
        if hit is Some {
            lemma_found_once(entries, plan, now, at, i, found_at, hit->0.prefix_index);
        }
    }
    if finds_nothing(entries, plan, now) && hit is Some {
        assert(reaches(plan, found_at, hit->0.prefix_index));
    }
}

/// A lookup reads the tokens of the prefix that it finds: the last live one that is reached from
/// the last breakpoint from which a live one is.
pub proof fn law_reads_what_is_found(
    entries: Map<Seq<char>, CacheEntry>,
    plan: PlanView,
    now: u128,
    at: int,
    i: int,
)
    requires
        is_looked_up(plan),
        is_found(entries, plan, now, at, i),
    ensures
        lookup(entries, plan, now).read == entries[entry_key(
            plan.api_key,
            plan.prefixes[i].hash,
        )].tokens,
{
    lemma_hit(entries, plan, now, at, i);
    lemma_live(entries, plan, now, i);
}

/// A lookup reads nothing where no breakpoint reaches a live prefix.
pub proof fn law_reads_nothing_where_nothing_is_live(
    entries: Map<Seq<char>, CacheEntry>,
    plan: PlanView,
    now: u128,
)
    requires
        finds_nothing(entries, plan, now),
    ensures
        lookup(entries, plan, now).read == 0,
{
    lemma_hit(entries, plan, now, 0, 0);
}

/// A lookup finds something or nothing: where any breakpoint reaches a live prefix, one is found.
pub proof fn law_something_or_nothing_is_found(
    entries: Map<Seq<char>, CacheEntry>,
    plan: PlanView,
    now: u128,
)
    ensures
        finds_nothing(entries, plan, now) || exists|at: int, i: int|
            #[trigger] is_found(entries, plan, now, at, i),
{
    let at = lemma_search_all(entries, plan, now, plan.breakpoints.len() as int);
    let hit = find_hit(
        live(entries, now),
        plan.api_key,
        plan.prefixes,
        plan.breakpoints.take(plan.breakpoints.len() as int),
    );
    if hit is Some {
        assert(is_found(entries, plan, now, at, hit->0.prefix_index));
    }
}

/// Where all entries have tokens, a lookup reads something as soon as any of its breakpoints
/// reaches a live prefix.
pub proof fn law_every_breakpoint_is_searched_from(
    entries: Map<Seq<char>, CacheEntry>,
    plan: PlanView,
    now: u128,
    at: int,
    i: int,
)
    requires
        is_looked_up(plan),
        all_have_tokens(entries),
        0 <= at < plan.breakpoints.len(),
        reaches(plan, at, i),
        is_live(entries, plan, now, i),
    ensures
        lookup(entries, plan, now).read > 0,
{
    law_something_or_nothing_is_found(entries, plan, now);
    assert(!finds_nothing(entries, plan, now));
    let (found_at, found) = choose|a: int, f: int| #[trigger] is_found(entries, plan, now, a, f);
    law_reads_what_is_found(entries, plan, now, found_at, found);
    assert(is_live(entries, plan, now, found));
}

proof fn lemma_largest(prefixes: Seq<PrefixView>, breakpoints: Seq<BreakpointView>, read: int)
    ensures
        largest(prefixes, breakpoints, read) >= read,
        forall|at: int|
            0 <= at < breakpoints.len() ==> prefixes[(
            #[trigger] breakpoints[at]).prefix_index].tokens <= largest(
                prefixes,
                breakpoints,
                read,
            ),
        largest(prefixes, breakpoints, read) == read || exists|at: int|
            0 <= at < breakpoints.len() && prefixes[(
            #[trigger] breakpoints[at]).prefix_index].tokens == largest(
                prefixes,
                breakpoints,
                read,
            ),
    decreases breakpoints.len(),
{
    if breakpoints.len() > 0 {
        let earlier = breakpoints.drop_last();
        let last = breakpoints.len() - 1;
        lemma_largest(prefixes, earlier, read);
        let before = largest(prefixes, earlier, read);
        assert(forall|i: int| 0 <= i < earlier.len() ==> #[trigger] earlier[i] == breakpoints[i]);
        assert forall|at: int| 0 <= at < breakpoints.len() implies prefixes[(
        #[trigger] breakpoints[at]).prefix_index].tokens <= largest(
            prefixes,
            breakpoints,
            read,
        ) by {
            if at < last {
                assert(prefixes[earlier[at].prefix_index].tokens <= before);
            }
        }
        if prefixes[breakpoints[last].prefix_index].tokens <= before && before != read {
            let at = choose|at: int|
                0 <= at < earlier.len() && prefixes[(
                #[trigger] earlier[at]).prefix_index].tokens == before;
            assert(prefixes[breakpoints[at].prefix_index].tokens == before);
        }
    }
}

/// What a lookup reads and writes together is what it reads, or the tokens of the largest prefix
/// at a breakpoint where that is more; what the request has beyond that is uncached.
pub proof fn law_outcome(entries: Map<Seq<char>, CacheEntry>, plan: PlanView, now: u128)
    requires
        is_looked_up(plan),
    ensures
        ({
            let outcome = lookup(entries, plan, now);
            let cached = outcome.read + outcome.creation;
            &&& outcome.creation >= 0
            &&& forall|at: int|
                0 <= at < plan.breakpoints.len() ==> plan.prefixes[(
                #[trigger] plan.breakpoints[at]).prefix_index].tokens <= cached
            &&& outcome.creation > 0 ==> exists|at: int|
                0 <= at < plan.breakpoints.len() && plan.prefixes[(
                #[trigger] plan.breakpoints[at]).prefix_index].tokens == cached
            &&& plan.total_input_tokens >= cached ==> outcome.uncached == plan.total_input_tokens
                - cached
            &&& plan.total_input_tokens < cached ==> outcome.uncached == 0
        }),
{
    lemma_largest(plan.prefixes, plan.breakpoints, lookup(entries, plan, now).read);
}

/// A plan without prefixes or without breakpoints reads and writes nothing, leaves the cache
/// alone, and has all its tokens uncached.
pub proof fn law_nothing_to_look_up(
    entries: Map<Seq<char>, CacheEntry>,
    plan: PlanView,
    now: u128,
)
    requires
        plan.prefixes.len() == 0 || plan.breakpoints.len() == 0,
    ensures
        lookup(entries, plan, now).entries == entries,
        lookup(entries, plan, now).read == 0,
        lookup(entries, plan, now).creation == 0,
        lookup(entries, plan, now).uncached == plan.total_input_tokens,
{
}

/// Breakpoint `at` writes an entry with this key: its prefix has more tokens than were read.
pub open spec fn writes(plan: PlanView, read: int, at: int, key: Seq<char>) -> bool {
    &&& 0 <= at < plan.breakpoints.len()
    &&& plan.prefixes[plan.breakpoints[at].prefix_index].tokens > read
    &&& entry_key(plan.api_key, plan.prefixes[plan.breakpoints[at].prefix_index].hash) == key
}

proof fn lemma_written(
    entries: Map<Seq<char>, CacheEntry>,
    plan: PlanView,
    read: int,
    now: u128,
    key: Seq<char>,
    upto: int,
)
    requires
        0 <= upto <= plan.breakpoints.len(),
    ensures
        ({
            let after = written(entries, plan, plan.breakpoints.take(upto), read, now);
            &&& (forall|at: int| 0 <= at < upto ==> !#[trigger] writes(plan, read, at, key)) ==> {
                &&& after.contains_key(key) == entries.contains_key(key)
                &&& entries.contains_key(key) ==> after[key] == entries[key]
            }
            &&& forall|at: int|
                0 <= at < upto && #[trigger] writes(plan, read, at, key) && (forall|later: int|
                    at < later < upto ==> !#[trigger] writes(plan, read, later, key)) ==> {
                    &&& after.contains_key(key)
                    &&& after[key].tokens
                        == plan.prefixes[plan.breakpoints[at].prefix_index].tokens as i32
                    &&& after[key].expires_at == expiry(now, plan.breakpoints[at].ttl_secs)
                }
        }),
    decreases upto,
{
    let taken = plan.breakpoints.take(upto);
    if upto > 0 {
        let last = upto - 1;
        assert(taken.drop_last() =~= plan.breakpoints.take(last));
        assert(taken.last() == plan.breakpoints[last]);
        lemma_written(entries, plan, read, now, key, last);
        let before = written(entries, plan, plan.breakpoints.take(last), read, now);
        let after = written(entries, plan, taken, read, now);
        if !writes(plan, read, last, key) {
            assert(after.contains_key(key) == before.contains_key(key));
            assert(before.contains_key(key) ==> after[key] == before[key]);
        }
        assert forall|at: int|
            0 <= at < upto && #[trigger] writes(plan, read, at, key) && (forall|later: int|
                at < later < upto ==> !#[trigger] writes(plan, read, later, key)) implies {
            &&& after.contains_key(key)
            &&& after[key].tokens
                == plan.prefixes[plan.breakpoints[at].prefix_index].tokens as i32
            &&& after[key].expires_at == expiry(now, plan.breakpoints[at].ttl_secs)
        } by {
            if at < last {
                assert(!writes(plan, read, last, key));
                assert forall|later: int| at < later < last implies !#[trigger] writes(
                    plan,
                    read,
                    later,
                    key,
                ) by {}
            }
        }
        if forall|at: int| 0 <= at < upto ==> !#[trigger] writes(plan, read, at, key) {
            assert(!writes(plan, read, last, key));
            assert forall|at: int| 0 <= at < last implies !#[trigger] writes(
                plan,
                read,
                at,
                key,
            ) by {}
        }
    }
}

/// A lookup leaves an entry for each breakpoint whose prefix has more tokens than were read: with
/// the tokens of the prefix, and as long as the breakpoint asks. Of several breakpoints at
/// prefixes of one hash the last one counts.
pub proof fn law_breakpoints_are_written(
    entries: Map<Seq<char>, CacheEntry>,
    plan: PlanView,
    now: u128,
    at: int,
    key: Seq<char>,
)
    requires
        is_looked_up(plan),
        writes(plan, lookup(entries, plan, now).read, at, key),
        forall|later: int|
            at < later < plan.breakpoints.len() ==> !#[trigger] writes(
                plan,
                lookup(entries, plan, now).read,
                later,
                key,
            ),
        i32::MIN <= plan.prefixes[plan.breakpoints[at].prefix_index].tokens <= i32::MAX,
        0 <= plan.breakpoints[at].ttl_secs <= u64::MAX,
        now < 0x1_0000_0000_0000_0000_0000_0000,
    ensures
        ({
            let after = lookup(entries, plan, now).entries;
            &&& after.contains_key(key)
            &&& after[key].tokens == plan.prefixes[plan.breakpoints[at].prefix_index].tokens
            &&& after[key].expires_at == now + plan.breakpoints[at].ttl_secs * 1_000_000_000
        }),
{
    let current = live(entries, now);
    let hit = find_hit(current, plan.api_key, plan.prefixes, plan.breakpoints);
    let read = lookup(entries, plan, now).read;
    assert(plan.breakpoints.take(plan.breakpoints.len() as int) =~= plan.breakpoints);
    lemma_written(
        refreshed(current, plan, hit, now),
        plan,
        read,
        now,
        key,
        plan.breakpoints.len() as int,
    );
}

/// The entry that a lookup finds keeps its tokens and stays from now on as long as the breakpoint
/// asks from which it was found, unless it is written anew.
pub proof fn law_found_entry_is_refreshed(
    entries: Map<Seq<char>, CacheEntry>,
    plan: PlanView,
    now: u128,
    at: int,
    i: int,
    key: Seq<char>,
)
    requires
        is_looked_up(plan),
        is_found(entries, plan, now, at, i),
        key == entry_key(plan.api_key, plan.prefixes[i].hash),
        forall|other: int|
            !#[trigger] writes(plan, lookup(entries, plan, now).read, other, key),
        0 <= plan.breakpoints[at].ttl_secs <= u64::MAX,
        now < 0x1_0000_0000_0000_0000_0000_0000,
    ensures
        ({
            let after = lookup(entries, plan, now).entries;
            &&& after.contains_key(key)
            &&& after[key].tokens == entries[key].tokens
            &&& after[key].expires_at == now + plan.breakpoints[at].ttl_secs * 1_000_000_000
        }),
{
    let current = live(entries, now);
    let hit = find_hit(current, plan.api_key, plan.prefixes, plan.breakpoints);
    let read = lookup(entries, plan, now).read;
    lemma_hit(entries, plan, now, at, i);
    lemma_live(entries, plan, now, i);
    assert(plan.breakpoints.take(plan.breakpoints.len() as int) =~= plan.breakpoints);
    lemma_written(
        refreshed(current, plan, hit, now),
        plan,
        read,
        now,
        key,
        plan.breakpoints.len() as int,
    );
}

/// An entry that is neither found nor written stays as it is if it has not expired, and is dropped
/// if it has; and no other entry appears.
pub proof fn law_other_entries_stay_until_they_expire(
    entries: Map<Seq<char>, CacheEntry>,
    plan: PlanView,
    now: u128,
    key: Seq<char>,
)
    requires
        is_looked_up(plan),
        forall|at: int| !#[trigger] writes(plan, lookup(entries, plan, now).read, at, key),
        forall|at: int, i: int|
            #[trigger] is_found(entries, plan, now, at, i) ==> entry_key(
                plan.api_key,
                plan.prefixes[i].hash,
            ) != key,
    ensures
        ({
            let after = lookup(entries, plan, now).entries;
            &&& after.contains_key(key) <==> entries.contains_key(key) && entries[key].expires_at
                > now
            &&& after.contains_key(key) ==> after[key] == entries[key]
        }),
{
    let current = live(entries, now);
    let hit = find_hit(current, plan.api_key, plan.prefixes, plan.breakpoints);
    let read = lookup(entries, plan, now).read;
    assert(plan.breakpoints.take(plan.breakpoints.len() as int) =~= plan.breakpoints);
    let found_at = lemma_search_all(entries, plan, now, plan.breakpoints.len() as int);
    if hit is Some {
        assert(is_found(entries, plan, now, found_at, hit->0.prefix_index));
    }
    lemma_written(
        refreshed(current, plan, hit, now),
        plan,
        read,
        now,
        key,
        plan.breakpoints.len() as int,
    );
}

/// All entries have tokens.
pub open spec fn all_have_tokens(entries: Map<Seq<char>, CacheEntry>) -> bool {
    forall|key: Seq<char>| #[trigger] entries.contains_key(key) ==> entries[key].tokens > 0
}

proof fn lemma_written_have_tokens(
    entries: Map<Seq<char>, CacheEntry>,
    plan: PlanView,
    breakpoints: Seq<BreakpointView>,
    read: int,
    now: u128,
)
    requires
        all_have_tokens(entries),
        read >= 0,
        forall|at: int|
            0 <= at < breakpoints.len() ==> plan.prefixes[(
            #[trigger] breakpoints[at]).prefix_index].tokens <= i32::MAX,
    ensures
        all_have_tokens(written(entries, plan, breakpoints, read, now)),
    decreases breakpoints.len(),
{
    if breakpoints.len() > 0 {
        let earlier = breakpoints.drop_last();
        let last = breakpoints.len() - 1;
        assert(forall|i: int| 0 <= i < earlier.len() ==> #[trigger] earlier[i] == breakpoints[i]);
        assert(plan.prefixes[breakpoints[last].prefix_index].tokens <= i32::MAX);
        lemma_written_have_tokens(entries, plan, earlier, read, now);
    }
}

/// Lookups leave only entries that have tokens, if there were no others before.
pub proof fn law_entries_have_tokens(
    entries: Map<Seq<char>, CacheEntry>,
    plan: PlanView,
    now: u128,
)
    requires
        is_looked_up(plan),
        all_have_tokens(entries),
        forall|i: int|
            0 <= i < plan.prefixes.len() ==> (#[trigger] plan.prefixes[i]).tokens <= i32::MAX,
    ensures
        all_have_tokens(lookup(entries, plan, now).entries),
{
    let current = live(entries, now);
    let hit = find_hit(current, plan.api_key, plan.prefixes, plan.breakpoints);
    let read = lookup(entries, plan, now).read;
    let found_at = lemma_search_all(entries, plan, now, plan.breakpoints.len() as int);
    assert(plan.breakpoints.take(plan.breakpoints.len() as int) =~= plan.breakpoints);
    assert(all_have_tokens(current)) by {
        assert forall|key: Seq<char>| #[trigger] current.contains_key(key) implies current[key].tokens
            > 0 by {
            assert(entries.contains_key(key));
        }
    }
    if let Some(found) = hit {
        assert(is_live(entries, plan, now, found.prefix_index));
        assert(current.contains_key(plan_key(plan, found.prefix_index)));
    }
    assert(all_have_tokens(refreshed(current, plan, hit, now)));
    lemma_written_have_tokens(
        refreshed(current, plan, hit, now),
        plan,
        plan.breakpoints,
        read,
        now,
    );
}

} // verus!
