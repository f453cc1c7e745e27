//! What holds of lookups, whatever the cache and the plan.

use crate::lookup::{
    entry_key, expiry, find_back, find_hit, hit_tokens, is_cached, largest, lemma_find_back,
    lemma_find_hit, lookback_start, lookup, plan_key, refreshed, written, Hit,
};
use crate::path::{hashes_formed, is_hash, BreakpointView, PrefixView};
use crate::plan::{breakpoints_placed, tokens_rise, CachePlan, PlanView};
use crate::store::{entries_wf, live, CacheEntry};
use vstd::prelude::*;

verus! {

/// The larger of two numbers.
pub open spec fn max(left: int, right: int) -> int {
    if left > right {
        left
    } else {
        right
    }
}

/// The breakpoints stand at prefixes, none before the one that comes before it.
pub open spec fn breakpoints_in_order(breakpoints: Seq<BreakpointView>, prefixes: nat) -> bool {
    &&& breakpoints_placed(breakpoints, prefixes)
    &&& forall|i: int, j: int|
        #![trigger breakpoints[i], breakpoints[j]]
        0 <= i <= j < breakpoints.len() ==> breakpoints[i].prefix_index
            <= breakpoints[j].prefix_index
}

/// The tokens of a plan's last breakpoint.
pub open spec fn last_tokens(plan: PlanView) -> int {
    plan.prefixes[plan.breakpoints.last().prefix_index].tokens
}

proof fn lemma_largest(prefixes: Seq<PrefixView>, breakpoints: Seq<BreakpointView>, read: int)
    requires
        tokens_rise(prefixes),
        breakpoints_in_order(breakpoints, prefixes.len()),
    ensures
        breakpoints.len() == 0 ==> largest(prefixes, breakpoints, read) == read,
        breakpoints.len() > 0 ==> largest(prefixes, breakpoints, read) == max(
            read,
            prefixes[breakpoints.last().prefix_index].tokens,
        ),
    decreases breakpoints.len(),
{
    if breakpoints.len() > 0 {
        let earlier = breakpoints.drop_last();
        assert(forall|i: int| 0 <= i < earlier.len() ==> #[trigger] earlier[i] == breakpoints[i]);
        lemma_largest(prefixes, earlier, read);
        let last = breakpoints.last().prefix_index;
        assert(breakpoints[breakpoints.len() - 1].prefix_index == last);
        if earlier.len() > 0 {
            let before = earlier.last().prefix_index;
            assert(earlier[earlier.len() - 1].prefix_index == before);
            assert(before <= last);
            assert(prefixes[before].tokens <= prefixes[last].tokens);
        }
    }
}

proof fn lemma_largest_grows(
    prefixes: Seq<PrefixView>,
    breakpoints: Seq<BreakpointView>,
    read: int,
)
    ensures
        largest(prefixes, breakpoints, read) >= read,
    decreases breakpoints.len(),
{
    if breakpoints.len() > 0 {
        lemma_largest_grows(prefixes, breakpoints.drop_last(), read);
    }
}

/// No part of an outcome is negative, and the parts make up the tokens of the request, or of
/// what is cached where that is more.
pub proof fn law_tokens_are_accounted_for(
    entries: Map<Seq<char>, CacheEntry>,
    plan: PlanView,
    now: u128,
)
    requires
        entries_wf(entries),
        plan.searchable(),
        plan.total_input_tokens >= 0,
    ensures
        ({
            let outcome = lookup(entries, plan, now);
            &&& outcome.read >= 0
            &&& outcome.creation >= 0
            &&& outcome.uncached >= 0
            &&& outcome.read + outcome.creation + outcome.uncached == max(
                plan.total_input_tokens,
                outcome.read + outcome.creation,
            )
        }),
{
    if plan.prefixes.len() > 0 && plan.breakpoints.len() > 0 {
        let current = live(entries, now);
        let hit = find_hit(current, plan.api_key, plan.prefixes, plan.breakpoints);
        lemma_find_hit(current, plan.api_key, plan.prefixes, plan.breakpoints);
        lemma_largest_grows(plan.prefixes, plan.breakpoints, hit_tokens(current, plan, hit));
    }
}

/// A lookup that finds something finds it in an entry of a prefix of the plan itself, within
/// the lookback of a breakpoint, that has not expired.
pub proof fn law_what_is_read_is_alive(
    entries: Map<Seq<char>, CacheEntry>,
    plan: PlanView,
    now: u128,
)
    requires
        plan.searchable(),
        lookup(entries, plan, now).read != 0,
    ensures
        exists|at: int, found: int|
            #![trigger plan.breakpoints[at], plan.prefixes[found]]
            {
                &&& 0 <= at < plan.breakpoints.len()
                &&& lookback_start(plan.breakpoints[at]) <= found
                    <= plan.breakpoints[at].prefix_index
                &&& is_cached(entries, plan.api_key, plan.prefixes[found])
                &&& entries[plan_key(plan, found)].expires_at > now
                &&& entries[plan_key(plan, found)].tokens == lookup(entries, plan, now).read
            },
{
    let current = live(entries, now);
    let hit = find_hit(current, plan.api_key, plan.prefixes, plan.breakpoints);
    lemma_find_hit(current, plan.api_key, plan.prefixes, plan.breakpoints);
    let at = lemma_hit_place(current, plan.api_key, plan.prefixes, plan.breakpoints);
    assert(plan.breakpoints[at] == plan.breakpoints[at]);
    assert(is_cached(entries, plan.api_key, plan.prefixes[hit->0.prefix_index]));
}

/// A hit lies within the lookback of a breakpoint.
proof fn lemma_hit_place(
    entries: Map<Seq<char>, CacheEntry>,
    api_key: Seq<char>,
    prefixes: Seq<PrefixView>,
    breakpoints: Seq<BreakpointView>,
) -> (at: int)
    requires
        find_hit(entries, api_key, prefixes, breakpoints) is Some,
    ensures
        0 <= at < breakpoints.len(),
        lookback_start(breakpoints[at]) <= find_hit(
            entries,
            api_key,
            prefixes,
            breakpoints,
        )->0.prefix_index <= breakpoints[at].prefix_index,
        find_hit(entries, api_key, prefixes, breakpoints)->0.ttl_secs == breakpoints[at].ttl_secs,
    decreases breakpoints.len(),
{
    let breakpoint = breakpoints.last();
    let low = lookback_start(breakpoint);
    lemma_find_back(entries, api_key, prefixes, low, breakpoint.prefix_index);
    if find_back(entries, api_key, prefixes, low, breakpoint.prefix_index) is Some {
        breakpoints.len() - 1
    } else {
        lemma_hit_place(entries, api_key, prefixes, breakpoints.drop_last())
    }
}

/// With fewer entries, but the one that was found still there, the same is found.
proof fn lemma_find_back_again(
    entries: Map<Seq<char>, CacheEntry>,
    fewer: Map<Seq<char>, CacheEntry>,
    api_key: Seq<char>,
    prefixes: Seq<PrefixView>,
    low: int,
    high: int,
)
    requires
        forall|key: Seq<char>| #[trigger] fewer.contains_key(key) ==> entries.contains_key(key),
        find_back(entries, api_key, prefixes, low, high) matches Some(found) ==> is_cached(
            fewer,
            api_key,
            prefixes[found],
        ),
    ensures
        find_back(fewer, api_key, prefixes, low, high) == find_back(
            entries,
            api_key,
            prefixes,
            low,
            high,
        ),
    decreases high - low + 1,
{
    if low <= high && !is_cached(entries, api_key, prefixes[high]) {
        assert(!is_cached(fewer, api_key, prefixes[high]));
        lemma_find_back_again(entries, fewer, api_key, prefixes, low, high - 1);
    }
}

proof fn lemma_find_hit_again(
    entries: Map<Seq<char>, CacheEntry>,
    fewer: Map<Seq<char>, CacheEntry>,
    api_key: Seq<char>,
    prefixes: Seq<PrefixView>,
    breakpoints: Seq<BreakpointView>,
)
    requires
        forall|key: Seq<char>| #[trigger] fewer.contains_key(key) ==> entries.contains_key(key),
        find_hit(entries, api_key, prefixes, breakpoints) matches Some(hit) ==> is_cached(
            fewer,
            api_key,
            prefixes[hit.prefix_index],
        ),
    ensures
        find_hit(fewer, api_key, prefixes, breakpoints) == find_hit(
            entries,
            api_key,
            prefixes,
            breakpoints,
        ),
    decreases breakpoints.len(),
{
    if breakpoints.len() > 0 {
        let breakpoint = breakpoints.last();
        let low = lookback_start(breakpoint);
        lemma_find_back_again(entries, fewer, api_key, prefixes, low, breakpoint.prefix_index);
        if find_back(entries, api_key, prefixes, low, breakpoint.prefix_index) is None {
            lemma_find_hit_again(entries, fewer, api_key, prefixes, breakpoints.drop_last());
        }
    }
}

/// Where no prefix of a breakpoint has more tokens than were found, nothing is written.
proof fn lemma_nothing_written(
    entries: Map<Seq<char>, CacheEntry>,
    plan: PlanView,
    breakpoints: Seq<BreakpointView>,
    read: int,
    now: u128,
)
    requires
        tokens_rise(plan.prefixes),
        breakpoints_in_order(breakpoints, plan.prefixes.len()),
        breakpoints.len() > 0 ==> plan.prefixes[breakpoints.last().prefix_index].tokens <= read,
    ensures
        written(entries, plan, breakpoints, read, now) == entries,
    decreases breakpoints.len(),
{
    if breakpoints.len() > 0 {
        let earlier = breakpoints.drop_last();
        assert(forall|i: int| 0 <= i < earlier.len() ==> #[trigger] earlier[i] == breakpoints[i]);
        if earlier.len() > 0 {
            let last = breakpoints[breakpoints.len() - 1].prefix_index;
            let before = breakpoints[earlier.len() - 1].prefix_index;
            assert(before <= last);
            assert(plan.prefixes[before].tokens <= plan.prefixes[last].tokens);
        }
        lemma_nothing_written(entries, plan, earlier, read, now);
    }
}

/// A lookup that is made again before what the first left behind has expired finds all that
/// the first found or wrote, and writes nothing.
pub proof fn law_second_lookup_reads_what_the_first_left(
    entries: Map<Seq<char>, CacheEntry>,
    plan: CachePlan,
    first: u128,
    second: u128,
)
    requires
        entries_wf(entries),
        tokens_rise(plan@.prefixes),
        breakpoints_in_order(plan@.breakpoints, plan@.prefixes.len()),
        plan@.breakpoints.len() > 0,
        first <= second,
        forall|i: int|
            0 <= i < plan@.breakpoints.len() ==> second < expiry(
                first,
                (#[trigger] plan@.breakpoints[i]).ttl_secs,
            ),
    ensures
        ({
            let before = lookup(entries, plan@, first);
            let after = lookup(before.entries, plan@, second);
            &&& after.read == before.read + before.creation
            &&& after.read >= last_tokens(plan@)
            &&& after.creation == 0
            &&& after.uncached == before.uncached
        }),
{
    let view = plan@;
    let prefixes = view.prefixes;
    let breakpoints = view.breakpoints;
    let last = breakpoints.last();
    assert(breakpoints[breakpoints.len() - 1] == last);
    let current = live(entries, first);
    let hit = find_hit(current, view.api_key, prefixes, breakpoints);
    let read = hit_tokens(current, view, hit);
    lemma_find_hit(current, view.api_key, prefixes, breakpoints);
    lemma_largest(prefixes, breakpoints, read);
    let left = lookup(entries, view, first).entries;
    let later = live(left, second);
    assert(prefixes[last.prefix_index] == plan.prefixes@[last.prefix_index]@);
    if last_tokens(view) > read {
        let key = plan_key(view, last.prefix_index);
        assert(left.contains_key(key));
        assert(left[key].tokens == last_tokens(view));
        assert(left[key].expires_at == expiry(first, last.ttl_secs));
        assert(later.contains_key(key));
        assert(is_cached(later, view.api_key, prefixes[last.prefix_index]));
        let again = find_hit(later, view.api_key, prefixes, breakpoints);
        assert(again == Some(
            Hit { prefix_index: last.prefix_index, ttl_secs: last.ttl_secs },
        ));
        lemma_largest(prefixes, breakpoints, last_tokens(view));
    } else {
        lemma_nothing_written(refreshed(current, view, hit, first), view, breakpoints, read, first);
        assert(left == refreshed(current, view, hit, first));
        if hit is Some {
            let at = lemma_hit_place(current, view.api_key, prefixes, breakpoints);
            let key = plan_key(view, hit->0.prefix_index);
            assert(second < expiry(first, breakpoints[at].ttl_secs));
            assert(later.contains_key(key));
        }
        lemma_find_hit_again(current, later, view.api_key, prefixes, breakpoints);
    }
}

/// Keys of entries are different where the keys of the requests or the hashes are.
pub proof fn law_entry_keys_do_not_collide(
    left_key: Seq<char>,
    left_hash: Seq<char>,
    right_key: Seq<char>,
    right_hash: Seq<char>,
)
    requires
        is_hash(left_hash),
        is_hash(right_hash),
        entry_key(left_key, left_hash) == entry_key(right_key, right_hash),
    ensures
        left_key == right_key,
        left_hash == right_hash,
{
    reveal_strlit("cache:");
    reveal_strlit(":");
    let left = entry_key(left_key, left_hash);
    let right = entry_key(right_key, right_hash);
    assert(left.len() == 71 + left_key.len());
    assert(right.len() == 71 + right_key.len());
    let len = left_key.len() as int;
    assert(left.subrange(6, 6 + len) =~= left_key);
    assert(right.subrange(6, 6 + len) =~= right_key);
    assert(left.subrange(7 + len, 71 + len) =~= left_hash);
    assert(right.subrange(7 + len, 71 + len) =~= right_hash);
}

proof fn lemma_written_elsewhere(
    entries: Map<Seq<char>, CacheEntry>,
    plan: PlanView,
    breakpoints: Seq<BreakpointView>,
    read: int,
    now: u128,
    key: Seq<char>,
)
    requires
        forall|i: int|
            0 <= i < breakpoints.len() ==> plan_key(
                plan,
                (#[trigger] breakpoints[i]).prefix_index,
            ) != key,
    ensures
        written(entries, plan, breakpoints, read, now).contains_key(key) == entries.contains_key(
            key,
        ),
        entries.contains_key(key) ==> written(entries, plan, breakpoints, read, now)[key]
            == entries[key],
    decreases breakpoints.len(),
{
    if breakpoints.len() > 0 {
        let earlier = breakpoints.drop_last();
        assert(forall|i: int| 0 <= i < earlier.len() ==> #[trigger] earlier[i] == breakpoints[i]);
        assert(plan_key(plan, breakpoints[breakpoints.len() - 1].prefix_index) != key);
        lemma_written_elsewhere(entries, plan, earlier, read, now, key);
    }
}

/// A lookup neither adds nor changes entries of another key, and takes out only those that
/// have expired.
pub proof fn law_other_keys_entries_are_left_alone(
    entries: Map<Seq<char>, CacheEntry>,
    plan: PlanView,
    now: u128,
    other_key: Seq<char>,
    hash: Seq<char>,
)
    requires
        plan.searchable(),
        hashes_formed(plan.prefixes),
        other_key != plan.api_key,
        is_hash(hash),
    ensures
        ({
            let key = entry_key(other_key, hash);
            let after = lookup(entries, plan, now).entries;
            &&& after.contains_key(key) ==> entries.contains_key(key) && after[key]
                == entries[key]
            &&& entries.contains_key(key) && entries[key].expires_at > now
                ==> after.contains_key(key)
        }),
{
    let key = entry_key(other_key, hash);
    if plan.prefixes.len() > 0 {
        let current = live(entries, now);
        let hit = find_hit(current, plan.api_key, plan.prefixes, plan.breakpoints);
        let read = hit_tokens(current, plan, hit);
        lemma_find_hit(current, plan.api_key, plan.prefixes, plan.breakpoints);
        assert forall|i: int| 0 <= i < plan.prefixes.len() implies entry_key(
            plan.api_key,
            (#[trigger] plan.prefixes[i]).hash,
        ) != key by {
            if entry_key(plan.api_key, plan.prefixes[i].hash) == key {
                law_entry_keys_do_not_collide(plan.api_key, plan.prefixes[i].hash, other_key, hash);
            }
        }
        assert forall|i: int| 0 <= i < plan.breakpoints.len() implies plan_key(
            plan,
            (#[trigger] plan.breakpoints[i]).prefix_index,
        ) != key by {
            assert(plan.prefixes[plan.breakpoints[i].prefix_index].hash == plan.prefixes[
                plan.breakpoints[i].prefix_index].hash);
        }
        lemma_written_elsewhere(
            refreshed(current, plan, hit, now),
            plan,
            plan.breakpoints,
            read,
            now,
            key,
        );
    }
}

proof fn lemma_find_back_agrees(
    left: Map<Seq<char>, CacheEntry>,
    right: Map<Seq<char>, CacheEntry>,
    api_key: Seq<char>,
    prefixes: Seq<PrefixView>,
    low: int,
    high: int,
)
    requires
        0 <= low,
        high < prefixes.len(),
        forall|i: int|
            0 <= i < prefixes.len() ==> is_cached(left, api_key, #[trigger] prefixes[i])
                == is_cached(right, api_key, prefixes[i]),
    ensures
        find_back(left, api_key, prefixes, low, high) == find_back(
            right,
            api_key,
            prefixes,
            low,
            high,
        ),
    decreases high - low + 1,
{
    if low <= high {
        assert(is_cached(left, api_key, prefixes[high]) == is_cached(
            right,
            api_key,
            prefixes[high],
        ));
        lemma_find_back_agrees(left, right, api_key, prefixes, low, high - 1);
    }
}

proof fn lemma_find_hit_agrees(
    left: Map<Seq<char>, CacheEntry>,
    right: Map<Seq<char>, CacheEntry>,
    api_key: Seq<char>,
    prefixes: Seq<PrefixView>,
    breakpoints: Seq<BreakpointView>,
)
    requires
        breakpoints_placed(breakpoints, prefixes.len()),
        forall|i: int|
            0 <= i < prefixes.len() ==> is_cached(left, api_key, #[trigger] prefixes[i])
                == is_cached(right, api_key, prefixes[i]),
    ensures
        find_hit(left, api_key, prefixes, breakpoints) == find_hit(
            right,
            api_key,
            prefixes,
            breakpoints,
        ),
    decreases breakpoints.len(),
{
    if breakpoints.len() > 0 {
        let breakpoint = breakpoints[breakpoints.len() - 1];
        let earlier = breakpoints.drop_last();
        assert(forall|i: int| 0 <= i < earlier.len() ==> #[trigger] earlier[i] == breakpoints[i]);
        lemma_find_back_agrees(
            left,
            right,
            api_key,
            prefixes,
            lookback_start(breakpoint),
            breakpoint.prefix_index,
        );
        lemma_find_hit_agrees(left, right, api_key, prefixes, earlier);
    }
}

/// What a lookup finds and writes depends on no entries but those of its own key.
pub proof fn law_outcome_depends_on_own_entries(
    left: Map<Seq<char>, CacheEntry>,
    right: Map<Seq<char>, CacheEntry>,
    plan: PlanView,
    now: u128,
)
    requires
        plan.searchable(),
        hashes_formed(plan.prefixes),
        forall|hash: Seq<char>|
            is_hash(hash) ==> {
                let key = #[trigger] entry_key(plan.api_key, hash);
                &&& left.contains_key(key) == right.contains_key(key)
                &&& left.contains_key(key) ==> left[key] == right[key]
            },
    ensures
        lookup(left, plan, now).read == lookup(right, plan, now).read,
        lookup(left, plan, now).creation == lookup(right, plan, now).creation,
        lookup(left, plan, now).uncached == lookup(right, plan, now).uncached,
{
    if plan.prefixes.len() > 0 {
        let current_left = live(left, now);
        let current_right = live(right, now);
        assert forall|i: int| 0 <= i < plan.prefixes.len() implies is_cached(
            current_left,
            plan.api_key,
            #[trigger] plan.prefixes[i],
        ) == is_cached(current_right, plan.api_key, plan.prefixes[i]) by {
            assert(is_hash(plan.prefixes[i].hash));
            let key = entry_key(plan.api_key, plan.prefixes[i].hash);
            assert(left.contains_key(key) == right.contains_key(key));
        }
        lemma_find_hit_agrees(
            current_left,
            current_right,
            plan.api_key,
            plan.prefixes,
            plan.breakpoints,
        );
        lemma_find_hit(current_left, plan.api_key, plan.prefixes, plan.breakpoints);
        let hit = find_hit(current_left, plan.api_key, plan.prefixes, plan.breakpoints);
        if hit is Some {
            assert(is_hash(plan.prefixes[hit->0.prefix_index].hash));
            let key = entry_key(plan.api_key, plan.prefixes[hit->0.prefix_index].hash);
            assert(left.contains_key(key) == right.contains_key(key));
        }
    }
}

/// A request that goes on from what an earlier one wrote reads just that, and writes what it
/// has beyond it: where the earlier prefix lies within the lookback of its last breakpoint
/// and none behind it is cached.
pub proof fn law_extension_reads_what_was_written(
    entries: Map<Seq<char>, CacheEntry>,
    base: CachePlan,
    extension: PlanView,
    shared: int,
    first: u128,
    second: u128,
)
    requires
        entries_wf(entries),
        breakpoints_placed(base@.breakpoints, base@.prefixes.len()),
        base@.breakpoints.len() > 0,
        last_tokens(base@) > lookup(entries, base@, first).read,
        second < expiry(first, base@.breakpoints.last().ttl_secs),
        tokens_rise(extension.prefixes),
        breakpoints_in_order(extension.breakpoints, extension.prefixes.len()),
        extension.api_key == base@.api_key,
        extension.breakpoints.len() > 0,
        lookback_start(extension.breakpoints.last()) <= shared
            <= extension.breakpoints.last().prefix_index,
        extension.prefixes[shared].hash
            == base@.prefixes[base@.breakpoints.last().prefix_index].hash,
        forall|i: int|
            shared < i <= extension.breakpoints.last().prefix_index ==> !is_cached(
                lookup(entries, base@, first).entries,
                extension.api_key,
                #[trigger] extension.prefixes[i],
            ),
    ensures
        ({
            let before = lookup(entries, base@, first);
            let after = lookup(before.entries, extension, second);
            &&& after.read == last_tokens(base@)
            &&& after.creation == max(last_tokens(extension) - last_tokens(base@), 0)
        }),
{
    let view = base@;
    let last = view.breakpoints.last();
    assert(view.breakpoints[view.breakpoints.len() - 1] == last);
    assert(view.prefixes[last.prefix_index] == base.prefixes@[last.prefix_index]@);
    let left = lookup(entries, view, first).entries;
    let key = plan_key(view, last.prefix_index);
    assert(left.contains_key(key));
    assert(left[key].tokens == last_tokens(view));
    let later = live(left, second);
    assert(later.contains_key(key));
    let end = extension.breakpoints.last();
    assert(extension.breakpoints[extension.breakpoints.len() - 1] == end);
    let low = lookback_start(end);
    assert(is_cached(later, extension.api_key, extension.prefixes[shared]));
    lemma_find_back(later, extension.api_key, extension.prefixes, low, end.prefix_index);
    let found = find_back(later, extension.api_key, extension.prefixes, low, end.prefix_index);
    if found is None {
        assert(!is_cached(later, extension.api_key, extension.prefixes[shared]));
    } else if found->0 < shared {
        assert(!is_cached(later, extension.api_key, extension.prefixes[shared]));
    } else if found->0 > shared {
        assert(!is_cached(left, extension.api_key, extension.prefixes[found->0]));
    }
    lemma_largest(extension.prefixes, extension.breakpoints, last_tokens(view));
}

} // verus!
