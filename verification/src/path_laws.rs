//! What the prefixes, the breakpoints and the plan of a request satisfy.

use crate::headers::{accepts_json, api_key};
use crate::json::JsonView;
use crate::path::{
    lemma_marks_ascend, marks, materials, path_of, request_path, segment_tokens, sha256_hex,
    with_breakpoint, BreakpointView, CacheBreakpoint, CachePath, CachePrefix, PathView,
};
use crate::plan::{is_planned, plan_of, tokens_fit, usable_breakpoints, CachePlan};
use crate::request::{
    asks_for_web_search, cache_minimum, mark_of, request_tokens, segments, Segment,
};
use vstd::prelude::*;
use vstd::utf8::encode_utf8;

verus! {

/// The hashed text of segments is that of the first ones and then that of the others; so are
/// their tokens.
pub proof fn law_materials_follow_one_another(
    first: Seq<Segment>,
    second: Seq<Segment>,
    segment: Segment,
)
    ensures
        materials(first + second) == materials(first) + materials(second),
        materials(seq![segment]) == segment.material,
        materials(Seq::<Segment>::empty()) == Seq::<char>::empty(),
        segment_tokens(first + second) == segment_tokens(first) + segment_tokens(second),
        segment_tokens(seq![segment]) == segment.tokens,
        segment_tokens(Seq::<Segment>::empty()) == 0,
    decreases second.len(),
{
    reveal_with_fuel(materials, 2);
    reveal_with_fuel(segment_tokens, 2);
    if second.len() == 0 {
        assert(first + second =~= first);
        assert(materials(first) + materials(second) =~= materials(first));
    } else {
        law_materials_follow_one_another(first, second.drop_last(), segment);
        assert((first + second).drop_last() =~= first + second.drop_last());
        assert(materials(first + second) =~= materials(first) + materials(second));
    }
    assert(seq![segment].drop_last() =~= Seq::<Segment>::empty());
    assert(materials(seq![segment]) =~= segment.material);
}

/// A request has one prefix for each segment. Its hash is the SHA-256 of the hashed text of the
/// segments up to that one, and its tokens are theirs.
pub proof fn law_prefixes(request: JsonView, at: int)
    requires
        0 <= at < segments(request).len(),
    ensures
        request_path(request).prefixes.len() == segments(request).len(),
        ({
            let prefix = request_path(request).prefixes[at];
            let upto = segments(request).subrange(0, at + 1);
            &&& prefix.hash == sha256_hex(encode_utf8(materials(upto)))
            &&& prefix.tokens == segment_tokens(upto)
        }),
{
    assert(segments(request).take(at + 1) =~= segments(request).subrange(0, at + 1));
}

/// A request without segments has no prefixes and no breakpoints.
pub proof fn law_no_segments(request: JsonView)
    requires
        segments(request).len() == 0,
    ensures
        request_path(request).prefixes.len() == 0,
        request_path(request).breakpoints.len() == 0,
{
}

proof fn lemma_marks(all: Seq<Segment>, at: int)
    requires
        0 <= at < all.len(),
    ensures
        all[at].ttl matches Some(ttl) ==> marks(all).contains(
            BreakpointView { prefix_index: at, ttl_secs: ttl as int },
        ),
    decreases all.len(),
{
    let earlier = all.drop_last();
    if let Some(ttl) = all[at].ttl {
        let wanted = BreakpointView { prefix_index: at, ttl_secs: ttl as int };
        if at < all.len() - 1 {
            lemma_marks(earlier, at);
            assert(earlier[at] == all[at]);
            let place = choose|i: int| 0 <= i < marks(earlier).len() && marks(earlier)[i] == wanted;
            assert(marks(all)[place] == wanted);
        } else {
            assert(marks(all)[marks(all).len() - 1] == wanted);
        }
    }
}

proof fn lemma_marks_come_from_segments(all: Seq<Segment>, place: int)
    requires
        0 <= place < marks(all).len(),
    ensures
        0 <= marks(all)[place].prefix_index < all.len(),
        all[marks(all)[place].prefix_index].ttl matches Some(ttl) && ttl
            == marks(all)[place].ttl_secs,
    decreases all.len(),
{
    let earlier = all.drop_last();
    if place < marks(earlier).len() {
        lemma_marks_come_from_segments(earlier, place);
        assert(marks(all)[place] == marks(earlier)[place]);
        assert(earlier[marks(earlier)[place].prefix_index]
            == all[marks(earlier)[place].prefix_index]);
    }
}

/// The time that a breakpoint at a prefix stays: as its segment asks, or else, at the end, as the
/// request itself asks.
pub open spec fn wanted_time(request: JsonView, at: int) -> Option<u64> {
    match segments(request)[at].ttl {
        Some(ttl) => Some(ttl),
        None => if at == segments(request).len() - 1 {
            mark_of(request)
        } else {
            None
        },
    }
}

/// There is a breakpoint at a prefix if and only if its segment asks for an entry, or it is the
/// last one and the request itself asks for one; and for as long as the segment says, or else the
/// request.
pub proof fn law_breakpoints(request: JsonView, at: int, time: int)
    requires
        0 <= at < segments(request).len(),
    ensures
        request_path(request).breakpoints.contains(
            BreakpointView { prefix_index: at, ttl_secs: time },
        ) <==> (wanted_time(request, at) matches Some(ttl) && ttl == time),
{
    let all = segments(request);
    let path = path_of(all);
    let wanted = BreakpointView { prefix_index: at, ttl_secs: time };
    let found = request_path(request).breakpoints;
    lemma_marks(all, at);
    lemma_marks_ascend(all);
    if marks(all).contains(wanted) {
        let place = choose|i: int| 0 <= i < marks(all).len() && marks(all)[i] == wanted;
        lemma_marks_come_from_segments(all, place);
        assert(found[place] == wanted);
    }
    if let Some(ttl) = mark_of(request) {
        let last = all.len() - 1;
        if all[last].ttl is Some {
            lemma_marks(all, last);
            let there = BreakpointView {
                prefix_index: last,
                ttl_secs: all[last].ttl->0 as int,
            };
            let place = choose|i: int| 0 <= i < marks(all).len() && marks(all)[i] == there;
            assert(path.breakpoints[place].prefix_index == last);
        } else {
            assert forall|i: int| 0 <= i < path.breakpoints.len() implies (
            #[trigger] path.breakpoints[i]).prefix_index != path.prefixes.len() - 1 by {
                lemma_marks_come_from_segments(all, i);
            }
            let added = BreakpointView { prefix_index: last, ttl_secs: ttl as int };
            assert(found == marks(all).push(added));
            assert(found[found.len() - 1] == added);
        }
    }
    if found.contains(wanted) && !marks(all).contains(wanted) {
        let place = choose|i: int| 0 <= i < found.len() && found[i] == wanted;
        assert(place == marks(all).len());
    }
}

/// A breakpoint is put at the last prefix, unless there is none or it has one.
pub proof fn law_another_breakpoint(path: PathView, ttl: u64, at: int)
    ensures
        with_breakpoint(path, ttl).prefixes == path.prefixes,
        path.prefixes.len() == 0 ==> with_breakpoint(path, ttl) == path,
        0 <= at < path.breakpoints.len() && path.breakpoints[at].prefix_index
            == path.prefixes.len() - 1 ==> with_breakpoint(path, ttl) == path,
        path.prefixes.len() > 0 && (forall|i: int|
            0 <= i < path.breakpoints.len() ==> (#[trigger] path.breakpoints[i]).prefix_index
                != path.prefixes.len() - 1) ==> with_breakpoint(path, ttl).breakpoints
            == path.breakpoints.push(
            BreakpointView { prefix_index: path.prefixes.len() - 1, ttl_secs: ttl as int },
        ),
{
}

/// The breakpoints of a request stand at its prefixes, one behind the other.
pub proof fn law_breakpoints_ascend(request: JsonView, first: int, second: int)
    requires
        0 <= first < second < request_path(request).breakpoints.len(),
    ensures
        0 <= request_path(request).breakpoints[first].prefix_index
            < request_path(request).breakpoints[second].prefix_index
            < request_path(request).prefixes.len(),
{
    crate::plan::law_plans_are_well_formed(Map::empty(), request);
    let all = segments(request);
    lemma_marks_ascend(all);
    let found = request_path(request).breakpoints;
    assert(forall|i: int| 0 <= i < marks(all).len() ==> #[trigger] found[i] == marks(all)[i]);
}

/// The first of the breakpoints, as many as four, whose prefixes have enough tokens are used: one
/// that is not used has too few, or has four that are used before it.
pub proof fn law_usable_breakpoints(path: PathView, minimum: int)
    ensures
        ({
            let used = usable_breakpoints(path, minimum);
            &&& used.len() <= 4
            &&& forall|i: int|
                0 <= i < used.len() ==> {
                    &&& path.breakpoints.contains(#[trigger] used[i])
                    &&& path.prefixes[used[i].prefix_index].tokens >= minimum
                }
            &&& used.len() < 4 ==> forall|at: int|
                0 <= at < path.breakpoints.len() && path.prefixes[(
                #[trigger] path.breakpoints[at]).prefix_index].tokens >= minimum ==> used.contains(
                    path.breakpoints[at],
                )
        }),
{
    let keeps = |breakpoint: BreakpointView|
        path.prefixes[breakpoint.prefix_index].tokens >= minimum;
    let all = path.breakpoints;
    let enough = all.filter(keeps);
    let used = usable_breakpoints(path, minimum);
    lemma_filter(all, keeps);
    assert forall|i: int| 0 <= i < used.len() implies all.contains(#[trigger] used[i])
        && path.prefixes[used[i].prefix_index].tokens >= minimum by {
        assert(used[i] == enough[i]);
    }
}

proof fn lemma_filter(all: Seq<BreakpointView>, keeps: spec_fn(BreakpointView) -> bool)
    ensures
        forall|i: int|
            0 <= i < all.filter(keeps).len() ==> all.contains(#[trigger] all.filter(keeps)[i])
                && keeps(all.filter(keeps)[i]),
        forall|at: int|
            0 <= at < all.len() && keeps(#[trigger] all[at]) ==> all.filter(keeps).contains(
                all[at],
            ),
    decreases all.len(),
{
    reveal(Seq::filter);
    if all.len() > 0 {
        let earlier = all.drop_last();
        lemma_filter(earlier, keeps);
        let kept = all.filter(keeps);
        let kept_earlier = earlier.filter(keeps);
        assert forall|i: int| 0 <= i < kept.len() implies all.contains(#[trigger] kept[i]) && keeps(
            kept[i],
        ) by {
            if i < kept_earlier.len() {
                assert(kept[i] == kept_earlier[i]);
                let place = choose|k: int| 0 <= k < earlier.len() && earlier[k] == kept[i];
                assert(all[place] == kept[i]);
            } else {
                assert(all[all.len() - 1] == kept[i]);
            }
        }
        assert forall|at: int| 0 <= at < all.len() && keeps(#[trigger] all[at]) implies kept.contains(
            all[at],
        ) by {
            if at < earlier.len() {
                assert(earlier[at] == all[at]);
                let place = choose|k: int|
                    0 <= k < kept_earlier.len() && kept_earlier[k] == all[at];
                assert(kept[place] == all[at]);
            } else {
                assert(kept[kept.len() - 1] == all[at]);
            }
        }
    }
}

/// Another breakpoint behind the others is used if and only if its prefix has enough tokens and
/// fewer than four are used before it; it changes nothing of those.
pub proof fn law_usable_breakpoints_go_in_order(
    path: PathView,
    breakpoint: BreakpointView,
    minimum: int,
)
    ensures
        ({
            let before = usable_breakpoints(path, minimum);
            let after = usable_breakpoints(
                PathView {
                    prefixes: path.prefixes,
                    breakpoints: path.breakpoints.push(breakpoint),
                },
                minimum,
            );
            if path.prefixes[breakpoint.prefix_index].tokens >= minimum && before.len() < 4 {
                after == before.push(breakpoint)
            } else {
                after == before
            }
        }),
        usable_breakpoints(
            PathView { prefixes: path.prefixes, breakpoints: Seq::<BreakpointView>::empty() },
            minimum,
        ) == Seq::<BreakpointView>::empty(),
{
    reveal(Seq::filter);
    let keeps = |breakpoint: BreakpointView|
        path.prefixes[breakpoint.prefix_index].tokens >= minimum;
    let more = path.breakpoints.push(breakpoint);
    assert(more.drop_last() =~= path.breakpoints);
    let longer = PathView { prefixes: path.prefixes, breakpoints: more };
    let enough = path.breakpoints.filter(keeps);
    assert(more.filter(keeps) == if keeps(breakpoint) {
        enough.push(breakpoint)
    } else {
        enough
    });
    assert(usable_breakpoints(longer, minimum) =~= if keeps(breakpoint) && enough.len() < 4 {
        usable_breakpoints(path, minimum).push(breakpoint)
    } else {
        usable_breakpoints(path, minimum)
    });
}

/// A plan is for the key of the headers, has the prefixes of the request, those of its breakpoints
/// that are large enough for the model, and its tokens, one at least.
pub proof fn law_plan(fields: Map<Seq<char>, Seq<u8>>, request: JsonView)
    ensures
        plan_of(fields, request).api_key == api_key(fields),
        plan_of(fields, request).prefixes == request_path(request).prefixes,
        plan_of(fields, request).breakpoints == usable_breakpoints(
            request_path(request),
            cache_minimum(request),
        ),
        request_tokens(request) >= 1 ==> plan_of(fields, request).total_input_tokens
            == request_tokens(request),
        request_tokens(request) == 0 ==> plan_of(fields, request).total_input_tokens == 1,
        is_planned(fields, request) <==> accepts_json(fields) && !asks_for_web_search(request),
        tokens_fit(request) <==> request_tokens(request) <= i32::MAX && segment_tokens(
            segments(request),
        ) <= i32::MAX,
{
}

/// What a prefix, a breakpoint, a path and a plan are, is what they hold.
pub proof fn law_views(
    prefix: CachePrefix,
    breakpoint: CacheBreakpoint,
    path: CachePath,
    plan: CachePlan,
    at: int,
)
    ensures
        prefix@.hash == prefix.hash@,
        prefix@.tokens == prefix.tokens,
        breakpoint@.prefix_index == breakpoint.prefix_index,
        breakpoint@.ttl_secs == breakpoint.ttl_secs,
        path@.prefixes.len() == path.prefixes@.len(),
        path@.breakpoints.len() == path.breakpoints@.len(),
        0 <= at < path.prefixes@.len() ==> path@.prefixes[at] == path.prefixes@[at]@,
        0 <= at < path.breakpoints@.len() ==> path@.breakpoints[at] == path.breakpoints@[at]@,
        plan@.api_key == plan.api_key@,
        plan@.total_input_tokens == plan.total_input_tokens,
        plan@.prefixes.len() == plan.prefixes@.len(),
        plan@.breakpoints.len() == plan.breakpoints@.len(),
        0 <= at < plan.prefixes@.len() ==> plan@.prefixes[at] == plan.prefixes@[at]@,
        0 <= at < plan.breakpoints@.len() ==> plan@.breakpoints[at] == plan.breakpoints@[at]@,
{
}

} // verus!
