//! The plan of a cache lookup: what a request's headers and path come to.

use crate::headers::{accepts_json, api_key, extract_api_key, header_fields};
use crate::json::{Json, JsonView};
use crate::path::{
    breakpoints_view, checked_cache_path, compute_cache_path, hashes_formed, lemma_marks_ascend,
    path_of, prefixes_of, prefixes_view, request_path, segment_tokens, with_breakpoint,
    BreakpointView, CacheBreakpoint, CachePath, CachePrefix, PathView, PrefixView,
};
use crate::request::{
    asks_for_web_search, at_least_one, cache_minimum, checked_count_all_tokens, count_all_tokens,
    mark_of, minimum_cache_tokens, request_tokens, segments, Segment,
};
use axum::http::{HeaderMap, HeaderValue};
use vstd::prelude::*;

verus! {

/// A plan has at most this many breakpoints.
pub const MAX_BREAKPOINTS: usize = 4;

/// A cache lookup to be made.
#[derive(Debug, Clone)]
pub struct CachePlan {
    /// The key whose entries it is about.
    pub api_key: String,
    /// The prefixes of the request.
    pub prefixes: Vec<CachePrefix>,
    /// Those of the prefixes that are to be cached.
    pub breakpoints: Vec<CacheBreakpoint>,
    /// The tokens of the request.
    pub total_input_tokens: i32,
}

/// What a plan is.
#[verifier::ext_equal]
pub struct PlanView {
    pub api_key: Seq<char>,
    pub prefixes: Seq<PrefixView>,
    pub breakpoints: Seq<BreakpointView>,
    pub total_input_tokens: int,
}

impl View for CachePlan {
    type V = PlanView;

    open spec fn view(&self) -> PlanView {
        PlanView {
            api_key: self.api_key@,
            prefixes: prefixes_view(self.prefixes@),
            breakpoints: breakpoints_view(self.breakpoints@),
            total_input_tokens: self.total_input_tokens as int,
        }
    }
}

/// The tokens of the prefixes are not negative and do not fall.
pub open spec fn tokens_rise(prefixes: Seq<PrefixView>) -> bool {
    &&& forall|i: int| 0 <= i < prefixes.len() ==> (#[trigger] prefixes[i]).tokens >= 0
    &&& forall|i: int, j: int|
        #![trigger prefixes[i], prefixes[j]]
        0 <= i <= j < prefixes.len() ==> prefixes[i].tokens <= prefixes[j].tokens
}

/// The breakpoints stand at prefixes.
pub open spec fn breakpoints_placed(breakpoints: Seq<BreakpointView>, prefixes: nat) -> bool {
    forall|i: int|
        0 <= i < breakpoints.len() ==> 0 <= (#[trigger] breakpoints[i]).prefix_index < prefixes
}

/// The breakpoints stand at prefixes, in ascending order.
pub open spec fn breakpoints_ascend(breakpoints: Seq<BreakpointView>, prefixes: nat) -> bool {
    &&& breakpoints_placed(breakpoints, prefixes)
    &&& forall|i: int, j: int|
        #![trigger breakpoints[i], breakpoints[j]]
        0 <= i < j < breakpoints.len() ==> breakpoints[i].prefix_index
            < breakpoints[j].prefix_index
}

impl PlanView {
    /// The plan can be looked up: it has no prefixes, or each of its breakpoints stands at one.
    pub open spec fn searchable(self) -> bool {
        self.prefixes.len() == 0 || breakpoints_placed(self.breakpoints, self.prefixes.len())
    }

    /// What holds of every plan.
    pub open spec fn wf(self) -> bool {
        &&& tokens_rise(self.prefixes)
        &&& hashes_formed(self.prefixes)
        &&& breakpoints_ascend(self.breakpoints, self.prefixes.len())
        &&& self.total_input_tokens >= 0
    }
}

/// The first breakpoints whose prefixes have enough tokens.
pub open spec fn usable_breakpoints(path: PathView, minimum: int) -> Seq<BreakpointView> {
    let enough = path.breakpoints.filter(
        |breakpoint: BreakpointView| path.prefixes[breakpoint.prefix_index].tokens >= minimum,
    );
    if enough.len() <= MAX_BREAKPOINTS {
        enough
    } else {
        enough.take(MAX_BREAKPOINTS as int)
    }
}

/// The plan for a request with these headers.
pub open spec fn plan_of(fields: Map<Seq<char>, Seq<u8>>, request: JsonView) -> PlanView {
    PlanView {
        api_key: api_key(fields),
        prefixes: request_path(request).prefixes,
        breakpoints: usable_breakpoints(request_path(request), cache_minimum(request)),
        total_input_tokens: at_least_one(request_tokens(request)),
    }
}

/// A request is planned for, where it is JSON and no mere web search.
pub open spec fn is_planned(fields: Map<Seq<char>, Seq<u8>>, request: JsonView) -> bool {
    accepts_json(fields) && !asks_for_web_search(request)
}

/// An `i32` holds the tokens of the request and of its longest prefix.
pub open spec fn tokens_fit(request: JsonView) -> bool {
    segment_tokens(segments(request)) <= i32::MAX && request_tokens(request) <= i32::MAX
}

proof fn lemma_tokens_rise(segments: Seq<Segment>)
    ensures
        tokens_rise(prefixes_of(segments)),
{
    assert forall|i: int, j: int|
        #![trigger prefixes_of(segments)[i], prefixes_of(segments)[j]]
        0 <= i <= j < segments.len() implies prefixes_of(segments)[i].tokens <= prefixes_of(
        segments,
    )[j].tokens by {
        lemma_segment_tokens_grow(segments.take(j + 1), i + 1);
        assert(segments.take(j + 1).take(i + 1) =~= segments.take(i + 1));
    }
}

proof fn lemma_segment_tokens_grow(segments: Seq<Segment>, end: int)
    requires
        0 <= end <= segments.len(),
    ensures
        segment_tokens(segments.take(end)) <= segment_tokens(segments),
    decreases segments.len(),
{
    if end < segments.len() {
        lemma_segment_tokens_grow(segments.drop_last(), end);
        assert(segments.drop_last().take(end) =~= segments.take(end));
    } else {
        assert(segments.take(end) =~= segments);
    }
}

proof fn lemma_filter_ascends(
    breakpoints: Seq<BreakpointView>,
    prefixes: nat,
    keeps: spec_fn(BreakpointView) -> bool,
)
    requires
        breakpoints_ascend(breakpoints, prefixes),
    ensures
        breakpoints_ascend(breakpoints.filter(keeps), prefixes),
        forall|i: int|
            0 <= i < breakpoints.filter(keeps).len() ==> {
                &&& keeps(#[trigger] breakpoints.filter(keeps)[i])
                &&& breakpoints.filter(keeps)[i].prefix_index <= breakpoints.last().prefix_index
            },
    decreases breakpoints.len(),
{
    reveal(Seq::filter);
    if breakpoints.len() > 0 {
        let earlier = breakpoints.drop_last();
        assert(forall|i: int| 0 <= i < earlier.len() ==> #[trigger] earlier[i] == breakpoints[i]);
        lemma_filter_ascends(earlier, prefixes, keeps);
        let kept = breakpoints.filter(keeps);
        let kept_earlier = earlier.filter(keeps);
        assert(forall|i: int|
            0 <= i < kept_earlier.len() ==> #[trigger] kept[i] == kept_earlier[i]);
        if earlier.len() > 0 {
            assert(earlier.last().prefix_index < breakpoints.last().prefix_index);
        }
    }
}

/// The path of a request has ascending breakpoints.
proof fn lemma_request_path_ascends(request: JsonView)
    ensures
        breakpoints_ascend(
            request_path(request).breakpoints,
            request_path(request).prefixes.len(),
        ),
        request_path(request).prefixes == prefixes_of(segments(request)),
{
    lemma_marks_ascend(segments(request));
    if let Some(ttl) = mark_of(request) {
        let path = path_of(segments(request));
        let more = with_breakpoint(path, ttl);
        assert(forall|i: int|
            0 <= i < path.breakpoints.len() ==> #[trigger] more.breakpoints[i]
                == path.breakpoints[i]);
    }
}

/// Every plan is well formed but for its hashes, has at most four breakpoints, and all of
/// them at prefixes with enough tokens.
pub proof fn law_plans_are_well_formed(fields: Map<Seq<char>, Seq<u8>>, request: JsonView)
    ensures
        tokens_rise(plan_of(fields, request).prefixes),
        breakpoints_ascend(
            plan_of(fields, request).breakpoints,
            plan_of(fields, request).prefixes.len(),
        ),
        plan_of(fields, request).total_input_tokens >= 1,
        plan_of(fields, request).breakpoints.len() <= MAX_BREAKPOINTS,
        forall|i: int|
            0 <= i < plan_of(fields, request).breakpoints.len() ==> plan_of(
                fields,
                request,
            ).prefixes[(#[trigger] plan_of(fields, request).breakpoints[i]).prefix_index].tokens
                >= cache_minimum(request),
{
    let path = request_path(request);
    let minimum = cache_minimum(request);
    let keeps = |breakpoint: BreakpointView|
        path.prefixes[breakpoint.prefix_index].tokens >= minimum;
    lemma_tokens_rise(segments(request));
    lemma_request_path_ascends(request);
    lemma_filter_ascends(path.breakpoints, path.prefixes.len(), keeps);
    let enough = path.breakpoints.filter(keeps);
    let used = usable_breakpoints(path, minimum);
    assert(forall|i: int| 0 <= i < used.len() ==> #[trigger] used[i] == enough[i]);
}

/// The first breakpoints of a path whose prefixes have enough tokens.
pub fn keep_usable(path: &CachePath, minimum: i32) -> (kept: Vec<CacheBreakpoint>)
    requires
        breakpoints_placed(path@.breakpoints, path@.prefixes.len()),
    ensures
        breakpoints_view(kept@) == usable_breakpoints(path@, minimum as int),
{
    let ghost keeps = |breakpoint: BreakpointView|
        path@.prefixes[breakpoint.prefix_index].tokens >= minimum as int;
    let mut kept: Vec<CacheBreakpoint> = Vec::new();
    let mut at: usize = 0;
    assert(breakpoints_view(kept@) =~= path@.breakpoints.take(0).filter(keeps)) by {
        reveal(Seq::filter);
    }
    while at < path.breakpoints.len()
        invariant
            at <= path.breakpoints@.len(),
            keeps == (|breakpoint: BreakpointView|
                path@.prefixes[breakpoint.prefix_index].tokens >= minimum as int),
            breakpoints_placed(path@.breakpoints, path@.prefixes.len()),
            breakpoints_view(kept@) == path@.breakpoints.take(at as int).filter(keeps),
        decreases path.breakpoints.len() - at,
    {
        let breakpoint = path.breakpoints[at];
        let ghost before = breakpoints_view(kept@);
        let ghost taken = path@.breakpoints.take(at + 1);
        assert(taken.drop_last() =~= path@.breakpoints.take(at as int));
        assert(taken.last() == breakpoint@);
        assert(path@.breakpoints[at as int] == breakpoint@);
        assert(path@.prefixes[breakpoint.prefix_index as int] == path.prefixes@[
            breakpoint.prefix_index as int]@);
        if path.prefixes[breakpoint.prefix_index].tokens >= minimum {
            kept.push(breakpoint);
            assert(breakpoints_view(kept@) =~= before.push(breakpoint@));
        }
        assert(breakpoints_view(kept@) == taken.filter(keeps)) by {
            reveal(Seq::filter);
        }
        at = at + 1;
    }
    assert(path@.breakpoints.take(path@.breakpoints.len() as int) =~= path@.breakpoints);
    let ghost enough = breakpoints_view(kept@);
    kept.truncate(MAX_BREAKPOINTS);
    assert(breakpoints_view(kept@) =~= usable_breakpoints(path@, minimum as int));
    kept
}

/// The plan for a request with these headers.
pub fn make_plan(headers: &HeaderMap<HeaderValue>, request: &Json) -> (plan: CachePlan)
    requires
        tokens_fit(request@),
    ensures
        plan@ == plan_of(header_fields(*headers), request@),
        plan@.wf(),
{
    let path = compute_cache_path(request);
    proof {
        lemma_request_path_ascends(request@);
        law_plans_are_well_formed(header_fields(*headers), request@);
    }
    let breakpoints = keep_usable(&path, minimum_cache_tokens(request));
    CachePlan {
        api_key: extract_api_key(headers),
        prefixes: path.prefixes,
        breakpoints,
        total_input_tokens: count_all_tokens(request),
    }
}

/// Whether an `i32` holds the tokens of the request and of its longest prefix.
pub fn check_tokens_fit(request: &Json) -> (fits: bool)
    ensures
        fits == tokens_fit(request@),
{
    checked_count_all_tokens(request).is_some() && checked_cache_path(request).is_some()
}

} // verus!
