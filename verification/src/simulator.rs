//! The prompt-cache simulator of the messages endpoints.

use crate::cch::{cleaned_request, strip_cch_from_request};
use crate::headers::{header_fields, is_json_request};
use crate::json::Json;
use crate::lookup::{lookup, lookup_or_create, NANOS_PER_SEC, TIME_LIMIT};
use crate::plan::{check_tokens_fit, is_planned, make_plan, plan_of, tokens_fit, CachePlan};
use crate::request::is_web_search_request;
use crate::store::{entries_wf, CacheEntry, CacheStore};
use crate::usage::CacheResult;
use axum::http::{HeaderMap, HeaderValue};
use std::time::Instant;
use vstd::prelude::*;

verus! {

/// `std::time::Instant`.
#[verifier::external_type_specification]
#[verifier::external_body]
pub struct ExInstant(Instant);

/// `Instant::now`: some moment, which is left to the clock.
pub assume_specification[ Instant::now ]() -> Instant
;

/// `Instant::elapsed`, as the whole seconds of the time that has gone by since a moment, and the
/// nanoseconds beyond them, which are less than a billion. How much time that is, is left to the
/// clock.
#[verifier::external_body]
fn time_since(moment: &Instant) -> (time: (u64, u32))
    ensures
        time.1 < 1_000_000_000,
{
    let elapsed = moment.elapsed();
    (elapsed.as_secs(), elapsed.subsec_nanos())
}

/// A time in nanoseconds.
pub fn nanoseconds(secs: u64, nanos: u32) -> (time: u128)
    ensures
        time == secs * NANOS_PER_SEC + nanos,
        time < TIME_LIMIT,
{
    secs as u128 * NANOS_PER_SEC + nanos as u128
}

/// The request's tokens are more than an `i32` holds.
#[derive(Debug, Clone, Copy, PartialEq, Eq)]
pub struct TooManyTokens;

/// A prompt cache as the messages endpoints report it.
pub struct PromptCacheSimulator {
    cache: CacheStore,
    simulate_cache: bool,
    strip_cch: bool,
    /// The moment that the times in the cache count from.
    started: Instant,
}

impl PromptCacheSimulator {
    /// What holds of every simulator.
    pub closed spec fn wf(self) -> bool {
        self.cache.wf()
    }

    /// The entries of its cache.
    pub closed spec fn entries(self) -> Map<Seq<char>, CacheEntry> {
        self.cache@
    }

    /// The moment that the times in its cache count from.
    pub closed spec fn started(self) -> Instant {
        self.started
    }

    /// It plans lookups.
    pub closed spec fn simulates(self) -> bool {
        self.simulate_cache
    }

    /// It cleans system prompts.
    pub closed spec fn strips(self) -> bool {
        self.strip_cch
    }

    /// The entries of every simulator are such as lookups leave them.
    pub proof fn law_entries_are_well_formed(self)
        requires
            self.wf(),
        ensures
            entries_wf(self.entries()),
    {
        self.cache.lemma_entries_wf();
    }

    /// A simulator that does both, with an empty cache.
    pub fn new() -> (simulator: PromptCacheSimulator)
        ensures
            simulator.wf(),
            simulator.entries() == Map::<Seq<char>, CacheEntry>::empty(),
            simulator.simulates(),
            simulator.strips(),
    {
        PromptCacheSimulator::with_options(true, true)
    }

    /// A simulator that does what it is told to, with an empty cache.
    pub fn with_options(simulate_cache: bool, strip_cch: bool) -> (simulator: PromptCacheSimulator)
        ensures
            simulator.wf(),
            simulator.entries() == Map::<Seq<char>, CacheEntry>::empty(),
            simulator.simulates() == simulate_cache,
            simulator.strips() == strip_cch,
    {
        PromptCacheSimulator {
            cache: CacheStore::new(),
            simulate_cache,
            strip_cch,
            started: Instant::now(),
        }
    }

    /// Cleans the system prompt of a request, if the simulator does that, and says whether
    /// this changed the request.
    pub fn strip_cch_from_request(&self, request: &mut Json) -> (changed: bool)
        ensures
            final(request)@ == if self.strips() {
                cleaned_request(old(request)@)
            } else {
                old(request)@
            },
            changed == (final(request)@ != old(request)@),
    {
        self.strip_cch && strip_cch_from_request(request)
    }

    /// The plan for a request, unless the simulator makes none, or none for such requests.
    pub fn plan_from_request(&self, headers: &HeaderMap<HeaderValue>, request: &Json) -> (plan:
        Option<CachePlan>)
        requires
            self.simulates() && is_planned(header_fields(*headers), request@) ==> tokens_fit(
                request@,
            ),
        ensures
            plan is Some <==> self.simulates() && is_planned(header_fields(*headers), request@),
            plan matches Some(made) ==> made@ == plan_of(header_fields(*headers), request@)
                && made@.wf(),
    {
        if !self.simulate_cache || !is_json_request(headers) || is_web_search_request(request) {
            return None;
        }
        Some(make_plan(headers, request))
    }

    /// The plan for a request, or an error where the request is to be planned for and has
    /// more tokens than an `i32` holds.
    pub fn try_plan_from_request(
        &self,
        headers: &HeaderMap<HeaderValue>,
        request: &Json,
    ) -> (result: Result<Option<CachePlan>, TooManyTokens>)
        ensures
            result is Err <==> self.simulates() && is_planned(header_fields(*headers), request@)
                && !tokens_fit(request@),
            result matches Ok(plan) ==> {
                &&& plan is Some <==> self.simulates() && is_planned(
                    header_fields(*headers),
                    request@,
                )
                &&& plan matches Some(made) ==> made@ == plan_of(
                    header_fields(*headers),
                    request@,
                ) && made@.wf()
            },
    {
        if !self.simulate_cache || !is_json_request(headers) || is_web_search_request(request) {
            return Ok(None);
        }
        if check_tokens_fit(request) {
            Ok(self.plan_from_request(headers, request))
        } else {
            Err(TooManyTokens)
        }
    }

    /// Looks a plan up at a time, in nanoseconds since a fixed moment.
    pub fn lookup_or_create_at(&mut self, plan: Option<CachePlan>, now: u128) -> (result: Option<
        CacheResult,
    >)
        requires
            old(self).wf(),
            plan matches Some(made) ==> made@.searchable(),
            now < TIME_LIMIT,
        ensures
            final(self).wf(),
            final(self).simulates() == old(self).simulates(),
            final(self).strips() == old(self).strips(),
            final(self).started() == old(self).started(),
            match plan {
                Some(made) => {
                    let outcome = lookup(old(self).entries(), made@, now);
                    &&& result matches Some(tokens)
                    &&& final(self).entries() == outcome.entries
                    &&& tokens.cache_read_input_tokens == outcome.read
                    &&& tokens.cache_creation_input_tokens == outcome.creation
                    &&& tokens.uncached_input_tokens == outcome.uncached
                },
                None => result is None && final(self).entries() == old(self).entries(),
            },
    {
        match plan {
            Some(made) => Some(lookup_or_create(&mut self.cache, &made, now)),
            None => None,
        }
    }

    /// Looks a plan up now.
    pub fn lookup_or_create(&mut self, plan: Option<CachePlan>) -> (result: Option<CacheResult>)
        requires
            old(self).wf(),
            plan matches Some(made) ==> made@.searchable(),
        ensures
            final(self).wf(),
            final(self).simulates() == old(self).simulates(),
            final(self).strips() == old(self).strips(),
            final(self).started() == old(self).started(),
            match plan {
                Some(made) => exists|now: u128|
                    {
                        let outcome = #[trigger] lookup(old(self).entries(), made@, now);
                        &&& now < TIME_LIMIT
                        &&& result matches Some(tokens)
                        &&& final(self).entries() == outcome.entries
                        &&& tokens.cache_read_input_tokens == outcome.read
                        &&& tokens.cache_creation_input_tokens == outcome.creation
                        &&& tokens.uncached_input_tokens == outcome.uncached
                    },
                None => result is None && final(self).entries() == old(self).entries(),
            },
    {
        let time = time_since(&self.started);
        self.lookup_or_create_at(plan, nanoseconds(time.0, time.1))
    }
}

impl Default for PromptCacheSimulator {
    fn default() -> (simulator: PromptCacheSimulator)
        ensures
            simulator.wf(),
            simulator.entries() == Map::<Seq<char>, CacheEntry>::empty(),
            simulator.simulates(),
            simulator.strips(),
    {
        PromptCacheSimulator::new()
    }
}

} // verus!
