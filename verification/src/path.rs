//! The cache path of a request: its prefixes, each with the hash of all that comes before its
//! end, and the breakpoints at which entries are wanted.

use crate::json::{lemma_array_view, values_view, Json, JsonView};
use crate::request::{
    block_cache_hash_material, block_segment, borrowed_view, content_segments, mark_of,
    message_segments, messages_segments, normalize_tool, read_mark, segments, sort_tools,
    system_segment, system_segments, text_segment, tool_segment, tool_segments, Segment,
};
use crate::tokens::count_tokens;
use sha2::{Digest, Sha256};
use vstd::prelude::*;
use vstd::string::*;
use vstd::utf8::encode_utf8;

verus! {

/// The SHA-256 digest of some bytes, in small hexadecimal digits.
pub uninterp spec fn sha256_hex(bytes: Seq<u8>) -> Seq<char>;

/// A small hexadecimal digit.
pub open spec fn is_hex_digit(ch: char) -> bool {
    ('0' <= ch && ch <= '9') || ('a' <= ch && ch <= 'f')
}

/// 64 small hexadecimal digits.
pub open spec fn is_hash(hash: Seq<char>) -> bool {
    hash.len() == 64 && forall|i: int| 0 <= i < hash.len() ==> is_hex_digit(#[trigger] hash[i])
}

/// `Sha256::digest` of the bytes of a text, written with two small hexadecimal digits for
/// each of its 32 bytes.
#[verifier::external_body]
fn finalize_hash(text: &str) -> (hash: String)
    ensures
        hash@ == sha256_hex(text.spec_bytes()),
        is_hash(hash@),
{
    format!("{:x}", Sha256::digest(text.as_bytes()))
}

/// The part of a request up to the end of a segment.
#[derive(Debug, Clone)]
pub struct CachePrefix {
    /// The hash of the material of its segments.
    pub hash: String,
    /// The tokens of its segments.
    pub tokens: i32,
}

/// A prefix that is to be cached.
#[derive(Debug, Clone, Copy, PartialEq, Eq)]
pub struct CacheBreakpoint {
    /// Which prefix.
    pub prefix_index: usize,
    /// How long it stays in the cache.
    pub ttl_secs: u64,
}

/// The prefixes of a request and those of them that are to be cached.
#[derive(Debug, Clone)]
pub struct CachePath {
    pub prefixes: Vec<CachePrefix>,
    pub breakpoints: Vec<CacheBreakpoint>,
}

/// What a prefix is.
#[verifier::ext_equal]
pub struct PrefixView {
    pub hash: Seq<char>,
    pub tokens: int,
}

/// What a breakpoint is.
#[verifier::ext_equal]
pub struct BreakpointView {
    pub prefix_index: int,
    pub ttl_secs: int,
}

/// What a path is.
#[verifier::ext_equal]
pub struct PathView {
    pub prefixes: Seq<PrefixView>,
    pub breakpoints: Seq<BreakpointView>,
}

impl View for CachePrefix {
    type V = PrefixView;

    open spec fn view(&self) -> PrefixView {
        PrefixView { hash: self.hash@, tokens: self.tokens as int }
    }
}

impl View for CacheBreakpoint {
    type V = BreakpointView;

    open spec fn view(&self) -> BreakpointView {
        BreakpointView {
            prefix_index: self.prefix_index as int,
            ttl_secs: self.ttl_secs as int,
        }
    }
}

/// What a list of prefixes is.
pub open spec fn prefixes_view(prefixes: Seq<CachePrefix>) -> Seq<PrefixView> {
    prefixes.map_values(|prefix: CachePrefix| prefix@)
}

/// What a list of breakpoints is.
pub open spec fn breakpoints_view(breakpoints: Seq<CacheBreakpoint>) -> Seq<BreakpointView> {
    breakpoints.map_values(|breakpoint: CacheBreakpoint| breakpoint@)
}

impl View for CachePath {
    type V = PathView;

    open spec fn view(&self) -> PathView {
        PathView {
            prefixes: prefixes_view(self.prefixes@),
            breakpoints: breakpoints_view(self.breakpoints@),
        }
    }
}

/// The material of the segments, one behind the other.
pub open spec fn materials(segments: Seq<Segment>) -> Seq<char>
    decreases segments.len(),
{
    if segments.len() == 0 {
        Seq::<char>::empty()
    } else {
        materials(segments.drop_last()) + segments.last().material
    }
}

/// The tokens of the segments.
pub open spec fn segment_tokens(segments: Seq<Segment>) -> nat
    decreases segments.len(),
{
    if segments.len() == 0 {
        0
    } else {
        segment_tokens(segments.drop_last()) + segments.last().tokens
    }
}

/// The prefix that ends with the last of the segments.
pub open spec fn prefix_of(segments: Seq<Segment>) -> PrefixView {
    PrefixView {
        hash: sha256_hex(encode_utf8(materials(segments))),
        tokens: segment_tokens(segments) as int,
    }
}

/// The prefixes that end with each of the segments.
pub open spec fn prefixes_of(segments: Seq<Segment>) -> Seq<PrefixView> {
    Seq::new(segments.len(), |i: int| prefix_of(segments.take(i + 1)))
}

/// The breakpoints of the segments that ask for an entry.
pub open spec fn marks(segments: Seq<Segment>) -> Seq<BreakpointView>
    decreases segments.len(),
{
    if segments.len() == 0 {
        Seq::<BreakpointView>::empty()
    } else {
        let earlier = marks(segments.drop_last());
        match segments.last().ttl {
            Some(ttl) => earlier.push(
                BreakpointView { prefix_index: segments.len() - 1, ttl_secs: ttl as int },
            ),
            None => earlier,
        }
    }
}

/// The path of the segments.
pub open spec fn path_of(segments: Seq<Segment>) -> PathView {
    PathView { prefixes: prefixes_of(segments), breakpoints: marks(segments) }
}

/// A path with a breakpoint at its last prefix, which keeps the one it has there.
pub open spec fn with_breakpoint(path: PathView, ttl: u64) -> PathView {
    if path.prefixes.len() == 0 || exists|i: int|
        0 <= i < path.breakpoints.len() && (#[trigger] path.breakpoints[i]).prefix_index
            == path.prefixes.len() - 1 {
        path
    } else {
        PathView {
            prefixes: path.prefixes,
            breakpoints: path.breakpoints.push(
                BreakpointView {
                    prefix_index: path.prefixes.len() - 1,
                    ttl_secs: ttl as int,
                },
            ),
        }
    }
}

/// The path of a request. A request that itself asks for an entry has a breakpoint at its
/// end.
pub open spec fn request_path(request: JsonView) -> PathView {
    let path = path_of(segments(request));
    match mark_of(request) {
        Some(ttl) => with_breakpoint(path, ttl),
        None => path,
    }
}

/// Puts a prefix at the end of the path: what was hashed before it and its own material.
pub fn push_prefix(
    path: &mut CachePath,
    hashed: &mut String,
    cumulative_tokens: &mut i32,
    hash_material: &str,
    token_count: i32,
)
    requires
        i32::MIN <= *old(cumulative_tokens) + token_count <= i32::MAX,
    ensures
        final(hashed)@ == old(hashed)@ + hash_material@,
        *final(cumulative_tokens) == *old(cumulative_tokens) + token_count,
        final(path)@ == (PathView {
            prefixes: old(path)@.prefixes.push(
                PrefixView {
                    hash: sha256_hex(encode_utf8(final(hashed)@)),
                    tokens: *final(cumulative_tokens) as int,
                },
            ),
            breakpoints: old(path)@.breakpoints,
        }),
        is_hash(final(path)@.prefixes.last().hash),
{
    let ghost before = path@;
    hashed.append(hash_material);
    *cumulative_tokens = *cumulative_tokens + token_count;
    path.prefixes.push(
        CachePrefix { hash: finalize_hash(hashed.as_str()), tokens: *cumulative_tokens },
    );
    assert(path@.prefixes =~= before.prefixes.push(path@.prefixes.last()));
}

/// Puts a breakpoint at the last prefix of the path, unless there is one or no prefix.
pub fn push_breakpoint(path: &mut CachePath, ttl_secs: u64)
    ensures
        final(path)@ == with_breakpoint(old(path)@, ttl_secs),
{
    if path.prefixes.len() == 0 {
        return;
    }
    let prefix_index: usize = path.prefixes.len() - 1;
    let ghost before = path@;
    let mut at: usize = 0;
    while at < path.breakpoints.len()
        invariant
            at <= path.breakpoints@.len(),
            before == path@,
            before == old(path)@,
            prefix_index == before.prefixes.len() - 1,
            forall|i: int|
                0 <= i < at ==> (#[trigger] before.breakpoints[i]).prefix_index != prefix_index,
        decreases path.breakpoints.len() - at,
    {
        assert(before.breakpoints[at as int] == path.breakpoints@[at as int]@);
        if path.breakpoints[at].prefix_index == prefix_index {
            return;
        }
        at = at + 1;
    }
    path.breakpoints.push(CacheBreakpoint { prefix_index, ttl_secs });
    assert(path@.breakpoints =~= before.breakpoints.push(path@.breakpoints.last()));
}

proof fn lemma_tokens_append(first: Seq<Segment>, second: Seq<Segment>)
    ensures
        segment_tokens(first + second) == segment_tokens(first) + segment_tokens(second),
    decreases second.len(),
{
    if second.len() == 0 {
        assert(first + second =~= first);
    } else {
        lemma_tokens_append(first, second.drop_last());
        assert((first + second).drop_last() =~= first + second.drop_last());
    }
}

/// The breakpoints of segments stand at their places, in ascending order.
pub proof fn lemma_marks_ascend(segments: Seq<Segment>)
    ensures
        forall|i: int|
            0 <= i < marks(segments).len() ==> 0 <= (#[trigger] marks(segments)[i]).prefix_index
                < segments.len(),
        forall|i: int, j: int|
            #![trigger marks(segments)[i], marks(segments)[j]]
            0 <= i < j < marks(segments).len() ==> marks(segments)[i].prefix_index
                < marks(segments)[j].prefix_index,
    decreases segments.len(),
{
    if segments.len() > 0 {
        lemma_marks_ascend(segments.drop_last());
        let earlier = marks(segments.drop_last());
        let all = marks(segments);
        assert(forall|i: int| 0 <= i < earlier.len() ==> #[trigger] all[i] == earlier[i]);
    }
}

proof fn lemma_push_segment(done: Seq<Segment>, segment: Segment)
    ensures
        prefixes_of(done.push(segment)) == prefixes_of(done).push(prefix_of(done.push(segment))),
        materials(done.push(segment)) == materials(done) + segment.material,
        segment_tokens(done.push(segment)) == segment_tokens(done) + segment.tokens,
        segment.ttl is None ==> path_of(done.push(segment)) == (PathView {
            prefixes: prefixes_of(done).push(prefix_of(done.push(segment))),
            breakpoints: marks(done),
        }),
        segment.ttl matches Some(ttl) ==> path_of(done.push(segment)) == with_breakpoint(
            PathView {
                prefixes: prefixes_of(done).push(prefix_of(done.push(segment))),
                breakpoints: marks(done),
            },
            ttl,
        ),
{
    let more = done.push(segment);
    assert(more.drop_last() =~= done);
    assert forall|i: int| 0 <= i < done.len() implies prefixes_of(more)[i] == #[trigger] prefixes_of(
        done,
    )[i] by {
        assert(more.take(i + 1) =~= done.take(i + 1));
    }
    assert(more.take(more.len() as int) =~= more);
    assert(prefixes_of(more) =~= prefixes_of(done).push(prefix_of(more)));
    lemma_marks_ascend(done);
}

/// A path in the making.
struct PathBuilder {
    path: CachePath,
    hashed: String,
    tokens: i32,
    /// The segments that went into it.
    done: Ghost<Seq<Segment>>,
}

/// All prefixes have hashes of the right form.
pub open spec fn hashes_formed(prefixes: Seq<PrefixView>) -> bool {
    forall|i: int| 0 <= i < prefixes.len() ==> is_hash((#[trigger] prefixes[i]).hash)
}

impl PathBuilder {
    spec fn built(self) -> bool {
        &&& self.path@ == path_of(self.done@)
        &&& self.hashed@ == materials(self.done@)
        &&& self.tokens == segment_tokens(self.done@)
        &&& hashes_formed(self.path@.prefixes)
    }

    fn new() -> (builder: PathBuilder)
        ensures
            builder.built(),
            builder.done@ == Seq::<Segment>::empty(),
    {
        let builder = PathBuilder {
            path: CachePath { prefixes: Vec::new(), breakpoints: Vec::new() },
            hashed: String::new(),
            tokens: 0,
            done: Ghost(Seq::empty()),
        };
        assert(builder.path@ =~= path_of(Seq::<Segment>::empty()));
        builder
    }

    /// Adds a segment, unless its tokens are too many.
    fn push_segment(&mut self, material: &str, tokens: i32, ttl: Option<u64>) -> (fits: bool)
        requires
            old(self).built(),
            tokens >= 0,
        ensures
            fits ==> final(self).built() && final(self).done@ == old(self).done@.push(
                Segment { material: material@, tokens: tokens as nat, ttl },
            ),
            !fits ==> segment_tokens(old(self).done@) + tokens > i32::MAX,
    {
        if self.tokens.checked_add(tokens).is_none() {
            return false;
        }
        let ghost segment = Segment { material: material@, tokens: tokens as nat, ttl };
        let ghost before = self.path@;
        proof {
            lemma_push_segment(self.done@, segment);
        }
        push_prefix(&mut self.path, &mut self.hashed, &mut self.tokens, material, tokens);
        assert(hashes_formed(self.path@.prefixes)) by {
            assert forall|i: int| 0 <= i < self.path@.prefixes.len() implies is_hash(
                (#[trigger] self.path@.prefixes[i]).hash,
            ) by {
                if i < before.prefixes.len() {
                    assert(self.path@.prefixes[i] == before.prefixes[i]);
                }
            }
        }
        if let Some(ttl_secs) = ttl {
            push_breakpoint(&mut self.path, ttl_secs);
        }
        proof {
            self.done@ = self.done@.push(segment);
        }
        true
    }

    /// Adds the tools of a request in the order of their names, unless their tokens are too
    /// many.
    fn push_tools(&mut self, request: &Json) -> (fits: bool)
        requires
            old(self).built(),
        ensures
            fits ==> final(self).built() && final(self).done@ == old(self).done@ + tool_segments(
                request@,
            ),
            !fits ==> segment_tokens(old(self).done@ + tool_segments(request@)) > i32::MAX,
    {
        let tools = match request.array_field("tools") {
            Some(tools) => tools,
            None => {
                assert(self.done@ + tool_segments(request@) =~= self.done@);
                return true;
            },
        };
        let sorted = sort_tools(tools);
        let ghost all = tool_segments(request@);
        let ghost start = self.done@;
        let mut at: usize = 0;
        assert(self.done@ =~= start + all.take(0));
        while at < sorted.len()
            invariant
                at <= sorted@.len(),
                start == old(self).done@,
                all == tool_segments(request@),
                all == borrowed_view(sorted@).map_values(|tool: JsonView| tool_segment(tool)),
                self.built(),
                self.done@ == start + all.take(at as int),
            decreases sorted.len() - at,
        {
            let tool = sorted[at];
            assert(borrowed_view(sorted@)[at as int] == tool@);
            assert(all[at as int] == tool_segment(tool@));
            let normalized = normalize_tool(tool);
            let tokens: i32 = count_tokens(normalized.as_str());
            if !self.push_segment(normalized.as_str(), tokens, read_mark(tool)) {
                proof {
                    lemma_too_many(start, all, at as int);
                }
                return false;
            }
            assert(self.done@ =~= start + all.take(at + 1));
            at = at + 1;
        }
        assert(all.take(all.len() as int) =~= all);
        true
    }

    /// Adds the system prompt of a request, unless its tokens are too many.
    fn push_system(&mut self, request: &Json) -> (fits: bool)
        requires
            old(self).built(),
        ensures
            fits ==> final(self).built() && final(self).done@ == old(self).done@ + system_segments(
                request@,
            ),
            !fits ==> segment_tokens(old(self).done@ + system_segments(request@)) > i32::MAX,
    {
        let ghost all = system_segments(request@);
        let ghost start = self.done@;
        match request.get("system") {
            Some(system) => {
                match system {
                    Json::Str(text) => {
                        let tokens: i32 = count_tokens(text.as_str());
                        let fits = self.push_segment(text.as_str(), tokens, None);
                        proof {
                            assert(all =~= seq![text_segment(text@)]);
                            assert(start.push(text_segment(text@)) =~= start + all);
                            if !fits {
                                lemma_too_many(start, all, 0);
                                assert(all.take(0) =~= Seq::<Segment>::empty());
                            }
                        }
                        fits
                    },
                    Json::Array(messages) => {
                        proof {
                            lemma_array_view(*messages);
                        }
                        let mut at: usize = 0;
                        assert(self.done@ =~= start + all.take(0));
                        while at < messages.len()
                            invariant
                                at <= messages@.len(),
                                start == old(self).done@,
                                all == system_segments(request@),
                                all == values_view(messages@).map_values(
                                    |message: JsonView| system_segment(message),
                                ),
                                self.built(),
                                self.done@ == start + all.take(at as int),
                            decreases messages.len() - at,
                        {
                            let message = &messages[at];
                            assert(all[at as int] == system_segment(message@));
                            let text = match message.text_field("text") {
                                Some(text) => text,
                                None => empty_text(),
                            };
                            let tokens: i32 = count_tokens(text);
                            if !self.push_segment(text, tokens, read_mark(message)) {
                                proof {
                                    lemma_too_many(start, all, at as int);
                                }
                                return false;
                            }
                            assert(self.done@ =~= start + all.take(at + 1));
                            at = at + 1;
                        }
                        assert(all.take(all.len() as int) =~= all);
                        true
                    },
                    _ => {
                        assert(start + all =~= start);
                        true
                    },
                }
            },
            None => {
                assert(start + all =~= start);
                true
            },
        }
    }

    /// Adds a message, unless its tokens are too many.
    fn push_content(&mut self, message: &Json) -> (fits: bool)
        requires
            old(self).built(),
        ensures
            fits ==> final(self).built() && final(self).done@ == old(self).done@
                + content_segments(message@),
            !fits ==> segment_tokens(old(self).done@ + content_segments(message@)) > i32::MAX,
    {
        let ghost all = content_segments(message@);
        let ghost start = self.done@;
        match message.get("content") {
            Some(content) => {
                match content {
                    Json::Array(blocks) => {
                        proof {
                            lemma_array_view(*blocks);
                        }
                        let mut at: usize = 0;
                        assert(self.done@ =~= start + all.take(0));
                        while at < blocks.len()
                            invariant
                                at <= blocks@.len(),
                                start == old(self).done@,
                                all == content_segments(message@),
                                all == values_view(blocks@).map_values(
                                    |block: JsonView| block_segment(block),
                                ),
                                self.built(),
                                self.done@ == start + all.take(at as int),
                            decreases blocks.len() - at,
                        {
                            let block = &blocks[at];
                            assert(all[at as int] == block_segment(block@));
                            let material = match block_cache_hash_material(block).to_text() {
                                Some(text) => text,
                                None => String::new(),
                            };
                            let tokens: i32 = match block.text_field("text") {
                                Some(text) => count_tokens(text),
                                None => 0,
                            };
                            if !self.push_segment(material.as_str(), tokens, read_mark(block)) {
                                proof {
                                    lemma_too_many(start, all, at as int);
                                }
                                return false;
                            }
                            assert(self.done@ =~= start + all.take(at + 1));
                            at = at + 1;
                        }
                        assert(all.take(all.len() as int) =~= all);
                        true
                    },
                    Json::Str(text) => {
                        let tokens: i32 = count_tokens(text.as_str());
                        let fits = self.push_segment(text.as_str(), tokens, None);
                        proof {
                            assert(all =~= seq![text_segment(text@)]);
                            assert(start.push(text_segment(text@)) =~= start + all);
                            if !fits {
                                lemma_too_many(start, all, 0);
                                assert(all.take(0) =~= Seq::<Segment>::empty());
                            }
                        }
                        fits
                    },
                    _ => {
                        assert(start + all =~= start);
                        true
                    },
                }
            },
            None => {
                assert(start + all =~= start);
                true
            },
        }
    }

    /// Adds the messages of a request, unless their tokens are too many.
    fn push_messages(&mut self, request: &Json) -> (fits: bool)
        requires
            old(self).built(),
        ensures
            fits ==> final(self).built() && final(self).done@ == old(self).done@
                + message_segments(request@),
            !fits ==> segment_tokens(old(self).done@ + message_segments(request@)) > i32::MAX,
    {
        let ghost start = self.done@;
        let messages = match request.array_field("messages") {
            Some(messages) => messages,
            None => {
                assert(start + message_segments(request@) =~= start);
                return true;
            },
        };
        let ghost views = values_view(messages@);
        let mut at: usize = 0;
        assert(self.done@ =~= start + messages_segments(views.take(0)));
        while at < messages.len()
            invariant
                at <= messages@.len(),
                start == old(self).done@,
                views == values_view(messages@),
                message_segments(request@) == messages_segments(views),
                self.built(),
                self.done@ == start + messages_segments(views.take(at as int)),
            decreases messages.len() - at,
        {
            assert(views.take(at + 1).drop_last() =~= views.take(at as int));
            assert(views.take(at + 1).last() == messages@[at as int]@);
            let ghost content = content_segments(messages@[at as int]@);
            assert(self.done@ + content =~= start + messages_segments(views.take(at + 1)));
            if !self.push_content(&messages[at]) {
                proof {
                    lemma_messages_tokens_grow(views, at + 1);
                    lemma_tokens_append(start, messages_segments(views.take(at + 1)));
                    lemma_tokens_append(start, messages_segments(views));
                }
                return false;
            }
            at = at + 1;
        }
        assert(views.take(views.len() as int) =~= views);
        true
    }
}

proof fn lemma_messages_tokens_grow(messages: Seq<JsonView>, end: int)
    requires
        0 <= end <= messages.len(),
    ensures
        segment_tokens(messages_segments(messages.take(end))) <= segment_tokens(
            messages_segments(messages),
        ),
    decreases messages.len(),
{
    if end < messages.len() {
        lemma_messages_tokens_grow(messages.drop_last(), end);
        assert(messages.drop_last().take(end) =~= messages.take(end));
        lemma_tokens_append(
            messages_segments(messages.drop_last()),
            content_segments(messages.last()),
        );
    } else {
        assert(messages.take(end) =~= messages);
    }
}

/// Where one segment is too much, all are.
proof fn lemma_too_many(start: Seq<Segment>, all: Seq<Segment>, at: int)
    requires
        0 <= at < all.len(),
        segment_tokens(start + all.take(at)) + all[at].tokens > i32::MAX,
    ensures
        segment_tokens(start + all) > i32::MAX,
{
    let first = start + all.take(at);
    let rest = all.subrange(at, all.len() as int);
    assert(start + all =~= first + rest);
    lemma_tokens_append(first, rest);
    assert(rest =~= seq![all[at]] + rest.drop_first());
    lemma_tokens_append(seq![all[at]], rest.drop_first());
    assert(seq![all[at]].drop_last() =~= Seq::<Segment>::empty());
    assert(segment_tokens(seq![all[at]]) == all[at].tokens) by {
        reveal_with_fuel(segment_tokens, 2);
    }
}

fn empty_text() -> (text: &'static str)
    ensures
        text@ == Seq::<char>::empty(),
{
    proof {
        reveal_strlit("");
        assert(""@ =~= Seq::<char>::empty());
    }
    ""
}

/// The path of a request, unless it has more tokens than an `i32` holds.
pub fn checked_cache_path(request: &Json) -> (path: Option<CachePath>)
    ensures
        match path {
            Some(path) => {
                &&& segment_tokens(segments(request@)) <= i32::MAX
                &&& path@ == request_path(request@)
                &&& hashes_formed(path@.prefixes)
            },
            None => segment_tokens(segments(request@)) > i32::MAX,
        },
{
    let ghost tools = tool_segments(request@);
    let ghost system = system_segments(request@);
    let ghost messages = message_segments(request@);
    let mut builder = PathBuilder::new();
    proof {
        assert(builder.done@ + tools =~= tools);
        lemma_tokens_append(tools, system);
        lemma_tokens_append(tools + system, messages);
    }
    if !builder.push_tools(request) {
        return None;
    }
    if !builder.push_system(request) {
        return None;
    }
    if !builder.push_messages(request) {
        return None;
    }
    if let Some(ttl_secs) = read_mark(request) {
        push_breakpoint(&mut builder.path, ttl_secs);
    }
    Some(builder.path)
}

/// The path of a request.
pub fn compute_cache_path(request: &Json) -> (path: CachePath)
    requires
        segment_tokens(segments(request@)) <= i32::MAX,
    ensures
        path@ == request_path(request@),
        hashes_formed(path@.prefixes),
{
    checked_cache_path(request).unwrap()
}

} // verus!
