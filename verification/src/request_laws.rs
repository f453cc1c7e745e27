//! What holds of the paths of requests: what their hashes do not depend on.

use crate::json::{
    entries_map, lemma_entry_is_member, lemma_member_is_entry, names_ascend, names_differ, Json,
    JsonObject, JsonView,
};
use crate::path::{materials, prefix_of, prefixes_of, segment_tokens};
use crate::request::{
    block_segment, name_of, place_tool, sorted_tools, system_segment, tool_parts, tool_segment,
    Segment,
};
use crate::text::{lemma_lex_antisymmetric, lemma_lex_total, lemma_lex_transitive, lex_le};
use vstd::prelude::*;

verus! {

/// The segments add the same material and the same tokens.
pub open spec fn alike(left: Segment, right: Segment) -> bool {
    left.material == right.material && left.tokens == right.tokens
}

/// Requests whose first segments are alike have the same first prefixes, whatever follows
/// and whatever entries they ask for.
pub proof fn law_like_segments_have_the_same_prefixes(
    left: Seq<Segment>,
    right: Seq<Segment>,
    shared: int,
)
    requires
        0 <= shared <= left.len(),
        shared <= right.len(),
        forall|i: int| 0 <= i < shared ==> alike(#[trigger] left[i], right[i]),
    ensures
        forall|i: int| 0 <= i < shared ==> #[trigger] prefixes_of(left)[i] == prefixes_of(right)[i],
{
    assert forall|i: int| 0 <= i < shared implies #[trigger] prefixes_of(left)[i] == prefixes_of(
        right,
    )[i] by {
        lemma_alike(left.take(i + 1), right.take(i + 1));
    }
}

proof fn lemma_alike(left: Seq<Segment>, right: Seq<Segment>)
    requires
        left.len() == right.len(),
        forall|i: int| 0 <= i < left.len() ==> alike(#[trigger] left[i], right[i]),
    ensures
        prefix_of(left) == prefix_of(right),
        materials(left) == materials(right),
        segment_tokens(left) == segment_tokens(right),
    decreases left.len(),
{
    if left.len() > 0 {
        assert(alike(left[left.len() - 1], right[left.len() - 1]));
        lemma_alike(left.drop_last(), right.drop_last());
    }
}

/// The cache control of a message block changes neither its material nor its tokens.
pub proof fn law_cache_control_does_not_change_a_block(
    members: Map<Seq<char>, JsonView>,
    control: JsonView,
)
    ensures
        alike(
            block_segment(JsonView::Object(members.insert("cache_control"@, control))),
            block_segment(JsonView::Object(members)),
        ),
        alike(
            block_segment(JsonView::Object(members.remove("cache_control"@))),
            block_segment(JsonView::Object(members)),
        ),
{
    reveal_strlit("cache_control");
    reveal_strlit("text");
    assert("cache_control"@.len() != "text"@.len());
    assert(members.insert("cache_control"@, control).remove("cache_control"@) =~= members.remove(
        "cache_control"@,
    ));
    assert(members.remove("cache_control"@).remove("cache_control"@) =~= members.remove(
        "cache_control"@,
    ));
}

/// The cache control of a system message changes neither its material nor its tokens.
pub proof fn law_cache_control_does_not_change_a_system_message(
    members: Map<Seq<char>, JsonView>,
    control: JsonView,
)
    ensures
        alike(
            system_segment(JsonView::Object(members.insert("cache_control"@, control))),
            system_segment(JsonView::Object(members)),
        ),
{
    reveal_strlit("cache_control");
    reveal_strlit("text");
    assert("cache_control"@.len() != "text"@.len());
}

/// The cache control of a tool changes neither its material nor its tokens.
pub proof fn law_cache_control_does_not_change_a_tool(
    members: Map<Seq<char>, JsonView>,
    control: JsonView,
)
    ensures
        alike(
            tool_segment(JsonView::Object(members.insert("cache_control"@, control))),
            tool_segment(JsonView::Object(members)),
        ),
{
    reveal_strlit("cache_control");
    reveal_strlit("name");
    reveal_strlit("description");
    reveal_strlit("input_schema");
    assert("cache_control"@.len() == 13);
    assert("name"@.len() == 4 && "description"@.len() == 11 && "input_schema"@.len() == 12);
    assert(tool_parts(JsonView::Object(members.insert("cache_control"@, control))) == tool_parts(
        JsonView::Object(members),
    ));
}

/// The names of the tools do not fall.
pub open spec fn names_rise(tools: Seq<JsonView>) -> bool {
    forall|i: int, j: int|
        #![trigger tools[i], tools[j]]
        0 <= i <= j < tools.len() ==> lex_le(name_of(tools[i]), name_of(tools[j]))
}

proof fn lemma_place_tool(sorted: Seq<JsonView>, tool: JsonView)
    requires
        names_rise(sorted),
    ensures
        names_rise(place_tool(sorted, tool)),
        place_tool(sorted, tool).len() == sorted.len() + 1,
        place_tool(sorted, tool).to_multiset() == sorted.to_multiset().insert(tool),
        lex_le(name_of(tool), name_of(place_tool(sorted, tool).last())),
        sorted.len() > 0 ==> lex_le(
            name_of(sorted.last()),
            name_of(place_tool(sorted, tool).last()),
        ),
    decreases sorted.len(),
{
    broadcast use vstd::seq_lib::group_to_multiset_ensures;

    let placed = place_tool(sorted, tool);
    lemma_lex_total(name_of(tool), name_of(tool));
    if sorted.len() == 0 || lex_le(name_of(sorted.last()), name_of(tool)) {
        assert forall|i: int, j: int|
            #![trigger placed[i], placed[j]]
            0 <= i <= j < placed.len() implies lex_le(name_of(placed[i]), name_of(placed[j])) by {
            if i < sorted.len() {
                assert(placed[i] == sorted[i]);
                if j < sorted.len() {
                    assert(placed[j] == sorted[j]);
                } else {
                    assert(lex_le(name_of(sorted[i]), name_of(sorted[sorted.len() - 1])));
                    lemma_lex_transitive(
                        name_of(sorted[i]),
                        name_of(sorted.last()),
                        name_of(tool),
                    );
                }
            }
        }
    } else {
        let last = sorted.last();
        let earlier = sorted.drop_last();
        assert(names_rise(earlier)) by {
            assert forall|i: int, j: int|
                #![trigger earlier[i], earlier[j]]
                0 <= i <= j < earlier.len() implies lex_le(
                name_of(earlier[i]),
                name_of(earlier[j]),
            ) by {
                assert(earlier[i] == sorted[i] && earlier[j] == sorted[j]);
            }
        }
        lemma_place_tool(earlier, tool);
        lemma_lex_total(name_of(last), name_of(tool));
        lemma_lex_total(name_of(last), name_of(last));
        let front = place_tool(earlier, tool);
        assert(lex_le(name_of(front.last()), name_of(last))) by {
            lemma_last_placed(earlier, tool);
            if earlier.len() > 0 {
                assert(earlier.last() == sorted[sorted.len() - 2]);
                assert(lex_le(name_of(sorted[sorted.len() - 2]), name_of(sorted[sorted.len() - 1])));
            }
        }
        assert(placed == front.push(last));
        assert forall|i: int, j: int|
            #![trigger placed[i], placed[j]]
            0 <= i <= j < placed.len() implies lex_le(name_of(placed[i]), name_of(placed[j])) by {
            if i < front.len() {
                assert(placed[i] == front[i]);
                if j < front.len() {
                    assert(placed[j] == front[j]);
                } else {
                    assert(lex_le(name_of(front[i]), name_of(front[front.len() - 1])));
                    lemma_lex_transitive(
                        name_of(front[i]),
                        name_of(front.last()),
                        name_of(last),
                    );
                }
            }
        }
        assert(sorted == earlier.push(last));
        assert(placed.to_multiset() =~= sorted.to_multiset().insert(tool));
    }
}

/// The last tool after one was placed is that one, or was the last before.
proof fn lemma_last_placed(sorted: Seq<JsonView>, tool: JsonView)
    ensures
        place_tool(sorted, tool).len() > 0,
        place_tool(sorted, tool).last() == tool || (sorted.len() > 0 && place_tool(
            sorted,
            tool,
        ).last() == sorted.last()),
{
}

/// Sorting tools neither drops nor adds one, and puts their names in order.
pub proof fn law_tools_are_sorted(tools: Seq<JsonView>)
    ensures
        names_rise(sorted_tools(tools)),
        sorted_tools(tools).to_multiset() == tools.to_multiset(),
        sorted_tools(tools).len() == tools.len(),
    decreases tools.len(),
{
    broadcast use vstd::seq_lib::group_to_multiset_ensures;

    if tools.len() > 0 {
        law_tools_are_sorted(tools.drop_last());
        lemma_place_tool(sorted_tools(tools.drop_last()), tools.last());
        assert(tools == tools.drop_last().push(tools.last()));
    }
}

/// No two tools have one name.
pub open spec fn tool_names_differ(tools: Seq<JsonView>) -> bool {
    forall|i: int, j: int|
        #![trigger tools[i], tools[j]]
        0 <= i < j < tools.len() ==> name_of(tools[i]) != name_of(tools[j])
}

proof fn lemma_same_tools_same_order(left: Seq<JsonView>, right: Seq<JsonView>)
    requires
        names_rise(left),
        names_rise(right),
        left.to_multiset() == right.to_multiset(),
        forall|one: JsonView, other: JsonView|
            #![trigger left.contains(one), left.contains(other)]
            left.contains(one) && left.contains(other) && name_of(one) == name_of(other) ==> one
                == other,
    ensures
        left == right,
    decreases left.len(),
{
    broadcast use vstd::seq_lib::group_to_multiset_ensures;

    assert(left.len() == left.to_multiset().len());
    assert(right.len() == right.to_multiset().len());
    if left.len() == 0 {
        assert(left =~= right);
    } else {
        let left_last = left.last();
        let right_last = right.last();
        assert(left.contains(left_last));
        assert(right.contains(right_last));
        assert(right.to_multiset().count(left_last) > 0);
        assert(left.to_multiset().count(right_last) > 0);
        assert(right.contains(left_last));
        assert(left.contains(right_last));
        let i = choose|i: int| 0 <= i < right.len() && right[i] == left_last;
        let j = choose|j: int| 0 <= j < left.len() && left[j] == right_last;
        assert(lex_le(name_of(right[i]), name_of(right[right.len() - 1])));
        assert(lex_le(name_of(left[j]), name_of(left[left.len() - 1])));
        lemma_lex_antisymmetric(name_of(left_last), name_of(right_last));
        assert(left_last == right_last);
        let left_front = left.drop_last();
        let right_front = right.drop_last();
        assert(left == left_front.push(left_last));
        assert(right == right_front.push(right_last));
        assert(left_front.to_multiset() =~= left.to_multiset().remove(left_last));
        assert(right_front.to_multiset() =~= right.to_multiset().remove(right_last));
        assert forall|one: JsonView, other: JsonView|
            #![trigger left_front.contains(one), left_front.contains(other)]
            left_front.contains(one) && left_front.contains(other) && name_of(one) == name_of(
                other,
            ) implies one == other by {
            let a = choose|a: int| 0 <= a < left_front.len() && left_front[a] == one;
            let b = choose|b: int| 0 <= b < left_front.len() && left_front[b] == other;
            assert(left[a] == one && left[b] == other);
            assert(left.contains(one) && left.contains(other));
        }
        lemma_front_rises(left);
        lemma_front_rises(right);
        lemma_same_tools_same_order(left_front, right_front);
    }
}

proof fn lemma_front_rises(tools: Seq<JsonView>)
    requires
        names_rise(tools),
        tools.len() > 0,
    ensures
        names_rise(tools.drop_last()),
{
    let front = tools.drop_last();
    assert forall|i: int, j: int|
        #![trigger front[i], front[j]]
        0 <= i <= j < front.len() implies lex_le(name_of(front[i]), name_of(front[j])) by {
        assert(front[i] == tools[i] && front[j] == tools[j]);
    }
}

/// The order in which a request lists tools of different names does not matter.
pub proof fn law_tool_order_does_not_matter(left: Seq<JsonView>, right: Seq<JsonView>)
    requires
        left.to_multiset() == right.to_multiset(),
        tool_names_differ(left),
    ensures
        sorted_tools(left) == sorted_tools(right),
{
    broadcast use vstd::seq_lib::group_to_multiset_ensures;

    law_tools_are_sorted(left);
    law_tools_are_sorted(right);
    let sorted = sorted_tools(left);
    assert forall|one: JsonView, other: JsonView|
        #![trigger sorted.contains(one), sorted.contains(other)]
        sorted.contains(one) && sorted.contains(other) && name_of(one) == name_of(
            other,
        ) implies one == other by {
        assert(left.to_multiset().count(one) > 0);
        assert(left.to_multiset().count(other) > 0);
        assert(left.contains(one) && left.contains(other));
        let a = choose|a: int| 0 <= a < left.len() && left[a] == one;
        let b = choose|b: int| 0 <= b < left.len() && left[b] == other;
        if a < b {
            assert(name_of(left[a]) != name_of(left[b]));
        } else if b < a {
            assert(name_of(left[b]) != name_of(left[a]));
        }
    }
    lemma_same_tools_same_order(sorted, sorted_tools(right));
}

/// The tools with this name, in their order.
pub open spec fn named(tools: Seq<JsonView>, name: Seq<char>) -> Seq<JsonView> {
    tools.filter(|tool: JsonView| name_of(tool) == name)
}

proof fn lemma_place_keeps_order(sorted: Seq<JsonView>, tool: JsonView, name: Seq<char>)
    requires
        names_rise(sorted),
    ensures
        named(place_tool(sorted, tool), name) == named(sorted.push(tool), name),
    decreases sorted.len(),
{
    reveal(Seq::filter);
    assert(sorted.push(tool).drop_last() =~= sorted);
    if sorted.len() > 0 && !lex_le(name_of(sorted.last()), name_of(tool)) {
        let earlier = sorted.drop_last();
        let last = sorted.last();
        lemma_front_rises(sorted);
        lemma_place_keeps_order(earlier, tool, name);
        assert(place_tool(sorted, tool).drop_last() =~= place_tool(earlier, tool));
        assert(earlier.push(tool).drop_last() =~= earlier);
        assert(name_of(last) != name_of(tool)) by {
            lemma_lex_total(name_of(tool), name_of(tool));
        }
        let front = named(earlier, name);
        assert(named(sorted, name) == if name_of(last) == name {
            front.push(last)
        } else {
            front
        });
        assert(named(earlier.push(tool), name) == if name_of(tool) == name {
            front.push(tool)
        } else {
            front
        });
        assert(named(place_tool(sorted, tool), name) == if name_of(last) == name {
            named(place_tool(earlier, tool), name).push(last)
        } else {
            named(place_tool(earlier, tool), name)
        });
        assert(named(sorted.push(tool), name) == if name_of(tool) == name {
            named(sorted, name).push(tool)
        } else {
            named(sorted, name)
        });
    }
}

/// Tools of one name stay in the order in which the request lists them.
pub proof fn law_tools_of_one_name_keep_their_order(tools: Seq<JsonView>, name: Seq<char>)
    ensures
        named(sorted_tools(tools), name) == named(tools, name),
    decreases tools.len(),
{
    reveal(Seq::filter);
    if tools.len() > 0 {
        let earlier = sorted_tools(tools.drop_last());
        law_tools_of_one_name_keep_their_order(tools.drop_last(), name);
        law_tools_are_sorted(tools.drop_last());
        lemma_place_keeps_order(earlier, tools.last(), name);
        assert(earlier.push(tools.last()).drop_last() =~= earlier);
    }
}

/// The entry stands in the list, as far as what it is goes.
pub open spec fn has_entry(entries: Seq<(String, Json)>, name: Seq<char>, value: JsonView) -> bool {
    exists|i: int|
        0 <= i < entries.len() && (#[trigger] entries[i]).0@ == name && entries[i].1@ == value
}

/// Objects with the same entries in any order are the same, and so are the hashes made of
/// them.
pub proof fn law_member_order_does_not_matter(left: JsonObject, right: JsonObject)
    requires
        names_differ(left.entries@),
        names_differ(right.entries@),
        forall|i: int|
            0 <= i < left.entries@.len() ==> has_entry(
                right.entries@,
                (#[trigger] left.entries@[i]).0@,
                left.entries@[i].1@,
            ),
        forall|i: int|
            0 <= i < right.entries@.len() ==> has_entry(
                left.entries@,
                (#[trigger] right.entries@[i]).0@,
                right.entries@[i].1@,
            ),
    ensures
        left@ == right@,
        block_segment(Json::Object(left)@) == block_segment(Json::Object(right)@),
{
    assert forall|key: Seq<char>| #[trigger] left@.dom().contains(key) implies right@.contains_key(
        key,
    ) && left@[key] == right@[key] by {
        let at = lemma_member_is_entry(left.entries@, key);
        assert(has_entry(right.entries@, left.entries@[at].0@, left.entries@[at].1@));
        let place = choose|i: int|
            0 <= i < right.entries@.len() && (#[trigger] right.entries@[i]).0@ == key
                && right.entries@[i].1@ == left.entries@[at].1@;
        lemma_entry_is_member(right.entries@, place);
    }
    assert forall|key: Seq<char>| #[trigger] right@.dom().contains(key) implies left@.contains_key(
        key,
    ) by {
        let at = lemma_member_is_entry(right.entries@, key);
        assert(has_entry(left.entries@, right.entries@[at].0@, right.entries@[at].1@));
        let place = choose|i: int|
            0 <= i < left.entries@.len() && (#[trigger] left.entries@[i]).0@ == key
                && left.entries@[i].1@ == right.entries@[at].1@;
        lemma_entry_is_member(left.entries@, place);
    }
    assert(left@ =~= right@);
}

/// Two objects that are the same and whose names ascend list the same members in the same
/// order.
pub proof fn law_sorted_objects_are_alike(left: JsonObject, right: JsonObject)
    requires
        names_ascend(left.entries@),
        names_ascend(right.entries@),
        left@ == right@,
    ensures
        left.entries@.len() == right.entries@.len(),
        forall|i: int|
            0 <= i < left.entries@.len() ==> {
                &&& (#[trigger] left.entries@[i]).0@ == right.entries@[i].0@
                &&& left.entries@[i].1@ == right.entries@[i].1@
            },
{
    lemma_sorted_alike(left.entries@, right.entries@);
}

proof fn lemma_sorted_alike(left: Seq<(String, Json)>, right: Seq<(String, Json)>)
    requires
        names_ascend(left),
        names_ascend(right),
        entries_map(left) == entries_map(right),
    ensures
        left.len() == right.len(),
        forall|i: int|
            0 <= i < left.len() ==> (#[trigger] left[i]).0@ == right[i].0@ && left[i].1@
                == right[i].1@,
    decreases left.len(),
{
    if left.len() == 0 {
        if right.len() > 0 {
            assert(entries_map(right).contains_key(right.last().0@));
        }
    } else {
        let left_last = left.last();
        assert(entries_map(left).contains_key(left_last.0@));
        if right.len() == 0 {
            assert(false);
        }
        let right_last = right.last();
        assert(entries_map(right).contains_key(right_last.0@));
        let i = lemma_member_is_entry(right, left_last.0@);
        let j = lemma_member_is_entry(left, right_last.0@);
        lemma_lex_total(left_last.0@, left_last.0@);
        assert(lex_le(left_last.0@, right_last.0@)) by {
            if i < right.len() - 1 {
                assert(lex_le(right[i].0@, right[right.len() - 1].0@));
            }
        }
        assert(lex_le(right_last.0@, left_last.0@)) by {
            if j < left.len() - 1 {
                assert(lex_le(left[j].0@, left[left.len() - 1].0@));
            }
        }
        lemma_lex_antisymmetric(left_last.0@, right_last.0@);
        let left_front = left.drop_last();
        let right_front = right.drop_last();
        lemma_front_lacks(left);
        lemma_front_lacks(right);
        assert(entries_map(left_front) =~= entries_map(left).remove(left_last.0@));
        assert(entries_map(right_front) =~= entries_map(right).remove(right_last.0@));
        assert(entries_map(left)[left_last.0@] == left_last.1@);
        assert(entries_map(right)[right_last.0@] == right_last.1@);
        assert(forall|k: int| 0 <= k < left_front.len() ==> #[trigger] left_front[k] == left[k]);
        assert(forall|k: int| 0 <= k < right_front.len() ==> #[trigger] right_front[k] == right[k]);
        lemma_sorted_alike(left_front, right_front);
        assert forall|k: int| 0 <= k < left.len() implies (#[trigger] left[k]).0@ == right[k].0@
            && left[k].1@ == right[k].1@ by {
            if k < left_front.len() {
                assert(left_front[k] == left[k] && right_front[k] == right[k]);
            }
        }
    }
}

proof fn lemma_front_lacks(entries: Seq<(String, Json)>)
    requires
        names_ascend(entries),
        entries.len() > 0,
    ensures
        names_ascend(entries.drop_last()),
        !entries_map(entries.drop_last()).contains_key(entries.last().0@),
{
    let front = entries.drop_last();
    assert(forall|k: int| 0 <= k < front.len() ==> #[trigger] front[k] == entries[k]);
    if entries_map(front).contains_key(entries.last().0@) {
        let at = lemma_member_is_entry(front, entries.last().0@);
        assert(entries[at].0@ != entries[entries.len() - 1].0@);
    }
}

} // verus!
