//! The part of a conversation that a model gets to see.
use vstd::prelude::*;

use crate::json;
use crate::json::render;
use crate::protocol;
use crate::protocol::{ConversationItem, ItemV, Role};
use crate::text;
use crate::text::{same_text, text_bytes};

verus! {

/// A conversation cut down to a size.
#[derive(Debug, PartialEq)]
pub struct ContextWindow {
    pub items: Vec<ConversationItem>,
    pub removed_items: usize,
    pub estimated_chars: usize,
}

/// Whether an entry is a system message.
pub open spec fn is_system(item: ItemV) -> bool {
    item matches ItemV::Message { role, .. } && role == Role::System
}

/// The system messages of a conversation, or the entries that are none, in order.
pub open spec fn part(items: Seq<ItemV>, system: bool) -> Seq<ItemV>
    decreases items.len(),
{
    if items.len() == 0 {
        Seq::empty()
    } else {
        let front = part(items.drop_last(), system);
        if is_system(items.last()) == system {
            front.push(items.last())
        } else {
            front
        }
    }
}

/// The bytes of an entry's texts; the arguments of a call count with their JSON text.
pub open spec fn item_size(item: ItemV) -> nat {
    match item {
        ItemV::Message { content, .. } => text::byte_len(content),
        ItemV::ToolCall { id, name, args } => text::byte_len(id) + text::byte_len(name)
            + text::byte_len(json::json_text(args)),
        ItemV::ToolResult { id, output } => text::byte_len(id) + text::byte_len(output),
    }
}

/// The bytes of all entries together.
pub open spec fn total_size(items: Seq<ItemV>) -> nat
    decreases items.len(),
{
    if items.len() == 0 {
        0
    } else {
        total_size(items.drop_last()) + item_size(items.last())
    }
}

/// The size as a machine number: the largest one where it does not fit.
pub open spec fn capped(size: nat) -> usize {
    if size > usize::MAX {
        usize::MAX
    } else {
        size as usize
    }
}

/// The last call with an identity among the entries before `end`.
pub open spec fn last_call(items: Seq<ItemV>, end: nat, id: Seq<char>) -> Option<nat>
    decreases end,
{
    if end == 0 {
        None
    } else if items[end - 1] matches ItemV::ToolCall { id: called, .. } && called == id {
        Some((end - 1) as nat)
    } else {
        last_call(items, (end - 1) as nat, id)
    }
}

/// The call that an entry answers, where it is the result of one: the nearest before it with its
/// identity.
pub open spec fn answered_call(items: Seq<ItemV>, j: int) -> Option<nat> {
    match items[j] {
        ItemV::ToolResult { id, .. } => last_call(items, j as nat, id),
        _ => None,
    }
}

/// Whether no entry from `start` to `end` answers a call before `start`.
pub open spec fn holds_its_calls(items: Seq<ItemV>, start: nat, end: nat) -> bool {
    forall|j: int|
        start <= j < end ==> (#[trigger] answered_call(items, j) matches Some(i) ==> start <= i)
}

/// Whether a unit that ends before `end` can start here: at the front, or with a message in front of
/// all the calls that are answered in it.
pub open spec fn starts_unit(items: Seq<ItemV>, start: nat, end: nat) -> bool {
    start == 0 || (items[start as int] is Message && holds_its_calls(items, start, end))
}

/// The last place up to `start` where a unit that ends before `end` can start.
pub open spec fn unit_start_from(items: Seq<ItemV>, start: nat, end: nat) -> nat
    decreases start,
{
    if starts_unit(items, start, end) {
        start
    } else {
        unit_start_from(items, (start - 1) as nat, end)
    }
}

/// Where the unit that ends before `end` starts: a message and what follows it, back to the calls
/// that are answered in it. The first unit may lack the message.
pub open spec fn unit_start(items: Seq<ItemV>, end: nat) -> nat {
    unit_start_from(items, (end - 1) as nat, end)
}

/// How many of the entries before `end` are cut, from the front: walking back unit by unit, the
/// cut comes before the first unit with which the size, `size` so far, would go over `limit`. The
/// unit that is looked at `first` is kept whatever its size.
pub open spec fn cut(items: Seq<ItemV>, end: nat, size: nat, limit: usize, first: bool) -> nat
    decreases end,
    via cut_decreases
{
    if end == 0 {
        0
    } else {
        let start = unit_start(items, end);
        let next = size + total_size(items.subrange(start as int, end as int));
        if !first && capped(next) > limit {
            end
        } else {
            cut(items, start, next, limit, false)
        }
    }
}

#[via_fn]
proof fn cut_decreases(items: Seq<ItemV>, end: nat, size: nat, limit: usize, first: bool) {
    if end > 0 {
        lemma_unit_start(items, end);
    }
}

proof fn lemma_unit_start_from(items: Seq<ItemV>, start: nat, end: nat)
    ensures
        unit_start_from(items, start, end) <= start,
        starts_unit(items, unit_start_from(items, start, end), end),
        forall|s: nat|
            unit_start_from(items, start, end) < s <= start ==> !#[trigger] starts_unit(
                items,
                s,
                end,
            ),
    decreases start,
{
    if !starts_unit(items, start, end) {
        lemma_unit_start_from(items, (start - 1) as nat, end);
    }
}

/// A unit is not empty, and starts at the last place where it can.
pub proof fn lemma_unit_start(items: Seq<ItemV>, end: nat)
    requires
        0 < end,
    ensures
        unit_start(items, end) < end,
        starts_unit(items, unit_start(items, end), end),
        forall|s: nat|
            unit_start(items, end) < s < end ==> !#[trigger] starts_unit(items, s, end),
{
    lemma_unit_start_from(items, (end - 1) as nat, end);
}

proof fn lemma_last_call(items: Seq<ItemV>, end: nat, id: Seq<char>)
    ensures
        match last_call(items, end, id) {
            Some(i) => {
                &&& i < end
                &&& items[i as int] matches ItemV::ToolCall { id: called, .. } && called == id
                &&& forall|k: int|
                    i < k < end ==> !(#[trigger] items[k] matches ItemV::ToolCall { id: called, .. }
                        && called == id)
            },
            None => forall|k: int|
                0 <= k < end ==> !(#[trigger] items[k] matches ItemV::ToolCall { id: called, .. }
                    && called == id),
        },
    decreases end,
{
    if end > 0 {
        lemma_last_call(items, (end - 1) as nat, id);
    }
}

/// How many entries that are no system messages are cut from a conversation.
pub open spec fn removed(items: Seq<ItemV>, limit: usize) -> nat {
    let others = part(items, false);
    cut(others, others.len(), total_size(part(items, true)), limit, true)
}

/// What is left of a conversation: its system messages, then what is not cut of the rest.
pub open spec fn window(items: Seq<ItemV>, limit: usize) -> Seq<ItemV> {
    part(items, true) + part(items, false).skip(removed(items, limit) as int)
}

/// The size of an entry.
pub fn item_chars(item: &ConversationItem) -> (size: usize)
    ensures
        size == capped(item_size(item@)),
{
    match item {
        ConversationItem::Message { content, .. } => text_bytes(content.as_str()),
        ConversationItem::ToolCall { id, name, args } => text_bytes(id.as_str()).saturating_add(
            text_bytes(name.as_str()),
        ).saturating_add(text_bytes(render(args).as_str())),
        ConversationItem::ToolResult { id, output } => text_bytes(id.as_str()).saturating_add(
            text_bytes(output.as_str()),
        ),
    }
}

proof fn lemma_total_size_splits(items: Seq<ItemV>, i: int)
    requires
        0 <= i <= items.len(),
    ensures
        total_size(items) == total_size(items.take(i)) + total_size(items.skip(i)),
    decreases items.len(),
{
    if i == items.len() {
        assert(items.take(i) == items);
        assert(items.skip(i) == Seq::<ItemV>::empty());
    } else {
        lemma_total_size_splits(items.drop_last(), i);
        assert(items.drop_last().take(i) == items.take(i));
        assert(items.drop_last().skip(i) == items.skip(i).drop_last());
    }
}

proof fn lemma_parts_cover(items: Seq<ItemV>)
    ensures
        part(items, true).len() + part(items, false).len() == items.len(),
        forall|i: int| 0 <= i < part(items, true).len() ==> is_system(#[trigger] part(items, true)[i]),
        forall|i: int|
            0 <= i < part(items, false).len() ==> !is_system(#[trigger] part(items, false)[i]),
    decreases items.len(),
{
    if items.len() > 0 {
        lemma_parts_cover(items.drop_last());
    }
}

proof fn lemma_cut_bound(items: Seq<ItemV>, end: nat, size: nat, limit: usize, first: bool)
    ensures
        cut(items, end, size, limit, first) <= end,
        first && end > 0 ==> cut(items, end, size, limit, first) <= unit_start(items, end),
    decreases end,
{
    if end > 0 {
        lemma_unit_start(items, end);
        let start = unit_start(items, end);
        lemma_cut_bound(
            items,
            start,
            size + total_size(items.subrange(start as int, end as int)),
            limit,
            false,
        );
    }
}

/// Finds the last call with an identity among the entries before `end`.
fn find_call(items: &Vec<ConversationItem>, end: usize, id: &str) -> (found: Option<usize>)
    requires
        end <= items.len(),
    ensures
        match found {
            Some(i) => last_call(protocol::item_views(items@), end as nat, id@) == Some(i as nat),
            None => last_call(protocol::item_views(items@), end as nat, id@) is None,
        },
{
    let ghost all = protocol::item_views(items@);
    let mut i = end;
    while i > 0
        invariant
            i <= end <= items.len(),
            all == protocol::item_views(items@),
            last_call(all, end as nat, id@) == last_call(all, i as nat, id@),
        decreases i,
    {
        i -= 1;
        assert(all[i as int] == items@[i as int]@);
        if let ConversationItem::ToolCall { id: called, .. } = &items[i] {
            if same_text(called.as_str(), id) {
                return Some(i);
            }
        }
    }
    None
}

/// Finds where the unit that ends before `end` starts.
fn find_unit(items: &Vec<ConversationItem>, end: usize) -> (start: usize)
    requires
        0 < end <= items.len(),
    ensures
        start == unit_start(protocol::item_views(items@), end as nat),
{
    let ghost all = protocol::item_views(items@);
    let mut start: usize = end;
    // The first call that is answered from `start` on, `end` where none is.
    let mut needed: usize = end;
    loop
        invariant
            0 < start <= end <= items.len(),
            all == protocol::item_views(items@),
            unit_start(all, end as nat) == unit_start_from(all, (start - 1) as nat, end as nat),
            needed <= end,
            forall|j: int|
                start <= j < end ==> (#[trigger] answered_call(all, j) matches Some(i) ==> needed
                    <= i),
            needed < end ==> exists|j: int|
                start <= j < end && #[trigger] answered_call(all, j) == Some(needed as nat),
        decreases start,
    {
        let ghost before = needed;
        start -= 1;
        assert(all[start as int] == items@[start as int]@);
        if let ConversationItem::ToolResult { id, .. } = &items[start] {
            if let Some(i) = find_call(items, start, id.as_str()) {
                assert(answered_call(all, start as int) == Some(i as nat));
                if i < needed {
                    needed = i;
                }
            }
        }
        proof {
            if needed == before && needed < end {
                let j = choose|j: int|
                    start < j < end && #[trigger] answered_call(all, j) == Some(needed as nat);
                assert(answered_call(all, j) == Some(needed as nat));
            }
            assert forall|j: int| start <= j < end implies (#[trigger] answered_call(
                all,
                j,
            ) matches Some(i) ==> needed <= i) by {
                if let ItemV::ToolResult { id, .. } = all[j] {
                    lemma_last_call(all, j as nat, id);
                }
            }
            assert(holds_its_calls(all, start as nat, end as nat) == (needed >= start)) by {
                if needed < start {
                    let j = choose|j: int|
                        start <= j < end && #[trigger] answered_call(all, j) == Some(needed as nat);
                    assert(answered_call(all, j) == Some(needed as nat));
                }
            }
        }
        if start == 0 || (needed >= start && matches!(items[start], ConversationItem::Message { .. })) {
            return start;
        }
    }
}

/// The size of the entries from `start` to `end`.
fn unit_chars(items: &Vec<ConversationItem>, start: usize, end: usize) -> (size: usize)
    requires
        start <= end <= items.len(),
    ensures
        size == capped(
            total_size(protocol::item_views(items@).subrange(start as int, end as int)),
        ),
{
    let ghost all = protocol::item_views(items@);
    let mut size: usize = 0;
    assert(all.subrange(start as int, start as int) == Seq::<ItemV>::empty());
    for i in start..end
        invariant
            start <= end <= items.len(),
            all == protocol::item_views(items@),
            size == capped(total_size(all.subrange(start as int, i as int))),
    {
        proof {
            let longer = all.subrange(start as int, i + 1);
            assert(longer.drop_last() == all.subrange(start as int, i as int));
            assert(longer.last() == items@[i as int]@);
        }
        size = size.saturating_add(item_chars(&items[i]));
    }
    size
}

/// Builds a bounded request context without splitting a tool call from its result. The full
/// history stays with the caller; this only shapes what a model sees.
pub fn bounded_context(items: &[ConversationItem], max_chars: usize) -> (context: ContextWindow)
    ensures
        protocol::item_views(context.items@) == window(protocol::item_views(items@), max_chars),
        context.removed_items == removed(protocol::item_views(items@), max_chars),
        context.estimated_chars == capped(total_size(protocol::item_views(context.items@))),
{
    let ghost all = protocol::item_views(items@);
    let ghost systems_v = part(all, true);
    let ghost others_v = part(all, false);
    let mut systems: Vec<ConversationItem> = Vec::new();
    let mut others: Vec<ConversationItem> = Vec::new();
    let mut chars: usize = 0;
    for i in 0..items.len()
        invariant
            all == protocol::item_views(items@),
            protocol::item_views(systems@) == part(all.take(i as int), true),
            protocol::item_views(others@) == part(all.take(i as int), false),
            chars == capped(total_size(protocol::item_views(systems@))),
    {
        let item = items[i].clone();
        let ghost systems_before = systems@;
        let ghost others_before = others@;
        assert(all.take(i + 1).drop_last() == all.take(i as int));
        assert(all.take(i + 1).last() == item@);
        if matches!(item, ConversationItem::Message { role: Role::System, .. }) {
            chars = chars.saturating_add(item_chars(&item));
            systems.push(item);
            assert(protocol::item_views(systems@) == protocol::item_views(systems_before).push(
                item@,
            ));
            assert(protocol::item_views(systems@).drop_last() == protocol::item_views(
                systems_before,
            ));
        } else {
            others.push(item);
            assert(protocol::item_views(others@) == protocol::item_views(others_before).push(
                item@,
            ));
        }
    }
    assert(all.take(items.len() as int) == all);
    proof {
        lemma_parts_cover(all);
    }

    let mut start: usize = others.len();
    let mut first = true;
    let ghost mut size = total_size(systems_v);
    assert(others_v.skip(others_v.len() as int) == Seq::<ItemV>::empty());
    while start > 0
        invariant_except_break
            first == (start == others.len()),
            cut(others_v, start as nat, size, max_chars, first) == cut(
                others_v,
                others_v.len(),
                total_size(systems_v),
                max_chars,
                true,
            ),
        invariant
            start <= others.len(),
            protocol::item_views(others@) == others_v,
            size == total_size(systems_v) + total_size(others_v.skip(start as int)),
            chars == capped(size),
        ensures
            start == cut(
                others_v,
                others_v.len(),
                total_size(systems_v),
                max_chars,
                true,
            ),
        decreases start,
    {
        let unit = find_unit(&others, start);
        proof {
            lemma_unit_start(others_v, start as nat);
        }
        let next = chars.saturating_add(unit_chars(&others, unit, start));
        proof {
            lemma_total_size_splits(others_v.skip(unit as int), start - unit);
            assert(others_v.skip(unit as int).take(start - unit) == others_v.subrange(
                unit as int,
                start as int,
            ));
            assert(others_v.skip(unit as int).skip(start - unit) == others_v.skip(start as int));
        }
        if !first && next > max_chars {
            break;
        }
        proof {
            size = size + total_size(others_v.subrange(unit as int, start as int));
        }
        chars = next;
        start = unit;
        first = false;
    }
    let mut kept = others.split_off(start);
    let ghost kept_v = protocol::item_views(kept@);
    assert(kept_v == others_v.skip(start as int));
    systems.append(&mut kept);
    proof {
        assert(protocol::item_views(systems@) == systems_v + kept_v);
        lemma_total_size_splits(systems_v + kept_v, systems_v.len() as int);
        assert((systems_v + kept_v).take(systems_v.len() as int) == systems_v);
        assert((systems_v + kept_v).skip(systems_v.len() as int) == kept_v);
    }
    ContextWindow { removed_items: start, estimated_chars: chars, items: systems }
}

/// A window keeps every system message, and after them a tail of the other entries, in order: as
/// much is cut as the window says is removed.
pub proof fn law_window_is_systems_and_tail(items: Seq<ItemV>, limit: usize)
    ensures
        part(window(items, limit), true) == part(items, true),
        part(window(items, limit), false) == part(items, false).skip(removed(items, limit) as int),
        removed(items, limit) <= part(items, false).len(),
        window(items, limit).len() + removed(items, limit) == items.len(),
{
    let others = part(items, false);
    lemma_parts_cover(items);
    lemma_cut_bound(others, others.len(), total_size(part(items, true)), limit, true);
    lemma_parts_of_window(part(items, true), others.skip(removed(items, limit) as int));
}

proof fn lemma_parts_of_window(systems: Seq<ItemV>, rest: Seq<ItemV>)
    requires
        forall|i: int| 0 <= i < systems.len() ==> is_system(#[trigger] systems[i]),
        forall|i: int| 0 <= i < rest.len() ==> !is_system(#[trigger] rest[i]),
    ensures
        part(systems + rest, true) == systems,
        part(systems + rest, false) == rest,
    decreases systems.len() + rest.len(),
{
    let both = systems + rest;
    if rest.len() > 0 {
        lemma_parts_of_window(systems, rest.drop_last());
        assert(both.drop_last() == systems + rest.drop_last());
        assert(both.last() == rest.last());
    } else if systems.len() > 0 {
        lemma_parts_of_window(systems.drop_last(), rest);
        assert(both.drop_last() == systems.drop_last() + rest);
        assert(both.last() == systems.last());
    }
}

/// No tool call is split from its result: a call and a later result with its identity are both kept
/// or both removed, whatever stands between them. Where an identity was given to several calls, a
/// result belongs to the nearest one before it.
pub proof fn law_calls_stay_with_their_results(items: Seq<ItemV>, limit: usize, i: int, j: int)
    requires
        0 <= i < j < part(items, false).len(),
        part(items, false)[i] is ToolCall,
        part(items, false)[j] matches ItemV::ToolResult { id, .. } && id == part(
            items,
            false,
        )[i]->ToolCall_id,
        forall|k: int|
            i < k < j ==> !(#[trigger] part(items, false)[k] matches ItemV::ToolCall { id, .. }
                && id == part(items, false)[i]->ToolCall_id),
    ensures
        removed(items, limit) <= i || removed(items, limit) > j,
{
    let others = part(items, false);
    lemma_cut_is_clean(others, others.len(), total_size(part(items, true)), limit, true);
    lemma_last_call(others, j as nat, others[i]->ToolCall_id);
    assert(answered_call(others, j) == Some(i as nat));
}

/// A cut falls in front of a message: an entry that no message separates from a later one that is
/// kept is kept too.
pub proof fn law_units_stay_whole(items: Seq<ItemV>, limit: usize, i: int, j: int)
    requires
        0 <= i < j < part(items, false).len(),
        forall|k: int| i < k <= j ==> !(#[trigger] part(items, false)[k] is Message),
        removed(items, limit) <= j,
    ensures
        removed(items, limit) <= i,
{
    let others = part(items, false);
    lemma_cut_is_clean(others, others.len(), total_size(part(items, true)), limit, true);
    if removed(items, limit) > i {
        assert(!(others[removed(items, limit) as int] is Message));
    }
}

proof fn lemma_cut_is_clean(items: Seq<ItemV>, end: nat, size: nat, limit: usize, first: bool)
    requires
        end <= items.len(),
        first || end == 0 || items[end as int] is Message,
        holds_its_calls(items, end, items.len()),
    ensures
        ({
            let at = cut(items, end, size, limit, first);
            &&& at <= end
            &&& at == 0 || at == end || items[at as int] is Message
            &&& first && end > 0 ==> at < end
            &&& holds_its_calls(items, at, items.len())
        }),
    decreases end,
{
    if end > 0 {
        lemma_unit_start(items, end);
        let start = unit_start(items, end);
        assert(holds_its_calls(items, start, items.len())) by {
            assert forall|j: int| start <= j < items.len() implies (#[trigger] answered_call(
                items,
                j,
            ) matches Some(i) ==> start <= i) by {}
        }
        lemma_cut_is_clean(
            items,
            start,
            size + total_size(items.subrange(start as int, end as int)),
            limit,
            false,
        );
    }
}

/// The latest unit is kept whatever its size: nothing from its first entry on is cut.
pub proof fn law_latest_unit_is_kept(items: Seq<ItemV>, limit: usize)
    requires
        part(items, false).len() > 0,
    ensures
        removed(items, limit) <= unit_start(part(items, false), part(items, false).len()),
{
    let others = part(items, false);
    lemma_cut_bound(others, others.len(), total_size(part(items, true)), limit, true);
}

/// A window is no larger than the limit unless it holds no more than the system messages and the
/// latest unit, and nothing more could be kept: with the next older unit it would be larger.
pub proof fn law_window_fills_the_limit(items: Seq<ItemV>, limit: usize)
    ensures
        ({
            let others = part(items, false);
            let cut_at = removed(items, limit);
            &&& capped(total_size(window(items, limit))) <= limit || others.len() == 0 || cut_at
                == unit_start(others, others.len())
            &&& cut_at > 0 ==> capped(
                total_size(part(items, true)) + total_size(
                    others.skip(unit_start(others, cut_at) as int),
                ),
            ) > limit
        }),
{
    let systems = part(items, true);
    let others = part(items, false);
    assert(others.skip(others.len() as int) == Seq::<ItemV>::empty());
    lemma_cut_fills(others, others.len(), total_size(systems), total_size(systems), limit, true);
    lemma_cut_bound(others, others.len(), total_size(systems), limit, true);
    let kept = others.skip(removed(items, limit) as int);
    lemma_total_size_splits(systems + kept, systems.len() as int);
    assert((systems + kept).take(systems.len() as int) == systems);
    assert((systems + kept).skip(systems.len() as int) == kept);
}

proof fn lemma_cut_fills(
    items: Seq<ItemV>,
    end: nat,
    base: nat,
    size: nat,
    limit: usize,
    first: bool,
)
    requires
        end <= items.len(),
        size == base + total_size(items.skip(end as int)),
        first ==> end == items.len(),
        !first ==> capped(size) <= limit || end == unit_start(items, items.len()),
        !first ==> items.len() > 0,
    ensures
        ({
            let at = cut(items, end, size, limit, first);
            &&& at <= end
            &&& capped(base + total_size(items.skip(at as int))) <= limit || items.len() == 0 || at
                == unit_start(items, items.len())
            &&& at > 0 ==> capped(
                base + total_size(items.skip(unit_start(items, at) as int)),
            ) > limit
        }),
    decreases end,
{
    if end > 0 {
        lemma_unit_start(items, end);
        let start = unit_start(items, end);
        let unit = items.subrange(start as int, end as int);
        lemma_total_size_splits(items.skip(start as int), end - start);
        assert(items.skip(start as int).take(end - start) == unit);
        assert(items.skip(start as int).skip(end - start) == items.skip(end as int));
        if first || capped(size + total_size(unit)) <= limit {
            lemma_cut_fills(items, start, base, size + total_size(unit), limit, false);
        }
    }
}

/// The system messages and the other entries of a conversation are told apart one by one, in order,
/// and none is lost.
pub proof fn law_entries_are_told_apart(items: Seq<ItemV>, item: ItemV)
    ensures
        ({
            let system = item matches ItemV::Message { role: Role::System, .. };
            &&& part(items.push(item), system) == part(items, system).push(item)
            &&& part(items.push(item), !system) == part(items, !system)
        }),
        part(Seq::<ItemV>::empty(), true).len() == 0,
        part(Seq::<ItemV>::empty(), false).len() == 0,
{
    assert(items.push(item).drop_last() == items);
}

/// The size of an entry is the bytes of all texts that it holds, the arguments of a call with the
/// JSON that they are written as; the size of a conversation is that of its entries together.
pub proof fn law_sizes_are_bytes(items: Seq<ItemV>, item: ItemV)
    ensures
        total_size(items.push(item)) == total_size(items) + item_size(item),
        total_size(Seq::<ItemV>::empty()) == 0,
        item matches ItemV::Message { content, .. } ==> item_size(item)
            == vstd::utf8::encode_utf8(content).len(),
        item matches ItemV::ToolCall { id, name, args } ==> item_size(item)
            == vstd::utf8::encode_utf8(id).len() + vstd::utf8::encode_utf8(name).len()
            + vstd::utf8::encode_utf8(json::json_text(args)).len(),
        item matches ItemV::ToolResult { id, output } ==> item_size(item)
            == vstd::utf8::encode_utf8(id).len() + vstd::utf8::encode_utf8(output).len(),
        item_size(item) <= usize::MAX ==> capped(item_size(item)) == item_size(item),
        item_size(item) > usize::MAX ==> capped(item_size(item)) == usize::MAX,
{
    assert(items.push(item).drop_last() == items);
}

/// A unit is as small as it can be: it starts with the last message in front of which no call stands
/// that is answered in it, or with the first entry where there is no such message.
pub proof fn law_units_are_as_small_as_can_be(items: Seq<ItemV>, end: nat)
    requires
        0 < end <= items.len(),
    ensures
        ({
            let start = unit_start(items, end);
            let answers = |i: int, j: int|
                {
                    &&& items[i] is ToolCall && items[j] is ToolResult
                    &&& items[i]->ToolCall_id == items[j]->ToolResult_id
                    &&& forall|k: int|
                        i < k < j ==> !(#[trigger] items[k] is ToolCall
                            && items[k]->ToolCall_id == items[j]->ToolResult_id)
                };
            &&& start < end
            &&& start > 0 ==> items[start as int] is Message
            &&& start > 0 ==> forall|i: int, j: int|
                0 <= i < start <= j < end ==> !#[trigger] answers(i, j)
            &&& forall|s: int|
                start < s < end && (#[trigger] items[s] is Message) ==> exists|i: int, j: int|
                    0 <= i < s <= j < end && #[trigger] answers(i, j)
        }),
{
    let start = unit_start(items, end);
    lemma_unit_start(items, end);
    let answers = |i: int, j: int|
        {
            &&& items[i] is ToolCall && items[j] is ToolResult
            &&& items[i]->ToolCall_id == items[j]->ToolResult_id
            &&& forall|k: int|
                i < k < j ==> !(#[trigger] items[k] is ToolCall && items[k]->ToolCall_id
                    == items[j]->ToolResult_id)
        };
    if start > 0 {
        assert forall|i: int, j: int| 0 <= i < start <= j < end implies !#[trigger] answers(
            i,
            j,
        ) by {
            if answers(i, j) {
                lemma_last_call(items, j as nat, items[j]->ToolResult_id);
                assert(answered_call(items, j) == Some(i as nat)) by {
                    match last_call(items, j as nat, items[j]->ToolResult_id) {
                        Some(k) => {
                            if k < i {
                                assert(!(items[i] matches ItemV::ToolCall { id: called, .. }
                                    && called == items[j]->ToolResult_id));
                            }
                            if k > i {
                                assert(items[k as int] is ToolCall);
                            }
                        },
                        None => {
                            assert(!(items[i] matches ItemV::ToolCall { id: called, .. } && called
                                == items[j]->ToolResult_id));
                        },
                    }
                }
            }
        }
    }
    assert forall|s: int| start < s < end && (#[trigger] items[s] is Message) implies exists|
        i: int,
        j: int,
    | 0 <= i < s <= j < end && #[trigger] answers(i, j) by {
        assert(!starts_unit(items, s as nat, end));
        assert(!holds_its_calls(items, s as nat, end));
        let j = choose|j: int|
            s <= j < end && !(#[trigger] answered_call(items, j) matches Some(i) ==> s <= i);
        lemma_last_call(items, j as nat, items[j]->ToolResult_id);
        let i = answered_call(items, j)->0 as int;
        assert(0 <= i < s);
        assert(answers(i, j));
    }
}

/// The window of a conversation that fits is the whole conversation, its system messages first.
pub proof fn law_what_fits_is_kept(items: Seq<ItemV>, limit: usize)
    requires
        capped(total_size(part(items, true)) + total_size(part(items, false))) <= limit,
        total_size(part(items, true)) + total_size(part(items, false)) <= usize::MAX,
    ensures
        removed(items, limit) == 0,
        window(items, limit) == part(items, true) + part(items, false),
{
    let others = part(items, false);
    law_window_fills_the_limit(items, limit);
    law_window_is_systems_and_tail(items, limit);
    if removed(items, limit) > 0 {
        let start = unit_start(others, removed(items, limit)) as int;
        lemma_unit_start(others, removed(items, limit));
        lemma_total_size_splits(others, start);
    }
    assert(others.skip(0) == others);
}

} // verus!
