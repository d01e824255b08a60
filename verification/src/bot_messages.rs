//! The bot's own recent messages in a channel, read from the JSON that the
//! Discord REST API returns for `GET /channels/{id}/messages`: which of them
//! the bot wrote, their ids, embed titles and component custom ids.

use vstd::prelude::*;
use crate::sorting::{SortKey, isort, stable_sort, lemma_isort_len, lemma_isort_multiset};
use crate::json::{
    first_key, get_array, get_array_spec, get_entry, get_spec, get_str, get_str_spec, key_index,
    lemma_first_key_unique, JsonNode,
};
use crate::text::{chars_of, parse_int_spec, parse_u64, strings_view};

verus! {

/// The custom ids of a component tree, depth first: an object contributes
/// its own `custom_id` string, then those below its `components` array; an
/// array contributes those of its items in order.
pub open spec fn node_ids(value: JsonNode) -> Seq<Seq<char>>
    decreases value,
{
    match value {
        JsonNode::Object(entries) => {
            let own = if exists|i: int| first_key(entries@, "custom_id"@, i) {
                match entries@[choose|i: int| first_key(entries@, "custom_id"@, i)].1 {
                    JsonNode::Str(s) => seq![s@],
                    _ => Seq::empty(),
                }
            } else {
                Seq::empty()
            };
            let below = if exists|i: int| first_key(entries@, "components"@, i) {
                let i = choose|i: int| first_key(entries@, "components"@, i);
                match entries@[i].1 {
                    JsonNode::Array(items) => list_ids(items@),
                    _ => Seq::empty(),
                }
            } else {
                Seq::empty()
            };
            own + below
        },
        JsonNode::Array(items) => list_ids(items@),
        _ => Seq::empty(),
    }
}

/// The custom ids of a sequence of component trees, in order.
pub open spec fn list_ids(items: Seq<JsonNode>) -> Seq<Seq<char>>
    decreases items,
{
    if items.len() == 0 {
        Seq::empty()
    } else {
        list_ids(items.subrange(0, items.len() - 1)) + node_ids(items[items.len() - 1])
    }
}

/// Appends the custom ids of each tree of `items`, in order.
fn collect_list_custom_ids(items: &Vec<JsonNode>, custom_ids: &mut Vec<String>)
    ensures
        strings_view(final(custom_ids)@) == strings_view(old(custom_ids)@) + list_ids(items@),
    decreases items, 0nat,
{
    let mut j: usize = 0;
    while j < items.len()
        invariant
            j <= items.len(),
            strings_view(custom_ids@) == strings_view(old(custom_ids)@) + list_ids(
                items@.subrange(0, j as int),
            ),
        decreases items.len() - j,
    {
        let ghost before = strings_view(custom_ids@);
        assert(decreases_to!(items => items@[j as int]));
        collect_component_custom_ids(&items[j], custom_ids);
        let ghost next = items@.subrange(0, j + 1);
        assert(next.subrange(0, next.len() - 1) == items@.subrange(0, j as int));
        assert(next[next.len() - 1] == items@[j as int]);
        j += 1;
    }
    assert(items@.subrange(0, items.len() as int) == items@);
}

/// Appends the custom ids of the component tree `value` to `custom_ids`.
pub fn collect_component_custom_ids(value: &JsonNode, custom_ids: &mut Vec<String>)
    ensures
        strings_view(final(custom_ids)@) == strings_view(old(custom_ids)@) + node_ids(*value),
    decreases value, 1nat,
{
    match value {
        JsonNode::Object(entries) => {
            let ghost start = strings_view(custom_ids@);
            match key_index(entries, "custom_id") {
                Some(i) => {
                    proof {
                        let w = choose|k: int| first_key(entries@, "custom_id"@, k);
                        lemma_first_key_unique(entries@, "custom_id"@, i as int, w);
                    }
                    match &entries[i].1 {
                        JsonNode::Str(s) => {
                            custom_ids.push(s.clone());
                        },
                        _ => {},
                    }
                },
                None => {},
            }
            let ghost mid = strings_view(custom_ids@);
            match key_index(entries, "components") {
                Some(i) => {
                    proof {
                        let w = choose|k: int| first_key(entries@, "components"@, k);
                        lemma_first_key_unique(entries@, "components"@, i as int, w);
                    }
                    match &entries[i].1 {
                        JsonNode::Array(items) => {
                            assert(decreases_to!(value => entries@[i as int].1));
                            collect_list_custom_ids(items, custom_ids);
                        },
                        _ => {},
                    }
                },
                None => {},
            }
        },
        JsonNode::Array(items) => {
            collect_list_custom_ids(items, custom_ids);
        },
        _ => {},
    }
}

/// A snowflake id written as a decimal string, as `str::parse::<u64>` reads it.
pub open spec fn parse_id_spec(text: Option<Seq<char>>) -> Option<u64> {
    match text {
        Some(t) => match parse_int_spec(t, 0, u64::MAX as int) {
            Some(x) => Some(x as u64),
            None => None,
        },
        None => None,
    }
}

fn parse_id(text: Option<&String>) -> (r: Option<u64>)
    ensures
        r == parse_id_spec(match text {
            Some(t) => Some(t@),
            None => None,
        }),
{
    match text {
        Some(t) => {
            let v = chars_of(t.as_str());
            parse_u64(&v)
        },
        None => None,
    }
}

/// The author id of a message (`/author/id`).
pub open spec fn author_id_spec(message: JsonNode) -> Option<u64> {
    match get_spec(message, "author"@) {
        Some(author) => parse_id_spec(get_str_spec(author, "id"@)),
        None => None,
    }
}

/// The id of a message.
pub open spec fn message_id_spec(message: JsonNode) -> Option<u64> {
    parse_id_spec(get_str_spec(message, "id"@))
}

/// A message the bot `bot_id` wrote and whose id can be read.
pub open spec fn is_bot_message(message: JsonNode, bot_id: u64) -> bool {
    author_id_spec(message) == Some(bot_id) && message_id_spec(message) is Some
}

pub open spec fn items_or_empty(items: Option<Seq<JsonNode>>) -> Seq<JsonNode> {
    match items {
        Some(s) => s,
        None => Seq::empty(),
    }
}

/// The `title` strings of the embeds, in order; an embed without one adds
/// nothing.
pub open spec fn titles_spec(embeds: Seq<JsonNode>) -> Seq<Seq<char>>
    decreases embeds.len(),
{
    if embeds.len() == 0 {
        Seq::empty()
    } else {
        titles_spec(embeds.drop_last()) + match get_str_spec(embeds.last(), "title"@) {
            Some(t) => seq![t],
            None => Seq::empty(),
        }
    }
}

/// What the bot's message reads as: id, whether it has embeds, whether it
/// has components, the embed titles and the custom ids of its components.
pub struct RawBotMessage {
    pub message_id: u64,
    pub has_embeds: bool,
    pub has_components: bool,
    pub embed_titles: Vec<String>,
    pub custom_ids: Vec<String>,
}

impl View for RawBotMessage {
    type V = (u64, bool, bool, Seq<Seq<char>>, Seq<Seq<char>>);

    open spec fn view(&self) -> Self::V {
        (
            self.message_id,
            self.has_embeds,
            self.has_components,
            strings_view(self.embed_titles@),
            strings_view(self.custom_ids@),
        )
    }
}

/// What `message` reads as (for a message of the bot).
pub open spec fn message_view_spec(message: JsonNode) -> (
    u64,
    bool,
    bool,
    Seq<Seq<char>>,
    Seq<Seq<char>>,
) {
    let embeds = items_or_empty(get_array_spec(message, "embeds"@));
    let components = items_or_empty(get_array_spec(message, "components"@));
    (
        message_id_spec(message).unwrap(),
        embeds.len() > 0,
        components.len() > 0,
        titles_spec(embeds),
        list_ids(components),
    )
}

/// A message id with the position of its message in the list.
#[derive(Clone, Copy)]
pub struct IdSlot {
    pub id: u64,
    pub slot: usize,
}

impl SortKey for IdSlot {
    open spec fn key_le(self, other: Self) -> bool {
        self.id <= other.id
    }

    fn key_le_exec(&self, other: &Self) -> (r: bool) {
        self.id <= other.id
    }
}

/// The bot's messages among `messages`, in list order, each by id and position.
pub open spec fn bot_slots(messages: Seq<JsonNode>, bot_id: u64) -> Seq<IdSlot>
    decreases messages.len(),
{
    if messages.len() == 0 {
        Seq::empty()
    } else {
        let rest = bot_slots(messages.drop_last(), bot_id);
        let i = messages.len() - 1;
        if is_bot_message(messages[i], bot_id) {
            rest.push(IdSlot { id: message_id_spec(messages[i]).unwrap(), slot: i as usize })
        } else {
            rest
        }
    }
}

/// The bot's messages of a message list, ordered by id (stably, as
/// `sort_by_key` orders); nothing when the value is no list.
pub open spec fn raw_bot_messages_spec(value: JsonNode, bot_id: u64) -> Seq<
    (u64, bool, bool, Seq<Seq<char>>, Seq<Seq<char>>),
> {
    match value {
        JsonNode::Array(messages) => {
            let order = isort(bot_slots(messages@, bot_id));
            Seq::new(order.len(), |k: int| message_view_spec(messages@[order[k].slot as int]))
        },
        _ => Seq::empty(),
    }
}

proof fn lemma_bot_slots_valid(messages: Seq<JsonNode>, bot_id: u64, x: IdSlot)
    requires
        messages.len() <= usize::MAX,
        bot_slots(messages, bot_id).contains(x),
    ensures
        x.slot < messages.len(),
        is_bot_message(messages[x.slot as int], bot_id),
        x.id == message_id_spec(messages[x.slot as int]).unwrap(),
    decreases messages.len(),
{
    let rest = bot_slots(messages.drop_last(), bot_id);
    let i = messages.len() - 1;
    if rest.contains(x) {
        lemma_bot_slots_valid(messages.drop_last(), bot_id, x);
    }
}

/// The message a bot message reads as.
fn read_bot_message(message: &JsonNode, bot_id: u64) -> (r: RawBotMessage)
    requires
        is_bot_message(*message, bot_id),
    ensures
        r@ == message_view_spec(*message),
{
    let message_id = match parse_id(get_str(message, "id")) {
        Some(id) => id,
        None => 0,
    };
    let mut embed_titles: Vec<String> = Vec::new();
    let mut has_embeds = false;
    match get_array(message, "embeds") {
        Some(embeds) => {
            has_embeds = embeds.len() > 0;
            let mut j: usize = 0;
            while j < embeds.len()
                invariant
                    j <= embeds.len(),
                    strings_view(embed_titles@) == titles_spec(embeds@.take(j as int)),
                decreases embeds.len() - j,
            {
                assert(embeds@.take(j + 1).drop_last() == embeds@.take(j as int));
                match get_str(&embeds[j], "title") {
                    Some(t) => embed_titles.push(t.clone()),
                    None => {},
                }
                j += 1;
            }
            assert(embeds@.take(embeds.len() as int) == embeds@);
        },
        None => {},
    }
    let mut custom_ids: Vec<String> = Vec::new();
    let mut has_components = false;
    match get_array(message, "components") {
        Some(components) => {
            has_components = components.len() > 0;
            collect_list_custom_ids(components, &mut custom_ids);
        },
        None => {},
    }
    RawBotMessage { message_id, has_embeds, has_components, embed_titles, custom_ids }
}

/// The bot's own messages of a `GET /channels/{id}/messages` answer, ordered
/// by message id: a message counts when its author id and its own id read as
/// numbers and the author is `bot_id`.
pub fn raw_bot_messages_from_value(value: &JsonNode, bot_id: u64) -> (r: Vec<RawBotMessage>)
    ensures
        r@.map_values(|m: RawBotMessage| m@) == raw_bot_messages_spec(*value, bot_id),
{
    let messages = match value {
        JsonNode::Array(messages) => messages,
        _ => {
            return Vec::new();
        },
    };
    let mut slots: Vec<IdSlot> = Vec::new();
    let mut i: usize = 0;
    while i < messages.len()
        invariant
            i <= messages.len(),
            slots@ == bot_slots(messages@.take(i as int), bot_id),
        decreases messages.len() - i,
    {
        assert(messages@.take(i + 1).drop_last() == messages@.take(i as int));
        let m = &messages[i];
        let author = match get_entry(m, "author") {
            Some(a) => parse_id(get_str(a, "id")),
            None => None,
        };
        if author == Some(bot_id) {
            match parse_id(get_str(m, "id")) {
                Some(id) => slots.push(IdSlot { id, slot: i }),
                None => {},
            }
        }
        i += 1;
    }
    assert(messages@.take(messages.len() as int) == messages@);
    let order = stable_sort(&slots);
    let ghost full = bot_slots(messages@, bot_id);
    proof {
        lemma_isort_len(full);
        lemma_isort_multiset(full);
    }
    let mut r: Vec<RawBotMessage> = Vec::new();
    let mut k: usize = 0;
    while k < order.len()
        invariant
            k <= order.len(),
            order@ == isort(full),
            full == bot_slots(messages@, bot_id),
            messages@.len() == messages.len(),
            isort(full).to_multiset() == full.to_multiset(),
            r@.len() == k,
            forall|q: int|
                0 <= q < k ==> #[trigger] r@[q]@ == message_view_spec(
                    messages@[order@[q].slot as int],
                ),
        decreases order.len() - k,
    {
        let x = order[k];
        proof {
            broadcast use vstd::seq_lib::group_to_multiset_ensures;

            assert(order@.contains(x));
            assert(order@.to_multiset().count(x) > 0);
            assert(full.contains(x));
            lemma_bot_slots_valid(messages@, bot_id, x);
        }
        let msg = read_bot_message(&messages[x.slot], bot_id);
        r.push(msg);
        k += 1;
    }
    assert(r@.map_values(|m: RawBotMessage| m@) =~= raw_bot_messages_spec(*value, bot_id));
    r
}

} // verus!
