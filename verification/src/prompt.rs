//! The text of a request that its route goes by.
use crate::channel;
use crate::json;
use crate::json::{Json, JsonTree};
use crate::text;
use vstd::prelude::*;
use vstd::string::*;

verus! {

/// All the text in `tree`, each piece on a line of its own; the calls of tools
/// are left out.
pub open spec fn all_text(tree: JsonTree) -> Seq<char>
    decreases tree,
{
    match tree {
        JsonTree::Text(text) => text,
        JsonTree::Array(items) => text::joined(item_texts(items), "\n"@),
        JsonTree::Object(members) => text::joined(member_texts(members), "\n"@),
        _ => Seq::<char>::empty(),
    }
}

/// The text in each of `items`.
pub open spec fn item_texts(items: Seq<JsonTree>) -> Seq<Seq<char>>
    decreases items,
{
    if items.len() == 0 {
        Seq::empty()
    } else {
        item_texts(items.drop_last()).push(all_text(items[items.len() - 1]))
    }
}

/// The text in each of `members` but the calls of tools.
pub open spec fn member_texts(members: Seq<(Seq<char>, JsonTree)>) -> Seq<Seq<char>>
    decreases members,
{
    if members.len() == 0 {
        Seq::empty()
    } else if members[members.len() - 1].0 == "tool_calls"@ {
        member_texts(members.drop_last())
    } else {
        member_texts(members.drop_last()).push(all_text(members[members.len() - 1].1))
    }
}

/// All the text in `value`, the members of an object as they are listed.
fn listed_text(value: &Json) -> (r: String)
    ensures
        r@ == all_text(value.tree()),
    decreases value,
{
    match value {
        Json::Text(text) => text.clone(),
        Json::Array(items) => {
            let ghost all = json::trees(items@);
            let mut lines: Vec<String> = Vec::new();
            let mut i: usize = 0;
            assert(all.take(0) =~= Seq::<JsonTree>::empty());
            assert(text::texts(lines@) =~= Seq::<Seq<char>>::empty());
            while i < items.len()
                invariant
                    i <= items@.len(),
                    *value == Json::Array(*items),
                    all == json::trees(items@),
                    text::texts(lines@) == item_texts(all.take(i as int)),
                decreases items@.len() - i,
            {
                assert(all.take(i + 1).drop_last() =~= all.take(i as int));
                assert(all[i as int] == items@[i as int].tree());
                assert(decreases_to!(*value => value->Array_0));
                assert(decreases_to!(items@ => items@[i as int]));
                let ghost before = lines@;
                let line: String = listed_text(&items[i]);
                lines.push(line);
                assert(text::texts(lines@) =~= text::texts(before).push(line@));
                i += 1;
            }
            assert(all.take(all.len() as int) =~= all);
            text::join(&lines, "\n")
        },
        Json::Object(members) => {
            let ghost all = json::member_trees(members@);
            let mut lines: Vec<String> = Vec::new();
            let mut i: usize = 0;
            assert(all.take(0) =~= Seq::<(Seq<char>, JsonTree)>::empty());
            assert(text::texts(lines@) =~= Seq::<Seq<char>>::empty());
            while i < members.len()
                invariant
                    i <= members@.len(),
                    *value == Json::Object(*members),
                    all == json::member_trees(members@),
                    text::texts(lines@) == member_texts(all.take(i as int)),
                decreases members@.len() - i,
            {
                assert(all.take(i + 1).drop_last() =~= all.take(i as int));
                assert(all[i as int] == (members@[i as int].0@, members@[i as int].1.tree()));
                assert(decreases_to!(*value => value->Object_0));
                assert(decreases_to!(members@ => members@[i as int]));
                assert(decreases_to!(members@[i as int] => members@[i as int].1));
                if !text::same_text(members[i].0.as_str(), "tool_calls") {
                    let ghost before = lines@;
                    let line: String = listed_text(&members[i].1);
                    lines.push(line);
                    assert(text::texts(lines@) =~= text::texts(before).push(line@));
                }
                i += 1;
            }
            assert(all.take(all.len() as int) =~= all);
            text::join(&lines, "\n")
        },
        _ => String::new(),
    }
}

/// All the text in `value`, the members of an object by ascending key.
pub fn extract_text(value: &Json) -> (r: String)
    ensures
        r@ == all_text(json::sorted_tree(value.tree())),
{
    listed_text(&value.in_key_order())
}

/// The message has the role `role`.
pub open spec fn has_role(message: JsonTree, role: Seq<char>) -> bool {
    match json::text_member(message, "role"@) {
        Some(given) => channel::same_word(given, role),
        None => false,
    }
}

/// Has the message the role `expected`?
pub fn message_role_is(message: &Json, expected: &str) -> (r: bool)
    ensures
        r == has_role(message.tree(), expected@),
{
    match message.text_member("role") {
        Some(role) => text::eq_ignore_ascii_case(role, expected),
        None => false,
    }
}

/// The text of a message: that of its content, where it has one.
pub open spec fn message_text(message: JsonTree) -> Seq<char> {
    match message.get("content"@) {
        Some(content) => all_text(content),
        None => all_text(message),
    }
}

/// The text of a message, the members of an object as they are listed.
fn listed_message_text(message: &Json) -> (r: String)
    ensures
        r@ == message_text(message.tree()),
{
    match message.get("content") {
        Some(content) => listed_text(content),
        None => listed_text(message),
    }
}

/// The text of a message.
pub fn message_content_text(message: &Json) -> (r: String)
    ensures
        r@ == message_text(json::sorted_tree(message.tree())),
{
    listed_message_text(&message.in_key_order())
}

/// The last of `messages` with the role `role`.
pub open spec fn last_with_role(messages: Seq<JsonTree>, role: Seq<char>) -> Option<JsonTree>
    decreases messages.len(),
{
    if messages.len() == 0 {
        None
    } else if has_role(messages.last(), role) {
        Some(messages.last())
    } else {
        last_with_role(messages.drop_last(), role)
    }
}

/// The last of `messages` with the role `role`.
fn last_message<'a>(messages: &'a Vec<Json>, role: &str) -> (r: Option<&'a Json>)
    ensures
        json::maybe_tree_ref(r) == last_with_role(json::trees(messages@), role@),
{
    let ghost all = json::trees(messages@);
    let mut i: usize = messages.len();
    assert(all.take(all.len() as int) =~= all);
    while i > 0
        invariant
            i <= messages@.len(),
            all == json::trees(messages@),
            last_with_role(all, role@) == last_with_role(all.take(i as int), role@),
        decreases i,
    {
        i -= 1;
        assert(all.take(i + 1).drop_last() =~= all.take(i as int));
        assert(all[i as int] == messages@[i as int].tree());
        if message_role_is(&messages[i], role) {
            return Some(&messages[i]);
        }
    }
    None
}

/// The text that a request is about: the last thing that the user says, or else
/// the last message, the input or the whole request.
pub open spec fn latest_text(request: JsonTree) -> Seq<char> {
    let messages = json::array_member(request, "messages"@);
    if messages is Some && last_with_role(messages->0, "user"@) is Some {
        message_text(last_with_role(messages->0, "user"@)->0)
    } else if messages is Some && messages->0.len() > 0 {
        message_text(messages->0.last())
    } else {
        match request.get("input"@) {
            Some(input) => all_text(input),
            None => all_text(request),
        }
    }
}

/// The text that a request is about, the members of an object as they are
/// listed.
fn listed_latest_text(request: &Json) -> (r: String)
    ensures
        r@ == latest_text(request.tree()),
{
    if let Some(messages) = request.array_member("messages") {
        if let Some(message) = last_message(messages, "user") {
            return listed_message_text(message);
        }
        if messages.len() > 0 {
            return listed_message_text(&messages[messages.len() - 1]);
        }
    }
    match request.get("input") {
        Some(input) => listed_text(input),
        None => listed_text(request),
    }
}

/// The text that a request is about.
pub fn extract_routing_text(value: &Json) -> (r: String)
    ensures
        r@ == latest_text(json::sorted_tree(value.tree())),
{
    listed_latest_text(&value.in_key_order())
}

/// The text of the message `message`, as a list of none or one.
pub open spec fn texts_of_one(message: Option<JsonTree>) -> Seq<Seq<char>> {
    match message {
        Some(message) => seq![message_text(message)],
        None => Seq::empty(),
    }
}

/// The text by which a task is known: the last things that the system and the
/// user say.
pub open spec fn task_text(request: JsonTree) -> Seq<char> {
    match json::array_member(request, "messages"@) {
        Some(messages) => text::joined(
            texts_of_one(last_with_role(messages, "system"@)) + texts_of_one(
                last_with_role(messages, "user"@),
            ),
            "\n"@,
        ),
        None => latest_text(request),
    }
}

/// The text by which a task is known.
pub fn extract_free_task_routing_text(value: &Json) -> (r: String)
    ensures
        r@ == task_text(json::sorted_tree(value.tree())),
{
    let request: Json = value.in_key_order();
    if let Some(messages) = request.array_member("messages") {
        let mut parts: Vec<String> = Vec::new();
        if let Some(message) = last_message(messages, "system") {
            parts.push(listed_message_text(message));
        }
        assert(text::texts(parts@) =~= texts_of_one(
            last_with_role(json::trees(messages@), "system"@),
        ));
        if let Some(message) = last_message(messages, "user") {
            parts.push(listed_message_text(message));
        }
        assert(text::texts(parts@) =~= texts_of_one(
            last_with_role(json::trees(messages@), "system"@),
        ) + texts_of_one(last_with_role(json::trees(messages@), "user"@)));
        return text::join(&parts, "\n");
    }
    listed_latest_text(&request)
}

proof fn lemma_item_texts(items: Seq<JsonTree>)
    ensures
        item_texts(items).len() == items.len(),
        forall|i: int| 0 <= i < items.len() ==> item_texts(items)[i] == all_text(#[trigger] items[i]),
    decreases items.len(),
{
    if items.len() > 0 {
        let rest = items.drop_last();
        lemma_item_texts(rest);
        assert forall|i: int| 0 <= i < items.len() implies item_texts(items)[i] == all_text(
            #[trigger] items[i],
        ) by {
            if i < rest.len() {
                assert(rest[i] == items[i]);
            }
        }
    }
}

/// All the text of a list is that of its items, one after the other, with line ends
/// between them; a string is its own text, and what is neither a string, a list nor
/// an object has none.
pub proof fn law_text_of_lists(tree: JsonTree)
    ensures
        tree matches JsonTree::Text(text) ==> all_text(tree) == text,
        tree matches JsonTree::Array(items) ==> all_text(tree) == text::joined(
            Seq::new(items.len(), |i: int| all_text(items[i])),
            "\n"@,
        ),
        !(tree is Text) && !(tree is Array) && !(tree is Object) ==> all_text(tree).len() == 0,
{
    match tree {
        JsonTree::Array(items) => {
            lemma_item_texts(items);
            assert(item_texts(items) =~= Seq::new(items.len(), |i: int| all_text(items[i])));
        },
        _ => {},
    }
}

/// The text of an object with one more member: the text of that member on a line of
/// its own at the end; and just that of the others where it holds the calls of tools.
pub proof fn law_text_of_objects(
    members: Seq<(Seq<char>, JsonTree)>,
    key: Seq<char>,
    value: JsonTree,
)
    ensures
        ({
            let more = JsonTree::Object(members.push((key, value)));
            let one = JsonTree::Object(seq![(key, value)]);
            &&& key == "tool_calls"@ ==> all_text(more) == all_text(JsonTree::Object(members))
            &&& key != "tool_calls"@ ==> all_text(one) == all_text(value)
            &&& key != "tool_calls"@ && members.len() > 0 && members[0].0 != "tool_calls"@
                ==> all_text(more) == all_text(JsonTree::Object(members)) + "\n"@ + all_text(value)
        }),
{
    reveal_with_fuel(member_texts, 2);
    let pair = (key, value);
    assert(members.push(pair).drop_last() =~= members);
    assert(seq![pair].drop_last() =~= Seq::<(Seq<char>, JsonTree)>::empty());
    assert(member_texts(Seq::<(Seq<char>, JsonTree)>::empty()) =~= Seq::<Seq<char>>::empty());
    let before = member_texts(members);
    if key != "tool_calls"@ {
        assert(member_texts(seq![pair]) =~= seq![all_text(value)]);
        assert(member_texts(members.push(pair)) == before.push(all_text(value)));
        if members.len() > 0 && members[0].0 != "tool_calls"@ {
            lemma_member_texts_there(members);
            assert(before.push(all_text(value)).drop_last() =~= before);
        }
    }
}

proof fn lemma_member_texts_there(members: Seq<(Seq<char>, JsonTree)>)
    requires
        members.len() > 0,
        members[0].0 != "tool_calls"@,
    ensures
        member_texts(members).len() > 0,
    decreases members.len(),
{
    if members.len() > 1 {
        lemma_member_texts_there(members.drop_last());
    }
}

/// `message` has the role `role`, whatever its case.
pub open spec fn said_by(message: JsonTree, role: Seq<char>) -> bool {
    &&& message.get("role"@) matches Some(JsonTree::Text(given))
    &&& text::ascii_lowered(given) == text::ascii_lowered(role)
}

/// The last message of a role is one with that role behind which there is none.
pub proof fn law_last_with_role(messages: Seq<JsonTree>, role: Seq<char>, i: int)
    ensures
        0 <= i < messages.len() && said_by(messages[i], role) && (forall|j: int|
            i < j < messages.len() ==> !said_by(#[trigger] messages[j], role)) ==> last_with_role(
            messages,
            role,
        ) == Some(messages[i]),
        (forall|j: int| 0 <= j < messages.len() ==> !said_by(#[trigger] messages[j], role))
            ==> last_with_role(messages, role) is None,
    decreases messages.len(),
{
    assert forall|m: JsonTree| #[trigger] has_role(m, role) == said_by(m, role) by {}
    if messages.len() > 0 {
        let rest = messages.drop_last();
        assert(messages.last() == messages[messages.len() - 1]);
        law_last_with_role(rest, role, i);
        if 0 <= i < messages.len() && said_by(messages[i], role) && (forall|j: int|
            i < j < messages.len() ==> !said_by(#[trigger] messages[j], role)) {
            if i < rest.len() {
                assert(!said_by(messages[messages.len() - 1], role));
                assert(rest[i] == messages[i]);
                assert forall|j: int| i < j < rest.len() implies !said_by(
                    #[trigger] rest[j],
                    role,
                ) by {
                    assert(rest[j] == messages[j]);
                }
            }
        }
        if forall|j: int| 0 <= j < messages.len() ==> !said_by(#[trigger] messages[j], role) {
            assert(!said_by(messages[messages.len() - 1], role));
            assert forall|j: int| 0 <= j < rest.len() implies !said_by(#[trigger] rest[j], role) by {
                assert(rest[j] == messages[j]);
            }
        }
    }
}

/// A request is about the last thing that the user says. Without such a message it is
/// about the last message; without messages about its input; and without that about
/// all of it. Of a message only the content counts, where it has one.
pub proof fn law_latest_text(request: JsonTree, i: int, content: Seq<char>)
    ensures
        request.get("messages"@) matches Some(JsonTree::Array(messages)) ==> {
            let none = forall|j: int|
                0 <= j < messages.len() ==> !said_by(#[trigger] messages[j], "user"@);
            &&& 0 <= i < messages.len() && said_by(messages[i], "user"@) && messages[i].get(
                "content"@,
            ) == Some(JsonTree::Text(content)) && (forall|j: int|
                i < j < messages.len() ==> !said_by(#[trigger] messages[j], "user"@))
                ==> latest_text(request) == content
            &&& none && messages.len() > 0 && messages.last().get("content"@) == Some(
                JsonTree::Text(content),
            ) ==> latest_text(request) == content
            &&& messages.len() == 0 && request.get("input"@) == Some(JsonTree::Text(content))
                ==> latest_text(request) == content
        },
        !(request.get("messages"@) matches Some(JsonTree::Array(_))) && request.get("input"@)
            == Some(JsonTree::Text(content)) ==> latest_text(request) == content,
        !(request.get("messages"@) matches Some(JsonTree::Array(_))) && request.get("input"@) is None
            ==> latest_text(request) == all_text(request),
{
    match request.get("messages"@) {
        Some(JsonTree::Array(messages)) => {
            law_last_with_role(messages, "user"@, i);
        },
        _ => {},
    }
}

/// A task is known by the last thing that the system says and, on the next line, the
/// last thing that the user says; or by the one of them that is there.
pub proof fn law_task_text(
    request: JsonTree,
    i: int,
    k: int,
    system: Seq<char>,
    user: Seq<char>,
)
    ensures
        request.get("messages"@) matches Some(JsonTree::Array(messages)) ==> {
            let no_system = forall|j: int|
                0 <= j < messages.len() ==> !said_by(#[trigger] messages[j], "system"@);
            let no_user = forall|j: int|
                0 <= j < messages.len() ==> !said_by(#[trigger] messages[j], "user"@);
            let system_at = 0 <= i < messages.len() && said_by(messages[i], "system"@)
                && messages[i].get("content"@) == Some(JsonTree::Text(system)) && (forall|j: int|
                i < j < messages.len() ==> !said_by(#[trigger] messages[j], "system"@));
            let user_at = 0 <= k < messages.len() && said_by(messages[k], "user"@)
                && messages[k].get("content"@) == Some(JsonTree::Text(user)) && (forall|j: int|
                k < j < messages.len() ==> !said_by(#[trigger] messages[j], "user"@));
            &&& system_at && user_at ==> task_text(request) == system + "\n"@ + user
            &&& system_at && no_user ==> task_text(request) == system
            &&& no_system && user_at ==> task_text(request) == user
            &&& no_system && no_user ==> task_text(request).len() == 0
        },
        !(request.get("messages"@) matches Some(JsonTree::Array(_))) ==> task_text(request)
            == latest_text(request),
{
    match request.get("messages"@) {
        Some(JsonTree::Array(messages)) => {
            law_last_with_role(messages, "system"@, i);
            law_last_with_role(messages, "user"@, k);
            text::law_joined(system, user, Seq::empty(), "\n"@);
            let none = Seq::<Seq<char>>::empty();
            assert(seq![system] + seq![user] =~= seq![system, user]);
            assert(seq![system] + none =~= seq![system]);
            assert(none + seq![user] =~= seq![user]);
            assert(none + none =~= none);
        },
        _ => {},
    }
}

/// The text of a message is that of its content, where it has one, and that of all of it
/// otherwise.
pub proof fn law_message_text(message: JsonTree)
    ensures
        message.get("content"@) matches Some(content) ==> message_text(message) == all_text(content),
        message.get("content"@) is None ==> message_text(message) == all_text(message),
{
}

} // verus!
