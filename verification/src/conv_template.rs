//! Conversation templates.
use vstd::prelude::*;
use crate::json::{as_array, as_text, at, array_of, str_of, Json};
use crate::names::NameMap;
use crate::text::{
    has, join2, law_first_is_replaced, law_nothing_to_replace, replace, replaced, stands_at, Text,
};

verus! {

/// What a message says: a text, or parts of several kinds.
#[derive(Debug)]
pub enum MessageContent {
    Text(String),
    Parts(Vec<NameMap<String>>),
}

/// A message and who says it.
#[derive(Debug)]
pub struct Message {
    pub role: String,
    pub content: MessageContent,
}

/// A conversation with the template that it is rendered by.
#[derive(Debug)]
pub struct Conversation {
    pub name: String,
    pub system_template: String,
    pub system_message: String,
    pub roles: NameMap<String>,
    pub role_templates: NameMap<String>,
    pub messages: Vec<Message>,
    pub seps: Vec<String>,
    pub role_content_sep: String,
    pub role_empty_sep: String,
    pub stop_str: Vec<String>,
    pub add_role_after_system_message: bool,
    pub stop_token_ids: Vec<u32>,
}

/// The text under `key`, or a default.
pub open spec fn text_at(m: Map<Text, String>, key: Text, default: Text) -> Text {
    if m.contains_key(key) {
        m[key]@
    } else {
        default
    }
}

/// The text parts of a message, joined.
pub open spec fn parts_text(parts: Seq<NameMap<String>>) -> Text
    decreases parts.len(),
{
    if parts.len() == 0 {
        seq![]
    } else {
        parts_text(parts.drop_last()) + text_at(parts.last()@, "text"@, seq![])
    }
}

/// What a message says, as text.
pub open spec fn content_text(c: MessageContent) -> Text {
    match c {
        MessageContent::Text(t) => t@,
        MessageContent::Parts(parts) => parts_text(parts@),
    }
}

/// A role's template with the message filled in.
pub open spec fn filled(template: Text, role: Text, content: Text) -> Text {
    replaced(
        replaced(template, "{"@ + role + "_message}"@, content),
        "{"@ + role + "}"@,
        content,
    )
}

/// One message as it stands in the prompt.
pub open spec fn message_text(c: Conversation, m: Message) -> Text {
    text_at(c.roles@, m.role@, m.role@) + c.role_content_sep@ + filled(
        text_at(c.role_templates@, m.role@, "{anchor}"@),
        m.role@,
        content_text(m.content),
    ) + if c.seps@.len() > 0 {
        c.seps@[0]@
    } else {
        seq![]
    }
}

/// Messages as they stand in the prompt.
pub open spec fn messages_text(c: Conversation, messages: Seq<Message>) -> Text
    decreases messages.len(),
{
    if messages.len() == 0 {
        seq![]
    } else {
        messages_text(c, messages.drop_last()) + message_text(c, messages.last())
    }
}

/// The prompt of a conversation: the system prompt, then every message.
pub open spec fn prompt_text(c: Conversation) -> Text {
    replaced(c.system_template@, "{system_message}"@, c.system_message@) + messages_text(
        c,
        c.messages@,
    )
}

fn join_parts(parts: &Vec<NameMap<String>>) -> (out: String)
    ensures
        out@ == parts_text(parts@),
{
    let mut out = String::new();
    let mut i: usize = 0;
    assert(parts@.take(0) =~= seq![]);
    while i < parts.len()
        invariant
            i <= parts.len(),
            out@ == parts_text(parts@.take(i as int)),
        decreases parts.len() - i,
    {
        assert(parts@.take(i + 1).drop_last() =~= parts@.take(i as int));
        match parts[i].get("text") {
            Some(t) => {
                out.append(t);
            },
            None => {
                assert(out@ + Seq::<char>::empty() =~= out@);
            },
        }
        i += 1;
    }
    assert(parts@.take(i as int) =~= parts@);
    out
}

fn text_of_content(c: &MessageContent) -> (out: String)
    ensures
        out@ == content_text(*c),
{
    match c {
        MessageContent::Text(t) => t.clone(),
        MessageContent::Parts(parts) => join_parts(parts),
    }
}

fn fill(template: &str, role: &str, content: &str) -> (out: String)
    ensures
        out@ == filled(template@, role@, content@),
{
    proof {
        reveal_strlit("{");
    }
    let long = join2(&join2("{", role), "_message}");
    let short = join2(&join2("{", role), "}");
    let once = replace(template, &long, content);
    replace(&once, &short, content)
}

impl Conversation {
    /// Appends a text message.
    pub fn add_message(&mut self, role: &str, content: &str)
        ensures
            final(self).messages@.len() == old(self).messages@.len() + 1,
            final(self).messages@.drop_last() == old(self).messages@,
            final(self).messages@.last().role@ == role@,
            final(self).messages@.last().content matches MessageContent::Text(t) && t@ == content@,
            final(self).name == old(self).name,
            final(self).system_template == old(self).system_template,
            final(self).system_message == old(self).system_message,
            final(self).roles == old(self).roles,
            final(self).role_templates == old(self).role_templates,
            final(self).seps == old(self).seps,
            final(self).role_content_sep == old(self).role_content_sep,
            final(self).role_empty_sep == old(self).role_empty_sep,
            final(self).stop_str == old(self).stop_str,
            final(self).add_role_after_system_message == old(self).add_role_after_system_message,
            final(self).stop_token_ids == old(self).stop_token_ids,
    {
        let ghost before = self.messages@;
        self.messages.push(
            Message {
                role: role.to_string(),
                content: MessageContent::Text(content.to_string()),
            },
        );
        assert(self.messages@.drop_last() =~= before);
    }

    fn render_message(&self, m: &Message) -> (out: String)
        ensures
            out@ == message_text(*self, *m),
    {
        let content = text_of_content(&m.content);
        let body = match self.role_templates.get(&m.role) {
            Some(t) => fill(t, &m.role, &content),
            None => fill("{anchor}", &m.role, &content),
        };
        let mut out = match self.roles.get(&m.role) {
            Some(name) => name.clone(),
            None => m.role.clone(),
        };
        out.append(&self.role_content_sep);
        out.append(&body);
        if self.seps.len() > 0 {
            out.append(&self.seps[0]);
        } else {
            assert(out@ + Seq::<char>::empty() =~= out@);
        }
        out
    }

    /// Renders the conversation into a prompt.
    pub fn render_prompt(&self) -> (out: String)
        ensures
            out@ == prompt_text(*self),
    {
        proof {
            reveal_strlit("{system_message}");
        }
        let mut out = replace(&self.system_template, "{system_message}", &self.system_message);
        let ghost system = out@;
        let mut i: usize = 0;
        assert(self.messages@.take(0) =~= seq![]);
        assert(out@ =~= system + messages_text(*self, self.messages@.take(0)));
        while i < self.messages.len()
            invariant
                i <= self.messages.len(),
                out@ == system + messages_text(*self, self.messages@.take(i as int)),
            decreases self.messages.len() - i,
        {
            let ghost before = messages_text(*self, self.messages@.take(i as int));
            let ghost piece = message_text(*self, self.messages@[i as int]);
            assert(self.messages@.take(i + 1).drop_last() =~= self.messages@.take(i as int));
            out.append(&self.render_message(&self.messages[i]));
            assert(out@ =~= system + (before + piece));
            i += 1;
        }
        assert(self.messages@.take(i as int) =~= self.messages@);
        out
    }
}

/// Adding a message to a conversation adds that message's text to its prompt.
pub proof fn law_message_extends_prompt(before: Conversation, after: Conversation)
    requires
        after.messages@.len() == before.messages@.len() + 1,
        after.messages@.drop_last() == before.messages@,
        after.system_template == before.system_template,
        after.system_message == before.system_message,
        after.roles == before.roles,
        after.role_templates == before.role_templates,
        after.seps == before.seps,
        after.role_content_sep == before.role_content_sep,
    ensures
        prompt_text(after) == prompt_text(before) + message_text(after, after.messages@.last()),
{
    lemma_same_texts(before, after, before.messages@);
    assert(prompt_text(after) =~= prompt_text(before) + message_text(
        after,
        after.messages@.last(),
    ));
}

proof fn lemma_same_texts(a: Conversation, b: Conversation, messages: Seq<Message>)
    requires
        a.roles == b.roles,
        a.role_templates == b.role_templates,
        a.seps == b.seps,
        a.role_content_sep == b.role_content_sep,
    ensures
        messages_text(a, messages) == messages_text(b, messages),
    decreases messages.len(),
{
    if messages.len() > 0 {
        lemma_same_texts(a, b, messages.drop_last());
    }
}

/// Why a list of messages cannot be read.
#[derive(Debug, Clone, Copy, PartialEq, Eq, Structural)]
pub enum MessagesError {
    /// The messages are not a list.
    NotAList,
    /// A message's content is neither a text nor a list of objects of texts.
    BadContent,
}

/// The texts of an object, if all its values are texts.
pub open spec fn texts_of_object(entries: Seq<(String, Json)>) -> Option<Map<Text, Text>>
    decreases entries.len(),
{
    if entries.len() == 0 {
        Some(Map::empty())
    } else {
        match (texts_of_object(entries.drop_last()), entries.last().1) {
            (Some(m), Json::Str(s)) => Some(m.insert(entries.last().0@, s@)),
            _ => None,
        }
    }
}

/// A map of strings, as texts.
pub open spec fn map_texts(m: Map<Text, String>) -> Map<Text, Text> {
    m.map_values(|s: String| s@)
}

/// The parts that a list of objects writes, if it writes any.
pub open spec fn parts_of(items: Seq<Json>) -> Option<Seq<Map<Text, Text>>>
    decreases items.len(),
{
    if items.len() == 0 {
        Some(seq![])
    } else {
        match (parts_of(items.drop_last()), items.last()) {
            (Some(parts), Json::Object(entries)) => match texts_of_object(entries@) {
                Some(m) => Some(parts.push(m)),
                None => None,
            },
            _ => None,
        }
    }
}

/// A message's content, as contracts speak of it.
pub ghost enum Content {
    Text(Text),
    Parts(Seq<Map<Text, Text>>),
}

impl MessageContent {
    /// The content without its representation.
    pub open spec fn model(self) -> Content {
        match self {
            MessageContent::Text(t) => Content::Text(t@),
            MessageContent::Parts(parts) => Content::Parts(
                parts@.map_values(|p: NameMap<String>| map_texts(p@)),
            ),
        }
    }
}

/// The content that a value writes.
pub open spec fn content_of(j: Json) -> Option<Content> {
    match j {
        Json::Str(s) => Some(Content::Text(s@)),
        Json::Array(items) => match parts_of(items@) {
            Some(parts) => Some(Content::Parts(parts)),
            None => None,
        },
        _ => None,
    }
}

/// The messages that a list of pairs writes: who speaks, and what is said.
/// Whatever is not a pair is passed over; a speaker that is not a text counts
/// as an empty one.
pub open spec fn messages_of(items: Seq<Json>) -> Option<Seq<(Text, Content)>>
    decreases items.len(),
{
    if items.len() == 0 {
        Some(seq![])
    } else {
        match (messages_of(items.drop_last()), items.last()) {
            (Some(ms), Json::Array(pair)) => if pair@.len() == 2 {
                match content_of(pair@[1]) {
                    Some(c) => Some(
                        ms.push(
                            (
                                match str_of(Some(pair@[0])) {
                                    Some(role) => role,
                                    None => seq![],
                                },
                                c,
                            ),
                        ),
                    ),
                    None => None,
                }
            } else {
                Some(ms)
            },
            (ms, _) => ms,
        }
    }
}

/// Messages without their representation.
pub open spec fn models(ms: Seq<Message>) -> Seq<(Text, Content)> {
    ms.map_values(|m: Message| (m.role@, m.content.model()))
}

proof fn lemma_object_stop(entries: Seq<(String, Json)>, k: int)
    requires
        0 <= k <= entries.len(),
        texts_of_object(entries.take(k)) is None,
    ensures
        texts_of_object(entries) is None,
    decreases entries.len(),
{
    if k < entries.len() {
        assert(entries.drop_last().take(k) =~= entries.take(k));
        lemma_object_stop(entries.drop_last(), k);
    } else {
        assert(entries.take(k) =~= entries);
    }
}

proof fn lemma_parts_stop(items: Seq<Json>, k: int)
    requires
        0 <= k <= items.len(),
        parts_of(items.take(k)) is None,
    ensures
        parts_of(items) is None,
    decreases items.len(),
{
    if k < items.len() {
        assert(items.drop_last().take(k) =~= items.take(k));
        lemma_parts_stop(items.drop_last(), k);
    } else {
        assert(items.take(k) =~= items);
    }
}

proof fn lemma_messages_stop(items: Seq<Json>, k: int)
    requires
        0 <= k <= items.len(),
        messages_of(items.take(k)) is None,
    ensures
        messages_of(items) is None,
    decreases items.len(),
{
    if k < items.len() {
        assert(items.drop_last().take(k) =~= items.take(k));
        lemma_messages_stop(items.drop_last(), k);
    } else {
        assert(items.take(k) =~= items);
    }
}

fn read_object(entries: &Vec<(String, Json)>) -> (r: Option<NameMap<String>>)
    ensures
        match r {
            Some(m) => texts_of_object(entries@) == Some(map_texts(m@)),
            None => texts_of_object(entries@) is None,
        },
{
    let mut m: NameMap<String> = NameMap::new();
    assert(map_texts(m@) =~= Map::empty());
    assert(entries@.take(0) =~= seq![]);
    let mut i: usize = 0;
    while i < entries.len()
        invariant
            i <= entries.len(),
            texts_of_object(entries@.take(i as int)) == Some(map_texts(m@)),
        decreases entries.len() - i,
    {
        let ghost before = m@;
        assert(entries@.take(i + 1).drop_last() =~= entries@.take(i as int));
        match &entries[i].1 {
            Json::Str(s) => {
                m.insert(entries[i].0.clone(), s.clone());
                assert(map_texts(m@) =~= map_texts(before).insert(entries@[i as int].0@, s@));
            },
            _ => {
                proof {
                    lemma_object_stop(entries@, i + 1);
                }
                return None;
            },
        }
        i += 1;
    }
    assert(entries@.take(i as int) =~= entries@);
    Some(m)
}

fn read_parts(items: &Vec<Json>) -> (r: Option<Vec<NameMap<String>>>)
    ensures
        match r {
            Some(parts) => parts_of(items@) == Some(
                parts@.map_values(|p: NameMap<String>| map_texts(p@)),
            ),
            None => parts_of(items@) is None,
        },
{
    let mut parts: Vec<NameMap<String>> = Vec::new();
    assert(parts@.map_values(|p: NameMap<String>| map_texts(p@)) =~= seq![]);
    assert(items@.take(0) =~= seq![]);
    let mut i: usize = 0;
    while i < items.len()
        invariant
            i <= items.len(),
            parts_of(items@.take(i as int)) == Some(
                parts@.map_values(|p: NameMap<String>| map_texts(p@)),
            ),
        decreases items.len() - i,
    {
        let ghost before = parts@.map_values(|p: NameMap<String>| map_texts(p@));
        assert(items@.take(i + 1).drop_last() =~= items@.take(i as int));
        let part = match &items[i] {
            Json::Object(entries) => read_object(entries),
            _ => None,
        };
        match part {
            Some(p) => {
                parts.push(p);
                assert(parts@.map_values(|p: NameMap<String>| map_texts(p@)) =~= before.push(
                    map_texts(p@),
                ));
            },
            None => {
                proof {
                    lemma_parts_stop(items@, i + 1);
                }
                return None;
            },
        }
        i += 1;
    }
    assert(items@.take(i as int) =~= items@);
    Some(parts)
}

fn read_content(j: &Json) -> (r: Option<MessageContent>)
    ensures
        match r {
            Some(c) => content_of(*j) == Some(c.model()),
            None => content_of(*j) is None,
        },
{
    match j {
        Json::Str(s) => Some(MessageContent::Text(s.clone())),
        Json::Array(items) => match read_parts(items) {
            Some(parts) => Some(MessageContent::Parts(parts)),
            None => None,
        },
        _ => None,
    }
}

/// Reads the messages of a template: a list of pairs of speaker and content.
pub fn messages_from(raw: &Json) -> (r: Result<Vec<Message>, MessagesError>)
    ensures
        match r {
            Ok(ms) => array_of(Some(*raw)) is Some && messages_of(array_of(Some(*raw))->0) == Some(
                models(ms@),
            ),
            Err(MessagesError::NotAList) => array_of(Some(*raw)) is None,
            Err(MessagesError::BadContent) => array_of(Some(*raw)) is Some && messages_of(
                array_of(Some(*raw))->0,
            ) is None,
        },
{
    match as_array(Some(raw)) {
        Some(items) => match read_messages(items) {
            Some(ms) => Ok(ms),
            None => Err(MessagesError::BadContent),
        },
        None => Err(MessagesError::NotAList),
    }
}

fn read_messages(items: &Vec<Json>) -> (r: Option<Vec<Message>>)
    ensures
        match r {
            Some(ms) => messages_of(items@) == Some(models(ms@)),
            None => messages_of(items@) is None,
        },
{
    let mut ms: Vec<Message> = Vec::new();
    assert(models(ms@) =~= seq![]);
    assert(items@.take(0) =~= seq![]);
    let mut i: usize = 0;
    while i < items.len()
        invariant
            i <= items.len(),
            messages_of(items@.take(i as int)) == Some(models(ms@)),
        decreases items.len() - i,
    {
        let ghost before = models(ms@);
        assert(items@.take(i + 1).drop_last() =~= items@.take(i as int));
        if let Json::Array(pair) = &items[i] {
            if pair.len() == 2 {
                let role = match as_text(Some(&pair[0])) {
                    Some(t) => t.clone(),
                    None => String::new(),
                };
                match read_content(&pair[1]) {
                    Some(content) => {
                        let m = Message { role, content };
                        ms.push(m);
                        assert(models(ms@) =~= before.push((m.role@, m.content.model())));
                    },
                    None => {
                        proof {
                            lemma_messages_stop(items@, i + 1);
                        }
                        return None;
                    },
                }
            }
        }
        i += 1;
    }
    assert(items@.take(i as int) =~= items@);
    Some(ms)
}

/// The text of a message in parts is that of its parts, one behind the other;
/// a part without a text adds nothing.
pub proof fn law_parts_are_joined(parts: Seq<NameMap<String>>, p: NameMap<String>)
    ensures
        parts_text(seq![]) == Seq::<char>::empty(),
        p@.contains_key("text"@) ==> parts_text(parts.push(p)) == parts_text(parts) + p@["text"@]@,
        !p@.contains_key("text"@) ==> parts_text(parts.push(p)) == parts_text(parts),
{
    assert(parts.push(p).drop_last() =~= parts);
    assert(parts_text(parts) + Seq::<char>::empty() =~= parts_text(parts));
}

/// A message stands in the prompt as the name of its role, the separator, what
/// the role's template makes of it, and the first of the separators.
pub proof fn law_message_text(c: Conversation, m: Message)
    ensures
        ({
            let name = if c.roles@.contains_key(m.role@) {
                c.roles@[m.role@]@
            } else {
                m.role@
            };
            let template = if c.role_templates@.contains_key(m.role@) {
                c.role_templates@[m.role@]@
            } else {
                "{anchor}"@
            };
            let said = match m.content {
                MessageContent::Text(t) => t@,
                MessageContent::Parts(parts) => parts_text(parts@),
            };
            let whole = name + c.role_content_sep@ + filled(template, m.role@, said);
            &&& c.seps@.len() > 0 ==> message_text(c, m) == whole + c.seps@[0]@
            &&& c.seps@.len() == 0 ==> message_text(c, m) == whole
        }),
{
    assert(message_text(c, m) =~= message_text(c, m) + Seq::<char>::empty());
}

/// In a role's template the message stands where the role's mark stood, of
/// either form; a template without marks stays as it is.
pub proof fn law_filled(a: Text, b: Text, role: Text, content: Text)
    ensures
        ({
            let long = "{"@ + role + "_message}"@;
            let short = "{"@ + role + "}"@;
            &&& !(has(a, long)) && !(has(a, short)) ==> filled(a, role, content) == a
            &&& (forall|j: int| 0 <= j < a.len() ==> !(#[trigger] stands_at(a + long + b, long, j)))
                && !(has(b, long)) && !(has(a + content + b, short)) ==> filled(
                a + long + b,
                role,
                content,
            ) == a + content + b
            &&& !(has(a + short + b, long)) && (forall|j: int|
                0 <= j < a.len() ==> !(#[trigger] stands_at(a + short + b, short, j))) && !(has(
                b,
                short,
            )) ==> filled(a + short + b, role, content) == a + content + b
        }),
{
    reveal_strlit("{");
    let long = "{"@ + role + "_message}"@;
    let short = "{"@ + role + "}"@;
    law_nothing_to_replace(a, long, content);
    law_nothing_to_replace(a, short, content);
    law_nothing_to_replace(b, long, content);
    law_nothing_to_replace(b, short, content);
    law_nothing_to_replace(a + content + b, short, content);
    law_nothing_to_replace(a + short + b, long, content);
    if forall|j: int| 0 <= j < a.len() ==> !(#[trigger] stands_at(a + long + b, long, j)) {
        law_first_is_replaced(a, long, b, content);
    }
    if forall|j: int| 0 <= j < a.len() ==> !(#[trigger] stands_at(a + short + b, short, j)) {
        law_first_is_replaced(a, short, b, content);
    }
}

/// A prompt begins with the system's template, in which the system's message
/// stands where its mark stood; without messages it is just that.
pub proof fn law_prompt_begins_with_system(c: Conversation, a: Text, b: Text)
    requires
        c.system_template@ == a + "{system_message}"@ + b,
        forall|j: int|
            0 <= j < a.len() ==> !(#[trigger] stands_at(
                c.system_template@,
                "{system_message}"@,
                j,
            )),
        !(has(b, "{system_message}"@)),
    ensures
        prompt_text(c) == (a + c.system_message@ + b) + messages_text(c, c.messages@),
        c.messages@.len() == 0 ==> prompt_text(c) == a + c.system_message@ + b,
{
    reveal_strlit("{system_message}");
    law_first_is_replaced(a, "{system_message}"@, b, c.system_message@);
    law_nothing_to_replace(b, "{system_message}"@, c.system_message@);
    if c.messages@.len() == 0 {
        assert((a + c.system_message@ + b) + Seq::<char>::empty() =~= a + c.system_message@ + b);
    }
}

/// A pair of a role and a text is read as a message of that role that says
/// that text; what is no pair is passed over.
pub proof fn law_pairs_are_messages(items: Seq<Json>, ms: Seq<(Text, Content)>, item: Json)
    requires
        messages_of(items) == Some(ms),
    ensures
        messages_of(seq![]) == Some(Seq::<(Text, Content)>::empty()),
        item matches Json::Array(pair) ==> (pair@.len() == 2 ==> (pair@[0] matches Json::Str(role)
            ==> (pair@[1] matches Json::Str(said) ==> messages_of(items.push(item)) == Some(
            ms.push((role@, Content::Text(said@))),
        )))),
        item matches Json::Array(pair) ==> (pair@.len() == 2 && content_of(pair@[1]) is None
            ==> messages_of(items.push(item)) is None),
        item matches Json::Array(pair) ==> (pair@.len() != 2 ==> messages_of(items.push(item))
            == Some(ms)),
        !(item is Array) ==> messages_of(items.push(item)) == Some(ms),
{
    assert(items.push(item).drop_last() =~= items);
}

/// A content is a text or a list of objects whose values are texts, each under
/// its own key; anything else is none.
pub proof fn law_contents_are_read(
    items: Seq<Json>,
    parts: Seq<Map<Text, Text>>,
    entries: Seq<(String, Json)>,
    m: Map<Text, Text>,
    key: String,
    j: Json,
)
    requires
        parts_of(items) == Some(parts),
        texts_of_object(entries) == Some(m),
    ensures
        j matches Json::Str(s) ==> content_of(j) == Some(Content::Text(s@)),
        j matches Json::Array(list) ==> (list@ == items ==> content_of(j) == Some(
            Content::Parts(parts),
        )),
        !(j is Str) && !(j is Array) ==> content_of(j) is None,
        j matches Json::Object(own) ==> (own@ == entries ==> parts_of(items.push(j)) == Some(
            parts.push(m),
        )),
        !(j is Object) ==> parts_of(items.push(j)) is None,
        j matches Json::Str(s) ==> texts_of_object(entries.push((key, j))) == Some(
            m.insert(key@, s@),
        ),
        !(j is Str) ==> texts_of_object(entries.push((key, j))) is None,
        parts_of(seq![]) == Some(Seq::<Map<Text, Text>>::empty()),
        texts_of_object(seq![]) == Some(Map::<Text, Text>::empty()),
{
    assert(items.push(j).drop_last() =~= items);
    assert(entries.push((key, j)).drop_last() =~= entries);
}

} // verus!
