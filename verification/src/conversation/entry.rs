//! The lines of a conversation file.

use crate::json::{Json, JsonMember};
use crate::json;
use crate::text;
use vstd::prelude::*;

verus! {

/// The kind of an entry that marks a compaction.
pub const ENTRY_KIND_COMPACTION: &'static str = "compaction";

/// A line of a conversation file, behind the first.
#[derive(Debug, PartialEq, Eq)]
pub struct ConversationEntry {
    /// The entry's identifier, a UUID.
    pub id: String,
    /// When it was written, in ISO 8601 with milliseconds.
    pub ts: String,
    /// `user`, `assistant`, `thought`, `tool_call`, `tool_result` or `system`.
    pub role: String,
    /// The message, or the summary of a compaction.
    pub content: String,
    /// What else is known of it, such as the tool call that it belongs to.
    pub metadata: Option<Json>,
    /// `compaction` for the mark of a compaction.
    pub kind: Option<String>,
}

/// What an entry holds.
pub struct EntryView {
    pub id: Seq<char>,
    pub ts: Seq<char>,
    pub role: Seq<char>,
    pub content: Seq<char>,
    pub metadata: Option<json::JsonView>,
    pub kind: Option<Seq<char>>,
}

impl View for ConversationEntry {
    type V = EntryView;

    open spec fn view(&self) -> EntryView {
        EntryView {
            id: self.id@,
            ts: self.ts@,
            role: self.role@,
            content: self.content@,
            metadata: json::opt_view(self.metadata),
            kind: text::opt_text(self.kind),
        }
    }
}

impl Clone for ConversationEntry {
    fn clone(&self) -> (r: Self)
        ensures
            r@ == self@,
    {
        ConversationEntry {
            id: self.id.clone(),
            ts: self.ts.clone(),
            role: self.role.clone(),
            content: self.content.clone(),
            metadata: match &self.metadata {
                Some(m) => Some(m.clone()),
                None => None,
            },
            kind: match &self.kind {
                Some(k) => Some(k.clone()),
                None => None,
            },
        }
    }
}

/// What each entry of a sequence holds.
pub open spec fn entry_views(es: Seq<ConversationEntry>) -> Seq<EntryView> {
    es.map_values(|e: ConversationEntry| e@)
}

/// What an optional entry holds.
pub open spec fn opt_entry(o: Option<ConversationEntry>) -> Option<EntryView> {
    match o {
        Some(e) => Some(e@),
        None => None,
    }
}

impl EntryView {
    /// The entry marks a compaction.
    pub open spec fn is_compaction(self) -> bool {
        self.kind == Some(ENTRY_KIND_COMPACTION@)
    }
}

impl ConversationEntry {
    /// Whether the entry marks a compaction.
    pub fn is_compaction(&self) -> (r: bool)
        ensures
            r == self@.is_compaction(),
    {
        match &self.kind {
            Some(k) => text::same_text(k.as_str(), ENTRY_KIND_COMPACTION),
            None => false,
        }
    }
}

/// The value of an optional member: one that is null counts as absent.
pub open spec fn present(j: json::JsonView, key: Seq<char>) -> Option<json::JsonView> {
    match j.get(key) {
        Some(v) => if v is Null {
            None
        } else {
            Some(v)
        },
        None => None,
    }
}

/// An optional member that has to be a string, where it is present.
pub open spec fn text_if_present(j: json::JsonView, key: Seq<char>) -> bool {
    present(j, key) matches Some(v) ==> v is Text
}

/// The members of an entry, in their order.
pub open spec fn entry_names() -> Seq<Seq<char>> {
    seq![
        "id"@,
        "ts"@,
        "role"@,
        "content"@,
        "metadata"@,
        "kind"@,
    ]
}

/// The entry that a JSON value stands for, if it stands for one: an object whose
/// `id`, `ts`, `role` and `content` are strings, and whose `kind`, where
/// present, is a string. Other members are ignored. The members may be written as
/// an array, of which only `kind` may be left out.
pub open spec fn decoded_entry(j: json::JsonView) -> Option<EntryView> {
    let j = json::named(j, entry_names(), 5);
    match (
        j.str_at("id"@),
        j.str_at("ts"@),
        j.str_at("role"@),
        j.str_at("content"@),
    ) {
        (Some(id), Some(ts), Some(role), Some(content)) => if text_if_present(j, "kind"@) {
            Some(
                EntryView {
                    id,
                    ts,
                    role,
                    content,
                    metadata: present(j, "metadata"@),
                    kind: j.str_at("kind"@),
                },
            )
        } else {
            None
        },
        _ => None,
    }
}

/// The members of an entry's JSON object.
pub open spec fn entry_members(e: EntryView) -> Seq<(Seq<char>, json::JsonView)> {
    json::with_opt_text(
        json::with_opt(
            seq![
                ("id"@, json::JsonView::Text(e.id)),
                ("ts"@, json::JsonView::Text(e.ts)),
                ("role"@, json::JsonView::Text(e.role)),
                ("content"@, json::JsonView::Text(e.content)),
            ],
            "metadata"@,
            e.metadata,
        ),
        "kind"@,
        e.kind,
    )
}

/// An entry as a JSON object.
pub open spec fn entry_json(e: EntryView) -> json::JsonView {
    json::JsonView::Object(entry_members(e))
}

/// The entry that a line stands for.
pub open spec fn entry_of_text(s: Seq<char>) -> Option<EntryView> {
    match json::json_of_text(s) {
        Some(j) => decoded_entry(j),
        None => None,
    }
}

/// The line of an entry, without its newline.
pub open spec fn entry_text(e: EntryView) -> Seq<char> {
    json::written(json::stored(entry_json(e)))
}

/// The entry is read back as it is written: its metadata are not null, and can be
/// written.
pub open spec fn is_kept(e: EntryView) -> bool {
    e.metadata matches Some(m) ==> !(m is Null) && json::writable(
        m,
        (json::MAX_DEPTH - 1) as nat,
    )
}

/// The two entries are the same, but for numbers of their metadata that are not
/// integers, whose last digits may differ.
pub open spec fn same_entry(a: EntryView, b: EntryView) -> bool {
    &&& b == (EntryView { metadata: b.metadata, ..a })
    &&& match a.metadata {
        Some(m) => b.metadata matches Some(k) && json::same_value(m, k),
        None => b.metadata is None,
    }
}

/// All numbers of the entry's metadata are integers.
pub open spec fn is_whole_entry(e: EntryView) -> bool {
    e.metadata matches Some(m) ==> json::is_all_whole(m)
}

/// The value of an optional member.
pub fn get_present(j: &Json, key: &str) -> (r: Option<Json>)
    ensures
        json::opt_view(r) == present(j@, key@),
{
    match j.get(key) {
        Some(v) => match v {
            Json::Null => None,
            _ => Some(v.clone()),
        },
        None => None,
    }
}

/// Whether an optional member is a string, where it is present.
pub fn is_text_if_present(j: &Json, key: &str) -> (r: bool)
    ensures
        r == text_if_present(j@, key@),
{
    match j.get(key) {
        Some(v) => match v {
            Json::Null => true,
            Json::Text(_) => true,
            _ => false,
        },
        None => true,
    }
}

impl ConversationEntry {
    /// The entry that a JSON value stands for.
    pub fn from_json(j: &Json) -> (r: Option<Self>)
        ensures
            opt_entry(r) == decoded_entry(j@),
    {
        let names: Vec<&'static str> = vec![
            "id",
            "ts",
            "role",
            "content",
            "metadata",
            "kind",
        ];
        proof {
            assert(json::name_texts(names@) =~= entry_names());
        }
        let object: Option<Json> = json::name_elements(j, &names, 5);
        let j: &Json = match &object {
            Some(o) => o,
            None => j,
        };
        let id: String = match j.str_at("id") {
            Some(s) => s,
            None => {
                return None;
            },
        };
        let ts: String = match j.str_at("ts") {
            Some(s) => s,
            None => {
                return None;
            },
        };
        let role: String = match j.str_at("role") {
            Some(s) => s,
            None => {
                return None;
            },
        };
        let content: String = match j.str_at("content") {
            Some(s) => s,
            None => {
                return None;
            },
        };
        if !is_text_if_present(j, "kind") {
            return None;
        }
        Some(
            ConversationEntry {
                id,
                ts,
                role,
                content,
                metadata: get_present(j, "metadata"),
                kind: j.str_at("kind"),
            },
        )
    }

    /// The entry as a JSON object.
    pub fn to_json(&self) -> (r: Json)
        ensures
            r@ == entry_json(self@),
    {
        let mut m: Vec<JsonMember> = json::no_members();
        json::add_member(&mut m, "id", Json::Text(self.id.clone()));
        json::add_member(&mut m, "ts", Json::Text(self.ts.clone()));
        json::add_member(&mut m, "role", Json::Text(self.role.clone()));
        json::add_member(&mut m, "content", Json::Text(self.content.clone()));
        json::add_opt(&mut m, "metadata", &self.metadata);
        json::add_opt_text(&mut m, "kind", &self.kind);
        let r: Json = json::object_value(m);
        proof {
            assert(r@->Object_0 =~= entry_members(self@));
        }
        r
    }

    /// The line of the entry, without its newline.
    pub fn to_text(&self) -> (r: String)
        ensures
            r@ == entry_text(self@),
            json::is_line(r@),
            is_kept(self@) ==> (entry_of_text(r@) matches Some(k) && same_entry(self@, k) && (
            is_whole_entry(self@) ==> k == self@)),
    {
        let j: Json = self.to_json();
        let r: String = json::json_text(&j);
        proof {
            if is_kept(self@) {
                lemma_entry_is_writable(self@);
                entry_json_is_decoded(self@, json::json_of_text(r@)->0);
                let k = entry_of_text(r@)->0;
                if is_whole_entry(self@) && self@.metadata is Some {
                    json::whole_values_are_the_same(self@.metadata->0, k.metadata->0);
                }
            }
        }
        r
    }
}

/// The entry that a line stands for, or `None` where it stands for none.
pub fn read_entry(line: &str) -> (r: Option<ConversationEntry>)
    ensures
        opt_entry(r) == entry_of_text(line@),
{
    match json::parse_json(line) {
        Some(j) => ConversationEntry::from_json(&j),
        None => None,
    }
}

/// What an entry's JSON object says is the entry again, but for metadata that
/// is null, which counts as none. Where the last digits of numbers differ in the
/// object, they differ in the entry's metadata.
pub proof fn entry_json_is_decoded(e: EntryView, j: json::JsonView)
    requires
        !(e.metadata matches Some(m) && m is Null),
        json::same_value(entry_json(e), j),
    ensures
        decoded_entry(j) matches Some(k) && same_entry(e, k),
        j == entry_json(e) ==> decoded_entry(j) == Some(e),
{
    reveal_strlit("id");
    reveal_strlit("ts");
    reveal_strlit("role");
    reveal_strlit("content");
    reveal_strlit("metadata");
    reveal_strlit("kind");
    lemma_keys_differ();
    let m = entry_members(e);
    let n = j->Object_0;
    json::lemma_same_members(m, n, "id"@);
    json::lemma_same_members(m, n, "ts"@);
    json::lemma_same_members(m, n, "role"@);
    json::lemma_same_members(m, n, "content"@);
    json::lemma_same_members(m, n, "metadata"@);
    json::lemma_same_members(m, n, "kind"@);
    lemma_lookup(m, "id"@, 0);
    lemma_lookup(m, "ts"@, 1);
    lemma_lookup(m, "role"@, 2);
    lemma_lookup(m, "content"@, 3);
    match e.metadata {
        Some(_) => {
            lemma_lookup(m, "metadata"@, 4);
        },
        None => {
            lemma_lookup(m, "metadata"@, m.len() as int);
        },
    }
    match e.kind {
        Some(_) => {
            lemma_lookup(m, "kind"@, m.len() - 1);
        },
        None => {
            lemma_lookup(m, "kind"@, m.len() as int);
        },
    }
}

/// An entry that is kept can be written.
proof fn lemma_entry_is_writable(e: EntryView)
    requires
        is_kept(e),
    ensures
        json::writable(entry_json(e), json::MAX_DEPTH as nat),
{
    lemma_keys_differ();
    let m = entry_members(e);
    assert forall|i: int| 0 <= i < m.len() implies json::writable(
        (#[trigger] m[i]).1,
        (json::MAX_DEPTH - 1) as nat,
    ) by {}
}

proof fn lemma_keys_differ()
    ensures
        "id"@ != "ts"@,
        "kind"@ != "role"@,
        "role"@ != "id"@,
        "role"@ != "ts"@,
        "kind"@ != "id"@,
        "kind"@ != "ts"@,
        "content"@ != "id"@,
        "content"@ != "ts"@,
        "content"@ != "role"@,
        "content"@ != "kind"@,
        "metadata"@ != "id"@,
        "metadata"@ != "ts"@,
        "metadata"@ != "role"@,
        "metadata"@ != "content"@,
        "metadata"@ != "kind"@,
{
    reveal_strlit("id");
    reveal_strlit("ts");
    reveal_strlit("role");
    reveal_strlit("content");
    reveal_strlit("metadata");
    reveal_strlit("kind");
    assert("id"@[0] != "ts"@[0]);
    assert("kind"@[0] != "role"@[0]);
    assert("role"@.len() != "id"@.len());
    assert("content"@.len() != "id"@.len());
    assert("metadata"@.len() != "id"@.len());
}

/// The value of the member at `at`, where no earlier one has its key; where
/// `at` is the number of members, there is none.
pub proof fn lemma_lookup(m: Seq<(Seq<char>, json::JsonView)>, key: Seq<char>, at: int)
    requires
        0 <= at <= m.len(),
        forall|i: int| 0 <= i < at ==> (#[trigger] m[i]).0 != key,
        at < m.len() ==> m[at].0 == key,
    ensures
        json::lookup(m, key) == (if at < m.len() {
            Some(m[at].1)
        } else {
            None
        }),
    decreases at,
{
    if at > 0 {
        assert forall|i: int| 0 <= i < at - 1 implies (#[trigger] m.drop_first()[i]).0 != key by {
            assert(m.drop_first()[i] == m[i + 1]);
        }
        lemma_lookup(m.drop_first(), key, at - 1);
    }
}

/// The payload of an entry that marks a compaction.
#[derive(Debug, PartialEq, Eq)]
pub struct CompactionEventMeta {
    /// The first entry that the summary covers.
    pub compacted_from_id: String,
    /// The last entry that the summary covers.
    pub compacted_to_id: String,
    /// How many rounds stayed in memory behind the summary.
    pub keep_last_rounds: usize,
    /// The model that wrote the summary.
    pub model: String,
    /// The estimate of the history's tokens before the compaction.
    pub before_tokens: u64,
    /// The estimate of the history's tokens after it.
    pub after_tokens: u64,
}

/// `s`, unless it is empty.
pub open spec fn filled(s: Seq<char>) -> Option<Seq<char>> {
    if s.len() == 0 {
        None
    } else {
        Some(s)
    }
}

/// A compaction's payload as a JSON object. Empty texts are left out.
pub open spec fn compaction_json(c: CompactionEventMeta) -> json::JsonView {
    let ids = json::with_opt_text(
        json::with_opt_text(Seq::empty(), "compacted_from_id"@, filled(c.compacted_from_id@)),
        "compacted_to_id"@,
        filled(c.compacted_to_id@),
    );
    let model = json::with_opt_text(
        ids.push(("keep_last_rounds"@, json::integer_view(c.keep_last_rounds as u64))),
        "model"@,
        filled(c.model@),
    );
    json::JsonView::Object(
        model.push(("before_tokens"@, json::integer_view(c.before_tokens))).push(
            ("after_tokens"@, json::integer_view(c.after_tokens)),
        ),
    )
}

fn add_filled(m: &mut Vec<JsonMember>, key: &str, s: &String)
    ensures
        json::member_views(final(m)@) == json::with_opt_text(
            json::member_views(old(m)@),
            key@,
            filled(s@),
        ),
{
    if !s.as_str().is_empty() {
        json::add_member(m, key, Json::Text(s.clone()));
    }
}

impl CompactionEventMeta {
    /// The payload as a JSON object.
    pub fn to_json(&self) -> (r: Json)
        ensures
            r@ == compaction_json(*self),
    {
        let mut m: Vec<JsonMember> = json::no_members();
        add_filled(&mut m, "compacted_from_id", &self.compacted_from_id);
        add_filled(&mut m, "compacted_to_id", &self.compacted_to_id);
        json::add_member(
            &mut m,
            "keep_last_rounds",
            json::integer_value(self.keep_last_rounds as u64),
        );
        add_filled(&mut m, "model", &self.model);
        json::add_member(&mut m, "before_tokens", json::integer_value(self.before_tokens));
        json::add_member(&mut m, "after_tokens", json::integer_value(self.after_tokens));
        json::object_value(m)
    }
}

} // verus!
