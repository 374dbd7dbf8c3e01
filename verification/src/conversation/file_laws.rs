//! What the lines of a conversation file say, member by member.

use crate::agent::session::restorer;
use crate::bytes;
use crate::conversation::entry::CompactionEventMeta;
use crate::conversation::entry;
use crate::conversation::metadata;
use crate::conversation::pages;
use crate::conversation::session;
use crate::conversation::writer;
use crate::json;
use crate::text;
use vstd::prelude::*;
use vstd::utf8::*;

verus! {

/// The text that a member holds.
pub open spec fn text_at(v: json::JsonView, key: Seq<char>) -> Option<Seq<char>> {
    match v.get(key) {
        Some(json::JsonView::Text(s)) => Some(s),
        _ => None,
    }
}

/// The unsigned integer that a member holds.
pub open spec fn integer_at(v: json::JsonView, key: Seq<char>) -> Option<u64> {
    match v.get(key) {
        Some(json::JsonView::Number(n, _)) => n,
        _ => None,
    }
}

/// A member is not there, or is null.
pub open spec fn is_missing(v: json::JsonView, key: Seq<char>) -> bool {
    v.get(key) is None || v.get(key) == Some(json::JsonView::Null)
}

/// A member is a string, or is missing.
pub open spec fn may_be_text(v: json::JsonView, key: Seq<char>) -> bool {
    is_missing(v, key) || text_at(v, key) is Some
}

/// A member is an unsigned integer, or is missing.
pub open spec fn may_be_integer(v: json::JsonView, key: Seq<char>) -> bool {
    is_missing(v, key) || integer_at(v, key) is Some
}

/// The object `v` says what the entry `e` holds.
pub open spec fn says_entry(v: json::JsonView, e: entry::EntryView) -> bool {
    &&& text_at(v, "id"@) == Some(e.id)
    &&& text_at(v, "ts"@) == Some(e.ts)
    &&& text_at(v, "role"@) == Some(e.role)
    &&& text_at(v, "content"@) == Some(e.content)
    &&& text_at(v, "kind"@) == e.kind
    &&& match e.metadata {
        Some(m) => v.get("metadata"@) == Some(m) && !(m is Null),
        None => is_missing(v, "metadata"@),
    }
}

/// A JSON object stands for an entry if and only if it has its texts, and then for the
/// one that it says.
pub proof fn entry_is_read_by_name(v: json::JsonView)
    requires
        v is Object,
    ensures
        entry::decoded_entry(v) is Some <==> text_at(v, "id"@) is Some && text_at(v, "ts"@) is Some
            && text_at(v, "role"@) is Some && text_at(v, "content"@) is Some && may_be_text(
            v,
            "kind"@,
        ),
        entry::decoded_entry(v) matches Some(e) ==> says_entry(v, e),
{
}

/// Every value is the same as itself.
proof fn lemma_same(a: json::JsonView)
    ensures
        json::same_value(a, a),
    decreases a,
{
    match a {
        json::JsonView::Array(x) => {
            assert forall|i: int| 0 <= i < x.len() implies json::same_value(#[trigger] x[i], x[i]) by {
                lemma_same(x[i]);
            }
        },
        json::JsonView::Object(x) => {
            assert forall|i: int| 0 <= i < x.len() implies (#[trigger] x[i]).0 == x[i].0
                && json::same_value(x[i].1, x[i].1) by {
                lemma_same(x[i].1);
            }
        },
        _ => {},
    }
}

/// The JSON object of an entry says what the entry holds.
pub proof fn entry_is_written_by_name(e: entry::EntryView)
    requires
        !(e.metadata matches Some(m) && m is Null),
    ensures
        says_entry(entry::entry_json(e), e),
{
    let v = entry::entry_json(e);
    lemma_same(v);
    entry::entry_json_is_decoded(e, v);
    entry_is_read_by_name(v);
}

/// The object `v` says what the metadata `m` hold.
pub open spec fn says_metadata(v: json::JsonView, m: metadata::MetadataView) -> bool {
    &&& integer_at(v, "version"@) == Some(m.version as u64)
    &&& text_at(v, "session_id"@) == Some(m.session_id)
    &&& text_at(v, "created_at"@) == Some(m.created_at)
    &&& text_at(v, "agent_id"@) == Some(m.agent_id)
    &&& text_at(v, "title"@) == m.title
    &&& text_at(v, "updated_at"@) == m.updated_at
    &&& integer_at(v, "message_count"@) == (match m.message_count {
        Some(n) => Some(n as u64),
        None => None,
    })
    &&& m.corrupted == (v.get("corrupted"@) == Some(json::JsonView::Bool(true)))
    &&& text_at(v, "workspace_id"@) == m.workspace_id
    &&& text_at(v, "model"@) == m.model
    &&& text_at(v, "provider"@) == m.provider
    &&& text_at(v, "reasoning_effort"@) == m.reasoning_effort
    &&& match m.temperature {
        Some(t) => v.get("temperature"@) == Some(json::JsonView::Number(t.0, t.1)),
        None => is_missing(v, "temperature"@),
    }
    &&& integer_at(v, "last_input_tokens"@) == m.last_input_tokens
    &&& integer_at(v, "last_output_tokens"@) == m.last_output_tokens
    &&& integer_at(v, "last_compaction_offset"@) == m.last_compaction_offset
}

/// A JSON object stands for the metadata that it says. It stands for some where the
/// members that have to be there are, and all have the types that they have to have.
pub proof fn metadata_are_read_by_name(v: json::JsonView)
    requires
        v is Object,
    ensures
        metadata::decoded_metadata(v) matches Some(m) ==> says_metadata(v, m),
        ({
            &&& integer_at(v, "version"@) matches Some(n) && n <= u32::MAX
            &&& text_at(v, "session_id"@) is Some
            &&& text_at(v, "created_at"@) is Some
            &&& text_at(v, "agent_id"@) is Some
            &&& may_be_text(v, "title"@)
            &&& may_be_text(v, "updated_at"@)
            &&& may_be_integer(v, "message_count"@)
            &&& integer_at(v, "message_count"@) matches Some(n) ==> n <= u32::MAX
            &&& v.get("corrupted"@) matches Some(b) ==> b is Bool
            &&& may_be_text(v, "workspace_id"@)
            &&& may_be_text(v, "model"@)
            &&& may_be_text(v, "provider"@)
            &&& may_be_text(v, "reasoning_effort"@)
            &&& is_missing(v, "temperature"@) || v.get("temperature"@)->0 is Number
            &&& may_be_integer(v, "last_input_tokens"@)
            &&& may_be_integer(v, "last_output_tokens"@)
            &&& may_be_integer(v, "last_compaction_offset"@)
        }) <==> metadata::decoded_metadata(v) is Some,
{
}

/// The JSON object of a session's metadata says what they hold.
pub proof fn metadata_are_written_by_name(m: metadata::MetadataView)
    ensures
        says_metadata(metadata::metadata_json(m), m),
{
    let v = metadata::metadata_json(m);
    lemma_same(v);
    metadata::metadata_json_is_decoded(m, v);
    metadata_are_read_by_name(v);
}

/// What is known of a session whose first line is damaged: that it is damaged, and the
/// name of its file.
pub proof fn damaged_session_keeps_its_name(stem: Seq<char>)
    ensures
        ({
            let m = metadata::recovered(stem);
            &&& m.session_id == stem
            &&& m.corrupted
            &&& m.title == Some("(corrupted session)"@)
            &&& m.model is None && m.provider is None && m.workspace_id is None
            &&& m.created_at.len() == 0 && m.agent_id.len() == 0
        }),
{
}

/// The payload of a compaction names what was compacted, by which model, and the tokens
/// before and after. Texts that are empty are left out.
pub proof fn compaction_says_its_range(c: CompactionEventMeta)
    ensures
        ({
            let v = entry::compaction_json(c);
            &&& v.get("compacted_from_id"@) == (if c.compacted_from_id@.len() == 0 {
                None
            } else {
                Some(json::JsonView::Text(c.compacted_from_id@))
            })
            &&& v.get("compacted_to_id"@) == (if c.compacted_to_id@.len() == 0 {
                None
            } else {
                Some(json::JsonView::Text(c.compacted_to_id@))
            })
            &&& v.get("model"@) == (if c.model@.len() == 0 {
                None
            } else {
                Some(json::JsonView::Text(c.model@))
            })
            &&& integer_at(v, "keep_last_rounds"@) == Some(c.keep_last_rounds as u64)
            &&& integer_at(v, "before_tokens"@) == Some(c.before_tokens)
            &&& integer_at(v, "after_tokens"@) == Some(c.after_tokens)
        }),
{
    reveal_strlit("compacted_from_id");
    reveal_strlit("compacted_to_id");
    reveal_strlit("model");
    reveal_strlit("keep_last_rounds");
    reveal_strlit("before_tokens");
    reveal_strlit("after_tokens");
    assert("compacted_from_id"@.len() == 17 && "compacted_to_id"@.len() == 15 && "model"@.len() == 5
        && "keep_last_rounds"@.len() == 16 && "before_tokens"@.len() == 13 && "after_tokens"@.len()
        == 12);
    lemma_compaction_at(c, "compacted_from_id"@);
    lemma_compaction_at(c, "compacted_to_id"@);
    lemma_compaction_at(c, "model"@);
    lemma_compaction_at(c, "keep_last_rounds"@);
    lemma_compaction_at(c, "before_tokens"@);
    lemma_compaction_at(c, "after_tokens"@);
}

spec fn found(
    m: Seq<(Seq<char>, json::JsonView)>,
    k: Seq<char>,
    key: Seq<char>,
    v: Option<json::JsonView>,
) -> Option<json::JsonView> {
    match json::lookup(m, k) {
        Some(x) => Some(x),
        None => if key == k {
            v
        } else {
            None
        },
    }
}

proof fn lemma_compaction_at(c: CompactionEventMeta, k: Seq<char>)
    ensures
        ({
            let a = Seq::<(Seq<char>, json::JsonView)>::empty();
            let x = entry::filled(c.compacted_from_id@);
            let y = entry::filled(c.compacted_to_id@);
            let z = entry::filled(c.model@);
            let b = json::with_opt_text(a, "compacted_from_id"@, x);
            let d = json::with_opt_text(b, "compacted_to_id"@, y);
            let e = d.push(("keep_last_rounds"@, json::integer_view(c.keep_last_rounds as u64)));
            let f = json::with_opt_text(e, "model"@, z);
            let g = f.push(("before_tokens"@, json::integer_view(c.before_tokens)));
            &&& json::lookup(a, k) is None
            &&& json::lookup(b, k) == found(a, k, "compacted_from_id"@, text_json(x))
            &&& json::lookup(d, k) == found(b, k, "compacted_to_id"@, text_json(y))
            &&& json::lookup(e, k) == found(
                d,
                k,
                "keep_last_rounds"@,
                Some(json::integer_view(c.keep_last_rounds as u64)),
            )
            &&& json::lookup(f, k) == found(e, k, "model"@, text_json(z))
            &&& json::lookup(g, k) == found(
                f,
                k,
                "before_tokens"@,
                Some(json::integer_view(c.before_tokens)),
            )
            &&& entry::compaction_json(c).get(k) == found(
                g,
                k,
                "after_tokens"@,
                Some(json::integer_view(c.after_tokens)),
            )
        }),
{
    let a = Seq::<(Seq<char>, json::JsonView)>::empty();
    let x = entry::filled(c.compacted_from_id@);
    let y = entry::filled(c.compacted_to_id@);
    let z = entry::filled(c.model@);
    let b = json::with_opt_text(a, "compacted_from_id"@, x);
    let d = json::with_opt_text(b, "compacted_to_id"@, y);
    let e = d.push(("keep_last_rounds"@, json::integer_view(c.keep_last_rounds as u64)));
    let f = json::with_opt_text(e, "model"@, z);
    let g = f.push(("before_tokens"@, json::integer_view(c.before_tokens)));
    if let Some(s) = x {
        metadata::lemma_lookup_push(a, "compacted_from_id"@, json::JsonView::Text(s), k);
    }
    if let Some(s) = y {
        metadata::lemma_lookup_push(b, "compacted_to_id"@, json::JsonView::Text(s), k);
    }
    metadata::lemma_lookup_push(
        d,
        "keep_last_rounds"@,
        json::integer_view(c.keep_last_rounds as u64),
        k,
    );
    if let Some(s) = z {
        metadata::lemma_lookup_push(e, "model"@, json::JsonView::Text(s), k);
    }
    metadata::lemma_lookup_push(f, "before_tokens"@, json::integer_view(c.before_tokens), k);
    metadata::lemma_lookup_push(g, "after_tokens"@, json::integer_view(c.after_tokens), k);
}

spec fn text_json(o: Option<Seq<char>>) -> Option<json::JsonView> {
    match o {
        Some(s) => Some(json::JsonView::Text(s)),
        None => None,
    }
}

/// The metadata that a session writes name it and what was chosen for it, and a session
/// that is resumed has what its file names.
pub proof fn metadata_name_the_session(
    s: session::SessionView,
    now: Seq<char>,
    id: Seq<char>,
    m: metadata::MetadataView,
)
    ensures
        ({
            let w = session::session_metadata(s, now);
            &&& w.session_id == s.session_id
            &&& w.agent_id == s.agent_id
            &&& w.created_at == s.created_at
            &&& w.updated_at == Some(now)
            &&& w.title == s.title
            &&& w.workspace_id == s.workspace_id
            &&& w.model == s.model
            &&& w.provider == s.provider
            &&& w.reasoning_effort == s.reasoning_effort
            &&& w.temperature == s.temperature
            &&& !w.corrupted
            &&& w.version == 2
            &&& match s.last_tokens {
                Some((i, o)) => w.last_input_tokens == Some(i) && w.last_output_tokens == Some(o),
                None => w.last_input_tokens is None && w.last_output_tokens is None,
            }
        }),
        ({
            let r = session::resumed(id, m);
            &&& r.session_id == id
            &&& r.agent_id == m.agent_id
            &&& r.created_at == m.created_at
            &&& r.title == m.title
            &&& r.title_set == (m.title is Some)
            &&& r.workspace_id == m.workspace_id
            &&& r.model == m.model
            &&& r.provider == m.provider
            &&& r.reasoning_effort == m.reasoning_effort
            &&& r.temperature == m.temperature
            &&& match r.last_tokens {
                Some((i, o)) => i == m.last_input_tokens.unwrap_or(0) && o
                    == m.last_output_tokens.unwrap_or(0) && (m.last_input_tokens is Some
                    || m.last_output_tokens is Some),
                None => m.last_input_tokens is None && m.last_output_tokens is None,
            }
        }),
{
}

/// A character that ends a clause.
pub open spec fn ends_clause(c: char) -> bool {
    seq![',', '，', '.', '。', '!', '！', '?', '？', ';', '；', '\n'].contains(c)
}

/// A title of at most thirty characters is the message itself. A longer message gives
/// the clauses that end before its thirtieth character, or else its first thirty
/// characters and an ellipsis.
pub proof fn title_is_how_the_message_begins(s: Seq<char>) -> (p: int)
    ensures
        s.len() <= 30 ==> session::title_of(s) == s && session::cut_title(s) == s,
        s.len() > 30 ==> session::cut_title(s) == s.take(30) + "..."@,
        s.len() > 30 ==> {
            &&& p < 30
            &&& 0 <= p ==> ends_clause(s[p])
            &&& forall|k: int| p < k < 30 && 0 <= k ==> !ends_clause(#[trigger] s[k])
            &&& session::title_of(s) == (if 0 <= p < 29 {
                s.take(p + 1)
            } else {
                s.take(30) + "..."@
            })
        },
{
    if s.len() > 30 {
        lemma_break(s, 30);
        match session::last_break(s, 30) {
            Some(p) => p,
            None => -1,
        }
    } else {
        0
    }
}

proof fn lemma_clause(c: char)
    ensures
        session::is_break(c) == ends_clause(c),
{
    let all = seq![',', '，', '.', '。', '!', '！', '?', '？', ';', '；', '\n'];
    assert(all[0] == ',' && all[1] == '，' && all[2] == '.' && all[3] == '。' && all[4] == '!' && all[5]
        == '！' && all[6] == '?' && all[7] == '？' && all[8] == ';' && all[9] == '；' && all[10] == '\n');
}

proof fn lemma_break(s: Seq<char>, end: int)
    requires
        0 <= end <= s.len(),
    ensures
        match session::last_break(s, end) {
            Some(p) => 0 <= p < end && ends_clause(s[p]) && forall|k: int|
                p < k < end ==> !ends_clause(#[trigger] s[k]),
            None => forall|k: int| 0 <= k < end ==> !ends_clause(#[trigger] s[k]),
        },
    decreases end,
{
    if end > 0 {
        lemma_clause(s[end - 1]);
        if !session::is_break(s[end - 1]) {
            lemma_break(s, end - 1);
        }
    }
}

/// A rewritten file begins with its new first line; what stood behind the old one follows,
/// and ends where a line ends.
pub proof fn first_line_is_replaced(first: Seq<char>, rest: Seq<char>, line: Seq<char>)
    requires
        !first.contains('\n'),
    ensures
        ({
            let r = writer::with_first_line(first.push('\n') + rest, line);
            &&& line.push('\n').is_prefix_of(r)
            &&& rest.is_prefix_of(r.skip(line.len() as int + 1))
            &&& r.len() <= line.len() + rest.len() + 2
            &&& r.last() == '\n'
            &&& rest.len() == 0 || rest.last() == '\n' ==> r == line.push('\n') + rest
        }),
{
    let s = first.push('\n') + rest;
    let n = first.len() as int;
    let p = seq!['\n'];
    text::lemma_first_index_from(s, p, 0);
    assert(s.subrange(n, n + 1) =~= p);
    assert(text::stands_at(s, p, n));
    let i = text::first_index(s, p)->0;
    if i < n {
        assert(s.subrange(i, i + 1)[0] == first[i]);
        assert(first.contains(first[i]));
    }
    assert(s.skip(n + 1) =~= rest);
    let t = writer::terminated(rest);
    let r = writer::with_first_line(s, line);
    assert(r == line.push('\n') + t);
    assert(r.take(line.len() as int + 1) =~= line.push('\n'));
    assert(r.skip(line.len() as int + 1) =~= t);
    assert(t.take(rest.len() as int) =~= rest);
}

/// The data section of a file begins behind its first line.
pub proof fn data_follow_the_first_line(first: Seq<u8>, rest: Seq<u8>)
    requires
        forall|i: int| 0 <= i < first.len() ==> first[i] != 10,
        valid_utf8(first.push(10u8)),
    ensures
        pages::data_start(first.push(10u8) + rest) == Some(first.len() as int + 1),
{
    let c = first.push(10u8) + rest;
    let n = first.len() as int;
    assert forall|k: int| 0 <= k < n implies c[k] != bytes::NEWLINE by {
        assert(c[k] == first[k]);
    }
    assert(c[n] == 10u8);
    restorer::lemma_end_is(c, 0, n);
    assert(c.subrange(0, n + 1) =~= first.push(10u8));
}

/// An entry that is read back as it was written is the same in its id, its time, its role,
/// its content and its kind; one without metadata, or with metadata that can be written,
/// is read back so.
pub proof fn entries_are_kept(a: entry::EntryView, b: entry::EntryView)
    ensures
        a.metadata is None ==> entry::is_kept(a) && entry::is_whole_entry(a),
        a.metadata matches Some(m) ==> (!(m is Null) && json::writable(
            m,
            (json::MAX_DEPTH - 1) as nat,
        ) ==> entry::is_kept(a)),
        entry::same_entry(a, b) ==> {
            &&& a.id == b.id
            &&& a.ts == b.ts
            &&& a.role == b.role
            &&& a.content == b.content
            &&& a.kind == b.kind
            &&& a.metadata is None <==> b.metadata is None
            &&& a.metadata matches Some(m) ==> json::same_value(m, b.metadata->0)
        },
        entry::entry_text(a) == json::written(json::stored(entry::entry_json(a))),
{
}

/// Metadata that are read back as they were written are the same but for the last digits of
/// a temperature; those without one are read back so.
pub proof fn metadata_are_kept(a: metadata::MetadataView, b: metadata::MetadataView)
    ensures
        a.temperature is None ==> metadata::is_kept(a),
        a.temperature matches Some(t) ==> (json::is_number(t.0, t.1) ==> metadata::is_kept(a)),
        metadata::same_metadata(a, b) ==> {
            &&& a.session_id == b.session_id
            &&& a.created_at == b.created_at
            &&& a.agent_id == b.agent_id
            &&& a.title == b.title
            &&& a.updated_at == b.updated_at
            &&& a.message_count == b.message_count
            &&& a.corrupted == b.corrupted
            &&& a.workspace_id == b.workspace_id
            &&& a.model == b.model
            &&& a.provider == b.provider
            &&& a.reasoning_effort == b.reasoning_effort
            &&& a.last_input_tokens == b.last_input_tokens
            &&& a.last_output_tokens == b.last_output_tokens
            &&& a.last_compaction_offset == b.last_compaction_offset
            &&& a.temperature is None ==> b.temperature is None
        },
        metadata::metadata_text(a) == json::written(json::stored(metadata::metadata_json(a))),
{
}

/// Texts, booleans and nothing can be written at any depth, and are read back as they are;
/// so are integers.
pub proof fn plain_values_are_kept(s: Seq<char>, b: bool, n: u64, depth: nat, v: json::JsonView)
    ensures
        json::writable(json::JsonView::Text(s), depth),
        json::writable(json::JsonView::Bool(b), depth),
        json::same_value(json::JsonView::Text(s), v) ==> v == json::JsonView::Text(s),
        json::same_value(json::JsonView::Bool(b), v) ==> v == json::JsonView::Bool(b),
        json::same_value(json::JsonView::Null, v) ==> v == json::JsonView::Null,
        json::same_value(json::integer_view(n), v) ==> (v matches json::JsonView::Number(k, _) && k
            == Some(n)),
{
}

/// The metadata that are written for a session are those of the session, at the time that
/// they give.
pub proof fn written_metadata_are_those_of_the_session(
    s: session::SessionView,
    m: metadata::MetadataView,
)
    requires
        session::is_metadata_of(s, m),
    ensures
        m.session_id == s.session_id,
        m.agent_id == s.agent_id,
        m.created_at == s.created_at,
        m.title == s.title,
        m.workspace_id == s.workspace_id,
        m.model == s.model,
        m.provider == s.provider,
        m.reasoning_effort == s.reasoning_effort,
        m.temperature == s.temperature,
        m.updated_at is Some,
        !m.corrupted,
{
}

} // verus!
