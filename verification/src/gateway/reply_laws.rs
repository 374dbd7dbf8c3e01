//! What the gateway is answered, looked up in the JSON that it gets, and what is read of
//! the files that configure the agent.

use crate::conversation::entry;
use crate::conversation::metadata;
use crate::conversation::since;
use crate::gateway::config::MigrationOutcome;
use crate::gateway::config;
use crate::gateway::replies;
use crate::json;
use vstd::prelude::*;

verus! {

/// The text that a member holds.
pub open spec fn text_at(v: json::JsonView, key: Seq<char>) -> Option<Seq<char>> {
    match v.get(key) {
        Some(json::JsonView::Text(s)) => Some(s),
        _ => None,
    }
}

/// The unsigned integer that a member holds.
pub open spec fn number_at(v: json::JsonView, key: Seq<char>) -> Option<u64> {
    match v.get(key) {
        Some(json::JsonView::Number(n, _)) => n,
        _ => None,
    }
}

/// The reply to a request to activate a session names the session and what its file says of
/// its model, its provider and its workspace.
pub proof fn activation_names_the_session(
    id: Seq<char>,
    meta: Option<metadata::MetadataView>,
    error: Seq<char>,
)
    ensures
        ({
            let v = replies::activated_json(id, meta);
            &&& text_at(v, "session_id"@) == Some(id)
            &&& v.get("activated"@) == Some(json::JsonView::Bool(true))
            &&& text_at(v, "model"@) == (match meta {
                Some(m) => m.model,
                None => None,
            })
            &&& text_at(v, "provider"@) == (match meta {
                Some(m) => m.provider,
                None => None,
            })
            &&& text_at(v, "workspace_id"@) == (match meta {
                Some(m) => m.workspace_id,
                None => None,
            })
        }),
        text_at(replies::error_json(error), "error"@) == Some(error),
        replies::not_found(id) == "Session not found: "@ + id,
{
    reveal_strlit("session_id");
    reveal_strlit("activated");
    reveal_strlit("model");
    reveal_strlit("provider");
    reveal_strlit("workspace_id");
    assert("session_id"@.len() == 10 && "activated"@.len() == 9 && "model"@.len() == 5
        && "provider"@.len() == 8 && "workspace_id"@.len() == 12);
    let m = replies::activated_json(id, meta)->Object_0;
    entry::lemma_lookup(m, "session_id"@, 0);
    entry::lemma_lookup(m, "activated"@, 1);
    entry::lemma_lookup(m, "model"@, 2);
    entry::lemma_lookup(m, "provider"@, 3);
    entry::lemma_lookup(m, "workspace_id"@, 4);
    entry::lemma_lookup(replies::error_json(error)->Object_0, "error"@, 0);
}

/// A message that is not answered is answered with why, under its own identifier; a message
/// without one gets one that is made of the time.
pub proof fn refusals_name_the_message(content: Seq<char>, id: Seq<char>, millis: i64)
    ensures
        ({
            let v = replies::chat_error_json(content, id);
            text_at(v, "content"@) == Some(content) && text_at(v, "message_id"@) == Some(id)
        }),
        replies::message_id_at(Some(id), millis) == id,
        millis >= 0 ==> replies::message_id_at(None, millis) == "msg-"@ + crate::text::decimal(
            millis as nat,
        ),
{
    reveal_strlit("content");
    reveal_strlit("message_id");
    assert("content"@.len() != "message_id"@.len());
    let m = replies::chat_error_json(content, id)->Object_0;
    entry::lemma_lookup(m, "content"@, 0);
    entry::lemma_lookup(m, "message_id"@, 1);
}

/// The new part of a streamed line is told with its line, its role, what it says, and how
/// many characters there are by now; where nothing is streamed, nothing is told.
pub proof fn streamed_parts_are_told(d: since::DeltaView)
    requires
        0 <= d.char_offset <= u64::MAX,
    ensures
        ({
            let v = replies::delta_json(Some(d));
            &&& number_at(v, "line"@) == Some(d.line as u64)
            &&& text_at(v, "role"@) == Some(d.role)
            &&& text_at(v, "content"@) == Some(d.content)
            &&& number_at(v, "char_offset"@) == Some(d.char_offset as u64)
        }),
        replies::delta_json(None) == json::JsonView::Null,
{
    reveal_strlit("line");
    reveal_strlit("role");
    reveal_strlit("content");
    reveal_strlit("char_offset");
    assert("line"@[0] != "role"@[0]);
    assert("line"@.len() == 4 && "role"@.len() == 4 && "content"@.len() == 7 && "char_offset"@.len()
        == 11);
    let m = replies::delta_json(Some(d))->Object_0;
    entry::lemma_lookup(m, "line"@, 0);
    entry::lemma_lookup(m, "role"@, 1);
    entry::lemma_lookup(m, "content"@, 2);
    entry::lemma_lookup(m, "char_offset"@, 3);
}

/// A reader who has `offset` characters of a streamed line gets the rest of it, with the
/// line's number and role; one who claims to have more than there are gets all.
pub proof fn streamed_rest_is_given(line: since::StreamingView, offset: nat)
    ensures
        ({
            let d = since::delta_since(line, offset);
            let all = line.accumulated_content;
            &&& d.line == line.line_number
            &&& d.role == line.role
            &&& d.char_offset == all.len()
            &&& offset <= all.len() ==> all == all.take(offset as int) + d.content
            &&& offset > all.len() ==> d.content == all
        }),
{
    let all = line.accumulated_content;
    if offset <= all.len() {
        assert(all =~= all.take(offset as int) + all.skip(offset as int));
    }
}

/// Entries are given as they are written in the file, in their order.
pub proof fn entries_are_given_as_written(es: Seq<entry::EntryView>, i: int)
    requires
        0 <= i < es.len(),
    ensures
        replies::entries_json(es) matches json::JsonView::Array(a) && a.len() == es.len() && a[i]
            == entry::entry_json(es[i]),
{
}

/// Only a question for approval is told to the part of the gateway that answers requests;
/// all else is told to the open windows.
pub proof fn approvals_are_told_apart(action: Seq<char>)
    ensures
        replies::target_of("tool_approval_needed"@) == "http-api"@,
        action != "tool_approval_needed"@ ==> replies::target_of(action) == "http-ws"@,
{
}

/// A cache of what the gateway sent is read as it is written: each version, and the lists
/// of providers and of servers.
pub proof fn caches_are_read_back(c: config::CacheView)
    requires
        !(c.providers matches Some(v) && v is Null),
        !(c.mcps matches Some(v) && v is Null),
    ensures
        config::decoded_cache(json::JsonView::Object(config::cache_members(c))) == Some(c),
        ({
            let v = json::JsonView::Object(config::cache_members(c));
            &&& number_at(v, "provider_list_version"@) == Some(c.provider_list_version)
            &&& number_at(v, "mcp_list_version"@) == Some(c.mcp_list_version)
            &&& number_at(v, "search_list_version"@) == Some(c.search_list_version)
            &&& number_at(v, "user_profile_version"@) == Some(c.user_profile_version)
            &&& v.get("providers"@) == c.providers
            &&& v.get("mcps"@) == c.mcps
        }),
{
    reveal_strlit("provider_list_version");
    reveal_strlit("mcp_list_version");
    reveal_strlit("search_list_version");
    reveal_strlit("user_profile_version");
    reveal_strlit("providers");
    reveal_strlit("mcps");
    assert("provider_list_version"@.len() == 21 && "mcp_list_version"@.len() == 16
        && "search_list_version"@.len() == 19 && "user_profile_version"@.len() == 20
        && "providers"@.len() == 9 && "mcps"@.len() == 4);
    let m = config::cache_members(c);
    entry::lemma_lookup(m, "provider_list_version"@, 0);
    entry::lemma_lookup(m, "mcp_list_version"@, 1);
    entry::lemma_lookup(m, "search_list_version"@, 2);
    entry::lemma_lookup(m, "user_profile_version"@, 3);
    let n = if c.providers is Some {
        5int
    } else {
        4int
    };
    entry::lemma_lookup(m, "providers"@, if c.providers is Some {
        4int
    } else {
        m.len() as int
    });
    entry::lemma_lookup(m, "mcps"@, n);
}

/// A cache is read from an object by the names of its members. One that is not there has
/// the version zero or no list, and one with a version that is no integer is not read.
pub proof fn caches_are_read_by_name(v: json::JsonView)
    requires
        v is Object,
    ensures
        match config::decoded_cache(v) {
            Some(c) => {
                &&& c.provider_list_version == number_at(v, "provider_list_version"@).unwrap_or(0)
                &&& c.mcp_list_version == number_at(v, "mcp_list_version"@).unwrap_or(0)
                &&& c.search_list_version == number_at(v, "search_list_version"@).unwrap_or(0)
                &&& c.user_profile_version == number_at(v, "user_profile_version"@).unwrap_or(0)
                &&& v.get("provider_list_version"@) is Some ==> number_at(
                    v,
                    "provider_list_version"@,
                ) is Some
                &&& v.get("mcp_list_version"@) is Some ==> number_at(v, "mcp_list_version"@) is Some
                &&& v.get("search_list_version"@) is Some ==> number_at(
                    v,
                    "search_list_version"@,
                ) is Some
                &&& v.get("user_profile_version"@) is Some ==> number_at(
                    v,
                    "user_profile_version"@,
                ) is Some
                &&& c.providers == (match v.get("providers"@) {
                    Some(json::JsonView::Null) => None,
                    o => o,
                })
                &&& c.mcps == (match v.get("mcps"@) {
                    Some(json::JsonView::Null) => None,
                    o => o,
                })
            },
            None => {
                ||| v.get("provider_list_version"@) is Some && number_at(
                    v,
                    "provider_list_version"@,
                ) is None
                ||| v.get("mcp_list_version"@) is Some && number_at(v, "mcp_list_version"@) is None
                ||| v.get("search_list_version"@) is Some && number_at(
                    v,
                    "search_list_version"@,
                ) is None
                ||| v.get("user_profile_version"@) is Some && number_at(
                    v,
                    "user_profile_version"@,
                ) is None
            },
        },
        config::empty_cache().provider_list_version == 0,
        config::empty_cache().providers is None && config::empty_cache().mcps is None,
{
}

/// The embeddings are configured by where they are made, by which model, and in how many
/// dimensions, of which none may be missing.
pub proof fn embeddings_are_read_by_name(v: json::JsonView)
    requires
        v is Object,
    ensures
        match config::decoded_embed(v) {
            Some((e, m, d)) => text_at(v, "embed_endpoint"@) == Some(e) && text_at(
                v,
                "embed_model_id"@,
            ) == Some(m) && (number_at(v, "embed_dimension"@) matches Some(n) && n == d),
            None => text_at(v, "embed_endpoint"@) is None || text_at(v, "embed_model_id"@) is None
                || number_at(v, "embed_dimension"@) is None || number_at(v, "embed_dimension"@)->0
                > usize::MAX,
        },
{
}

/// A picture that is sent replaces the one there is, an empty one removes it, and none
/// leaves it.
pub proof fn pictures_are_replaced(current: Option<Seq<char>>, s: Seq<char>)
    ensures
        config::updated_picture(current, None) == current,
        s.len() > 0 ==> config::updated_picture(current, Some(s)) == Some(s),
        s.len() == 0 ==> config::updated_picture(current, Some(s)) is None,
{
}

/// What the user chose for the skills is read from the member of that name.
pub proof fn skill_choices_are_read(v: json::JsonView, b: bool)
    requires
        v is Object,
    ensures
        (config::chosen_progressive(v) == Some(b)) == (v.get("progressive"@) == Some(
            json::JsonView::Bool(b),
        )),
{
}

/// The report on embedding the memory anew answers the request that it names: it has come
/// to an end, with its counts, or has failed, and says why.
pub proof fn migrations_are_reported(id: Seq<char>, o: MigrationOutcome)
    ensures
        ({
            let v = config::migration_json(id, o);
            &&& text_at(v, "request_id"@) == Some(id)
            &&& v.get("success"@) == Some(json::JsonView::Bool(o is Done))
            &&& o matches MigrationOutcome::Done { old_dim, new_dim, rebuilt, skipped, errors }
                ==> number_at(v, "old_dim"@) == Some(old_dim) && number_at(v, "new_dim"@) == Some(
                new_dim,
            ) && number_at(v, "rebuilt"@) == Some(rebuilt) && number_at(v, "skipped"@) == Some(
                skipped,
            ) && number_at(v, "errors"@) == Some(errors)
            &&& o matches MigrationOutcome::Failed(e) ==> text_at(v, "error"@) == Some(e@)
        }),
{
    reveal_strlit("request_id");
    reveal_strlit("success");
    reveal_strlit("old_dim");
    reveal_strlit("new_dim");
    reveal_strlit("rebuilt");
    reveal_strlit("skipped");
    reveal_strlit("errors");
    reveal_strlit("error");
    assert("request_id"@.len() == 10 && "success"@.len() == 7 && "old_dim"@.len() == 7
        && "new_dim"@.len() == 7 && "rebuilt"@.len() == 7 && "skipped"@.len() == 7
        && "errors"@.len() == 6 && "error"@.len() == 5);
    assert("success"@[1] == 'u' && "old_dim"@[1] == 'l' && "new_dim"@[1] == 'e' && "rebuilt"@[1]
        == 'e' && "skipped"@[1] == 'k' && "new_dim"@[0] == 'n' && "rebuilt"@[0] == 'r');
    let m = config::migration_json(id, o)->Object_0;
    entry::lemma_lookup(m, "request_id"@, 0);
    entry::lemma_lookup(m, "success"@, 1);
    match o {
        MigrationOutcome::Done { .. } => {
            entry::lemma_lookup(m, "old_dim"@, 2);
            entry::lemma_lookup(m, "new_dim"@, 3);
            entry::lemma_lookup(m, "rebuilt"@, 4);
            entry::lemma_lookup(m, "skipped"@, 5);
            entry::lemma_lookup(m, "errors"@, 6);
        },
        MigrationOutcome::Failed(_) => {
            entry::lemma_lookup(m, "error"@, 2);
        },
    }
}

/// Replies and errors go out under their own names, to the parts of the gateway that ask.
pub proof fn replies_go_out_under_their_names()
    ensures
        replies::HTTP_API@ == "http-api"@,
        replies::HTTP_WS@ == "http-ws"@,
        replies::SESSION_RESPONSE@ == "session_response"@,
        replies::AGENT_ERROR@ == "agent_error"@,
        replies::AGENT_HOME@ == "__agent_home__"@,
        config::GATEWAY_RECV_RETRY_INTERVAL_MS == 100,
{
}

} // verus!
