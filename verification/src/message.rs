//! The messages of a conversation, as a language model takes and gives them.

use crate::text;
use vstd::prelude::*;

verus! {

/// Who a message is from.
#[derive(Clone, Copy, Debug, PartialEq, Eq, Structural)]
pub enum MessageRole {
    System,
    User,
    Assistant,
    Tool,
}

/// The function that a tool call names, with its arguments as a JSON text.
#[derive(Debug, PartialEq, Eq)]
pub struct FunctionCall {
    pub name: String,
    pub arguments: String,
}

/// A call of a tool that an assistant message asks for.
#[derive(Debug, PartialEq, Eq)]
pub struct ToolCall {
    pub id: String,
    pub call_type: String,
    pub function: FunctionCall,
}

/// An image of a multimodal message.
#[derive(Debug, PartialEq, Eq)]
pub struct ImageUrl {
    pub url: String,
    pub detail: Option<String>,
}

/// A part of a multimodal message.
#[derive(Debug, PartialEq, Eq)]
pub enum ContentPart {
    Text { text: String },
    ImageUrl { image_url: ImageUrl },
}

/// A message of a conversation.
#[derive(Debug, PartialEq, Eq)]
pub struct ChatMessage {
    pub role: MessageRole,
    pub content: String,
    pub content_parts: Option<Vec<ContentPart>>,
    pub reasoning_content: Option<String>,
    pub name: Option<String>,
    pub tool_call_id: Option<String>,
    pub tool_calls: Option<Vec<ToolCall>>,
}

/// What a tool call holds.
pub struct ToolCallView {
    pub id: Seq<char>,
    pub call_type: Seq<char>,
    pub name: Seq<char>,
    pub arguments: Seq<char>,
}

/// What a part of a multimodal message holds.
pub enum ContentPartView {
    Text(Seq<char>),
    ImageUrl(Seq<char>, Option<Seq<char>>),
}

/// What a message holds.
pub struct MessageView {
    pub role: MessageRole,
    pub content: Seq<char>,
    pub content_parts: Option<Seq<ContentPartView>>,
    pub reasoning_content: Option<Seq<char>>,
    pub name: Option<Seq<char>>,
    pub tool_call_id: Option<Seq<char>>,
    pub tool_calls: Option<Seq<ToolCallView>>,
}

impl View for ToolCall {
    type V = ToolCallView;

    open spec fn view(&self) -> ToolCallView {
        ToolCallView {
            id: self.id@,
            call_type: self.call_type@,
            name: self.function.name@,
            arguments: self.function.arguments@,
        }
    }
}

impl View for ContentPart {
    type V = ContentPartView;

    open spec fn view(&self) -> ContentPartView {
        match *self {
            ContentPart::Text { text } => ContentPartView::Text(text@),
            ContentPart::ImageUrl { image_url } => ContentPartView::ImageUrl(
                image_url.url@,
                text::opt_text(image_url.detail),
            ),
        }
    }
}

/// What each tool call of a sequence holds.
pub open spec fn call_views(calls: Seq<ToolCall>) -> Seq<ToolCallView> {
    calls.map_values(|c: ToolCall| c@)
}

/// What each part of a sequence holds.
pub open spec fn part_views(parts: Seq<ContentPart>) -> Seq<ContentPartView> {
    parts.map_values(|p: ContentPart| p@)
}

/// What each message of a sequence holds.
pub open spec fn message_views(messages: Seq<ChatMessage>) -> Seq<MessageView> {
    messages.map_values(|m: ChatMessage| m@)
}

/// What an optional list of tool calls holds.
pub open spec fn opt_calls(calls: Option<Vec<ToolCall>>) -> Option<Seq<ToolCallView>> {
    match calls {
        Some(c) => Some(call_views(c@)),
        None => None,
    }
}

/// What an optional list of parts holds.
pub open spec fn opt_parts(parts: Option<Vec<ContentPart>>) -> Option<Seq<ContentPartView>> {
    match parts {
        Some(p) => Some(part_views(p@)),
        None => None,
    }
}

impl View for ChatMessage {
    type V = MessageView;

    open spec fn view(&self) -> MessageView {
        MessageView {
            role: self.role,
            content: self.content@,
            content_parts: opt_parts(self.content_parts),
            reasoning_content: text::opt_text(self.reasoning_content),
            name: text::opt_text(self.name),
            tool_call_id: text::opt_text(self.tool_call_id),
            tool_calls: opt_calls(self.tool_calls),
        }
    }
}

/// A message of `role` that holds the text `content` and nothing else.
pub open spec fn plain_message(role: MessageRole, content: Seq<char>) -> MessageView {
    MessageView {
        role,
        content,
        content_parts: None,
        reasoning_content: None,
        name: None,
        tool_call_id: None,
        tool_calls: None,
    }
}

/// A copy of an optional string.
pub fn clone_opt(o: &Option<String>) -> (r: Option<String>)
    ensures
        text::opt_text(r) == text::opt_text(*o),
        r is Some == o is Some,
{
    match o {
        Some(s) => Some(s.clone()),
        None => None,
    }
}

/// Whether an optional string holds the characters of `s`.
pub fn opt_is(o: &Option<String>, s: &str) -> (r: bool)
    ensures
        r == (text::opt_text(*o) == Some(s@)),
{
    match o {
        Some(t) => text::same_text(t.as_str(), s),
        None => false,
    }
}

impl Clone for FunctionCall {
    fn clone(&self) -> (r: Self)
        ensures
            r == *self,
    {
        FunctionCall { name: self.name.clone(), arguments: self.arguments.clone() }
    }
}

impl Clone for ToolCall {
    fn clone(&self) -> (r: Self)
        ensures
            r == *self,
    {
        ToolCall {
            id: self.id.clone(),
            call_type: self.call_type.clone(),
            function: self.function.clone(),
        }
    }
}

impl Clone for ImageUrl {
    fn clone(&self) -> (r: Self)
        ensures
            r.url@ == self.url@,
            text::opt_text(r.detail) == text::opt_text(self.detail),
    {
        ImageUrl { url: self.url.clone(), detail: clone_opt(&self.detail) }
    }
}

impl Clone for ContentPart {
    fn clone(&self) -> (r: Self)
        ensures
            r@ == self@,
    {
        match self {
            ContentPart::Text { text } => ContentPart::Text { text: text.clone() },
            ContentPart::ImageUrl { image_url } => ContentPart::ImageUrl {
                image_url: image_url.clone(),
            },
        }
    }
}

/// A copy of a list of tool calls.
pub fn clone_calls(calls: &Vec<ToolCall>) -> (r: Vec<ToolCall>)
    ensures
        r@ == calls@,
{
    let mut out: Vec<ToolCall> = Vec::new();
    let mut i: usize = 0;
    while i < calls.len()
        invariant
            i <= calls@.len(),
            out@ == calls@.take(i as int),
        decreases calls@.len() - i,
    {
        out.push(calls[i].clone());
        proof {
            assert(out@ =~= calls@.take(i + 1));
        }
        i = i + 1;
    }
    proof {
        assert(calls@.take(calls@.len() as int) =~= calls@);
    }
    out
}

/// A copy of a list of parts.
pub fn clone_parts(parts: &Vec<ContentPart>) -> (r: Vec<ContentPart>)
    ensures
        part_views(r@) == part_views(parts@),
{
    let mut out: Vec<ContentPart> = Vec::new();
    let mut i: usize = 0;
    while i < parts.len()
        invariant
            i <= parts@.len(),
            part_views(out@) == part_views(parts@).take(i as int),
        decreases parts@.len() - i,
    {
        let ghost before: Seq<ContentPart> = out@;
        out.push(parts[i].clone());
        proof {
            assert(part_views(out@) =~= part_views(before).push(parts@[i as int]@));
            assert(part_views(out@) =~= part_views(parts@).take(i + 1));
        }
        i = i + 1;
    }
    proof {
        assert(part_views(parts@).take(parts@.len() as int) =~= part_views(parts@));
    }
    out
}

impl Clone for ChatMessage {
    fn clone(&self) -> (r: Self)
        ensures
            r@ == self@,
    {
        ChatMessage {
            role: self.role,
            content: self.content.clone(),
            content_parts: match &self.content_parts {
                Some(p) => Some(clone_parts(p)),
                None => None,
            },
            reasoning_content: clone_opt(&self.reasoning_content),
            name: clone_opt(&self.name),
            tool_call_id: clone_opt(&self.tool_call_id),
            tool_calls: match &self.tool_calls {
                Some(c) => Some(clone_calls(c)),
                None => None,
            },
        }
    }
}

impl Default for ChatMessage {
    fn default() -> (r: Self)
        ensures
            r@ == plain_message(MessageRole::User, Seq::empty()),
    {
        ChatMessage::of_role(MessageRole::User, String::new())
    }
}

impl ChatMessage {
    /// A message of `role` that holds the text `content` and nothing else.
    pub fn of_role(role: MessageRole, content: String) -> (r: ChatMessage)
        ensures
            r@ == plain_message(role, content@),
            r.content == content,
    {
        ChatMessage {
            role,
            content,
            content_parts: None,
            reasoning_content: None,
            name: None,
            tool_call_id: None,
            tool_calls: None,
        }
    }

    /// A user message.
    pub fn user(content: String) -> (r: ChatMessage)
        ensures
            r@ == plain_message(MessageRole::User, content@),
    {
        ChatMessage::of_role(MessageRole::User, content)
    }

    /// An assistant message.
    pub fn assistant(content: String) -> (r: ChatMessage)
        ensures
            r@ == plain_message(MessageRole::Assistant, content@),
    {
        ChatMessage::of_role(MessageRole::Assistant, content)
    }

    /// An assistant message that asks for tool calls.
    pub fn assistant_with_tools(content: String, calls: Vec<ToolCall>) -> (r: ChatMessage)
        ensures
            r@ == (MessageView {
                tool_calls: Some(call_views(calls@)),
                ..plain_message(MessageRole::Assistant, content@)
            }),
    {
        let mut m: ChatMessage = ChatMessage::of_role(MessageRole::Assistant, content);
        m.tool_calls = Some(calls);
        m
    }

    /// The result of the tool call `tool_call_id`.
    pub fn tool(tool_call_id: String, content: String) -> (r: ChatMessage)
        ensures
            r@ == (MessageView {
                tool_call_id: Some(tool_call_id@),
                ..plain_message(MessageRole::Tool, content@)
            }),
    {
        let mut m: ChatMessage = ChatMessage::of_role(MessageRole::Tool, content);
        m.tool_call_id = Some(tool_call_id);
        m
    }
}

} // verus!
