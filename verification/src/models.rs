//! The data that passes between the bridge, the messaging platforms, the store and
//! the model.

use vstd::prelude::*;

use crate::http::opt_json_view;
use crate::json::{Json, JsonView};
use crate::text::opt_view;

verus! {

// What WhatsApp delivers.

#[derive(Debug)]
pub struct WebhookPayload {
    pub object: String,
    pub entry: Vec<Entry>,
}

#[derive(Debug)]
pub struct Entry {
    pub changes: Vec<Change>,
}

#[derive(Debug)]
pub struct Change {
    pub value: ChangeValue,
    pub field: String,
}

#[derive(Debug)]
pub struct ChangeValue {
    pub metadata: Metadata,
    pub messages: Option<Vec<WaMessage>>,
    /// Delivery receipts, which are ignored.
    pub statuses: Option<Vec<Json>>,
}

#[derive(Debug)]
pub struct Metadata {
    pub phone_number_id: String,
}

#[derive(Debug)]
pub struct WaMessage {
    /// The customer's phone number.
    pub from: String,
    pub id: String,
    pub msg_type: String,
    pub text: Option<WaText>,
}

#[derive(Debug)]
pub struct WaText {
    pub body: String,
}

// What the store answers.

#[derive(Debug)]
pub struct ChannelInfo {
    pub tenant_id: String,
    pub wa_token: String,
    pub verify_token: String,
    pub system_prompt: String,
}

#[derive(Debug)]
pub struct SessionResponse {
    pub history: Vec<ClaudeMessage>,
}

/// A messaging identity resolved to the person behind it.
#[derive(Debug)]
pub struct ResolvedIdentity {
    pub user_email: String,
    /// The person's own key, pinned to the tenant. Used for every tool call.
    pub api_key: String,
}

/// A tenant's bot on a messaging platform.
#[derive(Debug)]
pub struct MessagingChannel {
    pub tenant_id: String,
    /// The platform credential, such as a Telegram bot token.
    pub credential: String,
    /// Presented by the platform on every update; proves that the caller is the
    /// platform.
    pub webhook_secret: String,
    pub system_prompt: String,
}

// What goes to the model and comes back from it.

/// One message of a conversation.
#[derive(Debug)]
pub struct ClaudeMessage {
    pub role: String,
    pub content: Json,
}

#[derive(Debug)]
pub struct ClaudeRequest {
    pub model: String,
    pub max_tokens: u32,
    pub system: String,
    pub tools: Vec<ClaudeTool>,
    pub messages: Vec<ClaudeMessage>,
}

/// A tool as the model is told of it.
#[derive(Debug)]
pub struct ClaudeTool {
    pub name: String,
    pub description: String,
    pub input_schema: Json,
}

#[derive(Debug)]
pub struct ClaudeResponse {
    pub stop_reason: String,
    pub content: Vec<ContentBlock>,
}

/// A piece of what the model said: text, or a tool that it wants called.
#[derive(Debug)]
pub struct ContentBlock {
    pub block_type: String,
    pub text: Option<String>,
    pub id: Option<String>,
    pub name: Option<String>,
    pub input: Option<Json>,
}

// The same, as contracts speak of it.

pub struct MessageView {
    pub role: Seq<char>,
    pub content: JsonView,
}

pub struct ToolView {
    pub name: Seq<char>,
    pub description: Seq<char>,
    pub input_schema: JsonView,
}

pub struct BlockView {
    pub block_type: Seq<char>,
    pub text: Option<Seq<char>>,
    pub id: Option<Seq<char>>,
    pub name: Option<Seq<char>>,
    pub input: Option<JsonView>,
}

pub struct ResponseView {
    pub stop_reason: Seq<char>,
    pub content: Seq<BlockView>,
}

impl View for ClaudeMessage {
    type V = MessageView;

    open spec fn view(&self) -> MessageView {
        MessageView { role: self.role@, content: self.content@ }
    }
}

impl View for ClaudeTool {
    type V = ToolView;

    open spec fn view(&self) -> ToolView {
        ToolView {
            name: self.name@,
            description: self.description@,
            input_schema: self.input_schema@,
        }
    }
}

impl View for ContentBlock {
    type V = BlockView;

    open spec fn view(&self) -> BlockView {
        BlockView {
            block_type: self.block_type@,
            text: opt_view(self.text),
            id: opt_view(self.id),
            name: opt_view(self.name),
            input: opt_json_view(self.input),
        }
    }
}

impl View for ClaudeResponse {
    type V = ResponseView;

    open spec fn view(&self) -> ResponseView {
        ResponseView { stop_reason: self.stop_reason@, content: block_views(self.content@) }
    }
}

pub open spec fn message_views(v: Seq<ClaudeMessage>) -> Seq<MessageView> {
    v.map_values(|m: ClaudeMessage| m@)
}

pub open spec fn tool_views(v: Seq<ClaudeTool>) -> Seq<ToolView> {
    v.map_values(|t: ClaudeTool| t@)
}

pub open spec fn block_views(v: Seq<ContentBlock>) -> Seq<BlockView> {
    v.map_values(|b: ContentBlock| b@)
}

impl ClaudeMessage {
    pub fn new(role: &str, content: Json) -> (r: ClaudeMessage)
        ensures
            r@ == (MessageView { role: role@, content: content@ }),
    {
        ClaudeMessage { role: role.to_owned(), content }
    }
}

/// Copies of a list of messages.
pub fn duplicate_messages(v: &Vec<ClaudeMessage>) -> (r: Vec<ClaudeMessage>)
    ensures
        message_views(r@) == message_views(v@),
{
    let mut r: Vec<ClaudeMessage> = Vec::new();
    let mut i: usize = 0;
    while i < v.len()
        invariant
            i <= v.len(),
            r@.len() == i,
            forall|k: int| 0 <= k < i ==> (#[trigger] r@[k])@ == v@[k]@,
        decreases v.len() - i,
    {
        r.push(ClaudeMessage { role: v[i].role.clone(), content: v[i].content.duplicate() });
        i = i + 1;
    }
    assert(message_views(r@) =~= message_views(v@));
    r
}

/// Copies of a list of tools.
pub fn duplicate_tools(v: &Vec<ClaudeTool>) -> (r: Vec<ClaudeTool>)
    ensures
        tool_views(r@) == tool_views(v@),
{
    let mut r: Vec<ClaudeTool> = Vec::new();
    let mut i: usize = 0;
    while i < v.len()
        invariant
            i <= v.len(),
            r@.len() == i,
            forall|k: int| 0 <= k < i ==> (#[trigger] r@[k])@ == v@[k]@,
        decreases v.len() - i,
    {
        r.push(
            ClaudeTool {
                name: v[i].name.clone(),
                description: v[i].description.clone(),
                input_schema: v[i].input_schema.duplicate(),
            },
        );
        i = i + 1;
    }
    assert(tool_views(r@) =~= tool_views(v@));
    r
}

} // verus!
