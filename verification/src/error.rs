//! The ways in which handling a message can fail.

use vstd::prelude::*;

use crate::text::{decimal, decimal_of};

verus! {

#[derive(Debug)]
pub enum BridgeError {
    /// The model's API answered with an error.
    ClaudeApi { status: u16, body: String },
    /// The model's API could not be reached.
    ClaudeNetwork(String),
    /// The model's reply could not be read.
    ClaudeParse(String),
    /// The model asked for tools round after round.
    ToolLoopExhausted { max_rounds: usize },
    /// The store answered with an error.
    Store { status: u16, message: String },
    /// The store could not be reached.
    StoreNetwork(String),
    /// The gateway could not be reached.
    GatewayNetwork(String),
    /// The gateway refused a call or answered what cannot be read.
    Gateway(String),
    WhatsAppApi { status: u16, body: String },
    WhatsAppNetwork(String),
    TelegramApi { status: u16, body: String },
    TelegramNetwork(String),
    /// No channel is configured for a phone number id.
    ChannelNotFound(String),
    /// The circuit breaker refused a call to the model.
    CircuitOpen,
    Other(String),
}

pub type BridgeResult<T> = Result<T, BridgeError>;

/// An error as contracts speak of it.
pub enum ErrorView {
    ClaudeApi { status: u16, body: Seq<char> },
    ClaudeNetwork(Seq<char>),
    ClaudeParse(Seq<char>),
    ToolLoopExhausted { max_rounds: usize },
    Store { status: u16, message: Seq<char> },
    StoreNetwork(Seq<char>),
    GatewayNetwork(Seq<char>),
    Gateway(Seq<char>),
    WhatsAppApi { status: u16, body: Seq<char> },
    WhatsAppNetwork(Seq<char>),
    TelegramApi { status: u16, body: Seq<char> },
    TelegramNetwork(Seq<char>),
    ChannelNotFound(Seq<char>),
    CircuitOpen,
    Other(Seq<char>),
}

impl View for BridgeError {
    type V = ErrorView;

    open spec fn view(&self) -> ErrorView {
        match self {
            BridgeError::ClaudeApi { status, body } => ErrorView::ClaudeApi {
                status: *status,
                body: body@,
            },
            BridgeError::ClaudeNetwork(m) => ErrorView::ClaudeNetwork(m@),
            BridgeError::ClaudeParse(m) => ErrorView::ClaudeParse(m@),
            BridgeError::ToolLoopExhausted { max_rounds } => ErrorView::ToolLoopExhausted {
                max_rounds: *max_rounds,
            },
            BridgeError::Store { status, message } => ErrorView::Store {
                status: *status,
                message: message@,
            },
            BridgeError::StoreNetwork(m) => ErrorView::StoreNetwork(m@),
            BridgeError::GatewayNetwork(m) => ErrorView::GatewayNetwork(m@),
            BridgeError::Gateway(m) => ErrorView::Gateway(m@),
            BridgeError::WhatsAppApi { status, body } => ErrorView::WhatsAppApi {
                status: *status,
                body: body@,
            },
            BridgeError::WhatsAppNetwork(m) => ErrorView::WhatsAppNetwork(m@),
            BridgeError::TelegramApi { status, body } => ErrorView::TelegramApi {
                status: *status,
                body: body@,
            },
            BridgeError::TelegramNetwork(m) => ErrorView::TelegramNetwork(m@),
            BridgeError::ChannelNotFound(m) => ErrorView::ChannelNotFound(m@),
            BridgeError::CircuitOpen => ErrorView::CircuitOpen,
            BridgeError::Other(m) => ErrorView::Other(m@),
        }
    }
}

/// `name (HTTP status): body`, the shape of every message about a bad status.
pub open spec fn status_message(name: Seq<char>, status: u16, body: Seq<char>) -> Seq<char> {
    name + decimal_of(status as nat) + "): "@ + body
}

impl ErrorView {
    /// The error in words. The model's API goes by the one word `ClaudeApi` in them.
    pub open spec fn message(self) -> Seq<char> {
        match self {
            ErrorView::ClaudeApi { status, body } => status_message(
                "ClaudeApi error (HTTP "@,
                status,
                body,
            ),
            ErrorView::ClaudeNetwork(m) => "ClaudeApi unreachable: "@ + m,
            ErrorView::ClaudeParse(m) => "ClaudeApi response parse error: "@ + m,
            ErrorView::ToolLoopExhausted { max_rounds } => "ClaudeApi tool loop exceeded "@
                + decimal_of(max_rounds as nat) + " rounds"@,
            ErrorView::Store { status, message } => "Store returned HTTP "@ + decimal_of(
                status as nat,
            ) + ": "@ + message,
            ErrorView::StoreNetwork(m) => "Store unreachable: "@ + m,
            ErrorView::GatewayNetwork(m) => "Gateway unreachable: "@ + m,
            ErrorView::Gateway(m) => "Gateway error: "@ + m,
            ErrorView::WhatsAppApi { status, body } => status_message(
                "WhatsApp API error (HTTP "@,
                status,
                body,
            ),
            ErrorView::WhatsAppNetwork(m) => "WhatsApp API unreachable: "@ + m,
            ErrorView::TelegramApi { status, body } => status_message(
                "Telegram API error (HTTP "@,
                status,
                body,
            ),
            ErrorView::TelegramNetwork(m) => "Telegram API unreachable: "@ + m,
            ErrorView::ChannelNotFound(m) => "No channel config found for phone_number_id="@ + m,
            ErrorView::CircuitOpen => CIRCUIT_OPEN_MESSAGE@,
            ErrorView::Other(m) => m,
        }
    }

    /// The kind under which the WhatsApp door records a failed message.
    pub open spec fn kind(self) -> Seq<char> {
        match self {
            ErrorView::ClaudeApi { .. } => "ClaudeApi"@,
            ErrorView::ClaudeNetwork(_) => "ClaudeNetwork"@,
            ErrorView::ClaudeParse(_) => "ClaudeParse"@,
            ErrorView::CircuitOpen => "CircuitOpen"@,
            ErrorView::ToolLoopExhausted { .. } => "ToolLoopExhausted"@,
            ErrorView::Store { .. } => "Store"@,
            ErrorView::StoreNetwork(_) => "StoreNetwork"@,
            ErrorView::GatewayNetwork(_) => "GatewayNetwork"@,
            ErrorView::Gateway(_) => "Gateway"@,
            ErrorView::WhatsAppApi { .. } => "WhatsAppApi"@,
            ErrorView::WhatsAppNetwork(_) => "WhatsAppNetwork"@,
            ErrorView::TelegramApi { .. } => "TelegramApi"@,
            ErrorView::TelegramNetwork(_) => "TelegramNetwork"@,
            ErrorView::ChannelNotFound(_) => "ChannelNotFound"@,
            ErrorView::Other(_) => "Other"@,
        }
    }

    /// The coarser kind under which the Telegram door records a failed message.
    pub open spec fn broad_kind(self) -> Seq<char> {
        match self {
            ErrorView::CircuitOpen => "CircuitOpen"@,
            ErrorView::ToolLoopExhausted { .. } => "ToolLoopExhausted"@,
            ErrorView::Gateway(_) | ErrorView::GatewayNetwork(_) => "Gateway"@,
            ErrorView::Store { .. } | ErrorView::StoreNetwork(_) => "Store"@,
            _ => "Other"@,
        }
    }

    /// Trying again may help: the network failed, the API was busy, or it broke.
    pub open spec fn retryable(self) -> bool {
        match self {
            ErrorView::ClaudeNetwork(_) => true,
            ErrorView::ClaudeApi { status, .. } => status == 429 || 500 <= status <= 599,
            _ => false,
        }
    }
}

/// What is said of a call that the circuit breaker refused.
pub const CIRCUIT_OPEN_MESSAGE: &'static str = "ClaudeApi circuit breaker is open — service temporarily unavailable";

fn describe_status(name: &str, status: u16, body: &str) -> (r: String)
    ensures
        r@ == status_message(name@, status, body@),
{
    let mut r: String = name.to_owned();
    r.append(decimal(status as u64).as_str());
    r.append("): ");
    r.append(body);
    r
}

fn describe(what: &str, detail: &str) -> (r: String)
    ensures
        r@ == what@ + detail@,
{
    let mut r: String = what.to_owned();
    r.append(detail);
    r
}

impl BridgeError {
    /// The error in words.
    pub fn message(&self) -> (r: String)
        ensures
            r@ == self@.message(),
    {
        match self {
            BridgeError::ClaudeApi { status, body } => describe_status(
                "ClaudeApi error (HTTP ",
                *status,
                body.as_str(),
            ),
            BridgeError::ClaudeNetwork(m) => describe("ClaudeApi unreachable: ", m.as_str()),
            BridgeError::ClaudeParse(m) => describe("ClaudeApi response parse error: ", m.as_str()),
            BridgeError::ToolLoopExhausted { max_rounds } => {
                let mut r: String = describe(
                    "ClaudeApi tool loop exceeded ",
                    decimal(*max_rounds as u64).as_str(),
                );
                r.append(" rounds");
                r
            },
            BridgeError::Store { status, message } => {
                let mut r: String = describe("Store returned HTTP ", decimal(*status as u64).as_str());
                r.append(": ");
                r.append(message.as_str());
                r
            },
            BridgeError::StoreNetwork(m) => describe("Store unreachable: ", m.as_str()),
            BridgeError::GatewayNetwork(m) => describe("Gateway unreachable: ", m.as_str()),
            BridgeError::Gateway(m) => describe("Gateway error: ", m.as_str()),
            BridgeError::WhatsAppApi { status, body } => describe_status(
                "WhatsApp API error (HTTP ",
                *status,
                body.as_str(),
            ),
            BridgeError::WhatsAppNetwork(m) => describe("WhatsApp API unreachable: ", m.as_str()),
            BridgeError::TelegramApi { status, body } => describe_status(
                "Telegram API error (HTTP ",
                *status,
                body.as_str(),
            ),
            BridgeError::TelegramNetwork(m) => describe("Telegram API unreachable: ", m.as_str()),
            BridgeError::ChannelNotFound(m) => describe(
                "No channel config found for phone_number_id=",
                m.as_str(),
            ),
            BridgeError::CircuitOpen => CIRCUIT_OPEN_MESSAGE.to_owned(),
            BridgeError::Other(m) => m.clone(),
        }
    }

    /// The kind under which the WhatsApp door records a failed message.
    pub fn kind(&self) -> (r: &'static str)
        ensures
            r@ == self@.kind(),
    {
        match self {
            BridgeError::ClaudeApi { .. } => "ClaudeApi",
            BridgeError::ClaudeNetwork(_) => "ClaudeNetwork",
            BridgeError::ClaudeParse(_) => "ClaudeParse",
            BridgeError::CircuitOpen => "CircuitOpen",
            BridgeError::ToolLoopExhausted { .. } => "ToolLoopExhausted",
            BridgeError::Store { .. } => "Store",
            BridgeError::StoreNetwork(_) => "StoreNetwork",
            BridgeError::GatewayNetwork(_) => "GatewayNetwork",
            BridgeError::Gateway(_) => "Gateway",
            BridgeError::WhatsAppApi { .. } => "WhatsAppApi",
            BridgeError::WhatsAppNetwork(_) => "WhatsAppNetwork",
            BridgeError::TelegramApi { .. } => "TelegramApi",
            BridgeError::TelegramNetwork(_) => "TelegramNetwork",
            BridgeError::ChannelNotFound(_) => "ChannelNotFound",
            BridgeError::Other(_) => "Other",
        }
    }

    /// The coarser kind under which the Telegram door records a failed message.
    pub fn broad_kind(&self) -> (r: &'static str)
        ensures
            r@ == self@.broad_kind(),
    {
        match self {
            BridgeError::CircuitOpen => "CircuitOpen",
            BridgeError::ToolLoopExhausted { .. } => "ToolLoopExhausted",
            BridgeError::Gateway(_) | BridgeError::GatewayNetwork(_) => "Gateway",
            BridgeError::Store { .. } | BridgeError::StoreNetwork(_) => "Store",
            _ => "Other",
        }
    }

    /// Whether trying again may help.
    pub fn retryable(&self) -> (r: bool)
        ensures
            r == self@.retryable(),
    {
        match self {
            BridgeError::ClaudeNetwork(_) => true,
            BridgeError::ClaudeApi { status, .. } => *status == 429 || (500 <= *status && *status
                <= 599),
            _ => false,
        }
    }
}

// Laws.

/// An error in words ends with its detail, word for word: whatever the detail is, the
/// words are those for no detail with the detail behind them.
pub proof fn words_end_with_the_detail(d: Seq<char>, status: u16)
    ensures
        (ErrorView::ClaudeApi { status, body: d }).message() == (ErrorView::ClaudeApi {
            status,
            body: Seq::empty(),
        }).message() + d,
        ErrorView::ClaudeNetwork(d).message() == ErrorView::ClaudeNetwork(Seq::empty()).message()
            + d,
        ErrorView::ClaudeParse(d).message() == ErrorView::ClaudeParse(Seq::empty()).message() + d,
        (ErrorView::Store { status, message: d }).message() == (ErrorView::Store {
            status,
            message: Seq::empty(),
        }).message() + d,
        ErrorView::StoreNetwork(d).message() == ErrorView::StoreNetwork(Seq::empty()).message()
            + d,
        ErrorView::GatewayNetwork(d).message() == ErrorView::GatewayNetwork(
            Seq::empty(),
        ).message() + d,
        ErrorView::Gateway(d).message() == ErrorView::Gateway(Seq::empty()).message() + d,
        (ErrorView::WhatsAppApi { status, body: d }).message() == (ErrorView::WhatsAppApi {
            status,
            body: Seq::empty(),
        }).message() + d,
        ErrorView::WhatsAppNetwork(d).message() == ErrorView::WhatsAppNetwork(
            Seq::empty(),
        ).message() + d,
        (ErrorView::TelegramApi { status, body: d }).message() == (ErrorView::TelegramApi {
            status,
            body: Seq::empty(),
        }).message() + d,
        ErrorView::TelegramNetwork(d).message() == ErrorView::TelegramNetwork(
            Seq::empty(),
        ).message() + d,
        ErrorView::ChannelNotFound(d).message() == ErrorView::ChannelNotFound(
            Seq::empty(),
        ).message() + d,
        ErrorView::Other(d).message() == d,
{
    let none = Seq::<char>::empty();
    assert(ErrorView::ClaudeNetwork(none).message() =~= "ClaudeApi unreachable: "@);
    assert(ErrorView::ClaudeParse(none).message() =~= "ClaudeApi response parse error: "@);
    assert(ErrorView::StoreNetwork(none).message() =~= "Store unreachable: "@);
    assert(ErrorView::GatewayNetwork(none).message() =~= "Gateway unreachable: "@);
    assert(ErrorView::Gateway(none).message() =~= "Gateway error: "@);
    assert(ErrorView::WhatsAppNetwork(none).message() =~= "WhatsApp API unreachable: "@);
    assert(ErrorView::TelegramNetwork(none).message() =~= "Telegram API unreachable: "@);
    assert(ErrorView::ChannelNotFound(none).message()
        =~= "No channel config found for phone_number_id="@);
    let lead = "Store returned HTTP "@ + decimal_of(status as nat) + ": "@;
    assert(lead + none =~= lead);
    let lead = "ClaudeApi error (HTTP "@ + decimal_of(status as nat) + "): "@;
    assert(lead + none =~= lead);
    let lead = "WhatsApp API error (HTTP "@ + decimal_of(status as nat) + "): "@;
    assert(lead + none =~= lead);
    let lead = "Telegram API error (HTTP "@ + decimal_of(status as nat) + "): "@;
    assert(lead + none =~= lead);
}

/// An error about a status tells the status in decimal, whatever it is.
pub proof fn words_tell_the_status(status: u16)
    ensures
        (ErrorView::ClaudeApi { status, body: Seq::empty() }).message() == "ClaudeApi error (HTTP "@
            + decimal_of(status as nat) + "): "@,
        (ErrorView::WhatsAppApi { status, body: Seq::empty() }).message()
            == "WhatsApp API error (HTTP "@ + decimal_of(status as nat) + "): "@,
        (ErrorView::TelegramApi { status, body: Seq::empty() }).message()
            == "Telegram API error (HTTP "@ + decimal_of(status as nat) + "): "@,
        (ErrorView::Store { status, message: Seq::empty() }).message() == "Store returned HTTP "@
            + decimal_of(status as nat) + ": "@,
{
    let none = Seq::<char>::empty();
    let a = "ClaudeApi error (HTTP "@ + decimal_of(status as nat) + "): "@;
    assert(a + none =~= a);
    let a = "WhatsApp API error (HTTP "@ + decimal_of(status as nat) + "): "@;
    assert(a + none =~= a);
    let a = "Telegram API error (HTTP "@ + decimal_of(status as nat) + "): "@;
    assert(a + none =~= a);
    let a = "Store returned HTTP "@ + decimal_of(status as nat) + ": "@;
    assert(a + none =~= a);
}

/// The kinds under which an error is recorded do not depend on its details.
pub proof fn kinds_do_not_depend_on_details(d: Seq<char>, e: Seq<char>, s: u16, t: u16)
    ensures
        (ErrorView::ClaudeApi { status: s, body: d }).kind() == (ErrorView::ClaudeApi {
            status: t,
            body: e,
        }).kind(),
        (ErrorView::Store { status: s, message: d }).kind() == (ErrorView::Store {
            status: t,
            message: e,
        }).kind(),
        (ErrorView::WhatsAppApi { status: s, body: d }).kind() == (ErrorView::WhatsAppApi {
            status: t,
            body: e,
        }).kind(),
        (ErrorView::TelegramApi { status: s, body: d }).kind() == (ErrorView::TelegramApi {
            status: t,
            body: e,
        }).kind(),
        ErrorView::ClaudeNetwork(d).kind() == ErrorView::ClaudeNetwork(e).kind(),
        ErrorView::ClaudeParse(d).kind() == ErrorView::ClaudeParse(e).kind(),
        ErrorView::StoreNetwork(d).kind() == ErrorView::StoreNetwork(e).kind(),
        ErrorView::GatewayNetwork(d).kind() == ErrorView::GatewayNetwork(e).kind(),
        ErrorView::Gateway(d).kind() == ErrorView::Gateway(e).kind(),
        ErrorView::WhatsAppNetwork(d).kind() == ErrorView::WhatsAppNetwork(e).kind(),
        ErrorView::TelegramNetwork(d).kind() == ErrorView::TelegramNetwork(e).kind(),
        ErrorView::ChannelNotFound(d).kind() == ErrorView::ChannelNotFound(e).kind(),
        ErrorView::Other(d).kind() == ErrorView::Other(e).kind(),
        (ErrorView::Store { status: s, message: d }).broad_kind()
            == ErrorView::StoreNetwork(e).broad_kind(),
        ErrorView::Gateway(d).broad_kind() == ErrorView::GatewayNetwork(e).broad_kind(),
        (ErrorView::ClaudeApi { status: s, body: d }).broad_kind() == ErrorView::Other(
            e,
        ).broad_kind(),
        ErrorView::ClaudeNetwork(d).broad_kind() == ErrorView::Other(e).broad_kind(),
        ErrorView::ClaudeParse(d).broad_kind() == ErrorView::Other(e).broad_kind(),
{
}

/// A turn that used up its rounds says how many there were, and an open circuit says that
/// it is open.
pub proof fn words_tell_the_rounds(max_rounds: usize)
    ensures
        (ErrorView::ToolLoopExhausted { max_rounds }).message() == "ClaudeApi tool loop exceeded "@
            + decimal_of(max_rounds as nat) + " rounds"@,
        ErrorView::CircuitOpen.message()
            == "ClaudeApi circuit breaker is open — service temporarily unavailable"@,
{
}

/// Every kind names one sort of error and no other.
pub proof fn kinds_tell_errors_apart(e: ErrorView)
    ensures
        e.kind() == "ClaudeApi"@ <==> e is ClaudeApi,
        e.kind() == "ClaudeNetwork"@ <==> e is ClaudeNetwork,
        e.kind() == "ClaudeParse"@ <==> e is ClaudeParse,
        e.kind() == "CircuitOpen"@ <==> e is CircuitOpen,
        e.kind() == "ToolLoopExhausted"@ <==> e is ToolLoopExhausted,
        e.kind() == "Store"@ <==> e is Store,
        e.kind() == "StoreNetwork"@ <==> e is StoreNetwork,
        e.kind() == "GatewayNetwork"@ <==> e is GatewayNetwork,
        e.kind() == "Gateway"@ <==> e is Gateway,
        e.kind() == "WhatsAppApi"@ <==> e is WhatsAppApi,
        e.kind() == "WhatsAppNetwork"@ <==> e is WhatsAppNetwork,
        e.kind() == "TelegramApi"@ <==> e is TelegramApi,
        e.kind() == "TelegramNetwork"@ <==> e is TelegramNetwork,
        e.kind() == "ChannelNotFound"@ <==> e is ChannelNotFound,
        e.kind() == "Other"@ <==> e is Other,
{
    reveal_strlit("ClaudeApi");
    reveal_strlit("ClaudeNetwork");
    reveal_strlit("ClaudeParse");
    reveal_strlit("CircuitOpen");
    reveal_strlit("ToolLoopExhausted");
    reveal_strlit("Store");
    reveal_strlit("StoreNetwork");
    reveal_strlit("GatewayNetwork");
    reveal_strlit("Gateway");
    reveal_strlit("WhatsAppApi");
    reveal_strlit("WhatsAppNetwork");
    reveal_strlit("TelegramApi");
    reveal_strlit("TelegramNetwork");
    reveal_strlit("ChannelNotFound");
    reveal_strlit("Other");
    assert("ClaudeApi"@.len() == 9 && "ClaudeNetwork"@.len() == 13 && "ToolLoopExhausted"@.len()
        == 17 && "StoreNetwork"@.len() == 12 && "GatewayNetwork"@.len() == 14 && "Gateway"@.len()
        == 7);
    assert("Store"@.len() == 5 && "Other"@.len() == 5);
    assert("Store"@[0] == 'S' && "Other"@[0] == 'O');
    assert("ClaudeParse"@.len() == 11 && "CircuitOpen"@.len() == 11 && "WhatsAppApi"@.len() == 11
        && "TelegramApi"@.len() == 11);
    assert("ClaudeParse"@[1] == 'l' && "CircuitOpen"@[1] == 'i' && "WhatsAppApi"@[1] == 'h'
        && "TelegramApi"@[1] == 'e');
    assert("WhatsAppNetwork"@.len() == 15 && "TelegramNetwork"@.len() == 15
        && "ChannelNotFound"@.len() == 15);
    assert("WhatsAppNetwork"@[0] == 'W' && "TelegramNetwork"@[0] == 'T' && "ChannelNotFound"@[0]
        == 'C');
}

/// A broad kind sets apart an open circuit, used-up rounds, the gateway and the store.
/// All else is lumped together.
pub proof fn broad_kinds_name_what_failed(e: ErrorView)
    ensures
        e.broad_kind() == "CircuitOpen"@ <==> e is CircuitOpen,
        e.broad_kind() == "ToolLoopExhausted"@ <==> e is ToolLoopExhausted,
        e.broad_kind() == "Gateway"@ <==> e is Gateway || e is GatewayNetwork,
        e.broad_kind() == "Store"@ <==> e is Store || e is StoreNetwork,
        e.broad_kind() == "Other"@ <==> !(e is CircuitOpen || e is ToolLoopExhausted || e is Gateway
            || e is GatewayNetwork || e is Store || e is StoreNetwork),
{
    reveal_strlit("CircuitOpen");
    reveal_strlit("ToolLoopExhausted");
    reveal_strlit("Gateway");
    reveal_strlit("Store");
    reveal_strlit("Other");
    assert("CircuitOpen"@.len() == 11 && "ToolLoopExhausted"@.len() == 17 && "Gateway"@.len() == 7
        && "Store"@.len() == 5 && "Other"@.len() == 5);
    assert("Store"@[0] == 'S' && "Other"@[0] == 'O');
}

} // verus!
