//! One conversational turn, for any messaging channel.
//!
//! An adapter of a channel makes an [`Inbound`] of what arrived and begins a turn
//! with [`run_turn`]. What the turn then needs from the outside it says step by step:
//! who the sender is, their history, the tools, the model's answer. Linking a person,
//! acting as them and remembering the conversation stand here once, for every channel.

use vstd::prelude::*;

use crate::claude::{ClaudeClient, Conversation, ConvoView};
use crate::error::{BridgeError, BridgeResult};
use crate::http::HttpRequest;
use crate::json::JsonView;
use crate::mcp_client::{McpClient, Tool};
use crate::models::{message_views, ClaudeMessage, ResolvedIdentity};
use crate::rate_limit::{RateLimitDenied, RateLimiter};
use crate::store_client::StoreClient;
use crate::text::{
    blank_text_is_trimmed_away, chars_of, concat3, is_white_space, trim, trimmed,
    trimming_keeps_what_is_visible,
};

verus! {

pub const RATE_LIMITED: &'static str =
    "You're sending messages too quickly. Please wait a moment and try again.";

pub const LINK_INSTRUCTIONS: &'static str =
    "This account isn't linked yet.\n\nSign in at the dashboard, open Settings → Linked messaging, and send me the 6-character code it shows you. After that, everything you ask here runs as you.";

pub const DEFAULT_SYSTEM_PROMPT: &'static str =
    "You are a helpful assistant. Use the available tools to answer the user's request.";

pub const UNAVAILABLE: &'static str =
    "I'm temporarily unavailable. Please try again in a few moments.";

/// The characters of a link code: no letter or digit that looks like another.
pub const LINK_CODE_ALPHABET: &'static str = "ABCDEFGHJKLMNPQRSTUVWXYZ23456789";

/// What an adapter has to tell about an inbound message.
pub struct Inbound<'a> {
    /// The name of the channel, in which `external_id` means something.
    pub channel: &'a str,
    /// What the platform calls the sender.
    pub external_id: &'a str,
    pub tenant_id: &'a str,
    pub system_prompt: &'a str,
    pub text: &'a str,
}

/// An inbound message as contracts speak of it.
pub struct InboundView {
    pub channel: Seq<char>,
    pub external_id: Seq<char>,
    pub tenant_id: Seq<char>,
    pub system_prompt: Seq<char>,
    pub text: Seq<char>,
}

impl<'a> View for Inbound<'a> {
    type V = InboundView;

    open spec fn view(&self) -> InboundView {
        InboundView {
            channel: self.channel@,
            external_id: self.external_id@,
            tenant_id: self.tenant_id@,
            system_prompt: self.system_prompt@,
            text: self.text@,
        }
    }
}

// Link codes.

/// A letter `a` to `z` in upper case; any other character as it is.
pub open spec fn ascii_upper(c: char) -> char {
    if 'a' as u32 <= c as u32 <= 'z' as u32 {
        (c as u32 - 0x20) as char
    } else {
        c
    }
}

/// `s` is a link code: six characters of the alphabet.
pub open spec fn is_link_code(s: Seq<char>) -> bool {
    s.len() == 6 && forall|i: int|
        0 <= i < 6 ==> LINK_CODE_ALPHABET@.contains(#[trigger] s[i])
}

pub open spec fn upper_case(s: Seq<char>) -> Seq<char> {
    s.map_values(|c: char| ascii_upper(c))
}

/// The code that a text is, give or take white space and case.
pub open spec fn link_code(text: Seq<char>) -> Option<Seq<char>> {
    code_in(upper_case(trimmed(text)))
}

/// The code that a text is.
pub open spec fn code_in(upper: Seq<char>) -> Option<Seq<char>> {
    if is_link_code(upper) {
        Some(upper)
    } else {
        None
    }
}

/// The upper case of one letter, as text.
fn upper_letter(c: char) -> (r: &'static str)
    requires
        'a' as u32 <= c as u32 <= 'z' as u32,
    ensures
        r@ == seq![ascii_upper(c)],
{
    let alphabet: &'static str = "ABCDEFGHIJKLMNOPQRSTUVWXYZ";
    proof {
        reveal_strlit("ABCDEFGHIJKLMNOPQRSTUVWXYZ");
    }
    let i: usize = (c as u32 - 'a' as u32) as usize;
    let r: &'static str = alphabet.substring_char(i, i + 1);
    assert(r@ =~= seq![ascii_upper(c)]);
    r
}

/// The text with its letters `a` to `z` in upper case.
pub fn to_upper_case(s: &str) -> (r: String)
    ensures
        r@ == upper_case(s@),
{
    let chars: Vec<char> = chars_of(s);
    let n: usize = chars.len();
    let mut r: String = String::new();
    let mut i: usize = 0;
    assert(upper_case(s@).take(0) =~= Seq::empty());
    while i < n
        invariant
            chars@ == s@,
            n == s@.len(),
            i <= n,
            r@ == upper_case(s@).take(i as int),
        decreases n - i,
    {
        let ghost was = r@;
        let c: char = chars[i];
        if 'a' as u32 <= c as u32 && c as u32 <= 'z' as u32 {
            r.append(upper_letter(c));
        } else {
            r.append(s.substring_char(i, i + 1));
        }
        proof {
            assert(s@.subrange(i as int, i + 1) =~= seq![c]);
            assert(r@ =~= was + seq![ascii_upper(c)]);
            assert(upper_case(s@).take(i + 1) =~= upper_case(s@).take(i as int) + seq![
                ascii_upper(c),
            ]);
        }
        i = i + 1;
    }
    assert(upper_case(s@).take(n as int) =~= upper_case(s@));
    r
}

/// The text, where it is a link code.
pub fn code_or_none(upper: String) -> (r: Option<String>)
    ensures
        match r {
            Some(c) => code_in(upper@) == Some(c@),
            None => code_in(upper@) is None,
        },
{
    let chars: Vec<char> = chars_of(upper.as_str());
    if chars.len() != 6 {
        return None;
    }
    let alphabet: Vec<char> = chars_of(LINK_CODE_ALPHABET);
    let mut i: usize = 0;
    while i < 6
        invariant
            i <= 6,
            chars@ == upper@,
            chars@.len() == 6,
            alphabet@ == LINK_CODE_ALPHABET@,
            forall|k: int| 0 <= k < i ==> LINK_CODE_ALPHABET@.contains(#[trigger] upper@[k]),
        decreases 6 - i,
    {
        let mut j: usize = 0;
        let mut found: bool = false;
        while j < alphabet.len() && !found
            invariant
                i < 6,
                chars@.len() == 6,
                j <= alphabet.len(),
                found ==> alphabet@.contains(chars@[i as int]),
                !found ==> forall|k: int| 0 <= k < j ==> alphabet@[k] != chars@[i as int],
            decreases alphabet.len() - j,
        {
            if alphabet[j] == chars[i] {
                found = true;
            }
            j = j + 1;
        }
        if !found {
            assert(!LINK_CODE_ALPHABET@.contains(upper@[i as int]));
            return None;
        }
        i = i + 1;
    }
    Some(upper)
}

/// The code that a text is, give or take white space and case.
pub fn looks_like_link_code(text: &str) -> (r: Option<String>)
    ensures
        match r {
            Some(c) => link_code(text@) == Some(c@),
            None => link_code(text@) is None,
        },
{
    code_or_none(to_upper_case(trim(text)))
}

// The turn.

/// The key of a sender, in the name space of their channel.
pub open spec fn sender_key_of(m: InboundView) -> Seq<char> {
    m.channel + ":"@ + m.external_id
}

/// The instructions that the model is given.
pub open spec fn instructions(system_prompt: Seq<char>) -> Seq<char> {
    if trimmed(system_prompt).len() == 0 {
        DEFAULT_SYSTEM_PROMPT@
    } else {
        system_prompt
    }
}

/// A turn whose sender is still to be identified.
pub struct Turn<'a> {
    m: Inbound<'a>,
}

impl<'a> View for Turn<'a> {
    type V = InboundView;

    closed spec fn view(&self) -> InboundView {
        self.m@
    }
}

/// A turn of a linked person.
pub struct LinkedTurn<'a> {
    m: Inbound<'a>,
    sender_key: String,
    identity: ResolvedIdentity,
}

pub struct LinkedView {
    pub m: InboundView,
    pub user_email: Seq<char>,
    pub api_key: Seq<char>,
}

impl<'a> View for LinkedTurn<'a> {
    type V = LinkedView;

    closed spec fn view(&self) -> LinkedView {
        LinkedView {
            m: self.m@,
            user_email: self.identity.user_email@,
            api_key: self.identity.api_key@,
        }
    }
}

/// A turn whose sender sent a link code.
pub struct Redemption<'a> {
    m: Inbound<'a>,
    code: String,
}

pub struct RedemptionView {
    pub m: InboundView,
    pub code: Seq<char>,
}

impl<'a> View for Redemption<'a> {
    type V = RedemptionView;

    closed spec fn view(&self) -> RedemptionView {
        RedemptionView { m: self.m@, code: self.code@ }
    }
}

/// How a turn begins.
pub enum TurnStep<'a> {
    /// The turn is over, with this reply.
    Over(String),
    /// The sender is to be looked up.
    Identify(Turn<'a>),
}

/// What follows once the sender was looked up.
pub enum IdentityStep<'a> {
    /// The turn is over.
    Over(BridgeResult<String>),
    /// The sender is not linked and sent a code, which is to be redeemed.
    Redeem(Redemption<'a>),
    /// The sender is linked: their history and their tools are to be had.
    Linked(LinkedTurn<'a>),
}

/// What follows from the model's answer.
pub enum AnswerStep {
    /// The turn is over.
    Over(BridgeResult<String>),
    /// The history is to be saved, then the reply sent.
    Save { reply: String, history: Vec<ClaudeMessage> },
}

pub fn sender_key(channel: &str, external_id: &str) -> (r: String)
    ensures
        r@ == channel@ + ":"@ + external_id@,
{
    concat3(channel, ":", external_id)
}

/// Begins a turn, where the rate limits let it pass at this moment.
pub fn run_turn<'a>(limiter: &mut RateLimiter, m: Inbound<'a>) -> (r: TurnStep<'a>)
    ensures
        exists|now: u64|
            {
                let verdict = #[trigger] old(limiter)@.verdict(
                    now,
                    m@.tenant_id,
                    sender_key_of(m@),
                );
                &&& final(limiter)@ == old(limiter)@.after(now, m@.tenant_id, sender_key_of(m@))
                &&& match r {
                    TurnStep::Over(reply) => verdict is Err && reply@ == RATE_LIMITED@,
                    TurnStep::Identify(turn) => verdict is Ok && turn@ == m@,
                }
            },
{
    let key: String = sender_key(m.channel, m.external_id);
    let ghost before = limiter@;
    let verdict = limiter.check_and_record(m.tenant_id, key.as_str());
    let ghost now = choose|now: u64|
        #![trigger before.verdict(now, m@.tenant_id, key@)]
        verdict == before.verdict(now, m@.tenant_id, key@) && limiter@ == before.after(
            now,
            m@.tenant_id,
            key@,
        );
    let r = after_limits(verdict, m);
    assert(before.verdict(now, m@.tenant_id, sender_key_of(m@)) == verdict);
    r
}

/// Begins a turn, where the rate limits let it pass.
pub fn after_limits<'a>(verdict: Result<(), RateLimitDenied>, m: Inbound<'a>) -> (r: TurnStep<'a>)
    ensures
        match r {
            TurnStep::Over(reply) => verdict is Err && reply@ == RATE_LIMITED@,
            TurnStep::Identify(turn) => verdict is Ok && turn@ == m@,
        },
{
    match verdict {
        Ok(()) => TurnStep::Identify(Turn { m }),
        Err(_) => TurnStep::Over(RATE_LIMITED.to_owned()),
    }
}

impl<'a> Turn<'a> {
    /// The request that looks the sender up.
    pub fn identity_lookup(&self, store: &StoreClient) -> (r: HttpRequest)
        ensures
            r@ == store@.identity_lookup(self@.channel, self@.external_id, self@.tenant_id),
    {
        store.resolve_identity(self.m.channel, self.m.external_id, self.m.tenant_id)
    }

    /// What follows once the sender was looked up. Someone who is not linked can do
    /// nothing but redeem a code.
    pub fn identified(self, found: BridgeResult<Option<ResolvedIdentity>>) -> (r: IdentityStep<'a>)
        ensures
            match found {
                Err(e) => r == IdentityStep::<'a>::Over(Err(e)),
                Ok(Some(id)) => r matches IdentityStep::Linked(linked) && linked@ == (LinkedView {
                    m: self@,
                    user_email: id.user_email@,
                    api_key: id.api_key@,
                }),
                Ok(None) => match link_code(self@.text) {
                    Some(code) => r matches IdentityStep::Redeem(redemption) && redemption@ == (
                    RedemptionView { m: self@, code }),
                    None => r matches IdentityStep::Over(Ok(reply)) && reply@
                        == LINK_INSTRUCTIONS@,
                },
            },
    {
        match found {
            Err(e) => IdentityStep::Over(Err(e)),
            Ok(Some(identity)) => {
                let sender_key: String = sender_key(self.m.channel, self.m.external_id);
                IdentityStep::Linked(LinkedTurn { m: self.m, sender_key, identity })
            },
            Ok(None) => match looks_like_link_code(self.m.text) {
                Some(code) => IdentityStep::Redeem(Redemption { m: self.m, code }),
                None => IdentityStep::Over(Ok(LINK_INSTRUCTIONS.to_owned())),
            },
        }
    }
}

impl<'a> Redemption<'a> {
    /// The request that redeems the code.
    pub fn request(&self, store: &StoreClient) -> (r: HttpRequest)
        ensures
            r@ == store@.code_redemption(
                self@.m.channel,
                self@.m.external_id,
                self@.m.tenant_id,
                self@.code,
            ),
    {
        store.redeem_link_code(
            self.m.channel,
            self.m.external_id,
            self.m.tenant_id,
            self.code.as_str(),
        )
    }
}

/// The end of a turn in which a code was redeemed: what the store says of a code that
/// it refuses goes to the person, any other failure does not.
pub fn redeemed(result: BridgeResult<String>) -> (r: BridgeResult<String>)
    ensures
        match result {
            Ok(email) => r matches Ok(reply) && reply@ == "Linked. You are now "@ + email@
                + " here — anything you ask runs as you."@,
            Err(BridgeError::Store { status, message }) => r == Ok::<String, BridgeError>(message),
            Err(e) => r == Err::<String, BridgeError>(e),
        },
{
    match result {
        Ok(email) => Ok(
            concat3(
                "Linked. You are now ",
                email.as_str(),
                " here — anything you ask runs as you.",
            ),
        ),
        Err(e) => match e {
            BridgeError::Store { status: _, message } => Ok(message),
            e => Err(e),
        },
    }
}

impl<'a> LinkedTurn<'a> {
    #[verifier::type_invariant]
    spec fn inv(&self) -> bool {
        self.sender_key@ == sender_key_of(self.m@)
    }

    /// The request for the sender's history.
    pub fn session_load(&self, store: &StoreClient) -> (r: HttpRequest)
        ensures
            r@ == store@.session_load(self@.m.tenant_id, sender_key_of(self@.m)),
    {
        proof {
            use_type_invariant(self);
        }
        store.get_session(self.m.tenant_id, self.sender_key.as_str())
    }

    /// The request for the sender's tools, made with their own key.
    pub fn tool_list(&self, mcp: &mut McpClient) -> (r: HttpRequest)
        ensures
            r@ == old(mcp)@.request(
                self@.api_key,
                "tools/list"@,
                JsonView::Object(Seq::empty()),
            ),
            final(mcp)@ == old(mcp)@.advanced(),
    {
        mcp.list_tools(self.identity.api_key.as_str())
    }

    /// The request that saves the sender's history.
    pub fn session_save(&self, store: &StoreClient, history: &Vec<ClaudeMessage>) -> (r:
        HttpRequest)
        ensures
            r@ == store@.session_save(
                self@.m.tenant_id,
                sender_key_of(self@.m),
                message_views(history@),
            ),
    {
        proof {
            use_type_invariant(self);
        }
        store.save_session(self.m.tenant_id, self.sender_key.as_str(), history)
    }

    pub fn user_email(&self) -> (r: &str)
        ensures
            r@ == self@.user_email,
    {
        self.identity.user_email.as_str()
    }

    /// The conversation with the model. Its tool calls carry the sender's own key.
    pub fn converse(
        &self,
        claude: &ClaudeClient,
        history: Vec<ClaudeMessage>,
        tools: &Vec<Tool>,
    ) -> (r: Conversation)
        ensures
            r@ == ConvoView::started(
                self@.api_key,
                instructions(self@.m.system_prompt),
                message_views(history@),
                self@.m.text,
                tools@.map_values(|t: Tool| t@),
            ),
    {
        let system: &str = if trim(self.m.system_prompt).unicode_len() == 0 {
            DEFAULT_SYSTEM_PROMPT
        } else {
            self.m.system_prompt
        };
        claude.run(system, history, self.m.text, tools, self.identity.api_key.as_str())
    }
}

/// What follows from the model's answer. That the model is not to be reached for now
/// goes to the person; any other failure does not.
pub fn answered(result: BridgeResult<(String, Vec<ClaudeMessage>)>) -> (r: AnswerStep)
    ensures
        match result {
            Ok((reply, history)) => r == (AnswerStep::Save { reply, history }),
            Err(BridgeError::CircuitOpen) => r matches AnswerStep::Over(Ok(reply)) && reply@
                == UNAVAILABLE@,
            Err(e) => r == AnswerStep::Over(Err(e)),
        },
{
    match result {
        Ok((reply, history)) => AnswerStep::Save { reply, history },
        Err(e) => match e {
            BridgeError::CircuitOpen => AnswerStep::Over(Ok(UNAVAILABLE.to_owned())),
            e => AnswerStep::Over(Err(e)),
        },
    }
}

/// The end of a turn: the reply, once the history is saved.
pub fn saved(reply: String, result: BridgeResult<()>) -> (r: BridgeResult<String>)
    ensures
        match result {
            Ok(()) => r == Ok::<String, BridgeError>(reply),
            Err(e) => r == Err::<String, BridgeError>(e),
        },
{
    match result {
        Ok(()) => Ok(reply),
        Err(e) => Err(e),
    }
}

// Laws.

/// Two senders share a key only if they are the same sender of the same channel, as
/// long as the names of channels hold no colon: a Telegram id never meets a phone
/// number.
pub proof fn sender_keys_are_distinct(a: InboundView, b: InboundView)
    requires
        !a.channel.contains(':'),
        !b.channel.contains(':'),
        sender_key_of(a) == sender_key_of(b),
    ensures
        a.channel == b.channel,
        a.external_id == b.external_id,
{
    reveal_strlit(":");
    let key_a = sender_key_of(a);
    let key_b = sender_key_of(b);
    let n = a.channel.len() as int;
    let m = b.channel.len() as int;
    assert(key_a[n] == ':');
    assert(key_b[m] == ':');
    if n < m {
        assert(key_b[n] == b.channel[n]);
    }
    if m < n {
        assert(key_a[m] == a.channel[m]);
    }
    assert(a.channel =~= key_a.take(n));
    assert(b.channel =~= key_b.take(m));
    assert(a.external_id =~= key_a.skip(n + 1));
    assert(b.external_id =~= key_b.skip(m + 1));
}

proof fn lemma_alphabet(c: char)
    requires
        LINK_CODE_ALPHABET@.contains(c),
    ensures
        '2' as u32 <= c as u32 <= 'Z' as u32,
{
    reveal_strlit("ABCDEFGHJKLMNPQRSTUVWXYZ23456789");
}

/// White space around a text is trimmed away.
pub proof fn lemma_trimmed_padding(before: Seq<char>, s: Seq<char>, after: Seq<char>)
    requires
        s.len() > 0,
        !is_white_space(s.first()),
        !is_white_space(s.last()),
        forall|i: int| 0 <= i < before.len() ==> is_white_space(#[trigger] before[i]),
        forall|i: int| 0 <= i < after.len() ==> is_white_space(#[trigger] after[i]),
    ensures
        trimmed(before + s + after) == s,
    decreases before.len() + after.len(),
{
    let all = before + s + after;
    if before.len() > 0 {
        assert(all.first() == before[0]);
        assert(all.drop_first() =~= before.drop_first() + s + after);
        lemma_trimmed_padding(before.drop_first(), s, after);
    } else if after.len() > 0 {
        assert(all.first() == s.first());
        assert(all.last() == after.last());
        assert(all.drop_last() =~= before + s + after.drop_last());
        lemma_trimmed_padding(before, s, after.drop_last());
    } else {
        assert(all =~= s);
    }
}

/// A code is read whatever the case of its letters and the white space around it.
pub proof fn case_and_spacing_do_not_matter(before: Seq<char>, s: Seq<char>, after: Seq<char>)
    requires
        is_link_code(upper_case(s)),
        forall|i: int| 0 <= i < before.len() ==> is_white_space(#[trigger] before[i]),
        forall|i: int| 0 <= i < after.len() ==> is_white_space(#[trigger] after[i]),
    ensures
        link_code(before + s + after) == Some(upper_case(s)),
{
    let upper = upper_case(s);
    assert forall|i: int| 0 <= i < s.len() implies !is_white_space(#[trigger] s[i]) by {
        assert(upper[i] == ascii_upper(s[i]));
        lemma_alphabet(upper[i]);
    }
    lemma_trimmed_padding(before, s, after);
}

/// Only six characters are a code, each of them of the alphabet but for its case.
pub proof fn only_the_alphabet_makes_a_code(text: Seq<char>, i: int)
    requires
        link_code(text) is Some,
        0 <= i < trimmed(text).len(),
    ensures
        trimmed(text).len() == 6,
        LINK_CODE_ALPHABET@.contains(trimmed(text)[i]) || {
            let c = trimmed(text)[i];
            'a' as u32 <= c as u32 <= 'z' as u32 && LINK_CODE_ALPHABET@.contains(ascii_upper(c))
        },
{
    assert(upper_case(trimmed(text))[i] == ascii_upper(trimmed(text)[i]));
}

/// The alphabet of link codes: the letters but for I and O, and the digits but for 0 and
/// 1, which look like them.
pub proof fn the_alphabet_is_unambiguous(c: char)
    ensures
        LINK_CODE_ALPHABET@.contains(c) <==> {
            ||| 'A' as u32 <= c as u32 <= 'Z' as u32 && c != 'I' && c != 'O'
            ||| '2' as u32 <= c as u32 <= '9' as u32
        },
{
    reveal_strlit("ABCDEFGHJKLMNPQRSTUVWXYZ23456789");
    let al = LINK_CODE_ALPHABET@;
    let n = c as u32;
    if 'A' as u32 <= n <= 'H' as u32 {
        assert(al[n - 'A' as u32] == c);
    } else if 'J' as u32 <= n <= 'N' as u32 {
        assert(al[n - 'J' as u32 + 8] == c);
    } else if 'P' as u32 <= n <= 'Z' as u32 {
        assert(al[n - 'P' as u32 + 13] == c);
    } else if '2' as u32 <= n <= '9' as u32 {
        assert(al[n - '2' as u32 + 24] == c);
    }
}

/// Six characters of the alphabet are a code, and a text of any other length, or with any
/// other character, is none.
pub proof fn six_of_the_alphabet_are_a_code(s: Seq<char>, i: int)
    ensures
        s.len() == 6 && (forall|k: int|
            0 <= k < 6 ==> LINK_CODE_ALPHABET@.contains(#[trigger] s[k])) ==> code_in(s) == Some(s),
        s.len() != 6 ==> code_in(s) is None,
        0 <= i < s.len() && !LINK_CODE_ALPHABET@.contains(s[i]) ==> code_in(s) is None,
{
}

/// A letter and its small form count as one and the same in a code: small letters become
/// capital ones, and every other character stays.
pub proof fn only_small_letters_change(c: char)
    ensures
        'a' as u32 <= c as u32 <= 'z' as u32 ==> ascii_upper(c) as u32 == c as u32 - 32,
        !('a' as u32 <= c as u32 <= 'z' as u32) ==> ascii_upper(c) == c,
{
}

/// The model is given the tenant's own instructions as they are, wherever they hold
/// anything visible, and a stand-in only where they do not.
pub proof fn the_tenants_instructions_are_given(system_prompt: Seq<char>, i: int)
    ensures
        0 <= i < system_prompt.len() && !is_white_space(system_prompt[i]) ==> instructions(
            system_prompt,
        ) == system_prompt,
        (forall|k: int| 0 <= k < system_prompt.len() ==> is_white_space(#[trigger] system_prompt[k]))
            ==> instructions(system_prompt) == DEFAULT_SYSTEM_PROMPT@,
{
    if 0 <= i < system_prompt.len() && !is_white_space(system_prompt[i]) {
        trimming_keeps_what_is_visible(system_prompt, i);
    }
    if forall|k: int| 0 <= k < system_prompt.len() ==> is_white_space(#[trigger] system_prompt[k]) {
        blank_text_is_trimmed_away(system_prompt);
    }
}

} // verus!
