//! The Telegram Bot API, as far as the bridge speaks it: every method is
//! `https://api.telegram.org/bot<token>/<method>`, JSON in, JSON out.

use vstd::prelude::*;
use vstd::string::*;

use crate::error::{BridgeError, BridgeResult, ErrorView};
use crate::http::{is_success, request_views, success, HttpReply, HttpRequest, Method, RequestView};
use crate::json::{
    member, member_views, members_are_found_by_name, Json, JsonView, Member,
};
use crate::text::{chars_of, concat3, joined, signed_decimal, signed_decimal_of, views};

verus! {

/// Telegram caps a message at this many characters. Longer replies are split rather
/// than dropped, on paragraph boundaries where possible.
pub const MAX_MESSAGE_CHARS: usize = 4096;

/// Where the first empty line of `s` begins; the length of `s` where there is none.
pub open spec fn first_break(s: Seq<char>) -> nat
    decreases s.len(),
{
    if s.len() < 2 {
        s.len()
    } else if s[0] == '\n' && s[1] == '\n' {
        0
    } else {
        1 + first_break(s.drop_first())
    }
}

proof fn lemma_first_break(s: Seq<char>)
    ensures
        first_break(s) <= s.len(),
        first_break(s) < s.len() ==> first_break(s) + 2 <= s.len(),
    decreases s.len(),
{
    if s.len() >= 2 && !(s[0] == '\n' && s[1] == '\n') {
        lemma_first_break(s.drop_first());
    }
}

/// The paragraphs of `s`: what stands between two line ends in a row, which are
/// paired off from the left.
pub open spec fn paragraphs(s: Seq<char>) -> Seq<Seq<char>>
    decreases s.len(),
{
    let i = first_break(s) as int;
    if i + 2 > s.len() {
        seq![s]
    } else {
        seq![s.take(i)] + paragraphs(s.skip(i + 2))
    }
}

/// A paragraph in pieces that fit the cap: all but the last are as long as the cap.
pub open spec fn pieces(p: Seq<char>) -> Seq<Seq<char>>
    decreases p.len(),
{
    if p.len() <= MAX_MESSAGE_CHARS {
        seq![p]
    } else {
        seq![p.take(MAX_MESSAGE_CHARS as int)] + pieces(p.skip(MAX_MESSAGE_CHARS as int))
    }
}

/// Paragraphs packed into messages: those that are full, and the one that is being
/// filled.
pub struct Packing {
    pub full: Seq<Seq<char>>,
    pub current: Seq<char>,
}

impl Packing {
    /// One more paragraph: it joins the message being filled, behind an empty line,
    /// where both fit the cap together, and begins a new message otherwise. One that
    /// is longer than the cap fills as many messages as it needs.
    pub open spec fn add(self, p: Seq<char>) -> Packing {
        if self.current.len() == 0 {
            Packing { full: self.full + pieces(p).drop_last(), current: pieces(p).last() }
        } else if self.current.len() + p.len() + 2 > MAX_MESSAGE_CHARS {
            Packing {
                full: self.full.push(self.current) + pieces(p).drop_last(),
                current: pieces(p).last(),
            }
        } else {
            Packing { full: self.full, current: self.current + "\n\n"@ + p }
        }
    }

    /// All the messages.
    pub open spec fn messages(self) -> Seq<Seq<char>> {
        if self.current.len() == 0 {
            self.full
        } else {
            self.full.push(self.current)
        }
    }
}

/// Paragraphs packed one after another.
pub open spec fn packed(paras: Seq<Seq<char>>) -> Packing
    decreases paras.len(),
{
    if paras.len() == 0 {
        Packing { full: Seq::empty(), current: Seq::empty() }
    } else {
        packed(paras.drop_last()).add(paras.last())
    }
}

/// The messages that carry `text`: itself where it fits the cap, and else its
/// paragraphs, packed.
pub open spec fn message_parts(text: Seq<char>) -> Seq<Seq<char>> {
    if text.len() <= MAX_MESSAGE_CHARS {
        seq![text]
    } else {
        packed(paragraphs(text)).messages()
    }
}

/// Adds a paragraph to the messages packed so far.
fn add_paragraph(full: &mut Vec<String>, current: String, para: &str, Ghost(before): Ghost<Packing>) -> (r: String)
    requires
        views(old(full)@) == before.full,
        current@ == before.current,
        current@.len() <= MAX_MESSAGE_CHARS,
    ensures
        views(final(full)@) == before.add(para@).full,
        r@ == before.add(para@).current,
        r@.len() <= MAX_MESSAGE_CHARS,
{
    proof {
        reveal_strlit("\n\n");
    }
    let n: usize = para.unicode_len();
    let len: usize = current.as_str().unicode_len();
    if len != 0 && len + 2 <= MAX_MESSAGE_CHARS && n <= MAX_MESSAGE_CHARS - (len + 2) {
        let mut r: String = current;
        r.append("\n\n");
        r.append(para);
        return r;
    }
    if len != 0 {
        let ghost was = full@;
        full.push(current);
        assert(views(full@) =~= views(was).push(current@));
    }
    let ghost begun = views(full@);
    let mut i: usize = 0;
    proof {
        assert(para@.skip(0) =~= para@);
        assert(begun + pieces(para@).drop_last() =~= views(full@) + pieces(para@).drop_last());
    }
    while n - i > MAX_MESSAGE_CHARS
        invariant
            i <= n,
            n == para@.len(),
            begun + pieces(para@).drop_last() == views(full@) + pieces(
                para@.skip(i as int),
            ).drop_last(),
            pieces(para@).last() == pieces(para@.skip(i as int)).last(),
        decreases n - i,
    {
        let piece: String = para.substring_char(i, i + MAX_MESSAGE_CHARS).to_owned();
        let ghost was = full@;
        let ghost rest = para@.skip(i as int);
        full.push(piece);
        proof {
            assert(views(full@) =~= views(was).push(piece@));
            let next = para@.skip(i + MAX_MESSAGE_CHARS);
            assert(rest.take(MAX_MESSAGE_CHARS as int) =~= piece@);
            assert(rest.skip(MAX_MESSAGE_CHARS as int) =~= next);
            lemma_pieces_nonempty(next);
            assert(pieces(rest).drop_last() =~= seq![piece@] + pieces(next).drop_last());
            assert(views(was) + (seq![piece@] + pieces(next).drop_last()) =~= views(full@)
                + pieces(next).drop_last());
        }
        i = i + MAX_MESSAGE_CHARS;
    }
    proof {
        let rest = para@.skip(i as int);
        assert(pieces(rest) =~= seq![rest]);
        assert(views(full@) + pieces(rest).drop_last() =~= views(full@));
        assert(rest =~= para@.subrange(i as int, n as int));
        assert(before.add(para@).full =~= begun + pieces(para@).drop_last());
    }
    para.substring_char(i, n).to_owned()
}

proof fn lemma_pieces_nonempty(p: Seq<char>)
    ensures
        pieces(p).len() > 0,
{
}

proof fn lemma_packed_push(done: Seq<Seq<char>>, p: Seq<char>)
    ensures
        packed(done.push(p)) == packed(done).add(p),
{
    assert(done.push(p).drop_last() =~= done);
}

/// Splits a reply into messages that Telegram accepts, on paragraph boundaries where
/// possible: only a single paragraph that is longer than the cap is cut.
pub fn split_message(text: &str) -> (r: Vec<String>)
    ensures
        views(r@) == message_parts(text@),
{
    let n: usize = text.unicode_len();
    if n <= MAX_MESSAGE_CHARS {
        let mut r: Vec<String> = Vec::new();
        r.push(text.to_owned());
        assert(views(r@) =~= seq![text@]);
        return r;
    }
    let cs = chars_of(text);
    let mut out: Vec<String> = Vec::new();
    let mut current: String = String::new();
    let mut start: usize = 0;
    let mut i: usize = 0;
    let ghost mut done: Seq<Seq<char>> = Seq::empty();
    proof {
        assert(text@.skip(0) =~= text@);
        assert(done + paragraphs(text@) =~= paragraphs(text@));
        assert(views(out@) =~= Seq::empty());
    }
    while i < n - 1
        invariant
            cs@ == text@,
            n == text@.len(),
            n > MAX_MESSAGE_CHARS,
            start <= i <= n,
            paragraphs(text@) == done + paragraphs(text@.skip(start as int)),
            first_break(text@.skip(start as int)) == (i - start) + first_break(text@.skip(i as int)),
            views(out@) == packed(done).full,
            current@ == packed(done).current,
            current@.len() <= MAX_MESSAGE_CHARS,
        decreases n - i,
    {
        let ghost here = text@.skip(i as int);
        let ghost from = text@.skip(start as int);
        if cs[i] == '\n' && cs[i + 1] == '\n' {
            let para: &str = text.substring_char(start, i);
            proof {
                assert(here[0] == '\n' && here[1] == '\n');
                assert(first_break(here) == 0);
                assert(from.take(i - start) =~= para@);
                assert(from.skip(i - start + 2) =~= text@.skip(i + 2));
                assert(done + (seq![para@] + paragraphs(text@.skip(i + 2))) =~= done.push(para@)
                    + paragraphs(text@.skip(i + 2)));
                lemma_packed_push(done, para@);
            }
            current = add_paragraph(&mut out, current, para, Ghost(packed(done)));
            proof {
                done = done.push(para@);
            }
            i = i + 2;
            start = i;
        } else {
            proof {
                assert(here[0] == cs@[i as int] && here[1] == cs@[i + 1]);
                assert(here.drop_first() =~= text@.skip(i + 1));
            }
            i = i + 1;
        }
    }
    let para: &str = text.substring_char(start, n);
    proof {
        let here = text@.skip(i as int);
        let from = text@.skip(start as int);
        assert(here.len() < 2);
        assert(first_break(from) == from.len());
        assert(from =~= para@);
        assert(done + seq![para@] =~= done.push(para@));
        lemma_packed_push(done, para@);
    }
    current = add_paragraph(&mut out, current, para, Ghost(packed(done)));
    if !current.as_str().is_empty() {
        let ghost was = out@;
        out.push(current);
        assert(views(out@) =~= views(was).push(current@));
    }
    out
}

/// The request that sends one message to a chat.
pub open spec fn message_request(bot_token: Seq<char>, chat_id: i64, part: Seq<char>) -> RequestView {
    RequestView::bare(
        Method::Post,
        "https://api.telegram.org/bot"@ + bot_token + "/sendMessage"@,
    ).with_body(
        JsonView::Object(
            seq![
                ("chat_id"@, JsonView::Number(signed_decimal_of(chat_id as int))),
                ("text"@, JsonView::Text(part)),
            ],
        ),
    )
}

/// What the outcome of sending one message means.
pub open spec fn message_outcome<T>(reply: Result<HttpReply<T>, String>) -> Result<(), ErrorView> {
    match reply {
        Err(e) => Err(ErrorView::TelegramNetwork(e@)),
        Ok(reply) => if is_success(reply.status) {
            Ok(())
        } else {
            Err(ErrorView::TelegramApi { status: reply.status, body: reply.text@ })
        },
    }
}

/// The client of the Telegram Bot API.
pub struct TelegramClient {}

impl TelegramClient {
    pub fn new() -> (r: TelegramClient)
        ensures
            r == (TelegramClient {  }),
    {
        TelegramClient {  }
    }

    /// The requests that send `text` to a chat, to be sent in this order until one
    /// of them fails.
    pub fn send_text(&self, bot_token: &str, chat_id: i64, text: &str) -> (r: Vec<HttpRequest>)
        ensures
            request_views(r@) == message_parts(text@).map_values(
                |part: Seq<char>| message_request(bot_token@, chat_id, part),
            ),
    {
        let parts = split_message(text);
        let mut r: Vec<HttpRequest> = Vec::new();
        let mut i: usize = 0;
        while i < parts.len()
            invariant
                i <= parts.len(),
                r@.len() == i,
                forall|k: int|
                    0 <= k < i ==> (#[trigger] r@[k])@ == message_request(
                        bot_token@,
                        chat_id,
                        parts@[k]@,
                    ),
            decreases parts.len() - i,
        {
            let url: String = concat3("https://api.telegram.org/bot", bot_token, "/sendMessage");
            let mut members: Vec<Member> = Vec::new();
            members.push(member("chat_id", Json::Number(signed_decimal(chat_id))));
            members.push(member("text", Json::text(parts[i].as_str())));
            proof {
                assert(member_views(members@) =~= seq![
                    ("chat_id"@, JsonView::Number(signed_decimal_of(chat_id as int))),
                    ("text"@, JsonView::Text(parts@[i as int]@)),
                ]);
            }
            r.push(HttpRequest::bare(Method::Post, url).with_body(Json::object(members)));
            i = i + 1;
        }
        proof {
            let made = request_views(r@);
            let asked = message_parts(text@).map_values(
                |part: Seq<char>| message_request(bot_token@, chat_id, part),
            );
            assert forall|k: int| 0 <= k < made.len() implies made[k] == asked[k] by {
                assert(r@[k]@ == message_request(bot_token@, chat_id, views(parts@)[k]));
            }
            assert(made =~= asked);
        }
        r
    }

    /// What came of sending one message.
    pub fn sent<T>(&self, reply: Result<HttpReply<T>, String>) -> (r: BridgeResult<()>)
        ensures
            match r {
                Ok(()) => message_outcome(reply) is Ok,
                Err(e) => message_outcome(reply) == Err::<(), ErrorView>(e@),
            },
    {
        match reply {
            Err(e) => Err(BridgeError::TelegramNetwork(e)),
            Ok(reply) => if success(reply.status) {
                Ok(())
            } else {
                Err(BridgeError::TelegramApi { status: reply.status, body: reply.text })
            },
        }
    }
}

// What splitting a reply promises.

proof fn lemma_pieces_fit(p: Seq<char>)
    ensures
        pieces(p).len() > 0,
        pieces(p).last().len() <= MAX_MESSAGE_CHARS,
        p.len() > 0 ==> pieces(p).last().len() > 0,
        forall|i: int|
            0 <= i < pieces(p).len() - 1 ==> (#[trigger] pieces(p)[i]).len() == MAX_MESSAGE_CHARS,
    decreases p.len(),
{
    if p.len() > MAX_MESSAGE_CHARS {
        let rest = p.skip(MAX_MESSAGE_CHARS as int);
        lemma_pieces_fit(rest);
        assert(pieces(p).last() == pieces(rest).last());
        assert forall|i: int| 0 <= i < pieces(p).len() - 1 implies (#[trigger] pieces(p)[i]).len()
            == MAX_MESSAGE_CHARS by {
            if i > 0 {
                assert(pieces(p)[i] == pieces(rest)[i - 1]);
            }
        }
    }
}

proof fn lemma_packed_fits(paras: Seq<Seq<char>>)
    ensures
        packed(paras).current.len() <= MAX_MESSAGE_CHARS,
        forall|i: int|
            0 <= i < packed(paras).full.len() ==> 0 < (#[trigger] packed(paras).full[i]).len()
                <= MAX_MESSAGE_CHARS,
    decreases paras.len(),
{
    if paras.len() > 0 {
        reveal_strlit("\n\n");
        lemma_packed_fits(paras.drop_last());
        lemma_pieces_fit(paras.last());
        let before = packed(paras.drop_last());
        let after = packed(paras);
        let ps = pieces(paras.last());
        assert forall|i: int| 0 <= i < after.full.len() implies 0 < (#[trigger] after.full[i]).len()
            <= MAX_MESSAGE_CHARS by {
            if i < before.full.len() {
                assert(after.full[i] == before.full[i]);
            } else if before.current.len() == 0 {
                assert(after.full[i] == ps[i - before.full.len()]);
            } else if i > before.full.len() {
                assert(after.full[i] == ps[i - before.full.len() - 1]);
            }
        }
    }
}

/// Every message fits Telegram's cap, and none is empty unless the reply is.
pub proof fn parts_fit_the_cap(text: Seq<char>, i: int)
    requires
        0 <= i < message_parts(text).len(),
    ensures
        message_parts(text)[i].len() <= MAX_MESSAGE_CHARS,
        text.len() > 0 ==> message_parts(text)[i].len() > 0,
{
    if text.len() > MAX_MESSAGE_CHARS {
        lemma_packed_fits(paragraphs(text));
    }
}

/// A reply that fits the cap is sent whole.
pub proof fn short_replies_are_sent_whole(text: Seq<char>)
    requires
        text.len() <= MAX_MESSAGE_CHARS,
    ensures
        message_parts(text) == seq![text],
{
}

/// The characters of `s` other than line ends.
pub open spec fn content(s: Seq<char>) -> Seq<char> {
    s.filter(|c: char| c != '\n')
}

/// The characters of all of `parts` other than line ends, in order.
pub open spec fn total_content(parts: Seq<Seq<char>>) -> Seq<char>
    decreases parts.len(),
{
    if parts.len() == 0 {
        Seq::empty()
    } else {
        total_content(parts.drop_last()) + content(parts.last())
    }
}

proof fn lemma_content_concat(a: Seq<char>, b: Seq<char>)
    ensures
        content(a + b) == content(a) + content(b),
{
    Seq::filter_distributes_over_add(a, b, |c: char| c != '\n');
}

proof fn lemma_content_empty(s: Seq<char>)
    requires
        forall|i: int| 0 <= i < s.len() ==> #[trigger] s[i] == '\n',
    ensures
        content(s) == Seq::<char>::empty(),
    decreases s.len(),
{
    reveal(Seq::filter);
    if s.len() > 0 {
        lemma_content_empty(s.drop_last());
    }
    assert(content(s) =~= Seq::empty());
}

proof fn lemma_total_content_push(parts: Seq<Seq<char>>, p: Seq<char>)
    ensures
        total_content(parts.push(p)) == total_content(parts) + content(p),
{
    assert(parts.push(p).drop_last() =~= parts);
}

proof fn lemma_total_content_one(p: Seq<char>)
    ensures
        total_content(seq![p]) == content(p),
{
    reveal_with_fuel(total_content, 2);
    assert(seq![p].drop_last() =~= Seq::empty());
    assert(total_content(seq![p]) =~= content(p));
}

proof fn lemma_total_content_cons(p: Seq<char>, rest: Seq<Seq<char>>)
    ensures
        total_content(seq![p] + rest) == content(p) + total_content(rest),
    decreases rest.len(),
{
    let all = seq![p] + rest;
    if rest.len() == 0 {
        assert(all =~= seq![p]);
        lemma_total_content_one(p);
        assert(total_content(all) =~= content(p) + total_content(rest));
    } else {
        lemma_total_content_cons(p, rest.drop_last());
        assert(all.drop_last() =~= seq![p] + rest.drop_last());
        assert(all.last() == rest.last());
        assert(total_content(all) =~= content(p) + total_content(rest));
    }
}

proof fn lemma_total_content_concat(a: Seq<Seq<char>>, b: Seq<Seq<char>>)
    ensures
        total_content(a + b) == total_content(a) + total_content(b),
    decreases b.len(),
{
    if b.len() == 0 {
        assert(a + b =~= a);
        assert(total_content(a) + total_content(b) =~= total_content(a));
    } else {
        lemma_total_content_concat(a, b.drop_last());
        assert((a + b).drop_last() =~= a + b.drop_last());
        assert(total_content(a + b) =~= total_content(a) + total_content(b));
    }
}

proof fn lemma_pieces_content(p: Seq<char>)
    ensures
        total_content(pieces(p)) == content(p),
        total_content(pieces(p).drop_last()) + content(pieces(p).last()) == content(p),
    decreases p.len(),
{
    lemma_pieces_nonempty(p);
    if p.len() <= MAX_MESSAGE_CHARS {
        lemma_total_content_one(p);
    } else {
        let head = p.take(MAX_MESSAGE_CHARS as int);
        let rest = p.skip(MAX_MESSAGE_CHARS as int);
        lemma_pieces_content(rest);
        lemma_total_content_cons(head, pieces(rest));
        lemma_content_concat(head, rest);
        assert(p =~= head + rest);
    }
}

proof fn lemma_packed_content(paras: Seq<Seq<char>>)
    ensures
        total_content(packed(paras).full) + content(packed(paras).current) == total_content(paras),
    decreases paras.len(),
{
    lemma_content_empty(Seq::<char>::empty());
    if paras.len() > 0 {
        reveal_strlit("\n\n");
        let init = paras.drop_last();
        let p = paras.last();
        let before = packed(init);
        let after = packed(paras);
        lemma_packed_content(init);
        lemma_pieces_content(p);
        lemma_total_content_push(before.full, before.current);
        lemma_total_content_concat(before.full, pieces(p).drop_last());
        lemma_total_content_concat(before.full.push(before.current), pieces(p).drop_last());
        lemma_content_concat(before.current + "\n\n"@, p);
        lemma_content_concat(before.current, "\n\n"@);
        lemma_content_empty("\n\n"@);
        if before.current.len() == 0 {
            assert(before.current =~= Seq::empty());
        }
        assert(total_content(after.full) + content(after.current) =~= total_content(paras));
    }
}

proof fn lemma_first_break_is_break(s: Seq<char>)
    ensures
        first_break(s) < s.len() ==> {
            &&& first_break(s) + 2 <= s.len()
            &&& s[first_break(s) as int] == '\n'
            &&& s[first_break(s) as int + 1] == '\n'
        },
    decreases s.len(),
{
    if s.len() >= 2 && !(s[0] == '\n' && s[1] == '\n') {
        lemma_first_break_is_break(s.drop_first());
        lemma_first_break(s.drop_first());
    }
}

proof fn lemma_paragraphs_content(s: Seq<char>)
    ensures
        total_content(paragraphs(s)) == content(s),
    decreases s.len(),
{
    let i = first_break(s) as int;
    lemma_first_break(s);
    if i + 2 > s.len() {
        lemma_total_content_one(s);
    } else {
        lemma_first_break_is_break(s);
        let head = s.take(i);
        let gap = s.subrange(i, i + 2);
        let tail = s.skip(i + 2);
        lemma_paragraphs_content(tail);
        lemma_total_content_cons(head, paragraphs(tail));
        assert(s =~= head + gap + tail);
        lemma_content_concat(head + gap, tail);
        lemma_content_concat(head, gap);
        lemma_content_empty(gap);
        assert(content(s) =~= content(head) + content(tail));
    }
}

proof fn lemma_paragraphs_shorter(s: Seq<char>)
    ensures
        paragraphs(s).len() > 0,
        forall|i: int| 0 <= i < paragraphs(s).len() ==> (#[trigger] paragraphs(s)[i]).len() <= s.len(),
    decreases s.len(),
{
    let i = first_break(s) as int;
    if i + 2 <= s.len() {
        lemma_paragraphs_shorter(s.skip(i + 2));
        let rest = paragraphs(s.skip(i + 2));
        assert forall|k: int| 0 <= k < paragraphs(s).len() implies (#[trigger] paragraphs(
            s,
        )[k]).len() <= s.len() by {
            if k > 0 {
                assert(paragraphs(s)[k] == rest[k - 1]);
            }
        }
    }
}

/// A reply is split rather than dropped: whatever it is, its messages carry all of its
/// characters in order, but for line ends at the boundaries of paragraphs.
pub proof fn nothing_is_dropped(text: Seq<char>)
    ensures
        total_content(message_parts(text)) == content(text),
{
    if text.len() <= MAX_MESSAGE_CHARS {
        lemma_total_content_one(text);
    } else {
        let p = packed(paragraphs(text));
        lemma_packed_content(paragraphs(text));
        lemma_paragraphs_content(text);
        lemma_content_empty(Seq::<char>::empty());
        lemma_total_content_push(p.full, p.current);
        if p.current.len() == 0 {
            assert(p.current =~= Seq::empty());
            assert(total_content(p.full) + content(p.current) =~= total_content(p.full));
        }
    }
}

proof fn lemma_pieces_join(p: Seq<char>)
    ensures
        joined(pieces(p), Seq::empty()) == p,
    decreases p.len(),
{
    if p.len() > MAX_MESSAGE_CHARS {
        let head = p.take(MAX_MESSAGE_CHARS as int);
        let rest = p.skip(MAX_MESSAGE_CHARS as int);
        lemma_pieces_join(rest);
        lemma_pieces_nonempty(rest);
        lemma_joined_cons(head, pieces(rest), Seq::empty());
        assert(head + Seq::empty() + rest =~= p);
    }
}

/// A reply that is one paragraph, however long, is its messages put together.
pub proof fn one_paragraph_is_carried_whole(text: Seq<char>)
    requires
        first_break(text) == text.len(),
    ensures
        joined(message_parts(text), Seq::empty()) == text,
{
    if text.len() > MAX_MESSAGE_CHARS {
        let paras = paragraphs(text);
        assert(paras =~= seq![text]);
        assert(paras.drop_last() =~= Seq::empty());
        reveal_with_fuel(packed, 2);
        lemma_pieces_fit(text);
        let ps = pieces(text);
        assert(packed(paras).messages() =~= ps) by {
            assert(Seq::<Seq<char>>::empty() + ps.drop_last() =~= ps.drop_last());
            assert(ps =~= ps.drop_last().push(ps.last()));
        }
        lemma_pieces_join(text);
    }
}

proof fn lemma_joined_push(parts: Seq<Seq<char>>, p: Seq<char>, sep: Seq<char>)
    ensures
        joined(parts.push(p), sep) == (if parts.len() == 0 {
            p
        } else {
            joined(parts, sep) + sep + p
        }),
{
    assert(parts.push(p).drop_last() =~= parts);
}

proof fn lemma_joined_cons(p: Seq<char>, rest: Seq<Seq<char>>, sep: Seq<char>)
    requires
        rest.len() > 0,
    ensures
        joined(seq![p] + rest, sep) == p + sep + joined(rest, sep),
    decreases rest.len(),
{
    let all = seq![p] + rest;
    let init = rest.drop_last();
    if init.len() == 0 {
        assert(all =~= seq![p].push(rest[0]));
        lemma_joined_push(seq![p], rest[0], sep);
    } else {
        lemma_joined_cons(p, init, sep);
        assert(all =~= (seq![p] + init).push(rest.last()));
        lemma_joined_push(seq![p] + init, rest.last(), sep);
        assert(p + sep + joined(init, sep) + sep + rest.last() =~= p + sep + joined(rest, sep));
    }
}

proof fn lemma_paragraphs_join(s: Seq<char>)
    ensures
        joined(paragraphs(s), "\n\n"@) == s,
    decreases s.len(),
{
    reveal_strlit("\n\n");
    let i = first_break(s) as int;
    if i + 2 <= s.len() {
        lemma_first_break_is_break(s);
        let tail = s.skip(i + 2);
        lemma_paragraphs_join(tail);
        lemma_paragraphs_shorter(tail);
        lemma_joined_cons(s.take(i), paragraphs(tail), "\n\n"@);
        assert(s.take(i) + "\n\n"@ + tail =~= s);
    }
}

proof fn lemma_packed_join(paras: Seq<Seq<char>>)
    requires
        forall|i: int| 0 <= i < paras.len() ==> 0 < (#[trigger] paras[i]).len() <= MAX_MESSAGE_CHARS,
    ensures
        joined(packed(paras).messages(), "\n\n"@) == joined(paras, "\n\n"@),
        paras.len() > 0 ==> packed(paras).current.len() > 0,
    decreases paras.len(),
{
    let sep = "\n\n"@;
    if paras.len() > 0 {
        reveal_strlit("\n\n");
        let init = paras.drop_last();
        let p = paras.last();
        assert forall|i: int| 0 <= i < init.len() implies 0 < (#[trigger] init[i]).len()
            <= MAX_MESSAGE_CHARS by {
            assert(init[i] == paras[i]);
        }
        lemma_packed_join(init);
        let before = packed(init);
        let after = packed(paras);
        assert(paras =~= init.push(p));
        lemma_joined_push(init, p, sep);
        lemma_joined_push(before.full, before.current, sep);
        if init.len() == 0 {
            assert(before.full =~= Seq::empty());
            lemma_joined_push(after.full, after.current, sep);
        } else if before.current.len() + p.len() + 2 > MAX_MESSAGE_CHARS {
            lemma_joined_push(after.full, after.current, sep);
        } else {
            lemma_joined_push(after.full, after.current, sep);
            assert(joined(before.full, sep) + sep + before.current + sep + p =~= joined(
                before.full,
                sep,
            ) + sep + (before.current + sep + p));
        }
    }
}

/// Where every paragraph has something in it and none is longer than the cap, the
/// messages are groups of whole paragraphs: put together again, with an empty line
/// between two of them, they are the reply.
pub proof fn parts_join_to_the_reply(text: Seq<char>)
    requires
        forall|i: int|
            0 <= i < paragraphs(text).len() ==> 0 < (#[trigger] paragraphs(text)[i]).len()
                <= MAX_MESSAGE_CHARS,
    ensures
        joined(message_parts(text), "\n\n"@) == text,
{
    if text.len() > MAX_MESSAGE_CHARS {
        lemma_packed_join(paragraphs(text));
        lemma_paragraphs_join(text);
    }
}

proof fn lemma_no_break_before(s: Seq<char>, k: int)
    requires
        0 <= k < first_break(s),
        k + 1 < s.len(),
    ensures
        !(s[k] == '\n' && s[k + 1] == '\n'),
    decreases s.len(),
{
    if k > 0 {
        lemma_no_break_before(s.drop_first(), k - 1);
    }
}

/// Wherever two line ends stand in a row, whatever follows them, a paragraph ends: none
/// holds an empty line.
pub proof fn no_paragraph_holds_an_empty_line(s: Seq<char>, i: int, k: int)
    requires
        0 <= i < paragraphs(s).len(),
        0 <= k < paragraphs(s)[i].len() - 1,
    ensures
        !(paragraphs(s)[i][k] == '\n' && paragraphs(s)[i][k + 1] == '\n'),
    decreases s.len(),
{
    let b = first_break(s) as int;
    lemma_first_break(s);
    if b + 2 > s.len() {
        assert(paragraphs(s)[i] == s);
        lemma_no_break_before(s, k);
    } else if i == 0 {
        lemma_no_break_before(s, k);
    } else {
        assert(paragraphs(s)[i] == paragraphs(s.skip(b + 2))[i - 1]);
        no_paragraph_holds_an_empty_line(s.skip(b + 2), i - 1, k);
    }
}

/// A reply is its paragraphs with an empty line between two of them. Line ends are paired
/// off from the left, so that none is left over at the end of a paragraph that another
/// one follows.
pub proof fn paragraphs_make_up_the_reply(s: Seq<char>)
    ensures
        joined(paragraphs(s), seq!['\n', '\n']) == s,
        forall|i: int|
            0 <= i < paragraphs(s).len() - 1 && (#[trigger] paragraphs(s)[i]).len() > 0
                ==> paragraphs(s)[i].last() != '\n',
    decreases s.len(),
{
    reveal_strlit("\n\n");
    assert("\n\n"@ =~= seq!['\n', '\n']);
    lemma_paragraphs_join(s);
    let b = first_break(s) as int;
    lemma_first_break(s);
    if b + 2 <= s.len() {
        lemma_first_break_is_break(s);
        let rest = s.skip(b + 2);
        paragraphs_make_up_the_reply(rest);
        assert forall|i: int|
            0 <= i < paragraphs(s).len() - 1 && (#[trigger] paragraphs(s)[i]).len() > 0 implies
            paragraphs(s)[i].last() != '\n' by {
            if i > 0 {
                assert(paragraphs(s)[i] == paragraphs(rest)[i - 1]);
            } else {
                lemma_no_break_before(s, b - 1);
            }
        }
    }
}

proof fn lemma_paragraph_in_place(s: Seq<char>, i: int)
    requires
        0 <= i < paragraphs(s).len(),
    ensures
        exists|a: int|
            0 <= a && a + paragraphs(s)[i].len() <= s.len() && paragraphs(s)[i]
                == #[trigger] s.subrange(a, a + paragraphs(s)[i].len()),
    decreases s.len(),
{
    let b = first_break(s) as int;
    lemma_first_break(s);
    let p = paragraphs(s)[i];
    if b + 2 > s.len() {
        assert(s.subrange(0, 0 + p.len() as int) =~= p);
    } else if i == 0 {
        assert(s.subrange(0, 0 + p.len() as int) =~= p);
    } else {
        let rest = s.skip(b + 2);
        assert(p == paragraphs(rest)[i - 1]);
        lemma_paragraph_in_place(rest, i - 1);
        let a = choose|a: int|
            0 <= a && a + p.len() <= rest.len() && p == #[trigger] rest.subrange(a, a + p.len());
        assert(s.subrange(a + b + 2, a + b + 2 + p.len()) =~= rest.subrange(a, a + p.len()));
    }
}

/// At `a` the text begins, or an empty line has just ended.
pub open spec fn begins_at(s: Seq<char>, a: int) -> bool {
    a == 0 || (a >= 2 && s[a - 2] == '\n' && s[a - 1] == '\n')
}

/// At `b` the text ends, or an empty line begins.
pub open spec fn ends_at(s: Seq<char>, b: int) -> bool {
    b == s.len() || (b + 2 <= s.len() && s[b] == '\n' && s[b + 1] == '\n')
}

/// `part` is a stretch of `s` between two empty lines, or the ends of `s`.
pub open spec fn is_stretch(s: Seq<char>, part: Seq<char>) -> bool {
    exists|a: int, b: int|
        0 <= a <= b <= s.len() && begins_at(s, a) && ends_at(s, b) && part == #[trigger] s.subrange(
            a,
            b,
        )
}

proof fn lemma_stretch_extends(s: Seq<char>, p: Seq<char>, part: Seq<char>)
    requires
        is_stretch(s, part),
    ensures
        is_stretch(s + "\n\n"@ + p, part),
{
    reveal_strlit("\n\n");
    let t = s + "\n\n"@ + p;
    let (a, b) = choose|a: int, b: int|
        0 <= a <= b <= s.len() && begins_at(s, a) && ends_at(s, b) && part == #[trigger] s.subrange(
            a,
            b,
        );
    assert(t.subrange(a, b) =~= s.subrange(a, b));
    assert(begins_at(t, a));
    assert(ends_at(t, b));
}

proof fn lemma_packed_stretches(paras: Seq<Seq<char>>)
    requires
        forall|i: int| 0 <= i < paras.len() ==> (#[trigger] paras[i]).len() <= MAX_MESSAGE_CHARS,
    ensures
        forall|i: int|
            0 <= i < packed(paras).full.len() ==> is_stretch(
                joined(paras, "\n\n"@),
                #[trigger] packed(paras).full[i],
            ),
        packed(paras).current.len() > 0 ==> is_tail(joined(paras, "\n\n"@), packed(paras).current),
    decreases paras.len(),
{
    let sep = "\n\n"@;
    reveal_strlit("\n\n");
    if paras.len() > 0 {
        let init = paras.drop_last();
        let p = paras.last();
        assert(paras[paras.len() - 1] == p);
        assert forall|i: int| 0 <= i < init.len() implies (#[trigger] init[i]).len()
            <= MAX_MESSAGE_CHARS by {
            assert(init[i] == paras[i]);
        }
        lemma_packed_stretches(init);
        assert(paras =~= init.push(p));
        lemma_joined_push(init, p, sep);
        let s = joined(init, sep);
        let t = joined(paras, sep);
        let before = packed(init);
        let after = packed(paras);
        assert(pieces(p) =~= seq![p]);
        assert(pieces(p).drop_last() =~= Seq::empty());
        if init.len() == 0 {
            assert(before.full.len() == 0);
            assert(after.full =~= Seq::empty());
            assert(t.skip(0) =~= p);
        } else {
            assert forall|i: int| 0 <= i < before.full.len() implies is_stretch(
                t,
                #[trigger] before.full[i],
            ) by {
                lemma_stretch_extends(s, p, before.full[i]);
            }
            if before.current.len() > 0 {
                let a = choose|a: int|
                    0 <= a <= s.len() && begins_at(s, a) && before.current == #[trigger] s.skip(a);
                assert(s.subrange(a, s.len() as int) =~= before.current);
                assert(is_stretch(s, before.current));
                lemma_stretch_extends(s, p, before.current);
                assert(t.skip(a) =~= before.current + sep + p);
                assert(begins_at(t, a));
            }
            assert(t.skip(s.len() as int + 2) =~= p);
            assert(begins_at(t, s.len() as int + 2));
            assert(before.full + Seq::<Seq<char>>::empty() =~= before.full);
            assert(before.full.push(before.current) + Seq::<Seq<char>>::empty()
                =~= before.full.push(before.current));
            assert forall|i: int| 0 <= i < after.full.len() implies is_stretch(
                t,
                #[trigger] after.full[i],
            ) by {
                if i < before.full.len() {
                    assert(after.full[i] == before.full[i]);
                } else {
                    assert(after.full[i] == before.current);
                }
            }
        }
    }
}

/// `part` is the end of `s`, from its beginning or an empty line on.
spec fn is_tail(s: Seq<char>, part: Seq<char>) -> bool {
    exists|a: int| 0 <= a <= s.len() && begins_at(s, a) && part == #[trigger] s.skip(a)
}

/// Replies are split on paragraph boundaries where possible: where the reply has an empty
/// line often enough that every stretch between two of them fits the cap, every message
/// begins where the reply does or behind an empty line, and ends where the reply does or
/// before one.
pub proof fn messages_end_at_empty_lines(text: Seq<char>, i: int)
    requires
        0 <= i < message_parts(text).len(),
        forall|a: int|
            0 <= a && #[trigger] (a + 4097) <= text.len() ==> exists|k: int|
                a <= k < a + 4096 && #[trigger] text[k] == '\n' && text[k + 1] == '\n',
    ensures
        exists|a: int, b: int|
            {
                &&& 0 <= a <= b <= text.len()
                &&& message_parts(text)[i] == #[trigger] text.subrange(a, b)
                &&& a == 0 || (a >= 2 && text[a - 2] == '\n' && text[a - 1] == '\n')
                &&& b == text.len() || (b + 2 <= text.len() && text[b] == '\n' && text[b + 1]
                    == '\n')
            },
{
    if text.len() <= MAX_MESSAGE_CHARS {
        assert(text.subrange(0, text.len() as int) =~= text);
    } else {
        let paras = paragraphs(text);
        assert forall|j: int| 0 <= j < paras.len() implies (#[trigger] paras[j]).len()
            <= MAX_MESSAGE_CHARS by {
            let p = paras[j];
            if p.len() > MAX_MESSAGE_CHARS {
                lemma_paragraph_in_place(text, j);
                let a = choose|a: int|
                    0 <= a && a + p.len() <= text.len() && p == #[trigger] text.subrange(
                        a,
                        a + p.len(),
                    );
                assert(a + 4097 <= text.len());
                let k = choose|k: int|
                    a <= k < a + 4096 && #[trigger] text[k] == '\n' && text[k + 1] == '\n';
                assert(p[k - a] == text[k] && p[k - a + 1] == text[k + 1]);
                no_paragraph_holds_an_empty_line(text, j, k - a);
            }
        }
        lemma_packed_stretches(paras);
        lemma_paragraphs_join(text);
        let p = packed(paras);
        let part = message_parts(text)[i];
        if i == p.full.len() {
            assert(part == p.current);
            let a = choose|a: int|
                0 <= a <= text.len() && begins_at(text, a) && part == #[trigger] text.skip(a);
            assert(text.subrange(a, text.len() as int) =~= part);
        } else {
            assert(part == p.full[i]);
            assert(is_stretch(text, part));
        }
        assert(is_stretch(text, part));
    }
}

proof fn lemma_packed_tight(paras: Seq<Seq<char>>)
    ensures
        forall|i: int|
            0 <= i < packed(paras).full.len() - 1 ==> (#[trigger] packed(paras).full[i]).len() + 2
                + packed(paras).full[i + 1].len() > MAX_MESSAGE_CHARS,
        packed(paras).full.len() > 0 ==> {
            let last = packed(paras).full.last().len();
            let next = packed(paras).current.len();
            last + 2 + next > MAX_MESSAGE_CHARS
        },
    decreases paras.len(),
{
    if paras.len() > 0 {
        reveal_strlit("\n\n");
        let init = paras.drop_last();
        let p = paras.last();
        lemma_packed_tight(init);
        lemma_pieces_fit(p);
        let before = packed(init);
        let after = packed(paras);
        let ps = pieces(p);
        let cut = ps.drop_last();
        let base = if before.current.len() == 0 {
            before.full
        } else {
            before.full.push(before.current)
        };
        if !(before.current.len() > 0 && before.current.len() + p.len() + 2 <= MAX_MESSAGE_CHARS) {
            assert(after.full == base + cut);
            assert forall|i: int| 0 <= i < after.full.len() - 1 implies (
            #[trigger] after.full[i]).len() + 2 + after.full[i + 1].len() > MAX_MESSAGE_CHARS by {
                if i + 1 < base.len() {
                    assert(after.full[i] == base[i] && after.full[i + 1] == base[i + 1]);
                    if i + 1 < before.full.len() {
                        assert(before.full[i].len() + 2 + before.full[i + 1].len()
                            > MAX_MESSAGE_CHARS);
                    }
                } else {
                    assert(after.full[i + 1] == cut[i + 1 - base.len()]);
                    assert(cut[i + 1 - base.len()] == ps[i + 1 - base.len()]);
                }
            }
            if cut.len() > 0 {
                assert(after.full.last() == cut.last());
                assert(cut.last() == ps[ps.len() - 2]);
            } else {
                assert(after.full =~= base);
                assert(ps.len() == 1);
                if p.len() > MAX_MESSAGE_CHARS {
                    lemma_pieces_nonempty(p.skip(MAX_MESSAGE_CHARS as int));
                }
                assert(after.current == p);
            }
        } else {
            assert(after.full == before.full);
        }
    }
}

/// A reply is split no more often than needed: no two messages in a row would fit into
/// one, with an empty line between them.
pub proof fn no_two_messages_would_fit_in_one(text: Seq<char>, i: int)
    requires
        0 <= i < message_parts(text).len() - 1,
    ensures
        message_parts(text)[i].len() + 2 + message_parts(text)[i + 1].len() > 4096,
{
    let paras = paragraphs(text);
    lemma_packed_tight(paras);
    let p = packed(paras);
    let parts = message_parts(text);
    assert(text.len() > MAX_MESSAGE_CHARS);
    if i + 1 < p.full.len() {
        assert(parts[i] == p.full[i] && parts[i + 1] == p.full[i + 1]);
    } else {
        assert(parts[i] == p.full.last() && parts[i + 1] == p.current);
    }
}

/// Every message of a reply goes to the chat, with the bot's token, as text.
pub proof fn a_message_goes_to_its_chat(bot_token: Seq<char>, chat_id: i64, part: Seq<char>)
    ensures
        ({
            let r = message_request(bot_token, chat_id, part);
            &&& r.method == Method::Post
            &&& r.url == "https://api.telegram.org/bot"@ + bot_token + "/sendMessage"@
            &&& r.body is Some
            &&& r.body->0.at("chat_id"@) == JsonView::Number(signed_decimal_of(chat_id as int))
            &&& r.body->0.at("text"@) == JsonView::Text(part)
            &&& r.bearer is None
            &&& r.headers.len() == 0
        }),
{
    reveal_strlit("chat_id");
    reveal_strlit("text");
    assert("chat_id"@.len() != "text"@.len());
    let m = message_request(bot_token, chat_id, part).body->0->Object_0;
    members_are_found_by_name(m, "chat_id"@, 0);
    members_are_found_by_name(m, "text"@, 1);
}

/// A message was sent exactly if Telegram answered with one of the two hundreds; any
/// other answer is told with its status and its text.
pub proof fn only_a_two_hundred_means_sent(reply: HttpReply<()>)
    ensures
        message_outcome(Ok::<HttpReply<()>, String>(reply)) == (if reply.status / 100 == 2 {
            Ok::<(), ErrorView>(())
        } else {
            Err(ErrorView::TelegramApi { status: reply.status, body: reply.text@ })
        }),
{
}

} // verus!
