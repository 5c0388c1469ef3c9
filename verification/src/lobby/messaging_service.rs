//! Instant messages between players: one sends, the other finds it in the mailbox
//! at the next look.

use crate::auth::pid::{dwid, dwid_of, law_dwid_holds_pid, pid_of, recall_peer};
use crate::clock::{elapsed, time_between};
use crate::octets::{
    law_le_bytes_read_back, le_bytes, le_value, lemma_le_bytes_len, lemma_radix_powers, read_le,
};
use crate::peer::{same_addr, AddrMap, IpAddr};
use crate::sequences::{lemma_filter_members, lemma_filter_push, lemma_filter_twice};
use crate::session::BdSession;
use crate::wire::{
    next_u8, read_error, BdErrorCode, BdMessage, BdReadError, BdWriter, TaskReply, Val,
};
use vstd::prelude::*;
use vstd::slice::slice_to_vec;

verus! {

/// The operation that sends an instant message.
pub const INSTANT_MESSAGE_SEND: u8 = 18;

/// The operation that looks into the mailbox.
pub const MAILBOX_POLL: u8 = 1;

/// How long a message waits for its recipient, in nanoseconds.
pub const MESSAGE_TTL: u64 = 120_000_000_000;

/// The tag in front of a recipient.
pub const XUID_TAG: u8 = 0x0A;

/// Whether a recipient stands at a place: the tag, and behind it eight bytes, the
/// least significant first, the upper four of which are those of every identity.
pub open spec fn xuid_at(body: Seq<u8>, i: int) -> bool {
    &&& 0 <= i <= body.len() - 9
    &&& body[i] == XUID_TAG
    &&& body[i + 5] == 0x00
    &&& body[i + 6] == 0xBD
    &&& body[i + 7] == 0x00
    &&& body[i + 8] == 0x00
}

/// The recipients that stand in a message from a place on.
pub open spec fn xuids_from(body: Seq<u8>, i: int) -> Seq<u64>
    decreases body.len() - i,
{
    if i < 0 || i > body.len() - 9 {
        Seq::empty()
    } else if xuid_at(body, i) {
        seq![le_value(body.subrange(i + 1, i + 9)) as u64] + xuids_from(body, i + 1)
    } else {
        xuids_from(body, i + 1)
    }
}

/// The recipients of a message.
pub open spec fn recipients_in(body: Seq<u8>) -> Seq<u64> {
    xuids_from(body, 0)
}

/// Finds every recipient in the body of a message.
pub fn extract_recipient_xuids(body: &[u8]) -> (xuids: Vec<u64>)
    ensures
        xuids@ == recipients_in(body@),
{
    let mut xuids: Vec<u64> = Vec::new();
    if body.len() < 9 {
        return xuids;
    }
    let mut i: usize = 0;
    let last: usize = body.len() - 9;
    proof {
        assert(xuids@ + xuids_from(body@, 0) =~= recipients_in(body@));
    }
    while i <= last
        invariant
            body.len() >= 9,
            last == body.len() - 9,
            i <= last + 1,
            xuids@ + xuids_from(body@, i as int) == recipients_in(body@),
        decreases last + 1 - i,
    {
        let ghost tail = xuids_from(body@, i + 1);
        let ghost before = xuids@;
        if body[i] == XUID_TAG && body[i + 5] == 0x00 && body[i + 6] == 0xBD && body[i + 7] == 0x00
            && body[i + 8] == 0x00 {
            xuids.push(read_le(body, i + 1, 8));
        }
        proof {
            assert(xuids@ + tail =~= before + xuids_from(body@, i as int));
        }
        i = i + 1;
    }
    proof {
        assert(xuids@ + xuids_from(body@, i as int) =~= xuids@);
    }
    xuids
}

/// A message that waits for its recipient.
pub struct PendingMessage {
    pub sender_ip: Option<IpAddr>,
    pub recipient_xuids: Vec<u64>,
    pub body: Vec<u8>,
    /// When it was sent, in nanoseconds on a clock that does not run backwards.
    pub queued_at: u64,
}

/// A waiting message, as a mathematical value.
pub ghost struct MessageView {
    pub sender_ip: Option<IpAddr>,
    pub recipient_xuids: Seq<u64>,
    pub body: Seq<u8>,
    pub queued_at: u64,
}

impl View for PendingMessage {
    type V = MessageView;

    open spec fn view(&self) -> MessageView {
        MessageView {
            sender_ip: self.sender_ip,
            recipient_xuids: self.recipient_xuids@,
            body: self.body@,
            queued_at: self.queued_at,
        }
    }
}

impl MessageView {
    /// Whether the message has not waited for too long.
    pub open spec fn fresh(self, now: u64) -> bool {
        elapsed(self.queued_at, now) < MESSAGE_TTL
    }

    /// Whether the message is for the client at an address with an identity. One
    /// that names nobody is for everybody but its sender.
    pub open spec fn is_for(self, peer: Option<IpAddr>, identity: Option<u64>) -> bool {
        if self.recipient_xuids.len() == 0 {
            self.sender_ip != peer
        } else {
            identity matches Some(id) && self.recipient_xuids.contains(id)
        }
    }
}

/// The messages that have not waited for too long.
pub open spec fn fresh_of(messages: Seq<MessageView>, now: u64) -> Seq<MessageView> {
    messages.filter(|m: MessageView| m.fresh(now))
}

/// The messages for a client.
pub open spec fn mail_for(
    messages: Seq<MessageView>,
    peer: Option<IpAddr>,
    identity: Option<u64>,
) -> Seq<MessageView> {
    messages.filter(|m: MessageView| m.is_for(peer, identity))
}

/// The messages for everybody but a client.
pub open spec fn mail_but_for(
    messages: Seq<MessageView>,
    peer: Option<IpAddr>,
    identity: Option<u64>,
) -> Seq<MessageView> {
    messages.filter(|m: MessageView| !m.is_for(peer, identity))
}

/// The message that a client sends.
pub open spec fn sent_message(peer: Option<IpAddr>, body: Seq<u8>, now: u64) -> MessageView {
    MessageView { sender_ip: peer, recipient_xuids: recipients_in(body), body, queued_at: now }
}

/// Whether the recipients that are kept with messages are those that their bodies
/// name.
pub open spec fn addressed(messages: Seq<MessageView>) -> bool {
    forall|i: int|
        0 <= i < messages.len() ==> (#[trigger] messages[i]).recipient_xuids == recipients_in(
            messages[i].body,
        )
}

/// The identity by which a client is addressed, where it is known.
pub open spec fn identity_at(pids: Map<IpAddr, u64>, peer: Option<IpAddr>) -> Option<u64> {
    match pid_of(pids, peer) {
        Some(pid) => Some(dwid_of(pid)),
        None => None,
    }
}

/// The bodies of messages.
pub open spec fn bodies(messages: Seq<MessageView>) -> Seq<Seq<u8>> {
    messages.map_values(|m: MessageView| m.body)
}

/// The body of a delivered message.
#[derive(Debug)]
pub struct RawBlobResult {
    pub body: Vec<u8>,
}

impl View for RawBlobResult {
    type V = Seq<u8>;

    open spec fn view(&self) -> Seq<u8> {
        self.body@
    }
}

impl RawBlobResult {
    /// Writes the body behind its length.
    pub fn serialize(&self, writer: &mut BdWriter)
        ensures
            final(writer).written() == old(writer).written().push(Val::Blob(self@)),
            final(writer).stream_mode() == old(writer).stream_mode(),
            final(writer).tagged() == old(writer).tagged(),
    {
        writer.write_blob(self.body.as_slice());
    }
}

/// The messages that wait for their recipients, in the order they were sent.
pub struct Mailbox {
    pending: Vec<PendingMessage>,
}

impl View for Mailbox {
    type V = Seq<MessageView>;

    closed spec fn view(&self) -> Seq<MessageView> {
        self.pending@.map_values(|m: PendingMessage| m@)
    }
}

/// Whether a list of identities holds one.
fn names(xuids: &Vec<u64>, id: u64) -> (r: bool)
    ensures
        r == xuids@.contains(id),
{
    let mut i: usize = 0;
    while i < xuids.len()
        invariant
            i <= xuids@.len(),
            forall|j: int| 0 <= j < i ==> xuids@[j] != id,
        decreases xuids@.len() - i,
    {
        if xuids[i] == id {
            proof {
                assert(xuids@.contains(id));
            }
            return true;
        }
        i = i + 1;
    }
    false
}

impl PendingMessage {
    /// Whether the message is for the client at an address with an identity.
    fn is_for(&self, peer: Option<IpAddr>, identity: Option<u64>) -> (r: bool)
        ensures
            r == self@.is_for(peer, identity),
    {
        if self.recipient_xuids.len() == 0 {
            !same_addr(self.sender_ip, peer)
        } else {
            match identity {
                Some(id) => names(&self.recipient_xuids, id),
                None => false,
            }
        }
    }
}

impl Mailbox {
    /// Every message is kept for those that its body names.
    pub open spec fn wf(self) -> bool {
        addressed(self@)
    }

    /// A mailbox without messages.
    pub fn new() -> (mailbox: Mailbox)
        ensures
            mailbox.wf(),
            mailbox@ == Seq::<MessageView>::empty(),
    {
        let mailbox = Mailbox { pending: Vec::new() };
        proof {
            assert(mailbox@ =~= Seq::<MessageView>::empty());
        }
        mailbox
    }

    /// Drops the messages that have waited for too long.
    fn expire(&mut self, now: u64)
        requires
            old(self).wf(),
        ensures
            final(self).wf(),
            final(self)@ == fresh_of(old(self)@, now),
    {
        let ghost all = self@;
        let ghost pred = |m: MessageView| m.fresh(now);
        let ghost mut seen: int = 0;
        let mut i: usize = 0;
        proof {
            reveal(Seq::filter);
            assert(all.take(0).filter(pred) =~= Seq::<MessageView>::empty());
            assert(self@ =~= all.take(0).filter(pred) + all.skip(0));
        }
        while i < self.pending.len()
            invariant
                0 <= seen <= all.len(),
                pred == (|m: MessageView| m.fresh(now)),
                i == all.take(seen).filter(pred).len(),
                self@ == all.take(seen).filter(pred) + all.skip(seen),
                self@.len() == self.pending@.len(),
            decreases all.len() - seen,
        {
            let ghost kept = all.take(seen).filter(pred);
            proof {
                assert(self@[i as int] == all[seen]);
                assert(all.take(seen).push(all[seen]) =~= all.take(seen + 1));
                lemma_filter_push(all.take(seen), all[seen], pred);
            }
            if time_between(self.pending[i].queued_at, now) < MESSAGE_TTL {
                proof {
                    assert(self@ =~= kept.push(all[seen]) + all.skip(seen + 1));
                }
                i = i + 1;
            } else {
                let ghost before = self@;
                self.pending.remove(i);
                proof {
                    assert(self@ =~= before.remove(i as int));
                    assert(self@ =~= kept + all.skip(seen + 1));
                }
            }
            proof {
                seen = seen + 1;
            }
        }
        proof {
            assert(all.take(seen) =~= all);
            assert(all.take(seen).filter(pred) + all.skip(seen) =~= all.filter(pred));
            lemma_filter_addressed(all, pred);
        }
    }

    /// Sends a message, after dropping those that have waited for too long.
    pub fn send(&mut self, peer: Option<IpAddr>, body: Vec<u8>, now: u64)
        requires
            old(self).wf(),
        ensures
            final(self).wf(),
            final(self)@ == fresh_of(old(self)@, now).push(sent_message(peer, body@, now)),
    {
        self.expire(now);
        let recipient_xuids: Vec<u64> = extract_recipient_xuids(body.as_slice());
        let ghost before = self@;
        self.pending.push(
            PendingMessage { sender_ip: peer, recipient_xuids, body, queued_at: now },
        );
        proof {
            assert(self@ =~= before.push(sent_message(peer, body@, now)));
        }
    }

    /// Takes out the messages for a client, after dropping those that have waited
    /// for too long.
    pub fn collect(&mut self, peer: Option<IpAddr>, identity: Option<u64>, now: u64) -> (results:
        Vec<RawBlobResult>)
        requires
            old(self).wf(),
        ensures
            final(self).wf(),
            final(self)@ == mail_but_for(fresh_of(old(self)@, now), peer, identity),
            results@.map_values(|r: RawBlobResult| r@) == bodies(
                mail_for(fresh_of(old(self)@, now), peer, identity),
            ),
    {
        self.expire(now);
        let ghost all = self@;
        let ghost mine = |m: MessageView| m.is_for(peer, identity);
        let ghost others = |m: MessageView| !m.is_for(peer, identity);
        let ghost mut seen: int = 0;
        let mut results: Vec<RawBlobResult> = Vec::new();
        let mut i: usize = 0;
        proof {
            reveal(Seq::filter);
            assert(all.take(0).filter(others) =~= Seq::<MessageView>::empty());
            assert(all.take(0).filter(mine) =~= Seq::<MessageView>::empty());
            assert(self@ =~= all.take(0).filter(others) + all.skip(0));
            assert(results@.map_values(|r: RawBlobResult| r@) =~= bodies(all.take(0).filter(mine)));
        }
        while i < self.pending.len()
            invariant
                0 <= seen <= all.len(),
                mine == (|m: MessageView| m.is_for(peer, identity)),
                others == (|m: MessageView| !m.is_for(peer, identity)),
                i == all.take(seen).filter(others).len(),
                self@ == all.take(seen).filter(others) + all.skip(seen),
                self@.len() == self.pending@.len(),
                results@.map_values(|r: RawBlobResult| r@) == bodies(all.take(seen).filter(mine)),
            decreases all.len() - seen,
        {
            let ghost kept = all.take(seen).filter(others);
            let ghost taken = all.take(seen).filter(mine);
            proof {
                assert(self@[i as int] == all[seen]);
                assert(all.take(seen).push(all[seen]) =~= all.take(seen + 1));
                lemma_filter_push(all.take(seen), all[seen], others);
                lemma_filter_push(all.take(seen), all[seen], mine);
            }
            if self.pending[i].is_for(peer, identity) {
                let ghost before = self@;
                let ghost had = results@;
                let message: PendingMessage = self.pending.remove(i);
                results.push(RawBlobResult { body: message.body });
                proof {
                    assert(self@ =~= before.remove(i as int));
                    assert(self@ =~= kept + all.skip(seen + 1));
                    assert(message@ == all[seen]);
                    assert(results@.map_values(|r: RawBlobResult| r@) =~= had.map_values(
                        |r: RawBlobResult| r@,
                    ).push(all[seen].body));
                    assert(bodies(taken.push(all[seen])) =~= bodies(taken).push(all[seen].body));
                }
            } else {
                proof {
                    assert(self@ =~= kept.push(all[seen]) + all.skip(seen + 1));
                }
                i = i + 1;
            }
            proof {
                seen = seen + 1;
            }
        }
        proof {
            assert(all.take(seen) =~= all);
            assert(all.take(seen).filter(others) + all.skip(seen) =~= all.filter(others));
            lemma_filter_addressed(all, others);
        }
        results
    }
}

/// Serves the mailbox operations. Every other operation finds an empty mailbox.
pub struct MessagingHandler;

/// The waiting messages after an operation.
pub open spec fn mailbox_after(
    messages: Seq<MessageView>,
    operation_id: u8,
    peer: Option<IpAddr>,
    identity: Option<u64>,
    raw: Seq<u8>,
    now: u64,
) -> Seq<MessageView> {
    if operation_id == INSTANT_MESSAGE_SEND {
        fresh_of(messages, now).push(sent_message(peer, raw, now))
    } else if operation_id == MAILBOX_POLL {
        mail_but_for(fresh_of(messages, now), peer, identity)
    } else {
        messages
    }
}

/// The bodies that an operation delivers.
pub open spec fn delivered(
    messages: Seq<MessageView>,
    operation_id: u8,
    peer: Option<IpAddr>,
    identity: Option<u64>,
    now: u64,
) -> Seq<Seq<u8>> {
    if operation_id == MAILBOX_POLL {
        bodies(mail_for(fresh_of(messages, now), peer, identity))
    } else {
        Seq::empty()
    }
}

impl MessagingHandler {
    pub fn new() -> (handler: MessagingHandler)
        ensures
            handler == MessagingHandler,
    {
        MessagingHandler
    }

    /// Handles an operation at a given time.
    pub fn handle_message(
        &self,
        session: &BdSession,
        message: BdMessage,
        pids: &AddrMap<u64>,
        now: u64,
        mailbox: &mut Mailbox,
    ) -> (reply: Result<TaskReply<RawBlobResult>, BdReadError>)
        requires
            message.reader.wf(),
            pids.wf(),
            old(mailbox).wf(),
        ensures
            final(mailbox).wf(),
            match next_u8(message.reader.rest()) {
                None => {
                    &&& reply matches Err(e)
                    &&& e == read_error(message.reader.rest())
                    &&& final(mailbox)@ == old(mailbox)@
                },
                Some(operation_id) => {
                    &&& reply matches Ok(reply)
                    &&& reply.task_id == operation_id
                    &&& reply.error_code == BdErrorCode::NoError
                    &&& reply.results@.map_values(|r: RawBlobResult| r@) == delivered(
                        old(mailbox)@,
                        operation_id,
                        session.addr(),
                        identity_at(pids@, session.addr()),
                        now,
                    )
                    &&& final(mailbox)@ == mailbox_after(
                        old(mailbox)@,
                        operation_id,
                        session.addr(),
                        identity_at(pids@, session.addr()),
                        message.reader.raw(),
                        now,
                    )
                },
            },
    {
        let mut reader = message.reader;
        let operation_id: u8 = match reader.read_u8() {
            Ok(operation_id) => operation_id,
            Err(e) => {
                return Err(e);
            },
        };
        let peer: Option<IpAddr> = session.peer_ip();
        let mut results: Vec<RawBlobResult> = Vec::new();
        proof {
            assert(results@.map_values(|r: RawBlobResult| r@) =~= Seq::<Seq<u8>>::empty());
        }
        if operation_id == INSTANT_MESSAGE_SEND {
            mailbox.send(peer, slice_to_vec(reader.get_buffer()), now);
        } else if operation_id == MAILBOX_POLL {
            let identity: Option<u64> = match recall_peer(pids, peer) {
                Some(pid) => Some(dwid(pid)),
                None => None,
            };
            results = mailbox.collect(peer, identity, now);
        }
        Ok(TaskReply::with_results(operation_id, results))
    }
}

/// What a filter leaves of the messages is kept for the same recipients.
pub proof fn lemma_filter_addressed(messages: Seq<MessageView>, pred: spec_fn(MessageView) -> bool)
    requires
        addressed(messages),
    ensures
        addressed(messages.filter(pred)),
{
    lemma_filter_members(messages, pred);
    let kept = messages.filter(pred);
    assert forall|i: int| 0 <= i < kept.len() implies (#[trigger] kept[i]).recipient_xuids
        == recipients_in(kept[i].body) by {
        let k = choose|k: int| 0 <= k < messages.len() && messages[k] == kept[i];
        assert(messages[k].recipient_xuids == recipients_in(messages[k].body));
    }
}

/// A client that looks into the mailbox is delivered, in the order they were sent,
/// the bodies of just those messages that have not waited for too long and that
/// name it; those that name others stay, in their order.
pub proof fn law_delivery_goes_by_the_body(
    messages: Seq<MessageView>,
    pids: Map<IpAddr, u64>,
    peer: Option<IpAddr>,
    pid: u64,
    raw: Seq<u8>,
    now: u64,
)
    requires
        addressed(messages),
        forall|i: int|
            0 <= i < messages.len() ==> recipients_in((#[trigger] messages[i]).body).len() > 0,
        pid_of(pids, peer) == Some(pid),
    ensures
        delivered(messages, MAILBOX_POLL, peer, identity_at(pids, peer), now) == bodies(
            messages.filter(
                |m: MessageView| m.fresh(now) && recipients_in(m.body).contains(dwid_of(pid)),
            ),
        ),
        mailbox_after(messages, MAILBOX_POLL, peer, identity_at(pids, peer), raw, now)
            == messages.filter(
            |m: MessageView| m.fresh(now) && !recipients_in(m.body).contains(dwid_of(pid)),
        ),
{
    let identity = identity_at(pids, peer);
    let is_fresh = |m: MessageView| m.fresh(now);
    lemma_filter_twice(
        messages,
        is_fresh,
        |m: MessageView| m.is_for(peer, identity),
        |m: MessageView| m.fresh(now) && recipients_in(m.body).contains(dwid_of(pid)),
    );
    lemma_filter_twice(
        messages,
        is_fresh,
        |m: MessageView| !m.is_for(peer, identity),
        |m: MessageView| m.fresh(now) && !recipients_in(m.body).contains(dwid_of(pid)),
    );
}

/// Looking for recipients from an earlier place on finds no fewer of them.
pub proof fn lemma_xuids_reach(body: Seq<u8>, from: int, i: int)
    requires
        0 <= from <= i,
        xuid_at(body, i),
    ensures
        xuids_from(body, from).contains(le_value(body.subrange(i + 1, i + 9)) as u64),
    decreases i - from,
{
    let x = le_value(body.subrange(i + 1, i + 9)) as u64;
    let found = xuids_from(body, from);
    if from == i {
        assert(found[0] == x);
    } else {
        lemma_xuids_reach(body, from + 1, i);
        let tail = xuids_from(body, from + 1);
        let k = choose|k: int| 0 <= k < tail.len() && tail[k] == x;
        if xuid_at(body, from) {
            assert(found[k + 1] == x);
        } else {
            assert(found[k] == x);
        }
    }
}

/// A client that is named anywhere in a message by its storage identity is one of
/// its recipients.
pub proof fn law_named_client_is_recipient(body: Seq<u8>, i: int, pid: u64)
    requires
        pid < 0x1_0000_0000,
        0 <= i <= body.len() - 9,
        body[i] == XUID_TAG,
        body.subrange(i + 1, i + 9) == le_bytes(dwid_of(pid) as nat, 8),
    ensures
        recipients_in(body).contains(dwid_of(pid)),
{
    let id = dwid_of(pid) as nat;
    law_dwid_holds_pid(pid);
    lemma_radix_powers();
    law_le_bytes_read_back(id, 8);
    let bytes = body.subrange(i + 1, i + 9);
    reveal_with_fuel(le_bytes, 9);
    lemma_le_bytes_len(id, 8);
    let high = id / 256 / 256 / 256 / 256;
    assert(high == 0xBD00);
    assert(bytes[4] == (high % 256) as u8);
    assert(bytes[5] == (high / 256 % 256) as u8);
    assert(bytes[6] == (high / 256 / 256 % 256) as u8);
    assert(bytes[7] == (high / 256 / 256 / 256 % 256) as u8);
    assert(body[i + 5] == bytes[4] && body[i + 6] == bytes[5] && body[i + 7] == bytes[6] && body[i
        + 8] == bytes[7]);
    assert(xuid_at(body, i));
    lemma_xuids_reach(body, 0, i);
}

/// A sent message reaches whoever it names, if they look in time, and is then gone.
pub proof fn law_sent_is_delivered(
    messages: Seq<MessageView>,
    sender: Option<IpAddr>,
    body: Seq<u8>,
    sent_at: u64,
    recipient: Option<IpAddr>,
    id: u64,
    looked_at: u64,
)
    requires
        recipients_in(body).contains(id),
        elapsed(sent_at, looked_at) < MESSAGE_TTL,
    ensures
        ({
            let waiting = mailbox_after(
                messages,
                INSTANT_MESSAGE_SEND,
                sender,
                None,
                body,
                sent_at,
            );
            &&& delivered(waiting, MAILBOX_POLL, recipient, Some(id), looked_at).contains(body)
            &&& !mailbox_after(
                waiting,
                MAILBOX_POLL,
                recipient,
                Some(id),
                Seq::empty(),
                looked_at,
            ).contains(sent_message(sender, body, sent_at))
        }),
{
    let m = sent_message(sender, body, sent_at);
    let waiting = fresh_of(messages, sent_at).push(m);
    let n = waiting.len() - 1;
    assert(waiting[n] == m);
    let is_fresh = |x: MessageView| x.fresh(looked_at);
    let mine = |x: MessageView| x.is_for(recipient, Some(id));
    let others = |x: MessageView| !x.is_for(recipient, Some(id));
    assert(is_fresh(waiting[n]));
    lemma_filter_members(waiting, is_fresh);
    let current = fresh_of(waiting, looked_at);
    let k = choose|k: int| 0 <= k < current.len() && current[k] == m;
    assert(mine(current[k]));
    lemma_filter_members(current, mine);
    lemma_filter_members(current, others);
    let mail = mail_for(current, recipient, Some(id));
    let j = choose|j: int| 0 <= j < mail.len() && mail[j] == m;
    assert(bodies(mail)[j] == body);
}

/// No message is delivered twice: a second look finds nothing of what the first
/// one left behind.
pub proof fn law_delivered_once(
    messages: Seq<MessageView>,
    peer: Option<IpAddr>,
    identity: Option<u64>,
    raw: Seq<u8>,
    now: u64,
    later: u64,
)
    ensures
        delivered(
            mailbox_after(messages, MAILBOX_POLL, peer, identity, raw, now),
            MAILBOX_POLL,
            peer,
            identity,
            later,
        ).len() == 0,
{
    let left = mail_but_for(fresh_of(messages, now), peer, identity);
    lemma_filter_members(
        fresh_of(messages, now),
        |m: MessageView| !m.is_for(peer, identity),
    );
    lemma_filter_members(left, |m: MessageView| m.fresh(later));
    let current = fresh_of(left, later);
    lemma_filter_members(current, |m: MessageView| m.is_for(peer, identity));
    let mail = mail_for(current, peer, identity);
    if mail.len() > 0 {
        let m = mail[0];
        let k = choose|k: int| 0 <= k < current.len() && current[k] == m;
        let l = choose|l: int| 0 <= l < left.len() && left[l] == current[k];
        assert(!left[l].is_for(peer, identity));
    }
}

/// A message that is for somebody else and has not waited for too long stays.
pub proof fn law_mail_of_others_stays(
    messages: Seq<MessageView>,
    peer: Option<IpAddr>,
    identity: Option<u64>,
    raw: Seq<u8>,
    now: u64,
    i: int,
)
    requires
        0 <= i < messages.len(),
        messages[i].fresh(now),
        !messages[i].is_for(peer, identity),
    ensures
        mailbox_after(messages, MAILBOX_POLL, peer, identity, raw, now).contains(messages[i]),
{
    let is_fresh = |m: MessageView| m.fresh(now);
    let others = |m: MessageView| !m.is_for(peer, identity);
    assert(is_fresh(messages[i]));
    lemma_filter_members(messages, is_fresh);
    let current = fresh_of(messages, now);
    let k = choose|k: int| 0 <= k < current.len() && current[k] == messages[i];
    assert(others(current[k]));
    lemma_filter_members(current, others);
}

/// Whatever is delivered has been sent recently enough, and to the one who looks.
pub proof fn law_only_own_fresh_mail(
    messages: Seq<MessageView>,
    peer: Option<IpAddr>,
    identity: Option<u64>,
    now: u64,
    j: int,
)
    requires
        0 <= j < delivered(messages, MAILBOX_POLL, peer, identity, now).len(),
    ensures
        exists|i: int|
            0 <= i < messages.len() && (#[trigger] messages[i]).body == delivered(
                messages,
                MAILBOX_POLL,
                peer,
                identity,
                now,
            )[j] && messages[i].fresh(now) && messages[i].is_for(peer, identity),
{
    let current = fresh_of(messages, now);
    let mail = mail_for(current, peer, identity);
    lemma_filter_members(messages, |m: MessageView| m.fresh(now));
    lemma_filter_members(current, |m: MessageView| m.is_for(peer, identity));
    assert(current.contains(mail[j]));
    let k = choose|k: int| 0 <= k < current.len() && current[k] == mail[j];
    assert(messages.contains(current[k]));
}

/// Nobody gets back a message of their own that names nobody.
pub proof fn law_unaddressed_not_to_sender(
    sender: Option<IpAddr>,
    body: Seq<u8>,
    sent_at: u64,
    identity: Option<u64>,
)
    requires
        recipients_in(body).len() == 0,
    ensures
        !sent_message(sender, body, sent_at).is_for(sender, identity),
{
}

} // verus!
