//! What becomes of a message, in terms of its bytes and of who looks when.

use super::messaging_service::{
    addressed, bodies, delivered, fresh_of, identity_at, lemma_filter_addressed, lemma_xuids_reach,
    mail_but_for, mailbox_after, recipients_in, sent_message, xuid_at, xuids_from,
    MessageView,
};
use crate::octets::le_value;
use crate::peer::IpAddr;
use crate::sequences::{lemma_filter_members, lemma_filter_twice};
use vstd::prelude::*;

verus! {

/// Whether a message has waited for less than two minutes.
pub open spec fn in_time(m: MessageView, now: u64) -> bool {
    now - m.queued_at < 120_000_000_000
}

/// Whether a body names somebody at a place: the byte 0x0A, then four bytes of the
/// principal id, the least significant first, then 00 BD 00 00.
pub open spec fn names_at(body: Seq<u8>, i: int) -> bool {
    &&& 0 <= i && i + 8 < body.len()
    &&& body[i] == 0x0A
    &&& body[i + 5] == 0 && body[i + 6] == 0xBD && body[i + 7] == 0 && body[i + 8] == 0
}

/// Whether a body names the identity that has 0xBD00 above the four bytes.
pub open spec fn names_client(body: Seq<u8>, id: u64) -> bool {
    exists|i: int| #[trigger]
        names_at(body, i) && id == 0xBD00_0000_0000 + body[i + 1] + 0x100 * body[i + 2] + 0x1_0000
            * body[i + 3] + 0x100_0000 * body[i + 4]
}

/// Whether a body names nobody.
pub open spec fn names_nobody(body: Seq<u8>) -> bool {
    forall|i: int| !#[trigger] names_at(body, i)
}

/// Whether a message is meant for a client, by its body: one that names nobody is
/// meant for all but the sender, any other for those that it names.
pub open spec fn meant_for(m: MessageView, pids: Map<IpAddr, u64>, peer: Option<IpAddr>) -> bool {
    if names_nobody(m.body) {
        m.sender_ip != peer
    } else {
        &&& peer is Some
        &&& pids.contains_key(peer->Some_0)
        &&& names_client(m.body, 0xBD00_0000_0000u64 | pids[peer->Some_0])
    }
}

/// The number that eight bytes spell.
proof fn lemma_eight_bytes(s: Seq<u8>)
    requires
        s.len() == 8,
    ensures
        le_value(s) == s[0] + 0x100 * s[1] + 0x1_0000 * s[2] + 0x100_0000 * s[3] + 0x1_0000_0000 * (
        s[4] + 0x100 * s[5] + 0x1_0000 * s[6] + 0x100_0000 * s[7]),
{
    reveal_with_fuel(le_value, 9);
    let t1 = s.drop_first();
    let t2 = t1.drop_first();
    let t3 = t2.drop_first();
    let t4 = t3.drop_first();
    let t5 = t4.drop_first();
    let t6 = t5.drop_first();
    let t7 = t6.drop_first();
    assert(t7.drop_first() =~= Seq::<u8>::empty());
    assert(t1[0] == s[1] && t2[0] == s[2] && t3[0] == s[3] && t4[0] == s[4]);
    assert(t5[0] == s[5] && t6[0] == s[6] && t7[0] == s[7]);
}

/// What is found at a place that names somebody.
proof fn lemma_name_at(body: Seq<u8>, i: int)
    requires
        names_at(body, i),
    ensures
        xuid_at(body, i),
        le_value(body.subrange(i + 1, i + 9)) == 0xBD00_0000_0000 + body[i + 1] + 0x100 * body[i
            + 2] + 0x1_0000 * body[i + 3] + 0x100_0000 * body[i + 4],
        le_value(body.subrange(i + 1, i + 9)) <= u64::MAX,
{
    lemma_eight_bytes(body.subrange(i + 1, i + 9));
}

/// Every recipient stands at some place.
proof fn lemma_recipient_stands(body: Seq<u8>, from: int, k: int)
    requires
        0 <= from,
        0 <= k < xuids_from(body, from).len(),
    ensures
        names_client(body, xuids_from(body, from)[k]),
    decreases body.len() - from,
{
    if xuid_at(body, from) {
        assert(names_at(body, from));
        lemma_name_at(body, from);
        if k > 0 {
            lemma_recipient_stands(body, from + 1, k - 1);
            assert(xuids_from(body, from)[k] == xuids_from(body, from + 1)[k - 1]);
        }
    } else {
        lemma_recipient_stands(body, from + 1, k);
    }
}

/// The recipients of a message are just those that its body names.
pub proof fn law_recipients_by_bytes(body: Seq<u8>, id: u64)
    ensures
        recipients_in(body).contains(id) <==> names_client(body, id),
        recipients_in(body).len() == 0 <==> names_nobody(body),
{
    let found = recipients_in(body);
    if found.contains(id) {
        let k = choose|k: int| 0 <= k < found.len() && found[k] == id;
        lemma_recipient_stands(body, 0, k);
    }
    if names_client(body, id) {
        let i = choose|i: int| #[trigger]
            names_at(body, i) && id == 0xBD00_0000_0000 + body[i + 1] + 0x100 * body[i + 2]
                + 0x1_0000 * body[i + 3] + 0x100_0000 * body[i + 4];
        lemma_name_at(body, i);
        lemma_xuids_reach(body, 0, i);
    }
    if found.len() > 0 {
        lemma_recipient_stands(body, 0, 0);
        assert(!names_nobody(body));
    }
    if !names_nobody(body) {
        let i = choose|i: int| #[trigger] names_at(body, i);
        lemma_name_at(body, i);
        lemma_xuids_reach(body, 0, i);
    }
}

/// For whom a message is kept is for whom it is meant.
proof fn lemma_is_for(m: MessageView, pids: Map<IpAddr, u64>, peer: Option<IpAddr>)
    requires
        m.recipient_xuids == recipients_in(m.body),
    ensures
        m.is_for(peer, identity_at(pids, peer)) == meant_for(m, pids, peer),
{
    let id = identity_at(pids, peer);
    law_recipients_by_bytes(
        m.body,
        if id is Some {
            id->Some_0
        } else {
            0
        },
    );
}

/// Sending keeps every message that has not waited for two minutes, those for the
/// sender included, in their order, and puts the new one behind them.
pub proof fn law_sending_keeps_mail(
    messages: Seq<MessageView>,
    peer: Option<IpAddr>,
    identity: Option<u64>,
    raw: Seq<u8>,
    now: u64,
)
    ensures
        ({
            let after = mailbox_after(messages, 18, peer, identity, raw, now);
            let sent = after.last();
            &&& after.len() > 0
            &&& after.drop_last() == messages.filter(|m: MessageView| in_time(m, now))
            &&& sent.sender_ip == peer
            &&& sent.body == raw
            &&& sent.queued_at == now
            &&& sent.recipient_xuids == recipients_in(raw)
            &&& delivered(messages, 18, peer, identity, now).len() == 0
            &&& forall|i: int|
                0 <= i < messages.len() && in_time(#[trigger] messages[i], now) ==> after.contains(
                    messages[i],
                )
        }),
{
    let after = mailbox_after(messages, 18, peer, identity, raw, now);
    let all = |m: MessageView| true;
    let timely = |m: MessageView| in_time(m, now);
    lemma_filter_twice(messages, |m: MessageView| m.fresh(now), all, timely);
    lemma_filter_all(fresh_of(messages, now));
    assert(after.drop_last() =~= messages.filter(timely));
    lemma_filter_members(messages, timely);
    assert forall|i: int|
        0 <= i < messages.len() && in_time(#[trigger] messages[i], now) implies after.contains(
        messages[i],
    ) by {
        assert(timely(messages[i]));
        let k = choose|k: int|
            0 <= k < messages.filter(timely).len() && messages.filter(timely)[k] == messages[i];
        assert(after.drop_last()[k] == after[k]);
    }
}

/// A filter that all items pass leaves all of them.
proof fn lemma_filter_all(messages: Seq<MessageView>)
    ensures
        messages.filter(|m: MessageView| true) == messages,
    decreases messages.len(),
{
    reveal(Seq::filter);
    if messages.len() > 0 {
        lemma_filter_all(messages.drop_last());
        assert(messages =~= messages.drop_last().push(messages.last()));
    } else {
        assert(messages.filter(|m: MessageView| true) =~= messages);
    }
}

/// A look delivers, in the order they were sent, the bodies of the messages that
/// are meant for the client and have not waited for two minutes. Those that are
/// meant for others stay, in their order.
pub proof fn law_look_delivers_by_the_bytes(
    messages: Seq<MessageView>,
    pids: Map<IpAddr, u64>,
    peer: Option<IpAddr>,
    raw: Seq<u8>,
    now: u64,
)
    requires
        addressed(messages),
    ensures
        delivered(messages, 1, peer, identity_at(pids, peer), now) == messages.filter(
            |m: MessageView| in_time(m, now) && meant_for(m, pids, peer),
        ).map_values(|m: MessageView| m.body),
        mailbox_after(messages, 1, peer, identity_at(pids, peer), raw, now) == messages.filter(
            |m: MessageView| in_time(m, now) && !meant_for(m, pids, peer),
        ),
{
    let identity = identity_at(pids, peer);
    let mine = |m: MessageView| m.is_for(peer, identity);
    let others = |m: MessageView| !m.is_for(peer, identity);
    let due = |m: MessageView| in_time(m, now) && meant_for(m, pids, peer);
    let kept = |m: MessageView| in_time(m, now) && !meant_for(m, pids, peer);
    let is_fresh = |m: MessageView| m.fresh(now);
    assert forall|i: int| 0 <= i < messages.len() implies due(#[trigger] messages[i]) == (is_fresh(
        messages[i],
    ) && mine(messages[i])) && kept(messages[i]) == (is_fresh(messages[i]) && others(
        messages[i],
    )) by {
        lemma_is_for(messages[i], pids, peer);
    }
    lemma_filter_twice(messages, is_fresh, mine, due);
    lemma_filter_twice(messages, is_fresh, others, kept);
    assert(bodies(messages.filter(due)) =~= messages.filter(due).map_values(
        |m: MessageView| m.body,
    ));
}

/// An operation that neither sends nor looks changes nothing and delivers nothing.
pub proof fn law_other_operations_do_nothing(
    messages: Seq<MessageView>,
    operation_id: u8,
    peer: Option<IpAddr>,
    identity: Option<u64>,
    raw: Seq<u8>,
    now: u64,
)
    requires
        operation_id != 18,
        operation_id != 1,
    ensures
        mailbox_after(messages, operation_id, peer, identity, raw, now) == messages,
        delivered(messages, operation_id, peer, identity, now).len() == 0,
{
}

/// An operation of a client, with who is known at the time.
pub ghost struct Operation {
    pub operation_id: u8,
    pub peer: Option<IpAddr>,
    pub pids: Map<IpAddr, u64>,
    pub raw: Seq<u8>,
    pub now: u64,
}

/// The waiting messages after operations, one after the other.
pub open spec fn mailbox_after_all(
    messages: Seq<MessageView>,
    operations: Seq<Operation>,
) -> Seq<MessageView>
    decreases operations.len(),
{
    if operations.len() == 0 {
        messages
    } else {
        let op = operations.last();
        mailbox_after(
            mailbox_after_all(messages, operations.drop_last()),
            op.operation_id,
            op.peer,
            identity_at(op.pids, op.peer),
            op.raw,
            op.now,
        )
    }
}

/// Messages are kept for those that their bodies name, whatever happens.
pub proof fn law_operations_keep_addressed(messages: Seq<MessageView>, operations: Seq<Operation>)
    requires
        addressed(messages),
    ensures
        addressed(mailbox_after_all(messages, operations)),
    decreases operations.len(),
{
    if operations.len() > 0 {
        let op = operations.last();
        let before = mailbox_after_all(messages, operations.drop_last());
        law_operations_keep_addressed(messages, operations.drop_last());
        lemma_filter_addressed(before, |m: MessageView| m.fresh(op.now));
        let identity = identity_at(op.pids, op.peer);
        lemma_filter_addressed(
            fresh_of(before, op.now),
            |m: MessageView| !m.is_for(op.peer, identity),
        );
        assert(mail_but_for(fresh_of(before, op.now), op.peer, identity) == fresh_of(
            before,
            op.now,
        ).filter(|m: MessageView| !m.is_for(op.peer, identity)));
    }
}

/// A message waits through everything that happens within two minutes, but a look
/// by somebody it is meant for: sends, also by its recipients, looks of others, and
/// other operations.
pub proof fn law_message_waits(messages: Seq<MessageView>, operations: Seq<Operation>, i: int)
    requires
        addressed(messages),
        0 <= i < messages.len(),
        forall|k: int|
            0 <= k < operations.len() ==> in_time(messages[i], (#[trigger] operations[k]).now) && !(
            operations[k].operation_id == 1 && meant_for(
                messages[i],
                operations[k].pids,
                operations[k].peer,
            )),
    ensures
        mailbox_after_all(messages, operations).contains(messages[i]),
    decreases operations.len(),
{
    let m = messages[i];
    if operations.len() > 0 {
        let op = operations.last();
        assert(operations[operations.len() - 1] == op);
        let init = operations.drop_last();
        assert forall|k: int| 0 <= k < init.len() implies in_time(m, (#[trigger] init[k]).now) && !(
        init[k].operation_id == 1 && meant_for(m, init[k].pids, init[k].peer)) by {
            assert(init[k] == operations[k]);
        }
        law_message_waits(messages, init, i);
        law_operations_keep_addressed(messages, init);
        let before = mailbox_after_all(messages, init);
        let k = choose|k: int| 0 <= k < before.len() && before[k] == m;
        let identity = identity_at(op.pids, op.peer);
        if op.operation_id == 18 {
            law_sending_keeps_mail(before, op.peer, identity, op.raw, op.now);
            assert(in_time(before[k], op.now));
        } else if op.operation_id == 1 {
            law_look_delivers_by_the_bytes(before, op.pids, op.peer, op.raw, op.now);
            let kept = |x: MessageView| in_time(x, op.now) && !meant_for(x, op.pids, op.peer);
            assert(kept(before[k]));
            lemma_filter_members(before, kept);
        } else {
            law_other_operations_do_nothing(
                before,
                op.operation_id,
                op.peer,
                identity,
                op.raw,
                op.now,
            );
        }
    }
}

/// A message is delivered at the first look, within two minutes, of a client that it
/// is meant for, whatever others do in between and whatever the client itself sends.
pub proof fn law_first_look_delivers(
    messages: Seq<MessageView>,
    sender: Option<IpAddr>,
    sender_id: Option<u64>,
    body: Seq<u8>,
    sent_at: u64,
    between: Seq<Operation>,
    peer: Option<IpAddr>,
    pids: Map<IpAddr, u64>,
    looked_at: u64,
)
    requires
        addressed(messages),
        looked_at - sent_at < 120_000_000_000,
        !names_nobody(body),
        peer is Some,
        pids.contains_key(peer->Some_0),
        names_client(body, 0xBD00_0000_0000u64 | pids[peer->Some_0]),
        forall|k: int|
            0 <= k < between.len() ==> (#[trigger] between[k]).now - sent_at < 120_000_000_000 && !(
            between[k].operation_id == 1 && between[k].peer is Some
                && between[k].pids.contains_key(between[k].peer->Some_0) && names_client(
                body,
                0xBD00_0000_0000u64 | between[k].pids[between[k].peer->Some_0],
            )),
    ensures
        ({
            let sent = mailbox_after(messages, 18, sender, sender_id, body, sent_at);
            let waiting = mailbox_after_all(sent, between);
            delivered(waiting, 1, peer, identity_at(pids, peer), looked_at).contains(body)
        }),
{
    let sent = mailbox_after(messages, 18, sender, sender_id, body, sent_at);
    law_sending_keeps_mail(messages, sender, sender_id, body, sent_at);
    lemma_filter_addressed(messages, |m: MessageView| m.fresh(sent_at));
    let i = sent.len() - 1;
    assert(addressed(sent));
    assert(sent[i] == sent_message(sender, body, sent_at));
    law_message_waits(sent, between, i);
    law_operations_keep_addressed(sent, between);
    let waiting = mailbox_after_all(sent, between);
    let k = choose|k: int| 0 <= k < waiting.len() && waiting[k] == sent[i];
    law_look_delivers_by_the_bytes(waiting, pids, peer, Seq::empty(), looked_at);
    let due = |m: MessageView| in_time(m, looked_at) && meant_for(m, pids, peer);
    assert(due(waiting[k]));
    lemma_filter_members(waiting, due);
    let mail = waiting.filter(due);
    let j = choose|j: int| 0 <= j < mail.len() && mail[j] == sent[i];
    assert(mail.map_values(|m: MessageView| m.body)[j] == body);
}

/// Whatever a client of unknown identity, or anybody else who is not meant, looks
/// for, it gets no body of a message that is meant for others only; and nothing that
/// has waited for two minutes.
pub proof fn law_nothing_else_is_delivered(
    messages: Seq<MessageView>,
    pids: Map<IpAddr, u64>,
    peer: Option<IpAddr>,
    now: u64,
    body: Seq<u8>,
)
    requires
        addressed(messages),
        forall|i: int|
            0 <= i < messages.len() && (#[trigger] messages[i]).body == body ==> !in_time(
                messages[i],
                now,
            ) || !meant_for(messages[i], pids, peer),
    ensures
        !delivered(messages, 1, peer, identity_at(pids, peer), now).contains(body),
{
    law_look_delivers_by_the_bytes(messages, pids, peer, Seq::empty(), now);
    let due = |m: MessageView| in_time(m, now) && meant_for(m, pids, peer);
    lemma_filter_members(messages, due);
    let mail = messages.filter(due);
    let out = delivered(messages, 1, peer, identity_at(pids, peer), now);
    if out.contains(body) {
        let j = choose|j: int| 0 <= j < out.len() && out[j] == body;
        assert(mail[j].body == body);
        assert(messages.contains(mail[j]));
        let i = choose|i: int| 0 <= i < messages.len() && messages[i] == mail[j];
        assert(due(mail[j]));
    }
}

} // verus!
