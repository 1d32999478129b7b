//! The channels between the game loop and the network tasks of a session,
//! and the polls that drain them, decide with [`crate::poll`], and send.
//!
//! What a channel holds depends on the network tasks that feed it, so the
//! wrappers here promise nothing of what they receive: the polls state what
//! holds whatever came back.
use crate::game_state::{lemma_order_grown_keep, order_grown, GameState, PollResult, SessionView};
use crate::messages::{
    PlayerId, ReliableClientMessage, ReliableServerMessage, ReliableServerMessageView,
    UnreliableClientMessage, UnreliableServerMessage, UnreliableServerMessageView,
};
use crate::poll::{
    extend_ids, host_of, inbox_ids, inbox_views, joined_ids, left_ids, ops_result, position_report,
    remote_moves, server_poll_outcome, spawn_ops, unreliable_server_views, ClientPoll, PlayerInbox,
    PlayerInboxView, Received, ServerPoll,
};
use async_channel::{Receiver, Sender, TryRecvError};
use std::sync::Arc;
use vstd::prelude::*;

verus! {

#[verifier::external_type_specification]
#[verifier::external_body]
#[verifier::reject_recursive_types(T)]
pub struct ExReceiver<T>(Receiver<T>);

#[verifier::external_type_specification]
#[verifier::external_body]
#[verifier::reject_recursive_types(T)]
pub struct ExSender<T>(Sender<T>);

#[verifier::external_type_specification]
#[verifier::external_body]
#[verifier::reject_recursive_types(T)]
pub struct ExWatchSender<T>(tokio::sync::watch::Sender<T>);

/// `async_channel::Receiver::len`: how many messages wait in the channel
/// now. Other tasks may add or take messages at any time, so nothing is
/// promised of the number.
#[verifier::external_body]
fn waiting_count<T>(receiver: &Receiver<T>) -> usize {
    receiver.len()
}

/// `async_channel::Receiver::try_recv`: takes the next waiting message, if
/// any. What comes back depends on the tasks that feed the channel, so
/// nothing is promised of it.
#[verifier::external_body]
fn receive_now<T>(receiver: &Receiver<T>) -> Received<T> {
    match receiver.try_recv() {
        Ok(message) => Received::Message(message),
        Err(TryRecvError::Empty) => Received::Empty,
        Err(TryRecvError::Closed) => Received::Closed,
    }
}

/// `async_channel::Sender::try_send`: hands `message` to the channel unless
/// it is full or closed; a message that cannot be handed over is dropped.
#[verifier::external_body]
fn send_now<T>(sender: &Sender<T>, message: T) {
    let _ = sender.try_send(message);
}

/// `tokio::sync::watch::Sender::send` with `true`: tells the tasks of a
/// connection to stop.
#[verifier::external_body]
fn signal_cancel(sender: &tokio::sync::watch::Sender<bool>) {
    let _ = sender.send(true);
}

/// The channels that connect the game loop with the tasks serving one
/// connected player.
#[derive(Debug)]
pub struct MessageChannels {
    /// Set to `true` to stop the player's tasks.
    pub cancel_sender: tokio::sync::watch::Sender<bool>,
    /// Reliable messages from the player.
    pub reliable_receiver: Receiver<ReliableClientMessage>,
    /// Reliable messages to the player.
    pub reliable_sender: Sender<ReliableServerMessage>,
    /// Position updates from the player.
    pub unreliable_receiver: Receiver<UnreliableClientMessage>,
    /// Position updates to the player.
    pub unreliable_sender: Sender<UnreliableServerMessage>,
}

/// The ids of the connected players, in order. Each player's channels are
/// shared with the connection map, hence the `Arc`.
pub open spec fn connected_ids(connected: Seq<(PlayerId, Arc<MessageChannels>)>) -> Seq<Seq<char>> {
    connected.map_values(|c: (PlayerId, Arc<MessageChannels>)| c.0@)
}

/// The first position of `id` in `ids`, if it is there.
pub open spec fn first_index(ids: Seq<Seq<char>>, id: Seq<char>) -> Option<int>
    decreases ids.len(),
{
    if ids.len() == 0 {
        None
    } else if ids[0] == id {
        Some(0)
    } else {
        match first_index(ids.drop_first(), id) {
            Some(i) => Some(i + 1),
            None => None,
        }
    }
}

proof fn lemma_first_index(ids: Seq<Seq<char>>, id: Seq<char>)
    ensures
        first_index(ids, id) matches Some(i) ==> 0 <= i < ids.len() && ids[i] == id && forall|j: int|
            0 <= j < i ==> #[trigger] ids[j] != id,
        first_index(ids, id) is None ==> forall|j: int| 0 <= j < ids.len() ==> #[trigger] ids[j] != id,
    decreases ids.len(),
{
    if ids.len() > 0 && ids[0] != id {
        lemma_first_index(ids.drop_first(), id);
        assert forall|j: int| 1 <= j < ids.len() implies #[trigger] ids[j] == ids.drop_first()[j - 1] by {}
    }
}

/// The first position of `id` among the connected players, if it is there.
fn position_of(connected: &Vec<(PlayerId, Arc<MessageChannels>)>, id: &PlayerId) -> (at: Option<usize>)
    ensures
        at matches Some(i) ==> i < connected@.len() && connected@[i as int].0@ == id@
            && forall|j: int| 0 <= j < i ==> (#[trigger] connected@[j]).0@ != id@,
        at is None ==> forall|j: int| 0 <= j < connected@.len() ==> (#[trigger] connected@[j]).0@ != id@,
        first_index(connected_ids(connected@), id@) == match at {
            Some(i) => Some(i as int),
            None => None::<int>,
        },
{
    proof {
        lemma_first_index(connected_ids(connected@), id@);
    }
    let mut i: usize = 0;
    while i < connected.len()
        invariant
            i <= connected@.len(),
            forall|j: int| 0 <= j < i ==> (#[trigger] connected@[j]).0@ != id@,
        decreases connected@.len() - i,
    {
        if connected[i].0 == *id {
            proof {
                let ids = connected_ids(connected@);
                lemma_first_index(ids, id@);
                assert(ids[i as int] == id@);
                assert forall|j: int| 0 <= j < i implies ids[j] != id@ by {
                    assert(ids[j] == connected@[j].0@);
                }
                match first_index(ids, id@) {
                    Some(k) => {
                        if k < i {
                            assert(ids[k] != id@);
                        }
                        if k > i {
                            assert(ids[i as int] != id@);
                        }
                    },
                    None => {
                        assert(ids[i as int] != id@);
                    },
                }
            }
            return Some(i);
        }
        i = i + 1;
    }
    None
}

/// Something to hand to the channels of one connected player.
#[derive(Debug)]
pub enum Outgoing {
    /// A message for the player's reliable channel.
    Reliable(ReliableServerMessage),
    /// A message for the player's unreliable channel.
    Unreliable(UnreliableServerMessage),
    /// The signal that stops the player's tasks.
    Stop,
}

/// The mathematical content of an [`Outgoing`].
pub enum OutgoingView {
    Reliable(ReliableServerMessageView),
    Unreliable(UnreliableServerMessageView),
    Stop,
}

impl View for Outgoing {
    type V = OutgoingView;

    open spec fn view(&self) -> OutgoingView {
        match self {
            Outgoing::Reliable(m) => OutgoingView::Reliable(m@),
            Outgoing::Unreliable(m) => OutgoingView::Unreliable(m@),
            Outgoing::Stop => OutgoingView::Stop,
        }
    }
}

/// One item handed to the channels of the connected player at position `to`.
#[derive(Debug)]
pub struct Delivery {
    pub to: usize,
    pub item: Outgoing,
}

/// The mathematical content of a [`Delivery`].
pub struct DeliveryView {
    pub to: int,
    pub item: OutgoingView,
}

/// The views of a sequence of deliveries.
pub open spec fn deliveries_view(deliveries: Seq<Delivery>) -> Seq<DeliveryView> {
    deliveries.map_values(|d: Delivery| DeliveryView { to: d.to as int, item: d.item@ })
}

/// The views of a sequence of outgoing items.
pub open spec fn outgoing_views(items: Seq<Outgoing>) -> Seq<OutgoingView> {
    items.map_values(|o: Outgoing| o@)
}

/// Each of `items`, in order, to each of `recipients` that is connected (at
/// its first position among `ids`), recipient by recipient.
pub open spec fn deliveries_to(
    ids: Seq<Seq<char>>,
    recipients: Seq<Seq<char>>,
    items: Seq<OutgoingView>,
) -> Seq<DeliveryView>
    decreases recipients.len(),
{
    if recipients.len() == 0 {
        Seq::empty()
    } else {
        deliveries_to(ids, recipients.drop_last(), items) + match first_index(ids, recipients.last()) {
            Some(i) => items.map_values(|item: OutgoingView| DeliveryView { to: i, item }),
            None => Seq::empty(),
        }
    }
}

/// What a server poll hands to the channels of the connected players `ids`,
/// in order: the roster to each joined player, then every position to each
/// connected player, then the joined players to each connected player, then
/// the stop signal to each leaving player, then the leaving players to each
/// player that stays.
pub open spec fn server_deliveries(ids: Seq<Seq<char>>, poll: ServerPoll) -> Seq<DeliveryView> {
    deliveries_to(ids, poll.roster_recipients.deep_view(), seq![OutgoingView::Reliable(poll.roster@)])
        + deliveries_to(
        ids,
        poll.recipients.deep_view(),
        unreliable_server_views(poll.positions@).map_values(
            |m: UnreliableServerMessageView| OutgoingView::Unreliable(m),
        ),
    ) + match poll.announcement {
        Some(a) => deliveries_to(ids, poll.recipients.deep_view(), seq![OutgoingView::Reliable(a@)]),
        None => Seq::empty(),
    } + deliveries_to(ids, poll.result.leaving_players.deep_view(), seq![OutgoingView::Stop])
        + match poll.farewell {
        Some(f) => deliveries_to(ids, poll.farewell_recipients.deep_view(), seq![OutgoingView::Reliable(f@)]),
        None => Seq::empty(),
    }
}

/// Every delivery goes to one of `n` connected players.
pub open spec fn targets_within(deliveries: Seq<Delivery>, n: int) -> bool {
    forall|i: int| 0 <= i < deliveries.len() ==> (#[trigger] deliveries[i]).to < n
}

/// A copy of a reliable server message.
fn copy_reliable(message: &ReliableServerMessage) -> (copy: ReliableServerMessage)
    ensures
        copy@ == message@,
{
    match message {
        ReliableServerMessage::Hello { player_id } => ReliableServerMessage::Hello { player_id: player_id.clone() },
        ReliableServerMessage::PlayersJoined { player_ids } => {
            let mut ids: Vec<PlayerId> = Vec::new();
            extend_ids(&mut ids, player_ids);
            assert(ids.deep_view() =~= player_ids.deep_view());
            ReliableServerMessage::PlayersJoined { player_ids: ids }
        },
        ReliableServerMessage::PlayersLeft { player_ids } => {
            let mut ids: Vec<PlayerId> = Vec::new();
            extend_ids(&mut ids, player_ids);
            assert(ids.deep_view() =~= player_ids.deep_view());
            ReliableServerMessage::PlayersLeft { player_ids: ids }
        },
        ReliableServerMessage::Quit => ReliableServerMessage::Quit,
    }
}

/// A copy of an unreliable server message.
fn copy_unreliable(message: &UnreliableServerMessage) -> (copy: UnreliableServerMessage)
    ensures
        copy@ == message@,
{
    match message {
        UnreliableServerMessage::PlayerPosition(id, position) => UnreliableServerMessage::PlayerPosition(
            id.clone(),
            *position,
        ),
    }
}

/// A copy of an outgoing item.
fn copy_outgoing(item: &Outgoing) -> (copy: Outgoing)
    ensures
        copy@ == item@,
{
    match item {
        Outgoing::Reliable(m) => Outgoing::Reliable(copy_reliable(m)),
        Outgoing::Unreliable(m) => Outgoing::Unreliable(copy_unreliable(m)),
        Outgoing::Stop => Outgoing::Stop,
    }
}

/// Appends to `plan` a copy of each of `items` for each of `recipients` that
/// is connected, as [`deliveries_to`] says.
fn push_deliveries(
    connected: &Vec<(PlayerId, Arc<MessageChannels>)>,
    recipients: &Vec<PlayerId>,
    items: &Vec<Outgoing>,
    plan: &mut Vec<Delivery>,
)
    requires
        targets_within(old(plan)@, connected@.len() as int),
    ensures
        targets_within(final(plan)@, connected@.len() as int),
        deliveries_view(final(plan)@) == deliveries_view(old(plan)@) + deliveries_to(
            connected_ids(connected@),
            recipients.deep_view(),
            outgoing_views(items@),
        ),
{
    let ghost ids = connected_ids(connected@);
    let ghost rv = recipients.deep_view();
    let ghost iv = outgoing_views(items@);
    let ghost start = deliveries_view(plan@);
    let mut r: usize = 0;
    assert(rv.take(0) =~= Seq::<Seq<char>>::empty());
    assert(start + deliveries_to(ids, rv.take(0), iv) =~= start);
    while r < recipients.len()
        invariant
            r <= recipients@.len(),
            ids == connected_ids(connected@),
            rv == recipients.deep_view(),
            iv == outgoing_views(items@),
            targets_within(plan@, connected@.len() as int),
            deliveries_view(plan@) == start + deliveries_to(ids, rv.take(r as int), iv),
        decreases recipients@.len() - r,
    {
        let ghost pre = rv.take(r as int + 1);
        assert(pre.drop_last() =~= rv.take(r as int));
        assert(pre.last() == recipients@[r as int]@);
        let ghost before = deliveries_view(plan@);
        match position_of(connected, &recipients[r]) {
            Some(at) => {
                let mut k: usize = 0;
                assert(iv.take(0).map_values(|item: OutgoingView| DeliveryView { to: at as int, item })
                    =~= Seq::<DeliveryView>::empty());
                while k < items.len()
                    invariant
                        k <= items@.len(),
                        at < connected@.len(),
                        iv == outgoing_views(items@),
                        targets_within(plan@, connected@.len() as int),
                        deliveries_view(plan@) == before + iv.take(k as int).map_values(
                            |item: OutgoingView| DeliveryView { to: at as int, item },
                        ),
                    decreases items@.len() - k,
                {
                    let ghost inner = plan@;
                    plan.push(Delivery { to: at, item: copy_outgoing(&items[k]) });
                    assert(deliveries_view(plan@) =~= deliveries_view(inner).push(
                        DeliveryView { to: at as int, item: items@[k as int]@ },
                    ));
                    assert(iv.take(k as int + 1).map_values(|item: OutgoingView| DeliveryView { to: at as int, item })
                        =~= iv.take(k as int).map_values(|item: OutgoingView| DeliveryView { to: at as int, item }).push(
                        DeliveryView { to: at as int, item: iv[k as int] },
                    ));
                    assert(targets_within(plan@, connected@.len() as int)) by {
                        assert forall|i: int| 0 <= i < plan@.len() implies (#[trigger] plan@[i]).to < connected@.len() by {
                            if i < inner.len() {
                                assert(plan@[i] == inner[i]);
                            }
                        }
                    }
                    k = k + 1;
                }
                assert(iv.take(items@.len() as int) =~= iv);
            },
            None => {
                assert(deliveries_view(plan@) =~= before + Seq::<DeliveryView>::empty());
            },
        }
        assert(deliveries_to(ids, pre, iv) == deliveries_to(ids, rv.take(r as int), iv) + match first_index(
            ids,
            pre.last(),
        ) {
            Some(i) => iv.map_values(|item: OutgoingView| DeliveryView { to: i, item }),
            None => Seq::empty(),
        });
        r = r + 1;
    }
    assert(rv.take(recipients@.len() as int) =~= rv);
}

/// The deliveries a server poll makes, as [`server_deliveries`] says.
fn server_plan(connected: &Vec<(PlayerId, Arc<MessageChannels>)>, poll: &ServerPoll) -> (plan: Vec<Delivery>)
    ensures
        targets_within(plan@, connected@.len() as int),
        deliveries_view(plan@) == server_deliveries(connected_ids(connected@), *poll),
{
    let ghost ids = connected_ids(connected@);
    let mut plan: Vec<Delivery> = Vec::new();
    assert(deliveries_view(plan@) =~= Seq::<DeliveryView>::empty());
    let roster = vec![Outgoing::Reliable(copy_reliable(&poll.roster))];
    assert(outgoing_views(roster@) =~= seq![OutgoingView::Reliable(poll.roster@)]);
    push_deliveries(connected, &poll.roster_recipients, &roster, &mut plan);
    let ghost part1 = deliveries_view(plan@);
    let mut positions: Vec<Outgoing> = Vec::new();
    let ghost pv = unreliable_server_views(poll.positions@).map_values(
        |m: UnreliableServerMessageView| OutgoingView::Unreliable(m),
    );
    let mut k: usize = 0;
    while k < poll.positions.len()
        invariant
            k <= poll.positions@.len(),
            pv == unreliable_server_views(poll.positions@).map_values(
                |m: UnreliableServerMessageView| OutgoingView::Unreliable(m),
            ),
            outgoing_views(positions@) == pv.take(k as int),
        decreases poll.positions@.len() - k,
    {
        let ghost before = positions@;
        positions.push(Outgoing::Unreliable(copy_unreliable(&poll.positions[k])));
        assert(outgoing_views(positions@) =~= outgoing_views(before).push(pv[k as int]));
        assert(pv.take(k as int + 1) =~= pv.take(k as int).push(pv[k as int]));
        k = k + 1;
    }
    assert(pv.take(poll.positions@.len() as int) =~= pv);
    push_deliveries(connected, &poll.recipients, &positions, &mut plan);
    let ghost part2 = deliveries_view(plan@);
    match &poll.announcement {
        Some(a) => {
            let items = vec![Outgoing::Reliable(copy_reliable(a))];
            assert(outgoing_views(items@) =~= seq![OutgoingView::Reliable(a@)]);
            push_deliveries(connected, &poll.recipients, &items, &mut plan);
        },
        None => {
            assert(deliveries_view(plan@) =~= part2 + Seq::<DeliveryView>::empty());
        },
    }
    let ghost part3 = deliveries_view(plan@);
    let stop = vec![Outgoing::Stop];
    assert(outgoing_views(stop@) =~= seq![OutgoingView::Stop]);
    push_deliveries(connected, &poll.result.leaving_players, &stop, &mut plan);
    let ghost part4 = deliveries_view(plan@);
    match &poll.farewell {
        Some(f) => {
            let items = vec![Outgoing::Reliable(copy_reliable(f))];
            assert(outgoing_views(items@) =~= seq![OutgoingView::Reliable(f@)]);
            push_deliveries(connected, &poll.farewell_recipients, &items, &mut plan);
        },
        None => {
            assert(deliveries_view(plan@) =~= part4 + Seq::<DeliveryView>::empty());
        },
    }
    assert(deliveries_view(plan@) =~= server_deliveries(ids, *poll));
    plan
}

/// Hands each delivery, in order, to the channel it names.
fn dispatch(connected: &Vec<(PlayerId, Arc<MessageChannels>)>, plan: &Vec<Delivery>)
    requires
        targets_within(plan@, connected@.len() as int),
{
    let mut i: usize = 0;
    while i < plan.len()
        invariant
            i <= plan@.len(),
            targets_within(plan@, connected@.len() as int),
        decreases plan@.len() - i,
    {
        let delivery = &plan[i];
        let channels = &connected[delivery.to].1;
        match &delivery.item {
            Outgoing::Reliable(m) => send_now(&channels.reliable_sender, copy_reliable(m)),
            Outgoing::Unreliable(m) => send_now(&channels.unreliable_sender, copy_unreliable(m)),
            Outgoing::Stop => signal_cancel(&channels.cancel_sender),
        }
        i = i + 1;
    }
}

/// Takes the messages waiting in `receiver` when the drain starts, in order,
/// stopping early at an empty or closed channel.
fn drain<T>(receiver: &Receiver<T>) -> Vec<T> {
    let mut messages: Vec<T> = Vec::new();
    let count = waiting_count(receiver);
    let mut i: usize = 0;
    while i < count
        invariant
            i <= count,
        decreases count - i,
    {
        match receive_now(receiver) {
            Received::Message(message) => messages.push(message),
            _ => {
                break;
            },
        }
        i = i + 1;
    }
    messages
}

/// What a server poll over the channels decided and handed to them.
#[derive(Debug)]
pub struct ServerRound {
    /// The decisions of the poll.
    pub poll: ServerPoll,
    /// What was handed to the channels of the connected players, in order.
    pub deliveries: Vec<Delivery>,
}

impl GameState {
    /// One poll of a server session over the channels of the connected
    /// players (a snapshot of the connection map). Takes at most one message
    /// from each of the player's two channels, decides as
    /// [`GameState::poll_server`] does, and hands what it decided to the
    /// channels, as [`server_deliveries`] says. Whatever the channels gave,
    /// the decisions and the world change are those of the server poll of
    /// some inbox of the connected players. Without a server session the
    /// channels are left alone.
    ///
    /// The contract fixes the returned deliveries, but not that they were
    /// handed over: the channels are shared handles whose contents Verus does
    /// not see, so the sends made by `dispatch` are a fact of the body
    /// only.
    pub fn poll_server_channels(&mut self, connected: &Vec<(PlayerId, Arc<MessageChannels>)>) -> (round: ServerRound)
        requires
            old(self).wf(),
        ensures
            final(self).wf(),
            final(self).session() == old(self).session(),
            old(self).session() matches Some(SessionView::Server { server_id, host_player }) ==> {
                &&& exists|inbox: Seq<PlayerInboxView>|
                    {
                        &&& #[trigger] inbox_ids(inbox) == connected_ids(connected@)
                        &&& server_poll_outcome(
                            old(self).world_view(),
                            host_of(server_id, host_player),
                            inbox,
                            round.poll,
                            final(self).world_view(),
                            final(self).order(),
                        )
                    }
                &&& deliveries_view(round.deliveries@) == server_deliveries(connected_ids(connected@), round.poll)
            },
            !(old(self).session() matches Some(SessionView::Server { .. })) ==> {
                &&& round.poll.result.new_players@.len() == 0
                &&& round.poll.result.leaving_players@.len() == 0
                &&& round.deliveries@.len() == 0
                &&& final(self).world_view() == old(self).world_view()
            },
            order_grown(old(self).order(), old(self).rows(), final(self).order(), final(self).rows()),
    {
        match self.server_host() {
            Some(_) => {},
            None => {
                return ServerRound { poll: self.poll_server(Vec::new()), deliveries: Vec::new() };
            },
        }
        let mut inbox: Vec<PlayerInbox> = Vec::new();
        let mut i: usize = 0;
        while i < connected.len()
            invariant
                i <= connected@.len(),
                inbox_ids(inbox_views(inbox@)) == connected_ids(connected@).take(i as int),
            decreases connected@.len() - i,
        {
            let channels = &connected[i].1;
            let entry = PlayerInbox {
                player_id: connected[i].0.clone(),
                reliable: receive_now(&channels.reliable_receiver),
                unreliable: receive_now(&channels.unreliable_receiver),
            };
            let ghost before = inbox@;
            inbox.push(entry);
            assert(inbox_ids(inbox_views(inbox@)) =~= inbox_ids(inbox_views(before)).push(connected@[i as int].0@));
            assert(connected_ids(connected@).take(i as int + 1) =~= connected_ids(connected@).take(i as int).push(
                connected@[i as int].0@,
            ));
            i = i + 1;
        }
        assert(connected_ids(connected@).take(connected@.len() as int) =~= connected_ids(connected@));
        let poll = self.poll_server(inbox);
        let deliveries = server_plan(connected, &poll);
        dispatch(connected, &deliveries);
        ServerRound { poll, deliveries }
    }

    /// One poll of a client session over its channels: takes the messages
    /// waiting from the server, decides as [`GameState::poll_client`] does,
    /// and hands the position report, which it returns, to `outgoing`.
    /// Whatever the channels gave, the players reported and the world
    /// changes are those of some sequences of messages from the server, and
    /// the report is where the local player stands afterwards. Without a
    /// client session the channels are left alone.
    ///
    /// The contract fixes the returned report, but not that it was sent:
    /// the channel is a shared handle whose contents Verus does not see, so
    /// the send is a fact of the body only.
    pub fn poll_client_channels(
        &mut self,
        reliable: &Receiver<ReliableServerMessage>,
        unreliable: &Receiver<UnreliableServerMessage>,
        outgoing: &Sender<UnreliableClientMessage>,
    ) -> (poll: ClientPoll)
        requires
            old(self).wf(),
        ensures
            final(self).wf(),
            final(self).session() == old(self).session(),
            old(self).session() matches Some(SessionView::Client { local_id, .. }) ==> {
                &&& exists|rel: Seq<ReliableServerMessageView>, unrel: Seq<UnreliableServerMessageView>|
                    {
                        &&& poll.result.new_players.deep_view() == #[trigger] joined_ids(rel)
                        &&& poll.result.leaving_players.deep_view() == left_ids(rel)
                        &&& ops_result(
                            old(self).world_view(),
                            spawn_ops(joined_ids(rel)) + #[trigger] remote_moves(unrel, local_id),
                            final(self).world_view(),
                        )
                    }
                &&& poll.report == position_report(final(self).world_view(), local_id)
            },
            !(old(self).session() matches Some(SessionView::Client { .. })) ==> {
                &&& poll.result.new_players@.len() == 0
                &&& poll.result.leaving_players@.len() == 0
                &&& poll.report is None
                &&& final(self).world_view() == old(self).world_view()
            },
            order_grown(old(self).order(), old(self).rows(), final(self).order(), final(self).rows()),
    {
        match self.client_id() {
            Some(_) => {},
            None => {
                proof {
                    lemma_order_grown_keep(self.order(), self.rows(), self.rows());
                }
                return ClientPoll {
                    result: PollResult { new_players: Vec::new(), leaving_players: Vec::new() },
                    report: None,
                };
            },
        }
        let reliable_messages = drain(reliable);
        let unreliable_messages = drain(unreliable);
        let poll = self.poll_client(reliable_messages, unreliable_messages);
        match poll.report {
            Some(report) => send_now(outgoing, report),
            None => {},
        }
        poll
    }
}

} // verus!
