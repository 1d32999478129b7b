//! What one poll of a session does: it takes in the messages that the
//! network tasks delivered since the last poll, updates the world, and says
//! what to send and to whom.
use crate::ecs::world_snapshot;
use crate::game_state::{
    lemma_order_grown_keep, lemma_order_grown_spawn, lemma_order_grown_trans, order_grown, rows_moved,
    spawn_remote_step, GameState, PollResult, SessionView, WorldView,
};
use crate::messages::{
    PlayerId, PlayerPosition, ReliableClientMessage, ReliableClientMessageView, ReliableServerMessage,
    ReliableServerMessageView, UnreliableClientMessage, UnreliableServerMessage,
    UnreliableServerMessageView,
};
use vstd::prelude::*;

verus! {

/// A change to the world that a received message asks for.
#[derive(Clone, Debug)]
pub enum WorldOp {
    /// Spawn a remote player under this id unless the id is indexed already.
    SpawnRemote(PlayerId),
    /// Move every player carrying this id.
    Move(PlayerId, PlayerPosition),
}

/// The mathematical content of a [`WorldOp`].
pub enum WorldOpView {
    SpawnRemote(Seq<char>),
    Move(Seq<char>, PlayerPosition),
}

impl View for WorldOp {
    type V = WorldOpView;

    open spec fn view(&self) -> WorldOpView {
        match self {
            WorldOp::SpawnRemote(id) => WorldOpView::SpawnRemote(id@),
            WorldOp::Move(id, pos) => WorldOpView::Move(id@, *pos),
        }
    }
}

/// The views of a sequence of world changes.
pub open spec fn ops_view(ops: Seq<WorldOp>) -> Seq<WorldOpView> {
    ops.map_values(|op: WorldOp| op@)
}

/// `after` is `before` changed by `op`.
pub open spec fn op_step(before: WorldView, op: WorldOpView, after: WorldView) -> bool {
    match op {
        WorldOpView::SpawnRemote(id) => spawn_remote_step(before, id, after),
        WorldOpView::Move(id, pos) => after == WorldView {
            rows: rows_moved(before.rows, id, pos),
            index: before.index,
        },
    }
}

/// `after` is `before` changed by `ops`, one after the other.
pub open spec fn ops_result(before: WorldView, ops: Seq<WorldOpView>, after: WorldView) -> bool
    decreases ops.len(),
{
    if ops.len() == 0 {
        after == before
    } else {
        exists|mid: WorldView| ops_result(before, ops.drop_last(), mid) && #[trigger] op_step(mid, ops.last(), after)
    }
}

/// Spawning each id of `ids`, in order.
pub open spec fn spawn_ops(ids: Seq<Seq<char>>) -> Seq<WorldOpView> {
    ids.map_values(|id: Seq<char>| WorldOpView::SpawnRemote(id))
}

/// The views of a sequence of reliable server messages.
pub open spec fn reliable_server_views(msgs: Seq<ReliableServerMessage>) -> Seq<ReliableServerMessageView> {
    msgs.map_values(|m: ReliableServerMessage| m@)
}

/// The views of a sequence of unreliable server messages.
pub open spec fn unreliable_server_views(msgs: Seq<UnreliableServerMessage>) -> Seq<UnreliableServerMessageView> {
    msgs.map_values(|m: UnreliableServerMessage| m@)
}

/// The ids announced as joined by `msgs`, in order, repetitions kept.
pub open spec fn joined_ids(msgs: Seq<ReliableServerMessageView>) -> Seq<Seq<char>>
    decreases msgs.len(),
{
    if msgs.len() == 0 {
        Seq::empty()
    } else {
        joined_ids(msgs.drop_last()) + match msgs.last() {
            ReliableServerMessageView::PlayersJoined { player_ids } => player_ids,
            _ => Seq::empty(),
        }
    }
}

/// The ids announced as gone by `msgs`, in order, repetitions kept.
pub open spec fn left_ids(msgs: Seq<ReliableServerMessageView>) -> Seq<Seq<char>>
    decreases msgs.len(),
{
    if msgs.len() == 0 {
        Seq::empty()
    } else {
        left_ids(msgs.drop_last()) + match msgs.last() {
            ReliableServerMessageView::PlayersLeft { player_ids } => player_ids,
            _ => Seq::empty(),
        }
    }
}

/// The moves that position updates ask for, leaving out those of the local player.
pub open spec fn remote_moves(msgs: Seq<UnreliableServerMessageView>, local_id: Seq<char>) -> Seq<WorldOpView>
    decreases msgs.len(),
{
    if msgs.len() == 0 {
        Seq::empty()
    } else {
        let rest = remote_moves(msgs.drop_last(), local_id);
        match msgs.last() {
            UnreliableServerMessageView::PlayerPosition(id, pos) => if id == local_id {
                rest
            } else {
                rest.push(WorldOpView::Move(id, pos))
            },
        }
    }
}

/// The position report a client sends: where the player indexed under its id is.
pub open spec fn position_report(v: WorldView, local_id: Seq<char>) -> Option<UnreliableClientMessage> {
    if v.index.contains_key(local_id) {
        Some(UnreliableClientMessage::PlayerPosition(v.rows[v.index[local_id]].1.position))
    } else {
        None
    }
}

/// What a poll of a client session decided.
#[derive(Clone, Debug)]
pub struct ClientPoll {
    /// Players that joined and that left, as the server announced them.
    pub result: PollResult,
    /// The position of the local player, to send to the server.
    pub report: Option<UnreliableClientMessage>,
}

/// What a non-blocking receive on a channel gave.
#[derive(Clone, Debug)]
pub enum Received<T> {
    /// A message was waiting.
    Message(T),
    /// No message was waiting.
    Empty,
    /// The channel is closed: its sending side is gone.
    Closed,
}

/// What the server received from one connected player since the last poll:
/// at most one message from each of the player's two channels.
#[derive(Clone, Debug)]
pub struct PlayerInbox {
    pub player_id: PlayerId,
    pub reliable: Received<ReliableClientMessage>,
    pub unreliable: Received<UnreliableClientMessage>,
}

/// The mathematical content of a [`PlayerInbox`].
pub struct PlayerInboxView {
    pub player_id: Seq<char>,
    pub reliable: Received<ReliableClientMessageView>,
    pub unreliable: Received<UnreliableClientMessage>,
}

impl View for PlayerInbox {
    type V = PlayerInboxView;

    open spec fn view(&self) -> PlayerInboxView {
        PlayerInboxView {
            player_id: self.player_id@,
            reliable: match self.reliable {
                Received::Message(m) => Received::Message(m@),
                Received::Empty => Received::Empty,
                Received::Closed => Received::Closed,
            },
            unreliable: self.unreliable,
        }
    }
}

/// The views of the inboxes.
pub open spec fn inbox_views(inbox: Seq<PlayerInbox>) -> Seq<PlayerInboxView> {
    inbox.map_values(|e: PlayerInbox| e@)
}

/// The ids of the connected players, in inbox order.
pub open spec fn inbox_ids(inbox: Seq<PlayerInboxView>) -> Seq<Seq<char>> {
    inbox.map_values(|e: PlayerInboxView| e.player_id)
}

/// `ids` with `id` added at the end unless it is there already.
pub open spec fn add_unique(ids: Seq<Seq<char>>, id: Seq<char>) -> Seq<Seq<char>> {
    if ids.contains(id) {
        ids
    } else {
        ids.push(id)
    }
}

/// What the server gathers from the inboxes: the players that joined and
/// that left (each once, in order of first mention), the joined players to
/// send the roster to, and the world changes to make.
#[verifier::ext_equal]
pub struct ServerTally {
    pub joined: Seq<Seq<char>>,
    pub leaving: Seq<Seq<char>>,
    pub reply_to: Seq<Seq<char>>,
    pub ops: Seq<WorldOpView>,
}

/// The tally after taking in one inbox. A joined player is spawned and, if
/// connected, gets the roster; a quit, or a closed channel, makes a player
/// leave; a position update moves the sender.
pub open spec fn tally_entry(t: ServerTally, e: PlayerInboxView, connected: Seq<Seq<char>>) -> ServerTally {
    let t1 = match e.reliable {
        Received::Message(ReliableClientMessageView::PlayerJoined { player_id }) => ServerTally {
            joined: add_unique(t.joined, player_id),
            leaving: t.leaving,
            reply_to: if connected.contains(player_id) {
                t.reply_to.push(player_id)
            } else {
                t.reply_to
            },
            ops: t.ops.push(WorldOpView::SpawnRemote(player_id)),
        },
        Received::Message(ReliableClientMessageView::Quit { player_id }) => ServerTally {
            leaving: add_unique(t.leaving, player_id),
            ..t
        },
        Received::Empty => t,
        Received::Closed => ServerTally { leaving: add_unique(t.leaving, e.player_id), ..t },
    };
    match e.unreliable {
        Received::Message(UnreliableClientMessage::PlayerPosition(position)) => ServerTally {
            ops: t1.ops.push(WorldOpView::Move(e.player_id, position)),
            ..t1
        },
        Received::Empty => t1,
        Received::Closed => ServerTally { leaving: add_unique(t1.leaving, e.player_id), ..t1 },
    }
}

/// The tally of all inboxes, in order.
pub open spec fn server_tally(inbox: Seq<PlayerInboxView>, connected: Seq<Seq<char>>) -> ServerTally
    decreases inbox.len(),
{
    if inbox.len() == 0 {
        ServerTally {
            joined: Seq::empty(),
            leaving: Seq::empty(),
            reply_to: Seq::empty(),
            ops: Seq::empty(),
        }
    } else {
        tally_entry(server_tally(inbox.drop_last(), connected), inbox.last(), connected)
    }
}

/// The players a newly joined player is told about: every connected player,
/// and the host if it plays and is not among them.
pub open spec fn roster_ids(connected: Seq<Seq<char>>, host: Option<Seq<char>>) -> Seq<Seq<char>> {
    match host {
        Some(h) => if connected.contains(h) {
            connected
        } else {
            connected.push(h)
        },
        None => connected,
    }
}

/// `ids` without those in `gone`, in order.
pub open spec fn without(ids: Seq<Seq<char>>, gone: Seq<Seq<char>>) -> Seq<Seq<char>>
    decreases ids.len(),
{
    if ids.len() == 0 {
        Seq::empty()
    } else {
        let rest = without(ids.drop_last(), gone);
        if gone.contains(ids.last()) {
            rest
        } else {
            rest.push(ids.last())
        }
    }
}

/// The position messages for the rows `keys`, in that order.
pub open spec fn position_messages(
    rows: Map<u64, (Seq<char>, crate::game_state::Player)>,
    keys: Seq<u64>,
) -> Seq<UnreliableServerMessageView> {
    keys.map_values(|k: u64| UnreliableServerMessageView::PlayerPosition(rows[k].0, rows[k].1.position))
}

/// The host's id, when the host plays.
pub open spec fn host_of(server_id: Seq<char>, host_player: Option<u64>) -> Option<Seq<char>> {
    if host_player is Some {
        Some(server_id)
    } else {
        None
    }
}

/// `poll` is what a server poll decides on `inbox`, with `host` the playing
/// host's id if any, and the world goes from `before` to `after`: the
/// players that joined and left, the roster to each joined connected player,
/// every connected player as recipient, the world changes of the tally, every
/// row's position once, in the store order `after_order` of the world after
/// the changes, the joined players and the leaving players if there are any,
/// and the connected players that stay.
pub open spec fn server_poll_outcome(
    before: WorldView,
    host: Option<Seq<char>>,
    inbox: Seq<PlayerInboxView>,
    poll: ServerPoll,
    after: WorldView,
    after_order: Seq<u64>,
) -> bool {
    let connected = inbox_ids(inbox);
    let t = server_tally(inbox, connected);
    &&& poll.result.new_players.deep_view() == t.joined
    &&& poll.result.leaving_players.deep_view() == t.leaving
    &&& poll.roster_recipients.deep_view() == t.reply_to
    &&& poll.roster@ == ReliableServerMessageView::PlayersJoined { player_ids: roster_ids(connected, host) }
    &&& poll.recipients.deep_view() == connected
    &&& ops_result(before, t.ops, after)
    &&& exists|keys: Seq<u64>|
        {
            &&& keys.no_duplicates()
            &&& keys.to_set() == after.rows.dom()
            &&& #[trigger] position_messages(after.rows, keys) == unreliable_server_views(poll.positions@)
        }
    &&& position_messages(after.rows, after_order) == unreliable_server_views(poll.positions@)
    &&& t.joined.len() == 0 ==> poll.announcement is None
    &&& t.joined.len() > 0 ==> (poll.announcement matches Some(m) && m@
        == ReliableServerMessageView::PlayersJoined { player_ids: t.joined })
    &&& t.leaving.len() == 0 ==> poll.farewell is None
    &&& t.leaving.len() > 0 ==> (poll.farewell matches Some(m) && m@
        == ReliableServerMessageView::PlayersLeft { player_ids: t.leaving })
    &&& poll.farewell_recipients.deep_view() == without(connected, t.leaving)
}

/// What a poll of a server session decided. The caller sends `roster` to each
/// of `roster_recipients`, then each of `positions` and the `announcement` to
/// each of `recipients`, then drops the channels of the leaving players of
/// `result`, then sends the `farewell` to each of `farewell_recipients`.
#[derive(Clone, Debug)]
pub struct ServerPoll {
    /// Players that joined and players that left.
    pub result: PollResult,
    /// Newly joined players to tell who is in the session.
    pub roster_recipients: Vec<PlayerId>,
    /// Who is in the session.
    pub roster: ReliableServerMessage,
    /// Every connected player.
    pub recipients: Vec<PlayerId>,
    /// Where every player of the world is.
    pub positions: Vec<UnreliableServerMessage>,
    /// The players that joined, if any.
    pub announcement: Option<ReliableServerMessage>,
    /// The connected players that stay.
    pub farewell_recipients: Vec<PlayerId>,
    /// The players that left, if any.
    pub farewell: Option<ReliableServerMessage>,
}

/// Whether `id` is among `ids`.
fn contains_id(ids: &Vec<PlayerId>, id: &PlayerId) -> (found: bool)
    ensures
        found == ids.deep_view().contains(id@),
{
    let mut i: usize = 0;
    while i < ids.len()
        invariant
            i <= ids@.len(),
            forall|j: int| 0 <= j < i ==> ids.deep_view()[j] != id@,
        decreases ids@.len() - i,
    {
        if ids[i] == *id {
            assert(ids.deep_view()[i as int] == id@);
            return true;
        }
        i = i + 1;
    }
    false
}

/// Pushes a copy of `id` onto `ids` unless it is there already.
fn push_unique(ids: &mut Vec<PlayerId>, id: &PlayerId)
    ensures
        final(ids).deep_view() == add_unique(old(ids).deep_view(), id@),
{
    if !contains_id(ids, id) {
        let ghost before = ids.deep_view();
        ids.push(id.clone());
        assert(ids.deep_view() =~= before.push(id@));
    }
}

/// The tally that the accumulators stand for.
pub open spec fn tally_of(
    joined: Seq<Seq<char>>,
    leaving: Seq<Seq<char>>,
    reply_to: Seq<Seq<char>>,
    ops: Seq<WorldOp>,
) -> ServerTally {
    ServerTally { joined, leaving, reply_to, ops: ops_view(ops) }
}

/// Takes in one inbox: updates the accumulators as [`tally_entry`] does.
fn tally_inbox(
    entry: &PlayerInbox,
    connected: &Vec<PlayerId>,
    joined: &mut Vec<PlayerId>,
    leaving: &mut Vec<PlayerId>,
    reply_to: &mut Vec<PlayerId>,
    ops: &mut Vec<WorldOp>,
)
    ensures
        tally_of(
            final(joined).deep_view(),
            final(leaving).deep_view(),
            final(reply_to).deep_view(),
            final(ops)@,
        ) == tally_entry(
            tally_of(old(joined).deep_view(), old(leaving).deep_view(), old(reply_to).deep_view(), old(ops)@),
            entry@,
            connected.deep_view(),
        ),
{
    match &entry.reliable {
        Received::Message(ReliableClientMessage::PlayerJoined { player_id }) => {
            push_unique(joined, player_id);
            if contains_id(connected, player_id) {
                let ghost before = reply_to.deep_view();
                reply_to.push(player_id.clone());
                assert(reply_to.deep_view() =~= before.push(player_id@));
            }
            let ghost before_ops = ops@;
            ops.push(WorldOp::SpawnRemote(player_id.clone()));
            assert(ops_view(ops@) =~= ops_view(before_ops).push(WorldOpView::SpawnRemote(player_id@)));
        },
        Received::Message(ReliableClientMessage::Quit { player_id }) => {
            push_unique(leaving, player_id);
        },
        Received::Empty => {},
        Received::Closed => {
            push_unique(leaving, &entry.player_id);
        },
    }
    match &entry.unreliable {
        Received::Message(UnreliableClientMessage::PlayerPosition(position)) => {
            let ghost before_ops = ops@;
            ops.push(WorldOp::Move(entry.player_id.clone(), *position));
            assert(ops_view(ops@) =~= ops_view(before_ops).push(WorldOpView::Move(entry.player_id@, *position)));
        },
        Received::Empty => {},
        Received::Closed => {
            push_unique(leaving, &entry.player_id);
        },
    }
}

/// Pushes a copy of each of `ids` onto `dst`.
pub(crate) fn extend_ids(dst: &mut Vec<PlayerId>, ids: &Vec<PlayerId>)
    ensures
        final(dst).deep_view() == old(dst).deep_view() + ids.deep_view(),
{
    let mut i: usize = 0;
    while i < ids.len()
        invariant
            i <= ids@.len(),
            dst.deep_view() == old(dst).deep_view() + ids.deep_view().take(i as int),
        decreases ids@.len() - i,
    {
        let ghost before = dst.deep_view();
        dst.push(ids[i].clone());
        assert(dst.deep_view() =~= before.push(ids@[i as int]@));
        assert(ids.deep_view().take(i as int + 1) =~= ids.deep_view().take(i as int).push(ids@[i as int]@));
        i = i + 1;
    }
    assert(ids.deep_view().take(ids@.len() as int) =~= ids.deep_view());
}

/// Pushes a spawn of each of `ids` onto `ops`.
fn push_spawns(ops: &mut Vec<WorldOp>, ids: &Vec<PlayerId>)
    ensures
        ops_view(final(ops)@) == ops_view(old(ops)@) + spawn_ops(ids.deep_view()),
{
    let mut i: usize = 0;
    while i < ids.len()
        invariant
            i <= ids@.len(),
            ops_view(ops@) == ops_view(old(ops)@) + spawn_ops(ids.deep_view().take(i as int)),
        decreases ids@.len() - i,
    {
        let ghost before = ops@;
        ops.push(WorldOp::SpawnRemote(ids[i].clone()));
        assert(ops_view(ops@) =~= ops_view(before).push(WorldOpView::SpawnRemote(ids@[i as int]@)));
        assert(spawn_ops(ids.deep_view().take(i as int + 1)) =~= spawn_ops(ids.deep_view().take(i as int)).push(
            WorldOpView::SpawnRemote(ids@[i as int]@),
        ));
        i = i + 1;
    }
    assert(ids.deep_view().take(ids@.len() as int) =~= ids.deep_view());
}

/// World changes never drop an indexed id, and every id they spawn is
/// indexed afterwards.
pub proof fn lemma_ops_index_grows(before: WorldView, ops: Seq<WorldOpView>, after: WorldView)
    requires
        ops_result(before, ops, after),
    ensures
        forall|id: Seq<char>| #[trigger] before.index.contains_key(id) ==> after.index.contains_key(id),
        forall|i: int| #![trigger ops[i]]
            0 <= i < ops.len() ==> (ops[i] matches WorldOpView::SpawnRemote(id) ==> after.index.contains_key(id)),
    decreases ops.len(),
{
    if ops.len() > 0 {
        let mid = choose|mid: WorldView| ops_result(before, ops.drop_last(), mid) && #[trigger] op_step(mid, ops.last(), after);
        lemma_ops_index_grows(before, ops.drop_last(), mid);
        assert forall|id: Seq<char>| #[trigger] mid.index.contains_key(id) implies after.index.contains_key(id) by {
            match ops.last() {
                WorldOpView::SpawnRemote(sid) => {
                    if !mid.index.contains_key(sid) {
                        let k = choose|k: u64| !mid.rows.contains_key(k) && after == (WorldView {
                            rows: mid.rows.insert(k, (sid, crate::game_state::fresh_player(false))),
                            index: mid.index.insert(sid, k),
                        });
                    }
                },
                WorldOpView::Move(..) => {},
            }
        }
        assert forall|i: int| #![trigger ops[i]] 0 <= i < ops.len() implies (ops[i] matches WorldOpView::SpawnRemote(
            id,
        ) ==> after.index.contains_key(id)) by {
            if i < ops.len() - 1 {
                assert(ops[i] == ops.drop_last()[i]);
            } else {
                match ops.last() {
                    WorldOpView::SpawnRemote(sid) => {
                        if !mid.index.contains_key(sid) {
                            let k = choose|k: u64| !mid.rows.contains_key(k) && after == (WorldView {
                                rows: mid.rows.insert(k, (sid, crate::game_state::fresh_player(false))),
                                index: mid.index.insert(sid, k),
                            });
                        }
                    },
                    WorldOpView::Move(..) => {},
                }
            }
        }
    }
}

/// Every player the server tally records as joined has a spawn among the tally's world changes.
pub proof fn lemma_joined_are_spawned(inbox: Seq<PlayerInboxView>, connected: Seq<Seq<char>>)
    ensures
        forall|id: Seq<char>| #[trigger] server_tally(inbox, connected).joined.contains(id)
            ==> server_tally(inbox, connected).ops.contains(WorldOpView::SpawnRemote(id)),
    decreases inbox.len(),
{
    if inbox.len() > 0 {
        let t0 = server_tally(inbox.drop_last(), connected);
        lemma_joined_are_spawned(inbox.drop_last(), connected);
        let t = server_tally(inbox, connected);
        assert forall|id: Seq<char>| #[trigger] t.joined.contains(id) implies t.ops.contains(WorldOpView::SpawnRemote(id)) by {
            if t0.joined.contains(id) {
                let i = choose|i: int| 0 <= i < t0.ops.len() && t0.ops[i] == WorldOpView::SpawnRemote(id);
                assert(t.ops.subrange(0, t0.ops.len() as int) == t0.ops);
                assert(t.ops[i] == WorldOpView::SpawnRemote(id));
            } else {
                let t1_ops = t0.ops.push(WorldOpView::SpawnRemote(id));
                assert(t1_ops[t0.ops.len() as int] == WorldOpView::SpawnRemote(id));
                assert(t.ops[t0.ops.len() as int] == WorldOpView::SpawnRemote(id));
            }
        }
    }
}

/// After the world changes of a server poll, every player it reports as
/// joined is indexed in the world.
pub proof fn lemma_joined_players_in_world(
    before: WorldView,
    inbox: Seq<PlayerInboxView>,
    connected: Seq<Seq<char>>,
    after: WorldView,
)
    requires
        ops_result(before, server_tally(inbox, connected).ops, after),
    ensures
        forall|id: Seq<char>| #[trigger] server_tally(inbox, connected).joined.contains(id) ==> after.index.contains_key(id),
{
    let t = server_tally(inbox, connected);
    lemma_joined_are_spawned(inbox, connected);
    lemma_ops_index_grows(before, t.ops, after);
    assert forall|id: Seq<char>| #[trigger] t.joined.contains(id) implies after.index.contains_key(id) by {
        assert(t.ops.contains(WorldOpView::SpawnRemote(id)));
        let i = choose|i: int| 0 <= i < t.ops.len() && t.ops[i] == WorldOpView::SpawnRemote(id);
        assert(t.ops[i] matches WorldOpView::SpawnRemote(sid) && sid == id);
    }
}

/// After the world changes of a client poll, every player the server
/// announced as joined is indexed in the world.
pub proof fn lemma_announced_players_in_world(
    before: WorldView,
    joined: Seq<Seq<char>>,
    moves: Seq<WorldOpView>,
    after: WorldView,
)
    requires
        ops_result(before, spawn_ops(joined) + moves, after),
    ensures
        forall|id: Seq<char>| #[trigger] joined.contains(id) ==> after.index.contains_key(id),
{
    let ops = spawn_ops(joined) + moves;
    lemma_ops_index_grows(before, ops, after);
    assert forall|id: Seq<char>| #[trigger] joined.contains(id) implies after.index.contains_key(id) by {
        let i = choose|i: int| 0 <= i < joined.len() && joined[i] == id;
        assert(ops[i] == WorldOpView::SpawnRemote(id));
    }
}

/// The roster names every connected player and, when the host plays, the
/// host; it names each of them once when the connected players are distinct.
pub proof fn lemma_roster_complete(connected: Seq<Seq<char>>, host: Option<Seq<char>>)
    ensures
        forall|id: Seq<char>| #[trigger] connected.contains(id) ==> roster_ids(connected, host).contains(id),
        host matches Some(h) ==> roster_ids(connected, host).contains(h),
        connected.no_duplicates() ==> roster_ids(connected, host).no_duplicates(),
{
    if let Some(h) = host {
        lemma_add_unique(connected, h);
    }
}

proof fn lemma_add_unique(ids: Seq<Seq<char>>, id: Seq<char>)
    ensures
        ids.no_duplicates() ==> add_unique(ids, id).no_duplicates(),
        add_unique(ids, id).contains(id),
        forall|x: Seq<char>| #[trigger] add_unique(ids, id).contains(x) <==> (ids.contains(x) || x == id),
{
    if !ids.contains(id) {
        let s = ids.push(id);
        assert(s[ids.len() as int] == id);
        assert forall|x: Seq<char>| #[trigger] s.contains(x) implies (ids.contains(x) || x == id) by {
            let i = choose|i: int| 0 <= i < s.len() && s[i] == x;
            if i < ids.len() {
                assert(ids[i] == x);
            }
        }
        assert forall|x: Seq<char>| ids.contains(x) implies #[trigger] s.contains(x) by {
            let i = choose|i: int| 0 <= i < ids.len() && ids[i] == x;
            assert(s[i] == x);
        }
    }
}

/// The players a server poll reports as joined, and those it reports as
/// leaving, are each listed once.
pub proof fn lemma_tally_lists_unique(inbox: Seq<PlayerInboxView>, connected: Seq<Seq<char>>)
    ensures
        server_tally(inbox, connected).joined.no_duplicates(),
        server_tally(inbox, connected).leaving.no_duplicates(),
    decreases inbox.len(),
{
    if inbox.len() > 0 {
        let t0 = server_tally(inbox.drop_last(), connected);
        let e = inbox.last();
        lemma_tally_lists_unique(inbox.drop_last(), connected);
        match e.reliable {
            Received::Message(ReliableClientMessageView::PlayerJoined { player_id }) => {
                lemma_add_unique(t0.joined, player_id);
            },
            Received::Message(ReliableClientMessageView::Quit { player_id }) => {
                lemma_add_unique(t0.leaving, player_id);
            },
            Received::Empty => {},
            Received::Closed => {
                lemma_add_unique(t0.leaving, e.player_id);
            },
        }
        let t1 = match e.reliable {
            Received::Message(ReliableClientMessageView::PlayerJoined { player_id }) => ServerTally {
                joined: add_unique(t0.joined, player_id),
                leaving: t0.leaving,
                reply_to: if connected.contains(player_id) {
                    t0.reply_to.push(player_id)
                } else {
                    t0.reply_to
                },
                ops: t0.ops.push(WorldOpView::SpawnRemote(player_id)),
            },
            Received::Message(ReliableClientMessageView::Quit { player_id }) => ServerTally {
                leaving: add_unique(t0.leaving, player_id),
                ..t0
            },
            Received::Empty => t0,
            Received::Closed => ServerTally { leaving: add_unique(t0.leaving, e.player_id), ..t0 },
        };
        if e.unreliable is Closed {
            lemma_add_unique(t1.leaving, e.player_id);
        }
    }
}

/// The farewell goes to exactly the connected players that do not leave.
pub proof fn lemma_farewell_recipients(ids: Seq<Seq<char>>, gone: Seq<Seq<char>>)
    ensures
        forall|x: Seq<char>| #[trigger] without(ids, gone).contains(x) <==> (ids.contains(x) && !gone.contains(x)),
    decreases ids.len(),
{
    if ids.len() > 0 {
        lemma_farewell_recipients(ids.drop_last(), gone);
        let rest = without(ids.drop_last(), gone);
        assert forall|x: Seq<char>| #[trigger] without(ids, gone).contains(x) <==> (ids.contains(x) && !gone.contains(x)) by {
            if ids.drop_last().contains(x) {
                let i = choose|i: int| 0 <= i < ids.drop_last().len() && ids.drop_last()[i] == x;
                assert(ids[i] == x);
            }
            if ids.contains(x) && x != ids.last() {
                let i = choose|i: int| 0 <= i < ids.len() && ids[i] == x;
                assert(ids.drop_last()[i] == x);
            }
            if !gone.contains(ids.last()) {
                let w = rest.push(ids.last());
                assert(w[rest.len() as int] == ids.last());
                if w.contains(x) && x != ids.last() {
                    let i = choose|i: int| 0 <= i < w.len() && w[i] == x;
                    assert(rest[i] == x);
                }
                if rest.contains(x) {
                    let i = choose|i: int| 0 <= i < rest.len() && rest[i] == x;
                    assert(w[i] == x);
                }
            }
            assert(ids[ids.len() - 1] == ids.last());
        }
    }
}

/// Every id of every join announcement is reported, in arrival order: the
/// ids announced by two runs of messages are those of the first run followed
/// by those of the second.
pub proof fn lemma_joined_ids_concat(a: Seq<ReliableServerMessageView>, b: Seq<ReliableServerMessageView>)
    ensures
        joined_ids(a + b) == joined_ids(a) + joined_ids(b),
    decreases b.len(),
{
    if b.len() == 0 {
        assert(a + b =~= a);
        assert(joined_ids(a) + joined_ids(b) =~= joined_ids(a));
    } else {
        let ab = a + b;
        assert(ab.drop_last() =~= a + b.drop_last());
        assert(ab.last() == b.last());
        lemma_joined_ids_concat(a, b.drop_last());
        let tail = match b.last() {
            ReliableServerMessageView::PlayersJoined { player_ids } => player_ids,
            _ => Seq::<Seq<char>>::empty(),
        };
        assert(joined_ids(ab) == joined_ids(a + b.drop_last()) + tail);
        assert(joined_ids(b) == joined_ids(b.drop_last()) + tail);
        assert((joined_ids(a) + joined_ids(b.drop_last())) + tail =~= joined_ids(a) + (joined_ids(
            b.drop_last(),
        ) + tail));
    }
}

/// One message announces as joined exactly the ids it carries if it is a
/// join announcement, and nobody otherwise.
pub proof fn lemma_joined_ids_single(m: ReliableServerMessageView)
    ensures
        joined_ids(seq![m]) == match m {
            ReliableServerMessageView::PlayersJoined { player_ids } => player_ids,
            _ => Seq::<Seq<char>>::empty(),
        },
{
    let s = seq![m];
    assert(s.drop_last() =~= Seq::<ReliableServerMessageView>::empty());
    assert(s.last() == m);
    assert(joined_ids(s.drop_last()) == Seq::<Seq<char>>::empty());
    assert(Seq::<Seq<char>>::empty() + joined_ids(s) =~= joined_ids(s));
    match m {
        ReliableServerMessageView::PlayersJoined { player_ids } => {
            assert(Seq::<Seq<char>>::empty() + player_ids =~= player_ids);
        },
        _ => {
            assert(Seq::<Seq<char>>::empty() + Seq::<Seq<char>>::empty() =~= Seq::<Seq<char>>::empty());
        },
    }
}

/// Every id of every leave announcement is reported, in arrival order: the
/// ids announced by two runs of messages are those of the first run followed
/// by those of the second.
pub proof fn lemma_left_ids_concat(a: Seq<ReliableServerMessageView>, b: Seq<ReliableServerMessageView>)
    ensures
        left_ids(a + b) == left_ids(a) + left_ids(b),
    decreases b.len(),
{
    if b.len() == 0 {
        assert(a + b =~= a);
        assert(left_ids(a) + left_ids(b) =~= left_ids(a));
    } else {
        let ab = a + b;
        assert(ab.drop_last() =~= a + b.drop_last());
        assert(ab.last() == b.last());
        lemma_left_ids_concat(a, b.drop_last());
        let tail = match b.last() {
            ReliableServerMessageView::PlayersLeft { player_ids } => player_ids,
            _ => Seq::<Seq<char>>::empty(),
        };
        assert(left_ids(ab) == left_ids(a + b.drop_last()) + tail);
        assert(left_ids(b) == left_ids(b.drop_last()) + tail);
        assert((left_ids(a) + left_ids(b.drop_last())) + tail =~= left_ids(a) + (left_ids(b.drop_last())
            + tail));
    }
}

/// One message announces as gone exactly the ids it carries if it is a leave
/// announcement, and nobody otherwise.
pub proof fn lemma_left_ids_single(m: ReliableServerMessageView)
    ensures
        left_ids(seq![m]) == match m {
            ReliableServerMessageView::PlayersLeft { player_ids } => player_ids,
            _ => Seq::<Seq<char>>::empty(),
        },
{
    let s = seq![m];
    assert(s.drop_last() =~= Seq::<ReliableServerMessageView>::empty());
    assert(s.last() == m);
    assert(left_ids(s.drop_last()) == Seq::<Seq<char>>::empty());
    match m {
        ReliableServerMessageView::PlayersLeft { player_ids } => {
            assert(Seq::<Seq<char>>::empty() + player_ids =~= player_ids);
        },
        _ => {
            assert(Seq::<Seq<char>>::empty() + Seq::<Seq<char>>::empty() =~= Seq::<Seq<char>>::empty());
        },
    }
}

/// Position updates become moves in arrival order: the moves asked for by two
/// runs of updates are those of the first run followed by those of the second.
pub proof fn lemma_remote_moves_concat(
    a: Seq<UnreliableServerMessageView>,
    b: Seq<UnreliableServerMessageView>,
    local_id: Seq<char>,
)
    ensures
        remote_moves(a + b, local_id) == remote_moves(a, local_id) + remote_moves(b, local_id),
    decreases b.len(),
{
    if b.len() == 0 {
        assert(a + b =~= a);
        assert(remote_moves(a, local_id) + remote_moves(b, local_id) =~= remote_moves(a, local_id));
    } else {
        let ab = a + b;
        assert(ab.drop_last() =~= a + b.drop_last());
        assert(ab.last() == b.last());
        lemma_remote_moves_concat(a, b.drop_last(), local_id);
        let ra = remote_moves(a, local_id);
        let rb = remote_moves(b.drop_last(), local_id);
        match b.last() {
            UnreliableServerMessageView::PlayerPosition(id, pos) => {
                if id != local_id {
                    assert((ra + rb).push(WorldOpView::Move(id, pos)) =~= ra + rb.push(WorldOpView::Move(id, pos)));
                }
            },
        }
    }
}

/// One update about another player asks for exactly that player's move; one
/// about the local player asks for nothing.
pub proof fn lemma_remote_moves_single(m: UnreliableServerMessageView, local_id: Seq<char>)
    ensures
        remote_moves(seq![m], local_id) == match m {
            UnreliableServerMessageView::PlayerPosition(id, pos) => if id == local_id {
                Seq::<WorldOpView>::empty()
            } else {
                seq![WorldOpView::Move(id, pos)]
            },
        },
{
    let s = seq![m];
    assert(s.drop_last() =~= Seq::<UnreliableServerMessageView>::empty());
    assert(s.last() == m);
    assert(remote_moves(s.drop_last(), local_id) == Seq::<WorldOpView>::empty());
    match m {
        UnreliableServerMessageView::PlayerPosition(id, pos) => {
            if id != local_id {
                assert(Seq::<WorldOpView>::empty().push(WorldOpView::Move(id, pos)) =~= seq![
                    WorldOpView::Move(id, pos),
                ]);
            }
        },
    }
}

/// World changes apply one after the other: changing the world by `a + b` is
/// changing it by `a` and then, from there, by `b`.
pub proof fn lemma_ops_result_concat(
    before: WorldView,
    a: Seq<WorldOpView>,
    b: Seq<WorldOpView>,
    after: WorldView,
)
    ensures
        ops_result(before, a + b, after) <==> exists|mid: WorldView|
            #[trigger] ops_result(before, a, mid) && ops_result(mid, b, after),
    decreases b.len(),
{
    if b.len() == 0 {
        assert(a + b =~= a);
        if ops_result(before, a, after) {
            assert(ops_result(after, b, after));
        }
    } else {
        let ab = a + b;
        assert(ab.drop_last() =~= a + b.drop_last());
        assert(ab.last() == b.last());
        if ops_result(before, ab, after) {
            let m2 = choose|m2: WorldView|
                ops_result(before, ab.drop_last(), m2) && #[trigger] op_step(m2, ab.last(), after);
            lemma_ops_result_concat(before, a, b.drop_last(), m2);
            let mid = choose|mid: WorldView|
                #[trigger] ops_result(before, a, mid) && ops_result(mid, b.drop_last(), m2);
            assert(ops_result(mid, b, after));
        }
        if exists|mid: WorldView| #[trigger] ops_result(before, a, mid) && ops_result(mid, b, after) {
            let mid = choose|mid: WorldView| #[trigger] ops_result(before, a, mid) && ops_result(mid, b, after);
            let m2 = choose|m2: WorldView|
                ops_result(mid, b.drop_last(), m2) && #[trigger] op_step(m2, b.last(), after);
            lemma_ops_result_concat(before, a, b.drop_last(), m2);
            assert(ops_result(before, a + b.drop_last(), m2));
            assert(ops_result(before, ab, after));
        }
    }
}

/// A client never moves its own player on the server's word: position
/// updates about the local id yield no world change.
pub proof fn lemma_own_updates_ignored(msgs: Seq<UnreliableServerMessageView>, local_id: Seq<char>)
    ensures
        forall|i: int| #![trigger remote_moves(msgs, local_id)[i]]
            0 <= i < remote_moves(msgs, local_id).len() ==> (remote_moves(msgs, local_id)[i] matches WorldOpView::Move(
                id,
                _,
            ) && id != local_id),
    decreases msgs.len(),
{
    if msgs.len() > 0 {
        lemma_own_updates_ignored(msgs.drop_last(), local_id);
        let rest = remote_moves(msgs.drop_last(), local_id);
        assert forall|i: int| #![trigger remote_moves(msgs, local_id)[i]]
            0 <= i < remote_moves(msgs, local_id).len() implies (remote_moves(msgs, local_id)[i] matches WorldOpView::Move(
            id,
            _,
        ) && id != local_id) by {
            if i < rest.len() {
                assert(remote_moves(msgs, local_id)[i] == rest[i]);
            }
        }
    }
}

impl GameState {
    /// Applies `ops` to the world in order.
    pub fn apply_world_ops(&mut self, ops: &Vec<WorldOp>)
        requires
            old(self).wf(),
        ensures
            final(self).wf(),
            final(self).session() == old(self).session(),
            ops_result(old(self).world_view(), ops_view(ops@), final(self).world_view()),
            order_grown(old(self).order(), old(self).rows(), final(self).order(), final(self).rows()),
    {
        let mut i: usize = 0;
        assert(ops_view(ops@).take(0) =~= Seq::<WorldOpView>::empty());
        proof {
            lemma_order_grown_keep(self.order(), self.rows(), self.rows());
        }
        while i < ops.len()
            invariant
                self.wf(),
                self.session() == old(self).session(),
                i <= ops@.len(),
                ops_result(old(self).world_view(), ops_view(ops@).take(i as int), self.world_view()),
                order_grown(old(self).order(), old(self).rows(), self.order(), self.rows()),
            decreases ops@.len() - i,
        {
            let ghost mid = self.world_view();
            let ghost mid_order = self.order();
            match &ops[i] {
                WorldOp::SpawnRemote(id) => {
                    let spawned = self.spawn_remote_player(id.clone());
                    proof {
                        match spawned {
                            Some(key) => {
                                let j = choose|j: int|
                                    0 <= j <= mid_order.len() && self.order() == mid_order.insert(j, key);
                                lemma_order_grown_spawn(mid_order, mid.rows, key, self.rows()[key], j);
                                assert(self.rows() == mid.rows.insert(key, self.rows()[key]));
                            },
                            None => {
                                lemma_order_grown_keep(mid_order, mid.rows, self.rows());
                            },
                        }
                    }
                },
                WorldOp::Move(id, pos) => {
                    self.update_player_with_remote_data(id, pos);
                    assert(self.world_view() =~= WorldView {
                        rows: rows_moved(mid.rows, id@, *pos),
                        index: mid.index,
                    });
                    assert(self.rows().dom() =~= mid.rows.dom());
                    proof {
                        lemma_order_grown_keep(mid_order, mid.rows, self.rows());
                    }
                },
            }
            proof {
                lemma_order_grown_trans(
                    old(self).order(),
                    old(self).rows(),
                    mid_order,
                    mid.rows,
                    self.order(),
                    self.rows(),
                );
            }
            proof {
                let pre = ops_view(ops@).take(i as int + 1);
                assert(pre.drop_last() =~= ops_view(ops@).take(i as int));
                assert(pre.last() == ops@[i as int]@);
                assert(op_step(mid, pre.last(), self.world_view()));
            }
            i = i + 1;
        }
        assert(ops_view(ops@).take(ops@.len() as int) =~= ops_view(ops@));
    }

    /// One poll of a client session. `reliable` and `unreliable` are the
    /// messages the server sent since the last poll, in arrival order. Each
    /// player announced as joined is spawned (unless indexed already), each
    /// position update of another player moves that player, and the position
    /// of the local player is reported back. Without a client session nothing
    /// happens.
    pub fn poll_client(
        &mut self,
        reliable: Vec<ReliableServerMessage>,
        unreliable: Vec<UnreliableServerMessage>,
    ) -> (poll: ClientPoll)
        requires
            old(self).wf(),
        ensures
            final(self).wf(),
            final(self).session() == old(self).session(),
            old(self).session() matches Some(SessionView::Client { local_id, .. }) ==> {
                &&& poll.result.new_players.deep_view() == joined_ids(reliable_server_views(reliable@))
                &&& poll.result.leaving_players.deep_view() == left_ids(reliable_server_views(reliable@))
                &&& ops_result(
                    old(self).world_view(),
                    spawn_ops(joined_ids(reliable_server_views(reliable@)))
                        + remote_moves(unreliable_server_views(unreliable@), local_id),
                    final(self).world_view(),
                )
                &&& poll.report == position_report(final(self).world_view(), local_id)
            },
            !(old(self).session() matches Some(SessionView::Client { .. })) ==> {
                &&& poll.result.new_players@.len() == 0
                &&& poll.result.leaving_players@.len() == 0
                &&& poll.report is None
                &&& final(self).world_view() == old(self).world_view()
            },
            order_grown(old(self).order(), old(self).rows(), final(self).order(), final(self).rows()),
    {
        let local_id = match self.client_id() {
            Some(id) => id,
            None => {
                proof {
                    lemma_order_grown_keep(self.order(), self.rows(), self.rows());
                }
                return ClientPoll {
                    result: PollResult { new_players: Vec::new(), leaving_players: Vec::new() },
                    report: None,
                };
            },
        };
        let ghost rv = reliable_server_views(reliable@);
        let ghost uv = unreliable_server_views(unreliable@);
        let mut new_players: Vec<PlayerId> = Vec::new();
        let mut leaving_players: Vec<PlayerId> = Vec::new();
        let mut ops: Vec<WorldOp> = Vec::new();
        let mut i: usize = 0;
        assert(rv.take(0) =~= Seq::<ReliableServerMessageView>::empty());
        while i < reliable.len()
            invariant
                i <= reliable@.len(),
                rv == reliable_server_views(reliable@),
                new_players.deep_view() == joined_ids(rv.take(i as int)),
                leaving_players.deep_view() == left_ids(rv.take(i as int)),
                ops_view(ops@) == spawn_ops(joined_ids(rv.take(i as int))),
            decreases reliable@.len() - i,
        {
            proof {
                let pre = rv.take(i as int + 1);
                assert(pre.drop_last() =~= rv.take(i as int));
                assert(pre.last() == reliable@[i as int]@);
            }
            match &reliable[i] {
                ReliableServerMessage::PlayersJoined { player_ids } => {
                    push_spawns(&mut ops, player_ids);
                    extend_ids(&mut new_players, player_ids);
                    proof {
                        let pre = rv.take(i as int + 1);
                        assert(joined_ids(pre) == joined_ids(rv.take(i as int)) + player_ids.deep_view());
                        assert(spawn_ops(joined_ids(pre)) =~= spawn_ops(joined_ids(rv.take(i as int)))
                            + spawn_ops(player_ids.deep_view()));
                        assert(left_ids(pre) =~= left_ids(rv.take(i as int)));
                    }
                },
                ReliableServerMessage::PlayersLeft { player_ids } => {
                    extend_ids(&mut leaving_players, player_ids);
                    proof {
                        let pre = rv.take(i as int + 1);
                        assert(joined_ids(pre) =~= joined_ids(rv.take(i as int)));
                        assert(left_ids(pre) == left_ids(rv.take(i as int)) + player_ids.deep_view());
                    }
                },
                _ => {
                    proof {
                        let pre = rv.take(i as int + 1);
                        assert(joined_ids(pre) =~= joined_ids(rv.take(i as int)));
                        assert(left_ids(pre) =~= left_ids(rv.take(i as int)));
                    }
                },
            }
            i = i + 1;
        }
        assert(rv.take(reliable@.len() as int) =~= rv);
        let ghost spawns = ops_view(ops@);
        let mut j: usize = 0;
        assert(uv.take(0) =~= Seq::<UnreliableServerMessageView>::empty());
        assert(spawns + remote_moves(uv.take(0), local_id@) =~= spawns);
        while j < unreliable.len()
            invariant
                j <= unreliable@.len(),
                uv == unreliable_server_views(unreliable@),
                ops_view(ops@) == spawns + remote_moves(uv.take(j as int), local_id@),
            decreases unreliable@.len() - j,
        {
            proof {
                let pre = uv.take(j as int + 1);
                assert(pre.drop_last() =~= uv.take(j as int));
                assert(pre.last() == unreliable@[j as int]@);
            }
            match &unreliable[j] {
                UnreliableServerMessage::PlayerPosition(remote_id, position) => {
                    if *remote_id != local_id {
                        let ghost before = ops@;
                        ops.push(WorldOp::Move(remote_id.clone(), *position));
                        assert(ops_view(ops@) =~= ops_view(before).push(WorldOpView::Move(remote_id@, *position)));
                    }
                },
            }
            j = j + 1;
        }
        assert(uv.take(unreliable@.len() as int) =~= uv);
        self.apply_world_ops(&ops);
        let report = match self.get_local_player_component() {
            Some(player) => Some(UnreliableClientMessage::PlayerPosition(player.position)),
            None => None,
        };
        ClientPoll { result: PollResult { new_players, leaving_players }, report }
    }

    /// Where every player of the world is, one message per row, in store order.
    pub fn position_broadcast(&self) -> (messages: Vec<UnreliableServerMessage>)
        ensures
            exists|keys: Seq<u64>|
                {
                    &&& keys.no_duplicates()
                    &&& keys.to_set() == self.rows().dom()
                    &&& unreliable_server_views(messages@) == position_messages(self.rows(), keys)
                },
            unreliable_server_views(messages@) == position_messages(self.rows(), self.order()),
    {
        let snapshot = world_snapshot(&self.world);
        proof {
            self.lemma_rows_of_world();
        }
        let ghost rows = self.rows();
        let ghost keys = snapshot@.map_values(|r: (u64, PlayerId, crate::game_state::Player)| r.0);
        let mut messages: Vec<UnreliableServerMessage> = Vec::new();
        let mut i: usize = 0;
        while i < snapshot.len()
            invariant
                rows == self.rows(),
                i <= snapshot@.len(),
                keys == snapshot@.map_values(|r: (u64, PlayerId, crate::game_state::Player)| r.0),
                forall|a: int|
                    0 <= a < snapshot@.len() ==> rows.contains_key(#[trigger] snapshot@[a].0)
                        && rows[snapshot@[a].0] == (snapshot@[a].1@, snapshot@[a].2),
                unreliable_server_views(messages@) == position_messages(rows, keys.take(i as int)),
            decreases snapshot@.len() - i,
        {
            let row = &snapshot[i];
            let ghost before = messages@;
            messages.push(UnreliableServerMessage::PlayerPosition(row.1.clone(), row.2.position));
            assert(unreliable_server_views(messages@) =~= unreliable_server_views(before).push(
                UnreliableServerMessageView::PlayerPosition(row.1@, row.2.position),
            ));
            assert(keys.take(i as int + 1) =~= keys.take(i as int).push(keys[i as int]));
            assert(position_messages(rows, keys.take(i as int + 1)) =~= position_messages(
                rows,
                keys.take(i as int),
            ).push(UnreliableServerMessageView::PlayerPosition(row.1@, row.2.position)));
            i = i + 1;
        }
        proof {
            assert(keys.take(snapshot@.len() as int) =~= keys);
            assert(keys == self.order());
            assert(keys.no_duplicates()) by {
                assert forall|a: int, b: int| 0 <= a < keys.len() && 0 <= b < keys.len() && a != b implies keys[a]
                    != keys[b] by {
                    assert(snapshot@[a].0 != snapshot@[b].0);
                }
            }
            assert(keys.to_set() =~= rows.dom()) by {
                assert forall|k: u64| #[trigger] rows.dom().contains(k) implies keys.to_set().contains(k) by {
                    let a = choose|a: int| 0 <= a < snapshot@.len() && #[trigger] snapshot@[a].0 == k;
                    assert(keys[a] == k);
                }
                assert forall|k: u64| keys.to_set().contains(k) implies #[trigger] rows.dom().contains(k) by {
                    let a = choose|a: int| 0 <= a < keys.len() && keys[a] == k;
                    assert(rows.contains_key(snapshot@[a].0));
                }
            }
        }
        messages
    }

    /// One poll of a server session. `inbox` holds, for each connected
    /// player, what its two channels gave since the last poll. The server
    /// spawns joined players, moves players that sent their position, notes
    /// players that quit or whose channel closed, and says what to send: the
    /// roster to each joined player, every position and the joined players to
    /// everyone, and the leaving players to those who stay. Without a server
    /// session nothing happens.
    pub fn poll_server(&mut self, inbox: Vec<PlayerInbox>) -> (poll: ServerPoll)
        requires
            old(self).wf(),
        ensures
            final(self).wf(),
            final(self).session() == old(self).session(),
            old(self).session() matches Some(SessionView::Server { server_id, host_player })
                ==> server_poll_outcome(
                old(self).world_view(),
                host_of(server_id, host_player),
                inbox_views(inbox@),
                poll,
                final(self).world_view(),
                final(self).order(),
            ),
            !(old(self).session() matches Some(SessionView::Server { .. })) ==> {
                &&& poll.result.new_players@.len() == 0
                &&& poll.result.leaving_players@.len() == 0
                &&& poll.roster_recipients@.len() == 0
                &&& poll.recipients@.len() == 0
                &&& poll.positions@.len() == 0
                &&& poll.announcement is None
                &&& poll.farewell is None
                &&& poll.farewell_recipients@.len() == 0
                &&& final(self).world_view() == old(self).world_view()
            },
            order_grown(old(self).order(), old(self).rows(), final(self).order(), final(self).rows()),
    {
        let host = match self.server_host() {
            Some(h) => h,
            None => {
                proof {
                    lemma_order_grown_keep(self.order(), self.rows(), self.rows());
                }
                return ServerPoll {
                    result: PollResult { new_players: Vec::new(), leaving_players: Vec::new() },
                    roster_recipients: Vec::new(),
                    roster: ReliableServerMessage::PlayersJoined { player_ids: Vec::new() },
                    recipients: Vec::new(),
                    positions: Vec::new(),
                    announcement: None,
                    farewell_recipients: Vec::new(),
                    farewell: None,
                };
            },
        };
        let ghost iv = inbox_views(inbox@);
        let mut connected: Vec<PlayerId> = Vec::new();
        let mut i: usize = 0;
        while i < inbox.len()
            invariant
                i <= inbox@.len(),
                iv == inbox_views(inbox@),
                connected.deep_view() == inbox_ids(iv).take(i as int),
            decreases inbox@.len() - i,
        {
            let ghost before = connected.deep_view();
            connected.push(inbox[i].player_id.clone());
            assert(connected.deep_view() =~= before.push(inbox@[i as int].player_id@));
            assert(inbox_ids(iv).take(i as int + 1) =~= inbox_ids(iv).take(i as int).push(iv[i as int].player_id));
            i = i + 1;
        }
        assert(inbox_ids(iv).take(inbox@.len() as int) =~= inbox_ids(iv));
        let ghost conn = inbox_ids(iv);
        let mut roster_list: Vec<PlayerId> = Vec::new();
        extend_ids(&mut roster_list, &connected);
        assert(roster_list.deep_view() =~= conn);
        match &host {
            Some(h) => {
                if !contains_id(&roster_list, h) {
                    let ghost before = roster_list.deep_view();
                    roster_list.push(h.clone());
                    assert(roster_list.deep_view() =~= before.push(h@));
                }
            },
            None => {},
        }
        let mut joined: Vec<PlayerId> = Vec::new();
        let mut leaving: Vec<PlayerId> = Vec::new();
        let mut reply_to: Vec<PlayerId> = Vec::new();
        let mut ops: Vec<WorldOp> = Vec::new();
        let mut j: usize = 0;
        assert(iv.take(0) =~= Seq::<PlayerInboxView>::empty());
        assert(ops_view(ops@) =~= Seq::<WorldOpView>::empty());
        assert(joined.deep_view() =~= Seq::<Seq<char>>::empty());
        assert(leaving.deep_view() =~= Seq::<Seq<char>>::empty());
        assert(reply_to.deep_view() =~= Seq::<Seq<char>>::empty());
        assert(tally_of(joined.deep_view(), leaving.deep_view(), reply_to.deep_view(), ops@) =~= server_tally(
            iv.take(0),
            conn,
        ));
        while j < inbox.len()
            invariant
                j <= inbox@.len(),
                iv == inbox_views(inbox@),
                connected.deep_view() == conn,
                tally_of(joined.deep_view(), leaving.deep_view(), reply_to.deep_view(), ops@) == server_tally(
                    iv.take(j as int),
                    conn,
                ),
            decreases inbox@.len() - j,
        {
            tally_inbox(&inbox[j], &connected, &mut joined, &mut leaving, &mut reply_to, &mut ops);
            proof {
                let pre = iv.take(j as int + 1);
                assert(pre.drop_last() =~= iv.take(j as int));
                assert(pre.last() == inbox@[j as int]@);
            }
            j = j + 1;
        }
        assert(iv.take(inbox@.len() as int) =~= iv);
        self.apply_world_ops(&ops);
        let positions = self.position_broadcast();
        proof {
            let keys = choose|keys: Seq<u64>|
                {
                    &&& keys.no_duplicates()
                    &&& keys.to_set() == self.rows().dom()
                    &&& unreliable_server_views(positions@) == position_messages(self.rows(), keys)
                };
            assert(position_messages(self.world_view().rows, keys) == unreliable_server_views(positions@));
        }
        let announcement = if joined.len() > 0 {
            let mut ids: Vec<PlayerId> = Vec::new();
            extend_ids(&mut ids, &joined);
            assert(ids.deep_view() =~= joined.deep_view());
            Some(ReliableServerMessage::PlayersJoined { player_ids: ids })
        } else {
            None
        };
        let farewell = if leaving.len() > 0 {
            let mut ids: Vec<PlayerId> = Vec::new();
            extend_ids(&mut ids, &leaving);
            assert(ids.deep_view() =~= leaving.deep_view());
            Some(ReliableServerMessage::PlayersLeft { player_ids: ids })
        } else {
            None
        };
        let mut farewell_recipients: Vec<PlayerId> = Vec::new();
        let mut k: usize = 0;
        assert(conn.take(0) =~= Seq::<Seq<char>>::empty());
        while k < connected.len()
            invariant
                k <= connected@.len(),
                connected.deep_view() == conn,
                farewell_recipients.deep_view() == without(conn.take(k as int), leaving.deep_view()),
            decreases connected@.len() - k,
        {
            let ghost pre = conn.take(k as int + 1);
            assert(pre.drop_last() =~= conn.take(k as int));
            assert(pre.last() == connected@[k as int]@);
            if !contains_id(&leaving, &connected[k]) {
                let ghost before = farewell_recipients.deep_view();
                farewell_recipients.push(connected[k].clone());
                assert(farewell_recipients.deep_view() =~= before.push(connected@[k as int]@));
            }
            k = k + 1;
        }
        assert(conn.take(connected@.len() as int) =~= conn);
        ServerPoll {
            result: PollResult { new_players: joined, leaving_players: leaving },
            roster_recipients: reply_to,
            roster: ReliableServerMessage::PlayersJoined { player_ids: roster_list },
            recipients: connected,
            positions,
            announcement,
            farewell_recipients,
            farewell,
        }
    }
}

} // verus!
