//! The game world of one session: the players, their records, and which
//! entity stands for which player id.
use crate::ecs::{
    world_despawn, world_new, world_order, world_player, world_rows, world_set_player, world_snapshot, world_spawn,
};
use crate::messages::{PlayerId, PlayerPosition};
use hecs::World;
use vstd::hash_map::StringHashMap;
use vstd::prelude::*;
use vstd::string::*;

verus! {

/// The state of the four movement keys.
#[derive(Clone, Copy, Debug, PartialEq, Eq, Structural)]
pub struct InputData {
    pub up: bool,
    pub down: bool,
    pub left: bool,
    pub right: bool,
}

/// The record the world keeps of one player. Sizes are `f32` bit patterns, as
/// the coordinates of [`PlayerPosition`] are.
#[derive(Clone, Copy, Debug, PartialEq, Eq, Structural)]
pub struct Player {
    pub position: PlayerPosition,
    pub width_bits: u32,
    pub height_bits: u32,
    pub is_local: bool,
}

/// Bit pattern of `50.0_f32`, the width of a new player.
pub const DEFAULT_PLAYER_WIDTH_BITS: u32 = 0x4248_0000;

/// Bit pattern of `50.0_f32`, the height of a new player.
pub const DEFAULT_PLAYER_HEIGHT_BITS: u32 = 0x4248_0000;

/// The position every player starts at: `(0.0, 0.0)`.
pub open spec fn default_position() -> PlayerPosition {
    PlayerPosition { x_bits: 0, y_bits: 0 }
}

/// The record of a newly spawned player.
pub open spec fn fresh_player(is_local: bool) -> Player {
    Player {
        position: default_position(),
        width_bits: DEFAULT_PLAYER_WIDTH_BITS,
        height_bits: DEFAULT_PLAYER_HEIGHT_BITS,
        is_local,
    }
}

/// `player` moved to `position`.
pub open spec fn moved(player: Player, position: PlayerPosition) -> Player {
    Player { position, ..player }
}

/// Builds the record of a newly spawned player.
pub fn new_player(is_local: bool) -> (player: Player)
    ensures
        player == fresh_player(is_local),
{
    Player {
        position: PlayerPosition { x_bits: 0, y_bits: 0 },
        width_bits: DEFAULT_PLAYER_WIDTH_BITS,
        height_bits: DEFAULT_PLAYER_HEIGHT_BITS,
        is_local,
    }
}

/// What a poll reports to the presentation layer.
#[derive(Clone, Debug)]
pub struct PollResult {
    pub new_players: Vec<PlayerId>,
    pub leaving_players: Vec<PlayerId>,
}

/// The session this peer takes part in.
#[derive(Clone, Debug)]
pub enum Session {
    /// Connected to a server, playing as `local_id`.
    Client { local_id: PlayerId, local_player: u64 },
    /// Hosting a server identified by `server_id`; `host_player` is the host's own player.
    Server { server_id: PlayerId, host_player: Option<u64> },
}

/// The mathematical content of a [`Session`].
pub enum SessionView {
    Client { local_id: Seq<char>, local_player: u64 },
    Server { server_id: Seq<char>, host_player: Option<u64> },
}

impl View for Session {
    type V = SessionView;

    open spec fn view(&self) -> SessionView {
        match self {
            Session::Client { local_id, local_player } => SessionView::Client {
                local_id: local_id@,
                local_player: *local_player,
            },
            Session::Server { server_id, host_player } => SessionView::Server {
                server_id: server_id@,
                host_player: *host_player,
            },
        }
    }
}

/// The id this peer plays under in a session.
pub open spec fn local_id_of(session: SessionView) -> Seq<char> {
    match session {
        SessionView::Client { local_id, .. } => local_id,
        SessionView::Server { server_id, .. } => server_id,
    }
}

/// The world of a game, seen as the rows of the entity store (entity key to
/// player id and record) and the index from player id to the entity that stands
/// for that player.
#[verifier::ext_equal]
pub struct WorldView {
    pub rows: Map<u64, (Seq<char>, Player)>,
    pub index: Map<Seq<char>, u64>,
}

/// Every indexed player id points at a live row that carries that id.
pub open spec fn index_consistent(v: WorldView) -> bool {
    forall|id: Seq<char>|
        #[trigger] v.index.contains_key(id) ==> v.rows.contains_key(v.index[id]) && v.rows[v.index[id]].0
            == id
}

/// The rows after every player carrying `id` moved to `position`.
pub open spec fn rows_moved(
    rows: Map<u64, (Seq<char>, Player)>,
    id: Seq<char>,
    position: PlayerPosition,
) -> Map<u64, (Seq<char>, Player)> {
    Map::new(
        |k: u64| rows.contains_key(k),
        |k: u64|
            if rows[k].0 == id {
                (rows[k].0, moved(rows[k].1, position))
            } else {
                rows[k]
            },
    )
}

/// The rows after the player of row `k` moved to `position`.
pub open spec fn row_moved(
    rows: Map<u64, (Seq<char>, Player)>,
    k: u64,
    position: PlayerPosition,
) -> Map<u64, (Seq<char>, Player)> {
    rows.insert(k, (rows[k].0, moved(rows[k].1, position)))
}

/// Some row carries the id `id`.
pub open spec fn carries(rows: Map<u64, (Seq<char>, Player)>, id: Seq<char>) -> bool {
    exists|k: u64| #[trigger] rows.contains_key(k) && rows[k].0 == id
}

/// The rows of players that are not local to this peer.
pub open spec fn remote_keys(rows: Map<u64, (Seq<char>, Player)>) -> Set<u64> {
    Set::new(|k: u64| rows.contains_key(k) && !rows[k].1.is_local)
}

/// The rows of players that are not local to this peer, as (id, record), in
/// the store order `order`.
pub open spec fn remote_list(rows: Map<u64, (Seq<char>, Player)>, order: Seq<u64>) -> Seq<(Seq<char>, Player)>
    decreases order.len(),
{
    if order.len() == 0 {
        Seq::empty()
    } else {
        let rest = remote_list(rows, order.drop_last());
        if rows[order.last()].1.is_local {
            rest
        } else {
            rest.push(rows[order.last()])
        }
    }
}

/// The first row, in the store order `order`, that carries `id`.
pub open spec fn first_carrier(rows: Map<u64, (Seq<char>, Player)>, order: Seq<u64>, id: Seq<char>) -> Option<u64>
    decreases order.len(),
{
    if order.len() == 0 {
        None
    } else if rows[order[0]].0 == id {
        Some(order[0])
    } else {
        first_carrier(rows, order.drop_first(), id)
    }
}

proof fn lemma_first_carrier(rows: Map<u64, (Seq<char>, Player)>, order: Seq<u64>, id: Seq<char>)
    ensures
        first_carrier(rows, order, id) matches Some(k) ==> exists|i: int|
            0 <= i < order.len() && order[i] == k && rows[k].0 == id && forall|a: int|
                0 <= a < i ==> #[trigger] rows[order[a]].0 != id,
        first_carrier(rows, order, id) is None ==> forall|a: int| 0 <= a < order.len() ==> #[trigger] rows[order[a]].0 != id,
    decreases order.len(),
{
    if order.len() > 0 && rows[order[0]].0 != id {
        let rest = order.drop_first();
        lemma_first_carrier(rows, rest, id);
        assert forall|a: int| 1 <= a < order.len() implies #[trigger] order[a] == rest[a - 1] by {}
        if let Some(k) = first_carrier(rows, rest, id) {
            let i = choose|i: int|
                0 <= i < rest.len() && rest[i] == k && rows[k].0 == id && forall|a: int|
                    0 <= a < i ==> #[trigger] rows[rest[a]].0 != id;
            assert(order[i + 1] == k);
            assert forall|a: int| 0 <= a < i + 1 implies #[trigger] rows[order[a]].0 != id by {
                if a > 0 {
                    assert(order[a] == rest[a - 1]);
                }
            }
        } else {
            assert forall|a: int| 0 <= a < order.len() implies #[trigger] rows[order[a]].0 != id by {
                if a > 0 {
                    assert(order[a] == rest[a - 1]);
                }
            }
        }
    }
}

/// Rows that agree on every key of `order` give the same remote list.
proof fn lemma_remote_list_agree(
    rows1: Map<u64, (Seq<char>, Player)>,
    rows2: Map<u64, (Seq<char>, Player)>,
    order: Seq<u64>,
)
    requires
        forall|i: int| 0 <= i < order.len() ==> rows1[#[trigger] order[i]] == rows2[order[i]],
    ensures
        remote_list(rows1, order) == remote_list(rows2, order),
    decreases order.len(),
{
    if order.len() > 0 {
        let rest = order.drop_last();
        assert forall|i: int| 0 <= i < rest.len() implies rows1[#[trigger] rest[i]] == rows2[rest[i]] by {
            assert(rest[i] == order[i]);
        }
        lemma_remote_list_agree(rows1, rows2, rest);
        assert(rows1[order[order.len() - 1]] == rows2[order[order.len() - 1]]);
    }
}

/// Spawning a local player leaves the remote players, and their order, as
/// they were: the new row is local and the store keeps the order of the
/// other rows.
pub proof fn lemma_local_spawn_keeps_remote_list(
    rows: Map<u64, (Seq<char>, Player)>,
    order: Seq<u64>,
    key: u64,
    id: Seq<char>,
    j: int,
)
    requires
        !order.contains(key),
        0 <= j <= order.len(),
    ensures
        remote_list(rows.insert(key, (id, fresh_player(true))), order.insert(j, key)) == remote_list(rows, order),
    decreases order.len(),
{
    let rows2 = rows.insert(key, (id, fresh_player(true)));
    if j == order.len() {
        let o2 = order.insert(j, key);
        assert(o2.drop_last() =~= order);
        assert(o2.last() == key);
        assert forall|i: int| 0 <= i < order.len() implies rows2[#[trigger] order[i]] == rows[order[i]] by {
            assert(order[i] != key);
        }
        lemma_remote_list_agree(rows2, rows, order);
    } else {
        let o2 = order.insert(j, key);
        let rest = order.drop_last();
        assert(o2.drop_last() =~= rest.insert(j, key));
        assert(o2.last() == order.last());
        assert(!rest.contains(key)) by {
            if rest.contains(key) {
                let i = choose|i: int| 0 <= i < rest.len() && rest[i] == key;
                assert(order[i] == key);
            }
        }
        lemma_local_spawn_keeps_remote_list(rows, rest, key, id, j);
        assert(order.last() != key) by {
            assert(order[order.len() - 1] == order.last());
        }
        assert(rows2[order.last()] == rows[order.last()]);
    }
}

/// `m` places each key of `before` at a position of `after`, keeping their order.
pub open spec fn order_embedding(m: Seq<int>, before: Seq<u64>, after: Seq<u64>) -> bool {
    &&& m.len() == before.len()
    &&& forall|i: int, j: int| 0 <= i < j < m.len() ==> m[i] < m[j]
    &&& forall|i: int| 0 <= i < m.len() ==> 0 <= #[trigger] m[i] < after.len() && after[m[i]] == before[i]
}

/// The store went from the rows `before_rows` in the order `before` to the
/// rows `after_rows` in the order `after` by spawning and changing records
/// only: no row went away, the old keys keep their relative order, every key
/// that came into the order is a new row, and the order grew by exactly the
/// number of new rows.
pub open spec fn order_grown(
    before: Seq<u64>,
    before_rows: Map<u64, (Seq<char>, Player)>,
    after: Seq<u64>,
    after_rows: Map<u64, (Seq<char>, Player)>,
) -> bool {
    &&& before_rows.dom().subset_of(after_rows.dom())
    &&& exists|m: Seq<int>| #[trigger] order_embedding(m, before, after)
    &&& forall|k: u64|
        #[trigger] after.contains(k) && !before.contains(k) ==> after_rows.contains_key(k)
            && !before_rows.contains_key(k)
    &&& after.len() - before.len() == after_rows.dom().len() - before_rows.dom().len()
}

/// Changing records, and neither the keys nor their order, grows the store by nothing.
pub proof fn lemma_order_grown_keep(
    order: Seq<u64>,
    rows: Map<u64, (Seq<char>, Player)>,
    changed: Map<u64, (Seq<char>, Player)>,
)
    requires
        changed.dom() == rows.dom(),
    ensures
        order_grown(order, rows, order, changed),
{
    let m = Seq::new(order.len(), |i: int| i);
    assert(order_embedding(m, order, order));
}

/// Spawning one new row, put in somewhere in the order, grows the store.
pub proof fn lemma_order_grown_spawn(
    order: Seq<u64>,
    rows: Map<u64, (Seq<char>, Player)>,
    key: u64,
    row: (Seq<char>, Player),
    j: int,
)
    requires
        rows.dom().finite(),
        !rows.contains_key(key),
        !order.contains(key),
        0 <= j <= order.len(),
    ensures
        order_grown(order, rows, order.insert(j, key), rows.insert(key, row)),
{
    let after = order.insert(j, key);
    let m = Seq::new(order.len(), |i: int| if i < j { i } else { i + 1 });
    assert(order_embedding(m, order, after));
    assert forall|k: u64| #[trigger] after.contains(k) && !order.contains(k) implies k == key by {
        let a = choose|a: int| 0 <= a < after.len() && after[a] == k;
        if a < j {
            assert(order[a] == k);
        } else if a > j {
            assert(order[a - 1] == k);
        }
    }
    assert(rows.insert(key, row).dom() =~= rows.dom().insert(key));
}

/// Growing twice is growing.
pub proof fn lemma_order_grown_trans(
    o1: Seq<u64>,
    r1: Map<u64, (Seq<char>, Player)>,
    o2: Seq<u64>,
    r2: Map<u64, (Seq<char>, Player)>,
    o3: Seq<u64>,
    r3: Map<u64, (Seq<char>, Player)>,
)
    requires
        order_grown(o1, r1, o2, r2),
        order_grown(o2, r2, o3, r3),
    ensures
        order_grown(o1, r1, o3, r3),
{
    let m12 = choose|m: Seq<int>| #[trigger] order_embedding(m, o1, o2);
    let m23 = choose|m: Seq<int>| #[trigger] order_embedding(m, o2, o3);
    let m = Seq::new(o1.len(), |i: int| m23[m12[i]]);
    assert forall|i: int, j: int| 0 <= i < j < m.len() implies m[i] < m[j] by {
        assert(m12[i] < m12[j]);
        assert(0 <= m12[j] < o2.len());
        assert(m23[m12[i]] < m23[m12[j]]);
    }
    assert forall|i: int| 0 <= i < m.len() implies 0 <= #[trigger] m[i] < o3.len() && o3[m[i]] == o1[i] by {
        assert(0 <= m12[i] < o2.len());
        assert(o2[m12[i]] == o1[i]);
        assert(0 <= m23[m12[i]] < o3.len());
    }
    assert(order_embedding(m, o1, o3));
    assert forall|k: u64| #[trigger] o3.contains(k) && !o1.contains(k) implies r3.contains_key(k)
        && !r1.contains_key(k) by {
        if o2.contains(k) {
            assert(o2.contains(k) && !o1.contains(k));
        } else {
            assert(o3.contains(k) && !o2.contains(k));
        }
    }
}

/// `after` is `before` with a remote player `id` spawned, if `id` was not indexed yet.
pub open spec fn spawn_remote_step(before: WorldView, id: Seq<char>, after: WorldView) -> bool {
    if before.index.contains_key(id) {
        after == before
    } else {
        exists|k: u64|
            !before.rows.contains_key(k) && after == (WorldView {
                rows: before.rows.insert(k, (id, fresh_player(false))),
                index: before.index.insert(id, k),
            })
    }
}

/// Adding a fresh row and indexing it under its own id keeps the index consistent.
proof fn lemma_insert_consistent(v: WorldView, k: u64, id: Seq<char>, p: Player)
    requires
        index_consistent(v),
        !v.rows.contains_key(k),
    ensures
        index_consistent(WorldView { rows: v.rows.insert(k, (id, p)), index: v.index.insert(id, k) }),
{
    let w = WorldView { rows: v.rows.insert(k, (id, p)), index: v.index.insert(id, k) };
    assert forall|j: Seq<char>| #[trigger] w.index.contains_key(j) implies w.rows.contains_key(w.index[j])
        && w.rows[w.index[j]].0 == j by {
        if j != id {
            assert(v.index.contains_key(j));
            assert(v.rows.contains_key(v.index[j]));
        }
    }
}

/// Removing a player that was just spawned as a remote player (its id was
/// not indexed before) gives back the world as it was before the spawn.
pub proof fn lemma_remove_undoes_spawn(before: WorldView, id: Seq<char>, after: WorldView)
    requires
        !before.index.contains_key(id),
        spawn_remote_step(before, id, after),
    ensures
        after.index.contains_key(id),
        after.rows.remove(after.index[id]) == before.rows,
        after.index.remove(id) == before.index,
{
    let k = choose|k: u64|
        !before.rows.contains_key(k) && after == (WorldView {
            rows: before.rows.insert(k, (id, fresh_player(false))),
            index: before.index.insert(id, k),
        });
    assert(after.rows.remove(k) =~= before.rows);
    assert(after.index.remove(id) =~= before.index);
}

/// Indexing a player under a new id raises the player count by one; this is
/// what a local spawn under a new id does to the index.
pub proof fn lemma_index_grows_by_one(index: Map<Seq<char>, u64>, id: Seq<char>, key: u64)
    requires
        index.dom().finite(),
        !index.contains_key(id),
    ensures
        index.insert(id, key).len() == index.len() + 1,
{
}

/// Spawning a remote player under an id that is not indexed raises the
/// player count by one.
pub proof fn lemma_spawn_remote_count(before: WorldView, id: Seq<char>, after: WorldView)
    requires
        before.index.dom().finite(),
        !before.index.contains_key(id),
        spawn_remote_step(before, id, after),
    ensures
        after.index.len() == before.index.len() + 1,
{
    let k = choose|k: u64|
        !before.rows.contains_key(k) && after == (WorldView {
            rows: before.rows.insert(k, (id, fresh_player(false))),
            index: before.index.insert(id, k),
        });
    lemma_index_grows_by_one(before.index, id, k);
}

/// Spawning a remote player under an id a second time changes nothing.
pub proof fn lemma_spawn_remote_idempotent(v0: WorldView, id: Seq<char>, v1: WorldView, v2: WorldView)
    requires
        spawn_remote_step(v0, id, v1),
        spawn_remote_step(v1, id, v2),
    ensures
        v2 == v1,
{
}

/// After a move, every player carrying the id stands at the new position,
/// every other row is unchanged, and no row appears or disappears.
pub proof fn lemma_move_effect(
    rows: Map<u64, (Seq<char>, Player)>,
    id: Seq<char>,
    position: PlayerPosition,
    k: u64,
)
    requires
        rows.contains_key(k),
    ensures
        rows_moved(rows, id, position).dom() == rows.dom(),
        rows[k].0 == id ==> rows_moved(rows, id, position)[k] == (id, moved(rows[k].1, position)),
        rows[k].0 != id ==> rows_moved(rows, id, position)[k] == rows[k],
{
    assert(rows_moved(rows, id, position).dom() =~= rows.dom());
}

/// Of two moves of the same id, the later one wins.
pub proof fn lemma_last_move_wins(
    rows: Map<u64, (Seq<char>, Player)>,
    id: Seq<char>,
    first: PlayerPosition,
    second: PlayerPosition,
)
    ensures
        rows_moved(rows_moved(rows, id, first), id, second) == rows_moved(rows, id, second),
{
    assert(rows_moved(rows_moved(rows, id, first), id, second) =~= rows_moved(rows, id, second));
}

/// A player moved by an update stands at the new position when looked up
/// through the index.
pub proof fn lemma_read_after_move(v: WorldView, id: Seq<char>, position: PlayerPosition)
    requires
        index_consistent(v),
        v.index.contains_key(id),
    ensures
        rows_moved(v.rows, id, position)[v.index[id]].1.position == position,
{
}

/// When the local id is carried by one row only, the local input moves the
/// player that the index finds under that id.
pub proof fn lemma_local_input_read_back(v: WorldView, id: Seq<char>, k: u64, position: PlayerPosition)
    requires
        index_consistent(v),
        v.index.contains_key(id),
        forall|j: u64| #[trigger] v.rows.contains_key(j) && v.rows[j].0 == id ==> j == v.index[id],
        v.rows.contains_key(k),
        v.rows[k].0 == id,
    ensures
        row_moved(v.rows, k, position)[v.index[id]].1.position == position,
{
    assert(v.rows.contains_key(v.index[id]));
}

impl Default for GameState {
    /// A game state with no session and no players.
    fn default() -> (state: GameState)
        ensures
            state.wf(),
            state.session() == None::<SessionView>,
            state.rows() == Map::<u64, (Seq<char>, Player)>::empty(),
            state.index() == Map::<Seq<char>, u64>::empty(),
            state.order().len() == 0,
    {
        GameState { session: None, world: world_new(), remote_player_map: StringHashMap::new() }
    }
}

/// The game state of one peer: the session it takes part in, the entity store
/// with every player, and the index from player id to entity.
pub struct GameState {
    pub(crate) session: Option<Session>,
    pub(crate) world: World,
    pub(crate) remote_player_map: StringHashMap<u64>,
}

impl GameState {
    /// The rows of the entity store.
    pub closed spec fn rows(&self) -> Map<u64, (Seq<char>, Player)> {
        world_rows(self.world)
    }

    /// The keys of the rows in the order the entity store yields them.
    pub closed spec fn order(&self) -> Seq<u64> {
        world_order(self.world)
    }

    /// The index from player id to entity key.
    pub closed spec fn index(&self) -> Map<Seq<char>, u64> {
        self.remote_player_map@
    }

    /// The world as rows and index; the session is [`GameState::session`].
    pub open spec fn world_view(&self) -> WorldView {
        WorldView { rows: self.rows(), index: self.index() }
    }

    /// The session, if any.
    pub closed spec fn session(&self) -> Option<SessionView> {
        match self.session {
            Some(s) => Some(s@),
            None => None,
        }
    }

    /// The well-formedness of a game state.
    pub open spec fn wf(&self) -> bool {
        &&& index_consistent(self.world_view())
        &&& self.rows().dom().finite()
        &&& self.index().dom().finite()
    }

    /// Spawns the local player under `player_id` and indexes it, replacing any
    /// entity indexed under that id before (which stays in the store).
    pub fn spawn_local_player(&mut self, player_id: PlayerId) -> (key: u64)
        requires
            old(self).wf(),
        ensures
            final(self).wf(),
            final(self).session() == old(self).session(),
            !old(self).rows().contains_key(key),
            final(self).rows() == old(self).rows().insert(key, (player_id@, fresh_player(true))),
            final(self).index() == old(self).index().insert(player_id@, key),
            !old(self).order().contains(key),
            exists|j: int|
                0 <= j <= old(self).order().len() && final(self).order() == old(self).order().insert(j, key),
    {
        let player = new_player(true);
        let key = world_spawn(&mut self.world, player_id.clone(), player);
        proof {
            lemma_insert_consistent(old(self).world_view(), key, player_id@, player);
        }
        self.remote_player_map.insert(player_id, key);
        key
    }

    /// Spawns a remote player under `player_id` unless that id is indexed
    /// already, in which case nothing changes and `None` comes back.
    pub fn spawn_remote_player(&mut self, player_id: PlayerId) -> (spawned: Option<u64>)
        requires
            old(self).wf(),
        ensures
            final(self).wf(),
            final(self).session() == old(self).session(),
            old(self).index().contains_key(player_id@) ==> spawned is None
                && final(self).world_view() == old(self).world_view(),
            !old(self).index().contains_key(player_id@) ==> (spawned matches Some(key)
                && !old(self).rows().contains_key(key)
                && final(self).rows() == old(self).rows().insert(key, (player_id@, fresh_player(false)))
                && final(self).index() == old(self).index().insert(player_id@, key)),
            old(self).index().contains_key(player_id@) ==> final(self).order() == old(self).order(),
            !old(self).index().contains_key(player_id@) ==> (spawned matches Some(key)
                && !old(self).order().contains(key)
                && exists|j: int|
                0 <= j <= old(self).order().len() && final(self).order() == old(self).order().insert(j, key)),
            spawn_remote_step(old(self).world_view(), player_id@, final(self).world_view()),
    {
        if self.remote_player_map.contains_key(player_id.as_str()) {
            return None;
        }
        let player = new_player(false);
        let key = world_spawn(&mut self.world, player_id.clone(), player);
        proof {
            lemma_insert_consistent(old(self).world_view(), key, player_id@, player);
        }
        let ghost id = player_id@;
        self.remote_player_map.insert(player_id, key);
        proof {
            let after = WorldView {
                rows: old(self).rows().insert(key, (id, fresh_player(false))),
                index: old(self).index().insert(id, key),
            };
            assert(self.world_view() == after);
            assert(!old(self).world_view().rows.contains_key(key) && self.world_view() == after);
        }
        Some(key)
    }

    /// Unindexes the player `player_id` and despawns its entity. Returns the
    /// entity that stood for the player, or `None` (and changes nothing) when
    /// the id was not indexed.
    pub fn remove_player(&mut self, player_id: &PlayerId) -> (removed: Option<u64>)
        requires
            old(self).wf(),
        ensures
            final(self).wf(),
            final(self).session() == old(self).session(),
            removed == (if old(self).index().contains_key(player_id@) {
                Some(old(self).index()[player_id@])
            } else {
                None::<u64>
            }),
            old(self).index().contains_key(player_id@) ==> final(self).rows() == old(self).rows().remove(
                old(self).index()[player_id@],
            ) && final(self).index() == old(self).index().remove(player_id@),
            !old(self).index().contains_key(player_id@) ==> final(self).world_view() == old(
                self,
            ).world_view() && final(self).order() == old(self).order(),
    {
        let entry = self.remote_player_map.get(player_id.as_str());
        match entry {
            Some(key_ref) => {
                let key: u64 = *key_ref;
                self.remote_player_map.remove(player_id.as_str());
                let _ = world_despawn(&mut self.world, key);
                proof {
                    let v = old(self).world_view();
                    let w = self.world_view();
                    assert forall|j: Seq<char>| #[trigger] w.index.contains_key(j) implies w.rows.contains_key(
                        w.index[j],
                    ) && w.rows[w.index[j]].0 == j by {
                        assert(v.index.contains_key(j));
                        assert(v.rows[v.index[j]].0 == j);
                    }
                }
                Some(key)
            },
            None => None,
        }
    }

    /// Moves every player that carries `player_id` to `player_position`.
    pub fn update_player_with_remote_data(
        &mut self,
        player_id: &PlayerId,
        player_position: &PlayerPosition,
    )
        requires
            old(self).wf(),
        ensures
            final(self).wf(),
            final(self).session() == old(self).session(),
            final(self).index() == old(self).index(),
            final(self).rows() == rows_moved(old(self).rows(), player_id@, *player_position),
            final(self).order() == old(self).order(),
    {
        let snapshot = world_snapshot(&self.world);
        let ghost rows0 = self.rows();
        let ghost id = player_id@;
        let ghost pos = *player_position;
        let mut i: usize = 0;
        while i < snapshot.len()
            invariant
                self.wf(),
                self.session() == old(self).session(),
                self.index() == old(self).index(),
                self.order() == old(self).order(),
                rows0 == old(self).rows(),
                id == player_id@,
                pos == *player_position,
                i <= snapshot@.len(),
                forall|a: int|
                    0 <= a < snapshot@.len() ==> rows0.contains_key(#[trigger] snapshot@[a].0)
                        && rows0[snapshot@[a].0] == (snapshot@[a].1@, snapshot@[a].2),
                forall|k: u64|
                    rows0.contains_key(k) ==> exists|a: int|
                        0 <= a < snapshot@.len() && #[trigger] snapshot@[a].0 == k,
                forall|a: int, b: int|
                    0 <= a < snapshot@.len() && 0 <= b < snapshot@.len() && a != b
                        ==> #[trigger] snapshot@[a].0 != #[trigger] snapshot@[b].0,
                self.rows().dom() == rows0.dom(),
                forall|a: int|
                    0 <= a < i ==> #[trigger] self.rows()[snapshot@[a].0] == rows_moved(rows0, id, pos)[snapshot@[a].0],
                forall|a: int|
                    i <= a < snapshot@.len() ==> #[trigger] self.rows()[snapshot@[a].0] == rows0[snapshot@[a].0],
            decreases snapshot@.len() - i,
        {
            let row = &snapshot[i];
            if row.1 == *player_id {
                let mut player = row.2;
                player.position = *player_position;
                let ghost before = self.rows();
                let ghost before_view = self.world_view();
                assert(index_consistent(before_view));
                let _ = world_set_player(&mut self.world, row.0, player);
                proof {
                    let w = self.world_view();
                    assert forall|j: Seq<char>| #[trigger] w.index.contains_key(j) implies w.rows.contains_key(
                        w.index[j],
                    ) && w.rows[w.index[j]].0 == j by {
                        assert(before_view.index.contains_key(j));
                        assert(before.contains_key(w.index[j]));
                    }
                    assert forall|a: int| i < a < snapshot@.len() implies #[trigger] self.rows()[snapshot@[a].0]
                        == rows0[snapshot@[a].0] by {
                        assert(snapshot@[a].0 != snapshot@[i as int].0);
                    }
                    assert forall|a: int| 0 <= a < i implies #[trigger] self.rows()[snapshot@[a].0]
                        == rows_moved(rows0, id, pos)[snapshot@[a].0] by {
                        assert(snapshot@[a].0 != snapshot@[i as int].0);
                    }
                    assert(self.rows().dom() =~= rows0.dom());
                }
            }
            i = i + 1;
        }
        proof {
            assert(self.rows() =~= rows_moved(rows0, id, pos)) by {
                assert forall|k: u64| #[trigger] self.rows().contains_key(k) implies self.rows()[k]
                    == rows_moved(rows0, id, pos)[k] by {
                    let a = choose|a: int| 0 <= a < snapshot@.len() && #[trigger] snapshot@[a].0 == k;
                    assert(self.rows()[snapshot@[a].0] == rows_moved(rows0, id, pos)[snapshot@[a].0]);
                }
            }
        }
    }

    /// Moves the local player to `position`: the first row, in store order,
    /// that carries the local id. Nothing changes without a session or when no
    /// row carries the local id.
    pub fn submit_local_input(&mut self, position: PlayerPosition)
        requires
            old(self).wf(),
        ensures
            final(self).wf(),
            final(self).session() == old(self).session(),
            final(self).index() == old(self).index(),
            old(self).session() is None ==> final(self).rows() == old(self).rows(),
            old(self).session() matches Some(s) ==> {
                let id = local_id_of(s);
                &&& !carries(old(self).rows(), id) ==> final(self).rows() == old(self).rows()
                &&& carries(old(self).rows(), id) ==> exists|k: u64|
                    #[trigger] old(self).rows().contains_key(k) && old(self).rows()[k].0 == id
                        && final(self).rows() == row_moved(old(self).rows(), k, position)
                &&& match first_carrier(old(self).rows(), old(self).order(), id) {
                    None => final(self).rows() == old(self).rows(),
                    Some(k) => final(self).rows() == row_moved(old(self).rows(), k, position),
                }
            },
            final(self).order() == old(self).order(),
    {
        let local_id = match self.get_local_network_id() {
            Some(id) => id,
            None => {
                return;
            },
        };
        let snapshot = world_snapshot(&self.world);
        let ghost rows0 = self.rows();
        let ghost order0 = self.order();
        proof {
            assert forall|a: int| 0 <= a < snapshot@.len() implies #[trigger] snapshot@[a].0 == order0[a] by {
                assert(snapshot@.map_values(|r: (u64, String, Player)| r.0)[a] == snapshot@[a].0);
            }
        }
        let mut i: usize = 0;
        let mut done = false;
        while i < snapshot.len() && !done
            invariant
                self.wf(),
                self.session() == old(self).session(),
                self.index() == old(self).index(),
                self.order() == order0,
                order0 == old(self).order(),
                snapshot@.len() == order0.len(),
                forall|a: int| 0 <= a < snapshot@.len() ==> #[trigger] snapshot@[a].0 == order0[a],
                done ==> (first_carrier(rows0, order0, local_id@) matches Some(k) && self.rows() == row_moved(
                    rows0,
                    k,
                    position,
                )),
                rows0 == old(self).rows(),
                old(self).session() matches Some(s) && local_id@ == local_id_of(s),
                i <= snapshot@.len(),
                forall|a: int|
                    0 <= a < snapshot@.len() ==> rows0.contains_key(#[trigger] snapshot@[a].0)
                        && rows0[snapshot@[a].0] == (snapshot@[a].1@, snapshot@[a].2),
                forall|k: u64|
                    rows0.contains_key(k) ==> exists|a: int|
                        0 <= a < snapshot@.len() && #[trigger] snapshot@[a].0 == k,
                !done ==> self.rows() == rows0,
                !done ==> forall|a: int| 0 <= a < i ==> (#[trigger] snapshot@[a]).1@ != local_id@,
                done ==> exists|k: u64|
                    #[trigger] rows0.contains_key(k) && rows0[k].0 == local_id@ && self.rows()
                        == row_moved(rows0, k, position),
            decreases snapshot@.len() - i,
        {
            let row = &snapshot[i];
            if row.1 == local_id {
                let mut player = row.2;
                player.position = position;
                let ghost before_view = self.world_view();
                assert(index_consistent(before_view));
                let _ = world_set_player(&mut self.world, row.0, player);
                proof {
                    let k = snapshot@[i as int].0;
                    assert(rows0.contains_key(k));
                    assert(self.rows() == row_moved(rows0, k, position));
                    lemma_first_carrier(rows0, order0, local_id@);
                    assert(rows0[order0[i as int]].0 == local_id@);
                    match first_carrier(rows0, order0, local_id@) {
                        Some(k2) => {
                            let i2 = choose|i2: int|
                                0 <= i2 < order0.len() && order0[i2] == k2 && rows0[k2].0 == local_id@
                                    && forall|a: int| 0 <= a < i2 ==> #[trigger] rows0[order0[a]].0 != local_id@;
                            if i2 < i {
                                assert(snapshot@[i2].1@ != local_id@);
                                assert(snapshot@[i2].0 == order0[i2]);
                            }
                            assert(i2 == i);
                        },
                        None => {
                            assert(rows0[order0[i as int]].0 != local_id@);
                        },
                    }
                    let w = self.world_view();
                    assert forall|j: Seq<char>| #[trigger] w.index.contains_key(j) implies w.rows.contains_key(
                        w.index[j],
                    ) && w.rows[w.index[j]].0 == j by {
                        assert(before_view.index.contains_key(j));
                    }
                }
                done = true;
            }
            i = i + 1;
        }
        proof {
            if !done {
                lemma_first_carrier(rows0, order0, local_id@);
                if let Some(k2) = first_carrier(rows0, order0, local_id@) {
                    let i2 = choose|i2: int|
                        0 <= i2 < order0.len() && order0[i2] == k2 && rows0[k2].0 == local_id@
                            && forall|a: int| 0 <= a < i2 ==> #[trigger] rows0[order0[a]].0 != local_id@;
                    assert(snapshot@[i2].0 == order0[i2]);
                    assert(snapshot@[i2].1@ != local_id@);
                }
                if carries(rows0, local_id@) {
                    let k = choose|k: u64| #[trigger] rows0.contains_key(k) && rows0[k].0 == local_id@;
                    let a = choose|a: int| 0 <= a < snapshot@.len() && #[trigger] snapshot@[a].0 == k;
                    assert(snapshot@[a].1@ != local_id@);
                }
            }
        }
    }

    /// Opens a client session playing as `local_id`: spawns the local player
    /// as [`GameState::spawn_local_player`] does and records the session.
    pub fn enter_client_session(&mut self, local_id: PlayerId) -> (key: u64)
        requires
            old(self).wf(),
        ensures
            final(self).wf(),
            final(self).session() == Some(SessionView::Client { local_id: local_id@, local_player: key }),
            !old(self).rows().contains_key(key),
            final(self).rows() == old(self).rows().insert(key, (local_id@, fresh_player(true))),
            final(self).index() == old(self).index().insert(local_id@, key),
            !old(self).order().contains(key),
            exists|j: int|
                0 <= j <= old(self).order().len() && final(self).order() == old(self).order().insert(j, key),
    {
        let key = self.spawn_local_player(local_id.clone());
        self.session = Some(Session::Client { local_id, local_player: key });
        key
    }

    /// Opens a server session hosted under `server_id`: spawns the host's
    /// player as [`GameState::spawn_local_player`] does and records the session.
    pub fn enter_server_session(&mut self, server_id: PlayerId) -> (key: u64)
        requires
            old(self).wf(),
        ensures
            final(self).wf(),
            final(self).session() == Some(SessionView::Server { server_id: server_id@, host_player: Some(key) }),
            !old(self).rows().contains_key(key),
            final(self).rows() == old(self).rows().insert(key, (server_id@, fresh_player(true))),
            final(self).index() == old(self).index().insert(server_id@, key),
            !old(self).order().contains(key),
            exists|j: int|
                0 <= j <= old(self).order().len() && final(self).order() == old(self).order().insert(j, key),
    {
        let key = self.spawn_local_player(server_id.clone());
        self.session = Some(Session::Server { server_id, host_player: Some(key) });
        key
    }

    /// Ends the session; the players stay in the world.
    pub fn leave_session(&mut self)
        requires
            old(self).wf(),
        ensures
            final(self).wf(),
            final(self).session() is None,
            final(self).world_view() == old(self).world_view(),
            final(self).order() == old(self).order(),
    {
        self.session = None;
    }

    /// The number of indexed players.
    pub fn get_remote_player_amount(&self) -> (amount: i32)
        ensures
            amount == self.index().len() as i32,
    {
        self.remote_player_map.len() as i32
    }

    /// The id this peer plays under, if it takes part in a session.
    pub fn get_local_network_id(&self) -> (id: Option<PlayerId>)
        ensures
            self.session() is None ==> id is None,
            self.session() matches Some(s) ==> (id matches Some(i) && i@ == local_id_of(s)),
    {
        match &self.session {
            Some(Session::Client { local_id, .. }) => Some(local_id.clone()),
            Some(Session::Server { server_id, .. }) => Some(server_id.clone()),
            None => None,
        }
    }

    /// `"Client"` or `"Server"`, after the kind of session, if any.
    pub fn get_current_network_state(&self) -> (kind: Option<String>)
        ensures
            self.session() is None ==> kind is None,
            self.session() matches Some(SessionView::Client { .. }) ==> (kind matches Some(k) && k@ == "Client"@),
            self.session() matches Some(SessionView::Server { .. }) ==> (kind matches Some(k) && k@ == "Server"@),
    {
        match &self.session {
            Some(Session::Client { .. }) => Some(String::from_str("Client")),
            Some(Session::Server { .. }) => Some(String::from_str("Server")),
            None => None,
        }
    }

    /// The record of the player indexed under `player_id`.
    pub fn get_player_component(&self, player_id: &PlayerId) -> (player: Option<Player>)
        requires
            self.wf(),
        ensures
            player == (if self.index().contains_key(player_id@) {
                Some(self.rows()[self.index()[player_id@]].1)
            } else {
                None::<Player>
            }),
    {
        proof {
            if self.index().contains_key(player_id@) {
                assert(self.world_view().index.contains_key(player_id@));
            }
        }
        match self.remote_player_map.get(player_id.as_str()) {
            Some(key) => world_player(&self.world, *key),
            None => None,
        }
    }

    /// The record of the player indexed under the local id.
    pub fn get_local_player_component(&self) -> (player: Option<Player>)
        requires
            self.wf(),
        ensures
            self.session() is None ==> player is None,
            self.session() matches Some(s) ==> player == (if self.index().contains_key(local_id_of(s)) {
                Some(self.rows()[self.index()[local_id_of(s)]].1)
            } else {
                None::<Player>
            }),
    {
        match self.get_local_network_id() {
            Some(id) => self.get_player_component(&id),
            None => None,
        }
    }

    /// The entity indexed under `player_id`.
    pub fn get_entity_associated_with_player_id(&self, player_id: &PlayerId) -> (key: Option<u64>)
        ensures
            key == (if self.index().contains_key(player_id@) {
                Some(self.index()[player_id@])
            } else {
                None::<u64>
            }),
    {
        match self.remote_player_map.get(player_id.as_str()) {
            Some(key) => Some(*key),
            None => None,
        }
    }

    /// Every row whose player is not local, each once, in store order.
    pub fn get_remote_players(&self) -> (players: Vec<(PlayerId, Player)>)
        ensures
            exists|keys: Seq<u64>|
                {
                    &&& keys.no_duplicates()
                    &&& keys.len() == players@.len()
                    &&& keys.to_set() == remote_keys(self.rows())
                    &&& forall|i: int|
                        0 <= i < keys.len() ==> self.rows()[#[trigger] keys[i]] == (
                            players@[i].0@,
                            players@[i].1,
                        )
                },
            players@.map_values(|p: (PlayerId, Player)| (p.0@, p.1)) == remote_list(self.rows(), self.order()),
    {
        let snapshot = world_snapshot(&self.world);
        let ghost rows = self.rows();
        let ghost order = self.order();
        proof {
            assert forall|a: int| 0 <= a < snapshot@.len() implies #[trigger] snapshot@[a].0 == order[a] by {
                assert(snapshot@.map_values(|r: (u64, String, Player)| r.0)[a] == snapshot@[a].0);
            }
        }
        let mut players: Vec<(PlayerId, Player)> = Vec::new();
        let ghost mut keys: Seq<u64> = Seq::empty();
        let mut i: usize = 0;
        while i < snapshot.len()
            invariant
                rows == self.rows(),
                order == self.order(),
                snapshot@.len() == order.len(),
                forall|a: int| 0 <= a < snapshot@.len() ==> #[trigger] snapshot@[a].0 == order[a],
                players@.map_values(|p: (PlayerId, Player)| (p.0@, p.1)) == remote_list(rows, order.take(i as int)),
                i <= snapshot@.len(),
                forall|a: int|
                    0 <= a < snapshot@.len() ==> rows.contains_key(#[trigger] snapshot@[a].0)
                        && rows[snapshot@[a].0] == (snapshot@[a].1@, snapshot@[a].2),
                forall|k: u64|
                    rows.contains_key(k) ==> exists|a: int|
                        0 <= a < snapshot@.len() && #[trigger] snapshot@[a].0 == k,
                forall|a: int, b: int|
                    0 <= a < snapshot@.len() && 0 <= b < snapshot@.len() && a != b
                        ==> #[trigger] snapshot@[a].0 != #[trigger] snapshot@[b].0,
                keys.no_duplicates(),
                keys.len() == players@.len(),
                forall|j: int|
                    0 <= j < keys.len() ==> rows[#[trigger] keys[j]] == (players@[j].0@, players@[j].1)
                        && rows.contains_key(keys[j]) && !rows[keys[j]].1.is_local,
                forall|j: int| 0 <= j < keys.len() ==> exists|a: int| 0 <= a < i && snapshot@[a].0 == #[trigger] keys[j],
                forall|a: int|
                    0 <= a < i && !(#[trigger] snapshot@[a]).2.is_local ==> keys.contains(snapshot@[a].0),
            decreases snapshot@.len() - i,
        {
            let row = &snapshot[i];
            let ghost keys_before = keys;
            let ghost listed = players@.map_values(|p: (PlayerId, Player)| (p.0@, p.1));
            proof {
                let t = order.take(i + 1);
                assert(t.drop_last() =~= order.take(i as int));
                assert(t.last() == snapshot@[i as int].0);
                assert(rows[t.last()] == (snapshot@[i as int].1@, snapshot@[i as int].2));
            }
            if !row.2.is_local {
                proof {
                    assert forall|j: int| 0 <= j < keys.len() implies keys[j] != snapshot@[i as int].0 by {
                        let a = choose|a: int| 0 <= a < i && snapshot@[a].0 == #[trigger] keys[j];
                        assert(snapshot@[a].0 != snapshot@[i as int].0);
                    }
                    keys = keys.push(row.0);
                }
                players.push((row.1.clone(), row.2));
                assert(players@.map_values(|p: (PlayerId, Player)| (p.0@, p.1)) =~= listed.push(
                    (snapshot@[i as int].1@, snapshot@[i as int].2),
                ));
            }
            proof {
                assert forall|a: int| 0 <= a < i + 1 && !(#[trigger] snapshot@[a]).2.is_local implies keys.contains(
                    snapshot@[a].0,
                ) by {
                    if a < i {
                        let j = choose|j: int| 0 <= j < keys_before.len() && keys_before[j] == snapshot@[a].0;
                        assert(keys[j] == snapshot@[a].0);
                    } else {
                        assert(keys[keys.len() - 1] == snapshot@[a].0);
                    }
                }
            }
            i = i + 1;
        }
        proof {
            assert(order.take(i as int) =~= order);
            assert(keys.to_set() =~= remote_keys(rows)) by {
                assert forall|k: u64| #[trigger] remote_keys(rows).contains(k) implies keys.to_set().contains(k) by {
                    let a = choose|a: int| 0 <= a < snapshot@.len() && #[trigger] snapshot@[a].0 == k;
                    assert(keys.contains(snapshot@[a].0));
                }
                assert forall|k: u64| keys.to_set().contains(k) implies #[trigger] remote_keys(rows).contains(k) by {
                    let j = choose|j: int| 0 <= j < keys.len() && keys[j] == k;
                    assert(rows.contains_key(keys[j]));
                }
            }
        }
        players
    }

    /// The local id, in a client session.
    pub(crate) fn client_id(&self) -> (id: Option<PlayerId>)
        ensures
            self.session() matches Some(SessionView::Client { local_id, .. }) ==> (id matches Some(i)
                && i@ == local_id),
            !(self.session() matches Some(SessionView::Client { .. })) ==> id is None,
    {
        match &self.session {
            Some(Session::Client { local_id, .. }) => Some(local_id.clone()),
            _ => None,
        }
    }

    /// In a server session: the id of the host player if it plays.
    pub(crate) fn server_host(&self) -> (host: Option<Option<PlayerId>>)
        ensures
            self.session() matches Some(SessionView::Server { server_id, host_player }) ==> (host matches Some(h)
                && (host_player is Some ==> (h matches Some(i) && i@ == server_id))
                && (host_player is None ==> h is None)),
            !(self.session() matches Some(SessionView::Server { .. })) ==> host is None,
    {
        match &self.session {
            Some(Session::Server { server_id, host_player }) => match host_player {
                Some(_) => Some(Some(server_id.clone())),
                None => Some(None),
            },
            _ => None,
        }
    }

    /// The rows are those of the entity store.
    pub(crate) proof fn lemma_rows_of_world(&self)
        ensures
            self.rows() == world_rows(self.world),
            self.order() == world_order(self.world),
    {
    }
}

} // verus!
