use crate::codes::RoomCode;
use crate::room::JoinRoomError;
use crate::{SessionRef, TransientId};
use vstd::prelude::*;

verus! {

/// Room-level configuration chosen at creation time.
#[derive(Clone, Copy, PartialEq, Eq, Structural, Debug)]
pub struct RoomConfig {
    /// Public rooms take part in random matchmaking and let any member
    /// start the game; private rooms are joined by code and only the
    /// leader may start.
    pub public: bool,
    /// Upper bound on simultaneous members.
    pub max_player_count: u8,
}

/// Default member limit of a room.
pub const DEFAULT_PLAYER_LIMIT: u8 = 6;

impl Default for RoomConfig {
    /// A public room with the default member limit.
    fn default() -> (r: Self)
        ensures
            r == (RoomConfig { public: true, max_player_count: DEFAULT_PLAYER_LIMIT }),
    {
        RoomConfig { public: true, max_player_count: DEFAULT_PLAYER_LIMIT }
    }
}

/// What the room manager knows of one room: its availability flags.
#[derive(Clone, Copy, PartialEq, Eq, Structural, Debug)]
pub struct RoomInfo {
    /// The room reported reaching its member limit.
    pub full: bool,
    /// The room reported a game in progress.
    pub playing: bool,
}

impl RoomInfo {
    /// A fresh entry: neither full nor playing.
    pub fn new() -> (r: Self)
        ensures
            r == (RoomInfo { full: false, playing: false }),
    {
        RoomInfo { full: false, playing: false }
    }

    /// Clears both flags, readying the entry for re-use.
    pub fn reset(&mut self)
        ensures
            *final(self) == (RoomInfo { full: false, playing: false }),
    {
        self.full = false;
        self.playing = false;
    }
}

/// Reply to a successful create or join: the room's public handle.
#[derive(Clone, Copy, PartialEq, Eq, Structural, Debug)]
pub struct RoomPair {
    pub code: RoomCode,
}

/// A session's request to enter a room: by code, or by matchmaking when no
/// code is given.
pub struct JoinRoom {
    pub session: (TransientId, SessionRef),
    pub code: Option<RoomCode>,
}

/// Why a room left the matching pool.
#[derive(Clone, Copy, PartialEq, Eq, Structural, Debug)]
pub enum RoomUnavailablityReason {
    Full,
    GameStarted,
}

/// A room's report of its own joinability.
#[derive(Clone, Copy, PartialEq, Eq, Structural, Debug)]
pub enum Availability {
    Available,
    Unavailable(RoomUnavailablityReason),
}

/// A room's notice to the manager that its joinability changed.
#[derive(Clone, Copy, PartialEq, Eq, Structural, Debug)]
pub struct UpdateRoomMatchAvailability {
    pub code: RoomCode,
    pub availability: Availability,
}

/// A room's notice that it stopped, so its code can be recycled.
#[derive(Clone, Copy, PartialEq, Eq, Structural, Debug)]
pub struct OnRoomClosed(pub RoomCode);

/// True when pool `p` holds an entry for code `c`.
pub open spec fn has_code(p: Seq<(RoomCode, RoomInfo)>, c: RoomCode) -> bool {
    exists|i: int| 0 <= i < p.len() && (#[trigger] p[i]).0 == c
}

/// Position of the entry for `c` in pool `p`.
pub open spec fn code_entry_of(p: Seq<(RoomCode, RoomInfo)>, c: RoomCode) -> int {
    choose|i: int| 0 <= i < p.len() && (#[trigger] p[i]).0 == c
}

/// The availability flags pool `p` holds for code `c`.
pub open spec fn info_of(p: Seq<(RoomCode, RoomInfo)>, c: RoomCode) -> RoomInfo {
    p[code_entry_of(p, c)].1
}

/// No two entries of the pool carry the same code.
pub open spec fn codes_unique(p: Seq<(RoomCode, RoomInfo)>) -> bool {
    forall|i1: int, i2: int|
        0 <= i1 < p.len() && 0 <= i2 < p.len() && i1 != i2 ==> (#[trigger] p[i1]).0 != (
        #[trigger] p[i2]).0
}

/// Every code in the pool uses the generation charset.
pub open spec fn codes_wf(p: Seq<(RoomCode, RoomInfo)>) -> bool {
    forall|i: int| 0 <= i < p.len() ==> (#[trigger] p[i]).0.wf()
}

/// No code of `p1` also stands in `p2`.
pub open spec fn excludes(p1: Seq<(RoomCode, RoomInfo)>, p2: Seq<(RoomCode, RoomInfo)>) -> bool {
    forall|c: RoomCode| #[trigger] has_code(p1, c) ==> !has_code(p2, c)
}

/// Every room in the pool is neither full nor playing.
pub open spec fn pool_clean(p: Seq<(RoomCode, RoomInfo)>) -> bool {
    forall|i: int|
        0 <= i < p.len() ==> !(#[trigger] p[i]).1.full && !p[i].1.playing
}

proof fn lemma_remove_code(
    p_old: Seq<(RoomCode, RoomInfo)>,
    p_new: Seq<(RoomCode, RoomInfo)>,
    c: RoomCode,
    i: usize,
)
    requires
        codes_unique(p_old),
        (i as int) < p_old.len(),
        p_old[i as int].0 == c,
        p_new == p_old.remove(i as int),
    ensures
        codes_unique(p_new),
        codes_wf(p_old) ==> codes_wf(p_new),
        pool_clean(p_old) ==> pool_clean(p_new),
        !has_code(p_new, c),
        forall|c2: RoomCode| c2 != c ==> (#[trigger] has_code(p_new, c2) <==> has_code(p_old, c2)),
        forall|c2: RoomCode|
            c2 != c && has_code(p_old, c2) ==> #[trigger] info_of(p_new, c2) == info_of(p_old, c2),
        forall|c2: RoomCode| #[trigger] has_code(p_new, c2) ==> has_code(p_old, c2),
{
    p_old.remove_ensures(i as int);
    assert forall|x1: int, x2: int|
        0 <= x1 < p_new.len() && 0 <= x2 < p_new.len() && x1 != x2 implies (
    #[trigger] p_new[x1]).0 != (#[trigger] p_new[x2]).0 by {
        let o1 = if x1 < i as int { x1 } else { x1 + 1 };
        let o2 = if x2 < i as int { x2 } else { x2 + 1 };
        assert(p_new[x1] == p_old[o1]);
        assert(p_new[x2] == p_old[o2]);
        assert(p_old[o1].0 != p_old[o2].0);
    }
    if codes_wf(p_old) {
        assert forall|x: int| 0 <= x < p_new.len() implies (#[trigger] p_new[x]).0.wf() by {
            let o = if x < i as int { x } else { x + 1 };
            assert(p_new[x] == p_old[o]);
        }
    }
    if pool_clean(p_old) {
        assert forall|x: int| 0 <= x < p_new.len() implies !(#[trigger] p_new[x]).1.full && !p_new[
            x].1.playing by {
            let o = if x < i as int { x } else { x + 1 };
            assert(p_new[x] == p_old[o]);
        }
    }
    assert(!has_code(p_new, c)) by {
        if has_code(p_new, c) {
            let x = choose|x: int| 0 <= x < p_new.len() && (#[trigger] p_new[x]).0 == c;
            let o = if x < i as int { x } else { x + 1 };
            assert(p_new[x] == p_old[o]);
            assert(p_old[o].0 != p_old[i as int].0);
        }
    }
    assert forall|c2: RoomCode| c2 != c implies (#[trigger] has_code(p_new, c2) <==> has_code(
        p_old,
        c2,
    )) by {
        if has_code(p_new, c2) {
            let x = choose|x: int| 0 <= x < p_new.len() && (#[trigger] p_new[x]).0 == c2;
            let o = if x < i as int { x } else { x + 1 };
            assert(p_new[x] == p_old[o]);
            assert(has_code(p_old, c2));
        }
        if has_code(p_old, c2) {
            let o = choose|o: int| 0 <= o < p_old.len() && (#[trigger] p_old[o]).0 == c2;
            assert(o != i as int);
            let x = if o < i as int { o } else { o - 1 };
            assert(p_new[x] == p_old[o]);
            assert(has_code(p_new, c2));
        }
    }
    assert forall|c2: RoomCode| c2 != c && has_code(p_old, c2) implies #[trigger] info_of(
        p_new,
        c2,
    ) == info_of(p_old, c2) by {
        let o = code_entry_of(p_old, c2);
        assert(p_old[o].0 == c2);
        assert(o != i as int);
        let x = if o < i as int { o } else { o - 1 };
        assert(p_new[x] == p_old[o]);
        assert(has_code(p_new, c2));
        let e = code_entry_of(p_new, c2);
        assert(p_new[e].0 == c2);
        let eo = if e < i as int { e } else { e + 1 };
        assert(p_new[e] == p_old[eo]);
        if eo != o {
            assert(p_old[eo].0 != p_old[o].0);
        }
        assert(p_new[e] == p_old[o]);
    }
    assert forall|c2: RoomCode| #[trigger] has_code(p_new, c2) implies has_code(p_old, c2) by {
        let x = choose|x: int| 0 <= x < p_new.len() && (#[trigger] p_new[x]).0 == c2;
        let o = if x < i as int { x } else { x + 1 };
        assert(p_new[x] == p_old[o]);
    }
}

proof fn lemma_push_code(
    p_old: Seq<(RoomCode, RoomInfo)>,
    p_new: Seq<(RoomCode, RoomInfo)>,
    c: RoomCode,
    info: RoomInfo,
)
    requires
        codes_unique(p_old),
        !has_code(p_old, c),
        p_new == p_old.push((c, info)),
    ensures
        codes_unique(p_new),
        codes_wf(p_old) && c.wf() ==> codes_wf(p_new),
        pool_clean(p_old) && !info.full && !info.playing ==> pool_clean(p_new),
        has_code(p_new, c),
        info_of(p_new, c) == info,
        forall|c2: RoomCode| c2 != c ==> (#[trigger] has_code(p_new, c2) <==> has_code(p_old, c2)),
        forall|c2: RoomCode|
            c2 != c && has_code(p_old, c2) ==> #[trigger] info_of(p_new, c2) == info_of(p_old, c2),
        forall|c2: RoomCode|
            #[trigger] has_code(p_new, c2) ==> has_code(p_old, c2) || c2 == c,
{
    let len = p_old.len() as int;
    assert(p_new[len] == (c, info));
    assert forall|x1: int, x2: int|
        0 <= x1 < p_new.len() && 0 <= x2 < p_new.len() && x1 != x2 implies (
    #[trigger] p_new[x1]).0 != (#[trigger] p_new[x2]).0 by {
        if x1 < len && x2 < len {
            assert(p_new[x1] == p_old[x1]);
            assert(p_new[x2] == p_old[x2]);
            assert(p_old[x1].0 != p_old[x2].0);
        } else if x1 == len {
            assert(p_new[x2] == p_old[x2]);
            if p_old[x2].0 == c {
                assert(has_code(p_old, c));
            }
        } else {
            assert(p_new[x1] == p_old[x1]);
            if p_old[x1].0 == c {
                assert(has_code(p_old, c));
            }
        }
    }
    if codes_wf(p_old) && c.wf() {
        assert forall|x: int| 0 <= x < p_new.len() implies (#[trigger] p_new[x]).0.wf() by {
            if x < len {
                assert(p_new[x] == p_old[x]);
            }
        }
    }
    if pool_clean(p_old) && !info.full && !info.playing {
        assert forall|x: int| 0 <= x < p_new.len() implies !(#[trigger] p_new[x]).1.full && !p_new[
            x].1.playing by {
            if x < len {
                assert(p_new[x] == p_old[x]);
            }
        }
    }
    assert(has_code(p_new, c)) by {
        assert((p_new[len]).0 == c);
    }
    assert(info_of(p_new, c) == info) by {
        let e = code_entry_of(p_new, c);
        assert(p_new[e].0 == c);
        if e != len {
            assert(p_new[e] == p_old[e]);
            assert(has_code(p_old, c));
        }
    }
    assert forall|c2: RoomCode| c2 != c implies (#[trigger] has_code(p_new, c2) <==> has_code(
        p_old,
        c2,
    )) by {
        if has_code(p_new, c2) {
            let x = choose|x: int| 0 <= x < p_new.len() && (#[trigger] p_new[x]).0 == c2;
            assert(x != len);
            assert(p_new[x] == p_old[x]);
        }
        if has_code(p_old, c2) {
            let o = choose|o: int| 0 <= o < p_old.len() && (#[trigger] p_old[o]).0 == c2;
            assert(p_new[o] == p_old[o]);
        }
    }
    assert forall|c2: RoomCode| c2 != c && has_code(p_old, c2) implies #[trigger] info_of(
        p_new,
        c2,
    ) == info_of(p_old, c2) by {
        let o = code_entry_of(p_old, c2);
        assert(p_old[o].0 == c2);
        assert(p_new[o] == p_old[o]);
        assert(has_code(p_new, c2));
        let e = code_entry_of(p_new, c2);
        assert(p_new[e].0 == c2);
        assert(e != len);
        assert(p_new[e] == p_old[e]);
        if e != o {
            assert(p_old[e].0 != p_old[o].0);
        }
    }
    assert forall|c2: RoomCode| #[trigger] has_code(p_new, c2) implies has_code(p_old, c2) || c2
        == c by {
        let x = choose|x: int| 0 <= x < p_new.len() && (#[trigger] p_new[x]).0 == c2;
        if x != len {
            assert(p_new[x] == p_old[x]);
        }
    }
}

proof fn lemma_set_info(
    p_old: Seq<(RoomCode, RoomInfo)>,
    p_new: Seq<(RoomCode, RoomInfo)>,
    c: RoomCode,
    i: usize,
    info: RoomInfo,
)
    requires
        codes_unique(p_old),
        (i as int) < p_old.len(),
        p_old[i as int].0 == c,
        p_new == p_old.update(i as int, (c, info)),
    ensures
        codes_unique(p_new),
        codes_wf(p_old) ==> codes_wf(p_new),
        has_code(p_new, c),
        info_of(p_new, c) == info,
        info_of(p_old, c) == p_old[i as int].1,
        forall|c2: RoomCode| #[trigger] has_code(p_new, c2) <==> has_code(p_old, c2),
        forall|c2: RoomCode|
            c2 != c && has_code(p_old, c2) ==> #[trigger] info_of(p_new, c2) == info_of(p_old, c2),
{
    assert forall|x1: int, x2: int|
        0 <= x1 < p_new.len() && 0 <= x2 < p_new.len() && x1 != x2 implies (
    #[trigger] p_new[x1]).0 != (#[trigger] p_new[x2]).0 by {
        assert(p_new[x1].0 == p_old[x1].0);
        assert(p_new[x2].0 == p_old[x2].0);
        assert(p_old[x1].0 != p_old[x2].0);
    }
    if codes_wf(p_old) {
        assert forall|x: int| 0 <= x < p_new.len() implies (#[trigger] p_new[x]).0.wf() by {
            assert(p_new[x].0 == p_old[x].0);
        }
    }
    assert(has_code(p_new, c)) by {
        assert((p_new[i as int]).0 == c);
    }
    assert(info_of(p_new, c) == info) by {
        let e = code_entry_of(p_new, c);
        assert(p_new[e].0 == c);
        if e != i as int {
            assert(p_new[e].0 == p_old[e].0);
            assert(p_old[e].0 != p_old[i as int].0);
        }
    }
    assert(info_of(p_old, c) == p_old[i as int].1) by {
        assert(has_code(p_old, c)) by {
            assert((p_old[i as int]).0 == c);
        }
        let e = code_entry_of(p_old, c);
        assert(p_old[e].0 == c);
        if e != i as int {
            assert(p_old[e].0 != p_old[i as int].0);
        }
    }
    assert forall|c2: RoomCode| #[trigger] has_code(p_new, c2) <==> has_code(p_old, c2) by {
        if has_code(p_new, c2) {
            let x = choose|x: int| 0 <= x < p_new.len() && (#[trigger] p_new[x]).0 == c2;
            assert(p_old[x].0 == c2);
        }
        if has_code(p_old, c2) {
            let o = choose|o: int| 0 <= o < p_old.len() && (#[trigger] p_old[o]).0 == c2;
            assert(p_new[o].0 == c2);
        }
    }
    assert forall|c2: RoomCode| c2 != c && has_code(p_old, c2) implies #[trigger] info_of(
        p_new,
        c2,
    ) == info_of(p_old, c2) by {
        let o = code_entry_of(p_old, c2);
        assert(p_old[o].0 == c2);
        assert(o != i as int);
        assert(p_new[o] == p_old[o]);
        assert(has_code(p_new, c2));
        let e = code_entry_of(p_new, c2);
        assert(p_new[e].0 == c2);
        assert(e != i as int);
        assert(p_new[e] == p_old[e]);
        if e != o {
            assert(p_old[e].0 != p_old[o].0);
        }
    }
}

/// Allocates room codes and keeps the three matching pools: `free` holds
/// drained codes ready for re-use, `open` holds rooms joinable from the
/// matching queue, and `reserved` holds existing rooms outside the queue —
/// private, full, or already playing.
pub struct RoomManager {
    pub free: Vec<(RoomCode, RoomInfo)>,
    pub reserved: Vec<(RoomCode, RoomInfo)>,
    pub open: Vec<(RoomCode, RoomInfo)>,
}

/// What the room manager decides for one join request.
pub enum JoinDirective {
    /// Answer the session with this error.
    Reject(JoinRoomError),
    /// Forward the admission to the room with this code and relay its
    /// reply.
    Forward { code: RoomCode, add: crate::room::AddPlayer },
    /// No open room existed: a fresh one was created with the requester as
    /// leader.
    Created { pair: RoomPair, room: crate::room::Room },
}

/// How the state after `UpdateRoomMatchAvailability` relates to the one
/// before. `Available` moves a reserved room into the matching queue only
/// while neither flag is set; `Unavailable` pulls an open room out of the
/// queue, or just sets the flag on an already reserved one. Codes the
/// message does not name keep their pool and flags, and the free pool
/// never changes.
pub open spec fn avail_step(
    pre: RoomManager,
    post: RoomManager,
    c: RoomCode,
    availability: Availability,
) -> bool {
    &&& post.free@ == pre.free@
    &&& forall|c2: RoomCode|
        c2 != c ==> ((#[trigger] has_code(post.reserved@, c2) <==> has_code(pre.reserved@, c2)) && (
        has_code(post.open@, c2) <==> has_code(pre.open@, c2)))
    &&& forall|c2: RoomCode|
        c2 != c && has_code(pre.reserved@, c2) ==> #[trigger] info_of(post.reserved@, c2)
            == info_of(pre.reserved@, c2)
    &&& forall|c2: RoomCode|
        c2 != c && has_code(pre.open@, c2) ==> #[trigger] info_of(post.open@, c2) == info_of(
            pre.open@,
            c2,
        )
    &&& match availability {
        Availability::Available => {
            if has_code(pre.reserved@, c) && !info_of(pre.reserved@, c).full && !info_of(
                pre.reserved@,
                c,
            ).playing {
                &&& !has_code(post.reserved@, c)
                &&& has_code(post.open@, c)
                &&& info_of(post.open@, c) == info_of(pre.reserved@, c)
            } else {
                post == pre
            }
        },
        Availability::Unavailable(reason) => {
            let flagged = match reason {
                RoomUnavailablityReason::Full => RoomInfo {
                    full: true,
                    playing: (if has_code(pre.open@, c) {
                        info_of(pre.open@, c)
                    } else {
                        info_of(pre.reserved@, c)
                    }).playing,
                },
                RoomUnavailablityReason::GameStarted => RoomInfo {
                    full: (if has_code(pre.open@, c) {
                        info_of(pre.open@, c)
                    } else {
                        info_of(pre.reserved@, c)
                    }).full,
                    playing: true,
                },
            };
            if has_code(pre.open@, c) {
                &&& !has_code(post.open@, c)
                &&& has_code(post.reserved@, c)
                &&& info_of(post.reserved@, c) == flagged
            } else if has_code(pre.reserved@, c) {
                &&& has_code(post.reserved@, c)
                &&& info_of(post.reserved@, c) == flagged
                &&& !has_code(post.open@, c) == !has_code(pre.open@, c)
            } else {
                post == pre
            }
        },
    }
}

/// How the state after `OnRoomClosed` relates to the one before: a code
/// known to `open` or `reserved` is pulled out, its flags are reset, and it
/// is placed in `free` for re-use; anything else, including a code already
/// in `free`, leaves the state untouched.
pub open spec fn closed_step(pre: RoomManager, post: RoomManager, c: RoomCode) -> bool {
    if has_code(pre.open@, c) || has_code(pre.reserved@, c) {
        &&& !has_code(post.open@, c)
        &&& !has_code(post.reserved@, c)
        &&& has_code(post.free@, c)
        &&& info_of(post.free@, c) == (RoomInfo { full: false, playing: false })
        &&& forall|c2: RoomCode|
            c2 != c ==> ((#[trigger] has_code(post.free@, c2) <==> has_code(pre.free@, c2)) && (
            has_code(post.reserved@, c2) <==> has_code(pre.reserved@, c2)) && (has_code(
                post.open@,
                c2,
            ) <==> has_code(pre.open@, c2)))
        &&& forall|c2: RoomCode|
            c2 != c && has_code(pre.free@, c2) ==> #[trigger] info_of(post.free@, c2) == info_of(
                pre.free@,
                c2,
            )
        &&& forall|c2: RoomCode|
            c2 != c && has_code(pre.reserved@, c2) ==> #[trigger] info_of(post.reserved@, c2)
                == info_of(pre.reserved@, c2)
        &&& forall|c2: RoomCode|
            c2 != c && has_code(pre.open@, c2) ==> #[trigger] info_of(post.open@, c2) == info_of(
                pre.open@,
                c2,
            )
    } else {
        post == pre
    }
}

impl RoomManager {
    /// Codes the manager knows, over all three pools.
    pub open spec fn knows(self, c: RoomCode) -> bool {
        has_code(self.free@, c) || has_code(self.reserved@, c) || has_code(self.open@, c)
    }

    /// How many entries the three pools hold together.
    pub open spec fn total_codes(self) -> int {
        self.free@.len() + self.reserved@.len() + self.open@.len() as int
    }

    /// The pools' invariant: codes are unique within each pool and appear
    /// in at most one pool, every code is well formed, and rooms in the
    /// matching queue are neither full nor playing.
    pub open spec fn wf(self) -> bool {
        &&& codes_unique(self.free@)
        &&& codes_unique(self.reserved@)
        &&& codes_unique(self.open@)
        &&& codes_wf(self.free@)
        &&& codes_wf(self.reserved@)
        &&& codes_wf(self.open@)
        &&& excludes(self.free@, self.reserved@)
        &&& excludes(self.free@, self.open@)
        &&& excludes(self.reserved@, self.open@)
        &&& pool_clean(self.open@)
    }

    /// An empty manager.
    pub fn new() -> (r: Self)
        ensures
            r.wf(),
            r.free@.len() == 0 && r.reserved@.len() == 0 && r.open@.len() == 0,
    {
        RoomManager { free: Vec::new(), reserved: Vec::new(), open: Vec::new() }
    }

    /// A code in the matching queue is in no other pool, and one in no pool
    /// at all is unknown: each code lives in exactly one place.
    pub proof fn lemma_pools_exclusive(self, c: RoomCode)
        requires
            self.wf(),
        ensures
            has_code(self.free@, c) ==> !has_code(self.reserved@, c) && !has_code(self.open@, c),
            has_code(self.reserved@, c) ==> !has_code(self.free@, c) && !has_code(self.open@, c),
            has_code(self.open@, c) ==> !has_code(self.free@, c) && !has_code(self.reserved@, c),
    {
        if has_code(self.reserved@, c) {
            if has_code(self.free@, c) {
                assert(!has_code(self.reserved@, c));
            }
        }
        if has_code(self.open@, c) {
            if has_code(self.free@, c) {
                assert(!has_code(self.open@, c));
            }
            if has_code(self.reserved@, c) {
                assert(!has_code(self.open@, c));
            }
        }
    }

    /// Every room in the matching queue is joinable: neither full nor
    /// playing.
    pub proof fn lemma_open_room_clean(self, c: RoomCode)
        requires
            self.wf(),
            has_code(self.open@, c),
        ensures
            !info_of(self.open@, c).full,
            !info_of(self.open@, c).playing,
    {
        let e = code_entry_of(self.open@, c);
        assert(self.open@[e].0 == c);
    }

    /// Takes a drained entry out of the free pool, if one exists.
    pub fn get_free(&mut self) -> (r: Option<(RoomCode, RoomInfo)>)
        requires
            old(self).wf(),
        ensures
            final(self).wf(),
            final(self).reserved@ == old(self).reserved@ && final(self).open@ == old(self).open@,
            old(self).free@.len() == 0 ==> r is None && final(self).free@ == old(self).free@,
            old(self).free@.len() > 0 ==> r == Some(old(self).free@.last()) && final(self).free@
                == old(self).free@.drop_last(),
    {
        let n = self.free.len();
        let r = self.free.pop();
        proof {
            if n > 0 {
                let p_old = old(self).free@;
                let p_new = self.free@;
                let i = (n - 1) as usize;
                assert(p_new =~= p_old.remove(i as int));
                lemma_remove_code(p_old, p_new, p_old.last().0, i);
            }
        }
        r
    }

    /// Moves a reserved code into the free pool, flags as they stand.
    pub fn release(&mut self, key: RoomCode)
        requires
            old(self).wf(),
        ensures
            final(self).wf(),
            final(self).open@ == old(self).open@,
            !has_code(old(self).reserved@, key) ==> *final(self) == *old(self),
            has_code(old(self).reserved@, key) ==> ({
                &&& !has_code(final(self).reserved@, key)
                &&& has_code(final(self).free@, key)
                &&& forall|c2: RoomCode|
                    c2 != key ==> ((#[trigger] has_code(final(self).reserved@, c2) <==> has_code(
                        old(self).reserved@,
                        c2,
                    )) && (has_code(final(self).free@, c2) <==> has_code(old(self).free@, c2)))
            }),
    {
        let i = match find_code(&self.reserved, key) {
            None => {
                return ;
            },
            Some(i) => i,
        };
        proof {
            assert(has_code(self.reserved@, key)) by {
                assert((self.reserved@[i as int]).0 == key);
            }
        }
        let entry = self.reserved.remove(i);
        self.free.push(entry);
        proof {
            lemma_remove_code(old(self).reserved@, self.reserved@, key, i);
            assert(!has_code(old(self).free@, key)) by {
                if has_code(old(self).free@, key) {
                    assert(!has_code(old(self).reserved@, key));
                }
            }
            lemma_push_code(old(self).free@, self.free@, key, entry.1);
            assert(old(self).reserved@[i as int].0.wf()) by {
                assert(codes_wf(old(self).reserved@));
            }
            self.lemma_wf_after_reserved_to_free(*old(self), key);
        }
    }

    /// Re-establishes pairwise pool exclusion after one code moved from the
    /// reserved pool to the free pool.
    proof fn lemma_wf_after_reserved_to_free(self, o: RoomManager, c: RoomCode)
        requires
            o.wf(),
            has_code(o.reserved@, c),
            self.open@ == o.open@,
            codes_unique(self.free@),
            codes_unique(self.reserved@),
            codes_wf(self.free@),
            codes_wf(self.reserved@),
            !has_code(self.reserved@, c),
            forall|c2: RoomCode|
                #[trigger] has_code(self.reserved@, c2) ==> has_code(o.reserved@, c2),
            forall|c2: RoomCode|
                #[trigger] has_code(self.free@, c2) ==> has_code(o.free@, c2) || c2 == c,
        ensures
            self.wf(),
    {
        assert forall|c2: RoomCode| #[trigger] has_code(self.free@, c2) implies !has_code(
            self.reserved@,
            c2,
        ) by {
            if c2 != c {
                assert(has_code(o.free@, c2));
                if has_code(self.reserved@, c2) {
                    assert(has_code(o.reserved@, c2));
                    assert(!has_code(o.reserved@, c2));
                }
            }
        }
        assert forall|c2: RoomCode| #[trigger] has_code(self.free@, c2) implies !has_code(
            self.open@,
            c2,
        ) by {
            if c2 == c {
                assert(!has_code(o.open@, c));
            } else {
                assert(has_code(o.free@, c2));
            }
        }
        assert forall|c2: RoomCode| #[trigger] has_code(self.reserved@, c2) implies !has_code(
            self.open@,
            c2,
        ) by {
            assert(has_code(o.reserved@, c2));
        }
    }
}

/// The given flags with the reported reason folded in.
fn flag_info(info: RoomInfo, reason: RoomUnavailablityReason) -> (r: RoomInfo)
    ensures
        r == match reason {
            RoomUnavailablityReason::Full => RoomInfo { full: true, playing: info.playing },
            RoomUnavailablityReason::GameStarted => RoomInfo { full: info.full, playing: true },
        },
{
    match reason {
        RoomUnavailablityReason::Full => RoomInfo { full: true, playing: info.playing },
        RoomUnavailablityReason::GameStarted => RoomInfo { full: info.full, playing: true },
    }
}

impl RoomManager {
    /// The invariant holds again when each pool kept unique, well-formed
    /// keys, the queue stayed clean, and membership did not change.
    proof fn lemma_wf_same_membership(self, o: RoomManager)
        requires
            o.wf(),
            codes_unique(self.free@),
            codes_unique(self.reserved@),
            codes_unique(self.open@),
            codes_wf(self.free@),
            codes_wf(self.reserved@),
            codes_wf(self.open@),
            pool_clean(self.open@),
            forall|c2: RoomCode| #[trigger] has_code(self.free@, c2) ==> has_code(o.free@, c2),
            forall|c2: RoomCode|
                #[trigger] has_code(self.reserved@, c2) ==> has_code(o.reserved@, c2),
            forall|c2: RoomCode| #[trigger] has_code(self.open@, c2) ==> has_code(o.open@, c2),
        ensures
            self.wf(),
    {
        assert forall|c2: RoomCode| #[trigger] has_code(self.free@, c2) implies !has_code(
            self.reserved@,
            c2,
        ) by {
            if has_code(self.reserved@, c2) {
                assert(has_code(o.reserved@, c2));
                assert(!has_code(o.reserved@, c2));
            }
        }
        assert forall|c2: RoomCode| #[trigger] has_code(self.free@, c2) implies !has_code(
            self.open@,
            c2,
        ) by {
            if has_code(self.open@, c2) {
                assert(has_code(o.open@, c2));
                assert(!has_code(o.open@, c2));
            }
        }
        assert forall|c2: RoomCode| #[trigger] has_code(self.reserved@, c2) implies !has_code(
            self.open@,
            c2,
        ) by {
            if has_code(self.open@, c2) {
                assert(has_code(o.open@, c2));
                assert(!has_code(o.open@, c2));
            }
        }
    }

    /// Applies a room's availability report to the pools.
    pub fn handle_update_room_match_availability(&mut self, msg: UpdateRoomMatchAvailability)
        requires
            old(self).wf(),
        ensures
            final(self).wf(),
            avail_step(*old(self), *final(self), msg.code, msg.availability),
    {
        let c = msg.code;
        match msg.availability {
            Availability::Available => {
                let i = match find_code(&self.reserved, c) {
                    None => {
                        proof {
                            assert(!has_code(self.reserved@, c));
                        }
                        return ;
                    },
                    Some(i) => i,
                };
                proof {
                    assert(has_code(self.reserved@, c)) by {
                        assert((self.reserved@[i as int]).0 == c);
                    }
                    let e = code_entry_of(self.reserved@, c);
                    assert(self.reserved@[e].0 == c);
                    if e != i as int {
                        assert(self.reserved@[e].0 != self.reserved@[i as int].0);
                    }
                }
                let info = self.reserved[i].1;
                if !info.full && !info.playing {
                    let entry = self.reserved.remove(i);
                    self.open.push(entry);
                    proof {
                        lemma_remove_code(old(self).reserved@, self.reserved@, c, i);
                        assert(!has_code(old(self).open@, c)) by {
                            if has_code(old(self).open@, c) {
                                assert(!has_code(old(self).open@, c));
                            }
                        }
                        lemma_push_code(old(self).open@, self.open@, c, entry.1);
                        assert(old(self).reserved@[i as int].0.wf()) by {
                            assert(codes_wf(old(self).reserved@));
                        }
                        assert forall|c2: RoomCode| #[trigger] has_code(self.free@, c2) implies
                            !has_code(self.reserved@, c2) by {
                            if has_code(self.reserved@, c2) {
                                assert(has_code(old(self).reserved@, c2));
                                assert(!has_code(old(self).reserved@, c2));
                            }
                        }
                        assert forall|c2: RoomCode| #[trigger] has_code(self.free@, c2) implies
                            !has_code(self.open@, c2) by {
                            if has_code(self.open@, c2) {
                                if c2 == c {
                                    assert(has_code(old(self).reserved@, c));
                                    assert(!has_code(self.free@, c));
                                } else {
                                    assert(has_code(old(self).open@, c2));
                                    assert(!has_code(old(self).open@, c2));
                                }
                            }
                        }
                        assert forall|c2: RoomCode| #[trigger] has_code(self.reserved@, c2) implies
                            !has_code(self.open@, c2) by {
                            assert(has_code(old(self).reserved@, c2));
                            if has_code(self.open@, c2) {
                                if c2 == c {
                                    assert(!has_code(self.reserved@, c));
                                } else {
                                    assert(has_code(old(self).open@, c2));
                                    assert(!has_code(old(self).open@, c2));
                                }
                            }
                        }
                        assert(self.wf());
                    }
                }
            },
            Availability::Unavailable(reason) => {
                match find_code(&self.open, c) {
                    Some(i) => {
                        proof {
                            assert(has_code(self.open@, c)) by {
                                assert((self.open@[i as int]).0 == c);
                            }
                            let e = code_entry_of(self.open@, c);
                            assert(self.open@[e].0 == c);
                            if e != i as int {
                                assert(self.open@[e].0 != self.open@[i as int].0);
                            }
                        }
                        let entry = self.open.remove(i);
                        let info = flag_info(entry.1, reason);
                        self.reserved.push((c, info));
                        proof {
                            lemma_remove_code(old(self).open@, self.open@, c, i);
                            assert(!has_code(old(self).reserved@, c)) by {
                                if has_code(old(self).reserved@, c) {
                                    assert(!has_code(old(self).open@, c));
                                }
                            }
                            lemma_push_code(old(self).reserved@, self.reserved@, c, info);
                            assert(old(self).open@[i as int].0.wf()) by {
                                assert(codes_wf(old(self).open@));
                            }
                            assert forall|c2: RoomCode| #[trigger] has_code(self.free@, c2) implies
                                !has_code(self.reserved@, c2) by {
                                if has_code(self.reserved@, c2) {
                                    if c2 == c {
                                        assert(has_code(old(self).open@, c));
                                        assert(!has_code(self.free@, c));
                                    } else {
                                        assert(has_code(old(self).reserved@, c2));
                                        assert(!has_code(old(self).reserved@, c2));
                                    }
                                }
                            }
                            assert forall|c2: RoomCode| #[trigger] has_code(self.free@, c2) implies
                                !has_code(self.open@, c2) by {
                                if has_code(self.open@, c2) {
                                    assert(has_code(old(self).open@, c2));
                                    assert(!has_code(old(self).open@, c2));
                                }
                            }
                            assert forall|c2: RoomCode|
                                #[trigger] has_code(self.reserved@, c2) implies !has_code(
                                self.open@,
                                c2,
                            ) by {
                                if has_code(self.open@, c2) {
                                    assert(has_code(old(self).open@, c2));
                                    if c2 == c {
                                        assert(!has_code(self.open@, c));
                                    } else {
                                        assert(has_code(old(self).reserved@, c2));
                                        assert(!has_code(old(self).open@, c2));
                                    }
                                }
                            }
                            assert(self.wf());
                        }
                    },
                    None => {
                        proof {
                            assert(!has_code(self.open@, c));
                        }
                        let ghost pre = *self;
                        match find_code(&self.reserved, c) {
                            Some(i) => {
                                proof {
                                    assert(has_code(self.reserved@, c)) by {
                                        assert((self.reserved@[i as int]).0 == c);
                                    }
                                    let e = code_entry_of(self.reserved@, c);
                                    assert(self.reserved@[e].0 == c);
                                    if e != i as int {
                                        assert(self.reserved@[e].0 != self.reserved@[i as int].0);
                                    }
                                }
                                let info = flag_info(self.reserved[i].1, reason);
                                self.reserved.set(i, (c, info));
                                proof {
                                    lemma_set_info(
                                        old(self).reserved@,
                                        self.reserved@,
                                        c,
                                        i,
                                        info,
                                    );
                                    self.lemma_wf_same_membership(*old(self));
                                }
                            },
                            None => {
                                proof {
                                    assert(!has_code(self.reserved@, c));
                                }
                            },
                        }
                    },
                }
            },
        }
    }

    /// Recycles a closed room's code: whichever of `open` or `reserved`
    /// holds it gives it up, and it joins `free` with cleared flags.
    pub fn handle_on_room_closed(&mut self, msg: OnRoomClosed)
        requires
            old(self).wf(),
        ensures
            final(self).wf(),
            closed_step(*old(self), *final(self), msg.0),
    {
        let c = msg.0;
        match find_code(&self.open, c) {
            Some(i) => {
                proof {
                    assert(has_code(self.open@, c)) by {
                        assert((self.open@[i as int]).0 == c);
                    }
                }
                self.open.remove(i);
                self.free.push((c, RoomInfo { full: false, playing: false }));
                proof {
                    lemma_remove_code(old(self).open@, self.open@, c, i);
                    assert(!has_code(old(self).free@, c)) by {
                        if has_code(old(self).free@, c) {
                            assert(!has_code(old(self).open@, c));
                        }
                    }
                    lemma_push_code(
                        old(self).free@,
                        self.free@,
                        c,
                        RoomInfo { full: false, playing: false },
                    );
                    assert(old(self).open@[i as int].0.wf()) by {
                        assert(codes_wf(old(self).open@));
                    }
                    assert(!has_code(self.reserved@, c)) by {
                        if has_code(self.reserved@, c) {
                            assert(!has_code(old(self).open@, c));
                        }
                    }
                    assert forall|c2: RoomCode| #[trigger] has_code(self.free@, c2) implies
                        !has_code(self.reserved@, c2) by {
                        if has_code(self.reserved@, c2) {
                            if c2 != c {
                                assert(has_code(old(self).free@, c2));
                                assert(!has_code(old(self).reserved@, c2));
                            }
                        }
                    }
                    assert forall|c2: RoomCode| #[trigger] has_code(self.free@, c2) implies
                        !has_code(self.open@, c2) by {
                        if has_code(self.open@, c2) {
                            assert(has_code(old(self).open@, c2));
                            if c2 == c {
                                assert(!has_code(self.open@, c));
                            } else {
                                assert(has_code(old(self).free@, c2));
                                assert(!has_code(old(self).open@, c2));
                            }
                        }
                    }
                    assert forall|c2: RoomCode| #[trigger] has_code(self.reserved@, c2) implies
                        !has_code(self.open@, c2) by {
                        if has_code(self.open@, c2) {
                            assert(has_code(old(self).open@, c2));
                            assert(!has_code(old(self).open@, c2));
                        }
                    }
                    assert(self.wf());
                }
            },
            None => {
                proof {
                    assert(!has_code(self.open@, c));
                }
                match find_code(&self.reserved, c) {
                    Some(i) => {
                        proof {
                            assert(has_code(self.reserved@, c)) by {
                                assert((self.reserved@[i as int]).0 == c);
                            }
                        }
                        self.reserved.remove(i);
                        self.free.push((c, RoomInfo { full: false, playing: false }));
                        proof {
                            lemma_remove_code(old(self).reserved@, self.reserved@, c, i);
                            assert(!has_code(old(self).free@, c)) by {
                                if has_code(old(self).free@, c) {
                                    assert(!has_code(old(self).reserved@, c));
                                }
                            }
                            lemma_push_code(
                                old(self).free@,
                                self.free@,
                                c,
                                RoomInfo { full: false, playing: false },
                            );
                            assert(old(self).reserved@[i as int].0.wf()) by {
                                assert(codes_wf(old(self).reserved@));
                            }
                            assert forall|c2: RoomCode| #[trigger] has_code(self.free@, c2) implies
                                !has_code(self.reserved@, c2) by {
                                if has_code(self.reserved@, c2) {
                                    assert(has_code(old(self).reserved@, c2));
                                    if c2 == c {
                                        assert(!has_code(self.reserved@, c));
                                    } else {
                                        assert(has_code(old(self).free@, c2));
                                        assert(!has_code(old(self).reserved@, c2));
                                    }
                                }
                            }
                            assert forall|c2: RoomCode| #[trigger] has_code(self.free@, c2) implies
                                !has_code(self.open@, c2) by {
                                if has_code(self.open@, c2) {
                                    if c2 == c {
                                        assert(has_code(old(self).reserved@, c));
                                        assert(!has_code(self.open@, c));
                                    } else {
                                        assert(has_code(old(self).free@, c2));
                                        assert(!has_code(old(self).open@, c2));
                                    }
                                }
                            }
                            assert forall|c2: RoomCode|
                                #[trigger] has_code(self.reserved@, c2) implies !has_code(
                                self.open@,
                                c2,
                            ) by {
                                assert(has_code(old(self).reserved@, c2));
                                assert(!has_code(old(self).open@, c2));
                            }
                            assert(self.wf());
                        }
                    },
                    None => {
                        proof {
                            assert(!has_code(self.reserved@, c));
                        }
                    },
                }
            },
        }
    }
}

/// The set of codes a pool holds.
pub open spec fn pool_keys(p: Seq<(RoomCode, RoomInfo)>) -> Set<RoomCode> {
    p.map_values(|e: (RoomCode, RoomInfo)| e.0).to_set()
}

proof fn lemma_pool_keys(p: Seq<(RoomCode, RoomInfo)>)
    ensures
        pool_keys(p).finite(),
        pool_keys(p).len() <= p.len(),
        forall|c: RoomCode| pool_keys(p).contains(c) <==> has_code(p, c),
{
    broadcast use vstd::seq_lib::seq_to_set_is_finite;

    let mapped = p.map_values(|e: (RoomCode, RoomInfo)| e.0);
    mapped.lemma_cardinality_of_set();
    assert forall|c: RoomCode| pool_keys(p).contains(c) <==> has_code(p, c) by {
        if pool_keys(p).contains(c) {
            let i = choose|i: int| 0 <= i < mapped.len() && mapped[i] == c;
            assert((#[trigger] p[i]).0 == c);
        }
        if has_code(p, c) {
            let i = code_entry_of(p, c);
            assert(mapped[i] == c);
            assert(mapped.contains(c));
        }
    }
}

impl RoomManager {
    /// The codes the manager knows, as a set.
    pub open spec fn known_set(self) -> Set<RoomCode> {
        pool_keys(self.free@) + pool_keys(self.reserved@) + pool_keys(self.open@)
    }

    proof fn lemma_known_set(self)
        ensures
            self.known_set().finite(),
            self.known_set().len() <= self.total_codes(),
            forall|c: RoomCode| self.known_set().contains(c) <==> self.knows(c),
    {
        broadcast use vstd::set::group_set_axioms;

        lemma_pool_keys(self.free@);
        lemma_pool_keys(self.reserved@);
        lemma_pool_keys(self.open@);
        vstd::set_lib::lemma_len_union(pool_keys(self.free@), pool_keys(self.reserved@));
        vstd::set_lib::lemma_len_union(
            pool_keys(self.free@) + pool_keys(self.reserved@),
            pool_keys(self.open@),
        );
    }

    /// True when any pool holds the code.
    pub fn knows_code(&self, c: RoomCode) -> (r: bool)
        ensures
            r == self.knows(c),
    {
        let in_free = match find_code(&self.free, c) {
            Some(i) => {
                proof {
                    assert(has_code(self.free@, c)) by {
                        assert((self.free@[i as int]).0 == c);
                    }
                }
                true
            },
            None => false,
        };
        if in_free {
            return true;
        }
        match find_code(&self.reserved, c) {
            Some(i) => {
                proof {
                    assert(has_code(self.reserved@, c)) by {
                        assert((self.reserved@[i as int]).0 == c);
                    }
                }
                return true;
            },
            None => {
            },
        }
        match find_code(&self.open, c) {
            Some(i) => {
                proof {
                    assert(has_code(self.open@, c)) by {
                        assert((self.open@[i as int]).0 == c);
                    }
                }
                true
            },
            None => false,
        }
    }

    /// A code no pool holds. A random draw is tried first; if it collides,
    /// the whole code space is swept, which must find one as fewer codes
    /// are in use than exist.
    fn fresh_code(&self) -> (c: RoomCode)
        requires
            self.wf(),
            self.total_codes() < 1_679_616,
        ensures
            c.wf(),
            !self.knows(c),
    {
        let candidate = crate::codes::generate_room_id();
        if !self.knows_code(candidate) {
            return candidate;
        }
        proof {
            self.lemma_known_set();
        }
        let ghost known = self.known_set();
        let mut v: usize = 0;
        let ghost mut tried: Set<RoomCode> = Set::empty();
        proof {
            broadcast use vstd::set::group_set_axioms;

            assert(tried.len() == 0);
        }
        while v < crate::codes::CODE_SPACE_SIZE
            invariant
                self.wf(),
                self.total_codes() < 1_679_616,
                known == self.known_set(),
                known.finite(),
                known.len() <= self.total_codes(),
                forall|c2: RoomCode| known.contains(c2) <==> self.knows(c2),
                tried.finite(),
                tried.len() == v,
                tried.subset_of(known),
                forall|c2: RoomCode|
                    tried.contains(c2) <==> (c2.wf() && 0 <= crate::codes::index_of_code(c2) < v),
                v <= known.len(),
            decreases 1_679_616 - v,
        {
            let cv = crate::codes::code_of_index(v);
            if !self.knows_code(cv) {
                return cv;
            }
            proof {
                broadcast use vstd::set::group_set_axioms;

                assert(known.contains(cv));
                assert(!tried.contains(cv));
                tried = tried.insert(cv);
                assert(tried.len() == v + 1);
                assert(tried.subset_of(known));
                vstd::set_lib::lemma_len_subset(tried, known);
                assert forall|c2: RoomCode|
                    tried.contains(c2) <==> (c2.wf() && 0 <= crate::codes::index_of_code(c2) < v
                        + 1) by {
                    if tried.contains(c2) && c2 != cv {
                        assert(c2.wf() && 0 <= crate::codes::index_of_code(c2) < v);
                    }
                    if c2.wf() && 0 <= crate::codes::index_of_code(c2) < v + 1 && c2 != cv {
                        if crate::codes::index_of_code(c2) == v {
                            crate::codes::lemma_code_of_index_injective(c2, cv);
                        }
                    }
                }
            }
            v += 1;
        }
        proof {
            assert(v <= known.len() <= self.total_codes() < 1_679_616);
            assert(false);
        }
        candidate
    }

    /// Opens a new room with the requester as leader: a fresh code is
    /// allocated, the room is built around seat 0, and the code enters the
    /// reserved pool, clean.
    pub fn create(&mut self, leader: (TransientId, SessionRef), room_config: RoomConfig) -> (r: (
        RoomPair,
        crate::room::Room,
    ))
        requires
            old(self).wf(),
            old(self).total_codes() < 1_679_616,
        ensures
            final(self).wf(),
            r.0.code.wf(),
            !old(self).knows(r.0.code),
            r.1.wf(),
            r.1.code == r.0.code,
            r.1.leader == leader.0,
            r.1.players@ == seq![
                Some(
                    crate::room::PlayerInRoom { addr: leader.1, transient_id: leader.0 },
                ),
            ],
            r.1.player_count == 1,
            r.1.game is None,
            r.1.room_config == room_config,
            final(self).free@ == old(self).free@,
            final(self).open@ == old(self).open@,
            has_code(final(self).reserved@, r.0.code),
            info_of(final(self).reserved@, r.0.code) == (RoomInfo { full: false, playing: false }),
            forall|c2: RoomCode|
                c2 != r.0.code ==> (#[trigger] has_code(final(self).reserved@, c2) <==> has_code(
                    old(self).reserved@,
                    c2,
                )),
            forall|c2: RoomCode|
                c2 != r.0.code && has_code(old(self).reserved@, c2) ==> #[trigger] info_of(
                    final(self).reserved@,
                    c2,
                ) == info_of(old(self).reserved@, c2),
            final(self).total_codes() == old(self).total_codes() + 1,
    {
        let code = self.fresh_code();
        let room = crate::room::Room::new(code, leader, room_config);
        self.reserved.push((code, RoomInfo { full: false, playing: false }));
        proof {
            lemma_push_code(
                old(self).reserved@,
                self.reserved@,
                code,
                RoomInfo { full: false, playing: false },
            );
            assert forall|c2: RoomCode| #[trigger] has_code(self.free@, c2) implies !has_code(
                self.reserved@,
                c2,
            ) by {
                if has_code(self.reserved@, c2) {
                    if c2 == code {
                        assert(!has_code(self.free@, code));
                    } else {
                        assert(has_code(old(self).reserved@, c2));
                        assert(!has_code(old(self).reserved@, c2));
                    }
                }
            }
            assert forall|c2: RoomCode| #[trigger] has_code(self.reserved@, c2) implies !has_code(
                self.open@,
                c2,
            ) by {
                if c2 == code {
                    assert(!has_code(self.open@, code));
                } else {
                    assert(has_code(old(self).reserved@, c2));
                    assert(!has_code(old(self).open@, c2));
                }
            }
            assert(self.wf());
        }
        (RoomPair { code }, room)
    }

    /// Routes a join request. A request naming a code is answered from the
    /// pools: a reserved room short-circuits on its flags, an open room
    /// gets the admission forwarded, and an unknown code is refused. A
    /// request without a code is forwarded to the first open room, or a
    /// fresh room is created when the queue is empty.
    pub fn handle_join_room(&mut self, msg: JoinRoom) -> (r: JoinDirective)
        requires
            old(self).wf(),
            old(self).total_codes() < 1_679_616,
        ensures
            final(self).wf(),
            match msg.code {
                Some(c) => *final(self) == *old(self) && (if has_code(old(self).reserved@, c) {
                    if info_of(old(self).reserved@, c).playing {
                        r == JoinDirective::Reject(JoinRoomError::GameInProgress)
                    } else if info_of(old(self).reserved@, c).full {
                        r == JoinDirective::Reject(JoinRoomError::RoomFull)
                    } else {
                        r == (JoinDirective::Forward {
                            code: c,
                            add: crate::room::AddPlayer(msg.session),
                        })
                    }
                } else if has_code(old(self).open@, c) {
                    r == (JoinDirective::Forward {
                        code: c,
                        add: crate::room::AddPlayer(msg.session),
                    })
                } else {
                    r == JoinDirective::Reject(JoinRoomError::RoomNotFound)
                }),
                None => {
                    if old(self).open@.len() > 0 {
                        &&& *final(self) == *old(self)
                        &&& r == (JoinDirective::Forward {
                            code: old(self).open@[0].0,
                            add: crate::room::AddPlayer(msg.session),
                        })
                    } else {
                        &&& r matches JoinDirective::Created { pair, room }
                        &&& pair.code.wf() && !old(self).knows(pair.code)
                        &&& room.wf() && room.code == pair.code && room.leader == msg.session.0
                        &&& room.players@ == seq![
                            Some(
                                crate::room::PlayerInRoom {
                                    addr: msg.session.1,
                                    transient_id: msg.session.0,
                                },
                            ),
                        ]
                        &&& room.game is None && room.player_count == 1
                        &&& room.room_config == (RoomConfig {
                            public: true,
                            max_player_count: DEFAULT_PLAYER_LIMIT,
                        })
                        &&& has_code(final(self).reserved@, pair.code)
                        &&& info_of(final(self).reserved@, pair.code) == (RoomInfo {
                            full: false,
                            playing: false,
                        })
                        &&& final(self).free@ == old(self).free@ && final(self).open@ == old(self).open@
                    }
                },
            },
    {
        match msg.code {
            Some(c) => {
                match find_code(&self.reserved, c) {
                    Some(i) => {
                        proof {
                            assert(has_code(self.reserved@, c)) by {
                                assert((self.reserved@[i as int]).0 == c);
                            }
                            let e = code_entry_of(self.reserved@, c);
                            assert(self.reserved@[e].0 == c);
                            if e != i as int {
                                assert(self.reserved@[e].0 != self.reserved@[i as int].0);
                            }
                        }
                        let info = self.reserved[i].1;
                        if info.playing {
                            JoinDirective::Reject(JoinRoomError::GameInProgress)
                        } else if info.full {
                            JoinDirective::Reject(JoinRoomError::RoomFull)
                        } else {
                            JoinDirective::Forward { code: c, add: crate::room::AddPlayer(msg.session) }
                        }
                    },
                    None => {
                        proof {
                            assert(!has_code(self.reserved@, c));
                        }
                        match find_code(&self.open, c) {
                            Some(i) => {
                                proof {
                                    assert(has_code(self.open@, c)) by {
                                        assert((self.open@[i as int]).0 == c);
                                    }
                                }
                                JoinDirective::Forward {
                                    code: c,
                                    add: crate::room::AddPlayer(msg.session),
                                }
                            },
                            None => {
                                proof {
                                    assert(!has_code(self.open@, c));
                                }
                                JoinDirective::Reject(JoinRoomError::RoomNotFound)
                            },
                        }
                    },
                }
            },
            None => {
                if self.open.len() > 0 {
                    let code = self.open[0].0;
                    JoinDirective::Forward { code, add: crate::room::AddPlayer(msg.session) }
                } else {
                    let (pair, room) = self.create(
                        msg.session,
                        RoomConfig { public: true, max_player_count: DEFAULT_PLAYER_LIMIT },
                    );
                    JoinDirective::Created { pair, room }
                }
            },
        }
    }
}

/// A room pulled from the matching queue for being full returns to it on a
/// later `Available` report only if the full flag was cleared in between:
/// with the flag still set, the room stays reserved.
pub proof fn lemma_full_blocks_reopen(
    s0: RoomManager,
    s1: RoomManager,
    s2: RoomManager,
    c: RoomCode,
)
    requires
        s0.wf(),
        has_code(s0.open@, c),
        avail_step(s0, s1, c, Availability::Unavailable(RoomUnavailablityReason::Full)),
        avail_step(s1, s2, c, Availability::Available),
    ensures
        has_code(s1.reserved@, c),
        info_of(s1.reserved@, c).full,
        !has_code(s2.open@, c),
        has_code(s2.reserved@, c),
{
    s0.lemma_pools_exclusive(c);
}

/// An `Available` report on a reserved room whose flags are both clear —
/// as after an eviction made room again — returns it to the matching
/// queue.
pub proof fn lemma_available_reopens(s: RoomManager, s2: RoomManager, c: RoomCode)
    requires
        s.wf(),
        has_code(s.reserved@, c),
        !info_of(s.reserved@, c).full,
        !info_of(s.reserved@, c).playing,
        avail_step(s, s2, c, Availability::Available),
    ensures
        has_code(s2.open@, c),
        !has_code(s2.reserved@, c),
{
}

/// Closing a room twice is the same as closing it once: the second notice
/// finds the code already recycled and leaves every pool, the free pool's
/// membership included, untouched.
pub proof fn lemma_on_room_closed_idempotent(
    s0: RoomManager,
    s1: RoomManager,
    s2: RoomManager,
    c: RoomCode,
)
    requires
        closed_step(s0, s1, c),
        closed_step(s1, s2, c),
    ensures
        s2 == s1,
        forall|c2: RoomCode| has_code(s2.free@, c2) <==> has_code(s1.free@, c2),
{
}

/// Finds the position of the entry for `c` in a pool.
fn find_code(v: &Vec<(RoomCode, RoomInfo)>, c: RoomCode) -> (r: Option<usize>)
    ensures
        match r {
            Some(i) => i < v@.len() && v@[i as int].0 == c,
            None => forall|i: int| 0 <= i < v@.len() ==> (#[trigger] v@[i]).0 != c,
        },
{
    let mut i: usize = 0;
    let len = v.len();
    while i < len
        invariant
            i <= len,
            len == v@.len(),
            forall|x: int| 0 <= x < i ==> (#[trigger] v@[x]).0 != c,
        decreases len - i,
    {
        if v[i].0 == c {
            return Some(i);
        }
        i += 1;
    }
    None
}

} // verus!
