use crate::codes::RoomCode;
use crate::room::{ClientReconnection, RemovePlayer};
use crate::message::RemoveReason;
use crate::{SessionRef, TransientId, UserId};
use vstd::prelude::*;

verus! {

/// Transient ids wrap back to 1 after this many allocations, for cosmetic
/// stability of the numbers clients see.
pub const TRANSIENT_ID_WRAP: u64 = 10_000_000_000;

/// What the manager records of one live user: the session endpoint serving
/// them, the transient id of that stream, and the room they sit in, if any.
#[derive(Clone, Copy, PartialEq, Eq, Structural, Debug)]
pub struct SessionData {
    pub session_addr: SessionRef,
    pub transient_id: TransientId,
    pub room_code: Option<RoomCode>,
}

/// The authoritative user-to-stream registry: a record per logged-in user,
/// the reverse transient-id index, and the id allocator.
pub struct SessionManager {
    pub sessions: Vec<(UserId, SessionData)>,
    pub transient_id_map: Vec<(TransientId, UserId)>,
    pub temp_id_counter: TransientId,
}

/// No two records name the same user.
pub open spec fn users_unique(s: Seq<(UserId, SessionData)>) -> bool {
    forall|k1: int, k2: int|
        0 <= k1 < s.len() && 0 <= k2 < s.len() && k1 != k2 ==> (#[trigger] s[k1]).0@ != (
        #[trigger] s[k2]).0@
}

/// No two reverse-index entries hold the same transient id.
pub open spec fn tids_unique(m: Seq<(TransientId, UserId)>) -> bool {
    forall|j1: int, j2: int|
        0 <= j1 < m.len() && 0 <= j2 < m.len() && j1 != j2 ==> (#[trigger] m[j1]).0 != (
        #[trigger] m[j2]).0
}

/// The record at position `k` has its transient id in the reverse index,
/// under the record's own user.
pub open spec fn record_backed(
    s: Seq<(UserId, SessionData)>,
    m: Seq<(TransientId, UserId)>,
    k: int,
) -> bool {
    exists|j: int|
        0 <= j < m.len() && (#[trigger] m[j]).0 == s[k].1.transient_id && m[j].1@ == s[k].0@
}

/// Every record's transient id stands in the reverse index, under the
/// record's own user.
pub open spec fn forward_covered(s: Seq<(UserId, SessionData)>, m: Seq<(TransientId, UserId)>) -> bool {
    forall|k: int| 0 <= k < s.len() ==> #[trigger] record_backed(s, m, k)
}

/// The reverse-index entry at position `j` points back at a record holding
/// its id.
pub open spec fn entry_backed(
    s: Seq<(UserId, SessionData)>,
    m: Seq<(TransientId, UserId)>,
    j: int,
) -> bool {
    exists|k: int|
        0 <= k < s.len() && (#[trigger] s[k]).0@ == m[j].1@ && s[k].1.transient_id == m[j].0
}

/// Every reverse-index entry points back at a record with its id.
pub open spec fn reverse_covered(s: Seq<(UserId, SessionData)>, m: Seq<(TransientId, UserId)>) -> bool {
    forall|j: int| 0 <= j < m.len() ==> #[trigger] entry_backed(s, m, j)
}

/// Every id in the reverse index lies within one wrap period.
pub open spec fn tids_in_period(m: Seq<(TransientId, UserId)>) -> bool {
    forall|j: int| 0 <= j < m.len() ==> 1 <= (#[trigger] m[j]).0 <= TRANSIENT_ID_WRAP
}

/// True when a record for the user with name `u` exists.
pub open spec fn has_user(s: Seq<(UserId, SessionData)>, u: Seq<char>) -> bool {
    exists|k: int| 0 <= k < s.len() && (#[trigger] s[k]).0@ == u
}

/// Position of the record for user `u`.
pub open spec fn user_entry_of(s: Seq<(UserId, SessionData)>, u: Seq<char>) -> int {
    choose|k: int| 0 <= k < s.len() && (#[trigger] s[k]).0@ == u
}

/// The record held for user `u`.
pub open spec fn user_data(s: Seq<(UserId, SessionData)>, u: Seq<char>) -> SessionData {
    s[user_entry_of(s, u)].1
}

/// True when the reverse index knows transient id `t`.
pub open spec fn has_tid(m: Seq<(TransientId, UserId)>, t: TransientId) -> bool {
    exists|j: int| 0 <= j < m.len() && (#[trigger] m[j]).0 == t
}

/// Position of the reverse-index entry for `t`.
pub open spec fn tid_entry_of(m: Seq<(TransientId, UserId)>, t: TransientId) -> int {
    choose|j: int| 0 <= j < m.len() && (#[trigger] m[j]).0 == t
}

/// The user that transient id `t` belongs to.
pub open spec fn tid_user(m: Seq<(TransientId, UserId)>, t: TransientId) -> Seq<char> {
    m[tid_entry_of(m, t)].1@
}

/// The counter value following `c`: one more, wrapping back to 1.
pub open spec fn next_counter(c: int) -> int {
    if c >= TRANSIENT_ID_WRAP {
        1
    } else {
        c + 1
    }
}

/// The counter value `i` allocations after a counter standing at `c0`,
/// while `c0 + i` stays within one wrap period.
pub open spec fn wrap_val(c0: int, i: int) -> int {
    if c0 + i <= TRANSIENT_ID_WRAP {
        c0 + i
    } else {
        c0 + i - TRANSIENT_ID_WRAP
    }
}

impl SessionManager {
    /// The registry's invariant: user names and transient ids are unique
    /// keys, the two indexes mirror each other exactly, and every issued id
    /// lies in the wrap period.
    pub open spec fn wf(self) -> bool {
        &&& users_unique(self.sessions@)
        &&& tids_unique(self.transient_id_map@)
        &&& forward_covered(self.sessions@, self.transient_id_map@)
        &&& reverse_covered(self.sessions@, self.transient_id_map@)
        &&& tids_in_period(self.transient_id_map@)
        &&& self.sessions@.len() == self.transient_id_map@.len()
        &&& self.temp_id_counter <= TRANSIENT_ID_WRAP
    }

    /// An empty registry whose first issued id will be 1.
    pub fn new() -> (r: Self)
        ensures
            r.wf(),
            r.sessions@.len() == 0,
            r.transient_id_map@.len() == 0,
            r.temp_id_counter == 0,
    {
        SessionManager { sessions: Vec::new(), transient_id_map: Vec::new(), temp_id_counter: 0 }
    }

    /// Issues the next counter value: one more than the last, wrapping back
    /// to 1 after `TRANSIENT_ID_WRAP` allocations. The result may collide
    /// with a live id after a wrap; [`SessionManager::register`] retries
    /// until the id is fresh.
    pub fn new_id(&mut self) -> (r: TransientId)
        ensures
            r == next_counter(old(self).temp_id_counter as int),
            final(self).temp_id_counter == r,
            1 <= r <= TRANSIENT_ID_WRAP,
            final(self).sessions@ == old(self).sessions@,
            final(self).transient_id_map@ == old(self).transient_id_map@,
    {
        if self.temp_id_counter >= TRANSIENT_ID_WRAP {
            self.temp_id_counter = 0;
        }
        self.temp_id_counter = self.temp_id_counter + 1;
        self.temp_id_counter
    }

    /// The user a transient id currently belongs to, if any.
    pub fn get_user_by_transient_id(&self, transient_id: TransientId) -> (r: Option<UserId>)
        requires
            self.wf(),
        ensures
            match r {
                Some(u) => has_tid(self.transient_id_map@, transient_id) && u@ == tid_user(
                    self.transient_id_map@,
                    transient_id,
                ),
                None => !has_tid(self.transient_id_map@, transient_id),
            },
    {
        match find_tid_entry(&self.transient_id_map, transient_id) {
            Some(j) => {
                let u = self.transient_id_map[j].1.clone();
                proof {
                    assert(has_tid(self.transient_id_map@, transient_id));
                    let je = tid_entry_of(self.transient_id_map@, transient_id);
                    assert(self.transient_id_map@[je].0 == transient_id);
                    if je != j as int {
                        assert(self.transient_id_map@[je].0 != self.transient_id_map@[j as int].0);
                    }
                    assert(u@ == self.transient_id_map@[j as int].1@);
                }
                Some(u)
            },
            None => None,
        }
    }
}

/// The set of transient ids the reverse index currently holds.
pub open spec fn tid_keys(m: Seq<(TransientId, UserId)>) -> Set<TransientId> {
    m.map_values(|p: (TransientId, UserId)| p.0).to_set()
}

proof fn lemma_tid_keys(m: Seq<(TransientId, UserId)>)
    ensures
        tid_keys(m).finite(),
        tid_keys(m).len() <= m.len(),
        forall|t: TransientId| tid_keys(m).contains(t) <==> has_tid(m, t),
{
    broadcast use vstd::seq_lib::seq_to_set_is_finite;

    let mapped = m.map_values(|p: (TransientId, UserId)| p.0);
    mapped.lemma_cardinality_of_set();
    assert forall|t: TransientId| tid_keys(m).contains(t) <==> has_tid(m, t) by {
        if tid_keys(m).contains(t) {
            let j = choose|j: int| 0 <= j < mapped.len() && mapped[j] == t;
            assert((#[trigger] m[j]).0 == t);
        }
        if has_tid(m, t) {
            let j = tid_entry_of(m, t);
            assert(mapped[j] == t);
            assert(mapped.contains(t));
        }
    }
}

impl SessionManager {
    /// Allocates a transient id no live session holds: counter values are
    /// tried in order until a free one is found, which only takes more than
    /// one try after the counter has wrapped into ids still alive.
    fn fresh_id(&mut self) -> (r: TransientId)
        requires
            old(self).wf(),
            old(self).transient_id_map@.len() < TRANSIENT_ID_WRAP,
        ensures
            final(self).wf(),
            final(self).sessions@ == old(self).sessions@,
            final(self).transient_id_map@ == old(self).transient_id_map@,
            final(self).temp_id_counter == r,
            1 <= r <= TRANSIENT_ID_WRAP,
            !has_tid(old(self).transient_id_map@, r),
            old(self).temp_id_counter + old(self).transient_id_map@.len() + 1
                <= TRANSIENT_ID_WRAP ==> old(self).temp_id_counter < r <= old(self).temp_id_counter + old(self).transient_id_map@.len() + 1,
    {
        let ghost c0 = old(self).temp_id_counter as int;
        let ghost s0 = old(self).sessions@;
        let ghost m = old(self).transient_id_map@;
        let ghost keys = tid_keys(m);
        let ghost bound = m.len() as int;
        proof {
            lemma_tid_keys(m);
        }
        let mut tid = self.new_id();
        let ghost mut tried: Set<TransientId> = Set::empty();
        let ghost mut attempts: int = 0;
        proof {
            broadcast use vstd::set::group_set_axioms;

            assert(tried.len() == 0);
            assert(tid == wrap_val(c0, 1));
        }
        loop
            invariant_except_break
                self.wf(),
                self.sessions@ == s0,
                self.transient_id_map@ == m,
                self.temp_id_counter == tid,
                1 <= tid <= TRANSIENT_ID_WRAP,
                0 <= c0 <= TRANSIENT_ID_WRAP,
                bound == m.len(),
                bound < TRANSIENT_ID_WRAP,
                0 <= attempts <= bound,
                tried.finite(),
                tried.len() == attempts,
                tried.subset_of(keys),
                keys == tid_keys(m),
                forall|t: TransientId|
                    tried.contains(t) <==> exists|i: int| 1 <= i <= attempts && t == wrap_val(c0, i),
                tid == wrap_val(c0, attempts + 1),
            ensures
                self.wf(),
                self.sessions@ == s0,
                self.transient_id_map@ == m,
                self.temp_id_counter == tid,
                1 <= tid <= TRANSIENT_ID_WRAP,
                !has_tid(m, tid),
                c0 + bound + 1 <= TRANSIENT_ID_WRAP ==> c0 < tid <= c0 + bound + 1,
            decreases bound - attempts,
        {
            let hit = find_tid_entry(&self.transient_id_map, tid);
            if hit.is_none() {
                proof {
                    if c0 + bound + 1 <= TRANSIENT_ID_WRAP {
                        assert(c0 + attempts + 1 <= TRANSIENT_ID_WRAP);
                        assert(tid == c0 + attempts + 1);
                    }
                }
                break ;
            }
            proof {
                broadcast use vstd::set::group_set_axioms;

                assert(has_tid(m, tid));
                lemma_tid_keys(m);
                assert(keys.contains(tid));
                if tried.contains(tid) {
                    let i = choose|i: int| 1 <= i <= attempts && tid == wrap_val(c0, i);
                    assert(wrap_val(c0, i) == wrap_val(c0, attempts + 1));
                    assert(false);
                }
                tried = tried.insert(tid);
                attempts = attempts + 1;
                assert(tried.len() == attempts);
                assert(tried.subset_of(keys));
                vstd::set_lib::lemma_len_subset(tried, keys);
                assert(attempts <= keys.len() <= bound);
            }
            let ghost prev = tid as int;
            tid = self.new_id();
            proof {
                assert(prev == wrap_val(c0, attempts));
                assert(tid == next_counter(prev));
                assert(tid == wrap_val(c0, attempts + 1));
                assert forall|t: TransientId|
                    tried.contains(t) <==> exists|i: int|
                        1 <= i <= attempts && t == wrap_val(c0, i) by {
                    if tried.contains(t) && t != prev {
                        let i = choose|i: int| 1 <= i <= attempts - 1 && t == wrap_val(c0, i);
                        assert(1 <= i <= attempts && t == wrap_val(c0, i));
                    }
                    if t == prev {
                        assert(1 <= attempts <= attempts && t == wrap_val(c0, attempts));
                    }
                    if exists|i: int| 1 <= i <= attempts && t == wrap_val(c0, i) {
                        let i = choose|i: int| 1 <= i <= attempts && t == wrap_val(c0, i);
                        if i == attempts {
                            assert(t == prev);
                            assert(tried.contains(t));
                        } else {
                            assert(1 <= i <= attempts - 1 && t == wrap_val(c0, i));
                            assert(tried.contains(t));
                        }
                    }
                }
            }
        }
        tid
    }
}

proof fn lemma_add_session_overwrite(
    s_old: Seq<(UserId, SessionData)>,
    m_old: Seq<(TransientId, UserId)>,
    s_new: Seq<(UserId, SessionData)>,
    m_new: Seq<(TransientId, UserId)>,
    u: Seq<char>,
    k: usize,
    j: usize,
    pair: (UserId, SessionData),
    rev_pair: (TransientId, UserId),
)
    requires
        users_unique(s_old),
        tids_unique(m_old),
        forward_covered(s_old, m_old),
        reverse_covered(s_old, m_old),
        tids_in_period(m_old),
        (k as int) < s_old.len(),
        s_old[k as int].0@ == u,
        (j as int) < m_old.len(),
        m_old[j as int].0 == s_old[k as int].1.transient_id,
        !has_tid(m_old, pair.1.transient_id),
        1 <= pair.1.transient_id <= TRANSIENT_ID_WRAP,
        pair.0@ == u,
        rev_pair == (pair.1.transient_id, rev_pair.1),
        rev_pair.1@ == u,
        s_new == s_old.update(k as int, pair),
        m_new == m_old.update(j as int, rev_pair),
    ensures
        users_unique(s_new),
        tids_unique(m_new),
        forward_covered(s_new, m_new),
        reverse_covered(s_new, m_new),
        tids_in_period(m_new),
        m_old[j as int].1@ == u,
        has_user(s_new, u),
        user_data(s_new, u) == pair.1,
        has_tid(m_new, pair.1.transient_id),
        tid_user(m_new, pair.1.transient_id) == u,
        user_entry_of(s_old, u) == k as int,
        user_data(s_old, u) == s_old[k as int].1,
        forall|u2: Seq<char>| u2 != u ==> (has_user(s_new, u2) <==> has_user(s_old, u2)),
        forall|u2: Seq<char>|
            u2 != u && has_user(s_old, u2) ==> user_data(s_new, u2) == user_data(s_old, u2),
        forall|t: TransientId|
            has_tid(m_new, t) <==> (has_tid(m_old, t) && t != s_old[k as int].1.transient_id) || t
                == pair.1.transient_id,
        forall|t: TransientId|
            t != pair.1.transient_id && t != s_old[k as int].1.transient_id && has_tid(m_old, t)
                ==> tid_user(m_new, t) == tid_user(m_old, t),
{
    let old_tid = s_old[k as int].1.transient_id;
    let tid = pair.1.transient_id;
    // the reverse entry for the overwritten record names the same user
    assert(m_old[j as int].1@ == u) by {
        assert(record_backed(s_old, m_old, k as int));
        let j2 = choose|j2: int|
            0 <= j2 < m_old.len() && (#[trigger] m_old[j2]).0 == s_old[k as int].1.transient_id
                && m_old[j2].1@ == s_old[k as int].0@;
        if j2 != j as int {
            assert(m_old[j2].0 != m_old[j as int].0);
        }
    }
    assert forall|k1: int, k2: int|
        0 <= k1 < s_new.len() && 0 <= k2 < s_new.len() && k1 != k2 implies (
    #[trigger] s_new[k1]).0@ != (#[trigger] s_new[k2]).0@ by {
        assert(s_old[k1].0@ != s_old[k2].0@);
        if k1 != k as int {
            assert(s_new[k1] == s_old[k1]);
        }
        if k2 != k as int {
            assert(s_new[k2] == s_old[k2]);
        }
    }
    assert forall|j1: int, j2: int|
        0 <= j1 < m_new.len() && 0 <= j2 < m_new.len() && j1 != j2 implies (
    #[trigger] m_new[j1]).0 != (#[trigger] m_new[j2]).0 by {
        assert(m_old[j1].0 != m_old[j2].0);
        if j1 != j as int {
            assert(m_new[j1] == m_old[j1]);
            assert(m_new[j1].0 != tid);
        }
        if j2 != j as int {
            assert(m_new[j2] == m_old[j2]);
            assert(m_new[j2].0 != tid);
        }
    }
    assert forall|k2: int| 0 <= k2 < s_new.len() implies record_backed(s_new, m_new, k2) by {
        if k2 == k as int {
            assert(m_new[j as int].0 == s_new[k2].1.transient_id);
            assert(m_new[j as int].1@ == s_new[k2].0@);
        } else {
            assert(s_new[k2] == s_old[k2]);
            assert(record_backed(s_old, m_old, k2));
            let j2 = choose|j2: int|
                0 <= j2 < m_old.len() && (#[trigger] m_old[j2]).0 == s_old[k2].1.transient_id
                    && m_old[j2].1@ == s_old[k2].0@;
            assert(j2 != j as int) by {
                if j2 == j as int {
                    assert(m_old[j2].1@ == u);
                    assert(s_old[k2].0@ == u);
                    assert(s_old[k2].0@ != s_old[k as int].0@);
                }
            }
            assert(m_new[j2] == m_old[j2]);
        }
    }
    assert forall|j2: int| 0 <= j2 < m_new.len() implies entry_backed(s_new, m_new, j2) by {
        if j2 == j as int {
            assert(s_new[k as int].0@ == m_new[j2].1@);
            assert(s_new[k as int].1.transient_id == m_new[j2].0);
        } else {
            assert(m_new[j2] == m_old[j2]);
            assert(entry_backed(s_old, m_old, j2));
            let k2 = choose|k2: int|
                0 <= k2 < s_old.len() && (#[trigger] s_old[k2]).0@ == m_old[j2].1@ && s_old[
                k2].1.transient_id == m_old[j2].0;
            assert(k2 != k as int) by {
                if k2 == k as int {
                    assert(m_old[j2].1@ == u);
                    assert(m_old[j2].0 == old_tid);
                    assert(m_old[j2].0 != m_old[j as int].0);
                }
            }
            assert(s_new[k2] == s_old[k2]);
        }
    }
    assert forall|j2: int| 0 <= j2 < m_new.len() implies 1 <= (#[trigger] m_new[j2]).0
        <= TRANSIENT_ID_WRAP by {
        if j2 != j as int {
            assert(m_new[j2] == m_old[j2]);
        }
    }
    assert(has_user(s_new, u)) by {
        assert((s_new[k as int]).0@ == u);
    }
    assert(user_entry_of(s_new, u) == k as int) by {
        let ke = user_entry_of(s_new, u);
        assert(s_new[ke].0@ == u);
        if ke != k as int {
            assert(s_new[ke].0@ != s_new[k as int].0@);
        }
    }
    assert(user_entry_of(s_old, u) == k as int) by {
        assert((s_old[k as int]).0@ == u);
        let ke = user_entry_of(s_old, u);
        assert(s_old[ke].0@ == u);
        if ke != k as int {
            assert(s_old[ke].0@ != s_old[k as int].0@);
        }
    }
    assert(has_tid(m_new, tid)) by {
        assert((m_new[j as int]).0 == tid);
    }
    assert(tid_user(m_new, tid) == u) by {
        let je = tid_entry_of(m_new, tid);
        assert(m_new[je].0 == tid);
        if je != j as int {
            assert(m_new[je].0 != m_new[j as int].0);
        }
    }
    assert forall|u2: Seq<char>| u2 != u implies (has_user(s_new, u2) <==> has_user(
        s_old,
        u2,
    )) by {
        if has_user(s_new, u2) {
            let ke = choose|ke: int| 0 <= ke < s_new.len() && (#[trigger] s_new[ke]).0@ == u2;
            assert(ke != k as int);
            assert(s_old[ke].0@ == u2);
        }
        if has_user(s_old, u2) {
            let ke = choose|ke: int| 0 <= ke < s_old.len() && (#[trigger] s_old[ke]).0@ == u2;
            assert(ke != k as int);
            assert(s_new[ke].0@ == u2);
        }
    }
    assert forall|u2: Seq<char>| u2 != u && has_user(s_old, u2) implies user_data(s_new, u2)
        == user_data(s_old, u2) by {
        let ko = user_entry_of(s_old, u2);
        assert(s_old[ko].0@ == u2);
        assert(ko != k as int);
        assert(s_new[ko].0@ == u2);
        assert(has_user(s_new, u2));
        let kn = user_entry_of(s_new, u2);
        assert(s_new[kn].0@ == u2);
        assert(kn != k as int);
        assert(s_old[kn].0@ == u2);
        if kn != ko {
            assert(s_old[kn].0@ != s_old[ko].0@);
        }
        assert(s_new[kn] == s_old[ko]);
    }
    assert forall|t: TransientId|
        has_tid(m_new, t) <==> (has_tid(m_old, t) && t != old_tid) || t == tid by {
        if has_tid(m_new, t) {
            let je = choose|je: int| 0 <= je < m_new.len() && (#[trigger] m_new[je]).0 == t;
            if je != j as int {
                assert(m_old[je].0 == t);
                assert(t != old_tid) by {
                    if t == old_tid {
                        assert(m_old[je].0 != m_old[j as int].0);
                    }
                }
            }
        }
        if has_tid(m_old, t) && t != old_tid {
            let je = choose|je: int| 0 <= je < m_old.len() && (#[trigger] m_old[je]).0 == t;
            assert(je != j as int);
            assert(m_new[je].0 == t);
        }
        if t == tid {
            assert(m_new[j as int].0 == t);
        }
    }
    assert forall|t: TransientId|
        t != tid && t != old_tid && has_tid(m_old, t) implies tid_user(m_new, t) == tid_user(
        m_old,
        t,
    ) by {
        let jo = tid_entry_of(m_old, t);
        assert(m_old[jo].0 == t);
        assert(jo != j as int);
        assert(m_new[jo].0 == t);
        assert(has_tid(m_new, t));
        let jn = tid_entry_of(m_new, t);
        assert(m_new[jn].0 == t);
        assert(jn != j as int);
        assert(m_old[jn].0 == t);
        if jn != jo {
            assert(m_old[jn].0 != m_old[jo].0);
        }
        assert(m_new[jn] == m_old[jo]);
    }
}

proof fn lemma_add_session_insert(
    s_old: Seq<(UserId, SessionData)>,
    m_old: Seq<(TransientId, UserId)>,
    s_new: Seq<(UserId, SessionData)>,
    m_new: Seq<(TransientId, UserId)>,
    u: Seq<char>,
    pair: (UserId, SessionData),
    rev_pair: (TransientId, UserId),
)
    requires
        users_unique(s_old),
        tids_unique(m_old),
        forward_covered(s_old, m_old),
        reverse_covered(s_old, m_old),
        tids_in_period(m_old),
        !has_user(s_old, u),
        !has_tid(m_old, pair.1.transient_id),
        1 <= pair.1.transient_id <= TRANSIENT_ID_WRAP,
        pair.0@ == u,
        rev_pair == (pair.1.transient_id, rev_pair.1),
        rev_pair.1@ == u,
        s_new == s_old.push(pair),
        m_new == m_old.push(rev_pair),
    ensures
        users_unique(s_new),
        tids_unique(m_new),
        forward_covered(s_new, m_new),
        reverse_covered(s_new, m_new),
        tids_in_period(m_new),
        has_user(s_new, u),
        user_data(s_new, u) == pair.1,
        has_tid(m_new, pair.1.transient_id),
        tid_user(m_new, pair.1.transient_id) == u,
        forall|u2: Seq<char>| u2 != u ==> (has_user(s_new, u2) <==> has_user(s_old, u2)),
        forall|u2: Seq<char>|
            u2 != u && has_user(s_old, u2) ==> user_data(s_new, u2) == user_data(s_old, u2),
        forall|t: TransientId|
            has_tid(m_new, t) <==> has_tid(m_old, t) || t == pair.1.transient_id,
        forall|t: TransientId|
            t != pair.1.transient_id && has_tid(m_old, t) ==> tid_user(m_new, t) == tid_user(
                m_old,
                t,
            ),
{
    let tid = pair.1.transient_id;
    let slen = s_old.len() as int;
    let mlen = m_old.len() as int;
    assert forall|k1: int, k2: int|
        0 <= k1 < s_new.len() && 0 <= k2 < s_new.len() && k1 != k2 implies (
    #[trigger] s_new[k1]).0@ != (#[trigger] s_new[k2]).0@ by {
        if k1 < slen && k2 < slen {
            assert(s_old[k1].0@ != s_old[k2].0@);
        } else if k1 == slen {
            assert(s_old[k2].0@ != u);
        } else {
            assert(s_old[k1].0@ != u);
        }
    }
    assert forall|j1: int, j2: int|
        0 <= j1 < m_new.len() && 0 <= j2 < m_new.len() && j1 != j2 implies (
    #[trigger] m_new[j1]).0 != (#[trigger] m_new[j2]).0 by {
        if j1 < mlen && j2 < mlen {
            assert(m_old[j1].0 != m_old[j2].0);
        } else if j1 == mlen {
            assert(m_old[j2].0 != tid);
        } else {
            assert(m_old[j1].0 != tid);
        }
    }
    assert forall|k2: int| 0 <= k2 < s_new.len() implies record_backed(s_new, m_new, k2) by {
        if k2 == slen {
            assert(m_new[mlen].0 == s_new[k2].1.transient_id);
            assert(m_new[mlen].1@ == s_new[k2].0@);
        } else {
            assert(s_new[k2] == s_old[k2]);
            assert(record_backed(s_old, m_old, k2));
            let j2 = choose|j2: int|
                0 <= j2 < m_old.len() && (#[trigger] m_old[j2]).0 == s_old[k2].1.transient_id
                    && m_old[j2].1@ == s_old[k2].0@;
            assert(m_new[j2] == m_old[j2]);
        }
    }
    assert forall|j2: int| 0 <= j2 < m_new.len() implies entry_backed(s_new, m_new, j2) by {
        if j2 == mlen {
            assert(s_new[slen].0@ == m_new[j2].1@);
            assert(s_new[slen].1.transient_id == m_new[j2].0);
        } else {
            assert(m_new[j2] == m_old[j2]);
            assert(entry_backed(s_old, m_old, j2));
            let k2 = choose|k2: int|
                0 <= k2 < s_old.len() && (#[trigger] s_old[k2]).0@ == m_old[j2].1@ && s_old[
                k2].1.transient_id == m_old[j2].0;
            assert(s_new[k2] == s_old[k2]);
        }
    }
    assert forall|j2: int| 0 <= j2 < m_new.len() implies 1 <= (#[trigger] m_new[j2]).0
        <= TRANSIENT_ID_WRAP by {
        if j2 < mlen {
            assert(m_new[j2] == m_old[j2]);
        }
    }
    assert(has_user(s_new, u)) by {
        assert((s_new[slen]).0@ == u);
    }
    assert(user_data(s_new, u) == pair.1) by {
        let ke = user_entry_of(s_new, u);
        assert(s_new[ke].0@ == u);
        if ke != slen {
            assert(s_old[ke].0@ == u);
        }
    }
    assert(has_tid(m_new, tid)) by {
        assert((m_new[mlen]).0 == tid);
    }
    assert(tid_user(m_new, tid) == u) by {
        let je = tid_entry_of(m_new, tid);
        assert(m_new[je].0 == tid);
        if je != mlen {
            assert(m_old[je].0 == tid);
        }
    }
    assert forall|u2: Seq<char>| u2 != u implies (has_user(s_new, u2) <==> has_user(
        s_old,
        u2,
    )) by {
        if has_user(s_new, u2) {
            let ke = choose|ke: int| 0 <= ke < s_new.len() && (#[trigger] s_new[ke]).0@ == u2;
            assert(ke != slen);
            assert(s_old[ke].0@ == u2);
        }
        if has_user(s_old, u2) {
            let ke = choose|ke: int| 0 <= ke < s_old.len() && (#[trigger] s_old[ke]).0@ == u2;
            assert(s_new[ke].0@ == u2);
        }
    }
    assert forall|u2: Seq<char>| u2 != u && has_user(s_old, u2) implies user_data(s_new, u2)
        == user_data(s_old, u2) by {
        let ko = user_entry_of(s_old, u2);
        assert(s_old[ko].0@ == u2);
        assert(s_new[ko].0@ == u2);
        assert(has_user(s_new, u2));
        let kn = user_entry_of(s_new, u2);
        assert(s_new[kn].0@ == u2);
        assert(kn != slen);
        assert(s_old[kn].0@ == u2);
        if kn != ko {
            assert(s_old[kn].0@ != s_old[ko].0@);
        }
        assert(s_new[kn] == s_old[ko]);
    }
    assert forall|t: TransientId|
        has_tid(m_new, t) <==> has_tid(m_old, t) || t == tid by {
        if has_tid(m_new, t) {
            let je = choose|je: int| 0 <= je < m_new.len() && (#[trigger] m_new[je]).0 == t;
            if je != mlen {
                assert(m_old[je].0 == t);
            }
        }
        if has_tid(m_old, t) {
            let je = choose|je: int| 0 <= je < m_old.len() && (#[trigger] m_old[je]).0 == t;
            assert(m_new[je].0 == t);
        }
        if t == tid {
            assert(m_new[mlen].0 == t);
        }
    }
    assert forall|t: TransientId|
        t != tid && has_tid(m_old, t) implies tid_user(m_new, t) == tid_user(m_old, t) by {
        let jo = tid_entry_of(m_old, t);
        assert(m_old[jo].0 == t);
        assert(m_new[jo].0 == t);
        assert(has_tid(m_new, t));
        let jn = tid_entry_of(m_new, t);
        assert(m_new[jn].0 == t);
        assert(jn != mlen);
        assert(m_old[jn].0 == t);
        if jn != jo {
            assert(m_old[jn].0 != m_old[jo].0);
        }
        assert(m_new[jn] == m_old[jo]);
    }
}

impl SessionManager {
    /// Binds `client_id` to the given session and fresh transient id. A
    /// returning user's record is overwritten: their room, if any, is told
    /// to rewire the seat to the new session first, and the superseded
    /// session is then told to stop — in that order, so the room learns the
    /// new endpoint before the old session's teardown could evict it.
    pub fn add_session(
        &mut self,
        client_id: UserId,
        session_addr: SessionRef,
        transient_id: TransientId,
    ) -> (r: (Option<(RoomCode, ClientReconnection)>, Option<SessionRef>))
        requires
            old(self).wf(),
            !has_tid(old(self).transient_id_map@, transient_id),
            1 <= transient_id <= TRANSIENT_ID_WRAP,
        ensures
            final(self).wf(),
            final(self).temp_id_counter == old(self).temp_id_counter,
            has_user(final(self).sessions@, client_id@),
            user_data(final(self).sessions@, client_id@) == (SessionData {
                session_addr,
                transient_id,
                room_code: if has_user(old(self).sessions@, client_id@) {
                    user_data(old(self).sessions@, client_id@).room_code
                } else {
                    None::<RoomCode>
                },
            }),
            has_tid(final(self).transient_id_map@, transient_id),
            tid_user(final(self).transient_id_map@, transient_id) == client_id@,
            r.0 == (if has_user(old(self).sessions@, client_id@) && user_data(
                old(self).sessions@,
                client_id@,
            ).room_code is Some {
                Some(
                    (
                        user_data(old(self).sessions@, client_id@).room_code->Some_0,
                        ClientReconnection {
                            replacee: user_data(old(self).sessions@, client_id@).transient_id,
                            replacer: (transient_id, session_addr),
                        },
                    ),
                )
            } else {
                None::<(RoomCode, ClientReconnection)>
            }),
            r.1 == (if has_user(old(self).sessions@, client_id@) {
                Some(user_data(old(self).sessions@, client_id@).session_addr)
            } else {
                None::<SessionRef>
            }),
            forall|u2: Seq<char>|
                u2 != client_id@ ==> (has_user(final(self).sessions@, u2) <==> has_user(
                    old(self).sessions@,
                    u2,
                )),
            forall|u2: Seq<char>|
                u2 != client_id@ && has_user(old(self).sessions@, u2) ==> user_data(
                    final(self).sessions@,
                    u2,
                ) == user_data(old(self).sessions@, u2),
            forall|t: TransientId|
                has_tid(final(self).transient_id_map@, t) <==> (has_tid(
                    old(self).transient_id_map@,
                    t,
                ) && !(has_user(old(self).sessions@, client_id@) && t == user_data(
                    old(self).sessions@,
                    client_id@,
                ).transient_id)) || t == transient_id,
            forall|t: TransientId|
                t != transient_id && (has_user(old(self).sessions@, client_id@) ==> t != user_data(
                    old(self).sessions@,
                    client_id@,
                ).transient_id) && has_tid(old(self).transient_id_map@, t) ==> tid_user(
                    final(self).transient_id_map@,
                    t,
                ) == tid_user(old(self).transient_id_map@, t),
            final(self).sessions@.len() == old(self).sessions@.len() + (if has_user(
                old(self).sessions@,
                client_id@,
            ) {
                0int
            } else {
                1int
            }),
            final(self).transient_id_map@.len() == final(self).sessions@.len(),
    {
        match find_user(&self.sessions, &client_id) {
            Some(k) => {
                let old_data = self.sessions[k].1;
                proof {
                    assert(has_user(self.sessions@, client_id@));
                }
                let j = match find_tid_entry(&self.transient_id_map, old_data.transient_id) {
                    Some(j) => j,
                    None => {
                        proof {
                            assert(record_backed(self.sessions@, self.transient_id_map@, k as int));
                            let j2 = choose|j2: int|
                                0 <= j2 < self.transient_id_map@.len() && (
                                #[trigger] self.transient_id_map@[j2]).0 == self.sessions@[
                                k as int].1.transient_id && self.transient_id_map@[j2].1@
                                    == self.sessions@[k as int].0@;
                            assert(false);
                        }
                        0
                    },
                };
                let rev_user = client_id.clone();
                let new_data = SessionData {
                    session_addr,
                    transient_id,
                    room_code: old_data.room_code,
                };
                self.sessions.set(k, (client_id, new_data));
                self.transient_id_map.set(j, (transient_id, rev_user));
                proof {
                    lemma_add_session_overwrite(
                        old(self).sessions@,
                        old(self).transient_id_map@,
                        self.sessions@,
                        self.transient_id_map@,
                        self.sessions@[k as int].0@,
                        k,
                        j,
                        self.sessions@[k as int],
                        self.transient_id_map@[j as int],
                    );
                }
                let reconnect = match old_data.room_code {
                    Some(code) => Some(
                        (
                            code,
                            ClientReconnection {
                                replacee: old_data.transient_id,
                                replacer: (transient_id, session_addr),
                            },
                        ),
                    ),
                    None => None,
                };
                (reconnect, Some(old_data.session_addr))
            },
            None => {
                let rev_user = client_id.clone();
                self.sessions.push(
                    (client_id, SessionData { session_addr, transient_id, room_code: None }),
                );
                self.transient_id_map.push((transient_id, rev_user));
                proof {
                    lemma_add_session_insert(
                        old(self).sessions@,
                        old(self).transient_id_map@,
                        self.sessions@,
                        self.transient_id_map@,
                        self.sessions@[old(self).sessions@.len() as int].0@,
                        self.sessions@[old(self).sessions@.len() as int],
                        self.transient_id_map@[old(self).transient_id_map@.len() as int],
                    );
                }
                (None, None)
            },
        }
    }

    /// Registers a session for `user_id`: allocates a fresh transient id
    /// and binds the record to it. Ids grow strictly while the allocator
    /// stays within its wrap period.
    pub fn register(&mut self, session_addr: SessionRef, user_id: UserId) -> (r: (
        TransientId,
        Option<(RoomCode, ClientReconnection)>,
        Option<SessionRef>,
    ))
        requires
            old(self).wf(),
            old(self).transient_id_map@.len() < TRANSIENT_ID_WRAP,
        ensures
            final(self).wf(),
            1 <= r.0 <= TRANSIENT_ID_WRAP,
            !has_tid(old(self).transient_id_map@, r.0),
            has_user(final(self).sessions@, user_id@),
            user_data(final(self).sessions@, user_id@) == (SessionData {
                session_addr,
                transient_id: r.0,
                room_code: if has_user(old(self).sessions@, user_id@) {
                    user_data(old(self).sessions@, user_id@).room_code
                } else {
                    None::<RoomCode>
                },
            }),
            has_tid(final(self).transient_id_map@, r.0),
            tid_user(final(self).transient_id_map@, r.0) == user_id@,
            r.1 == (if has_user(old(self).sessions@, user_id@) && user_data(
                old(self).sessions@,
                user_id@,
            ).room_code is Some {
                Some(
                    (
                        user_data(old(self).sessions@, user_id@).room_code->Some_0,
                        ClientReconnection {
                            replacee: user_data(old(self).sessions@, user_id@).transient_id,
                            replacer: (r.0, session_addr),
                        },
                    ),
                )
            } else {
                None::<(RoomCode, ClientReconnection)>
            }),
            r.2 == (if has_user(old(self).sessions@, user_id@) {
                Some(user_data(old(self).sessions@, user_id@).session_addr)
            } else {
                None::<SessionRef>
            }),
            forall|u2: Seq<char>|
                u2 != user_id@ ==> (has_user(final(self).sessions@, u2) <==> has_user(
                    old(self).sessions@,
                    u2,
                )),
            forall|u2: Seq<char>|
                u2 != user_id@ && has_user(old(self).sessions@, u2) ==> user_data(
                    final(self).sessions@,
                    u2,
                ) == user_data(old(self).sessions@, u2),
            old(self).temp_id_counter + old(self).transient_id_map@.len() + 1
                <= TRANSIENT_ID_WRAP ==> old(self).temp_id_counter < r.0 <= old(self).temp_id_counter + old(self).transient_id_map@.len() + 1 && final(self).temp_id_counter == r.0,
    {
        let tid = self.fresh_id();
        let (reconnect, stop) = self.add_session(user_id, session_addr, tid);
        (tid, reconnect, stop)
    }
}

proof fn lemma_remove_reverse_covered(
    s_old: Seq<(UserId, SessionData)>,
    m_old: Seq<(TransientId, UserId)>,
    s_new: Seq<(UserId, SessionData)>,
    m_new: Seq<(TransientId, UserId)>,
    t: TransientId,
    k: usize,
    j: usize,
)
    requires
        tids_unique(m_old),
        reverse_covered(s_old, m_old),
        (k as int) < s_old.len(),
        s_old[k as int].1.transient_id == t,
        (j as int) < m_old.len(),
        m_old[j as int].0 == t,
        s_new == s_old.remove(k as int),
        m_new == m_old.remove(j as int),
    ensures
        reverse_covered(s_new, m_new),
{
    s_old.remove_ensures(k as int);
    m_old.remove_ensures(j as int);
    assert forall|j2: int| 0 <= j2 < m_new.len() implies entry_backed(s_new, m_new, j2) by {
        let jo = if j2 < j as int { j2 } else { j2 + 1 };
        assert(m_new[j2] == m_old[jo]);
        assert(jo != j as int && 0 <= jo < m_old.len());
        assert(entry_backed(s_old, m_old, jo));
        let ko = choose|ko: int|
            0 <= ko < s_old.len() && (#[trigger] s_old[ko]).0@ == m_old[jo].1@ && s_old[
            ko].1.transient_id == m_old[jo].0;
        assert(ko != k as int) by {
            if ko == k as int {
                assert(m_old[jo].0 == t);
                assert(m_old[jo].0 != m_old[j as int].0);
            }
        }
        let kn = if ko < k as int { ko } else { ko - 1 };
        assert(s_new[kn] == s_old[ko]);
        assert(0 <= kn < s_new.len());
        assert(s_new[kn].0@ == m_new[j2].1@);
        assert(s_new[kn].1.transient_id == m_new[j2].0);
    }
}

#[verifier::rlimit(100)]
proof fn lemma_remove_session(
    s_old: Seq<(UserId, SessionData)>,
    m_old: Seq<(TransientId, UserId)>,
    s_new: Seq<(UserId, SessionData)>,
    m_new: Seq<(TransientId, UserId)>,
    u: Seq<char>,
    t: TransientId,
    k: usize,
    j: usize,
)
    requires
        users_unique(s_old),
        tids_unique(m_old),
        forward_covered(s_old, m_old),
        reverse_covered(s_old, m_old),
        tids_in_period(m_old),
        (k as int) < s_old.len(),
        s_old[k as int].0@ == u,
        s_old[k as int].1.transient_id == t,
        (j as int) < m_old.len(),
        m_old[j as int].0 == t,
        m_old[j as int].1@ == u,
        s_new == s_old.remove(k as int),
        m_new == m_old.remove(j as int),
    ensures
        users_unique(s_new),
        tids_unique(m_new),
        forward_covered(s_new, m_new),
        reverse_covered(s_new, m_new),
        tids_in_period(m_new),
        !has_user(s_new, u),
        !has_tid(m_new, t),
        forall|u2: Seq<char>| u2 != u ==> (has_user(s_new, u2) <==> has_user(s_old, u2)),
        forall|u2: Seq<char>|
            u2 != u && has_user(s_old, u2) ==> user_data(s_new, u2) == user_data(s_old, u2),
        forall|t2: TransientId| t2 != t ==> (has_tid(m_new, t2) <==> has_tid(m_old, t2)),
        forall|t2: TransientId|
            t2 != t && has_tid(m_old, t2) ==> tid_user(m_new, t2) == tid_user(m_old, t2),
{
    s_old.remove_ensures(k as int);
    m_old.remove_ensures(j as int);
    assert forall|k1: int, k2: int|
        0 <= k1 < s_new.len() && 0 <= k2 < s_new.len() && k1 != k2 implies (
    #[trigger] s_new[k1]).0@ != (#[trigger] s_new[k2]).0@ by {
        let o1 = if k1 < k as int { k1 } else { k1 + 1 };
        let o2 = if k2 < k as int { k2 } else { k2 + 1 };
        assert(s_new[k1] == s_old[o1]);
        assert(s_new[k2] == s_old[o2]);
        assert(s_old[o1].0@ != s_old[o2].0@);
    }
    assert forall|j1: int, j2: int|
        0 <= j1 < m_new.len() && 0 <= j2 < m_new.len() && j1 != j2 implies (
    #[trigger] m_new[j1]).0 != (#[trigger] m_new[j2]).0 by {
        let o1 = if j1 < j as int { j1 } else { j1 + 1 };
        let o2 = if j2 < j as int { j2 } else { j2 + 1 };
        assert(m_new[j1] == m_old[o1]);
        assert(m_new[j2] == m_old[o2]);
        assert(m_old[o1].0 != m_old[o2].0);
    }
    assert forall|k2: int| 0 <= k2 < s_new.len() implies record_backed(s_new, m_new, k2) by {
        let ko = if k2 < k as int { k2 } else { k2 + 1 };
        assert(s_new[k2] == s_old[ko]);
        assert(ko != k as int && 0 <= ko < s_old.len());
        assert(record_backed(s_old, m_old, ko));
        let jo = choose|jo: int|
            0 <= jo < m_old.len() && (#[trigger] m_old[jo]).0 == s_old[ko].1.transient_id && m_old[
            jo].1@ == s_old[ko].0@;
        assert(jo != j as int) by {
            if jo == j as int {
                assert(s_old[ko].0@ == u);
                assert(s_old[ko].0@ != s_old[k as int].0@);
            }
        }
        let jn = if jo < j as int { jo } else { jo - 1 };
        assert(m_new[jn] == m_old[jo]);
        assert(0 <= jn < m_new.len());
        assert(m_new[jn].0 == s_new[k2].1.transient_id);
        assert(m_new[jn].1@ == s_new[k2].0@);
    }
    lemma_remove_reverse_covered(s_old, m_old, s_new, m_new, t, k, j);
    assert forall|j2: int| 0 <= j2 < m_new.len() implies 1 <= (#[trigger] m_new[j2]).0
        <= TRANSIENT_ID_WRAP by {
        let jo = if j2 < j as int { j2 } else { j2 + 1 };
        assert(m_new[j2] == m_old[jo]);
    }
    assert(!has_user(s_new, u)) by {
        if has_user(s_new, u) {
            let ke = choose|ke: int| 0 <= ke < s_new.len() && (#[trigger] s_new[ke]).0@ == u;
            let ko = if ke < k as int { ke } else { ke + 1 };
            assert(s_new[ke] == s_old[ko]);
            assert(s_old[ko].0@ != s_old[k as int].0@);
        }
    }
    assert(!has_tid(m_new, t)) by {
        if has_tid(m_new, t) {
            let je = choose|je: int| 0 <= je < m_new.len() && (#[trigger] m_new[je]).0 == t;
            let jo = if je < j as int { je } else { je + 1 };
            assert(m_new[je] == m_old[jo]);
            assert(m_old[jo].0 != m_old[j as int].0);
        }
    }
    assert forall|u2: Seq<char>| u2 != u implies (has_user(s_new, u2) <==> has_user(
        s_old,
        u2,
    )) by {
        if has_user(s_new, u2) {
            let ke = choose|ke: int| 0 <= ke < s_new.len() && (#[trigger] s_new[ke]).0@ == u2;
            let ko = if ke < k as int { ke } else { ke + 1 };
            assert(s_new[ke] == s_old[ko]);
            assert(s_old[ko].0@ == u2);
        }
        if has_user(s_old, u2) {
            let ko = choose|ko: int| 0 <= ko < s_old.len() && (#[trigger] s_old[ko]).0@ == u2;
            assert(ko != k as int);
            let kn = if ko < k as int { ko } else { ko - 1 };
            assert(s_new[kn] == s_old[ko]);
        }
    }
    assert forall|u2: Seq<char>| u2 != u && has_user(s_old, u2) implies user_data(s_new, u2)
        == user_data(s_old, u2) by {
        let ko = user_entry_of(s_old, u2);
        assert(s_old[ko].0@ == u2);
        assert(ko != k as int);
        let kn = if ko < k as int { ko } else { ko - 1 };
        assert(s_new[kn] == s_old[ko]);
        assert(has_user(s_new, u2));
        let ke = user_entry_of(s_new, u2);
        assert(s_new[ke].0@ == u2);
        let keo = if ke < k as int { ke } else { ke + 1 };
        assert(s_new[ke] == s_old[keo]);
        if keo != ko {
            assert(s_old[keo].0@ != s_old[ko].0@);
        }
        assert(s_new[ke] == s_old[ko]);
    }
    assert forall|t2: TransientId| t2 != t implies (has_tid(m_new, t2) <==> has_tid(
        m_old,
        t2,
    )) by {
        if has_tid(m_new, t2) {
            let je = choose|je: int| 0 <= je < m_new.len() && (#[trigger] m_new[je]).0 == t2;
            let jo = if je < j as int { je } else { je + 1 };
            assert(m_new[je] == m_old[jo]);
        }
        if has_tid(m_old, t2) {
            let jo = choose|jo: int| 0 <= jo < m_old.len() && (#[trigger] m_old[jo]).0 == t2;
            assert(jo != j as int);
            let jn = if jo < j as int { jo } else { jo - 1 };
            assert(m_new[jn] == m_old[jo]);
        }
    }
    assert forall|t2: TransientId| t2 != t && has_tid(m_old, t2) implies tid_user(m_new, t2)
        == tid_user(m_old, t2) by {
        let jo = tid_entry_of(m_old, t2);
        assert(m_old[jo].0 == t2);
        assert(jo != j as int);
        let jn = if jo < j as int { jo } else { jo - 1 };
        assert(m_new[jn] == m_old[jo]);
        assert(has_tid(m_new, t2));
        let je = tid_entry_of(m_new, t2);
        assert(m_new[je].0 == t2);
        let jeo = if je < j as int { je } else { je + 1 };
        assert(m_new[je] == m_old[jeo]);
        if jeo != jo {
            assert(m_old[jeo].0 != m_old[jo].0);
        }
        assert(m_new[je] == m_old[jo]);
    }
}

/// A session's notice that it entered or left a room, so the manager's
/// record can follow.
#[derive(Clone, Copy, PartialEq, Eq, Structural, Debug)]
pub struct UpdateSessionRoomInfo(pub TransientId, pub Option<RoomCode>);

impl SessionManager {
    /// Applies a session's room notice to its record.
    pub fn handle_update_session_room_info(&mut self, msg: UpdateSessionRoomInfo)
        requires
            old(self).wf(),
        ensures
            final(self).wf(),
            final(self).transient_id_map@ == old(self).transient_id_map@,
            !has_tid(old(self).transient_id_map@, msg.0) ==> *final(self) == *old(self),
            has_tid(old(self).transient_id_map@, msg.0) ==> ({
                let u = tid_user(old(self).transient_id_map@, msg.0);
                &&& has_user(final(self).sessions@, u)
                &&& user_data(final(self).sessions@, u) == (SessionData {
                    session_addr: user_data(old(self).sessions@, u).session_addr,
                    transient_id: user_data(old(self).sessions@, u).transient_id,
                    room_code: msg.1,
                })
            }),
    {
        self.update_session_room_info(msg.0, msg.1)
    }

    /// Drops the registration standing under the given transient id. When
    /// the user sat in a room, that room is told to evict them with the
    /// given reason.
    pub fn remove_session(&mut self, transient_id: TransientId, reason: RemoveReason) -> (r:
        Option<(RoomCode, RemovePlayer)>)
        requires
            old(self).wf(),
        ensures
            final(self).wf(),
            final(self).temp_id_counter == old(self).temp_id_counter,
            !has_tid(old(self).transient_id_map@, transient_id) ==> *final(self) == *old(self)
                && r is None,
            has_tid(old(self).transient_id_map@, transient_id) ==> ({
                let u = tid_user(old(self).transient_id_map@, transient_id);
                &&& !has_user(final(self).sessions@, u)
                &&& !has_tid(final(self).transient_id_map@, transient_id)
                &&& forall|u2: Seq<char>|
                    u2 != u ==> (has_user(final(self).sessions@, u2) <==> has_user(
                        old(self).sessions@,
                        u2,
                    ))
                &&& forall|u2: Seq<char>|
                    u2 != u && has_user(old(self).sessions@, u2) ==> user_data(
                        final(self).sessions@,
                        u2,
                    ) == user_data(old(self).sessions@, u2)
                &&& forall|t2: TransientId|
                    t2 != transient_id ==> (has_tid(final(self).transient_id_map@, t2) <==> has_tid(
                        old(self).transient_id_map@,
                        t2,
                    ))
                &&& r == (if user_data(old(self).sessions@, u).room_code is Some {
                    Some(
                        (
                            user_data(old(self).sessions@, u).room_code->Some_0,
                            RemovePlayer { transient_id, reason },
                        ),
                    )
                } else {
                    None::<(RoomCode, RemovePlayer)>
                })
                &&& final(self).sessions@.len() == old(self).sessions@.len() - 1
            }),
    {
        let j = match find_tid_entry(&self.transient_id_map, transient_id) {
            None => {
                return None;
            },
            Some(j) => j,
        };
        proof {
            assert(has_tid(self.transient_id_map@, transient_id));
            let je = tid_entry_of(self.transient_id_map@, transient_id);
            assert(self.transient_id_map@[je].0 == transient_id);
            if je != j as int {
                assert(self.transient_id_map@[je].0 != self.transient_id_map@[j as int].0);
            }
        }
        let u = self.transient_id_map[j].1.clone();
        let k = match find_user(&self.sessions, &u) {
            None => {
                proof {
                    assert(entry_backed(self.sessions@, self.transient_id_map@, j as int));
                    let k2 = choose|k2: int|
                        0 <= k2 < self.sessions@.len() && (#[trigger] self.sessions@[k2]).0@
                            == self.transient_id_map@[j as int].1@ && self.sessions@[
                        k2].1.transient_id == self.transient_id_map@[j as int].0;
                    assert(false);
                }
                return None;
            },
            Some(k) => k,
        };
        proof {
            // the record found under the user carries this very id
            assert(entry_backed(self.sessions@, self.transient_id_map@, j as int));
            let k2 = choose|k2: int|
                0 <= k2 < self.sessions@.len() && (#[trigger] self.sessions@[k2]).0@
                    == self.transient_id_map@[j as int].1@ && self.sessions@[k2].1.transient_id
                    == self.transient_id_map@[j as int].0;
            if k2 != k as int {
                assert(self.sessions@[k2].0@ != self.sessions@[k as int].0@);
            }
            let ke = user_entry_of(self.sessions@, u@);
            assert(self.sessions@[ke].0@ == u@);
            if ke != k as int {
                assert(self.sessions@[ke].0@ != self.sessions@[k as int].0@);
            }
        }
        let record = self.sessions[k].1;
        self.sessions.remove(k);
        self.transient_id_map.remove(j);
        proof {
            lemma_remove_session(
                old(self).sessions@,
                old(self).transient_id_map@,
                self.sessions@,
                self.transient_id_map@,
                u@,
                transient_id,
                k,
                j,
            );
        }
        match record.room_code {
            Some(code) => Some((code, RemovePlayer { transient_id, reason })),
            None => None,
        }
    }

    /// Points the record reached through the given transient id at the room
    /// the session now sits in, or at none.
    pub fn update_session_room_info(
        &mut self,
        transient_id: TransientId,
        room_code: Option<RoomCode>,
    )
        requires
            old(self).wf(),
        ensures
            final(self).wf(),
            final(self).temp_id_counter == old(self).temp_id_counter,
            final(self).transient_id_map@ == old(self).transient_id_map@,
            !has_tid(old(self).transient_id_map@, transient_id) ==> *final(self) == *old(self),
            has_tid(old(self).transient_id_map@, transient_id) ==> ({
                let u = tid_user(old(self).transient_id_map@, transient_id);
                &&& has_user(final(self).sessions@, u)
                &&& user_data(final(self).sessions@, u) == (SessionData {
                    session_addr: user_data(old(self).sessions@, u).session_addr,
                    transient_id: user_data(old(self).sessions@, u).transient_id,
                    room_code,
                })
                &&& forall|u2: Seq<char>|
                    u2 != u ==> (has_user(final(self).sessions@, u2) <==> has_user(
                        old(self).sessions@,
                        u2,
                    ))
                &&& forall|u2: Seq<char>|
                    u2 != u && has_user(old(self).sessions@, u2) ==> user_data(
                        final(self).sessions@,
                        u2,
                    ) == user_data(old(self).sessions@, u2)
            }),
    {
        let j = match find_tid_entry(&self.transient_id_map, transient_id) {
            None => {
                return ;
            },
            Some(j) => j,
        };
        proof {
            assert(has_tid(self.transient_id_map@, transient_id));
            let je = tid_entry_of(self.transient_id_map@, transient_id);
            assert(self.transient_id_map@[je].0 == transient_id);
            if je != j as int {
                assert(self.transient_id_map@[je].0 != self.transient_id_map@[j as int].0);
            }
        }
        let u = self.transient_id_map[j].1.clone();
        let k = match find_user(&self.sessions, &u) {
            None => {
                proof {
                    assert(entry_backed(self.sessions@, self.transient_id_map@, j as int));
                    let k2 = choose|k2: int|
                        0 <= k2 < self.sessions@.len() && (#[trigger] self.sessions@[k2]).0@
                            == self.transient_id_map@[j as int].1@ && self.sessions@[
                        k2].1.transient_id == self.transient_id_map@[j as int].0;
                    assert(false);
                }
                return ;
            },
            Some(k) => k,
        };
        proof {
            let ke = user_entry_of(self.sessions@, u@);
            assert(self.sessions@[ke].0@ == u@);
            if ke != k as int {
                assert(self.sessions@[ke].0@ != self.sessions@[k as int].0@);
            }
        }
        let record = self.sessions[k].1;
        let key = self.sessions[k].0.clone();
        self.sessions.set(
            k,
            (
                key,
                SessionData {
                    session_addr: record.session_addr,
                    transient_id: record.transient_id,
                    room_code,
                },
            ),
        );
        proof {
            self.lemma_update_room_info_wf(*old(self), u@, k, transient_id, j);
        }
    }

    /// Re-establishes the invariant after one record's room pointer moved:
    /// the record keeps its user and transient id, so both indexes still
    /// mirror each other.
    proof fn lemma_update_room_info_wf(
        self,
        o: SessionManager,
        u: Seq<char>,
        k: usize,
        t: TransientId,
        j: usize,
    )
        requires
            o.wf(),
            (k as int) < o.sessions@.len(),
            o.sessions@[k as int].0@ == u,
            (j as int) < o.transient_id_map@.len(),
            o.transient_id_map@[j as int].0 == t,
            o.transient_id_map@[j as int].1@ == u,
            user_entry_of(o.sessions@, u) == k as int,
            self.transient_id_map@ == o.transient_id_map@,
            self.temp_id_counter == o.temp_id_counter,
            self.sessions@.len() == o.sessions@.len(),
            self.sessions@[k as int].0@ == u,
            self.sessions@[k as int].1.session_addr == o.sessions@[k as int].1.session_addr,
            self.sessions@[k as int].1.transient_id == o.sessions@[k as int].1.transient_id,
            forall|x: int|
                0 <= x < o.sessions@.len() && x != k as int ==> #[trigger] self.sessions@[x]
                    == o.sessions@[x],
        ensures
            self.wf(),
            has_user(self.sessions@, u),
            user_data(self.sessions@, u) == self.sessions@[k as int].1,
            tid_user(o.transient_id_map@, t) == u,
            user_data(o.sessions@, u) == o.sessions@[k as int].1,
            forall|u2: Seq<char>|
                u2 != u ==> (has_user(self.sessions@, u2) <==> has_user(o.sessions@, u2)),
            forall|u2: Seq<char>|
                u2 != u && has_user(o.sessions@, u2) ==> user_data(self.sessions@, u2) == user_data(
                    o.sessions@,
                    u2,
                ),
    {
        assert(tid_user(o.transient_id_map@, t) == u) by {
            assert(has_tid(o.transient_id_map@, t)) by {
                assert(o.transient_id_map@[j as int].0 == t);
            }
            let je = tid_entry_of(o.transient_id_map@, t);
            assert(o.transient_id_map@[je].0 == t);
            if je != j as int {
                assert(o.transient_id_map@[je].0 != o.transient_id_map@[j as int].0);
            }
        }
        assert forall|k1: int, k2: int|
            0 <= k1 < self.sessions@.len() && 0 <= k2 < self.sessions@.len() && k1 != k2 implies (
        #[trigger] self.sessions@[k1]).0@ != (#[trigger] self.sessions@[k2]).0@ by {
            assert(self.sessions@[k1].0@ == o.sessions@[k1].0@);
            assert(self.sessions@[k2].0@ == o.sessions@[k2].0@);
            assert(o.sessions@[k1].0@ != o.sessions@[k2].0@);
        }
        assert forall|k2: int| 0 <= k2 < self.sessions@.len() implies record_backed(
            self.sessions@,
            self.transient_id_map@,
            k2,
        ) by {
            assert(record_backed(o.sessions@, o.transient_id_map@, k2));
            let j2 = choose|j2: int|
                0 <= j2 < o.transient_id_map@.len() && (#[trigger] o.transient_id_map@[j2]).0
                    == o.sessions@[k2].1.transient_id && o.transient_id_map@[j2].1@ == o.sessions@[
                k2].0@;
            assert(self.sessions@[k2].1.transient_id == o.sessions@[k2].1.transient_id);
            assert(self.sessions@[k2].0@ == o.sessions@[k2].0@);
        }
        assert forall|j2: int| 0 <= j2 < self.transient_id_map@.len() implies entry_backed(
            self.sessions@,
            self.transient_id_map@,
            j2,
        ) by {
            assert(entry_backed(o.sessions@, o.transient_id_map@, j2));
            let k2 = choose|k2: int|
                0 <= k2 < o.sessions@.len() && (#[trigger] o.sessions@[k2]).0@
                    == o.transient_id_map@[j2].1@ && o.sessions@[k2].1.transient_id
                    == o.transient_id_map@[j2].0;
            assert(self.sessions@[k2].0@ == o.sessions@[k2].0@);
            assert(self.sessions@[k2].1.transient_id == o.sessions@[k2].1.transient_id);
        }
        assert(has_user(self.sessions@, u)) by {
            assert(self.sessions@[k as int].0@ == u);
        }
        assert(user_data(self.sessions@, u) == self.sessions@[k as int].1) by {
            let ke = user_entry_of(self.sessions@, u);
            assert(self.sessions@[ke].0@ == u);
            if ke != k as int {
                assert(self.sessions@[ke].0@ != self.sessions@[k as int].0@);
            }
        }
        assert forall|u2: Seq<char>| u2 != u implies (has_user(self.sessions@, u2) <==> has_user(
            o.sessions@,
            u2,
        )) by {
            if has_user(self.sessions@, u2) {
                let ke = choose|ke: int|
                    0 <= ke < self.sessions@.len() && (#[trigger] self.sessions@[ke]).0@ == u2;
                assert(o.sessions@[ke].0@ == u2);
            }
            if has_user(o.sessions@, u2) {
                let ke = choose|ke: int|
                    0 <= ke < o.sessions@.len() && (#[trigger] o.sessions@[ke]).0@ == u2;
                assert(ke != k as int);
                assert(self.sessions@[ke].0@ == u2);
            }
        }
        assert forall|u2: Seq<char>| u2 != u && has_user(o.sessions@, u2) implies user_data(
            self.sessions@,
            u2,
        ) == user_data(o.sessions@, u2) by {
            let ko = user_entry_of(o.sessions@, u2);
            assert(o.sessions@[ko].0@ == u2);
            assert(ko != k as int);
            assert(self.sessions@[ko].0@ == u2);
            assert(has_user(self.sessions@, u2));
            let kn = user_entry_of(self.sessions@, u2);
            assert(self.sessions@[kn].0@ == u2);
            assert(kn != k as int);
            assert(o.sessions@[kn].0@ == u2);
            if kn != ko {
                assert(o.sessions@[kn].0@ != o.sessions@[ko].0@);
            }
            assert(self.sessions@[kn] == o.sessions@[ko]);
        }
    }
}

/// The counter value after `k` allocations from a counter standing at `c`.
pub open spec fn nth_counter(c: int, k: nat) -> int
    decreases k,
{
    if k == 0 {
        c
    } else {
        next_counter(nth_counter(c, (k - 1) as nat))
    }
}

proof fn lemma_nth_counter_linear(c: int, k: nat)
    requires
        0 <= c,
        c + k <= TRANSIENT_ID_WRAP,
    ensures
        nth_counter(c, k) == c + k,
    decreases k,
{
    if k > 0 {
        lemma_nth_counter_linear(c, (k - 1) as nat);
    }
}

/// Transient ids issued by successive allocations grow strictly within any
/// window that stays inside one wrap period.
pub proof fn lemma_transient_ids_monotonic(c: int, k1: nat, k2: nat)
    requires
        0 <= c,
        k1 < k2,
        c + k2 <= TRANSIENT_ID_WRAP,
    ensures
        nth_counter(c, k1) < nth_counter(c, k2),
{
    lemma_nth_counter_linear(c, k1);
    lemma_nth_counter_linear(c, k2);
}

/// A session in the registered state agrees with the manager's record for
/// its user: the record points at this session's endpoint and carries its
/// transient id.
pub open spec fn registered_session_consistent(
    m: SessionManager,
    u: Seq<char>,
    s: crate::session::Session,
) -> bool {
    s.registered() ==> has_user(m.sessions@, u) && user_data(m.sessions@, u).transient_id
        == s.transient_id->Some_0 && user_data(m.sessions@, u).session_addr == s.addr
}

/// A registration followed by the session storing the returned id leaves
/// the two agreeing: the manager's record for the user holds exactly the
/// registering session's endpoint and the id that session now carries.
pub proof fn lemma_register_establishes_consistency(
    m: SessionManager,
    s: crate::session::Session,
    u: Seq<char>,
    tid: TransientId,
    room: Option<RoomCode>,
)
    requires
        has_user(m.sessions@, u),
        user_data(m.sessions@, u) == (SessionData {
            session_addr: s.addr,
            transient_id: tid,
            room_code: room,
        }),
        s.transient_id == Some(tid),
    ensures
        registered_session_consistent(m, u, s),
{
}

/// Finds the position of the record for `u` in the forward index.
fn find_user(v: &Vec<(UserId, SessionData)>, u: &UserId) -> (r: Option<usize>)
    ensures
        match r {
            Some(k) => k < v@.len() && v@[k as int].0@ == u@,
            None => forall|k: int| 0 <= k < v@.len() ==> (#[trigger] v@[k]).0@ != u@,
        },
{
    let mut k: usize = 0;
    let len = v.len();
    while k < len
        invariant
            k <= len,
            len == v@.len(),
            forall|j: int| 0 <= j < k ==> (#[trigger] v@[j]).0@ != u@,
        decreases len - k,
    {
        if v[k].0 == *u {
            return Some(k);
        }
        k += 1;
    }
    None
}

/// Finds the position of the entry for `t` in the reverse index.
fn find_tid_entry(v: &Vec<(TransientId, UserId)>, t: TransientId) -> (r: Option<usize>)
    ensures
        match r {
            Some(j) => j < v@.len() && v@[j as int].0 == t,
            None => forall|j: int| 0 <= j < v@.len() ==> (#[trigger] v@[j]).0 != t,
        },
{
    let mut j: usize = 0;
    let len = v.len();
    while j < len
        invariant
            j <= len,
            len == v@.len(),
            forall|i: int| 0 <= i < j ==> (#[trigger] v@[i]).0 != t,
        decreases len - j,
    {
        if v[j].0 == t {
            return Some(j);
        }
        j += 1;
    }
    None
}

} // verus!
