//! The peer registry: known P2P peers, and the fresh ones offered as
//! candidates for a media item.

use vstd::prelude::*;
use crate::clock::now_seconds;
use crate::ids::new_id;
use crate::text::{chars_of, same_text};

verus! {

/// How long a peer stays a candidate after its last heartbeat: five minutes.
pub const DEFAULT_FRESHNESS_SECS: u64 = 300;

/// A known peer; `last_seen` is in seconds since the Unix epoch.
#[derive(Clone, Debug)]
pub struct Peer {
    pub id: u128,
    pub peer_id: String,
    pub ip_address: String,
    pub port: u16,
    pub last_seen: i64,
}

/// The value of a `Peer`.
pub struct PeerView {
    pub id: u128,
    pub peer_id: Seq<char>,
    pub ip_address: Seq<char>,
    pub port: u16,
    pub last_seen: i64,
}

impl View for Peer {
    type V = PeerView;

    open spec fn view(&self) -> PeerView {
        PeerView {
            id: self.id,
            peer_id: self.peer_id@,
            ip_address: self.ip_address@,
            port: self.port,
            last_seen: self.last_seen,
        }
    }
}

impl Peer {
    /// A copy of the peer.
    pub fn duplicate(&self) -> (r: Peer)
        ensures
            r@ == self@,
    {
        Peer {
            id: self.id,
            peer_id: self.peer_id.clone(),
            ip_address: self.ip_address.clone(),
            port: self.port,
            last_seen: self.last_seen,
        }
    }
}

/// The values of a sequence of peers.
pub open spec fn peer_views(v: Seq<Peer>) -> Seq<PeerView> {
    v.map_values(|p: Peer| p@)
}

/// `a` comes before `b` in the lexical order of characters.
pub open spec fn lex_lt(a: Seq<char>, b: Seq<char>) -> bool
    decreases a.len(),
{
    if a.len() == 0 {
        b.len() > 0
    } else if b.len() == 0 {
        false
    } else if a[0] != b[0] {
        a[0] < b[0]
    } else {
        lex_lt(a.drop_first(), b.drop_first())
    }
}

/// A peer heard from no longer than `window` seconds before `now`.
pub open spec fn fresh(p: PeerView, now: i64, window: u64) -> bool {
    p.last_seen >= now - window
}

/// The candidate order: most recently seen first, then by `peer_id`.
pub open spec fn ranks_before(a: PeerView, b: PeerView) -> bool {
    a.last_seen > b.last_seen || (a.last_seen == b.last_seen && lex_lt(a.peer_id, b.peer_id))
}

/// No two peers share a `peer_id`.
pub open spec fn unique_peer_ids(peers: Seq<PeerView>) -> bool {
    forall|i: int, j: int|
        0 <= i < peers.len() && 0 <= j < peers.len() && i != j ==> (#[trigger] peers[i]).peer_id
            != (#[trigger] peers[j]).peer_id
}

/// The registry after a heartbeat of `peer_id` at `now`: a known peer gets
/// the new address and `last_seen`, keeping its id; an unknown one is added
/// under `id`.
pub open spec fn upsert_spec(
    peers: Seq<PeerView>,
    peer_id: Seq<char>,
    ip_address: Seq<char>,
    port: u16,
    now: i64,
    id: u128,
) -> Seq<PeerView> {
    if exists|i: int| 0 <= i < peers.len() && (#[trigger] peers[i]).peer_id == peer_id {
        let i = choose|i: int| 0 <= i < peers.len() && (#[trigger] peers[i]).peer_id == peer_id;
        peers.update(
            i,
            PeerView { id: peers[i].id, peer_id, ip_address, port, last_seen: now },
        )
    } else {
        peers.push(PeerView { id, peer_id, ip_address, port, last_seen: now })
    }
}

proof fn lemma_lex_irreflexive(a: Seq<char>)
    ensures
        !lex_lt(a, a),
    decreases a.len(),
{
    if a.len() > 0 {
        lemma_lex_irreflexive(a.drop_first());
    }
}

proof fn lemma_lex_total(a: Seq<char>, b: Seq<char>)
    ensures
        a != b ==> lex_lt(a, b) || lex_lt(b, a),
        !(lex_lt(a, b) && lex_lt(b, a)),
    decreases a.len(),
{
    if a.len() > 0 && b.len() > 0 && a[0] == b[0] {
        lemma_lex_total(a.drop_first(), b.drop_first());
        if a.drop_first() == b.drop_first() {
            assert(a == seq![a[0]] + a.drop_first());
            assert(b == seq![b[0]] + b.drop_first());
        }
    }
    if a.len() == 0 && b.len() == 0 {
        assert(a == b);
    }
}

proof fn lemma_lex_transitive(a: Seq<char>, b: Seq<char>, c: Seq<char>)
    requires
        lex_lt(a, b),
        lex_lt(b, c),
    ensures
        lex_lt(a, c),
    decreases a.len(),
{
    if a.len() > 0 && b.len() > 0 && c.len() > 0 && a[0] == b[0] && b[0] == c[0] {
        lemma_lex_transitive(a.drop_first(), b.drop_first(), c.drop_first());
    }
}

/// The candidate order is a strict total order on peers with distinct ids.
pub proof fn lemma_ranks_order(a: PeerView, b: PeerView, c: PeerView)
    ensures
        !ranks_before(a, a),
        !(ranks_before(a, b) && ranks_before(b, a)),
        a.peer_id != b.peer_id ==> ranks_before(a, b) || ranks_before(b, a),
        ranks_before(a, b) && ranks_before(b, c) ==> ranks_before(a, c),
{
    lemma_lex_irreflexive(a.peer_id);
    lemma_lex_total(a.peer_id, b.peer_id);
    if ranks_before(a, b) && ranks_before(b, c) && a.last_seen == b.last_seen && b.last_seen
        == c.last_seen {
        lemma_lex_transitive(a.peer_id, b.peer_id, c.peer_id);
    }
}

proof fn lemma_lex_skip(a: Seq<char>, b: Seq<char>, i: int)
    requires
        0 <= i <= a.len(),
        i <= b.len(),
        a.take(i) == b.take(i),
    ensures
        lex_lt(a, b) == lex_lt(a.skip(i), b.skip(i)),
    decreases i,
{
    if i > 0 {
        assert(a[0] == a.take(i)[0]);
        assert(b[0] == b.take(i)[0]);
        assert(a.drop_first().take(i - 1) == a.take(i).drop_first());
        assert(b.drop_first().take(i - 1) == b.take(i).drop_first());
        lemma_lex_skip(a.drop_first(), b.drop_first(), i - 1);
        assert(a.drop_first().skip(i - 1) == a.skip(i));
        assert(b.drop_first().skip(i - 1) == b.skip(i));
    } else {
        assert(a.skip(0) == a);
        assert(b.skip(0) == b);
    }
}

/// Whether `a` comes before `b` in the lexical order.
fn text_lt(a: &str, b: &str) -> (r: bool)
    ensures
        r == lex_lt(a@, b@),
{
    let x = chars_of(a);
    let y = chars_of(b);
    let mut i: usize = 0;
    while i < x.len() && i < y.len() && x[i] == y[i]
        invariant
            x@ == a@,
            y@ == b@,
            i <= x@.len(),
            i <= y@.len(),
            x@.take(i as int) == y@.take(i as int),
        decreases x@.len() - i,
    {
        assert(x@.take(i + 1) == x@.take(i as int).push(x@[i as int]));
        assert(y@.take(i + 1) == y@.take(i as int).push(y@[i as int]));
        i = i + 1;
    }
    proof {
        lemma_lex_skip(x@, y@, i as int);
    }
    if i == x.len() {
        i < y.len()
    } else if i == y.len() {
        false
    } else {
        x[i] < y[i]
    }
}

fn ranks_before_exec(a: &Peer, b: &Peer) -> (r: bool)
    ensures
        r == ranks_before(a@, b@),
{
    a.last_seen > b.last_seen || (a.last_seen == b.last_seen && text_lt(
        a.peer_id.as_str(),
        b.peer_id.as_str(),
    ))
}

fn is_fresh(p: &Peer, now: i64, window: u64) -> (r: bool)
    ensures
        r == fresh(p@, now, window),
{
    p.last_seen as i128 >= now as i128 - window as i128
}

/// `r` is the candidate list for `peers`: fresh peers of the registry, in
/// the candidate order, at most `limit`; a fresh peer is left out only when
/// the list is full and every listed peer ranks before it.
pub open spec fn top_candidates(
    peers: Seq<PeerView>,
    r: Seq<PeerView>,
    limit: nat,
    now: i64,
    window: u64,
) -> bool {
    &&& r.len() <= limit
    &&& forall|i: int|
        0 <= i < r.len() ==> peers.contains(#[trigger] r[i]) && fresh(r[i], now, window)
    &&& forall|i: int, j: int| 0 <= i < j < r.len() ==> ranks_before(#[trigger] r[i], #[trigger] r[j])
    &&& forall|k: int|
        0 <= k < peers.len() && fresh(#[trigger] peers[k], now, window) && !r.contains(peers[k])
            ==> r.len() == limit && forall|i: int| 0 <= i < r.len() ==> ranks_before(#[trigger] r[i], peers[k])
}

/// Whether `q` may come next after the peers `r` already chosen.
spec fn eligible(r: Seq<PeerView>, q: PeerView, now: i64, window: u64) -> bool {
    fresh(q, now, window) && (r.len() == 0 || ranks_before(r.last(), q))
}

/// After a heartbeat of `peer_id` at `t`, the registry holds that peer once,
/// seen at `t`: within the default window it is a candidate four minutes
/// later (unless `limit` peers rank before it), and six minutes later it is
/// in no candidate list.
pub proof fn lemma_heartbeat_freshness(
    peers: Seq<PeerView>,
    peer_id: Seq<char>,
    ip_address: Seq<char>,
    port: u16,
    t: i64,
    id: u128,
    limit: nat,
)
    requires
        unique_peer_ids(peers),
        t <= i64::MAX - 360,
    ensures
        ({
            let after = upsert_spec(peers, peer_id, ip_address, port, t, id);
            exists|i: int|
                0 <= i < after.len() && (#[trigger] after[i]).peer_id == peer_id && after[i].last_seen
                    == t && forall|r: Seq<PeerView>|
                    #[trigger] top_candidates(after, r, limit, (t + 240) as i64, DEFAULT_FRESHNESS_SECS)
                        ==> r.contains(after[i]) || (r.len() == limit && forall|j: int|
                        0 <= j < r.len() ==> ranks_before(#[trigger] r[j], after[i]))
        }),
        forall|r: Seq<PeerView>, j: int|
            top_candidates(
                upsert_spec(peers, peer_id, ip_address, port, t, id),
                r,
                limit,
                (t + 360) as i64,
                DEFAULT_FRESHNESS_SECS,
            ) && 0 <= j < r.len() ==> (#[trigger] r[j]).peer_id != peer_id,
{
    let after = upsert_spec(peers, peer_id, ip_address, port, t, id);
    let i = if exists|i: int| 0 <= i < peers.len() && (#[trigger] peers[i]).peer_id == peer_id {
        choose|i: int| 0 <= i < peers.len() && (#[trigger] peers[i]).peer_id == peer_id
    } else {
        peers.len() as int
    };
    assert(after[i].peer_id == peer_id && after[i].last_seen == t);
    assert forall|k: int| 0 <= k < after.len() && (#[trigger] after[k]).peer_id == peer_id implies k
        == i by {
        if k != i {
            assert(after[k] == peers[k]);
        }
    }
    assert forall|r: Seq<PeerView>|
        #[trigger] top_candidates(after, r, limit, (t + 240) as i64, DEFAULT_FRESHNESS_SECS) implies r.contains(
        after[i],
    ) || (r.len() == limit && forall|j: int| 0 <= j < r.len() ==> ranks_before(#[trigger] r[j], after[i])) by {
        assert(fresh(after[i], (t + 240) as i64, DEFAULT_FRESHNESS_SECS));
    }
    assert forall|r: Seq<PeerView>, j: int|
        top_candidates(after, r, limit, (t + 360) as i64, DEFAULT_FRESHNESS_SECS) && 0 <= j < r.len()
            implies (#[trigger] r[j]).peer_id != peer_id by {
        assert(after.contains(r[j]));
        let k = choose|k: int| 0 <= k < after.len() && after[k] == r[j];
        assert(fresh(r[j], (t + 360) as i64, DEFAULT_FRESHNESS_SECS));
    }
}

/// The known peers, at most one per `peer_id`.
pub struct PeerRegistry {
    peers: Vec<Peer>,
}

impl View for PeerRegistry {
    type V = Seq<PeerView>;

    closed spec fn view(&self) -> Seq<PeerView> {
        self.peers@.map_values(|p: Peer| p@)
    }
}

impl PeerRegistry {
    pub open spec fn wf(&self) -> bool {
        unique_peer_ids(self@)
    }

    /// An empty registry.
    pub fn new() -> (r: PeerRegistry)
        ensures
            r@ == Seq::<PeerView>::empty(),
            r.wf(),
    {
        let r = PeerRegistry { peers: Vec::new() };
        assert(r@ =~= Seq::<PeerView>::empty());
        r
    }

    pub fn len(&self) -> (r: usize)
        ensures
            r == self@.len(),
    {
        self.peers.len()
    }

    /// The peer at position `i`.
    pub fn get(&self, i: usize) -> (r: &Peer)
        requires
            i < self@.len(),
        ensures
            r@ == self@[i as int],
    {
        &self.peers[i]
    }

    /// Records a heartbeat of `peer_id` at `now`: a known peer gets the new
    /// address and `last_seen`, keeping its id; an unknown one is added under
    /// `id`. Idempotent on `peer_id`: the registry never holds it twice.
    pub fn upsert_at(&mut self, peer_id: &str, ip_address: &str, port: u16, now: i64, id: u128)
        requires
            old(self).wf(),
        ensures
            final(self)@ == upsert_spec(old(self)@, peer_id@, ip_address@, port, now, id),
            final(self).wf(),
    {
        let mut i: usize = 0;
        while i < self.peers.len()
            invariant
                i <= self@.len(),
                self@ == old(self)@,
                unique_peer_ids(self@),
                self@.len() == self.peers@.len(),
                forall|k: int| 0 <= k < i ==> (#[trigger] self@[k]).peer_id != peer_id@,
            decreases self@.len() - i,
        {
            assert(self@[i as int] == self.peers@[i as int]@);
            if same_text(self.peers[i].peer_id.as_str(), peer_id) {
                assert(old(self)@[i as int].peer_id == peer_id@);
                let ghost j = choose|j: int|
                    0 <= j < old(self)@.len() && (#[trigger] old(self)@[j]).peer_id == peer_id@;
                assert(j == i);
                let old_id = self.peers[i].id;
                let p = Peer {
                    id: old_id,
                    peer_id: peer_id.to_owned(),
                    ip_address: ip_address.to_owned(),
                    port,
                    last_seen: now,
                };
                self.peers.set(i, p);
                assert(self@ =~= upsert_spec(old(self)@, peer_id@, ip_address@, port, now, id));
                return ;
            }
            i = i + 1;
        }
        let p = Peer {
            id,
            peer_id: peer_id.to_owned(),
            ip_address: ip_address.to_owned(),
            port,
            last_seen: now,
        };
        self.peers.push(p);
        assert(self@ =~= upsert_spec(old(self)@, peer_id@, ip_address@, port, now, id));
    }

    /// Records a heartbeat of `peer_id` now; a new peer gets a fresh random id.
    pub fn upsert(&mut self, peer_id: &str, ip_address: &str, port: u16)
        requires
            old(self).wf(),
        ensures
            exists|now: i64, id: u128|
                final(self)@ == #[trigger] upsert_spec(old(self)@, peer_id@, ip_address@, port, now, id),
            final(self).wf(),
    {
        let id = new_id();
        let now = now_seconds();
        self.upsert_at(peer_id, ip_address, port, now, id);
    }

    /// The candidate peers for a media item: among the peers seen within
    /// `window` seconds before `now`, up to `limit`, most recently seen
    /// first, ties in the order of `peer_id`. Every fresh peer is a candidate
    /// for every media item; a stale one never is.
    pub fn candidates_at(&self, media_id: u128, limit: usize, now: i64, window: u64) -> (r: Vec<
        Peer,
    >)
        requires
            self.wf(),
        ensures
            top_candidates(self@, peer_views(r@), limit as nat, now, window),
    {
        let ghost peers = self@;
        let mut r: Vec<Peer> = Vec::new();
        while r.len() < limit
            invariant
                self.wf(),
                peers == self@,
                r@.len() <= limit,
                forall|i: int|
                    0 <= i < r@.len() ==> peers.contains(#[trigger] r@[i]@) && fresh(
                        r@[i]@,
                        now,
                        window,
                    ),
                forall|i: int, j: int|
                    0 <= i < j < r@.len() ==> ranks_before(#[trigger] r@[i]@, #[trigger] r@[j]@),
                forall|k: int|
                    0 <= k < peers.len() && fresh(#[trigger] peers[k], now, window) ==> peer_views(r@).contains(peers[k]) || forall|i: int|
                        0 <= i < r@.len() ==> ranks_before(#[trigger] r@[i]@, peers[k]),
            ensures
                r@.len() <= limit,
                forall|i: int|
                    0 <= i < r@.len() ==> peers.contains(#[trigger] r@[i]@) && fresh(
                        r@[i]@,
                        now,
                        window,
                    ),
                forall|i: int, j: int|
                    0 <= i < j < r@.len() ==> ranks_before(#[trigger] r@[i]@, #[trigger] r@[j]@),
                forall|k: int|
                    0 <= k < peers.len() && fresh(#[trigger] peers[k], now, window) ==> peer_views(r@).contains(peers[k]) || (r@.len() == limit && forall|i: int|
                        0 <= i < r@.len() ==> ranks_before(#[trigger] r@[i]@, peers[k])),
            decreases limit - r@.len(),
        {
            let ghost rv = peer_views(r@);
            let mut best: Option<usize> = None;
            let mut j: usize = 0;
            while j < self.peers.len()
                invariant
                    self.wf(),
                    peers == self@,
                    rv == peer_views(r@),
                    j <= peers.len(),
                    peers.len() == self.peers@.len(),
                    match best {
                        Some(b) => b < j && eligible(rv, peers[b as int], now, window) && forall|m: int|
                            0 <= m < j && eligible(rv, #[trigger] peers[m], now, window) ==> m == b
                                || ranks_before(peers[b as int], peers[m]),
                        None => forall|m: int|
                            0 <= m < j ==> !eligible(rv, #[trigger] peers[m], now, window),
                    },
                decreases peers.len() - j,
            {
                assert(peers[j as int] == self.peers@[j as int]@);
                let q = &self.peers[j];
                let mut ok = is_fresh(q, now, window);
                if ok && r.len() > 0 {
                    assert(rv.last() == r@[r@.len() - 1]@);
                    ok = ranks_before_exec(&r[r.len() - 1], q);
                }
                if ok {
                    match best {
                        None => {
                            best = Some(j);
                        },
                        Some(b) => {
                            assert(peers[b as int] == self.peers@[b as int]@);
                            if ranks_before_exec(q, &self.peers[b]) {
                                proof {
                                    assert forall|m: int|
                                        0 <= m < j + 1 && eligible(rv, #[trigger] peers[m], now, window)
                                            implies m == j || ranks_before(peers[j as int], peers[m]) by {
                                        if m < j && m != b {
                                            lemma_ranks_order(peers[j as int], peers[b as int], peers[m]);
                                        }
                                    }
                                }
                                best = Some(j);
                            } else {
                                proof {
                                    assert(peers[j as int].peer_id != peers[b as int].peer_id);
                                    lemma_ranks_order(peers[b as int], peers[j as int], peers[j as int]);
                                }
                            }
                        },
                    }
                }
                j = j + 1;
            }
            match best {
                None => {
                    proof {
                        assert forall|k: int|
                            0 <= k < peers.len() && fresh(#[trigger] peers[k], now, window) implies rv.contains(peers[k]) by {
                            if !rv.contains(peers[k]) {
                                if rv.len() > 0 {
                                    assert(ranks_before(r@[r@.len() - 1]@, peers[k]));
                                }
                                assert(eligible(rv, peers[k], now, window));
                            }
                        }
                    }
                    break;
                },
                Some(b) => {
                    let ghost chosen = peers[b as int];
                    assert(chosen == self.peers@[b as int]@);
                    proof {
                        assert forall|i: int| 0 <= i < r@.len() implies ranks_before(#[trigger] r@[i]@, chosen) by {
                            if i < r@.len() - 1 {
                                lemma_ranks_order(r@[i]@, r@[r@.len() - 1]@, chosen);
                            }
                        }
                        assert(peers.contains(chosen));
                    }
                    let ghost before = r@;
                    r.push(self.peers[b].duplicate());
                    proof {
                        assert(peer_views(r@) == rv.push(chosen));
                        assert forall|k: int|
                            0 <= k < peers.len() && fresh(#[trigger] peers[k], now, window) implies peer_views(r@).contains(peers[k]) || forall|i: int|
                                0 <= i < r@.len() ==> ranks_before(#[trigger] r@[i]@, peers[k]) by {
                            let nv = peer_views(r@);
                            if rv.contains(peers[k]) {
                                let i = choose|i: int| 0 <= i < rv.len() && rv[i] == peers[k];
                                assert(nv[i] == peers[k]);
                            } else {
                                if rv.len() > 0 {
                                    assert(ranks_before(before[before.len() - 1]@, peers[k]));
                                    assert(rv.last() == before[before.len() - 1]@);
                                }
                                assert(eligible(rv, peers[k], now, window));
                                if k == b {
                                    assert(nv[nv.len() - 1] == peers[k]);
                                } else {
                                    assert forall|i: int| 0 <= i < r@.len() implies ranks_before(#[trigger] r@[i]@, peers[k]) by {
                                        if i < before.len() {
                                            assert(r@[i] == before[i]);
                                        }
                                    }
                                }
                            }
                        }
                    }
                },
            }
        }
        proof {
            let rv = peer_views(r@);
            assert forall|i: int| 0 <= i < rv.len() implies peers.contains(#[trigger] rv[i]) && fresh(rv[i], now, window) by {
                assert(rv[i] == r@[i]@);
            }
            assert forall|i: int, j: int| 0 <= i < j < rv.len() implies ranks_before(#[trigger] rv[i], #[trigger] rv[j]) by {
                assert(rv[i] == r@[i]@);
                assert(rv[j] == r@[j]@);
            }
            assert forall|k: int|
                0 <= k < peers.len() && fresh(#[trigger] peers[k], now, window) && !rv.contains(peers[k])
                    implies rv.len() == limit && forall|i: int| 0 <= i < rv.len() ==> ranks_before(#[trigger] rv[i], peers[k]) by {
                assert forall|i: int| 0 <= i < rv.len() implies ranks_before(#[trigger] rv[i], peers[k]) by {
                    assert(rv[i] == r@[i]@);
                }
            }
        }
        r
    }

    /// The candidate peers for a media item now, within the default
    /// five-minute window (see `candidates_at`).
    pub fn candidates(&self, media_id: u128, limit: usize) -> (r: Vec<Peer>)
        requires
            self.wf(),
        ensures
            exists|now: i64|
                #[trigger] top_candidates(
                    self@,
                    peer_views(r@),
                    limit as nat,
                    now,
                    DEFAULT_FRESHNESS_SECS,
                ),
    {
        self.candidates_at(media_id, limit, now_seconds(), DEFAULT_FRESHNESS_SECS)
    }
}

} // verus!
