//! Dropping peers that have been silent for too long.

use crate::bindings::ids::uuid_text;
use crate::clock::{Duration, Reading};
use crate::order::{id_rank, lemma_listing_exists, listing};
use crate::roster::api::PeerEventView;
use crate::roster::coordinator::apply::{persisted, without};
use crate::roster::coordinator::effect::{effects, Effect, EffectView, RosterEventView};
use crate::roster::coordinator::heartbeat::{leaving, stale_set};
use crate::roster::coordinator::outcomes::{
    describes, law_departures_are_announced, law_the_durable_copy_has_everybody, law_who_is_silent,
};
use crate::roster::coordinator::state::{wf, CoordView, Coordinator};
use crate::roster::events::LeftView;
use vstd::prelude::*;

verus! {

/// A quarter of the timeout, but a second at least and a minute at most.
pub open spec fn interval_nanos(timeout: int) -> int {
    if timeout / 4 < 1_000_000_000 {
        1_000_000_000
    } else if timeout / 4 > 60_000_000_000 {
        60_000_000_000
    } else {
        timeout / 4
    }
}

/// How often to look for silent peers.
pub fn sweep_interval(timeout: Duration) -> (r: Duration)
    ensures
        r.nanos == interval_nanos(timeout.nanos as int),
{
    let raw: u128 = timeout.nanos / 4;
    if raw < 1_000_000_000 {
        Duration { nanos: 1_000_000_000 }
    } else if raw > 60_000_000_000 {
        Duration { nanos: 60_000_000_000 }
    } else {
        Duration { nanos: raw }
    }
}

/// The state once peers have left, one after the other.
pub open spec fn without_all(s: CoordView, ids: Seq<u128>) -> CoordView
    decreases ids.len(),
{
    if ids.len() == 0 {
        s
    } else {
        without(without_all(s, ids.drop_last()), ids.last())
    }
}

/// What is to be done then.
pub open spec fn leaving_all(s: CoordView, ids: Seq<u128>, at_micros: i64) -> Seq<EffectView>
    decreases ids.len(),
{
    if ids.len() == 0 {
        Seq::empty()
    } else {
        leaving_all(s, ids.drop_last(), at_micros) + leaving(
            without_all(s, ids.drop_last()),
            ids.last(),
            "heartbeat_timeout"@,
            at_micros,
        )
    }
}

/// The silent peers.
pub open spec fn swept(s: CoordView, clock: Reading) -> Seq<u128> {
    listing(stale_set(s, clock.instant), id_rank())
}

/// Drops every peer that has been silent for too long.
pub fn sweep_once(coordinator: &mut Coordinator, clock: Reading, out: &mut Vec<Effect>)
    requires
        wf(old(coordinator)@),
    ensures
        final(coordinator)@ == without_all(old(coordinator)@, swept(old(coordinator)@, clock)),
        effects(final(out)@) == effects(old(out)@) + leaving_all(
            old(coordinator)@,
            swept(old(coordinator)@, clock),
            clock.unix_micros,
        ),
        wf(final(coordinator)@),
{
    let ghost s = coordinator@;
    let stale = coordinator.stale_peers(clock.instant);
    let ghost ids = stale@;
    let mut i: usize = 0;
    assert(ids.take(0) =~= Seq::<u128>::empty());
    assert(effects(out@) + Seq::<EffectView>::empty() =~= effects(out@));
    while i < stale.len()
        invariant
            i <= stale@.len(),
            ids == stale@,
            wf(coordinator@),
            coordinator@ == without_all(s, ids.take(i as int)),
            effects(out@) == effects(old(out)@) + leaving_all(
                s,
                ids.take(i as int),
                clock.unix_micros,
            ),
        decreases stale@.len() - i,
    {
        assert(ids.take(i + 1).drop_last() =~= ids.take(i as int));
        let _removed = coordinator.deregister(stale[i], "heartbeat_timeout", clock, out);
        assert(effects(out@) =~= effects(old(out)@) + leaving_all(
            s,
            ids.take(i + 1),
            clock.unix_micros,
        ));
        i = i + 1;
    }
    assert(ids.take(ids.len() as int) =~= ids);
}

/// A sweep drops the silent peers, and leaves the others as they are.
pub proof fn law_sweeping_drops_the_silent(s: CoordView, clock: Reading, k: u128)
    requires
        wf(s),
    ensures
        ({
            let after = without_all(s, swept(s, clock));
            &&& after.roster.contains_key(k) <==> s.roster.contains_key(k) && !stale_set(
                s,
                clock.instant,
            ).contains(k)
            &&& after.roster.contains_key(k) ==> after.roster[k] == s.roster[k]
        }),
{
    let stale = stale_set(s, clock.instant);
    vstd::set_lib::lemma_len_subset(stale, s.roster.dom());
    lemma_listing_exists(stale, id_rank());
    let ids = swept(s, clock);
    lemma_without_all(s, ids, k);
    if ids.contains(k) {
        let i = choose|i: int| 0 <= i < ids.len() && ids[i] == k;
        assert(stale.contains(ids[i]));
    }
}

proof fn lemma_without_all(s: CoordView, ids: Seq<u128>, k: u128)
    ensures
        without_all(s, ids).roster.contains_key(k) <==> s.roster.contains_key(k) && !ids.contains(k),
        without_all(s, ids).roster.contains_key(k) ==> without_all(s, ids).roster[k] == s.roster[k],
    decreases ids.len(),
{
    if ids.len() > 0 {
        lemma_without_all(s, ids.drop_last(), k);
        let front = ids.drop_last();
        if front.contains(k) {
            let i = choose|i: int| 0 <= i < front.len() && front[i] == k;
            assert(ids[i] == k);
        }
        if ids.contains(k) && k != ids.last() {
            let i = choose|i: int| 0 <= i < ids.len() && ids[i] == k;
            assert(front[i] == k);
        }
        if k == ids.last() {
            assert(ids[ids.len() - 1] == k);
        }
    }
}

/// How often silent peers are looked for: a quarter of the timeout, unless that
/// is less than a second or more than a minute.
pub proof fn law_sweeps_come_in_time(timeout: int)
    requires
        timeout >= 0,
    ensures
        1_000_000_000 <= interval_nanos(timeout) <= 60_000_000_000,
        timeout < 4_000_000_000 ==> interval_nanos(timeout) == 1_000_000_000,
        timeout >= 240_000_000_000 ==> interval_nanos(timeout) == 60_000_000_000,
        4_000_000_000 <= timeout <= 240_000_000_000 ==> 4 * interval_nanos(timeout) <= timeout < 4
            * interval_nanos(timeout) + 4,
{
}

/// What is announced of one of several different peers that leave one after the
/// other is what is announced of it alone, but for those that stay.
proof fn lemma_each_is_announced(s: CoordView, ids: Seq<u128>, at_micros: i64, q: int)
    requires
        wf(s),
        0 <= q < ids.len(),
        s.roster.contains_key(ids[q]),
        forall|i: int, j: int| 0 <= i < j < ids.len() ==> #[trigger] ids[i] != #[trigger] ids[j],
    ensures
        ({
            let all = leaving_all(s, ids, at_micros);
            let k = ids[q];
            &&& all.contains(
                EffectView::Publish(
                    RosterEventView::Left(
                        LeftView {
                            peer_id: uuid_text(k),
                            reason: "heartbeat_timeout"@,
                            left_at_micros: at_micros,
                        },
                    ),
                ),
            )
            &&& all.contains(EffectView::DropRelay(s.roster[k].wg_public_key))
            &&& all.contains(
                EffectView::Broadcast(
                    PeerEventView::Removed { peer_id: uuid_text(k), tags: s.roster[k].tags },
                ),
            )
        }),
    decreases ids.len(),
{
    let front = ids.drop_last();
    let before = leaving_all(s, front, at_micros);
    let t = without_all(s, front);
    let more = leaving(t, ids.last(), "heartbeat_timeout"@, at_micros);
    let all = leaving_all(s, ids, at_micros);
    let k = ids[q];
    assert(all == before + more);
    assert forall|i: int, j: int| 0 <= i < j < front.len() implies #[trigger] front[i]
        != #[trigger] front[j] by {
        assert(ids[i] != ids[j]);
    }
    assert forall|x: EffectView| before.contains(x) || more.contains(x) implies all.contains(x) by {
        if before.contains(x) {
            let i = choose|i: int| 0 <= i < before.len() && before[i] == x;
            assert(all[i] == x);
        } else {
            let i = choose|i: int| 0 <= i < more.len() && more[i] == x;
            assert(all[before.len() + i] == x);
        }
    }
    if q < front.len() {
        assert(front[q] == ids[q]);
        lemma_each_is_announced(s, front, at_micros, q);
    } else {
        lemma_without_all(s, front, k);
        if front.contains(k) {
            let i = choose|i: int| 0 <= i < front.len() && front[i] == k;
            assert(ids[i] != ids[q]);
        }
        lemma_left_wf(s, front);
        law_departures_are_announced(t, k, "heartbeat_timeout"@, at_micros);
    }
}

proof fn lemma_left_wf(s: CoordView, ids: Seq<u128>)
    requires
        wf(s),
    ensures
        wf(without_all(s, ids)),
    decreases ids.len(),
{
    if ids.len() > 0 {
        lemma_left_wf(s, ids.drop_last());
    }
}

/// Of every peer that a sweep drops it is published that it left for its
/// silence and at which time, its relay connection is closed, and viewers are
/// told, with the tags that it had.
pub proof fn law_sweeps_announce_the_silent(s: CoordView, clock: Reading, k: u128)
    requires
        wf(s),
        s.roster.contains_key(k),
        clock.instant.nanos > s.roster[k].last_heartbeat.nanos + s.heartbeat_timeout.nanos,
    ensures
        ({
            let all = leaving_all(s, swept(s, clock), clock.unix_micros);
            &&& all.contains(
                EffectView::Publish(
                    RosterEventView::Left(
                        LeftView {
                            peer_id: uuid_text(k),
                            reason: "heartbeat_timeout"@,
                            left_at_micros: clock.unix_micros,
                        },
                    ),
                ),
            )
            &&& all.contains(EffectView::DropRelay(s.roster[k].wg_public_key))
            &&& all.contains(
                EffectView::Broadcast(
                    PeerEventView::Removed { peer_id: uuid_text(k), tags: s.roster[k].tags },
                ),
            )
        }),
{
    let stale = stale_set(s, clock.instant);
    vstd::set_lib::lemma_len_subset(stale, s.roster.dom());
    lemma_listing_exists(stale, id_rank());
    let ids = swept(s, clock);
    law_who_is_silent(s, clock.instant, k);
    assert(stale.contains(k));
    let q = choose|q: int| 0 <= q < ids.len() && ids[q] == k;
    assert forall|i: int, j: int| 0 <= i < j < ids.len() implies #[trigger] ids[i]
        != #[trigger] ids[j] by {
        assert(id_rank()(ids[i]) < id_rank()(ids[j]));
    }
    lemma_each_is_announced(s, ids, clock.unix_micros, q);
}

/// A sweep drops exactly the peers that have been silent for longer than the
/// timeout, and leaves all others as they are. Where it dropped any, the last
/// thing that it asks for is that the durable copy is replaced by one of those
/// that stayed.
pub proof fn law_sweeps_keep_the_copy_current(s: CoordView, clock: Reading, k: u128)
    requires
        wf(s),
    ensures
        ({
            let after = without_all(s, swept(s, clock));
            let all = leaving_all(s, swept(s, clock), clock.unix_micros);
            &&& after.roster.contains_key(k) <==> s.roster.contains_key(k) && clock.instant.nanos
                <= s.roster[k].last_heartbeat.nanos + s.heartbeat_timeout.nanos
            &&& after.roster.contains_key(k) ==> after.roster[k] == s.roster[k]
            &&& all.len() > 0 ==> {
                &&& all.last() matches EffectView::Persist(evs)
                &&& describes(evs, after.roster)
            }
        }),
{
    law_sweeping_drops_the_silent(s, clock, k);
    law_who_is_silent(s, clock.instant, k);
    let ids = swept(s, clock);
    let after = without_all(s, ids);
    lemma_left_wf(s, ids);
    law_the_durable_copy_has_everybody(after);
    if ids.len() > 0 {
        let front = ids.drop_last();
        let t = without_all(s, front);
        let stale = stale_set(s, clock.instant);
        vstd::set_lib::lemma_len_subset(stale, s.roster.dom());
        lemma_listing_exists(stale, id_rank());
        assert(stale.contains(ids[ids.len() - 1]));
        lemma_without_all(s, front, ids.last());
        if front.contains(ids.last()) {
            let i = choose|i: int| 0 <= i < front.len() && front[i] == ids.last();
            assert(id_rank()(ids[i]) < id_rank()(ids[ids.len() - 1]));
        }
        let more = leaving(t, ids.last(), "heartbeat_timeout"@, clock.unix_micros);
        assert(more.last() == EffectView::Persist(persisted(after.roster)));
    }
}

} // verus!
