//! Properties that hold across the functions of the library.

use vstd::prelude::*;

use crate::cli::{comma_pieces, is_white, trim_end, trim_start, trimmed};
use crate::lockbud::callgraph::{is_path, reaches, CallGraph};
use crate::lockbud::channel::{endpoint_tables_wf, receiver_of, sender_of, ChannelId, EndpointId, EndpointLifetime};
use crate::lockbud::config::{names_hold, LockbudConfig};
use crate::lockbud::detector::{alias_possibility, both_read, combine_possibility, possibility_of, same_receiver};
use crate::lockbud::report::Report;
use crate::lockbud::types::{deadlock_with_spec, LockGuardId, LockGuardMap, Location};
use crate::lockbud::ullbc::{same_place, FunDeclId, LocalId, Place, PlaceKind};
use crate::lockbud::{count_where, counts_of};

verus! {

/// Reaching is transitive: if `a` reaches `b` and `b` reaches `c` in the call
/// graph, `a` reaches `c`.
pub proof fn law_reaches_transitive(g: CallGraph, a: FunDeclId, b: FunDeclId, c: FunDeclId)
    requires
        reaches(g.edge_set(), a, b),
        reaches(g.edge_set(), b, c),
    ensures
        reaches(g.edge_set(), a, c),
{
    let e = g.edge_set();
    let p = choose|p: Seq<FunDeclId>| is_path(e, p) && p[0] == a && p.last() == b;
    let q = choose|q: Seq<FunDeclId>| is_path(e, q) && q[0] == b && q.last() == c;
    let r = p + q.drop_first();
    assert forall|i: int| 0 <= i < r.len() - 1 implies e.contains((#[trigger] r[i], r[i + 1])) by {
        if i < p.len() - 1 {
            assert(r[i] == p[i] && r[i + 1] == p[i + 1]);
        } else if i == p.len() - 1 {
            assert(r[i] == b);
            assert(r[i + 1] == q[1]);
            assert(e.contains((q[0], q[1])));
        } else {
            let j = i - p.len() + 1;
            assert(r[i] == q[j] && r[i + 1] == q[j + 1]);
        }
    }
    if q.len() == 1 {
        assert(r =~= p);
    } else {
        assert(r.last() == q.last());
    }
    assert(is_path(e, r) && r[0] == a && r.last() == c);
}

/// `b` is among the callees of `a` exactly when `a` is among the callers of `b`.
pub proof fn law_callers_callees(g: CallGraph, a: FunDeclId, b: FunDeclId, callees_of_a: Seq<FunDeclId>, callers_of_b: Seq<FunDeclId>)
    requires
        forall|n: FunDeclId| #[trigger] callees_of_a.contains(n) <==> g.edge_set().contains((a, n)),
        forall|n: FunDeclId| #[trigger] callers_of_b.contains(n) <==> g.edge_set().contains((n, b)),
    ensures
        callees_of_a.contains(b) <==> callers_of_b.contains(a),
{
}

/// Being the same place is symmetric.
pub proof fn law_same_place_symmetric(a: Place, b: Place)
    ensures
        same_place(a, b) == same_place(b, a),
    decreases a,
{
    match (a.kind, b.kind) {
        (PlaceKind::Projection(ia, _), PlaceKind::Projection(ib, _)) => {
            law_same_place_symmetric(*ia, *ib);
        },
        _ => {},
    }
}

/// How likely two guards deadlock does not depend on which of them is held
/// first.
pub proof fn law_possibility_symmetric(lg: LockGuardMap, a: LockGuardId, b: LockGuardId)
    ensures
        possibility_of(lg, a, b).0 == possibility_of(lg, b, a).0,
{
    if lg.has(a) && lg.has(b) {
        let ai = lg.info(a);
        let bi = lg.info(b);
        assert(deadlock_with_spec(ai.lockguard_ty, bi.lockguard_ty) == deadlock_with_spec(bi.lockguard_ty, ai.lockguard_ty));
        if ai.receiver_place is Some && bi.receiver_place is Some {
            law_same_place_symmetric(ai.receiver_place->0, bi.receiver_place->0);
        }
        assert(alias_possibility(ai.receiver_place, bi.receiver_place) == alias_possibility(bi.receiver_place, ai.receiver_place));
        assert(same_receiver(ai.receiver_place, bi.receiver_place) == same_receiver(bi.receiver_place, ai.receiver_place));
    }
}

/// Each report is of exactly one kind, so the counts of the kinds add up to
/// the number of reports.
pub proof fn law_counts_add_up(rs: Seq<Report>)
    requires
        rs.len() <= usize::MAX,
    ensures
        ({
            let c = counts_of(rs);
            c.doublelock + c.conflictlock + c.condvar_deadlock + c.atomicity + c.invalid_free + c.use_after_free
                + c.panic + c.channel_deadlock + c.orphan_sender + c.missing_send == rs.len()
        }),
    decreases rs.len(),
{
    lemma_counts_sum(rs);
}

proof fn lemma_counts_sum(rs: Seq<Report>)
    ensures
        count_where(rs, |r: Report| r is DoubleLock) + count_where(rs, |r: Report| r is ConflictLock) + count_where(
            rs,
            |r: Report| r is CondvarDeadlock,
        ) + count_where(rs, |r: Report| r is AtomicityViolation) + count_where(rs, |r: Report| r is InvalidFree)
            + count_where(rs, |r: Report| r is UseAfterFree) + count_where(rs, |r: Report| r is Panic) + count_where(
            rs,
            |r: Report| r is ChannelDeadlock,
        ) + count_where(rs, |r: Report| r is OrphanSender) + count_where(rs, |r: Report| r is MissingSend)
            == rs.len(),
        count_where(rs, |r: Report| r is DoubleLock) <= rs.len(),
        count_where(rs, |r: Report| r is ConflictLock) <= rs.len(),
        count_where(rs, |r: Report| r is CondvarDeadlock) <= rs.len(),
        count_where(rs, |r: Report| r is AtomicityViolation) <= rs.len(),
        count_where(rs, |r: Report| r is InvalidFree) <= rs.len(),
        count_where(rs, |r: Report| r is UseAfterFree) <= rs.len(),
        count_where(rs, |r: Report| r is Panic) <= rs.len(),
        count_where(rs, |r: Report| r is ChannelDeadlock) <= rs.len(),
        count_where(rs, |r: Report| r is OrphanSender) <= rs.len(),
        count_where(rs, |r: Report| r is MissingSend) <= rs.len(),
    decreases rs.len(),
{
    if rs.len() > 0 {
        lemma_counts_sum(rs.drop_last());
    }
}

/// A crate on the black list is never analysed, whatever the white list says.
pub proof fn law_blacklist_wins(whitelist: Option<Vec<String>>, blacklist: Vec<String>, name: Seq<char>)
    requires
        names_hold(blacklist@, name),
    ensures
        !LockbudConfig::crate_allowed(whitelist, Some(blacklist), name),
{
}

/// With no lists, every crate is analysed; with no kinds, every detector runs.
pub proof fn law_no_filter_allows_all(name: Seq<char>, kind: crate::lockbud::config::DetectorKind)
    ensures
        LockbudConfig::crate_allowed(None, None, name),
        LockbudConfig::kind_enabled(Seq::empty(), kind),
{
}

proof fn lemma_trim_start_start(s: Seq<char>)
    ensures
        trim_start(s).len() == 0 || !is_white(trim_start(s)[0]),
    decreases s.len(),
{
    if s.len() > 0 && is_white(s[0]) {
        lemma_trim_start_start(s.drop_first());
    }
}

proof fn lemma_trim_end_keeps_start(s: Seq<char>)
    requires
        s.len() == 0 || !is_white(s[0]),
    ensures
        trim_start(trim_end(s)) == trim_end(s),
    decreases s.len(),
{
    if s.len() > 0 && is_white(s.last()) {
        lemma_trim_end_keeps_start(s.drop_last());
        if s.drop_last().len() == 0 {
            assert(trim_end(s.drop_last()) =~= Seq::<char>::empty());
        } else {
            assert(s.drop_last()[0] == s[0]);
        }
    }
}

proof fn lemma_trim_end_end(s: Seq<char>)
    ensures
        trim_end(s).len() == 0 || !is_white(trim_end(s).last()),
        trim_end(trim_end(s)) == trim_end(s),
    decreases s.len(),
{
    if s.len() > 0 && is_white(s.last()) {
        lemma_trim_end_end(s.drop_last());
    }
}

/// Trimming a trimmed text changes nothing.
pub proof fn law_trim_idempotent(s: Seq<char>)
    ensures
        trimmed(trimmed(s)) == trimmed(s),
{
    let t = trim_start(s);
    lemma_trim_start_start(s);
    lemma_trim_end_keeps_start(t);
    lemma_trim_end_end(t);
}

/// The number of commas in a text.
pub open spec fn comma_count(s: Seq<char>) -> nat
    decreases s.len(),
{
    if s.len() == 0 {
        0
    } else {
        comma_count(s.drop_last()) + if s.last() == ',' {
            1nat
        } else {
            0nat
        }
    }
}

/// A text splits at its commas into one more piece than it has commas.
pub proof fn law_pieces_count(s: Seq<char>)
    ensures
        comma_pieces(s).len() == comma_count(s) + 1,
    decreases s.len(),
{
    if s.len() > 0 {
        law_pieces_count(s.drop_last());
    }
}

/// The two ends of each channel are its sender and its receiver, and they
/// are different endpoints of the same channel.
pub proof fn law_channel_ends(
    ctors: Seq<(FunDeclId, Location)>,
    l2e: Seq<((FunDeclId, LocalId), EndpointId)>,
    channels: Seq<(ChannelId, (EndpointId, EndpointId))>,
    lifetimes: Seq<(EndpointId, EndpointLifetime)>,
    c: int,
)
    requires
        endpoint_tables_wf(ctors, l2e, channels, lifetimes),
        0 <= c < channels.len(),
    ensures
        channels[c].1.0 == sender_of(c),
        channels[c].1.1 == receiver_of(c),
        channels[c].1.0 != channels[c].1.1,
        channels[c].1.0.channel == channels[c].1.1.channel,
        lifetimes[2 * c].1.creation_loc == lifetimes[2 * c + 1].1.creation_loc,
{
    assert(channels[c] == (ChannelId(c as usize), (sender_of(c), receiver_of(c))));
    assert(lifetimes[2 * c].0 == sender_of(c));
}

} // verus!
