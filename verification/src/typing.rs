//! State for typing indicators (both inbound and outbound).
//!
//! Times are nanoseconds of the monotonic clock since the state was
//! made, as [`TypingState::now_nanos`] reads them.

use vstd::prelude::*;

verus! {

/// Nanoseconds in a second.
pub const NANOS_PER_SEC: u64 = 1_000_000_000;

/// Seconds after which a typing indicator expires, and after which the
/// outgoing indicator times out.
pub const TYPING_TIMEOUT_SECS: u64 = 5;

/// A reading of the monotonic clock of `std::time`.
#[verifier::external_type_specification]
#[verifier::external_body]
pub struct ExInstant(std::time::Instant);

/// `Instant::now()`: the current reading of the monotonic clock.  Nothing
/// is claimed of it: it is the time.
#[verifier::external_body]
fn instant_now() -> std::time::Instant {
    std::time::Instant::now()
}

/// `Instant::elapsed(origin)` in nanoseconds (`u64::MAX` past about 584
/// years): monotonic time since `origin`.  Nothing is claimed of the
/// value: it is the time.
#[verifier::external_body]
fn nanos_since(origin: &std::time::Instant) -> u64 {
    match u64::try_from(origin.elapsed().as_nanos()) {
        Ok(n) => n,
        Err(_) => u64::MAX,
    }
}

/// Time from `earlier` to `later`, zero if `later` is not after it (as
/// `Instant::duration_since` saturates).
pub open spec fn elapsed(later: u64, earlier: u64) -> nat {
    if later >= earlier {
        (later - earlier) as nat
    } else {
        0
    }
}

/// An indicator stamped at `at` is still shown at `now`: fewer than five
/// whole seconds have passed.
pub open spec fn is_fresh(now: u64, at: u64) -> bool {
    elapsed(now, at) / (NANOS_PER_SEC as nat) < TYPING_TIMEOUT_SECS as nat
}

/// The outgoing indicator has timed out at `now`: it was sent and more
/// than five seconds have passed since the last keypress.
pub open spec fn timed_out(sent: bool, last_keypress: Option<u64>, now: u64) -> bool {
    sent && match last_keypress {
        Some(t) => elapsed(now, t) > (TYPING_TIMEOUT_SECS * NANOS_PER_SEC) as nat,
        None => false,
    }
}

/// `m` after `sender` started typing in `conv` at `at`.
pub open spec fn with_typing(
    m: Map<Seq<char>, Map<Seq<char>, u64>>,
    conv: Seq<char>,
    sender: Seq<char>,
    at: u64,
) -> Map<Seq<char>, Map<Seq<char>, u64>> {
    m.insert(
        conv,
        if m.contains_key(conv) {
            m[conv]
        } else {
            Map::empty()
        }.insert(sender, at),
    )
}

/// `m` after `sender` stopped typing in `conv`.
pub open spec fn without_typing(
    m: Map<Seq<char>, Map<Seq<char>, u64>>,
    conv: Seq<char>,
    sender: Seq<char>,
) -> Map<Seq<char>, Map<Seq<char>, u64>> {
    if m.contains_key(conv) {
        m.insert(conv, m[conv].remove(sender))
    } else {
        m
    }
}

/// After a cleanup at `now`, every sender left is fresh at `now` and every
/// conversation left has someone typing.
pub proof fn lemma_cleanup_leaves_fresh(m: Map<Seq<char>, Map<Seq<char>, u64>>, now: u64)
    ensures
        forall|c: Seq<char>|
            #[trigger] cleaned(m, now).contains_key(c) ==> has_fresh(cleaned(m, now)[c], now)
                && !has_stale(cleaned(m, now)[c], now),
{
    assert forall|c: Seq<char>| #[trigger] cleaned(m, now).contains_key(c) implies has_fresh(
        cleaned(m, now)[c],
        now,
    ) && !has_stale(cleaned(m, now)[c], now) by {
        let k = choose|k: Seq<char>| m[c].contains_key(k) && is_fresh(now, #[trigger] m[c][k]);
        let f = fresh_part(m[c], now);
        assert(cleaned(m, now)[c] == f);
        assert(f.contains_key(k) && f[k] == m[c][k]);
        assert(has_fresh(f, now));
        if has_stale(f, now) {
            let k2 = choose|k2: Seq<char>| f.contains_key(k2) && !is_fresh(now, #[trigger] f[k2]);
            assert(false);
        }
    }
}

/// Cleaning twice at the same time is cleaning once, and the second
/// cleanup reports no change.
pub proof fn lemma_cleanup_idempotent(m: Map<Seq<char>, Map<Seq<char>, u64>>, now: u64)
    ensures
        cleaned(cleaned(m, now), now) == cleaned(m, now),
        !any_stale(cleaned(m, now), now),
{
    lemma_cleanup_leaves_fresh(m, now);
    let c1 = cleaned(m, now);
    assert forall|c: Seq<char>| #[trigger] c1.contains_key(c) implies fresh_part(c1[c], now)
        == c1[c] by {
        assert(fresh_part(c1[c], now) =~= c1[c]);
    }
    assert(cleaned(c1, now) =~= c1);
}

/// A sender who starts and then stops typing in a conversation that
/// already had an entry, and who was not typing there before, leaves the
/// indicators as they were.
pub proof fn lemma_stop_undoes_start(
    m: Map<Seq<char>, Map<Seq<char>, u64>>,
    conv: Seq<char>,
    sender: Seq<char>,
    at: u64,
)
    requires
        m.contains_key(conv),
        !m[conv].contains_key(sender),
    ensures
        without_typing(with_typing(m, conv, sender, at), conv, sender) == m,
{
    assert(m[conv].insert(sender, at).remove(sender) =~= m[conv]);
    assert(without_typing(with_typing(m, conv, sender, at), conv, sender) =~= m);
}

/// Typing indicators last five seconds: at time `now`, a sender whose
/// stamp is at least five seconds old is gone after a cleanup, and one
/// whose stamp is younger (or from the future) is kept with its stamp.
pub proof fn lemma_cleanup_expires_after_five_seconds(
    m: Map<Seq<char>, Map<Seq<char>, u64>>,
    now: u64,
    conv: Seq<char>,
    sender: Seq<char>,
)
    requires
        m.contains_key(conv),
        m[conv].contains_key(sender),
    ensures
        now >= m[conv][sender] + 5 * NANOS_PER_SEC ==> !(cleaned(m, now).contains_key(conv)
            && cleaned(m, now)[conv].contains_key(sender)),
        now < m[conv][sender] + 5 * NANOS_PER_SEC ==> cleaned(m, now).contains_key(conv)
            && cleaned(m, now)[conv].contains_key(sender) && cleaned(m, now)[conv][sender]
            == m[conv][sender],
{
    let at = m[conv][sender];
    if now < at + 5 * NANOS_PER_SEC {
        assert(is_fresh(now, at));
        assert(is_fresh(now, m[conv][sender]));
        assert(has_fresh(m[conv], now));
    } else {
        assert(elapsed(now, at) >= 5 * NANOS_PER_SEC);
        assert(!is_fresh(now, at));
    }
}

/// The outgoing indicator times out exactly when it was sent and more than
/// five seconds have passed since the last keypress.
pub proof fn lemma_timeout_after_five_seconds(sent: bool, last: u64, now: u64)
    ensures
        timed_out(sent, Some(last), now) <==> sent && now > last + 5 * NANOS_PER_SEC,
        !timed_out(sent, None, now),
{
}

/// Recording a typing event shows that sender as typing in that
/// conversation with the new stamp and changes no other entry; a stop
/// event removes just that sender there.
pub proof fn lemma_record_and_remove(
    m: Map<Seq<char>, Map<Seq<char>, u64>>,
    conv: Seq<char>,
    sender: Seq<char>,
    at: u64,
    c2: Seq<char>,
    s2: Seq<char>,
)
    ensures
        with_typing(m, conv, sender, at).contains_key(conv),
        with_typing(m, conv, sender, at)[conv].contains_key(sender),
        with_typing(m, conv, sender, at)[conv][sender] == at,
        (c2 != conv || s2 != sender) ==> ((m.contains_key(c2) && m[c2].contains_key(s2))
            ==> with_typing(m, conv, sender, at)[c2].contains_key(s2)
            && with_typing(m, conv, sender, at)[c2][s2] == m[c2][s2]),
        m.contains_key(conv) ==> !without_typing(m, conv, sender)[conv].contains_key(sender),
        (c2 != conv || s2 != sender) ==> ((m.contains_key(c2) && m[c2].contains_key(s2))
            ==> without_typing(m, conv, sender)[c2].contains_key(s2)
            && without_typing(m, conv, sender)[c2][s2] == m[c2][s2]),
{
}

/// Senders and the time of their last typing event, as a map.
pub open spec fn stamp_map(v: Seq<(String, u64)>) -> Map<Seq<char>, u64>
    decreases v.len(),
{
    if v.len() == 0 {
        Map::empty()
    } else {
        stamp_map(v.drop_last()).insert(v.last().0@, v.last().1)
    }
}

/// Conversations and their typing senders, as a map.
pub open spec fn indicator_map(v: Seq<(String, Vec<(String, u64)>)>) -> Map<
    Seq<char>,
    Map<Seq<char>, u64>,
>
    decreases v.len(),
{
    if v.len() == 0 {
        Map::empty()
    } else {
        indicator_map(v.drop_last()).insert(v.last().0@, stamp_map(v.last().1@))
    }
}

/// No key occurs twice.
pub open spec fn distinct_stamps(v: Seq<(String, u64)>) -> bool {
    forall|i: int, j: int| 0 <= i < j < v.len() ==> (#[trigger] v[i]).0@ != (#[trigger] v[j]).0@
}

/// No conversation occurs twice, and no sender twice within one.
pub open spec fn distinct_indicators(v: Seq<(String, Vec<(String, u64)>)>) -> bool {
    &&& forall|i: int, j: int|
        0 <= i < j < v.len() ==> (#[trigger] v[i]).0@ != (#[trigger] v[j]).0@
    &&& forall|i: int| 0 <= i < v.len() ==> distinct_stamps((#[trigger] v[i]).1@)
}

proof fn lemma_stamp_map(v: Seq<(String, u64)>)
    ensures
        forall|k: Seq<char>|
            #[trigger] stamp_map(v).contains_key(k) <==> exists|j: int|
                0 <= j < v.len() && (#[trigger] v[j]).0@ == k,
        distinct_stamps(v) ==> forall|j: int|
            0 <= j < v.len() ==> stamp_map(v)[(#[trigger] v[j]).0@] == v[j].1,
    decreases v.len(),
{
    if v.len() > 0 {
        let w = v.drop_last();
        lemma_stamp_map(w);
        assert forall|k: Seq<char>| #[trigger] stamp_map(v).contains_key(k) <==> exists|j: int|
            0 <= j < v.len() && (#[trigger] v[j]).0@ == k by {
            if stamp_map(v).contains_key(k) {
                if k == v.last().0@ {
                    assert(v[v.len() - 1].0@ == k);
                } else {
                    assert(stamp_map(w).contains_key(k));
                    let j = choose|j: int| 0 <= j < w.len() && (#[trigger] w[j]).0@ == k;
                    assert(v[j] == w[j]);
                }
            }
            if exists|j: int| 0 <= j < v.len() && (#[trigger] v[j]).0@ == k {
                let j = choose|j: int| 0 <= j < v.len() && (#[trigger] v[j]).0@ == k;
                if j < v.len() - 1 {
                    assert(w[j] == v[j]);
                    assert(stamp_map(w).contains_key(k));
                }
            }
        }
        if distinct_stamps(v) {
            assert(distinct_stamps(w)) by {
                assert forall|i: int, j: int| 0 <= i < j < w.len() implies (#[trigger] w[i]).0@
                    != (#[trigger] w[j]).0@ by {
                    assert(w[i] == v[i] && w[j] == v[j]);
                }
            }
            assert forall|j: int| 0 <= j < v.len() implies stamp_map(v)[(#[trigger] v[j]).0@]
                == v[j].1 by {
                if j < v.len() - 1 {
                    assert(w[j] == v[j]);
                    assert(v[j].0@ != v[v.len() - 1].0@);
                }
            }
        }
    }
}

proof fn lemma_indicator_map(v: Seq<(String, Vec<(String, u64)>)>)
    ensures
        forall|k: Seq<char>|
            #[trigger] indicator_map(v).contains_key(k) <==> exists|j: int|
                0 <= j < v.len() && (#[trigger] v[j]).0@ == k,
        distinct_indicators(v) ==> forall|j: int|
            0 <= j < v.len() ==> indicator_map(v)[(#[trigger] v[j]).0@] == stamp_map(v[j].1@),
    decreases v.len(),
{
    if v.len() > 0 {
        let w = v.drop_last();
        lemma_indicator_map(w);
        assert forall|k: Seq<char>| #[trigger] indicator_map(v).contains_key(k) <==> exists|j: int|
            0 <= j < v.len() && (#[trigger] v[j]).0@ == k by {
            if indicator_map(v).contains_key(k) {
                if k == v.last().0@ {
                    assert(v[v.len() - 1].0@ == k);
                } else {
                    assert(indicator_map(w).contains_key(k));
                    let j = choose|j: int| 0 <= j < w.len() && (#[trigger] w[j]).0@ == k;
                    assert(v[j] == w[j]);
                }
            }
            if exists|j: int| 0 <= j < v.len() && (#[trigger] v[j]).0@ == k {
                let j = choose|j: int| 0 <= j < v.len() && (#[trigger] v[j]).0@ == k;
                if j < v.len() - 1 {
                    assert(w[j] == v[j]);
                    assert(indicator_map(w).contains_key(k));
                }
            }
        }
        if distinct_indicators(v) {
            assert(distinct_indicators(w)) by {
                assert forall|i: int, j: int| 0 <= i < j < w.len() implies (#[trigger] w[i]).0@
                    != (#[trigger] w[j]).0@ by {
                    assert(w[i] == v[i] && w[j] == v[j]);
                }
                assert forall|i: int| 0 <= i < w.len() implies distinct_stamps(
                    (#[trigger] w[i]).1@,
                ) by {
                    assert(w[i] == v[i]);
                }
            }
            assert forall|j: int| 0 <= j < v.len() implies indicator_map(v)[(
            #[trigger] v[j]).0@] == stamp_map(v[j].1@) by {
                if j < v.len() - 1 {
                    assert(w[j] == v[j]);
                    assert(v[j].0@ != v[v.len() - 1].0@);
                }
            }
        }
    }
}


/// A copy of the entries of `v` whose sender is not `key`.
fn copy_stamps_except(v: &Vec<(String, u64)>, key: &String) -> (r: Vec<(String, u64)>)
    requires
        distinct_stamps(v@),
    ensures
        stamp_map(r@) == stamp_map(v@).remove(key@),
        distinct_stamps(r@),
        forall|i: int| 0 <= i < r@.len() ==> (#[trigger] r@[i]).0@ != key@,
{
    let mut r: Vec<(String, u64)> = Vec::new();
    let mut j: usize = 0;
    while j < v.len()
        invariant
            j <= v@.len(),
            distinct_stamps(v@),
            stamp_map(r@) == stamp_map(v@.take(j as int)).remove(key@),
            distinct_stamps(r@),
            forall|i: int| 0 <= i < r@.len() ==> (#[trigger] r@[i]).0@ != key@,
            forall|i: int|
                0 <= i < r@.len() ==> exists|m: int| 0 <= m < j && (#[trigger] r@[i]).0@ == v@[m].0@,
        decreases v.len() - j,
    {
        let ghost prev = r@;
        assert(v@.take(j + 1).drop_last() =~= v@.take(j as int));
        if v[j].0 != *key {
            let name = v[j].0.clone();
            r.push((name, v[j].1));
            assert(r@.drop_last() =~= prev);
            assert(stamp_map(r@) =~= stamp_map(v@.take(j + 1)).remove(key@));
            assert forall|a: int, b: int| 0 <= a < b < r@.len() implies (#[trigger] r@[a]).0@
                != (#[trigger] r@[b]).0@ by {
                if b == r@.len() - 1 {
                    assert(r@[a] == prev[a]);
                    let m = choose|m: int| 0 <= m < j && (#[trigger] prev[a]).0@ == v@[m].0@;
                    assert(v@[m].0@ != v@[j as int].0@);
                } else {
                    assert(r@[a] == prev[a] && r@[b] == prev[b]);
                }
            }
            assert forall|i: int| 0 <= i < r@.len() implies exists|m: int|
                0 <= m < j + 1 && (#[trigger] r@[i]).0@ == v@[m].0@ by {
                if i < r@.len() - 1 {
                    assert(r@[i] == prev[i]);
                    let m = choose|m: int| 0 <= m < j && (#[trigger] prev[i]).0@ == v@[m].0@;
                } else {
                    assert(r@[i].0@ == v@[j as int].0@);
                }
            }
        } else {
            assert(stamp_map(r@) =~= stamp_map(v@.take(j + 1)).remove(key@));
            assert forall|i: int| 0 <= i < r@.len() implies exists|m: int|
                0 <= m < j + 1 && (#[trigger] r@[i]).0@ == v@[m].0@ by {
                let m = choose|m: int| 0 <= m < j && (#[trigger] r@[i]).0@ == v@[m].0@;
            }
        }
        j += 1;
    }
    assert(v@.take(v@.len() as int) =~= v@);
    r
}


/// `stamp_map` reads only the characters of each sender and its time.
proof fn lemma_stamp_map_views(a: Seq<(String, u64)>, b: Seq<(String, u64)>)
    requires
        a.len() == b.len(),
        forall|i: int| 0 <= i < a.len() ==> (#[trigger] a[i]).0@ == b[i].0@ && a[i].1 == b[i].1,
    ensures
        stamp_map(a) == stamp_map(b),
    decreases a.len(),
{
    if a.len() > 0 {
        lemma_stamp_map_views(a.drop_last(), b.drop_last());
    }
}

/// A copy of `v`.
fn copy_stamps(v: &Vec<(String, u64)>) -> (r: Vec<(String, u64)>)
    ensures
        r@.len() == v@.len(),
        forall|i: int| 0 <= i < r@.len() ==> (#[trigger] r@[i]).0@ == v@[i].0@ && r@[i].1 == v@[i].1,
        stamp_map(r@) == stamp_map(v@),
        distinct_stamps(v@) ==> distinct_stamps(r@),
{
    let mut r: Vec<(String, u64)> = Vec::new();
    let mut j: usize = 0;
    while j < v.len()
        invariant
            j <= v@.len(),
            r@.len() == j,
            forall|i: int| 0 <= i < j ==> (#[trigger] r@[i]).0@ == v@[i].0@ && r@[i].1 == v@[i].1,
        decreases v.len() - j,
    {
        let name = v[j].0.clone();
        r.push((name, v[j].1));
        j += 1;
    }
    proof {
        lemma_stamp_map_views(r@, v@);
        if distinct_stamps(v@) {
            assert forall|a: int, b: int| 0 <= a < b < r@.len() implies (#[trigger] r@[a]).0@
                != (#[trigger] r@[b]).0@ by {
                assert(v@[a].0@ != v@[b].0@);
            }
        }
    }
    r
}

/// The stamps of `m` that are still fresh at `now`.
pub open spec fn fresh_part(m: Map<Seq<char>, u64>, now: u64) -> Map<Seq<char>, u64> {
    Map::new(|k: Seq<char>| m.contains_key(k) && is_fresh(now, m[k]), |k: Seq<char>| m[k])
}

/// Some stamp of `m` has expired at `now`.
pub open spec fn has_stale(m: Map<Seq<char>, u64>, now: u64) -> bool {
    exists|k: Seq<char>| m.contains_key(k) && !is_fresh(now, #[trigger] m[k])
}

/// Some stamp of `m` is still fresh at `now`.
pub open spec fn has_fresh(m: Map<Seq<char>, u64>, now: u64) -> bool {
    exists|k: Seq<char>| m.contains_key(k) && is_fresh(now, #[trigger] m[k])
}

/// The entries of `v` that are still fresh at `now`, and whether any was not.
fn copy_fresh_stamps(v: &Vec<(String, u64)>, now: u64) -> (r: (Vec<(String, u64)>, bool))
    requires
        distinct_stamps(v@),
    ensures
        stamp_map(r.0@) == fresh_part(stamp_map(v@), now),
        distinct_stamps(r.0@),
        r.1 == has_stale(stamp_map(v@), now),
        r.0@.len() > 0 <==> has_fresh(stamp_map(v@), now),
{
    let mut r: Vec<(String, u64)> = Vec::new();
    let mut stale = false;
    let mut j: usize = 0;
    proof {
        lemma_stamp_map(v@);
    }
    while j < v.len()
        invariant
            j <= v@.len(),
            distinct_stamps(v@),
            stamp_map(r@) == fresh_part(stamp_map(v@.take(j as int)), now),
            distinct_stamps(r@),
            stale == has_stale(stamp_map(v@.take(j as int)), now),
            r@.len() > 0 <==> has_fresh(stamp_map(v@.take(j as int)), now),
            forall|i: int|
                0 <= i < r@.len() ==> exists|m: int| 0 <= m < j && (#[trigger] r@[i]).0@ == v@[m].0@,
        decreases v.len() - j,
    {
        let ghost prev = r@;
        let ghost before = stamp_map(v@.take(j as int));
        let ghost k = v@[j as int].0@;
        let ghost x = v@[j as int].1;
        proof {
            assert(v@.take(j + 1).drop_last() =~= v@.take(j as int));
            lemma_stamp_map(v@.take(j as int));
            if before.contains_key(k) {
                let m = choose|m: int| 0 <= m < j && (#[trigger] v@.take(j as int)[m]).0@ == k;
                assert(v@.take(j as int)[m] == v@[m]);
                assert(v@[m].0@ != v@[j as int].0@);
            }
            assert(!before.contains_key(k));
        }
        let ghost after = stamp_map(v@.take(j + 1));
        assert(after == before.insert(k, x));
        let at = v[j].1;
        let fresh = at <= now && (now - at) / NANOS_PER_SEC < TYPING_TIMEOUT_SECS || at > now;
        assert(fresh == is_fresh(now, x));
        if fresh {
            let name = v[j].0.clone();
            r.push((name, at));
            assert(r@.drop_last() =~= prev);
            assert(stamp_map(r@) =~= fresh_part(after, now));
            assert forall|a: int, b: int| 0 <= a < b < r@.len() implies (#[trigger] r@[a]).0@
                != (#[trigger] r@[b]).0@ by {
                if b == r@.len() - 1 {
                    assert(r@[a] == prev[a]);
                    let m = choose|m: int| 0 <= m < j && (#[trigger] prev[a]).0@ == v@[m].0@;
                    assert(v@[m].0@ != v@[j as int].0@);
                } else {
                    assert(r@[a] == prev[a] && r@[b] == prev[b]);
                }
            }
            assert forall|i: int| 0 <= i < r@.len() implies exists|m: int|
                0 <= m < j + 1 && (#[trigger] r@[i]).0@ == v@[m].0@ by {
                if i < r@.len() - 1 {
                    assert(r@[i] == prev[i]);
                    let m = choose|m: int| 0 <= m < j && (#[trigger] prev[i]).0@ == v@[m].0@;
                } else {
                    assert(r@[i].0@ == v@[j as int].0@);
                }
            }
            proof {
            assert(after[k] == x);
            assert(has_fresh(after, now));
            if has_stale(after, now) {
                let k2 = choose|k2: Seq<char>| after.contains_key(k2) && !is_fresh(now, #[trigger] after[k2]);
                assert(before.contains_key(k2) && before[k2] == after[k2]);
            }
            if stale {
                let k2 = choose|k2: Seq<char>| before.contains_key(k2) && !is_fresh(now, #[trigger] before[k2]);
                assert(after.contains_key(k2) && after[k2] == before[k2]);
            }
            }
        } else {
            stale = true;
            assert(stamp_map(r@) =~= fresh_part(after, now));
            proof {
            assert(after[k] == x);
            assert(has_stale(after, now));
            if has_fresh(after, now) {
                let k2 = choose|k2: Seq<char>| after.contains_key(k2) && is_fresh(now, #[trigger] after[k2]);
                assert(before.contains_key(k2) && before[k2] == after[k2]);
            }
            if prev.len() > 0 {
                let k2 = choose|k2: Seq<char>| before.contains_key(k2) && is_fresh(now, #[trigger] before[k2]);
                assert(after.contains_key(k2) && after[k2] == before[k2]);
            }
            }
            assert forall|i: int| 0 <= i < r@.len() implies exists|m: int|
                0 <= m < j + 1 && (#[trigger] r@[i]).0@ == v@[m].0@ by {
                let m = choose|m: int| 0 <= m < j && (#[trigger] r@[i]).0@ == v@[m].0@;
            }
        }
        j += 1;
    }
    assert(v@.take(v@.len() as int) =~= v@);
    (r, stale)
}


/// The entries of `v` other than conversation `conv` (copied), and the
/// senders of `conv` other than `sender`, if `conv` has an entry.
fn split_out(v: &Vec<(String, Vec<(String, u64)>)>, conv: &String, sender: &String) -> (r: (
    Vec<(String, Vec<(String, u64)>)>,
    Option<Vec<(String, u64)>>,
))
    requires
        distinct_indicators(v@),
    ensures
        indicator_map(r.0@) == indicator_map(v@).remove(conv@),
        distinct_indicators(r.0@),
        forall|i: int| 0 <= i < r.0@.len() ==> (#[trigger] r.0@[i]).0@ != conv@,
        match r.1 {
            Some(inner) => {
                &&& indicator_map(v@).contains_key(conv@)
                &&& stamp_map(inner@) == indicator_map(v@)[conv@].remove(sender@)
                &&& distinct_stamps(inner@)
            },
            None => !indicator_map(v@).contains_key(conv@),
        },
{
    let mut rest: Vec<(String, Vec<(String, u64)>)> = Vec::new();
    let mut found: Option<Vec<(String, u64)>> = None;
    let mut i: usize = 0;
    proof {
        lemma_indicator_map(v@);
    }
    while i < v.len()
        invariant
            i <= v@.len(),
            distinct_indicators(v@),
            forall|j: int|
                0 <= j < v@.len() ==> indicator_map(v@)[(#[trigger] v@[j]).0@] == stamp_map(
                    v@[j].1@,
                ),
            indicator_map(rest@) == indicator_map(v@.take(i as int)).remove(conv@),
            distinct_indicators(rest@),
            forall|a: int| 0 <= a < rest@.len() ==> (#[trigger] rest@[a]).0@ != conv@,
            forall|a: int|
                0 <= a < rest@.len() ==> exists|m: int|
                    0 <= m < i && (#[trigger] rest@[a]).0@ == v@[m].0@,
            match found {
                Some(inner) => {
                    &&& exists|m: int| 0 <= m < i && (#[trigger] v@[m]).0@ == conv@
                    &&& stamp_map(inner@) == indicator_map(v@)[conv@].remove(sender@)
                    &&& distinct_stamps(inner@)
                },
                None => forall|m: int| 0 <= m < i ==> (#[trigger] v@[m]).0@ != conv@,
            },
        decreases v.len() - i,
    {
        let ghost prev = rest@;
        assert(v@.take(i + 1).drop_last() =~= v@.take(i as int));
        assert(distinct_stamps(v@[i as int].1@));
        if v[i].0 == *conv {
            let inner = copy_stamps_except(&v[i].1, sender);
            found = Some(inner);
            assert(indicator_map(rest@) =~= indicator_map(v@.take(i + 1)).remove(conv@));
            assert forall|a: int| 0 <= a < rest@.len() implies exists|m: int|
                0 <= m < i + 1 && (#[trigger] rest@[a]).0@ == v@[m].0@ by {
                let m = choose|m: int| 0 <= m < i && (#[trigger] rest@[a]).0@ == v@[m].0@;
            }
        } else {
            let name = v[i].0.clone();
            let inner = copy_stamps(&v[i].1);
            rest.push((name, inner));
            assert(rest@.drop_last() =~= prev);
            assert(indicator_map(rest@) =~= indicator_map(v@.take(i + 1)).remove(conv@));
            assert forall|a: int, b: int| 0 <= a < b < rest@.len() implies (
            #[trigger] rest@[a]).0@ != (#[trigger] rest@[b]).0@ by {
                if b == rest@.len() - 1 {
                    assert(rest@[a] == prev[a]);
                    let m = choose|m: int| 0 <= m < i && (#[trigger] prev[a]).0@ == v@[m].0@;
                    assert(v@[m].0@ != v@[i as int].0@);
                } else {
                    assert(rest@[a] == prev[a] && rest@[b] == prev[b]);
                }
            }
            assert forall|a: int| 0 <= a < rest@.len() implies distinct_stamps(
                (#[trigger] rest@[a]).1@,
            ) by {
                if a < rest@.len() - 1 {
                    assert(rest@[a] == prev[a]);
                }
            }
            assert forall|a: int| 0 <= a < rest@.len() implies exists|m: int|
                0 <= m < i + 1 && (#[trigger] rest@[a]).0@ == v@[m].0@ by {
                if a < rest@.len() - 1 {
                    assert(rest@[a] == prev[a]);
                    let m = choose|m: int| 0 <= m < i && (#[trigger] prev[a]).0@ == v@[m].0@;
                } else {
                    assert(rest@[a].0@ == v@[i as int].0@);
                }
            }
            assert forall|a: int| 0 <= a < rest@.len() implies (#[trigger] rest@[a]).0@ != conv@ by {
                if a < rest@.len() - 1 {
                    assert(rest@[a] == prev[a]);
                }
            }
        }
        i += 1;
    }
    assert(v@.take(v@.len() as int) =~= v@);
    proof {
        if found is None {
            if indicator_map(v@).contains_key(conv@) {
                let m = choose|m: int| 0 <= m < v@.len() && (#[trigger] v@[m]).0@ == conv@;
            }
        }
    }
    (rest, found)
}

/// The indicators that remain at `now`: expired senders are dropped, and
/// conversations left without a typing sender are dropped.
pub open spec fn cleaned(m: Map<Seq<char>, Map<Seq<char>, u64>>, now: u64) -> Map<
    Seq<char>,
    Map<Seq<char>, u64>,
> {
    Map::new(
        |c: Seq<char>| m.contains_key(c) && has_fresh(m[c], now),
        |c: Seq<char>| fresh_part(m[c], now),
    )
}

/// Some sender in some conversation has expired at `now`.
pub open spec fn any_stale(m: Map<Seq<char>, Map<Seq<char>, u64>>, now: u64) -> bool {
    exists|c: Seq<char>| m.contains_key(c) && has_stale(#[trigger] m[c], now)
}

/// The indicators of `v` that remain at `now`, and whether any expired.
fn cleaned_indicators(v: &Vec<(String, Vec<(String, u64)>)>, now: u64) -> (r: (
    Vec<(String, Vec<(String, u64)>)>,
    bool,
))
    requires
        distinct_indicators(v@),
    ensures
        indicator_map(r.0@) == cleaned(indicator_map(v@), now),
        distinct_indicators(r.0@),
        r.1 == any_stale(indicator_map(v@), now),
{
    let mut out: Vec<(String, Vec<(String, u64)>)> = Vec::new();
    let mut changed = false;
    let mut i: usize = 0;
    while i < v.len()
        invariant
            i <= v@.len(),
            distinct_indicators(v@),
            indicator_map(out@) == cleaned(indicator_map(v@.take(i as int)), now),
            distinct_indicators(out@),
            changed == any_stale(indicator_map(v@.take(i as int)), now),
            forall|a: int|
                0 <= a < out@.len() ==> exists|m: int|
                    0 <= m < i && (#[trigger] out@[a]).0@ == v@[m].0@,
        decreases v.len() - i,
    {
        let ghost prev = out@;
        let ghost before = indicator_map(v@.take(i as int));
        let ghost k = v@[i as int].0@;
        let ghost inner = stamp_map(v@[i as int].1@);
        proof {
            assert(v@.take(i + 1).drop_last() =~= v@.take(i as int));
            lemma_indicator_map(v@.take(i as int));
            if before.contains_key(k) {
                let m = choose|m: int| 0 <= m < i && (#[trigger] v@.take(i as int)[m]).0@ == k;
                assert(v@.take(i as int)[m] == v@[m]);
                assert(v@[m].0@ != v@[i as int].0@);
            }
        }
        let ghost after = indicator_map(v@.take(i + 1));
        assert(after == before.insert(k, inner));
        assert(distinct_stamps(v@[i as int].1@));
        let (kept, stale) = copy_fresh_stamps(&v[i].1, now);
        if stale {
            changed = true;
        }
        proof {
            if stale {
                assert(after[k] == inner);
                assert(any_stale(after, now));
            }
            if any_stale(after, now) && !stale {
                let c = choose|c: Seq<char>| after.contains_key(c) && has_stale(#[trigger] after[c], now);
                assert(before.contains_key(c) && before[c] == after[c]);
            }
            if any_stale(before, now) {
                let c = choose|c: Seq<char>| before.contains_key(c) && has_stale(#[trigger] before[c], now);
                assert(after.contains_key(c) && after[c] == before[c]);
            }
        }
        if kept.len() > 0 {
            let name = v[i].0.clone();
            let ghost kept_map = stamp_map(kept@);
            out.push((name, kept));
            proof {
                assert(out@.drop_last() =~= prev);
                assert(indicator_map(out@) == indicator_map(prev).insert(k, kept_map));
                assert(indicator_map(out@) =~= cleaned(after, now));
                assert forall|a: int, b: int| 0 <= a < b < out@.len() implies (
                #[trigger] out@[a]).0@ != (#[trigger] out@[b]).0@ by {
                    if b == out@.len() - 1 {
                        assert(out@[a] == prev[a]);
                        let m = choose|m: int| 0 <= m < i && (#[trigger] prev[a]).0@ == v@[m].0@;
                        assert(v@[m].0@ != v@[i as int].0@);
                    } else {
                        assert(out@[a] == prev[a] && out@[b] == prev[b]);
                    }
                }
                assert forall|a: int| 0 <= a < out@.len() implies distinct_stamps(
                    (#[trigger] out@[a]).1@,
                ) by {
                    if a < out@.len() - 1 {
                        assert(out@[a] == prev[a]);
                    }
                }
                assert forall|a: int| 0 <= a < out@.len() implies exists|m: int|
                    0 <= m < i + 1 && (#[trigger] out@[a]).0@ == v@[m].0@ by {
                    if a < out@.len() - 1 {
                        assert(out@[a] == prev[a]);
                        let m = choose|m: int| 0 <= m < i && (#[trigger] prev[a]).0@ == v@[m].0@;
                    } else {
                        assert(out@[a].0@ == v@[i as int].0@);
                    }
                }
            }
        } else {
            proof {
                assert(indicator_map(out@) =~= cleaned(after, now));
                assert forall|a: int| 0 <= a < out@.len() implies exists|m: int|
                    0 <= m < i + 1 && (#[trigger] out@[a]).0@ == v@[m].0@ by {
                    let m = choose|m: int| 0 <= m < i && (#[trigger] out@[a]).0@ == v@[m].0@;
                }
            }
        }
        i += 1;
    }
    assert(v@.take(v@.len() as int) =~= v@);
    (out, changed)
}

/// State for typing indicators (both inbound and outbound).
pub struct TypingState {
    /// Per-conversation typing indicators: conversation id, then each
    /// typing sender with the time of its last typing event.
    /// Populated: typing events (`record_typing` on start, `remove_typing`
    /// on stop).  Invalidation: entries expire after 5 seconds via
    /// `cleanup()` called each tick.
    pub indicators: Vec<(String, Vec<(String, u64)>)>,
    /// Whether we've sent a typing-started indicator for the current input.
    pub sent: bool,
    /// When the last keypress happened (for typing timeout).
    pub last_keypress: Option<u64>,
    /// The reading of the monotonic clock that time stamps count from.
    pub origin: std::time::Instant,
    /// The latest time read through [`TypingState::now_nanos`]; readings
    /// never go back before it.
    pub clock: u64,
}

impl TypingState {
    /// No conversation and no sender occurs twice.
    pub open spec fn well_formed(&self) -> bool {
        distinct_indicators(self.indicators@)
    }

    /// Who is typing where: conversation id to sender id to time stamp.
    pub open spec fn typing(&self) -> Map<Seq<char>, Map<Seq<char>, u64>> {
        indicator_map(self.indicators@)
    }

    /// No one typing, nothing sent.
    pub fn new() -> (s: Self)
        ensures
            s.well_formed(),
            s.typing() == Map::<Seq<char>, Map<Seq<char>, u64>>::empty(),
            !s.sent,
            s.last_keypress is None,
    {
        TypingState {
            indicators: Vec::new(),
            sent: false,
            last_keypress: None,
            origin: instant_now(),
            clock: 0,
        }
    }

    /// The time now: nanoseconds of the monotonic clock since this state
    /// was made, never earlier than a reading taken before.  Time stamps
    /// given to `record_typing` and kept in `last_keypress` are read here.
    pub fn now_nanos(&mut self) -> (t: u64)
        ensures
            t >= old(self).clock,
            final(self).clock == t,
            final(self).indicators == old(self).indicators,
            final(self).sent == old(self).sent,
            final(self).last_keypress == old(self).last_keypress,
            final(self).origin == old(self).origin,
    {
        let t = nanos_since(&self.origin);
        let t = if t < self.clock { self.clock } else { t };
        self.clock = t;
        t
    }

    /// `sender` started typing in `conv` at time `at`.
    pub fn record_typing(&mut self, conv: String, sender: String, at: u64)
        requires
            old(self).well_formed(),
        ensures
            final(self).clock == old(self).clock,
            final(self).origin == old(self).origin,
            final(self).well_formed(),
            final(self).typing() == with_typing(old(self).typing(), conv@, sender@, at),
            final(self).sent == old(self).sent,
            final(self).last_keypress == old(self).last_keypress,
    {
        let (mut rest, found) = split_out(&self.indicators, &conv, &sender);
        let mut inner = match found {
            Some(v) => v,
            None => Vec::new(),
        };
        let ghost before = inner@;
        inner.push((sender, at));
        proof {
            assert(inner@.drop_last() =~= before);
            lemma_stamp_map(before);
            assert forall|a: int, b: int| 0 <= a < b < inner@.len() implies (
            #[trigger] inner@[a]).0@ != (#[trigger] inner@[b]).0@ by {
                if b == inner@.len() - 1 {
                    assert(inner@[a] == before[a]);
                    assert(!stamp_map(before).contains_key(inner@[b].0@));
                } else {
                    assert(inner@[a] == before[a] && inner@[b] == before[b]);
                }
            }
        }
        let ghost base = if old(self).typing().contains_key(conv@) {
            old(self).typing()[conv@]
        } else {
            Map::empty()
        };
        assert(stamp_map(before) =~= base.remove(sender@));
        assert(stamp_map(inner@) =~= base.insert(sender@, at));
        let ghost inner_map = stamp_map(inner@);
        let ghost conv_view = conv@;
        let ghost prev = rest@;
        rest.push((conv, inner));
        proof {
            assert(rest@.drop_last() =~= prev);
            assert(indicator_map(rest@) == indicator_map(prev).insert(conv_view, inner_map));
            assert forall|a: int, b: int| 0 <= a < b < rest@.len() implies (
            #[trigger] rest@[a]).0@ != (#[trigger] rest@[b]).0@ by {
                if b == rest@.len() - 1 {
                    assert(rest@[a] == prev[a]);
                } else {
                    assert(rest@[a] == prev[a] && rest@[b] == prev[b]);
                }
            }
            assert forall|a: int| 0 <= a < rest@.len() implies distinct_stamps(
                (#[trigger] rest@[a]).1@,
            ) by {
                if a < rest@.len() - 1 {
                    assert(rest@[a] == prev[a]);
                }
            }
        }
        self.indicators = rest;
        assert(indicator_map(self.indicators@) =~= old(self).typing().insert(
            conv@,
            if old(self).typing().contains_key(conv@) {
                old(self).typing()[conv@]
            } else {
                Map::empty()
            }.insert(sender@, at),
        ));
    }

    /// `sender` stopped typing in `conv`.  (A conversation left without
    /// typers stays until the next `cleanup`.)
    pub fn remove_typing(&mut self, conv: String, sender: String)
        requires
            old(self).well_formed(),
        ensures
            final(self).clock == old(self).clock,
            final(self).origin == old(self).origin,
            final(self).well_formed(),
            final(self).typing() == without_typing(old(self).typing(), conv@, sender@),
            final(self).sent == old(self).sent,
            final(self).last_keypress == old(self).last_keypress,
    {
        let (mut rest, found) = split_out(&self.indicators, &conv, &sender);
        match found {
            Some(inner) => {
                let ghost prev = rest@;
                rest.push((conv, inner));
                proof {
                    assert(rest@.drop_last() =~= prev);
                    assert forall|a: int, b: int| 0 <= a < b < rest@.len() implies (
                    #[trigger] rest@[a]).0@ != (#[trigger] rest@[b]).0@ by {
                        if b == rest@.len() - 1 {
                            assert(rest@[a] == prev[a]);
                        } else {
                            assert(rest@[a] == prev[a] && rest@[b] == prev[b]);
                        }
                    }
                    assert forall|a: int| 0 <= a < rest@.len() implies distinct_stamps(
                        (#[trigger] rest@[a]).1@,
                    ) by {
                        if a < rest@.len() - 1 {
                            assert(rest@[a] == prev[a]);
                        }
                    }
                }
                self.indicators = rest;
                assert(indicator_map(self.indicators@) =~= old(self).typing().insert(
                    conv@,
                    old(self).typing()[conv@].remove(sender@),
                ));
            },
            None => {
                assert(indicator_map(self.indicators@) =~= indicator_map(self.indicators@).remove(
                    conv@,
                ));
            },
        }
    }

    /// The senders typing in `conv`, each once.
    pub fn senders_typing(&self, conv: &String) -> (r: Vec<String>)
        requires
            self.well_formed(),
        ensures
            forall|k: Seq<char>|
                (self.typing().contains_key(conv@) && #[trigger] self.typing()[conv@].contains_key(k))
                    <==> exists|j: int| 0 <= j < r@.len() && (#[trigger] r@[j])@ == k,
            forall|a: int, b: int| 0 <= a < b < r@.len() ==> (#[trigger] r@[a])@ != (#[trigger] r@[b])@,
    {
        let mut r: Vec<String> = Vec::new();
        let mut i: usize = 0;
        proof {
            lemma_indicator_map(self.indicators@);
        }
        while i < self.indicators.len()
            invariant
                i <= self.indicators@.len(),
                self.well_formed(),
                r@.len() == 0,
                forall|m: int| 0 <= m < i ==> (#[trigger] self.indicators@[m]).0@ != conv@,
            decreases self.indicators.len() - i,
        {
            if self.indicators[i].0 == *conv {
                let senders = &self.indicators[i].1;
                let ghost sv = senders@;
                proof {
                    lemma_stamp_map(sv);
                    lemma_indicator_map(self.indicators@);
                    assert(self.indicators@[i as int].0@ == conv@);
                    assert(self.indicators@[i as int].1@ == sv);
                    assert(distinct_stamps(sv));
                    assert(self.typing()[conv@] == stamp_map(sv));
                }
                let mut j: usize = 0;
                while j < senders.len()
                    invariant
                        j <= sv.len(),
                        sv == senders@,
                        distinct_stamps(sv),
                        r@.len() == j,
                        forall|a: int| 0 <= a < j ==> (#[trigger] r@[a])@ == sv[a].0@,
                    decreases senders.len() - j,
                {
                    r.push(senders[j].0.clone());
                    j += 1;
                }
                proof {
                    assert forall|k: Seq<char>| #[trigger] stamp_map(sv).contains_key(k) <==> exists|
                        j: int,
                    | 0 <= j < r@.len() && (#[trigger] r@[j])@ == k by {
                        if stamp_map(sv).contains_key(k) {
                            let m = choose|m: int| 0 <= m < sv.len() && (#[trigger] sv[m]).0@ == k;
                            assert(r@[m]@ == k);
                        }
                        if exists|j: int| 0 <= j < r@.len() && (#[trigger] r@[j])@ == k {
                            let j = choose|j: int| 0 <= j < r@.len() && (#[trigger] r@[j])@ == k;
                            assert(sv[j].0@ == k);
                        }
                    }
                    assert forall|a: int, b: int| 0 <= a < b < r@.len() implies (
                    #[trigger] r@[a])@ != (#[trigger] r@[b])@ by {
                        assert(sv[a].0@ != sv[b].0@);
                    }
                }
                return r;
            }
            i += 1;
        }
        proof {
            if self.typing().contains_key(conv@) {
                let m = choose|m: int|
                    0 <= m < self.indicators@.len() && (#[trigger] self.indicators@[m]).0@ == conv@;
            }
        }
        r
    }

    /// Remove typing indicators older than 5 seconds at `now`.  Returns
    /// true if any were removed.
    pub fn cleanup_at(&mut self, now: u64) -> (changed: bool)
        requires
            old(self).well_formed(),
        ensures
            final(self).clock == old(self).clock,
            final(self).origin == old(self).origin,
            final(self).well_formed(),
            final(self).typing() == cleaned(old(self).typing(), now),
            changed == any_stale(old(self).typing(), now),
            final(self).sent == old(self).sent,
            final(self).last_keypress == old(self).last_keypress,
    {
        let (kept, changed) = cleaned_indicators(&self.indicators, now);
        self.indicators = kept;
        changed
    }

    /// Remove typing indicators older than 5 seconds. Returns true if any were removed.
    pub fn cleanup(&mut self) -> (changed: bool)
        requires
            old(self).well_formed(),
        ensures
            final(self).origin == old(self).origin,
            final(self).well_formed(),
            final(self).clock >= old(self).clock,
            final(self).typing() == cleaned(old(self).typing(), final(self).clock),
            changed == any_stale(old(self).typing(), final(self).clock),
            final(self).sent == old(self).sent,
            final(self).last_keypress == old(self).last_keypress,
    {
        let now = self.now_nanos();
        self.cleanup_at(now)
    }

    /// Check at `now` whether the outgoing typing indicator has timed out
    /// (more than 5 s since the last keypress).  Resets state and returns
    /// true if a stop request should be sent.
    pub fn check_timeout_at(&mut self, now: u64) -> (stop: bool)
        ensures
            final(self).clock == old(self).clock,
            final(self).origin == old(self).origin,
            stop == timed_out(old(self).sent, old(self).last_keypress, now),
            stop ==> !final(self).sent && final(self).last_keypress is None,
            !stop ==> final(self).sent == old(self).sent && final(self).last_keypress == old(
                self,
            ).last_keypress,
            final(self).indicators == old(self).indicators,
    {
        if !self.sent {
            return false;
        }
        let timed_out = match self.last_keypress {
            Some(t) => t <= now && now - t > TYPING_TIMEOUT_SECS * NANOS_PER_SEC,
            None => false,
        };
        if timed_out {
            self.sent = false;
            self.last_keypress = None;
            return true;
        }
        false
    }

    /// Check if the outgoing typing indicator has timed out (5s since last keypress).
    /// Resets state and returns true if a stop request should be sent.
    pub fn check_timeout(&mut self) -> (stop: bool)
        ensures
            final(self).origin == old(self).origin,
            stop ==> old(self).sent && old(self).last_keypress is Some,
            stop ==> !final(self).sent && final(self).last_keypress is None,
            !stop ==> final(self).sent == old(self).sent && final(self).last_keypress == old(
                self,
            ).last_keypress,
            final(self).clock >= old(self).clock,
            stop == timed_out(old(self).sent, old(self).last_keypress, final(self).clock),
            final(self).indicators == old(self).indicators,
    {
        let now = self.now_nanos();
        self.check_timeout_at(now)
    }

    /// Reset outgoing typing state. Returns true if we were actively typing
    /// (caller should queue a stop request).
    pub fn reset(&mut self) -> (was_typing: bool)
        ensures
            final(self).clock == old(self).clock,
            final(self).origin == old(self).origin,
            was_typing == old(self).sent,
            !final(self).sent,
            final(self).last_keypress is None,
            final(self).indicators == old(self).indicators,
    {
        let was_typing = self.sent;
        self.sent = false;
        self.last_keypress = None;
        was_typing
    }
}

impl Default for TypingState {
    /// No one typing, nothing sent.
    fn default() -> (s: Self)
        ensures
            s.well_formed(),
            s.typing() == Map::<Seq<char>, Map<Seq<char>, u64>>::empty(),
            !s.sent,
            s.last_keypress is None,
    {
        TypingState::new()
    }
}

} // verus!
