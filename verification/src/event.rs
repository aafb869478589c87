//! The event interpreter: applies one inbound protocol event to the
//! membership store.
//!
//! Recognized events are a member joining, a member leaving, and a full
//! membership snapshot (the protocol's names reply); every other event
//! leaves the store untouched.

use vstd::prelude::*;

use crate::store::Users;
use crate::text::{has_special_role, spec_has_special_role, spec_split_spaces, split_spaces};

verus! {

/// One inbound protocol event, reduced to the values the interpreter reads.
///
/// `nick` is the originator of a join or part; events whose originator is
/// missing or unparseable carry `None` and are ignored. A names reply
/// carries the raw argument list of the protocol response: its third
/// argument is the channel and its fourth the space-delimited names list.
pub enum Event {
    Join { nick: Option<String> },
    Part { nick: Option<String> },
    NamesReply { args: Vec<String> },
    Other,
}

/// Interpreting a names reply whose argument list is too short to hold a
/// channel and a names list fails with this error; the event is dropped.
#[derive(Debug, PartialEq, Eq, Structural, Clone, Copy)]
pub enum EventError {
    MalformedNamesReply,
}

/// Effect of one snapshot name on the store: members that already carry a
/// role prefix are skipped, everyone else is (re-)recorded as of `now`.
pub open spec fn insert_one(m: Map<Seq<char>, u64>, name: Seq<char>, now: u64) -> Map<
    Seq<char>,
    u64,
> {
    if spec_has_special_role(name) {
        m
    } else {
        m.insert(name, now)
    }
}

/// Effect of a whole snapshot names list, applied left to right.
pub open spec fn insert_names(m: Map<Seq<char>, u64>, names: Seq<Seq<char>>, now: u64) -> Map<
    Seq<char>,
    u64,
>
    decreases names.len(),
{
    if names.len() == 0 {
        m
    } else {
        insert_names(insert_one(m, names[0], now), names.drop_first(), now)
    }
}

/// Whether an event is well-formed enough to be interpreted. Only a names
/// reply can be malformed: it must carry at least four arguments, so that
/// the channel and the names list are both present.
pub open spec fn event_ok(e: Event) -> bool {
    match e {
        Event::NamesReply { args } => args@.len() >= 4,
        _ => true,
    }
}

/// The store contents after one event: a join records the originator as of
/// `now` (resetting its clock if it was present), a part removes it, a
/// well-formed names reply records every listed name without a role prefix,
/// and everything else — including a malformed names reply — changes
/// nothing.
pub open spec fn apply_event(m: Map<Seq<char>, u64>, e: Event, now: u64) -> Map<Seq<char>, u64> {
    match e {
        Event::Join { nick } => match nick {
            Some(n) => m.insert(n@, now),
            None => m,
        },
        Event::Part { nick } => match nick {
            Some(n) => m.remove(n@),
            None => m,
        },
        Event::NamesReply { args } => if args@.len() >= 4 {
            insert_names(m, spec_split_spaces(args@[3]@), now)
        } else {
            m
        },
        Event::Other => m,
    }
}

/// Applies at most one state transition to the store for the given event,
/// observed at monotonic time `now`. A malformed names reply is reported as
/// an error and leaves the store unchanged.
pub fn process_event(users: &mut Users, event: &Event, now: u64) -> (r: Result<(), EventError>)
    requires
        old(users).wf(),
    ensures
        final(users).wf(),
        final(users)@ == apply_event(old(users)@, *event, now),
        r is Ok <==> event_ok(*event),
        r is Err ==> r == Result::<(), EventError>::Err(EventError::MalformedNamesReply),
{
    match event {
        Event::Join { nick: Some(n) } => {
            users.record_present(n.as_str(), now);
            Ok(())
        }
        Event::Join { nick: None } => Ok(()),
        Event::Part { nick: Some(n) } => {
            users.remove(n.as_str());
            Ok(())
        }
        Event::Part { nick: None } => Ok(()),
        Event::NamesReply { args } => {
            if args.len() < 4 {
                return Err(EventError::MalformedNamesReply);
            }
            let names = split_spaces(args[3].as_str());
            let ghost name_views = spec_split_spaces(args@[3]@);
            let ghost m0 = users@;
            let n = names.len();
            let mut i: usize = 0;
            proof {
                assert(names@.map_values(|t: String| t@).subrange(i as int, n as int)
                    =~= name_views);
            }
            while i < n
                invariant
                    users.wf(),
                    n == names@.len(),
                    i <= n,
                    name_views == names@.map_values(|t: String| t@),
                    insert_names(m0, name_views, now) == insert_names(
                        users@,
                        name_views.subrange(i as int, n as int),
                        now,
                    ),
                decreases n - i,
            {
                let ghost rest = name_views.subrange(i as int, n as int);
                proof {
                    assert(rest[0] == name_views[i as int]);
                    assert(rest.drop_first() =~= name_views.subrange(i as int + 1, n as int));
                }
                if !has_special_role(names[i].as_str()) {
                    users.record_present(names[i].as_str(), now);
                }
                i += 1;
            }
            proof {
                assert(name_views.subrange(n as int, n as int) =~= Seq::<Seq<char>>::empty());
            }
            Ok(())
        }
        Event::Other => Ok(()),
    }
}

/// Whether the event is a join by the identity `n`.
pub open spec fn is_join_of(e: Event, n: Seq<char>) -> bool {
    match e {
        Event::Join { nick } => nick is Some && nick->0@ == n,
        _ => false,
    }
}

/// Whether the event is a part by the identity `n`.
pub open spec fn is_part_of(e: Event, n: Seq<char>) -> bool {
    match e {
        Event::Part { nick } => nick is Some && nick->0@ == n,
        _ => false,
    }
}

/// Whether every event of the sequence is a join or a part with a known
/// originator.
pub open spec fn join_part_only(evs: Seq<(Event, u64)>) -> bool {
    forall|i: int|
        0 <= i < evs.len() ==> {
            ||| (#[trigger] evs[i].0) matches Event::Join { nick: Some(_) }
            ||| evs[i].0 matches Event::Part { nick: Some(_) }
        }
}

/// The store contents after replaying a sequence of timestamped events, in
/// order, starting from `m`.
pub open spec fn replay(m: Map<Seq<char>, u64>, evs: Seq<(Event, u64)>) -> Map<Seq<char>, u64>
    decreases evs.len(),
{
    if evs.len() == 0 {
        m
    } else {
        replay(apply_event(m, evs[0].0, evs[0].1), evs.drop_first())
    }
}

/// Whether the last join or part event of `evs` that touches identity `n`
/// is a join.
pub open spec fn present_after(evs: Seq<(Event, u64)>, n: Seq<char>) -> bool
    decreases evs.len(),
{
    if evs.len() == 0 {
        false
    } else if is_join_of(evs.last().0, n) {
        true
    } else if is_part_of(evs.last().0, n) {
        false
    } else {
        present_after(evs.drop_last(), n)
    }
}

proof fn lemma_replay_snoc(m: Map<Seq<char>, u64>, evs: Seq<(Event, u64)>, e: (Event, u64))
    ensures
        replay(m, evs.push(e)) == apply_event(replay(m, evs), e.0, e.1),
    decreases evs.len(),
{
    if evs.len() == 0 {
        assert(evs.push(e)[0] == e);
        assert(evs.push(e).drop_first() =~= Seq::<(Event, u64)>::empty());
        assert(replay(m, evs.push(e)) == replay(
            apply_event(m, e.0, e.1),
            Seq::<(Event, u64)>::empty(),
        ));
        assert(replay(apply_event(m, e.0, e.1), Seq::<(Event, u64)>::empty()) == apply_event(
            m,
            e.0,
            e.1,
        ));
        assert(replay(m, evs) == m);
    } else {
        assert(evs.push(e)[0] == evs[0]);
        assert(evs.push(e).drop_first() =~= evs.drop_first().push(e));
        lemma_replay_snoc(apply_event(m, evs[0].0, evs[0].1), evs.drop_first(), e);
        assert(replay(m, evs.push(e)) == replay(
            apply_event(m, evs[0].0, evs[0].1),
            evs.drop_first().push(e),
        ));
        assert(replay(m, evs) == replay(apply_event(m, evs[0].0, evs[0].1), evs.drop_first()));
    }
}

/// Replaying any sequence of join and part events from an empty store
/// leaves exactly the identities whose last event is a join: the last event
/// per identity wins, so a join after a part restores presence and a part
/// after a join removes it.
pub proof fn lemma_replay_presence(evs: Seq<(Event, u64)>, n: Seq<char>)
    requires
        join_part_only(evs),
    ensures
        replay(Map::<Seq<char>, u64>::empty(), evs).contains_key(n) <==> present_after(evs, n),
    decreases evs.len(),
{
    if evs.len() == 0 {
    } else {
        let pre = evs.drop_last();
        let e = evs.last();
        assert(evs =~= pre.push(e));
        assert(evs[evs.len() - 1] == e);
        assert forall|i: int| 0 <= i < pre.len() implies #[trigger] pre[i] == evs[i] by {}
        lemma_replay_snoc(Map::<Seq<char>, u64>::empty(), pre, e);
        lemma_replay_presence(pre, n);
    }
}

/// A membership snapshot records every listed identity that does not carry
/// a role prefix, each with its clock set to the processing time `now`;
/// identities that are not (re-)listed keep whatever entry they had before.
pub proof fn lemma_snapshot_effect(
    m: Map<Seq<char>, u64>,
    names: Seq<Seq<char>>,
    now: u64,
    n: Seq<char>,
)
    ensures
        insert_names(m, names, now).contains_key(n) <==> ((names.contains(n)
            && !spec_has_special_role(n)) || m.contains_key(n)),
        names.contains(n) && !spec_has_special_role(n) ==> insert_names(m, names, now)[n] == now,
        !(names.contains(n) && !spec_has_special_role(n)) && m.contains_key(n) ==> insert_names(
            m,
            names,
            now,
        )[n] == m[n],
    decreases names.len(),
{
    if names.len() == 0 {
        assert(!names.contains(n));
    } else {
        lemma_snapshot_effect(insert_one(m, names[0], now), names.drop_first(), now, n);
        if names.contains(n) {
            let i = choose|i: int| 0 <= i < names.len() && names[i] == n;
            if i > 0 {
                assert(names.drop_first()[i - 1] == n);
                assert(names.drop_first().contains(n));
            }
        }
        if names.drop_first().contains(n) {
            let i = choose|i: int|
                0 <= i < names.drop_first().len() && names.drop_first()[i] == n;
            assert(names[i + 1] == n);
            assert(names.contains(n));
        }
        if names[0] == n {
            assert(names.contains(n));
        }
    }
}

/// A consumed identity is never re-inserted by the command path, but a
/// later snapshot that re-observes it restores its eligibility clock from
/// that later time, not from the original join time.
pub proof fn lemma_snapshot_restores_clock(
    m: Map<Seq<char>, u64>,
    names: Seq<Seq<char>>,
    n: Seq<char>,
    t2: u64,
)
    requires
        names.contains(n),
        !spec_has_special_role(n),
    ensures
        insert_names(m.remove(n), names, t2).contains_key(n),
        insert_names(m.remove(n), names, t2)[n] == t2,
{
    lemma_snapshot_effect(m.remove(n), names, t2, n);
}

} // verus!
