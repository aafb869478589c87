//! The promotion selector and the scheduler's decision step: picking the
//! next member to voice, consuming it from the store, and never promoting
//! the bot itself.

use vstd::prelude::*;

use crate::store::Users;
use crate::text::str_eq;

verus! {

/// Lower bound, in milliseconds, of the randomized delay between
/// consecutive promotions.
pub const JITTER_MIN_MILLIS: u64 = 100;

/// Upper bound (exclusive), in milliseconds, of the randomized delay
/// between consecutive promotions.
pub const JITTER_MAX_MILLIS: u64 = 250;

/// A member is eligible for promotion when it has been present for strictly
/// longer than the cooldown.
pub open spec fn eligible(joined_at: u64, cooldown: u64, now: u64) -> bool {
    joined_at <= now && now - joined_at > cooldown
}

/// Whether any tracked identity is eligible for promotion.
pub open spec fn some_eligible(m: Map<Seq<char>, u64>, cooldown: u64, now: u64) -> bool {
    exists|k: Seq<char>| m.contains_key(k) && eligible(m[k], cooldown, now)
}

/// Picks some tracked identity whose dwell time exceeds the cooldown, or
/// `None` when no identity qualifies. The iteration order over the store is
/// unspecified, so no promise is made about which eligible identity is
/// returned, only that it is tracked and eligible.
pub fn find_next_promotee(users: &Users, cooldown: u64, now: u64) -> (r: Option<String>)
    requires
        users.wf(),
    ensures
        match r {
            Some(n) => users@.contains_key(n@) && eligible(users@[n@], cooldown, now),
            None => !some_eligible(users@, cooldown, now),
        },
{
    let snap = users.snapshot();
    let n = snap.len();
    let mut i: usize = 0;
    while i < n
        invariant
            users.wf(),
            n == snap@.len(),
            i <= n,
            forall|j: int|
                0 <= j < snap@.len() ==> #[trigger] users@.contains_key(snap@[j].0@)
                    && users@[snap@[j].0@] == snap@[j].1,
            forall|k: Seq<char>|
                users@.contains_key(k) ==> exists|j: int| 0 <= j < snap@.len() && snap@[j].0@ == k,
            forall|j: int| 0 <= j < i ==> !eligible(snap@[j].1, cooldown, now),
        decreases n - i,
    {
        let joined_at = snap[i].1;
        if now >= joined_at && now - joined_at > cooldown {
            return Some(snap[i].0.clone());
        }
        i += 1;
    }
    proof {
        assert forall|k: Seq<char>|
            users@.contains_key(k) implies !eligible(users@[k], cooldown, now) by {
            let j = choose|j: int| 0 <= j < snap@.len() && snap@[j].0@ == k;
        }
    }
    None
}

/// One promotion check, run on every scheduler trigger: consults the
/// selector and, when it picks an identity, removes it from the store at
/// once — before any command is sent, so a slow or failed command can never
/// cause the same identity to be selected twice. The identity is returned
/// as the target of a promotion command unless it is the bot's own
/// nickname, which is skipped (but still removed from the store).
pub fn check_promotion(users: &mut Users, cooldown: u64, now: u64, bot_nick: &str) -> (r: Option<
    String,
>)
    requires
        old(users).wf(),
    ensures
        final(users).wf(),
        match r {
            Some(n) => {
                &&& old(users)@.contains_key(n@)
                &&& eligible(old(users)@[n@], cooldown, now)
                &&& n@ != bot_nick@
                &&& final(users)@ == old(users)@.remove(n@)
            },
            None => {
                ||| (!some_eligible(old(users)@, cooldown, now) && final(users)@ == old(users)@)
                ||| (old(users)@.contains_key(bot_nick@) && eligible(
                    old(users)@[bot_nick@],
                    cooldown,
                    now,
                ) && final(users)@ == old(users)@.remove(bot_nick@))
            },
        },
{
    match find_next_promotee(users, cooldown, now) {
        Some(nickname) => {
            users.remove(nickname.as_str());
            if str_eq(nickname.as_str(), bot_nick) {
                None
            } else {
                Some(nickname)
            }
        }
        None => None,
    }
}

/// Selection is single-shot: the promotion check removes the identity it
/// selects from the store before any command is sent, and the selector only
/// returns identities that are keys of the store, so an immediately
/// following check can never return the same identity again — even when the
/// promotion command fails, since failure never re-inserts the identity.
pub proof fn lemma_selection_consumed(m: Map<Seq<char>, u64>, n: Seq<char>)
    ensures
        !m.remove(n).contains_key(n),
{
}

/// Relies on fastrand::u64: returns a value drawn from the given range;
/// it panics only when the range is empty.
#[verifier::external_body]
fn random_u64_in(lo: u64, hi: u64) -> (r: u64)
    requires
        lo < hi,
    ensures
        lo <= r < hi,
{
    fastrand::u64(lo..hi)
}

/// Draws the randomized delay, in milliseconds, to wait after a promotion
/// before re-checking for further eligible members.
pub fn random_jitter_millis() -> (r: u64)
    ensures
        JITTER_MIN_MILLIS <= r < JITTER_MAX_MILLIS,
{
    random_u64_in(JITTER_MIN_MILLIS, JITTER_MAX_MILLIS)
}

} // verus!

