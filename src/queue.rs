//! Matchmaking: pairing a player with someone waiting for the same time control.
use vstd::prelude::*;
use crate::types::{QueueEntry, QueueStatus, TimeControl};

verus! {

/// Entry `i` waits for `tc` and belongs to someone other than `player`.
pub open spec fn suitable(entries: Seq<QueueEntry>, i: int, player: Seq<char>, tc: TimeControl) -> bool {
    entries[i].time_control == tc && entries[i].chain_id@ != player
}

/// The first waiting entry, in the order given, that `player` can be matched
/// with for `tc`.
pub fn find_queue_opponent(entries: &Vec<QueueEntry>, player: &str, tc: TimeControl) -> (r: Option<usize>)
    ensures
        match r {
            Some(i) => i < entries@.len() && suitable(entries@, i as int, player@, tc) && forall|j: int|
                0 <= j < i ==> !#[trigger] suitable(entries@, j, player@, tc),
            None => forall|j: int| 0 <= j < entries@.len() ==> !#[trigger] suitable(entries@, j, player@, tc),
        },
{
    let who = String::from_str(player);
    let mut i: usize = 0;
    while i < entries.len()
        invariant
            i <= entries@.len(),
            who@ == player@,
            forall|j: int| 0 <= j < i ==> !#[trigger] suitable(entries@, j, player@, tc),
        decreases entries@.len() - i,
    {
        if entries[i].time_control == tc && !(entries[i].chain_id == who) {
            return Some(i);
        }
        i = i + 1;
    }
    None
}

/// How many entries wait for `tc`.
pub open spec fn waiting_for(entries: Seq<QueueEntry>, tc: TimeControl) -> nat
    decreases entries.len(),
{
    if entries.len() == 0 {
        0
    } else {
        waiting_for(entries.drop_last(), tc) + if entries.last().time_control == tc {
            1nat
        } else {
            0nat
        }
    }
}

fn count_waiting(entries: &Vec<QueueEntry>, tc: TimeControl) -> (r: u32)
    requires
        entries@.len() <= u32::MAX,
    ensures
        r == waiting_for(entries@, tc),
{
    let mut n: u32 = 0;
    let mut i: usize = 0;
    while i < entries.len()
        invariant
            i <= entries@.len(),
            entries@.len() <= u32::MAX,
            n <= i,
            n == waiting_for(entries@.take(i as int), tc),
        decreases entries@.len() - i,
    {
        assert(entries@.take(i + 1).drop_last() =~= entries@.take(i as int));
        if entries[i].time_control == tc {
            n = n + 1;
        }
        i = i + 1;
    }
    assert(entries@.take(entries@.len() as int) =~= entries@);
    n
}

/// The number of waiting players for each time control, in the order of
/// `TimeControl::all`.
pub fn get_queue_counts(entries: &Vec<QueueEntry>) -> (r: Vec<QueueStatus>)
    requires
        entries@.len() <= u32::MAX,
    ensures
        r@.len() == 5,
        forall|k: int|
            0 <= k < 5 ==> (#[trigger] r@[k]).time_control == TimeControl::all_spec()[k]
                && r@[k].player_count == waiting_for(entries@, TimeControl::all_spec()[k]),
{
    let all = TimeControl::all();
    let mut out: Vec<QueueStatus> = Vec::new();
    let mut k: usize = 0;
    while k < all.len()
        invariant
            all@ == TimeControl::all_spec(),
            entries@.len() <= u32::MAX,
            k <= all@.len(),
            out@.len() == k,
            forall|j: int|
                0 <= j < k ==> (#[trigger] out@[j]).time_control == TimeControl::all_spec()[j]
                    && out@[j].player_count == waiting_for(entries@, TimeControl::all_spec()[j]),
        decreases all@.len() - k,
    {
        let tc = all[k];
        out.push(QueueStatus { time_control: tc, player_count: count_waiting(entries, tc) });
        k = k + 1;
    }
    out
}

} // verus!
