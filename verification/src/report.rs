//! Play-time reports over several games.

use crate::catalog::{has_id, Games};
use crate::game::GameError;
use crate::ledger::{find_game_stats, is_known, views};
use crate::stats::{GameStats, StatsView};
use crate::text::texts;
use vstd::prelude::*;

verus! {

/// True when `place` is the place of the first record of the game `id`.
pub open spec fn is_first_record(records: Seq<StatsView>, id: Seq<char>, place: int) -> bool {
    &&& 0 <= place < records.len()
    &&& records[place].id == id
    &&& forall|j: int| 0 <= j < place ==> (#[trigger] records[j]).id != id
}

/// The place of the first record of the game `id`, where it has one.
pub open spec fn first_record(records: Seq<StatsView>, id: Seq<char>) -> int {
    choose|place: int| is_first_record(records, id, place)
}

/// The places of the records to report for the first `count` ids: for each
/// id that has a record, in the order of the ids, the place of its first.
pub open spec fn reported(records: Seq<StatsView>, ids: Seq<Seq<char>>, count: int) -> Seq<int>
    decreases count,
{
    if count <= 0 || count > ids.len() {
        Seq::<int>::empty()
    } else if is_known(records, ids[count - 1]) {
        reported(records, ids, count - 1).push(first_record(records, ids[count - 1]))
    } else {
        reported(records, ids, count - 1)
    }
}

/// True when the catalog holds a game with this id.
pub open spec fn in_catalog(games: Games, id: Seq<char>) -> bool {
    has_id(games@, id)
}

/// The sum of the play times of the records at the first `count` places.
pub open spec fn play_time_sum(records: Seq<StatsView>, found: Seq<usize>, count: int) -> nat
    decreases count,
{
    if count <= 0 || count > found.len() {
        0
    } else {
        play_time_sum(records, found, count - 1) + records[found[count - 1] as int]
            .play_time_seconds as nat
    }
}

/// The view of a sequence of places.
pub open spec fn place_views(found: Seq<usize>) -> Seq<int> {
    Seq::new(found.len(), |i: int| found[i] as int)
}

/// The places of the records to report for the games named: the first
/// record of each game that has one, in the order in which the games are
/// named. Fails where no game is named, and at the first name that is no
/// game of the catalog.
pub fn records_to_report<'a>(games: &Games, records: &Vec<GameStats>, args: &'a [String]) -> (r:
    Result<Vec<usize>, GameError<'a>>)
    ensures
        args@.len() == 0 ==> r matches Err(GameError::NoGameId),
        args@.len() > 0 ==> match r {
            Ok(found) => (forall|i: int|
                0 <= i < args@.len() ==> in_catalog(*games, #[trigger] args@[i]@)) && place_views(
                found@,
            ) == reported(views(records@), texts(args@), args@.len() as int) && forall|k: int|
                0 <= k < found@.len() ==> (#[trigger] found@[k]) < records@.len(),
            Err(GameError::NoSuchGame(id)) => exists|i: int|
                0 <= i < args@.len() && #[trigger] args@[i]@ == id@ && !in_catalog(*games, id@)
                    && forall|j: int| 0 <= j < i ==> in_catalog(*games, #[trigger] args@[j]@),
            Err(_) => false,
        },
{
    if args.len() == 0 {
        return Err(GameError::NoGameId);
    }
    let mut found: Vec<usize> = Vec::new();
    let mut i: usize = 0;
    assert(place_views(found@) =~= Seq::<int>::empty());
    while i < args.len()
        invariant
            i <= args.len(),
            forall|j: int| 0 <= j < i ==> in_catalog(*games, #[trigger] args@[j]@),
            place_views(found@) == reported(views(records@), texts(args@), i as int),
            forall|k: int| 0 <= k < found@.len() ==> (#[trigger] found@[k]) < records@.len(),
        decreases args.len() - i,
    {
        let game_id = args[i].as_str();
        assert(texts(args@)[i as int] == game_id@);
        if games.find(game_id).is_none() {
            return Err(GameError::NoSuchGame(game_id));
        }
        match find_game_stats(records, game_id) {
            Some(place) => {
                proof {
                    let all = views(records@);
                    assert(is_first_record(all, game_id@, place as int)) by {
                        assert forall|j: int| 0 <= j < place implies (#[trigger] all[j]).id
                            != game_id@ by {
                            assert(records@[j]@.id != game_id@);
                        }
                    }
                    let chosen = first_record(all, game_id@);
                    assert(is_first_record(all, game_id@, chosen));
                    assert(chosen == place) by {
                        if chosen < place {
                            assert(all[chosen].id != game_id@);
                        }
                        if place < chosen {
                            assert(all[place as int].id != game_id@);
                        }
                    }
                    assert(place_views(found@.push(place)) =~= place_views(found@).push(
                        place as int,
                    ));
                }
                found.push(place);
            },
            None => {},
        }
        i += 1;
    }
    Ok(found)
}

/// The play times of the records at the given places, added up.
pub fn total_play_time(records: &Vec<GameStats>, found: &Vec<usize>) -> (total: u64)
    requires
        found@.len() <= u32::MAX,
        forall|k: int| 0 <= k < found@.len() ==> (#[trigger] found@[k]) < records@.len(),
    ensures
        total == play_time_sum(views(records@), found@, found@.len() as int),
{
    let mut total: u64 = 0;
    let mut i: usize = 0;
    while i < found.len()
        invariant
            i <= found.len(),
            found@.len() <= u32::MAX,
            forall|k: int| 0 <= k < found@.len() ==> (#[trigger] found@[k]) < records@.len(),
            total == play_time_sum(views(records@), found@, i as int),
            total <= i * u32::MAX,
        decreases found.len() - i,
    {
        let seconds = records[found[i]].play_time_seconds();
        assert((i + 1) * u32::MAX <= u32::MAX * u32::MAX) by (nonlinear_arith)
            requires
                i + 1 <= u32::MAX,
        ;
        assert((i + 1) * u32::MAX == i * u32::MAX + u32::MAX) by (nonlinear_arith);
        total = total + seconds as u64;
        i += 1;
    }
    total
}

} // verus!
