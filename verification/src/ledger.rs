//! The ledger of play times: one line per game, read whole, brought up to
//! date with a session, and written whole.

use crate::stats::{lemma_line_round_trip, read_line, tsv_line, GameStats, StatsView};
use crate::text::{
    decimal, lemma_concat_excludes, lemma_decimal_round_trip, lemma_split_extend, same_text,
    split, split_text, texts,
};
use crate::timestamp::{
    lemma_stamp_ends_in_digit, lemma_stamp_round_trip, local_offset_seconds, stamp_text, Timestamp,
};
use vstd::prelude::*;

verus! {

/// Why a ledger could not be brought up to date.
#[derive(Clone, Copy, Debug, PartialEq, Eq, Structural)]
pub enum LedgerError {
    /// A line that is not blank is no record.
    MalformedLine,
    /// A play time would no longer fit 32 bits.
    PlayTimeOverflow,
    /// The machine cannot tell the offset of its local time.
    UnknownLocalOffset,
}

/// The views of a sequence of records.
pub open spec fn views(records: Seq<GameStats>) -> Seq<StatsView> {
    Seq::new(records.len(), |i: int| records[i]@)
}

/// The text of a ledger: each record's line, each closed by a line break.
pub open spec fn ledger_text(records: Seq<StatsView>) -> Seq<char>
    decreases records.len(),
{
    if records.len() == 0 {
        Seq::<char>::empty()
    } else {
        ledger_text(records.drop_last()) + tsv_line(records.last()) + seq!['\n']
    }
}

/// A line without the carriage return that may end it.
pub open spec fn without_return(line: Seq<char>) -> Seq<char> {
    if line.len() > 0 && line.last() == '\r' {
        line.drop_last()
    } else {
        line
    }
}

/// The records of a sequence of lines, each taken without the carriage
/// return that may end it: blank lines are passed over, and one line that
/// is neither blank nor a record spoils the whole.
pub open spec fn read_lines(lines: Seq<Seq<char>>, offset_seconds: i32) -> Option<Seq<StatsView>>
    decreases lines.len(),
{
    if lines.len() == 0 {
        Some(Seq::<StatsView>::empty())
    } else {
        match read_lines(lines.drop_last(), offset_seconds) {
            None => None,
            Some(front) => if without_return(lines.last()).len() == 0 {
                Some(front)
            } else {
                match read_line(without_return(lines.last()), offset_seconds) {
                    None => None,
                    Some(record) => Some(front.push(record)),
                }
            },
        }
    }
}

/// The records of a ledger's text.
pub open spec fn read_ledger(content: Seq<char>, offset_seconds: i32) -> Option<Seq<StatsView>> {
    read_lines(split(content, '\n'), offset_seconds)
}

/// True when some record is kept for the game `id`.
pub open spec fn is_known(records: Seq<StatsView>, id: Seq<char>) -> bool {
    exists|i: int| 0 <= i < records.len() && (#[trigger] records[i]).id == id
}

/// True when adding `seconds` to a record of the game `id` would pass 32 bits.
pub open spec fn overflows(records: Seq<StatsView>, id: Seq<char>, seconds: u32) -> bool {
    exists|i: int|
        0 <= i < records.len() && (#[trigger] records[i]).id == id && records[i].play_time_seconds
            + seconds > u32::MAX
}

/// A record after a session of the game `id`: with the session's seconds
/// added and its start as the time last played if the record is that game's,
/// unchanged if not.
pub open spec fn credited(record: StatsView, id: Seq<char>, seconds: u32, start: Timestamp)
    -> StatsView {
    if record.id == id {
        StatsView {
            id: record.id,
            play_time_seconds: (record.play_time_seconds + seconds) as u32,
            last_played_time: start,
        }
    } else {
        record
    }
}

/// The records after a session of the game `id`: every record of that game
/// credited, or, where there is none, a new record at the end.
pub open spec fn recorded(records: Seq<StatsView>, id: Seq<char>, seconds: u32, start: Timestamp)
    -> Seq<StatsView> {
    if is_known(records, id) {
        Seq::new(records.len(), |i: int| credited(records[i], id, seconds, start))
    } else {
        records.push(StatsView { id, play_time_seconds: seconds, last_played_time: start })
    }
}

/// What bringing a ledger's text up to date gives.
pub open spec fn updated_ledger(
    content: Seq<char>,
    id: Seq<char>,
    seconds: u32,
    start: Timestamp,
    offset_seconds: i32,
) -> Result<Seq<char>, LedgerError> {
    match read_ledger(content, offset_seconds) {
        None => Err(LedgerError::MalformedLine),
        Some(records) => if overflows(records, id, seconds) {
            Err(LedgerError::PlayTimeOverflow)
        } else {
            Ok(ledger_text(recorded(records, id, seconds, start)))
        },
    }
}

/// An updated ledger or the error, with the text as a mathematical value.
pub open spec fn text_outcome(r: Result<String, LedgerError>) -> Result<Seq<char>, LedgerError> {
    match r {
        Ok(text) => Ok(text@),
        Err(error) => Err(error),
    }
}

/// Reads the records of a ledger, timestamps meant in the given offset.
/// Gives nothing if a line that is not blank is no record.
pub fn parse_ledger(content: &str, offset_seconds: i32) -> (read: Option<Vec<GameStats>>)
    ensures
        read is Some <==> read_ledger(content@, offset_seconds) is Some,
        read matches Some(records) ==> read_ledger(content@, offset_seconds) == Some(
            views(records@),
        ),
{
    let lines = split_text(content, '\n');
    let mut records: Vec<GameStats> = Vec::new();
    let mut i: usize = 0;
    assert(texts(lines@).subrange(0, 0) =~= Seq::<Seq<char>>::empty());
    assert(views(records@) =~= Seq::<StatsView>::empty());
    while i < lines.len()
        invariant
            i <= lines.len(),
            texts(lines@) == split(content@, '\n'),
            read_lines(texts(lines@).subrange(0, i as int), offset_seconds) == Some(
                views(records@),
            ),
        decreases lines.len() - i,
    {
        proof {
            let next = texts(lines@).subrange(0, i + 1);
            assert(next.drop_last() =~= texts(lines@).subrange(0, i as int));
            assert(next.last() == lines@[i as int]@);
            if read_lines(next, offset_seconds) is None {
                lemma_read_lines_prefix(texts(lines@), i + 1, offset_seconds);
            }
        }
        let raw = lines[i].as_str();
        let len = raw.unicode_len();
        let line = if len > 0 && raw.get_char(len - 1) == '\r' {
            raw.substring_char(0, len - 1)
        } else {
            raw
        };
        assert(line@ =~= without_return(raw@));
        if !line.is_empty() {
            match GameStats::from_tsv_in_offset(line, offset_seconds) {
                None => {
                    return None;
                },
                Some(record) => {
                    assert(views(records@.push(record)) =~= views(records@).push(record@));
                    records.push(record);
                },
            }
        }
        i += 1;
    }
    assert(texts(lines@).subrange(0, lines.len() as int) =~= texts(lines@));
    Some(records)
}

/// Lines that cannot be read as a whole have a first part that cannot.
pub proof fn lemma_read_lines_prefix(lines: Seq<Seq<char>>, k: int, offset_seconds: i32)
    requires
        0 <= k <= lines.len(),
        read_lines(lines.subrange(0, k), offset_seconds) is None,
    ensures
        read_lines(lines, offset_seconds) is None,
    decreases lines.len() - k,
{
    if k == lines.len() {
        assert(lines.subrange(0, k) =~= lines);
    } else {
        assert(lines.subrange(0, k + 1).drop_last() =~= lines.subrange(0, k));
        lemma_read_lines_prefix(lines, k + 1, offset_seconds);
    }
}

/// The place of the first record of the game `id`.
pub fn find_game_stats(records: &Vec<GameStats>, id: &str) -> (found: Option<usize>)
    ensures
        found is Some <==> is_known(views(records@), id@),
        found matches Some(i) ==> i < records.len() && records@[i as int]@.id == id@ && forall|
            j: int,
        |
            0 <= j < i ==> records@[j]@.id != id@,
{
    let mut i: usize = 0;
    while i < records.len()
        invariant
            i <= records.len(),
            forall|j: int| 0 <= j < i ==> records@[j]@.id != id@,
        decreases records.len() - i,
    {
        if same_text(records[i].id(), id) {
            assert(views(records@)[i as int].id == id@);
            return Some(i);
        }
        i += 1;
    }
    assert forall|j: int| 0 <= j < views(records@).len() implies (#[trigger] views(
        records@,
    )[j]).id != id@ by {
        assert(records@[j]@.id != id@);
    }
    None
}

/// Brings the records up to date with a session of the game `id` that began
/// at `start` and lasted `seconds`. Fails, and changes nothing, if a play
/// time would pass 32 bits.
pub fn record_session(records: Vec<GameStats>, id: &str, seconds: u32, start: Timestamp) -> (r:
    Result<Vec<GameStats>, LedgerError>)
    ensures
        r is Err <==> overflows(views(records@), id@, seconds),
        r matches Err(error) ==> error == LedgerError::PlayTimeOverflow,
        r matches Ok(after) ==> views(after@) == recorded(views(records@), id@, seconds, start),
{
    let mut after = records;
    let mut found = false;
    let mut i: usize = 0;
    let ghost before = views(records@);
    while i < after.len()
        invariant
            i <= after.len(),
            after.len() == before.len(),
            before == views(records@),
            found <==> is_known(before.subrange(0, i as int), id@),
            !overflows(before.subrange(0, i as int), id@, seconds),
            forall|j: int| 0 <= j < i ==> after@[j]@ == credited(before[j], id@, seconds, start),
            forall|j: int| i <= j < after.len() ==> after@[j]@ == before[j],
        decreases after.len() - i,
    {
        let ghost done = before.subrange(0, i as int);
        let ghost next = before.subrange(0, i + 1);
        assert(forall|j: int| 0 <= j < i ==> next[j] == done[j]);
        assert(next[i as int] == before[i as int]);
        if same_text(after[i].id(), id) {
            if after[i].play_time_seconds() > u32::MAX - seconds {
                assert(overflows(before, id@, seconds));
                return Err(LedgerError::PlayTimeOverflow);
            }
            let mut record = GameStats::new(
                String::from_str(after[i].id()),
                after[i].play_time_seconds(),
                after[i].last_played_time(),
            );
            record.add_time(seconds);
            record.update_last_played_time(start);
            after.set(i, record);
            found = true;
            assert(is_known(next, id@));
        } else {
            assert(is_known(next, id@) ==> is_known(done, id@)) by {
                if is_known(next, id@) {
                    let w = choose|w: int| 0 <= w < next.len() && (#[trigger] next[w]).id == id@;
                    assert(done[w].id == id@);
                }
            }
            assert(is_known(done, id@) ==> is_known(next, id@)) by {
                if is_known(done, id@) {
                    let w = choose|w: int| 0 <= w < done.len() && (#[trigger] done[w]).id == id@;
                    assert(next[w].id == id@);
                }
            }
        }
        assert(!overflows(next, id@, seconds)) by {
            if overflows(next, id@, seconds) {
                let w = choose|w: int|
                    0 <= w < next.len() && (#[trigger] next[w]).id == id@
                        && next[w].play_time_seconds + seconds > u32::MAX;
                if w < i {
                    assert(done[w].id == id@);
                }
            }
        }
        i += 1;
    }
    assert(before.subrange(0, before.len() as int) =~= before);
    if !found {
        let record = GameStats::new(String::from_str(id), seconds, start);
        after.push(record);
        assert(views(after@) =~= recorded(before, id@, seconds, start));
    } else {
        assert(views(after@) =~= recorded(before, id@, seconds, start));
    }
    Ok(after)
}

/// Writes the records as the text of a ledger.
pub fn render_ledger(records: &Vec<GameStats>) -> (content: String)
    ensures
        content@ == ledger_text(views(records@)),
{
    let mut content = String::new();
    let mut i: usize = 0;
    assert(views(records@).subrange(0, 0) =~= Seq::<StatsView>::empty());
    while i < records.len()
        invariant
            i <= records.len(),
            content@ == ledger_text(views(records@).subrange(0, i as int)),
        decreases records.len() - i,
    {
        let line = records[i].to_tsv();
        proof {
            reveal_strlit("\n");
            let next = views(records@).subrange(0, i + 1);
            assert(next.drop_last() =~= views(records@).subrange(0, i as int));
            assert(next.last() == records@[i as int]@);
        }
        content.append(line.as_str());
        content.append("\n");
        i += 1;
    }
    assert(views(records@).subrange(0, records.len() as int) =~= views(records@));
    content
}

/// Brings the text of a ledger up to date with a session of the game `id`,
/// the ledger's timestamps meant in the given offset.
pub fn update_ledger_in_offset(
    content: &str,
    id: &str,
    seconds: u32,
    start: Timestamp,
    offset_seconds: i32,
) -> (r: Result<String, LedgerError>)
    ensures
        text_outcome(r) == updated_ledger(content@, id@, seconds, start, offset_seconds),
{
    match parse_ledger(content, offset_seconds) {
        None => Err(LedgerError::MalformedLine),
        Some(records) => match record_session(records, id, seconds, start) {
            Err(error) => Err(error),
            Ok(after) => Ok(render_ledger(&after)),
        },
    }
}

/// The record that a first session of the game `id` leaves in the ledger.
pub open spec fn first_record_of(id: Seq<char>, seconds: u32, start: Timestamp) -> StatsView {
    StatsView { id, play_time_seconds: seconds, last_played_time: start }
}

/// Brings the text of a ledger up to date with a session of the game `id`.
/// The machine is asked for its local offset only where a line has to be
/// read as a record: a ledger that is empty, or blank throughout, is
/// brought up to date whatever the machine can tell. What is written does
/// not depend on the offset in which the lines are read.
pub fn update_ledger(content: &str, id: &str, seconds: u32, start: Timestamp) -> (r: Result<
    String,
    LedgerError,
>)
    ensures
        read_ledger(content@, 0) == Some(Seq::<StatsView>::empty()) ==> (r matches Ok(text)
            && text@ == tsv_line(first_record_of(id@, seconds, start)) + seq!['\n']),
        r matches Err(LedgerError::UnknownLocalOffset) || text_outcome(r) == updated_ledger(
            content@,
            id@,
            seconds,
            start,
            0,
        ),
{
    let blank = match parse_ledger(content, 0) {
        Some(records) => records.len() == 0,
        None => false,
    };
    if blank {
        proof {
            lemma_first_session(id@, seconds, start);
        }
        return update_ledger_in_offset(content, id, seconds, start, 0);
    }
    match local_offset_seconds() {
        None => Err(LedgerError::UnknownLocalOffset),
        Some(offset_seconds) => {
            proof {
                lemma_update_ignores_offset(content@, id@, seconds, start, offset_seconds, 0);
            }
            update_ledger_in_offset(content, id, seconds, start, offset_seconds)
        },
    }
}

/// Reads the records of a ledger, timestamps meant in the machine's local
/// offset of this moment. The machine is asked for it only where a line has
/// to be read as a record: a ledger that is empty, or blank throughout,
/// gives no records whatever the machine can tell.
pub fn parse_ledger_in_local_offset(content: &str) -> (r: Result<Vec<GameStats>, LedgerError>)
    ensures
        read_ledger(content@, 0) == Some(Seq::<StatsView>::empty()) ==> (r matches Ok(records)
            && records@.len() == 0),
        read_ledger(content@, 0) is None ==> r is Err,
        r matches Ok(records) ==> exists|offset_seconds: i32|
            read_ledger(content@, offset_seconds) == Some(views(records@)),
        r matches Err(error) ==> error == LedgerError::UnknownLocalOffset || (error
            == LedgerError::MalformedLine && read_ledger(content@, 0) is None),
{
    match parse_ledger(content, 0) {
        Some(records) => {
            assert(views(records@).len() == records@.len());
            if records.len() == 0 {
                assert(views(records@) =~= Seq::<StatsView>::empty());
                return Ok(records);
            }
        },
        None => {},
    }
    match local_offset_seconds() {
        None => Err(LedgerError::UnknownLocalOffset),
        Some(offset_seconds) => {
            proof {
                lemma_read_in_other_offset(split(content@, '\n'), 0, offset_seconds);
            }
            match parse_ledger(content, offset_seconds) {
                Some(records) => Ok(records),
                None => Err(LedgerError::MalformedLine),
            }
        },
    }
}

/// A record with the offset of its timestamp replaced.
pub open spec fn in_offset(record: StatsView, offset_seconds: i32) -> StatsView {
    StatsView {
        id: record.id,
        play_time_seconds: record.play_time_seconds,
        last_played_time: Timestamp {
            year: record.last_played_time.year,
            month: record.last_played_time.month,
            day: record.last_played_time.day,
            hour: record.last_played_time.hour,
            minute: record.last_played_time.minute,
            second: record.last_played_time.second,
            offset_seconds,
        },
    }
}

/// The records with the offset of every timestamp replaced.
pub open spec fn all_in_offset(records: Seq<StatsView>, offset_seconds: i32) -> Seq<StatsView> {
    Seq::new(records.len(), |i: int| in_offset(records[i], offset_seconds))
}

/// Lines read in another offset give the same records but for the offset of
/// their timestamps, and fail on the same lines.
pub proof fn lemma_read_in_other_offset(lines: Seq<Seq<char>>, first: i32, second: i32)
    ensures
        read_lines(lines, second) == match read_lines(lines, first) {
            Some(records) => Some(all_in_offset(records, second)),
            None => None,
        },
    decreases lines.len(),
{
    if lines.len() == 0 {
        assert(all_in_offset(Seq::<StatsView>::empty(), second) =~= Seq::<StatsView>::empty());
    } else {
        lemma_read_in_other_offset(lines.drop_last(), first, second);
        let line = without_return(lines.last());
        assert(read_line(line, second) == match read_line(line, first) {
            Some(record) => Some(in_offset(record, second)),
            None => None,
        });
        match (read_lines(lines.drop_last(), first), read_line(line, first)) {
            (Some(front), Some(record)) => {
                assert(all_in_offset(front.push(record), second) =~= all_in_offset(
                    front,
                    second,
                ).push(in_offset(record, second)));
            },
            _ => {},
        }
    }
}

/// Records with the same lines, one by one, make the same ledger text.
pub proof fn lemma_same_lines_same_text(a: Seq<StatsView>, b: Seq<StatsView>)
    requires
        a.len() == b.len(),
        forall|i: int| 0 <= i < a.len() ==> tsv_line(#[trigger] a[i]) == tsv_line(b[i]),
    ensures
        ledger_text(a) == ledger_text(b),
    decreases a.len(),
{
    if a.len() > 0 {
        assert forall|i: int| 0 <= i < a.drop_last().len() implies tsv_line(
            #[trigger] a.drop_last()[i],
        ) == tsv_line(b.drop_last()[i]) by {
            assert(a.drop_last()[i] == a[i]);
            assert(b.drop_last()[i] == b[i]);
        }
        lemma_same_lines_same_text(a.drop_last(), b.drop_last());
        assert(tsv_line(a[a.len() - 1]) == tsv_line(b[a.len() - 1]));
    }
}

/// The offset of the timestamps that a ledger held is not written: a
/// session overflows, and leaves its text, alike whatever that offset is.
pub proof fn lemma_offset_is_not_written(
    records: Seq<StatsView>,
    id: Seq<char>,
    seconds: u32,
    start: Timestamp,
    offset_seconds: i32,
)
    ensures
        overflows(all_in_offset(records, offset_seconds), id, seconds) == overflows(
            records,
            id,
            seconds,
        ),
        ledger_text(recorded(all_in_offset(records, offset_seconds), id, seconds, start))
            == ledger_text(recorded(records, id, seconds, start)),
{
    let moved = all_in_offset(records, offset_seconds);
    assert(is_known(moved, id) == is_known(records, id)) by {
        if is_known(moved, id) {
            let w = choose|w: int| 0 <= w < moved.len() && (#[trigger] moved[w]).id == id;
            assert(records[w].id == id);
        }
        if is_known(records, id) {
            let w = choose|w: int| 0 <= w < records.len() && (#[trigger] records[w]).id == id;
            assert(moved[w].id == id);
        }
    }
    assert(overflows(moved, id, seconds) == overflows(records, id, seconds)) by {
        if overflows(moved, id, seconds) {
            let w = choose|w: int|
                0 <= w < moved.len() && (#[trigger] moved[w]).id == id
                    && moved[w].play_time_seconds + seconds > u32::MAX;
            assert(records[w].id == id && records[w].play_time_seconds + seconds > u32::MAX);
        }
        if overflows(records, id, seconds) {
            let w = choose|w: int|
                0 <= w < records.len() && (#[trigger] records[w]).id == id
                    && records[w].play_time_seconds + seconds > u32::MAX;
            assert(moved[w].id == id && moved[w].play_time_seconds + seconds > u32::MAX);
        }
    }
    let a = recorded(moved, id, seconds, start);
    let b = recorded(records, id, seconds, start);
    assert(a.len() == b.len());
    assert forall|i: int| 0 <= i < a.len() implies tsv_line(#[trigger] a[i]) == tsv_line(b[i]) by {
        if i < records.len() {
            assert(moved[i] == in_offset(records[i], offset_seconds));
            assert(stamp_text(moved[i].last_played_time) == stamp_text(
                records[i].last_played_time,
            ));
        }
    }
    lemma_same_lines_same_text(a, b);
}

/// Bringing a ledger up to date gives the same text, or fails alike, in
/// whatever offset the timestamps it holds are read.
pub proof fn lemma_update_ignores_offset(
    content: Seq<char>,
    id: Seq<char>,
    seconds: u32,
    start: Timestamp,
    first: i32,
    second: i32,
)
    ensures
        updated_ledger(content, id, seconds, start, first) == updated_ledger(
            content,
            id,
            seconds,
            start,
            second,
        ),
{
    lemma_read_in_other_offset(split(content, '\n'), first, second);
    match read_ledger(content, first) {
        Some(records) => {
            lemma_offset_is_not_written(records, id, seconds, start, second);
        },
        None => {},
    }
}

/// The first session ever recorded leaves a ledger of one line.
pub proof fn lemma_first_session(id: Seq<char>, seconds: u32, start: Timestamp)
    ensures
        !overflows(Seq::<StatsView>::empty(), id, seconds),
        ledger_text(recorded(Seq::<StatsView>::empty(), id, seconds, start)) == tsv_line(
            first_record_of(id, seconds, start),
        ) + seq!['\n'],
{
    let none = Seq::<StatsView>::empty();
    let one = recorded(none, id, seconds, start);
    assert(one =~= seq![first_record_of(id, seconds, start)]);
    assert(one.drop_last() =~= none);
    assert(one.last() == first_record_of(id, seconds, start));
    assert(ledger_text(none) =~= Seq::<char>::empty());
    assert(ledger_text(one) =~= tsv_line(first_record_of(id, seconds, start)) + seq!['\n']);
}

/// An empty text is a ledger without records, in whatever offset it is read.
pub proof fn lemma_empty_text_is_empty_ledger(offset_seconds: i32)
    ensures
        read_ledger(Seq::<char>::empty(), offset_seconds) == Some(Seq::<StatsView>::empty()),
{
    let lines = split(Seq::<char>::empty(), '\n');
    assert(lines == seq![Seq::<char>::empty()]);
    assert(lines.drop_last() =~= Seq::<Seq<char>>::empty());
    assert(read_lines(lines.drop_last(), offset_seconds) == Some(Seq::<StatsView>::empty()));
}

/// A record that a ledger can hold and give back: its id holds neither a tab
/// nor a line break, and its timestamp names an existing moment of a year
/// that is not negative, meant in the given offset.
pub open spec fn is_ledger_record(s: StatsView, offset_seconds: i32) -> bool {
    &&& !s.id.contains('\t')
    &&& !s.id.contains('\n')
    &&& s.last_played_time.is_valid()
    &&& s.last_played_time.year >= 0
    &&& s.last_played_time.offset_seconds == offset_seconds
}

/// The ledger lines of a sequence of records.
pub open spec fn lines_of(records: Seq<StatsView>) -> Seq<Seq<char>> {
    Seq::new(records.len(), |i: int| tsv_line(records[i]))
}

/// The line of a ledger record is not blank, holds no line break and does
/// not end in a carriage return.
pub proof fn lemma_line_is_one_line(s: StatsView)
    requires
        !s.id.contains('\n'),
        s.last_played_time.is_valid(),
        s.last_played_time.year >= 0,
    ensures
        tsv_line(s).len() > 0,
        !tsv_line(s).contains('\n'),
        without_return(tsv_line(s)) == tsv_line(s),
{
    lemma_stamp_ends_in_digit(s.last_played_time);
    assert(tsv_line(s).last() == stamp_text(s.last_played_time).last());
    let tab = seq!['\t'];
    let seconds = decimal(s.play_time_seconds as nat);
    lemma_decimal_round_trip(s.play_time_seconds as nat);
    lemma_stamp_round_trip(s.last_played_time);
    assert(!tab.contains('\n'));
    lemma_concat_excludes(s.id, tab, '\n');
    lemma_concat_excludes(s.id + tab, seconds, '\n');
    lemma_concat_excludes(s.id + tab + seconds, tab, '\n');
    lemma_concat_excludes(s.id + tab + seconds + tab, stamp_text(s.last_played_time), '\n');
}

/// The text of a ledger splits at its line breaks into the records' lines
/// and one blank piece after the last line break.
pub proof fn lemma_ledger_lines(records: Seq<StatsView>)
    requires
        forall|i: int| 0 <= i < records.len() ==> !tsv_line(#[trigger] records[i]).contains('\n'),
    ensures
        split(ledger_text(records), '\n') == lines_of(records).push(Seq::<char>::empty()),
    decreases records.len(),
{
    if records.len() == 0 {
        assert(lines_of(records).push(Seq::<char>::empty()) =~= seq![Seq::<char>::empty()]);
    } else {
        let front = records.drop_last();
        let line = tsv_line(records.last());
        assert forall|i: int| 0 <= i < front.len() implies !tsv_line(#[trigger] front[i]).contains(
            '\n',
        ) by {
            assert(front[i] == records[i]);
        }
        lemma_ledger_lines(front);
        lemma_split_extend(ledger_text(front), line, '\n');
        let pieces = split(ledger_text(front), '\n');
        assert(pieces.last() + line =~= line);
        assert(pieces.update(pieces.len() - 1, line) =~= lines_of(records));
        let whole = ledger_text(records);
        assert(whole.drop_last() =~= ledger_text(front) + line);
        assert(whole.last() == '\n');
    }
}

/// Reading the lines of ledger records gives the records back.
pub proof fn lemma_read_written_lines(records: Seq<StatsView>, offset_seconds: i32)
    requires
        forall|i: int|
            0 <= i < records.len() ==> is_ledger_record(#[trigger] records[i], offset_seconds),
    ensures
        read_lines(lines_of(records), offset_seconds) == Some(records),
    decreases records.len(),
{
    if records.len() == 0 {
        assert(records =~= Seq::<StatsView>::empty());
    } else {
        let front = records.drop_last();
        assert forall|i: int| 0 <= i < front.len() implies is_ledger_record(
            #[trigger] front[i],
            offset_seconds,
        ) by {
            assert(front[i] == records[i]);
        }
        lemma_read_written_lines(front, offset_seconds);
        assert(is_ledger_record(records[records.len() - 1], offset_seconds));
        lemma_line_round_trip(records.last());
        lemma_line_is_one_line(records.last());
        assert(lines_of(records).drop_last() =~= lines_of(front));
        assert(lines_of(records).last() == tsv_line(records.last()));
        assert(front.push(records.last()) =~= records);
    }
}

/// Reading the text of a ledger that holds ledger records gives the records
/// back, in their order.
pub proof fn lemma_ledger_round_trip(records: Seq<StatsView>, offset_seconds: i32)
    requires
        forall|i: int|
            0 <= i < records.len() ==> is_ledger_record(#[trigger] records[i], offset_seconds),
    ensures
        read_ledger(ledger_text(records), offset_seconds) == Some(records),
{
    assert forall|i: int| 0 <= i < records.len() implies !tsv_line(#[trigger] records[i]).contains(
        '\n',
    ) by {
        assert(is_ledger_record(records[i], offset_seconds));
        lemma_line_is_one_line(records[i]);
    }
    lemma_ledger_lines(records);
    lemma_read_written_lines(records, offset_seconds);
    let lines = lines_of(records).push(Seq::<char>::empty());
    assert(lines.drop_last() =~= lines_of(records));
}

/// A session of a game that the ledger does not know adds exactly one
/// record, and with it one line at the end of the ledger's text; what stood
/// there before stands unchanged.
pub proof fn lemma_unknown_game_appends_line(
    records: Seq<StatsView>,
    id: Seq<char>,
    seconds: u32,
    start: Timestamp,
)
    requires
        !is_known(records, id),
    ensures
        !overflows(records, id, seconds),
        recorded(records, id, seconds, start) == records.push(
            StatsView { id, play_time_seconds: seconds, last_played_time: start },
        ),
        ledger_text(recorded(records, id, seconds, start)) == ledger_text(records) + tsv_line(
            StatsView { id, play_time_seconds: seconds, last_played_time: start },
        ) + seq!['\n'],
{
    let added = StatsView { id, play_time_seconds: seconds, last_played_time: start };
    assert(records.push(added).drop_last() =~= records);
}

/// A session of a game that the ledger knows adds the session's seconds to
/// that game's play time and sets its time last played; the number of
/// records stays, and the record and the line of every other game stay as
/// they were.
pub proof fn lemma_known_game_is_credited(
    records: Seq<StatsView>,
    id: Seq<char>,
    seconds: u32,
    start: Timestamp,
    at: int,
)
    requires
        0 <= at < records.len(),
        records[at].id == id,
        !overflows(records, id, seconds),
    ensures
        recorded(records, id, seconds, start).len() == records.len(),
        recorded(records, id, seconds, start)[at].id == id,
        recorded(records, id, seconds, start)[at].play_time_seconds
            == records[at].play_time_seconds + seconds,
        recorded(records, id, seconds, start)[at].last_played_time == start,
        forall|j: int|
            0 <= j < records.len() && (#[trigger] records[j]).id != id ==> recorded(
                records,
                id,
                seconds,
                start,
            )[j] == records[j] && tsv_line(recorded(records, id, seconds, start)[j]) == tsv_line(
                records[j],
            ),
{
    assert(is_known(records, id));
}

/// Bringing the written text of a ledger up to date gives the written text
/// of the records brought up to date.
pub proof fn lemma_session_on_written_ledger(
    records: Seq<StatsView>,
    id: Seq<char>,
    seconds: u32,
    start: Timestamp,
    offset_seconds: i32,
)
    requires
        forall|i: int|
            0 <= i < records.len() ==> is_ledger_record(#[trigger] records[i], offset_seconds),
        !overflows(records, id, seconds),
    ensures
        updated_ledger(ledger_text(records), id, seconds, start, offset_seconds) == Ok::<
            Seq<char>,
            LedgerError,
        >(ledger_text(recorded(records, id, seconds, start))),
{
    lemma_ledger_round_trip(records, offset_seconds);
}

/// True when no two records are of one game.
pub open spec fn has_distinct_ids(records: Seq<StatsView>) -> bool {
    forall|i: int, j: int|
        0 <= i < j < records.len() ==> (#[trigger] records[i]).id != (#[trigger] records[j]).id
}

/// A ledger with at most one record for each game still has at most one for
/// each after a session, and no play time in it has gone down.
pub proof fn lemma_session_keeps_one_record_per_game(
    records: Seq<StatsView>,
    id: Seq<char>,
    seconds: u32,
    start: Timestamp,
)
    requires
        has_distinct_ids(records),
        !overflows(records, id, seconds),
    ensures
        has_distinct_ids(recorded(records, id, seconds, start)),
        forall|i: int|
            0 <= i < records.len() ==> (#[trigger] recorded(records, id, seconds, start)[i]).id
                == records[i].id && recorded(records, id, seconds, start)[i].play_time_seconds
                >= records[i].play_time_seconds,
{
    let after = recorded(records, id, seconds, start);
    assert forall|i: int| 0 <= i < records.len() implies (#[trigger] after[i]).id == records[i].id
        && after[i].play_time_seconds >= records[i].play_time_seconds by {
        if records[i].id == id {
            assert(is_known(records, id));
            assert(!(records[i].play_time_seconds + seconds > u32::MAX));
        }
    }
    assert forall|i: int, j: int| 0 <= i < j < after.len() implies (#[trigger] after[i]).id != (
    #[trigger] after[j]).id by {
        if j < records.len() {
            assert(after[i].id == records[i].id);
            assert(after[j].id == records[j].id);
        } else {
            assert(!is_known(records, id));
            assert(after[j].id == id);
            assert(after[i].id == records[i].id);
        }
    }
}

} // verus!
