//! Play-time statistics of one game, their line in the ledger, and the
//! rendering of play times.

use crate::text::{
    decimal, format_unsigned, lemma_decimal_round_trip, lemma_split_three, parse_unsigned,
    read_number, split, split_text, texts,
};
use crate::timestamp::{
    lemma_stamp_round_trip, local_offset_seconds, read_stamp, stamp_text, Timestamp,
};
use vstd::prelude::*;

verus! {

/// How long one game was played in all, and when it was played last.
pub struct GameStats {
    id: String,
    play_time_seconds: u32,
    last_played_time: Timestamp,
}

/// What a `GameStats` holds, as mathematical values.
pub ghost struct StatsView {
    pub id: Seq<char>,
    pub play_time_seconds: u32,
    pub last_played_time: Timestamp,
}

impl View for GameStats {
    type V = StatsView;

    closed spec fn view(&self) -> StatsView {
        StatsView {
            id: self.id@,
            play_time_seconds: self.play_time_seconds,
            last_played_time: self.last_played_time,
        }
    }
}

/// The ledger line of a record: id, play time in seconds and the time last
/// played, parted by tabs.
pub open spec fn tsv_line(s: StatsView) -> Seq<char> {
    s.id + seq!['\t'] + decimal(s.play_time_seconds as nat) + seq!['\t'] + stamp_text(
        s.last_played_time,
    )
}

/// The record that a ledger line stands for when its timestamp is read in
/// the given offset: at least three fields parted by tabs, of which the
/// second is a numeral that fits 32 bits and the third a timestamp.
pub open spec fn read_line(line: Seq<char>, offset_seconds: i32) -> Option<StatsView> {
    let fields = split(line, '\t');
    if fields.len() < 3 {
        None
    } else {
        let seconds = read_number(fields[1], u32::MAX as nat);
        let stamp = read_stamp(fields[2], offset_seconds);
        if seconds is Some && stamp is Some {
            Some(
                StatsView {
                    id: fields[0],
                    play_time_seconds: seconds->0 as u32,
                    last_played_time: stamp->0,
                },
            )
        } else {
            None
        }
    }
}

/// A record that may be missing, as mathematical values.
pub open spec fn maybe_view(r: Option<GameStats>) -> Option<StatsView> {
    match r {
        Some(stats) => Some(stats@),
        None => None,
    }
}

/// One component of a play time: the amount and its unit, or nothing for zero.
pub open spec fn part_text(amount: nat, unit: char) -> Seq<char> {
    if amount > 0 {
        decimal(amount).push(unit)
    } else {
        Seq::<char>::empty()
    }
}

/// A play time as hours, minutes and seconds, zero components left out.
pub open spec fn play_time_text(total: nat) -> Seq<char> {
    part_text(total / 3600, 'h') + part_text((total % 3600) / 60, 'm') + part_text(
        total % 60,
        's',
    )
}

/// Renders a play time given in seconds, such as `1h30m15s` or `45m`.
pub fn format_play_time(total_seconds: u64) -> (s: String)
    ensures
        s@ == play_time_text(total_seconds as nat),
{
    let hours: u64 = total_seconds / 3600;
    let minutes: u64 = (total_seconds - hours * 3600) / 60;
    let seconds: u64 = total_seconds - hours * 3600 - minutes * 60;
    assert(minutes == (total_seconds % 3600) / 60);
    assert(seconds == total_seconds % 60);
    proof {
        reveal_strlit("h");
        reveal_strlit("m");
        reveal_strlit("s");
    }
    let mut formatted = String::new();
    if hours > 0 {
        let amount = format_unsigned(hours);
        formatted.append(amount.as_str());
        formatted.append("h");
    }
    assert(formatted@ =~= part_text(hours as nat, 'h'));
    if minutes > 0 {
        let amount = format_unsigned(minutes);
        formatted.append(amount.as_str());
        formatted.append("m");
    }
    assert(formatted@ =~= part_text(hours as nat, 'h') + part_text(minutes as nat, 'm'));
    if seconds > 0 {
        let amount = format_unsigned(seconds);
        formatted.append(amount.as_str());
        formatted.append("s");
    }
    assert(formatted@ =~= play_time_text(total_seconds as nat));
    formatted
}

impl GameStats {
    /// The record of the game `id` with the given play time and time last played.
    pub fn new(id: String, play_time_seconds: u32, last_played_time: Timestamp) -> (stats:
        GameStats)
        ensures
            stats@ == (StatsView { id: id@, play_time_seconds, last_played_time }),
    {
        GameStats { id, play_time_seconds, last_played_time }
    }

    /// The id of the game.
    pub fn id(&self) -> (id: &str)
        ensures
            id@ == self@.id,
    {
        self.id.as_str()
    }

    /// The play time in seconds.
    pub fn play_time_seconds(&self) -> (seconds: u32)
        ensures
            seconds == self@.play_time_seconds,
    {
        self.play_time_seconds
    }

    /// When the game was played last.
    pub fn last_played_time(&self) -> (time: Timestamp)
        ensures
            time == self@.last_played_time,
    {
        self.last_played_time
    }

    /// Adds a session's seconds to the play time. The sum must fit 32 bits.
    pub fn add_time(&mut self, seconds: u32)
        requires
            old(self)@.play_time_seconds + seconds <= u32::MAX,
        ensures
            final(self)@ == (StatsView {
                play_time_seconds: (old(self)@.play_time_seconds + seconds) as u32,
                ..old(self)@
            }),
    {
        self.play_time_seconds = self.play_time_seconds + seconds;
    }

    /// Sets the time last played.
    pub fn update_last_played_time(&mut self, date_time: Timestamp)
        ensures
            final(self)@ == (StatsView { last_played_time: date_time, ..old(self)@ }),
    {
        self.last_played_time = date_time;
    }

    /// Writes the record as its ledger line.
    pub fn to_tsv(&self) -> (line: String)
        ensures
            line@ == tsv_line(self@),
    {
        let mut line = self.id.clone();
        proof {
            reveal_strlit("\t");
        }
        line.append("\t");
        let seconds = format_unsigned(self.play_time_seconds as u64);
        line.append(seconds.as_str());
        line.append("\t");
        let stamp = self.last_played_time.format();
        line.append(stamp.as_str());
        assert(line@ =~= tsv_line(self@));
        line
    }

    /// Reads a ledger line, with its timestamp meant in the given offset.
    pub fn from_tsv_in_offset(line: &str, offset_seconds: i32) -> (read: Option<GameStats>)
        ensures
            maybe_view(read) == read_line(line@, offset_seconds),
    {
        let fields = split_text(line, '\t');
        if fields.len() < 3 {
            return None;
        }
        assert(texts(fields@)[0] == fields@[0]@ && texts(fields@)[1] == fields@[1]@ && texts(
            fields@,
        )[2] == fields@[2]@);
        let seconds = parse_unsigned(fields[1].as_str(), u32::MAX);
        let stamp = Timestamp::parse(fields[2].as_str(), offset_seconds);
        match (seconds, stamp) {
            (Some(play_time_seconds), Some(last_played_time)) => Some(
                GameStats { id: fields[0].clone(), play_time_seconds, last_played_time },
            ),
            _ => None,
        }
    }

    /// Reads a ledger line, with its timestamp meant in the machine's local
    /// offset of this moment. Gives nothing for a line that is no record,
    /// and nothing where the machine cannot tell its offset.
    pub fn from_tsv(line: &str) -> (read: Option<GameStats>)
        ensures
            read matches Some(stats) ==> read_line(line@, stats@.last_played_time.offset_seconds)
                == Some(stats@),
            read_line(line@, 0) is None ==> read is None,
    {
        GameStats::from_tsv_in_local_offset(line, local_offset_seconds())
    }

    /// Reads a ledger line, given what the machine says of its local offset:
    /// with the timestamp meant in that offset where it names one, and
    /// nothing where it names none.
    pub fn from_tsv_in_local_offset(line: &str, local_offset: Option<i32>) -> (read: Option<
        GameStats,
    >)
        ensures
            maybe_view(read) == read_line_in(line@, local_offset),
    {
        match local_offset {
            Some(offset_seconds) => GameStats::from_tsv_in_offset(line, offset_seconds),
            None => None,
        }
    }

    /// Renders the play time, such as `1h30m15s` or `45m`.
    pub fn format_play_time(&self) -> (s: String)
        ensures
            s@ == play_time_text(self@.play_time_seconds as nat),
    {
        format_play_time(self.play_time_seconds as u64)
    }

    /// Renders the time last played as `YYYY-MM-DD HH:MM:SS`.
    pub fn format_last_played_time(&self) -> (s: String)
        ensures
            s@ == stamp_text(self@.last_played_time),
    {
        self.last_played_time.format()
    }
}

/// The record that a ledger line stands for when the offset of its
/// timestamp may be unknown: none where it is.
pub open spec fn read_line_in(line: Seq<char>, local_offset: Option<i32>) -> Option<StatsView> {
    match local_offset {
        Some(offset_seconds) => read_line(line, offset_seconds),
        None => None,
    }
}

/// Reading the ledger line of a record gives the record back, provided its
/// id holds no tab, its timestamp names an existing moment of a year that is
/// not negative, and the line is read in the timestamp's own offset.
pub proof fn lemma_line_round_trip(s: StatsView)
    requires
        !s.id.contains('\t'),
        s.last_played_time.is_valid(),
        s.last_played_time.year >= 0,
    ensures
        read_line(tsv_line(s), s.last_played_time.offset_seconds) == Some(s),
{
    let seconds = decimal(s.play_time_seconds as nat);
    let stamp = stamp_text(s.last_played_time);
    lemma_decimal_round_trip(s.play_time_seconds as nat);
    lemma_stamp_round_trip(s.last_played_time);
    lemma_split_three(s.id, seconds, stamp, '\t');
    let fields = split(tsv_line(s), '\t');
    assert(fields == seq![s.id, seconds, stamp]);
    assert(fields[0] == s.id && fields[1] == seconds && fields[2] == stamp);
}

/// The whole hours of a duration given in seconds, the whole minutes beyond
/// them, and the seconds beyond those.
pub fn duration_parts(total_seconds: u64) -> (parts: (u64, u64, u64))
    ensures
        parts.0 * 3600 + parts.1 * 60 + parts.2 == total_seconds,
        parts.1 < 60,
        parts.2 < 60,
{
    let hours: u64 = total_seconds / 3600;
    let minutes: u64 = (total_seconds - hours * 3600) / 60;
    let seconds: u64 = total_seconds - hours * 3600 - minutes * 60;
    (hours, minutes, seconds)
}

} // verus!
