//! The catalog of games: compiled from a configuration document, searched by
//! id, and filtered by tag queries.

use crate::config::{
    compiled_game, parse_game_config, parse_toml, read_value, toml_document, DEFAULT_HEIGHT,
    DEFAULT_WIDTH,
};
use crate::game::{listing_separator, Game, GameError, GameView};
use crate::order::{insert_distinct, is_ascending, lemma_ascending_is_unique};
use crate::parse_error::{ParseError, ParseErrorView};
use crate::tag::{
    lemma_plain_tag_selects_itself, parse_query, satisfied, slice_texts, tag_set, TagGroup,
    TagView,
};
use crate::text::{same_text, texts};
use crate::value::{
    lemma_table_view, lookup, texts_by_key, ConfigTable, ConfigValue, EntryView, Settings,
    ValueView,
};
use vstd::prelude::*;

verus! {

/// The games of a configuration, in the order of the document's table.
/// Where two games have one id, the later is the one that counts.
pub struct Games {
    pub games: Vec<Game>,
}

/// The views of a sequence of games.
pub open spec fn game_views(games: Seq<Game>) -> Seq<GameView> {
    Seq::new(games.len(), |i: int| games[i]@)
}

impl View for Games {
    type V = Seq<GameView>;

    open spec fn view(&self) -> Seq<GameView> {
        game_views(self.games@)
    }
}

/// The last of the games with the given id.
pub open spec fn latest_game(games: Seq<GameView>, id: Seq<char>) -> Option<GameView>
    decreases games.len(),
{
    if games.len() == 0 {
        None
    } else if games.last().id == id {
        Some(games.last())
    } else {
        latest_game(games.drop_last(), id)
    }
}

/// True when one of the games has the given id.
pub open spec fn has_id(games: Seq<GameView>, id: Seq<char>) -> bool {
    exists|k: int| 0 <= k < games.len() && (#[trigger] games[k]).id == id
}

/// True when `ids` are the ids of the games, each once, in ascending order.
pub open spec fn is_id_list(games: Seq<GameView>, ids: Seq<Seq<char>>) -> bool {
    is_ascending(ids) && forall|id: Seq<char>| ids.contains(id) <==> has_id(games, id)
}

/// The ids of the games, each once, in ascending order.
pub open spec fn id_list(games: Seq<GameView>) -> Seq<Seq<char>> {
    choose|ids: Seq<Seq<char>>| is_id_list(games, ids)
}

/// A game that may be missing, as mathematical values.
pub open spec fn maybe_game(found: Option<&Game>) -> Option<GameView> {
    match found {
        Some(game) => Some(game@),
        None => None,
    }
}

/// The size that an integer gives: the integer itself where it lies from 0
/// to the greatest 32-bit number, and `default`, as if it were left out,
/// where it does not.
pub open spec fn size_or(i: i64, default: u32) -> u32 {
    if 0 <= i <= u32::MAX {
        i as u32
    } else {
        default
    }
}

/// True when the table switches the compositor on: by a boolean under
/// `use_gamescope`, or, where there is none, by one under `use_compositor`.
pub open spec fn compositor_chosen(table: Seq<EntryView>) -> bool {
    match lookup(table, "use_gamescope"@) {
        Some(ValueView::Boolean(b)) => b,
        _ => match lookup(table, "use_compositor"@) {
            Some(ValueView::Boolean(b)) => b,
            _ => false,
        },
    }
}

/// The display settings of a `settings` table: its `width` and `height`,
/// 1280 by 720 where it leaves them out or gives no size, and whether it
/// switches the compositor on.
pub open spec fn settings_of_table(table: Seq<EntryView>) -> Settings {
    Settings {
        width: match lookup(table, "width"@) {
            Some(ValueView::Integer(i)) => size_or(i, DEFAULT_WIDTH),
            _ => DEFAULT_WIDTH,
        },
        height: match lookup(table, "height"@) {
            Some(ValueView::Integer(i)) => size_or(i, DEFAULT_HEIGHT),
            _ => DEFAULT_HEIGHT,
        },
        use_gamescope: compositor_chosen(table),
    }
}

/// The display settings of a document: those of its `settings` table, or,
/// where there is no such table, 1280 by 720 and no compositor.
pub open spec fn settings_of(root: Seq<EntryView>) -> Settings {
    match lookup(root, "settings"@) {
        Some(ValueView::Table(table)) => settings_of_table(table),
        _ => Settings { width: DEFAULT_WIDTH, height: DEFAULT_HEIGHT, use_gamescope: false },
    }
}

/// The directory aliases of a document: the texts of its `directories` table.
pub open spec fn directories_of(root: Seq<EntryView>) -> Map<Seq<char>, Seq<char>> {
    match lookup(root, "directories"@) {
        Some(ValueView::Table(table)) => texts_by_key(table),
        _ => Map::<Seq<char>, Seq<char>>::empty(),
    }
}

/// What the first `count` entries of the `games` table compile to: the
/// games in the table's order, or the error of the first entry that fails.
pub open spec fn compiled_games(
    games: Seq<EntryView>,
    count: int,
    directories: Map<Seq<char>, Seq<char>>,
    settings: Settings,
) -> Result<Seq<GameView>, ParseErrorView>
    decreases count,
{
    if count <= 0 || count > games.len() {
        Ok(Seq::<GameView>::empty())
    } else {
        match compiled_games(games, count - 1, directories, settings) {
            Err(error) => Err(error),
            Ok(front) => match games[count - 1].value {
                ValueView::Table(table) => match compiled_game(
                    games[count - 1].key,
                    table,
                    directories,
                    settings,
                ) {
                    Ok(game) => Ok(front.push(game)),
                    Err(error) => Err(error),
                },
                _ => Err(ParseErrorView::GameNotTable),
            },
        }
    }
}

/// What a document compiles to.
pub open spec fn catalog(root: Seq<EntryView>) -> Result<Seq<GameView>, ParseErrorView> {
    match lookup(root, "games"@) {
        Some(ValueView::Table(games)) => compiled_games(
            games,
            games.len() as int,
            directories_of(root),
            settings_of(root),
        ),
        _ => Err(ParseErrorView::MissingGameTable),
    }
}

/// What a text compiles to: the error of the parser where it is no
/// document, else what the document compiles to.
pub open spec fn catalog_of_text(text: Seq<char>) -> Result<Seq<GameView>, ParseErrorView> {
    match toml_document(text) {
        Err(message) => Err(ParseErrorView::TomlError(message)),
        Ok(ValueView::Table(root)) => catalog(root),
        Ok(_) => Err(ParseErrorView::MissingGameTable),
    }
}

/// A compiled catalog or the error, as mathematical values.
pub open spec fn catalog_outcome(r: Result<Games, ParseError>) -> Result<
    Seq<GameView>,
    ParseErrorView,
> {
    match r {
        Ok(games) => Ok(games@),
        Err(error) => Err(error@),
    }
}

/// The size that an integer gives, or `default` where it gives none.
pub fn read_size(i: i64, default: u32) -> (size: u32)
    ensures
        size == size_or(i, default),
{
    if 0 <= i && i <= 4294967295 {
        i as u32
    } else {
        default
    }
}

/// Reads the display settings of a document.
pub fn read_settings(root: &ConfigTable) -> (settings: Settings)
    ensures
        settings == settings_of(root@),
{
    match root.get("settings") {
        Some(ConfigValue::Table(table)) => {
            proof {
                lemma_table_view(*table);
            }
            let width = match table.get("width") {
                Some(ConfigValue::Integer(i)) => read_size(*i, DEFAULT_WIDTH),
                _ => DEFAULT_WIDTH,
            };
            let height = match table.get("height") {
                Some(ConfigValue::Integer(i)) => read_size(*i, DEFAULT_HEIGHT),
                _ => DEFAULT_HEIGHT,
            };
            let use_gamescope = match table.get("use_gamescope") {
                Some(ConfigValue::Boolean(b)) => *b,
                _ => match table.get("use_compositor") {
                    Some(ConfigValue::Boolean(b)) => *b,
                    _ => false,
                },
            };
            Settings { width, height, use_gamescope }
        },
        _ => Settings { width: DEFAULT_WIDTH, height: DEFAULT_HEIGHT, use_gamescope: false },
    }
}

/// Compiles a document into the catalog of its games. Fails with the error
/// of the first game that fails, and where the `games` table is missing.
pub fn compile_document(root: &ConfigTable) -> (r: Result<Games, ParseError>)
    ensures
        catalog_outcome(r) == catalog(root@),
{
    let settings = read_settings(root);
    let no_directories = ConfigTable::new();
    let directories = match root.get("directories") {
        Some(ConfigValue::Table(table)) => {
            proof {
                lemma_table_view(*table);
            }
            table
        },
        _ => {
            assert(texts_by_key(no_directories@) =~= Map::<Seq<char>, Seq<char>>::empty());
            &no_directories
        },
    };
    let games_config = match root.get("games") {
        Some(ConfigValue::Table(table)) => {
            proof {
                lemma_table_view(*table);
            }
            table
        },
        _ => {
            return Err(ParseError::MissingGameTable);
        },
    };
    let mut games: Vec<Game> = Vec::new();
    let mut i: usize = 0;
    assert(game_views(games@) =~= Seq::<GameView>::empty());
    while i < games_config.entries.len()
        invariant
            i <= games_config.entries.len(),
            lookup(root@, "games"@) == Some(ValueView::Table(games_config@)),
            texts_by_key(directories@) == directories_of(root@),
            settings == settings_of(root@),
            compiled_games(games_config@, i as int, directories_of(root@), settings_of(root@))
                == Ok::<Seq<GameView>, ParseErrorView>(game_views(games@)),
        decreases games_config.entries.len() - i,
    {
        let entry = &games_config.entries[i];
        assert(games_config@[i as int] == entry@);
        match &entry.value {
            ConfigValue::Table(game_config) => {
                proof {
                    lemma_table_view(*game_config);
                }
                match parse_game_config(
                    entry.key.as_str(),
                    game_config,
                    directories,
                    &settings,
                ) {
                    Ok(game) => {
                        assert(game_views(games@.push(game)) =~= game_views(games@).push(game@));
                        games.push(game);
                    },
                    Err(error) => {
                        proof {
                            assert(compiled_games(
                                games_config@,
                                i + 1,
                                directories_of(root@),
                                settings_of(root@),
                            ) == Err::<Seq<GameView>, ParseErrorView>(error@));
                            lemma_compile_error_stays(
                                games_config@,
                                i + 1,
                                games_config@.len() as int,
                                directories_of(root@),
                                settings_of(root@),
                            );
                        }
                        return Err(error);
                    },
                }
            },
            _ => {
                proof {
                    assert(compiled_games(
                        games_config@,
                        i + 1,
                        directories_of(root@),
                        settings_of(root@),
                    ) == Err::<Seq<GameView>, ParseErrorView>(ParseErrorView::GameNotTable));
                    lemma_compile_error_stays(
                        games_config@,
                        i + 1,
                        games_config@.len() as int,
                        directories_of(root@),
                        settings_of(root@),
                    );
                }
                return Err(ParseError::GameNotTable);
            },
        }
        i += 1;
    }
    Ok(Games { games })
}

/// The error of the first entries is the error of the whole table.
pub proof fn lemma_compile_error_stays(
    games: Seq<EntryView>,
    count: int,
    more: int,
    directories: Map<Seq<char>, Seq<char>>,
    settings: Settings,
)
    requires
        0 <= count <= more <= games.len(),
        compiled_games(games, count, directories, settings) is Err,
    ensures
        compiled_games(games, more, directories, settings) == compiled_games(
            games,
            count,
            directories,
            settings,
        ),
    decreases more - count,
{
    if count < more {
        lemma_compile_error_stays(games, count, more - 1, directories, settings);
    }
}

/// Compiles the text of a configuration document into the catalog of its games.
pub fn parse_config(config_content: &str) -> (r: Result<Games, ParseError>)
    ensures
        catalog_outcome(r) == catalog_of_text(config_content@),
{
    match parse_toml(config_content) {
        Err(message) => Err(ParseError::TomlError(message)),
        Ok(value) => match read_value(&value) {
            ConfigValue::Table(root) => {
                proof {
                    lemma_table_view(root);
                }
                compile_document(&root)
            },
            _ => Err(ParseError::MissingGameTable),
        },
    }
}

/// True when the game's tags, or else its id taken as its only tag, satisfy the query.
pub open spec fn selects(query: Seq<TagView>, game: GameView) -> bool {
    satisfied(query, tag_set(game.tags)) || satisfied(query, tag_set(seq![game.id]))
}

/// True when at least one of the queries selects the game.
pub open spec fn is_selected(game: GameView, queries: Seq<Seq<char>>) -> bool {
    exists|i: int| 0 <= i < queries.len() && selects(parse_query(#[trigger] queries[i]), game)
}

/// True when at least one of the queries selects the game, by its tags or by its id.
pub fn game_matches_tags(game: &Game, tag_groups_raw: &[String]) -> (matched: bool)
    ensures
        matched == is_selected(game@, texts(tag_groups_raw@)),
{
    let mut tags: Vec<&str> = Vec::new();
    let mut k: usize = 0;
    while k < game.tags.len()
        invariant
            k <= game.tags.len(),
            tags@.len() == k,
            forall|j: int| 0 <= j < k ==> (#[trigger] tags@[j])@ == game.tags@[j]@,
        decreases game.tags.len() - k,
    {
        tags.push(game.tags[k].as_str());
        k += 1;
    }
    let mut own: Vec<&str> = Vec::new();
    own.push(game.id.as_str());
    assert(slice_texts(tags@) =~= game@.tags);
    assert(slice_texts(own@) =~= seq![game@.id]);
    let mut i: usize = 0;
    while i < tag_groups_raw.len()
        invariant
            i <= tag_groups_raw.len(),
            slice_texts(tags@) == game@.tags,
            slice_texts(own@) == seq![game@.id],
            forall|j: int|
                0 <= j < i ==> !selects(parse_query(#[trigger] texts(tag_groups_raw@)[j]), game@),
        decreases tag_groups_raw.len() - i,
    {
        let group = TagGroup::parse(tag_groups_raw[i].as_str());
        assert(texts(tag_groups_raw@)[i as int] == tag_groups_raw@[i as int]@);
        if group.matches(tags.as_slice()) || group.matches(own.as_slice()) {
            return true;
        }
        i += 1;
    }
    false
}

/// True when the game may be listed or drawn for the queries: it is
/// installed, and there is no query or one of them selects it.
pub open spec fn is_eligible(game: GameView, queries: Seq<Seq<char>>) -> bool {
    game.installed && (queries.len() == 0 || is_selected(game, queries))
}

/// True when no later game has the id of the game at `place`: where two
/// games have one id, the later is the one that counts.
pub open spec fn is_latest(games: Seq<GameView>, place: int) -> bool {
    forall|j: int| place < j < games.len() ==> (#[trigger] games[j]).id != games[place].id
}

/// True when the game at `place` counts for its id and is eligible.
pub open spec fn is_drawable(games: Seq<GameView>, queries: Seq<Seq<char>>, place: int) -> bool {
    0 <= place < games.len() && is_latest(games, place) && is_eligible(games[place], queries)
}

/// The places among the first `count` of the games that may be drawn, in order.
pub open spec fn eligible_places(games: Seq<GameView>, queries: Seq<Seq<char>>, count: int)
    -> Seq<int>
    decreases count,
{
    if count <= 0 || count > games.len() {
        Seq::<int>::empty()
    } else if is_drawable(games, queries, count - 1) {
        eligible_places(games, queries, count - 1).push(count - 1)
    } else {
        eligible_places(games, queries, count - 1)
    }
}

/// The eligible places are exactly the places of the games that may be drawn.
pub proof fn lemma_eligible_places(games: Seq<GameView>, queries: Seq<Seq<char>>, count: int)
    requires
        0 <= count <= games.len(),
    ensures
        forall|k: int|
            0 <= k < eligible_places(games, queries, count).len() ==> 0 <= (
            #[trigger] eligible_places(games, queries, count)[k]) < count && is_drawable(
                games,
                queries,
                eligible_places(games, queries, count)[k],
            ),
        forall|p: int|
            0 <= p < count && #[trigger] is_drawable(games, queries, p) ==> eligible_places(
                games,
                queries,
                count,
            ).contains(p),
    decreases count,
{
    if count > 0 {
        lemma_eligible_places(games, queries, count - 1);
        let front = eligible_places(games, queries, count - 1);
        let all = eligible_places(games, queries, count);
        assert forall|p: int| 0 <= p < count && #[trigger] is_drawable(
            games,
            queries,
            p,
        ) implies all.contains(p) by {
            if p < count - 1 {
                assert(front.contains(p));
                let k = choose|k: int| 0 <= k < front.len() && front[k] == p;
                assert(all[k] == p);
            } else {
                assert(all[all.len() - 1] == p);
            }
        }
    }
}

/// The view of a sequence of places.
pub open spec fn places(found: Seq<usize>) -> Seq<int> {
    Seq::new(found.len(), |i: int| found[i] as int)
}

/// Asks the thread's generator of the `rand` crate, through
/// `Rng::random_range`, for a number from 0 up to but not including `bound`.
/// Which one it gives is left open.
#[verifier::external_body]
fn random_below(bound: usize) -> (index: usize)
    requires
        bound > 0,
    ensures
        index < bound,
{
    rand::Rng::random_range(&mut rand::rng(), 0..bound)
}

impl Games {
    /// The game with the given id; of several, the last.
    pub fn find(&self, id: &str) -> (found: Option<&Game>)
        ensures
            maybe_game(found) == latest_game(self@, id@),
            found is Some <==> has_id(self@, id@),
            found matches Some(game) ==> game@.id == id@ && exists|k: int|
                0 <= k < self.games@.len() && #[trigger] self.games@[k] == *game,
    {
        let mut i: usize = self.games.len();
        assert(self@.subrange(0, i as int) =~= self@);
        while i > 0
            invariant
                i <= self.games.len(),
                latest_game(self@, id@) == latest_game(self@.subrange(0, i as int), id@),
                forall|j: int| i <= j < self.games@.len() ==> self.games@[j]@.id != id@,
            decreases i,
        {
            i -= 1;
            assert(self@.subrange(0, i + 1).drop_last() =~= self@.subrange(0, i as int));
            if same_text(self.games[i].id.as_str(), id) {
                assert(self@[i as int].id == id@);
                return Some(&self.games[i]);
            }
        }
        assert forall|k: int| 0 <= k < self@.len() implies (#[trigger] self@[k]).id != id@ by {
            assert(self.games@[k]@.id != id@);
        }
        None
    }

    /// True when no later game has the id of the game at `place`.
    fn is_latest_at(&self, place: usize) -> (latest: bool)
        requires
            place < self.games.len(),
        ensures
            latest == is_latest(self@, place as int),
    {
        let mut j: usize = place + 1;
        while j < self.games.len()
            invariant
                place < j <= self.games.len(),
                forall|k: int| place < k < j ==> (#[trigger] self@[k]).id != self@[place as int].id,
            decreases self.games.len() - j,
        {
            if same_text(self.games[j].id.as_str(), self.games[place].id.as_str()) {
                assert(self@[j as int].id == self@[place as int].id);
                return false;
            }
            j += 1;
        }
        true
    }

    /// The places of the games that may be listed or drawn: they are
    /// installed, selected by one of the queries where there are queries,
    /// and not followed by a game with the same id.
    pub fn eligible(&self, args: &[String]) -> (found: Vec<usize>)
        ensures
            places(found@) == eligible_places(self@, texts(args@), self@.len() as int),
    {
        let mut found: Vec<usize> = Vec::new();
        let mut i: usize = 0;
        assert(places(found@) =~= Seq::<int>::empty());
        while i < self.games.len()
            invariant
                i <= self.games.len(),
                places(found@) == eligible_places(self@, texts(args@), i as int),
            decreases self.games.len() - i,
        {
            let game = &self.games[i];
            if game.installed && (args.len() == 0 || game_matches_tags(game, args))
                && self.is_latest_at(i) {
                assert(places(found@.push(i)) =~= places(found@).push(i as int));
                found.push(i);
            }
            i += 1;
        }
        found
    }

    /// One of the games that may be drawn, picked at random; none where
    /// there is no such game.
    pub fn random(&self, args: &[String]) -> (drawn: Option<&Game>)
        ensures
            drawn is None <==> forall|k: int|
                0 <= k < self@.len() ==> !#[trigger] is_drawable(self@, texts(args@), k),
            drawn matches Some(game) ==> exists|k: int|
                #[trigger] is_drawable(self@, texts(args@), k) && self.games@[k] == *game,
    {
        let found = self.eligible(args);
        proof {
            lemma_eligible_places(self@, texts(args@), self@.len() as int);
        }
        if found.len() == 0 {
            assert forall|k: int| 0 <= k < self@.len() implies !#[trigger] is_drawable(
                self@,
                texts(args@),
                k,
            ) by {
                if is_drawable(self@, texts(args@), k) {
                    assert(places(found@).contains(k));
                }
            }
            return None;
        }
        let index = random_below(found.len());
        let place = found[index];
        assert(places(found@)[index as int] == place);
        assert(is_drawable(self@, texts(args@), place as int));
        Some(&self.games[place])
    }

    /// The game that the arguments of a request to play name: the one with
    /// the id given first.
    pub fn game_to_play<'a>(&'a self, args: &'a [String]) -> (r: Result<&'a Game, GameError<'a>>)
        ensures
            args@.len() == 0 ==> r matches Err(GameError::NoGameId),
            args@.len() > 0 ==> match r {
                Ok(game) => latest_game(self@, args@[0]@) == Some(game@) && exists|k: int|
                    0 <= k < self.games@.len() && #[trigger] self.games@[k] == *game,
                Err(GameError::NoSuchGame(id)) => id@ == args@[0]@ && !has_id(self@, args@[0]@),
                Err(_) => false,
            },
    {
        if args.len() == 0 {
            return Err(GameError::NoGameId);
        }
        let game_id = args[0].as_str();
        match self.find(game_id) {
            Some(game) => Ok(game),
            None => Err(GameError::NoSuchGame(game_id)),
        }
    }
}

/// The line that lists a game: its id, a dash, its name.
pub open spec fn listed_line(game: GameView) -> Seq<char> {
    game.id + listing_separator() + game.name
}

/// The lines of the eligible games among those with the first `count` of
/// the given ids, in the order of the ids.
pub open spec fn listing(
    games: Seq<GameView>,
    queries: Seq<Seq<char>>,
    ids: Seq<Seq<char>>,
    count: int,
) -> Seq<Seq<char>>
    decreases count,
{
    if count <= 0 || count > ids.len() {
        Seq::<Seq<char>>::empty()
    } else {
        match latest_game(games, ids[count - 1]) {
            Some(game) if is_eligible(game, queries) => listing(
                games,
                queries,
                ids,
                count - 1,
            ).push(listed_line(game)),
            _ => listing(games, queries, ids, count - 1),
        }
    }
}

/// The ids of the games, each once, in ascending order.
pub fn game_ids(games: &Games) -> (ids: Vec<String>)
    ensures
        texts(ids@) == id_list(games@),
{
    let mut ids: Vec<String> = Vec::new();
    let mut g: usize = 0;
    assert(games@.subrange(0, 0) =~= Seq::<GameView>::empty());
    while g < games.games.len()
        invariant
            g <= games.games.len(),
            is_id_list(games@.subrange(0, g as int), texts(ids@)),
        decreases games.games.len() - g,
    {
        let ghost before = texts(ids@);
        let ghost done = games@.subrange(0, g as int);
        let ghost next = games@.subrange(0, g + 1);
        insert_distinct(&mut ids, games.games[g].id.as_str());
        proof {
            let id = games@[g as int].id;
            assert forall|x: Seq<char>| texts(ids@).contains(x) <==> has_id(next, x) by {
                if has_id(done, x) {
                    let k = choose|k: int| 0 <= k < done.len() && (#[trigger] done[k]).id == x;
                    assert(next[k].id == x);
                }
                if x == id {
                    assert(next[g as int].id == x);
                }
                if has_id(next, x) {
                    let k = choose|k: int| 0 <= k < next.len() && (#[trigger] next[k]).id == x;
                    if k < g {
                        assert(done[k].id == x);
                    }
                }
            }
        }
        g += 1;
    }
    proof {
        assert(games@.subrange(0, games@.len() as int) =~= games@);
        assert(is_id_list(games@, texts(ids@)));
        lemma_ascending_is_unique(texts(ids@), id_list(games@));
    }
    ids
}

/// Lists the installed games that one of the queries selects, or all
/// installed games where there is no query, in the ascending order of
/// their ids.
pub fn list_games(games: &Games, args: &[String]) -> (lines: Vec<String>)
    ensures
        texts(lines@) == listing(
            games@,
            texts(args@),
            id_list(games@),
            id_list(games@).len() as int,
        ),
{
    let ids = game_ids(games);
    let mut lines: Vec<String> = Vec::new();
    let mut i: usize = 0;
    assert(texts(lines@) =~= Seq::<Seq<char>>::empty());
    while i < ids.len()
        invariant
            i <= ids.len(),
            texts(ids@) == id_list(games@),
            texts(lines@) == listing(games@, texts(args@), id_list(games@), i as int),
        decreases ids.len() - i,
    {
        assert(texts(ids@)[i as int] == ids@[i as int]@);
        if let Some(game) = games.find(ids[i].as_str()) {
            if game.installed && (args.len() == 0 || game_matches_tags(game, args)) {
                let line = game.format();
                assert(texts(lines@.push(line)) =~= texts(lines@).push(line@));
                lines.push(line);
            }
        }
        i += 1;
    }
    lines
}

/// True when `tag` is a tag of one of the first `count` games.
pub open spec fn is_tag_of(games: Seq<GameView>, count: int, tag: Seq<char>) -> bool {
    exists|k: int| 0 <= k < count && k < games.len() && (#[trigger] games[k]).tags.contains(tag)
}

/// Every tag that some game of the catalog has, each once, in ascending order.
pub fn all_tags(games: &Games) -> (found: Vec<String>)
    ensures
        is_ascending(texts(found@)),
        forall|tag: Seq<char>|
            texts(found@).contains(tag) <==> is_tag_of(games@, games@.len() as int, tag),
{
    let mut found: Vec<String> = Vec::new();
    let mut g: usize = 0;
    while g < games.games.len()
        invariant
            g <= games.games.len(),
            is_ascending(texts(found@)),
            forall|tag: Seq<char>|
                texts(found@).contains(tag) <==> is_tag_of(games@, g as int, tag),
        decreases games.games.len() - g,
    {
        let game = &games.games[g];
        let mut t: usize = 0;
        while t < game.tags.len()
            invariant
                t <= game.tags.len(),
                g < games.games.len(),
                *game == games.games@[g as int],
                is_ascending(texts(found@)),
                forall|tag: Seq<char>|
                    texts(found@).contains(tag) <==> (is_tag_of(games@, g as int, tag) || exists|
                        u: int,
                    |
                        0 <= u < t && #[trigger] game@.tags[u] == tag),
            decreases game.tags.len() - t,
        {
            let tag = game.tags[t].as_str();
            assert(game@.tags[t as int] == tag@);
            let ghost earlier = texts(found@);
            insert_distinct(&mut found, tag);
            proof {
                assert forall|x: Seq<char>|
                    texts(found@).contains(x) <==> (is_tag_of(games@, g as int, x) || exists|
                        u: int,
                    |
                        0 <= u < t + 1 && #[trigger] game@.tags[u] == x) by {
                    if earlier.contains(x) && !is_tag_of(games@, g as int, x) {
                        let u = choose|u: int| 0 <= u < t && #[trigger] game@.tags[u] == x;
                        assert(0 <= u < t + 1 && game@.tags[u] == x);
                    }
                    if x == tag@ {
                        assert(0 <= t < t + 1 && game@.tags[t as int] == x);
                    }
                    if exists|u: int| 0 <= u < t + 1 && #[trigger] game@.tags[u] == x {
                        let u = choose|u: int| 0 <= u < t + 1 && #[trigger] game@.tags[u] == x;
                        if u < t {
                            assert(0 <= u < t && game@.tags[u] == x);
                        }
                    }
                }
            }
            t += 1;
        }
        proof {
            assert forall|tag: Seq<char>|
                texts(found@).contains(tag) <==> is_tag_of(games@, g + 1, tag) by {
                if is_tag_of(games@, g + 1, tag) && !is_tag_of(games@, g as int, tag) {
                    let k = choose|k: int|
                        0 <= k < g + 1 && k < games@.len() && (#[trigger] games@[k]).tags.contains(
                            tag,
                        );
                    assert(k == g);
                    let u = choose|u: int| 0 <= u < game@.tags.len() && game@.tags[u] == tag;
                    assert(game@.tags[u] == tag);
                }
                if exists|u: int| 0 <= u < t && #[trigger] game@.tags[u] == tag {
                    let u = choose|u: int| 0 <= u < t && #[trigger] game@.tags[u] == tag;
                    assert(games@[g as int].tags.contains(tag));
                }
                if is_tag_of(games@, g as int, tag) {
                    let k = choose|k: int|
                        0 <= k < g && k < games@.len() && (#[trigger] games@[k]).tags.contains(tag);
                    assert(games@[k].tags.contains(tag));
                }
            }
        }
        g += 1;
    }
    found
}

/// A game is selected by the query that is its own id, whatever its tags
/// are, provided the id holds no comma and does not begin with `!`.
pub proof fn lemma_id_selects_game(game: GameView)
    requires
        !game.id.contains(','),
        game.id.len() == 0 || game.id[0] != '!',
    ensures
        is_selected(game, seq![game.id]),
{
    lemma_plain_tag_selects_itself(game.id);
    assert(selects(parse_query(seq![game.id][0]), game));
}

} // verus!
