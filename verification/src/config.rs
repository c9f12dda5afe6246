//! Compiles a configuration document into the catalog of games: each key of
//! a game's table is handed to the option of that name, and the options
//! gathered are resolved into the game.

use crate::game::{Environment, Game, GameView};
use crate::game_builder::{outcome, resolve, BuilderView, GameBuilder};
use crate::parse_error::{ParseError, ParseErrorView};
use crate::text::{append_texts, push_text, same_text, texts};
use crate::value::{
    lemma_list_view, lemma_table_view, list_view, lookup, texts_by_key, ConfigEntry, ConfigTable,
    ConfigValue, EntryView, Settings, ValueView,
};
use vstd::prelude::*;

verus! {

/// The width of the compositor's window where the settings give none.
pub const DEFAULT_WIDTH: u32 = 1280;

/// The height of the compositor's window where the settings give none.
pub const DEFAULT_HEIGHT: u32 = 720;

/// The value type of the `toml` crate, handed on without a look inside.
#[verifier::external_type_specification]
#[verifier::external_body]
pub struct ExTomlValue(toml::Value);

/// The words into which `shell_words::split` parts a command line, in much
/// the way a Unix shell does, with quotes removed and nothing expanded; none
/// for a line with an unmatched quote.
pub uninterp spec fn shell_split(line: Seq<char>) -> Option<Seq<Seq<char>>>;

/// What the TOML parser of the `toml` crate makes of a text: the document's
/// root table, or the message of its error.
pub uninterp spec fn toml_document(text: Seq<char>) -> Result<ValueView, Seq<char>>;

/// What a value of the `toml` crate holds.
pub uninterp spec fn toml_value(value: toml::Value) -> ValueView;

/// Calls `shell_words::split`, which parts a command line into words in
/// much the way a Unix shell does and fails on an unmatched quote. The
/// result is the one that `shell_split` names.
#[verifier::external_body]
fn split_words(line: &str) -> (words: Option<Vec<String>>)
    ensures
        shell_split(line@) == match words {
            Some(w) => Some(texts(w@)),
            None => None,
        },
{
    shell_words::split(line).ok()
}

/// Parses a document with the `FromStr` impl of `toml::Table`, and hands the
/// root table on as a `toml::Value`, or the error as its message. The result
/// is the one that `toml_document` names.
#[verifier::external_body]
pub(crate) fn parse_toml(text: &str) -> (r: Result<toml::Value, String>)
    ensures
        toml_document(text@) == match r {
            Ok(value) => Ok::<ValueView, Seq<char>>(toml_value(value)),
            Err(message) => Err::<ValueView, Seq<char>>(message@),
        },
{
    match text.parse::<toml::Table>() {
        Ok(table) => Ok(toml::Value::Table(table)),
        Err(error) => Err(error.to_string()),
    }
}

/// Copies a `toml::Value` into a `ConfigValue`, variant by variant: strings,
/// integers and booleans as they are, arrays item by item, tables entry by
/// entry in the table's own order, floats and dates as `Other`.
#[verifier::external_body]
pub(crate) fn read_value(value: &toml::Value) -> (r: ConfigValue)
    ensures
        r@ == toml_value(*value),
{
    match value {
        toml::Value::String(s) => ConfigValue::Text(s.clone()),
        toml::Value::Integer(i) => ConfigValue::Integer(*i),
        toml::Value::Boolean(b) => ConfigValue::Boolean(*b),
        toml::Value::Array(items) => ConfigValue::List(items.iter().map(read_value).collect()),
        toml::Value::Table(table) => ConfigValue::Table(
            ConfigTable {
                entries: table.iter().map(
                    |(k, v)| ConfigEntry { key: k.clone(), value: read_value(v) },
                ).collect(),
            },
        ),
        _ => ConfigValue::Other,
    }
}

/// The texts among the items of a list, in order.
pub open spec fn text_items(items: Seq<ValueView>) -> Seq<Seq<char>>
    decreases items.len(),
{
    if items.len() == 0 {
        Seq::<Seq<char>>::empty()
    } else {
        match items.last() {
            ValueView::Text(s) => text_items(items.drop_last()).push(s),
            _ => text_items(items.drop_last()),
        }
    }
}

/// The entries of a table whose values are texts, as a map; of two entries
/// under one key the later counts.
pub open spec fn text_entries(entries: Seq<EntryView>) -> Map<Seq<char>, Seq<char>>
    decreases entries.len(),
{
    if entries.len() == 0 {
        Map::<Seq<char>, Seq<char>>::empty()
    } else {
        match entries.last().value {
            ValueView::Text(s) => text_entries(entries.drop_last()).insert(entries.last().key, s),
            _ => text_entries(entries.drop_last()),
        }
    }
}

/// `cmd`: a command line, parted into words as a shell would.
pub open spec fn cmd_option(b: BuilderView, value: Option<ValueView>) -> BuilderView {
    match value {
        Some(ValueView::Text(line)) => match shell_split(line) {
            Some(words) => BuilderView { command: words, ..b },
            None => b,
        },
        _ => b,
    }
}

/// `wine_exe`: a program and its arguments, run under the compatibility layer.
pub open spec fn wine_exe_option(b: BuilderView, value: Option<ValueView>) -> BuilderView {
    match value {
        Some(ValueView::Text(line)) => match shell_split(line) {
            Some(words) => BuilderView { command: seq!["wine"@] + words, ..b },
            None => b,
        },
        _ => b,
    }
}

/// `dosbox_config`: a configuration file for the DOS emulator.
pub open spec fn dosbox_option(b: BuilderView, value: Option<ValueView>) -> BuilderView {
    match value {
        Some(ValueView::Text(file)) => BuilderView {
            command: seq!["dosbox"@, "-conf"@, file],
            ..b
        },
        _ => b,
    }
}

/// `scummvm_id`: the name of a game of the script interpreter.
pub open spec fn scummvm_option(b: BuilderView, value: Option<ValueView>) -> BuilderView {
    match value {
        Some(ValueView::Text(id)) => BuilderView { command: seq!["scummvm"@, id], ..b },
        _ => b,
    }
}

/// `name`: the display name.
pub open spec fn name_option(b: BuilderView, value: Option<ValueView>) -> BuilderView {
    match value {
        Some(ValueView::Text(name)) => BuilderView { name: Some(name), ..b },
        _ => b,
    }
}

/// `dir`: the directory, or the name of a directory alias.
pub open spec fn dir_option(b: BuilderView, value: Option<ValueView>) -> BuilderView {
    match value {
        Some(ValueView::Text(dir)) => BuilderView { dir, ..b },
        _ => b,
    }
}

/// `dir_prefix`: the name of a directory alias; an empty name is none.
pub open spec fn dir_prefix_option(b: BuilderView, value: Option<ValueView>) -> BuilderView {
    match value {
        Some(ValueView::Text(alias)) if alias.len() > 0 => BuilderView {
            dir_prefix: alias,
            ..b
        },
        _ => b,
    }
}

/// `env`: a table of variables; entries that are no texts are left out.
pub open spec fn env_option(b: BuilderView, value: Option<ValueView>) -> BuilderView {
    match value {
        Some(ValueView::Table(table)) => BuilderView {
            env: text_entries(table),
            ..b
        },
        _ => b,
    }
}

/// `tags`: a list of tags; items that are no texts are left out.
pub open spec fn tags_option(b: BuilderView, value: Option<ValueView>) -> BuilderView {
    match value {
        Some(ValueView::List(items)) => BuilderView { tags: text_items(items), ..b },
        _ => b,
    }
}

/// `use_mangohud`: whether the overlay is in use.
pub open spec fn use_mangohud_option(b: BuilderView, value: Option<ValueView>) -> BuilderView {
    match value {
        Some(ValueView::Boolean(choice)) => BuilderView { use_mangohud: Some(choice), ..b },
        _ => b,
    }
}

/// `fps_limit`: the frame-rate limit.
pub open spec fn fps_limit_option(b: BuilderView, value: Option<ValueView>) -> BuilderView {
    match value {
        Some(ValueView::Integer(limit)) => BuilderView { fps_limit: Some(limit), ..b },
        _ => b,
    }
}

/// `installed`: only `false` says anything.
pub open spec fn installed_option(b: BuilderView, value: Option<ValueView>) -> BuilderView {
    match value {
        Some(ValueView::Boolean(false)) => BuilderView { installed: false, ..b },
        _ => b,
    }
}

/// `use_gamescope`: only `true` says anything.
pub open spec fn use_gamescope_option(b: BuilderView, value: Option<ValueView>) -> BuilderView {
    match value {
        Some(ValueView::Boolean(true)) => BuilderView { use_gamescope: true, ..b },
        _ => b,
    }
}

/// `use_vk`: whether the native graphics API is in use.
pub open spec fn use_vk_option(b: BuilderView, value: Option<ValueView>) -> BuilderView {
    match value {
        Some(ValueView::Boolean(choice)) => BuilderView { use_vk: choice, ..b },
        _ => b,
    }
}

/// True for the keys that a game's table may hold.
pub open spec fn is_option(key: Seq<char>) -> bool {
    key == "cmd"@ || key == "dir"@ || key == "dir_prefix"@ || key == "dosbox_config"@ || key
        == "env"@ || key == "fps_limit"@ || key == "installed"@ || key == "name"@ || key
        == "scummvm_id"@ || key == "tags"@ || key == "use_gamescope"@ || key == "use_mangohud"@
        || key == "use_vk"@ || key == "wine_exe"@
}

/// The options after the one named `key` has read its value from the table.
/// A key that names no option changes nothing.
pub open spec fn with_option(b: BuilderView, key: Seq<char>, table: Seq<EntryView>)
    -> BuilderView {
    let value = lookup(table, key);
    if key == "cmd"@ {
        cmd_option(b, value)
    } else if key == "dir"@ {
        dir_option(b, value)
    } else if key == "dir_prefix"@ {
        dir_prefix_option(b, value)
    } else if key == "dosbox_config"@ {
        dosbox_option(b, value)
    } else if key == "env"@ {
        env_option(b, value)
    } else if key == "fps_limit"@ {
        fps_limit_option(b, value)
    } else if key == "installed"@ {
        installed_option(b, value)
    } else if key == "name"@ {
        name_option(b, value)
    } else if key == "scummvm_id"@ {
        scummvm_option(b, value)
    } else if key == "tags"@ {
        tags_option(b, value)
    } else if key == "use_gamescope"@ {
        use_gamescope_option(b, value)
    } else if key == "use_mangohud"@ {
        use_mangohud_option(b, value)
    } else if key == "use_vk"@ {
        use_vk_option(b, value)
    } else if key == "wine_exe"@ {
        wine_exe_option(b, value)
    } else {
        b
    }
}

/// The options after the first `count` keys of the table have been applied,
/// in the table's order.
pub open spec fn with_options(b: BuilderView, table: Seq<EntryView>, count: int) -> BuilderView
    decreases count,
{
    if count <= 0 || count > table.len() {
        b
    } else {
        with_option(with_options(b, table, count - 1), table[count - 1].key, table)
    }
}

/// The first key among the first `count` keys of the table that names no option.
pub open spec fn first_unknown(table: Seq<EntryView>, count: int) -> Option<Seq<char>>
    decreases count,
{
    if count <= 0 || count > table.len() {
        None
    } else {
        match first_unknown(table, count - 1) {
            Some(key) => Some(key),
            None => if is_option(table[count - 1].key) {
                None
            } else {
                Some(table[count - 1].key)
            },
        }
    }
}

/// The options of a game before any key has been applied.
pub open spec fn fresh_options(
    id: Seq<char>,
    directories: Map<Seq<char>, Seq<char>>,
    settings: Settings,
) -> BuilderView {
    BuilderView {
        id,
        directories,
        settings,
        name: None,
        dir: Seq::<char>::empty(),
        dir_prefix: Seq::<char>::empty(),
        command: Seq::<Seq<char>>::empty(),
        env: Map::<Seq<char>, Seq<char>>::empty(),
        tags: Seq::<Seq<char>>::empty(),
        use_mangohud: None,
        fps_limit: None,
        use_gamescope: false,
        use_vk: true,
        installed: true,
    }
}

/// What a game's table compiles to: the error of the first key that names
/// no option, or else what the options resolve to after every key has been
/// applied in the table's order.
pub open spec fn compiled_game(
    id: Seq<char>,
    table: Seq<EntryView>,
    directories: Map<Seq<char>, Seq<char>>,
    settings: Settings,
) -> Result<GameView, ParseErrorView> {
    match first_unknown(table, table.len() as int) {
        Some(key) => Err(ParseErrorView::UnrecognizedOption(key)),
        None => resolve(
            with_options(fresh_options(id, directories, settings), table, table.len() as int),
        ),
    }
}

/// The command that runs a program under the compatibility layer.
pub fn wine_command(words: &Vec<String>) -> (command: Vec<String>)
    ensures
        texts(command@) == seq!["wine"@] + texts(words@),
{
    let mut command: Vec<String> = Vec::new();
    push_text(&mut command, "wine");
    append_texts(&mut command, words);
    assert(texts(command@) =~= seq!["wine"@] + texts(words@));
    command
}

/// The texts among the items of a list.
pub fn texts_of_list(items: &Vec<ConfigValue>) -> (found: Vec<String>)
    ensures
        texts(found@) == text_items(list_view(items@)),
{
    let mut found: Vec<String> = Vec::new();
    let mut i: usize = 0;
    let ghost all = list_view(items@);
    assert(all.subrange(0, 0) =~= Seq::<ValueView>::empty());
    assert(texts(found@) =~= Seq::<Seq<char>>::empty());
    while i < items.len()
        invariant
            i <= items.len(),
            all == list_view(items@),
            texts(found@) == text_items(all.subrange(0, i as int)),
        decreases items.len() - i,
    {
        assert(all.subrange(0, i + 1).drop_last() =~= all.subrange(0, i as int));
        assert(all.subrange(0, i + 1).last() == items@[i as int]@);
        if let ConfigValue::Text(s) = &items[i] {
            push_text(&mut found, s.as_str());
        }
        i += 1;
    }
    assert(all.subrange(0, items.len() as int) =~= all);
    found
}

/// The entries of a table whose values are texts, as an environment.
pub fn environment_of_table(table: &ConfigTable) -> (env: Environment)
    ensures
        env@ == text_entries(table@),
{
    let mut env = Environment::new();
    let mut i: usize = 0;
    assert(table@.subrange(0, 0) =~= Seq::<EntryView>::empty());
    while i < table.entries.len()
        invariant
            i <= table.entries.len(),
            env@ == text_entries(table@.subrange(0, i as int)),
        decreases table.entries.len() - i,
    {
        assert(table@.subrange(0, i + 1).drop_last() =~= table@.subrange(0, i as int));
        assert(table@.subrange(0, i + 1).last() == table.entries@[i as int]@);
        if let ConfigValue::Text(s) = &table.entries[i].value {
            env.insert(table.entries[i].key.clone(), s.clone());
        }
        i += 1;
    }
    assert(table@.subrange(0, table.entries.len() as int) =~= table@);
    env
}

/// Applies the option `name`.
pub fn parse_name<'a>(builder: GameBuilder<'a>, game_config: &ConfigTable) -> (b: GameBuilder<'a>)
    ensures
        b@ == name_option(builder@, lookup(game_config@, "name"@)),
{
    if let Some(ConfigValue::Text(game_name)) = game_config.get("name") {
        builder.name(game_name.clone())
    } else {
        builder
    }
}

/// Applies the option `scummvm_id`.
pub fn parse_scummvm_id<'a>(builder: GameBuilder<'a>, game_config: &ConfigTable) -> (b:
    GameBuilder<'a>)
    ensures
        b@ == scummvm_option(builder@, lookup(game_config@, "scummvm_id"@)),
{
    if let Some(ConfigValue::Text(scummvm_id)) = game_config.get("scummvm_id") {
        let mut command: Vec<String> = Vec::new();
        push_text(&mut command, "scummvm");
        push_text(&mut command, scummvm_id.as_str());
        assert(texts(command@) =~= seq!["scummvm"@, scummvm_id@]);
        builder.command(command)
    } else {
        builder
    }
}

/// Applies the option `wine_exe`. A line with an unmatched quote sets nothing.
pub fn parse_wine_exe<'a>(builder: GameBuilder<'a>, game_config: &ConfigTable) -> (b: GameBuilder<
    'a,
>)
    ensures
        b@ == wine_exe_option(builder@, lookup(game_config@, "wine_exe"@)),
{
    if let Some(ConfigValue::Text(wine_exe)) = game_config.get("wine_exe") {
        match split_words(wine_exe.as_str()) {
            Some(words) => builder.command(wine_command(&words)),
            None => builder,
        }
    } else {
        builder
    }
}

/// Applies the option `dosbox_config`.
pub fn parse_dosbox_conf<'a>(builder: GameBuilder<'a>, game_config: &ConfigTable) -> (b:
    GameBuilder<'a>)
    ensures
        b@ == dosbox_option(builder@, lookup(game_config@, "dosbox_config"@)),
{
    if let Some(ConfigValue::Text(dosbox_conf_file)) = game_config.get("dosbox_config") {
        let mut command: Vec<String> = Vec::new();
        push_text(&mut command, "dosbox");
        push_text(&mut command, "-conf");
        push_text(&mut command, dosbox_conf_file.as_str());
        assert(texts(command@) =~= seq!["dosbox"@, "-conf"@, dosbox_conf_file@]);
        builder.command(command)
    } else {
        builder
    }
}

/// Applies the option `dir_prefix`.
pub fn parse_dir_prefix<'a>(builder: GameBuilder<'a>, game_config: &ConfigTable) -> (b:
    GameBuilder<'a>)
    ensures
        b@ == dir_prefix_option(builder@, lookup(game_config@, "dir_prefix"@)),
{
    let dir_prefix = game_config.get_str("dir_prefix");
    if !dir_prefix.is_empty() {
        builder.dir_prefix(String::from_str(dir_prefix))
    } else {
        builder
    }
}

/// Applies the option `cmd`. A line with an unmatched quote sets nothing.
pub fn parse_cmd<'a>(builder: GameBuilder<'a>, game_config: &ConfigTable) -> (b: GameBuilder<'a>)
    ensures
        b@ == cmd_option(builder@, lookup(game_config@, "cmd"@)),
{
    if let Some(ConfigValue::Text(cmd)) = game_config.get("cmd") {
        match split_words(cmd.as_str()) {
            Some(command_parts) => builder.command(command_parts),
            None => builder,
        }
    } else {
        builder
    }
}

/// Applies the option `dir`.
pub fn parse_dir<'a>(builder: GameBuilder<'a>, game_config: &ConfigTable) -> (b: GameBuilder<'a>)
    ensures
        b@ == dir_option(builder@, lookup(game_config@, "dir"@)),
{
    if let Some(ConfigValue::Text(s)) = game_config.get("dir") {
        builder.dir(s.clone())
    } else {
        builder
    }
}

/// Applies the option `env`.
pub fn parse_env<'a>(builder: GameBuilder<'a>, game_config: &ConfigTable) -> (b: GameBuilder<'a>)
    ensures
        b@ == env_option(builder@, lookup(game_config@, "env"@)),
{
    if let Some(ConfigValue::Table(tbl)) = game_config.get("env") {
        proof {
            lemma_table_view(*tbl);
        }
        builder.env(environment_of_table(tbl))
    } else {
        builder
    }
}

/// Applies the option `tags`.
pub fn parse_tags<'a>(builder: GameBuilder<'a>, game_config: &ConfigTable) -> (b: GameBuilder<'a>)
    ensures
        b@ == tags_option(builder@, lookup(game_config@, "tags"@)),
{
    if let Some(ConfigValue::List(tags_array)) = game_config.get("tags") {
        proof {
            lemma_list_view(*tags_array);
        }
        builder.tags(texts_of_list(tags_array))
    } else {
        builder
    }
}

/// Applies the option `use_mangohud`.
pub fn parse_use_mangohud<'a>(builder: GameBuilder<'a>, game_config: &ConfigTable) -> (b:
    GameBuilder<'a>)
    ensures
        b@ == use_mangohud_option(builder@, lookup(game_config@, "use_mangohud"@)),
{
    if let Some(ConfigValue::Boolean(choice)) = game_config.get("use_mangohud") {
        builder.mangohud(*choice)
    } else {
        builder
    }
}

/// Applies the option `fps_limit`.
pub fn parse_fps_limit<'a>(builder: GameBuilder<'a>, game_config: &ConfigTable) -> (b:
    GameBuilder<'a>)
    ensures
        b@ == fps_limit_option(builder@, lookup(game_config@, "fps_limit"@)),
{
    if let Some(ConfigValue::Integer(i)) = game_config.get("fps_limit") {
        builder.fps_limit(*i)
    } else {
        builder
    }
}

/// Applies the option `installed`.
pub fn parse_installed<'a>(builder: GameBuilder<'a>, game_config: &ConfigTable) -> (b:
    GameBuilder<'a>)
    ensures
        b@ == installed_option(builder@, lookup(game_config@, "installed"@)),
{
    if let Some(ConfigValue::Boolean(installed)) = game_config.get("installed") {
        if !*installed {
            builder.not_installed()
        } else {
            builder
        }
    } else {
        builder
    }
}

/// Applies the option `use_gamescope`.
pub fn parse_use_gamescope<'a>(builder: GameBuilder<'a>, game_config: &ConfigTable) -> (b:
    GameBuilder<'a>)
    ensures
        b@ == use_gamescope_option(builder@, lookup(game_config@, "use_gamescope"@)),
{
    if let Some(ConfigValue::Boolean(choice)) = game_config.get("use_gamescope") {
        if *choice {
            builder.use_gamescope()
        } else {
            builder
        }
    } else {
        builder
    }
}

/// Applies the option `use_vk`.
pub fn parse_use_vk<'a>(builder: GameBuilder<'a>, game_config: &ConfigTable) -> (b: GameBuilder<
    'a,
>)
    ensures
        b@ == use_vk_option(builder@, lookup(game_config@, "use_vk"@)),
{
    if let Some(ConfigValue::Boolean(choice)) = game_config.get("use_vk") {
        builder.use_vk(*choice)
    } else {
        builder
    }
}

/// Hands the table to the option named `key`. Fails for a key that names no option.
pub fn apply_option<'a>(builder: GameBuilder<'a>, key: &str, game_config: &ConfigTable) -> (r:
    Result<GameBuilder<'a>, ParseError>)
    ensures
        r is Ok <==> is_option(key@),
        r matches Ok(b) ==> b@ == with_option(builder@, key@, game_config@),
        r matches Err(error) ==> error@ == ParseErrorView::UnrecognizedOption(key@),
{
    if same_text(key, "cmd") {
        Ok(parse_cmd(builder, game_config))
    } else if same_text(key, "dir") {
        Ok(parse_dir(builder, game_config))
    } else if same_text(key, "dir_prefix") {
        Ok(parse_dir_prefix(builder, game_config))
    } else if same_text(key, "dosbox_config") {
        Ok(parse_dosbox_conf(builder, game_config))
    } else if same_text(key, "env") {
        Ok(parse_env(builder, game_config))
    } else if same_text(key, "fps_limit") {
        Ok(parse_fps_limit(builder, game_config))
    } else if same_text(key, "installed") {
        Ok(parse_installed(builder, game_config))
    } else if same_text(key, "name") {
        Ok(parse_name(builder, game_config))
    } else if same_text(key, "scummvm_id") {
        Ok(parse_scummvm_id(builder, game_config))
    } else if same_text(key, "tags") {
        Ok(parse_tags(builder, game_config))
    } else if same_text(key, "use_gamescope") {
        Ok(parse_use_gamescope(builder, game_config))
    } else if same_text(key, "use_mangohud") {
        Ok(parse_use_mangohud(builder, game_config))
    } else if same_text(key, "use_vk") {
        Ok(parse_use_vk(builder, game_config))
    } else if same_text(key, "wine_exe") {
        Ok(parse_wine_exe(builder, game_config))
    } else {
        Err(ParseError::UnrecognizedOption(String::from_str(key)))
    }
}

/// Compiles one game's table: applies every key in the table's order,
/// failing at the first key that names no option, and resolves the options.
pub fn parse_game_config(
    game_id: &str,
    game_config: &ConfigTable,
    directories: &ConfigTable,
    settings: &Settings,
) -> (r: Result<Game, ParseError>)
    ensures
        outcome(r) == compiled_game(
            game_id@,
            game_config@,
            texts_by_key(directories@),
            *settings,
        ),
{
    let mut builder = GameBuilder::new(String::from_str(game_id), directories, settings);
    let mut i: usize = 0;
    while i < game_config.entries.len()
        invariant
            i <= game_config.entries.len(),
            first_unknown(game_config@, i as int) is None,
            builder@ == with_options(
                fresh_options(game_id@, texts_by_key(directories@), *settings),
                game_config@,
                i as int,
            ),
        decreases game_config.entries.len() - i,
    {
        assert(game_config@[i as int].key == game_config.entries@[i as int].key@);
        match apply_option(builder, game_config.entries[i].key.as_str(), game_config) {
            Err(error) => {
                proof {
                    lemma_first_unknown_stays(game_config@, i + 1, game_config@.len() as int);
                }
                return Err(error);
            },
            Ok(next) => {
                builder = next;
            },
        }
        i += 1;
    }
    builder.build()
}

/// A key that names no option among the first keys is still the first such
/// key when more keys are looked at.
pub proof fn lemma_first_unknown_stays(table: Seq<EntryView>, count: int, more: int)
    requires
        0 <= count <= more <= table.len(),
        first_unknown(table, count) is Some,
    ensures
        first_unknown(table, more) == first_unknown(table, count),
    decreases more - count,
{
    if count < more {
        lemma_first_unknown_stays(table, count, more - 1);
    }
}

/// A game's table that holds a key which names no option fails to compile,
/// and the error names the first such key, whatever the other keys are.
pub proof fn lemma_unknown_key_is_reported(
    id: Seq<char>,
    table: Seq<EntryView>,
    directories: Map<Seq<char>, Seq<char>>,
    settings: Settings,
    at: int,
)
    requires
        0 <= at < table.len(),
        !is_option(table[at].key),
        forall|j: int| 0 <= j < at ==> is_option(#[trigger] table[j].key),
    ensures
        compiled_game(id, table, directories, settings) == Err::<GameView, ParseErrorView>(
            ParseErrorView::UnrecognizedOption(table[at].key),
        ),
{
    lemma_all_known(table, at);
    lemma_first_unknown_stays(table, at + 1, table.len() as int);
}

/// Where the first keys all name options, none of them is reported.
pub proof fn lemma_all_known(table: Seq<EntryView>, count: int)
    requires
        0 <= count <= table.len(),
        forall|j: int| 0 <= j < count ==> is_option(#[trigger] table[j].key),
    ensures
        first_unknown(table, count) is None,
    decreases count,
{
    if count > 0 {
        lemma_all_known(table, count - 1);
    }
}

/// True for the keys whose options set the base command.
pub open spec fn sets_command(key: Seq<char>) -> bool {
    key == "cmd"@ || key == "dosbox_config"@ || key == "scummvm_id"@ || key == "wine_exe"@
}

/// Two different keys may be applied in either order, unless both set the
/// base command: then the one applied last counts.
pub proof fn lemma_options_commute(
    b: BuilderView,
    first: Seq<char>,
    second: Seq<char>,
    table: Seq<EntryView>,
)
    requires
        first != second,
        !(sets_command(first) && sets_command(second)),
    ensures
        with_option(with_option(b, first, table), second, table) == with_option(
            with_option(b, second, table),
            first,
            table,
        ),
{
}

} // verus!
