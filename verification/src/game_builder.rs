//! Accumulates the options of one game and resolves them into a `Game`.

use crate::game::{Environment, Game, GameView};
use crate::parse_error::{ParseError, ParseErrorView};
use crate::text::{
    append_texts, decimal, format_signed, format_unsigned, push_text, same_text, signed_decimal,
    texts,
};
use crate::value::{texts_by_key, ConfigTable, ConfigValue, Settings};
use vstd::prelude::*;

verus! {

/// The options of one game as they stand before they are resolved.
pub struct GameBuilder<'a> {
    id: String,
    directories: &'a ConfigTable,
    settings: &'a Settings,
    name: Option<String>,
    dir: String,
    dir_prefix: String,
    command: Vec<String>,
    env: Environment,
    tags: Vec<String>,
    use_mangohud: Option<bool>,
    fps_limit: Option<i64>,
    use_gamescope: bool,
    use_vk: bool,
    installed: bool,
}

/// What a `GameBuilder` holds, as mathematical values. `directories` maps
/// each directory alias to the path it stands for.
pub ghost struct BuilderView {
    pub id: Seq<char>,
    pub directories: Map<Seq<char>, Seq<char>>,
    pub settings: Settings,
    pub name: Option<Seq<char>>,
    pub dir: Seq<char>,
    pub dir_prefix: Seq<char>,
    pub command: Seq<Seq<char>>,
    pub env: Map<Seq<char>, Seq<char>>,
    pub tags: Seq<Seq<char>>,
    pub use_mangohud: Option<bool>,
    pub fps_limit: Option<i64>,
    pub use_gamescope: bool,
    pub use_vk: bool,
    pub installed: bool,
}

impl<'a> View for GameBuilder<'a> {
    type V = BuilderView;

    closed spec fn view(&self) -> BuilderView {
        BuilderView {
            id: self.id@,
            directories: texts_by_key(self.directories@),
            settings: *self.settings,
            name: match self.name {
                Some(n) => Some(n@),
                None => None,
            },
            dir: self.dir@,
            dir_prefix: self.dir_prefix@,
            command: texts(self.command@),
            env: self.env@,
            tags: texts(self.tags@),
            use_mangohud: self.use_mangohud,
            fps_limit: self.fps_limit,
            use_gamescope: self.use_gamescope,
            use_vk: self.use_vk,
            installed: self.installed,
        }
    }
}

/// The first token of a command that runs under the Windows compatibility layer.
pub open spec fn wine_token() -> Seq<char> {
    "wine"@
}

/// The token that runs a command under the performance overlay.
pub open spec fn overlay_token() -> Seq<char> {
    "mangohud"@
}

/// The compositor's flag that switches its overlay integration on.
pub open spec fn overlay_flag() -> Seq<char> {
    "--mangoapp"@
}

/// The compositor's flag that announces a frame-rate limit.
pub open spec fn rate_flag() -> Seq<char> {
    "-r"@
}

/// The token that parts the compositor's own arguments from the command it runs.
pub open spec fn separator_token() -> Seq<char> {
    "--"@
}

/// The variable through which the overlay is configured.
pub open spec fn overlay_config_name() -> Seq<char> {
    "MANGOHUD_CONFIG"@
}

/// The variable that overrides the graphics libraries of the compatibility layer.
pub open spec fn override_name() -> Seq<char> {
    "WINEDLLOVERRIDES"@
}

/// The override that switches the native graphics API off.
pub open spec fn override_value() -> Seq<char> {
    "*d3d9,*d3d10,*d3d10_1,*d3d10core,*d3d11,*dxgi=b"@
}

/// The overlay's configuration text for a frame-rate limit.
pub open spec fn overlay_config_value(limit: i64) -> Seq<char> {
    "fps_limit="@ + signed_decimal(limit as int)
}

/// True when the command runs under the Windows compatibility layer.
pub open spec fn is_wine_command(command: Seq<Seq<char>>) -> bool {
    command.len() > 0 && command[0] == wine_token()
}

/// Whether the overlay is in use: as the option says where it was given, and
/// otherwise exactly for commands under the compatibility layer.
pub open spec fn overlay_enabled(b: BuilderView) -> bool {
    match b.use_mangohud {
        Some(choice) => choice,
        None => is_wine_command(b.command),
    }
}

/// `dir` placed under `prefix`: an absolute `dir` stands alone, otherwise the
/// two are joined with exactly one `/` between them.
pub open spec fn join_path(prefix: Seq<char>, dir: Seq<char>) -> Seq<char> {
    if dir.len() > 0 && dir[0] == '/' {
        dir
    } else if prefix.len() == 0 || prefix.last() == '/' {
        prefix + dir
    } else {
        prefix + seq!['/'] + dir
    }
}

/// The path that `dir` stands for: the aliased path where `dir` is an alias.
pub open spec fn resolved_dir(b: BuilderView) -> Seq<char> {
    if b.directories.contains_key(b.dir) {
        b.directories[b.dir]
    } else {
        b.dir
    }
}

/// True when a directory alias is named that the alias table does not define.
pub open spec fn alias_undefined(b: BuilderView) -> bool {
    b.dir_prefix.len() > 0 && !b.directories.contains_key(b.dir_prefix)
}

/// The directory to switch into before launch, if any. Meaningful where the
/// alias is defined.
pub open spec fn working_directory(b: BuilderView) -> Option<Seq<char>> {
    let prefix = if b.dir_prefix.len() > 0 {
        b.directories[b.dir_prefix]
    } else {
        Seq::<char>::empty()
    };
    let joined = join_path(prefix, resolved_dir(b));
    if joined.len() > 0 {
        Some(joined)
    } else {
        None
    }
}

/// The compositor's invocation up to its optional flags.
pub open spec fn compositor_prefix(settings: Settings) -> Seq<Seq<char>> {
    seq![
        "gamescope"@,
        "-W"@,
        decimal(settings.width as nat),
        "-H"@,
        decimal(settings.height as nat),
        "-f"@,
        "--force-grab-cursor"@,
    ]
}

/// The compositor's frame-rate flag and its value, where a limit is set.
pub open spec fn rate_arguments(b: BuilderView) -> Seq<Seq<char>> {
    match b.fps_limit {
        Some(limit) => seq![rate_flag(), signed_decimal(limit as int)],
        None => Seq::<Seq<char>>::empty(),
    }
}

/// The compositor's overlay flag, where the overlay is in use.
pub open spec fn overlay_arguments(b: BuilderView) -> Seq<Seq<char>> {
    if overlay_enabled(b) {
        seq![overlay_flag()]
    } else {
        Seq::<Seq<char>>::empty()
    }
}

/// The argument vector that launches the game: the base command inside the
/// compositor where that is switched on, else behind the overlay launcher
/// where the overlay is in use, else alone.
pub open spec fn launch_command(b: BuilderView) -> Seq<Seq<char>> {
    if b.settings.use_gamescope {
        compositor_prefix(b.settings) + rate_arguments(b) + overlay_arguments(b)
            + seq![separator_token()] + b.command
    } else if overlay_enabled(b) {
        seq![overlay_token()] + b.command
    } else {
        b.command
    }
}

/// The environment after the overlay's frame-rate limit has been added.
pub open spec fn environment_with_limit(b: BuilderView) -> Map<Seq<char>, Seq<char>> {
    match b.fps_limit {
        Some(limit) if overlay_enabled(b) => b.env.insert(
            overlay_config_name(),
            overlay_config_value(limit),
        ),
        _ => b.env,
    }
}

/// The environment of the launch.
pub open spec fn launch_environment(b: BuilderView) -> Map<Seq<char>, Seq<char>> {
    if b.use_vk {
        environment_with_limit(b)
    } else {
        environment_with_limit(b).insert(override_name(), override_value())
    }
}

/// What the options resolve to: a game, or the first of the errors that apply.
pub open spec fn resolve(b: BuilderView) -> Result<GameView, ParseErrorView> {
    if b.name is None {
        Err(ParseErrorView::MissingName(b.id))
    } else if b.command.len() == 0 {
        Err(ParseErrorView::MissingCommand(b.id))
    } else if alias_undefined(b) {
        Err(ParseErrorView::NoSuchDirectoryPrefix(b.id, b.dir_prefix))
    } else {
        Ok(
            GameView {
                id: b.id,
                name: b.name->0,
                dir: working_directory(b),
                command: launch_command(b),
                env: launch_environment(b),
                tags: b.tags,
                installed: b.installed,
            },
        )
    }
}

/// A compiled game or the error, as mathematical values.
pub open spec fn outcome(r: Result<Game, ParseError>) -> Result<GameView, ParseErrorView> {
    match r {
        Ok(game) => Ok(game@),
        Err(error) => Err(error@),
    }
}

/// Places `dir` under `prefix`.
pub fn join_directories(prefix: &str, dir: &str) -> (joined: String)
    ensures
        joined@ == join_path(prefix@, dir@),
{
    let prefix_len = prefix.unicode_len();
    let dir_len = dir.unicode_len();
    if dir_len > 0 && dir.get_char(0) == '/' {
        String::from_str(dir)
    } else if prefix_len == 0 || prefix.get_char(prefix_len - 1) == '/' {
        let mut joined = String::from_str(prefix);
        joined.append(dir);
        joined
    } else {
        let mut joined = String::from_str(prefix);
        joined.append("/");
        joined.append(dir);
        proof {
            reveal_strlit("/");
            assert("/"@ =~= seq!['/']);
        }
        joined
    }
}

impl<'a> GameBuilder<'a> {
    /// A builder for the game `id` with no option set: no name, no command,
    /// no directory, the overlay left to be inferred, installed.
    pub fn new(id: String, directories: &'a ConfigTable, settings: &'a Settings) -> (b:
        GameBuilder<'a>)
        ensures
            b@ == (BuilderView {
                id: id@,
                directories: texts_by_key(directories@),
                settings: *settings,
                name: None,
                dir: Seq::<char>::empty(),
                dir_prefix: Seq::<char>::empty(),
                command: Seq::<Seq<char>>::empty(),
                env: Map::<Seq<char>, Seq<char>>::empty(),
                tags: Seq::<Seq<char>>::empty(),
                use_mangohud: None,
                fps_limit: None,
                use_gamescope: false,
                use_vk: true,
                installed: true,
            }),
    {
        let b = GameBuilder {
            id,
            directories,
            settings,
            name: None,
            dir: String::new(),
            dir_prefix: String::new(),
            command: Vec::new(),
            env: Environment::new(),
            tags: Vec::new(),
            use_mangohud: None,
            fps_limit: None,
            use_gamescope: false,
            use_vk: true,
            installed: true,
        };
        assert(texts(b.command@) =~= Seq::<Seq<char>>::empty());
        assert(texts(b.tags@) =~= Seq::<Seq<char>>::empty());
        b
    }

    /// Sets the display name.
    pub fn name(self, name: String) -> (b: Self)
        ensures
            b@ == (BuilderView { name: Some(name@), ..self@ }),
    {
        let mut b = self;
        b.name = Some(name);
        b
    }

    /// Sets the base command, replacing an earlier one.
    pub fn command(self, command: Vec<String>) -> (b: Self)
        ensures
            b@ == (BuilderView { command: texts(command@), ..self@ }),
    {
        let mut b = self;
        b.command = command;
        b
    }

    /// Names the directory alias under which the directory lies.
    pub fn dir_prefix(self, dir_prefix: String) -> (b: Self)
        ensures
            b@ == (BuilderView { dir_prefix: dir_prefix@, ..self@ }),
    {
        let mut b = self;
        b.dir_prefix = dir_prefix;
        b
    }

    /// Sets the directory, or the name of a directory alias that stands for it.
    pub fn dir(self, dir: String) -> (b: Self)
        ensures
            b@ == (BuilderView { dir: dir@, ..self@ }),
    {
        let mut b = self;
        b.dir = dir;
        b
    }

    /// Sets the environment, replacing an earlier one.
    pub fn env(self, env: Environment) -> (b: Self)
        ensures
            b@ == (BuilderView { env: env@, ..self@ }),
    {
        let mut b = self;
        b.env = env;
        b
    }

    /// Sets the tags, replacing earlier ones.
    pub fn tags(self, tags: Vec<String>) -> (b: Self)
        ensures
            b@ == (BuilderView { tags: texts(tags@), ..self@ }),
    {
        let mut b = self;
        b.tags = tags;
        b
    }

    /// Says whether the overlay is in use, in place of the inferred choice.
    pub fn mangohud(self, use_mangohud: bool) -> (b: Self)
        ensures
            b@ == (BuilderView { use_mangohud: Some(use_mangohud), ..self@ }),
    {
        let mut b = self;
        b.use_mangohud = Some(use_mangohud);
        b
    }

    /// True when the command set so far runs under the Windows compatibility layer.
    pub fn is_wine(&self) -> (wine: bool)
        ensures
            wine == is_wine_command(self@.command),
    {
        self.command.len() > 0 && same_text(self.command[0].as_str(), "wine")
    }

    /// Sets the frame-rate limit.
    pub fn fps_limit(self, limit: i64) -> (b: Self)
        ensures
            b@ == (BuilderView { fps_limit: Some(limit), ..self@ }),
    {
        let mut b = self;
        b.fps_limit = Some(limit);
        b
    }

    /// Notes that the game asks for the compositor. Whether the compositor
    /// wraps the command is for the settings alone to say.
    pub fn use_gamescope(self) -> (b: Self)
        ensures
            b@ == (BuilderView { use_gamescope: true, ..self@ }),
    {
        let mut b = self;
        b.use_gamescope = true;
        b
    }

    /// Says whether the native graphics API is in use.
    pub fn use_vk(self, b: bool) -> (built: Self)
        ensures
            built@ == (BuilderView { use_vk: b, ..self@ }),
    {
        let mut built = self;
        built.use_vk = b;
        built
    }

    /// Marks the game as not installed.
    pub fn not_installed(self) -> (b: Self)
        ensures
            b@ == (BuilderView { installed: false, ..self@ }),
    {
        let mut b = self;
        b.installed = false;
        b
    }

    /// The argument vector of the launch.
    fn layered_command(&self, use_mangohud: bool) -> (argv: Vec<String>)
        requires
            use_mangohud == overlay_enabled(self@),
        ensures
            texts(argv@) == launch_command(self@),
    {
        let mut argv: Vec<String> = Vec::new();
        assert(texts(argv@) =~= Seq::<Seq<char>>::empty());
        if self.settings.use_gamescope {
            push_text(&mut argv, "gamescope");
            push_text(&mut argv, "-W");
            let width = format_unsigned(self.settings.width as u64);
            push_text(&mut argv, width.as_str());
            push_text(&mut argv, "-H");
            let height = format_unsigned(self.settings.height as u64);
            push_text(&mut argv, height.as_str());
            push_text(&mut argv, "-f");
            push_text(&mut argv, "--force-grab-cursor");
            assert(texts(argv@) =~= compositor_prefix(self@.settings));
            if let Some(limit) = self.fps_limit {
                push_text(&mut argv, "-r");
                let rate = format_signed(limit);
                push_text(&mut argv, rate.as_str());
            }
            assert(texts(argv@) =~= compositor_prefix(self@.settings) + rate_arguments(self@));
            if use_mangohud {
                push_text(&mut argv, "--mangoapp");
            }
            assert(texts(argv@) =~= compositor_prefix(self@.settings) + rate_arguments(self@)
                + overlay_arguments(self@));
            push_text(&mut argv, "--");
            append_texts(&mut argv, &self.command);
            assert(texts(argv@) =~= launch_command(self@));
        } else if use_mangohud {
            push_text(&mut argv, "mangohud");
            append_texts(&mut argv, &self.command);
            assert(texts(argv@) =~= launch_command(self@));
        } else {
            append_texts(&mut argv, &self.command);
            assert(texts(argv@) =~= launch_command(self@));
        }
        argv
    }

    /// Resolves the options into a game: checks that a name and a command
    /// are there, resolves the directory, wraps the command and completes
    /// the environment.
    pub fn build(self) -> (r: Result<Game, ParseError>)
        ensures
            outcome(r) == resolve(self@),
            r matches Ok(game) ==> game.command@.len() > 0,
    {
        proof {
            lemma_built_command_is_not_empty(self@);
        }
        let name = match &self.name {
            None => {
                return Err(ParseError::MissingName(self.id));
            },
            Some(name) => name.clone(),
        };
        if self.command.len() == 0 {
            return Err(ParseError::MissingCommand(self.id));
        }
        let is_wine = self.is_wine();
        let dir_prefix = if !self.dir_prefix.as_str().is_empty() {
            match self.directories.get(self.dir_prefix.as_str()) {
                Some(ConfigValue::Text(s)) => s.clone(),
                _ => {
                    return Err(ParseError::NoSuchDirectoryPrefix(self.id, self.dir_prefix));
                },
            }
        } else {
            String::new()
        };
        let dir = match self.directories.get(self.dir.as_str()) {
            Some(ConfigValue::Text(d)) => d.clone(),
            _ => self.dir.clone(),
        };
        let game_dir = join_directories(dir_prefix.as_str(), dir.as_str());
        let use_mangohud = match self.use_mangohud {
            Some(choice) => choice,
            None => is_wine,
        };
        let command = self.layered_command(use_mangohud);
        let ghost view = self@;
        let mut env = self.env;
        if use_mangohud {
            if let Some(limit) = self.fps_limit {
                let mut value = String::from_str("fps_limit=");
                let digits = format_signed(limit);
                value.append(digits.as_str());
                env.insert(String::from_str("MANGOHUD_CONFIG"), value);
            }
        }
        assert(env@ == environment_with_limit(view));
        if !self.use_vk {
            env.insert(
                String::from_str("WINEDLLOVERRIDES"),
                String::from_str("*d3d9,*d3d10,*d3d10_1,*d3d10core,*d3d11,*dxgi=b"),
            );
        }
        let dir = if !game_dir.as_str().is_empty() {
            Some(game_dir)
        } else {
            None
        };
        Ok(
            Game {
                id: self.id,
                name,
                command,
                dir,
                env,
                tags: self.tags,
                installed: self.installed,
            },
        )
    }
}

/// Where the overlay option was left unset, the overlay is in use exactly when
/// the first token of the command is the compatibility layer's launcher; with
/// the compositor off, the overlay launcher then stands before the command,
/// and otherwise the command stands alone.
pub proof fn lemma_overlay_follows_compatibility_layer(b: BuilderView)
    requires
        b.command.len() > 0,
        b.use_mangohud is None,
    ensures
        overlay_enabled(b) == (b.command[0] == wine_token()),
        !b.settings.use_gamescope ==> launch_command(b) == if b.command[0] == wine_token() {
            seq![overlay_token()] + b.command
        } else {
            b.command
        },
{
}

/// With a frame-rate limit set, the overlay in use and the compositor off,
/// the launch environment sets the overlay's configuration variable to
/// `fps_limit=` followed by the limit in decimal.
pub proof fn lemma_limit_reaches_overlay(b: BuilderView, limit: i64)
    requires
        b.fps_limit == Some(limit),
        overlay_enabled(b),
        !b.settings.use_gamescope,
    ensures
        launch_environment(b).contains_key(overlay_config_name()),
        launch_environment(b)[overlay_config_name()] == "fps_limit="@ + signed_decimal(
            limit as int,
        ),
        resolve(b) matches Ok(game) ==> game.env.contains_key(overlay_config_name())
            && game.env[overlay_config_name()] == overlay_config_value(limit),
{
    reveal_strlit("MANGOHUD_CONFIG");
    reveal_strlit("WINEDLLOVERRIDES");
    assert(overlay_config_name().len() != override_name().len());
}

/// With the compositor on and a frame-rate limit set, the flag `-r` and the
/// limit in decimal come directly after the compositor's fixed prefix, and
/// the overlay flag, where there is one, directly after them.
pub proof fn lemma_rate_follows_compositor_prefix(b: BuilderView, limit: i64)
    requires
        b.settings.use_gamescope,
        b.fps_limit == Some(limit),
    ensures
        launch_command(b).len() >= 10,
        launch_command(b).subrange(0, 7) == compositor_prefix(b.settings),
        launch_command(b)[7] == rate_flag(),
        launch_command(b)[8] == signed_decimal(limit as int),
        overlay_enabled(b) ==> launch_command(b)[9] == overlay_flag(),
        !overlay_enabled(b) ==> launch_command(b)[9] == separator_token(),
        resolve(b) matches Ok(game) ==> game.command == launch_command(b),
{
    assert(launch_command(b).subrange(0, 7) =~= compositor_prefix(b.settings));
}

/// With the compositor on, the separator `--` stands directly before the
/// base command, which closes the argument vector.
pub proof fn lemma_separator_precedes_command(b: BuilderView)
    requires
        b.settings.use_gamescope,
    ensures
        launch_command(b).len() >= 8 + b.command.len(),
        launch_command(b)[launch_command(b).len() - b.command.len() - 1] == separator_token(),
        launch_command(b).subrange(
            launch_command(b).len() - b.command.len(),
            launch_command(b).len() as int,
        ) == b.command,
        resolve(b) matches Ok(game) ==> game.command == launch_command(b),
{
    let argv = launch_command(b);
    assert(argv.subrange(argv.len() - b.command.len(), argv.len() as int) =~= b.command);
}

/// A game with a name and a command whose directory alias is not defined
/// fails with its id and that alias, whatever its directory is.
pub proof fn lemma_undefined_alias_is_reported(b: BuilderView)
    requires
        b.name is Some,
        b.command.len() > 0,
        b.dir_prefix.len() > 0,
        !b.directories.contains_key(b.dir_prefix),
    ensures
        resolve(b) == Err::<GameView, ParseErrorView>(
            ParseErrorView::NoSuchDirectoryPrefix(b.id, b.dir_prefix),
        ),
{
}

/// The argument vector of a game that was built is never empty, and ends
/// with the base command.
pub proof fn lemma_built_command_is_not_empty(b: BuilderView)
    ensures
        resolve(b) matches Ok(game) ==> game.command.len() >= b.command.len() > 0,
{
}

/// The options resolve to a game exactly when a name is set, the command is
/// not empty and no directory alias is named that is not defined; the game
/// then has the launch's argument vector, environment and directory.
pub proof fn lemma_resolves_exactly_when_complete(b: BuilderView)
    ensures
        resolve(b) is Ok <==> (b.name is Some && b.command.len() > 0 && !alias_undefined(b)),
        resolve(b) matches Ok(game) ==> game.command == launch_command(b) && game.env
            == launch_environment(b) && game.dir == working_directory(b) && game.id == b.id
            && game.tags == b.tags && game.installed == b.installed && b.name == Some(game.name),
{
}

} // verus!
