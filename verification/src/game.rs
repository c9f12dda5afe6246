//! The resolved description of one launchable game, and its environment.

use crate::text::{same_text, texts};
use vstd::prelude::*;

verus! {

/// One environment variable: a name and the value it is set to.
pub struct EnvVar {
    pub name: String,
    pub value: String,
}

/// Environment variables laid over the inherited environment at launch: a
/// map from names to values. No name is held twice.
pub struct Environment {
    vars: Vec<EnvVar>,
}

/// The value that the latest entry for `name` gives it, if any entry does.
pub open spec fn latest_value(vars: Seq<EnvVar>, name: Seq<char>) -> Option<Seq<char>>
    decreases vars.len(),
{
    if vars.len() == 0 {
        None
    } else if vars.last().name@ == name {
        Some(vars.last().value@)
    } else {
        latest_value(vars.drop_last(), name)
    }
}

/// True when no two entries have one name.
pub open spec fn has_distinct_names(vars: Seq<EnvVar>) -> bool {
    forall|i: int, j: int|
        0 <= i < j < vars.len() ==> (#[trigger] vars[i]).name@ != (#[trigger] vars[j]).name@
}

/// Replacing the only entry of a name changes the value of that name and of
/// no other.
proof fn lemma_replace_entry(vars: Seq<EnvVar>, at: int, entry: EnvVar, name: Seq<char>)
    requires
        0 <= at < vars.len(),
        vars[at].name@ == entry.name@,
        forall|j: int| at < j < vars.len() ==> vars[j].name@ != entry.name@,
    ensures
        latest_value(vars.update(at, entry), name) == if name == entry.name@ {
            Some(entry.value@)
        } else {
            latest_value(vars, name)
        },
    decreases vars.len(),
{
    let after = vars.update(at, entry);
    if at == vars.len() - 1 {
        assert(after.drop_last() =~= vars.drop_last());
    } else {
        assert(after.drop_last() =~= vars.drop_last().update(at, entry));
        assert(after.last() == vars.last());
        lemma_replace_entry(vars.drop_last(), at, entry, name);
    }
}

impl View for Environment {
    type V = Map<Seq<char>, Seq<char>>;

    closed spec fn view(&self) -> Map<Seq<char>, Seq<char>> {
        Map::new(
            |name: Seq<char>| latest_value(self.vars@, name) is Some,
            |name: Seq<char>| latest_value(self.vars@, name)->0,
        )
    }
}

impl Environment {
    #[verifier::type_invariant]
    spec fn names_are_distinct(self) -> bool {
        has_distinct_names(self.vars@)
    }

    /// An environment that sets nothing.
    pub fn new() -> (env: Environment)
        ensures
            env@ == Map::<Seq<char>, Seq<char>>::empty(),
    {
        let env = Environment { vars: Vec::new() };
        assert(env@ =~= Map::<Seq<char>, Seq<char>>::empty());
        env
    }

    /// The place of the entry for `name`.
    fn place_of(&self, name: &str) -> (found: Option<usize>)
        ensures
            found is Some <==> latest_value(self.vars@, name@) is Some,
            found matches Some(i) ==> i < self.vars@.len() && self.vars@[i as int].name@ == name@
                && latest_value(self.vars@, name@) == Some(self.vars@[i as int].value@)
                && forall|j: int| i < j < self.vars@.len() ==> self.vars@[j].name@ != name@,
    {
        let mut i: usize = self.vars.len();
        assert(self.vars@.subrange(0, i as int) =~= self.vars@);
        while i > 0
            invariant
                i <= self.vars.len(),
                latest_value(self.vars@, name@) == latest_value(
                    self.vars@.subrange(0, i as int),
                    name@,
                ),
                forall|j: int| i <= j < self.vars@.len() ==> self.vars@[j].name@ != name@,
            decreases i,
        {
            i -= 1;
            assert(self.vars@.subrange(0, i + 1).drop_last() =~= self.vars@.subrange(0, i as int));
            if same_text(self.vars[i].name.as_str(), name) {
                return Some(i);
            }
        }
        None
    }

    /// Sets `name` to `value`, replacing an earlier setting of the same name.
    pub fn insert(&mut self, name: String, value: String)
        ensures
            final(self)@ == old(self)@.insert(name@, value@),
    {
        proof {
            use_type_invariant(&*self);
        }
        let place = self.place_of(name.as_str());
        let ghost before = self.vars@;
        let mut vars = copy_of(&self.vars);
        let entry = EnvVar { name, value };
        match place {
            Some(at) => {
                proof {
                    assert forall|n: Seq<char>| latest_value(before.update(at as int, entry), n)
                        == if n == entry.name@ {
                        Some(entry.value@)
                    } else {
                        latest_value(before, n)
                    } by {
                        lemma_replace_entry(before, at as int, entry, n);
                    }
                }
                vars.set(at, entry);
            },
            None => {
                proof {
                    assert(before.push(entry).drop_last() =~= before);
                    assert forall|j: int| 0 <= j < before.len() implies before[j].name@
                        != entry.name@ by {
                        lemma_absent_name(before, entry.name@, j);
                    }
                }
                vars.push(entry);
            },
        }
        *self = Environment { vars };
        assert(self@ =~= old(self)@.insert(entry.name@, entry.value@));
    }

    /// The value that `name` is set to.
    pub fn get(&self, name: &str) -> (found: Option<&String>)
        ensures
            found is Some <==> self@.contains_key(name@),
            found matches Some(value) ==> self@[name@] == value@,
    {
        match self.place_of(name) {
            Some(at) => Some(&self.vars[at].value),
            None => None,
        }
    }

    /// The settings, each name once, in the order in which the names were
    /// first set.
    pub fn entries(&self) -> (vars: &Vec<EnvVar>)
        ensures
            has_distinct_names(vars@),
            forall|name: Seq<char>|
                self@.contains_key(name) <==> latest_value(vars@, name) is Some,
            forall|name: Seq<char>|
                self@.contains_key(name) ==> latest_value(vars@, name) == Some(self@[name]),
    {
        proof {
            use_type_invariant(self);
        }
        &self.vars
    }
}

/// A copy of the entries.
fn copy_of(vars: &Vec<EnvVar>) -> (copy: Vec<EnvVar>)
    ensures
        copy@ == vars@,
{
    let mut copy: Vec<EnvVar> = Vec::new();
    let mut i: usize = 0;
    while i < vars.len()
        invariant
            i <= vars.len(),
            copy@ == vars@.subrange(0, i as int),
        decreases vars.len() - i,
    {
        copy.push(EnvVar { name: vars[i].name.clone(), value: vars[i].value.clone() });
        assert(copy@ =~= vars@.subrange(0, i + 1));
        i += 1;
    }
    assert(vars@.subrange(0, vars.len() as int) =~= vars@);
    copy
}

/// A name without a value is the name of no entry.
proof fn lemma_absent_name(vars: Seq<EnvVar>, name: Seq<char>, at: int)
    requires
        latest_value(vars, name) is None,
        0 <= at < vars.len(),
    ensures
        vars[at].name@ != name,
    decreases vars.len(),
{
    if at < vars.len() - 1 {
        lemma_absent_name(vars.drop_last(), name, at);
    }
}

/// One game, ready to launch.
pub struct Game {
    pub id: String,
    pub name: String,
    pub dir: Option<String>,
    pub command: Vec<String>,
    pub env: Environment,
    pub tags: Vec<String>,
    pub installed: bool,
}

/// What a `Game` holds, as mathematical values.
pub ghost struct GameView {
    pub id: Seq<char>,
    pub name: Seq<char>,
    pub dir: Option<Seq<char>>,
    pub command: Seq<Seq<char>>,
    pub env: Map<Seq<char>, Seq<char>>,
    pub tags: Seq<Seq<char>>,
    pub installed: bool,
}

impl View for Game {
    type V = GameView;

    open spec fn view(&self) -> GameView {
        GameView {
            id: self.id@,
            name: self.name@,
            dir: match self.dir {
                Some(d) => Some(d@),
                None => None,
            },
            command: texts(self.command@),
            env: self.env@,
            tags: texts(self.tags@),
            installed: self.installed,
        }
    }
}

/// Why a game could not be played.
pub enum GameError<'a> {
    NoGameId,
    CouldNotChangeDirectory(&'a str),
    NoSuchGame(&'a str),
    CommandReturnedFailure(String),
    ExecutionFailed,
    NotInstalled,
    NoEditor,
    CouldNotWriteStats(String),
}

/// The text between a game's id and its name in a listing.
pub open spec fn listing_separator() -> Seq<char> {
    seq![' ', '-', ' ']
}

impl Game {
    /// The line that lists this game: its id, a dash, its name.
    pub fn format(&self) -> (line: String)
        ensures
            line@ == self.id@ + listing_separator() + self.name@,
    {
        let mut line = self.id.clone();
        line.append(" - ");
        line.append(self.name.as_str());
        proof {
            reveal_strlit(" - ");
            assert(" - "@ =~= listing_separator());
        }
        line
    }

    /// True when `tag` is one of this game's tags.
    pub fn has_tag(&self, tag: &str) -> (found: bool)
        ensures
            found == self@.tags.contains(tag@),
    {
        let mut i: usize = 0;
        while i < self.tags.len()
            invariant
                i <= self.tags.len(),
                forall|j: int| 0 <= j < i ==> self.tags@[j]@ != tag@,
            decreases self.tags.len() - i,
        {
            if same_text(self.tags[i].as_str(), tag) {
                assert(texts(self.tags@)[i as int] == tag@);
                return true;
            }
            i += 1;
        }
        assert forall|j: int| 0 <= j < texts(self.tags@).len() implies texts(self.tags@)[j]
            != tag@ by {}
        false
    }

    /// Whether the game may be launched at all: only an installed game may.
    pub fn check_installed(&self) -> (r: Result<(), GameError<'static>>)
        ensures
            self.installed ==> r is Ok,
            !self.installed ==> r matches Err(GameError::NotInstalled),
    {
        if !self.installed {
            Err(GameError::NotInstalled)
        } else {
            Ok(())
        }
    }

    /// What the end of the launched command means: an exit code of exactly 1
    /// is a failure, reported with the text of the command; any other end,
    /// and an end without a code, is none.
    pub fn exit_outcome(code: Option<i32>, command_text: String) -> (r: Result<
        (),
        GameError<'static>,
    >)
        ensures
            code == Some(1i32) ==> (r matches Err(GameError::CommandReturnedFailure(text)) && text
                == command_text),
            code != Some(1i32) ==> r is Ok,
    {
        match code {
            Some(1) => Err(GameError::CommandReturnedFailure(command_text)),
            _ => Ok(()),
        }
    }

    /// Whether the game is installed.
    pub fn is_installed(&self) -> (installed: bool)
        ensures
            installed == self.installed,
    {
        self.installed
    }
}

} // verus!
