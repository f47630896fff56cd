//! The configuration (`wux.toml`): its model, its defaults, and what loading
//! does to what the file holds.
//!
//! Deserializing the file into these types happens outside; [`finish_load`]
//! then drops custom commands with reserved names and applies the default of
//! `free`'s `safe` flag.
use crate::text::{append_chars, append_str, chars_eq, from_chars, str_eq, to_chars};
use vstd::prelude::*;

verus! {

broadcast use vstd::string::group_string_axioms;

/// The whole configuration.
pub struct Config {
    pub settings: Settings,
    pub commands: CommandsConfig,
}

/// `[settings]`.
pub struct Settings {
    pub color: bool,
}

/// `[commands]`: the built-in commands' flags and the user's own commands.
pub struct CommandsConfig {
    pub free: BuiltinMeta,
    pub nuke: BuiltinMeta,
    /// The user's commands by name (see [`CommandsConfig::wf`]).
    pub custom: Vec<(String, CommandMeta)>,
}

/// The flags of a built-in command.
#[derive(Clone, Copy, Debug, PartialEq, Eq, Structural)]
pub struct BuiltinMeta {
    /// Run without asking first.
    pub safe: bool,
}

/// A user's command.
#[derive(Clone, Debug)]
pub struct CommandMeta {
    pub run: CommandRun,
    pub description: String,
    /// Run without asking first.
    pub safe: bool,
}

/// The command line(s) a user's command runs.
#[derive(Clone, Debug)]
pub enum CommandRun {
    Single(String),
    Multiple(Vec<String>),
}

/// `true`: the default of `settings.color`.
pub fn default_true() -> (r: bool)
    ensures
        r,
{
    true
}

/// `true`: the default of a user's command's `safe` flag.
pub fn default_safe_true() -> (r: bool)
    ensures
        r,
{
    true
}

impl Default for Settings {
    fn default() -> (r: Self)
        ensures
            r.color,
    {
        Settings { color: true }
    }
}

impl Default for BuiltinMeta {
    fn default() -> (r: Self)
        ensures
            !r.safe,
    {
        BuiltinMeta { safe: false }
    }
}

impl Default for CommandsConfig {
    fn default() -> (r: Self)
        ensures
            !r.free.safe,
            !r.nuke.safe,
            r.custom_entries().len() == 0,
    {
        CommandsConfig::new(BuiltinMeta { safe: false }, BuiltinMeta { safe: false })
    }
}

impl Default for Config {
    fn default() -> (r: Self)
        ensures
            r.settings.color,
            !r.commands.free.safe,
            !r.commands.nuke.safe,
            r.commands.custom_entries().len() == 0,
    {
        Config {
            settings: Settings { color: true },
            commands: CommandsConfig::new(BuiltinMeta { safe: false }, BuiltinMeta { safe: false }),
        }
    }
}

/// The names of a list of commands.
pub open spec fn entry_names(entries: Seq<(String, CommandMeta)>) -> Seq<Seq<char>> {
    entries.map_values(|e: (String, CommandMeta)| e.0@)
}

impl CommandsConfig {
    /// The user's commands, in the order they were added.
    pub open spec fn custom_entries(&self) -> Seq<(String, CommandMeta)> {
        self.custom@
    }

    /// No command name occurs twice.
    pub open spec fn wf(&self) -> bool {
        entry_names(self.custom_entries()).no_duplicates()
    }

    /// The built-in flags given, and no user's commands.
    pub fn new(free: BuiltinMeta, nuke: BuiltinMeta) -> (r: Self)
        ensures
            r.wf(),
            r.free == free,
            r.nuke == nuke,
            r.custom_entries().len() == 0,
    {
        let r = CommandsConfig { free, nuke, custom: Vec::new() };
        assert(entry_names(r.custom_entries()) =~= seq![]);
        r
    }

    /// The user's commands.
    pub fn custom(&self) -> (r: &Vec<(String, CommandMeta)>)
        ensures
            r@ == self.custom_entries(),
    {
        &self.custom
    }

    /// Takes the user's commands out, leaving none.
    pub fn take_custom(&mut self) -> (r: Vec<(String, CommandMeta)>)
        ensures
            r@ == old(self).custom_entries(),
            final(self).custom_entries().len() == 0,
            final(self).free == old(self).free,
            final(self).nuke == old(self).nuke,
            old(self).wf() ==> final(self).wf(),
    {
        let mut r: Vec<(String, CommandMeta)> = Vec::new();
        std::mem::swap(&mut r, &mut self.custom);
        assert(entry_names(self.custom_entries()) =~= seq![]);
        r
    }

    /// The position of the command `name`.
    fn position(&self, name: &str) -> (r: Option<usize>)
        ensures
            match r {
                Some(k) => k < self.custom_entries().len() && self.custom_entries()[k as int].0@
                    == name@,
                None => !entry_names(self.custom_entries()).contains(name@),
            },
    {
        let target = to_chars(name);
        for k in 0..self.custom.len()
            invariant
                target@ == name@,
                forall|j: int| 0 <= j < k ==> self.custom@[j].0@ != name@,
        {
            let cs = to_chars(self.custom[k].0.as_str());
            if chars_eq(cs.as_slice(), target.as_slice()) {
                return Some(k);
            }
        }
        assert forall|j: int| 0 <= j < entry_names(self.custom_entries()).len() implies entry_names(
            self.custom_entries(),
        )[j] != name@ by {}
        None
    }

    /// The user's command called `name`.
    pub fn find_custom(&self, name: &str) -> (r: Option<&CommandMeta>)
        ensures
            match r {
                Some(m) => exists|k: int|
                    0 <= k < self.custom_entries().len() && #[trigger] self.custom_entries()[k].0@
                        == name@ && self.custom_entries()[k].1 == *m,
                None => !entry_names(self.custom_entries()).contains(name@),
            },
    {
        match self.position(name) {
            Some(k) => Some(&self.custom[k].1),
            None => None,
        }
    }

    /// Adds the command `name`, replacing the one of that name if there is one.
    pub fn insert_custom(&mut self, name: String, meta: CommandMeta)
        requires
            old(self).wf(),
        ensures
            final(self).wf(),
            final(self).free == old(self).free,
            final(self).nuke == old(self).nuke,
            entry_names(old(self).custom_entries()).contains(name@) ==> exists|k: int|
                0 <= k < old(self).custom_entries().len() && old(self).custom_entries()[k].0@
                    == name@ && final(self).custom_entries()
                    == old(self).custom_entries().update(k, (old(self).custom_entries()[k].0, meta)),
            !entry_names(old(self).custom_entries()).contains(name@)
                ==> final(self).custom_entries() == old(self).custom_entries().push((name, meta)),
    {
        match self.position(name.as_str()) {
            Some(k) => {
                let ghost before = self.custom@;
                assert(entry_names(before)[k as int] == name@);
                let key = self.custom[k].0.clone();
                self.custom.set(k, (key, meta));
                assert(entry_names(self.custom@) =~= entry_names(before));
            },
            None => {
                let ghost before = self.custom@;
                self.custom.push((name, meta));
                assert(entry_names(self.custom@) =~= entry_names(before).push(name@));
                assert(entry_names(before).len() == before.len());
                assert forall|i: int, j: int|
                    0 <= i < j < entry_names(self.custom@).len() implies entry_names(
                    self.custom@,
                )[i] != entry_names(self.custom@)[j] by {
                    if j == before.len() {
                        assert(entry_names(before)[i] == entry_names(self.custom@)[i]);
                    } else {
                        assert(entry_names(before)[i] == entry_names(self.custom@)[i]);
                        assert(entry_names(before)[j] == entry_names(self.custom@)[j]);
                    }
                }
            },
        }
    }
}

// ---------------------------------------------------------------------------
// Command lines
// ---------------------------------------------------------------------------

/// The lines `parts` joined with `sep` between neighbours.
pub open spec fn join(parts: Seq<Seq<char>>, sep: Seq<char>) -> Seq<char>
    decreases parts.len(),
{
    if parts.len() == 0 {
        seq![]
    } else if parts.len() == 1 {
        parts[0]
    } else {
        join(parts.drop_last(), sep) + sep + parts.last()
    }
}

impl CommandRun {
    /// The command lines, in order.
    pub open spec fn lines(&self) -> Seq<Seq<char>> {
        match self {
            CommandRun::Single(s) => seq![s@],
            CommandRun::Multiple(v) => v@.map_values(|s: String| s@),
        }
    }

    /// The command lines, in the order they run.
    pub fn iter(&self) -> (r: Vec<&str>)
        ensures
            r@.map_values(|s: &str| s@) == self.lines(),
    {
        match self {
            CommandRun::Single(s) => {
                let mut r: Vec<&str> = Vec::new();
                r.push(s.as_str());
                assert(r@.map_values(|s: &str| s@) =~= self.lines());
                r
            },
            CommandRun::Multiple(v) => {
                let mut r: Vec<&str> = Vec::new();
                for i in 0..v.len()
                    invariant
                        r@.len() == i,
                        forall|k: int| 0 <= k < i ==> #[trigger] r@[k]@ == v@[k]@,
                {
                    r.push(v[i].as_str());
                }
                assert(r@.map_values(|s: &str| s@) =~= self.lines());
                r
            },
        }
    }

    /// The command as one line: several lines are joined with ` && `.
    pub fn display(&self) -> (r: String)
        ensures
            r@ == join(self.lines(), " && "@),
    {
        match self {
            CommandRun::Single(s) => {
                proof {
                    assert(self.lines().len() == 1);
                }
                s.clone()
            },
            CommandRun::Multiple(v) => {
                let ghost ls = self.lines();
                let mut out: Vec<char> = Vec::new();
                for i in 0..v.len()
                    invariant
                        ls == v@.map_values(|s: String| s@),
                        out@ == join(ls.take(i as int), " && "@),
                {
                    let ghost prev = ls.take(i as int);
                    assert(ls.take(i + 1).drop_last() =~= prev);
                    if i > 0 {
                        append_str(&mut out, " && ");
                    }
                    let line = to_chars(v[i].as_str());
                    append_chars(&mut out, line.as_slice());
                    proof {
                        if i == 0 {
                            assert(out@ =~= join(ls.take(1), " && "@));
                        } else {
                            assert(out@ =~= join(ls.take(i + 1), " && "@));
                        }
                    }
                }
                assert(ls.take(v@.len() as int) =~= ls);
                from_chars(out.as_slice())
            },
        }
    }
}

// ---------------------------------------------------------------------------
// Loading
// ---------------------------------------------------------------------------

/// The names of the built-in commands that a user's command may not take.
pub open spec fn reserved(name: Seq<char>) -> bool {
    ||| name == "free"@
    ||| name == "nuke"@
    ||| name == "config"@
    ||| name == "help"@
    ||| name == "list"@
    ||| name == "update"@
}

/// Whether `name` belongs to a built-in command that cannot be redefined.
pub fn is_reserved_name(name: &str) -> (r: bool)
    ensures
        r == reserved(name@),
{
    str_eq(name, "free") || str_eq(name, "nuke") || str_eq(name, "config") || str_eq(name, "help")
        || str_eq(name, "list") || str_eq(name, "update")
}

/// Whether the TOML document `content`, as the `toml` crate reads it into a
/// `toml::Value`, holds a value at the key path `a.b.c` (`false` when the text
/// is not a TOML document).
pub uninterp spec fn toml_has_path(content: Seq<char>, a: Seq<char>, b: Seq<char>, c: Seq<char>) -> bool;

/// Parses `content` with `<toml::Value as FromStr>::from_str` and follows
/// `Value::get` with `a`, then `b`, then `c`: whether a value is found there;
/// `false` when the text does not parse. The contract claims only that the
/// outcome is the named function `toml_has_path` of the four texts.
#[verifier::external_body]
fn toml_value_at(content: &str, a: &str, b: &str, c: &str) -> (r: bool)
    ensures
        r == toml_has_path(content@, a@, b@, c@),
{
    match content.parse::<toml::Value>() {
        Ok(root) => root.get(a).and_then(|v| v.get(b)).and_then(|v| v.get(c)).is_some(),
        Err(_) => false,
    }
}

/// The document sets `commands.free.safe` itself.
pub open spec fn sets_free_safe(content: Seq<char>) -> bool {
    toml_has_path(content, "commands"@, "free"@, "safe"@)
}

/// Whether the TOML text `content` sets `commands.free.safe` itself.
pub fn explicit_free_safe(content: &str) -> (r: bool)
    ensures
        r == sets_free_safe(content@),
{
    toml_value_at(content, "commands", "free", "safe")
}

/// A user's command that loading keeps: its name is not reserved.
pub open spec fn is_kept(e: (String, CommandMeta)) -> bool {
    !reserved(e.0@)
}

/// A user's command that loading drops: its name is reserved.
pub open spec fn is_dropped(e: (String, CommandMeta)) -> bool {
    reserved(e.0@)
}

/// The user's commands that keep their place: those with unreserved names.
pub open spec fn kept(entries: Seq<(String, CommandMeta)>) -> Seq<(String, CommandMeta)> {
    entries.filter(|e: (String, CommandMeta)| is_kept(e))
}

/// The names that were dropped for being reserved, in order.
pub open spec fn dropped(entries: Seq<(String, CommandMeta)>) -> Seq<Seq<char>> {
    entry_names(entries.filter(|e: (String, CommandMeta)| is_dropped(e)))
}

proof fn lemma_filter_push<A>(s: Seq<A>, pred: spec_fn(A) -> bool, e: A)
    ensures
        s.push(e).filter(pred) == (if pred(e) {
            s.filter(pred).push(e)
        } else {
            s.filter(pred)
        }),
{
    reveal(Seq::filter);
    assert(s.push(e).drop_last() =~= s);
}

proof fn lemma_names_push(es: Seq<(String, CommandMeta)>, e: (String, CommandMeta))
    ensures
        entry_names(es.push(e)) == entry_names(es).push(e.0@),
{
    assert(entry_names(es.push(e)) =~= entry_names(es).push(e.0@));
}

proof fn lemma_no_dup_push(s: Seq<Seq<char>>, x: Seq<char>)
    requires
        s.no_duplicates(),
        !s.contains(x),
    ensures
        s.push(x).no_duplicates(),
{
    assert forall|i: int, j: int|
        0 <= i < s.push(x).len() && 0 <= j < s.push(x).len() && i != j implies s.push(x)[i]
        != s.push(x)[j] by {
        if i == s.len() {
            assert(s[j] != x);
        } else if j == s.len() {
            assert(s[i] != x);
        }
    }
}

proof fn lemma_filter_names_distinct(
    entries: Seq<(String, CommandMeta)>,
    pred: spec_fn((String, CommandMeta)) -> bool,
)
    requires
        entry_names(entries).no_duplicates(),
    ensures
        entry_names(entries.filter(pred)).no_duplicates(),
        forall|n: Seq<char>|
            entry_names(entries.filter(pred)).contains(n) ==> #[trigger] entry_names(
                entries,
            ).contains(n),
    decreases entries.len(),
{
    if entries.len() > 0 {
        let rest = entries.drop_last();
        let e = entries.last();
        assert(entries =~= rest.push(e));
        lemma_names_push(rest, e);
        assert(entry_names(rest).no_duplicates()) by {
            assert forall|i: int, j: int|
                0 <= i < entry_names(rest).len() && 0 <= j < entry_names(rest).len() && i != j implies entry_names(
                rest,
            )[i] != entry_names(rest)[j] by {
                assert(entry_names(entries)[i] == entry_names(rest)[i]);
                assert(entry_names(entries)[j] == entry_names(rest)[j]);
            }
        }
        lemma_filter_names_distinct(rest, pred);
        assert(!entry_names(rest).contains(e.0@)) by {
            if entry_names(rest).contains(e.0@) {
                let k = choose|k: int| 0 <= k < entry_names(rest).len() && entry_names(rest)[k] == e.0@;
                assert(entry_names(entries)[k] == entry_names(entries)[entries.len() - 1]);
            }
        }
        assert forall|n: Seq<char>| entry_names(rest).contains(n) implies #[trigger] entry_names(
            entries,
        ).contains(n) by {
            let k = choose|k: int| 0 <= k < entry_names(rest).len() && entry_names(rest)[k] == n;
            assert(entry_names(entries)[k] == n);
        }
        assert(entry_names(entries).contains(e.0@)) by {
            assert(entry_names(entries)[entries.len() - 1] == e.0@);
        }
        lemma_filter_push(rest, pred, e);
        if pred(e) {
            assert(entries.filter(pred) == rest.filter(pred).push(e));
            lemma_names_push(rest.filter(pred), e);
            lemma_no_dup_push(entry_names(rest.filter(pred)), e.0@);
            assert forall|n: Seq<char>|
                entry_names(entries.filter(pred)).contains(n) implies #[trigger] entry_names(
                entries,
            ).contains(n) by {
                if n != e.0@ {
                    let k = choose|k: int|
                        0 <= k < entry_names(entries.filter(pred)).len() && entry_names(
                            entries.filter(pred),
                        )[k] == n;
                    assert(entry_names(rest.filter(pred))[k] == n);
                    assert(entry_names(rest.filter(pred)).contains(n));
                }
            }
        } else {
            assert(entries.filter(pred) == rest.filter(pred));
        }
    }
}

/// What loading makes of a parsed configuration (`None`: no file, or a file
/// that did not parse, which gives the defaults). Users' commands with
/// reserved names are dropped and their names returned; `free` is safe unless
/// the file sets `commands.free.safe` itself (`free_safe_explicit`).
pub fn apply_loaded(parsed: Option<Config>, free_safe_explicit: bool) -> (r: (Config, Vec<String>))
    requires
        parsed matches Some(c) ==> c.commands.wf(),
    ensures
        r.0.commands.wf(),
        match parsed {
            Some(c) => {
                &&& r.0.settings.color == c.settings.color
                &&& r.0.commands.nuke == c.commands.nuke
                &&& r.0.commands.free.safe == (if free_safe_explicit {
                    c.commands.free.safe
                } else {
                    true
                })
                &&& r.0.commands.custom_entries() == kept(c.commands.custom_entries())
                &&& r.1@.map_values(|s: String| s@) == dropped(c.commands.custom_entries())
            },
            None => {
                &&& r.0.settings.color
                &&& !r.0.commands.nuke.safe
                &&& r.0.commands.free.safe == !free_safe_explicit
                &&& r.0.commands.custom_entries().len() == 0
                &&& r.1@.len() == 0
            },
        },
{
    let mut config = match parsed {
        Some(c) => c,
        None => Config::default(),
    };
    let ghost given = config.commands.custom_entries();
    let mut custom = config.commands.take_custom();
    let mut filtered: Vec<(String, CommandMeta)> = Vec::new();
    let mut skipped: Vec<String> = Vec::new();
    let n = custom.len();
    let mut i: usize = 0;
    while i < n
        invariant
            i <= n == given.len(),
            custom@ == given.skip(i as int),
            filtered@ == kept(given.take(i as int)),
            skipped@.map_values(|s: String| s@) == dropped(given.take(i as int)),
        decreases n - i,
    {
        let ghost prefix = given.take(i as int);
        let ghost e = given[i as int];
        assert(given.take(i + 1) =~= prefix.push(e));
        assert(custom@[0] == e);
        let entry = custom.remove(0);
        assert(custom@ =~= given.skip(i + 1));
        let ghost old_skipped = skipped@;
        proof {
            lemma_filter_push(prefix, |e: (String, CommandMeta)| is_kept(e), e);
            lemma_filter_push(prefix, |e: (String, CommandMeta)| is_dropped(e), e);
        }
        if is_reserved_name(entry.0.as_str()) {
            skipped.push(entry.0);
            proof {
                lemma_names_push(prefix.filter(|e: (String, CommandMeta)| is_dropped(e)), e);
                assert(skipped@.map_values(|s: String| s@) =~= old_skipped.map_values(
                    |s: String| s@,
                ).push(e.0@));
            }
        } else {
            filtered.push(entry);
        }
        i = i + 1;
    }
    assert(given.take(n as int) =~= given);
    proof {
        lemma_filter_names_distinct(given, |e: (String, CommandMeta)| is_kept(e));
    }
    config.commands.custom = filtered;
    if !free_safe_explicit {
        config.commands.free = BuiltinMeta { safe: true };
    }
    (config, skipped)
}

/// Loading with the file's text at hand: `content` is the file's text (`None`
/// when there is no file) and `parsed` what deserializing it gave.
pub fn finish_load(parsed: Option<Config>, content: Option<&str>) -> (r: (Config, Vec<String>))
    requires
        parsed matches Some(c) ==> c.commands.wf(),
    ensures
        r.0.commands.wf(),
        ({
            let explicit = match content {
                Some(t) => sets_free_safe(t@),
                None => false,
            };
            match parsed {
                Some(c) => {
                    &&& r.0.settings.color == c.settings.color
                    &&& r.0.commands.nuke == c.commands.nuke
                    &&& r.0.commands.free.safe == (if explicit {
                        c.commands.free.safe
                    } else {
                        true
                    })
                    &&& r.0.commands.custom_entries() == kept(c.commands.custom_entries())
                    &&& r.1@.map_values(|s: String| s@) == dropped(c.commands.custom_entries())
                },
                None => {
                    &&& r.0.settings.color
                    &&& !r.0.commands.nuke.safe
                    &&& r.0.commands.free.safe == !explicit
                    &&& r.0.commands.custom_entries().len() == 0
                    &&& r.1@.len() == 0
                },
            }
        }),
{
    let explicit = match content {
        Some(t) => explicit_free_safe(t),
        None => false,
    };
    apply_loaded(parsed, explicit)
}

/// Loading keeps every user's command whose name is not reserved and reports
/// the name of every one it drops; it keeps nothing that was not given.
pub proof fn unreserved_commands_are_kept(entries: Seq<(String, CommandMeta)>)
    ensures
        forall|i: int|
            0 <= i < entries.len() && !reserved(entries[i].0@) ==> kept(entries).contains(
                #[trigger] entries[i],
            ),
        forall|i: int|
            0 <= i < entries.len() && reserved(entries[i].0@) ==> dropped(entries).contains(
                (#[trigger] entries[i]).0@,
            ),
        forall|i: int| 0 <= i < kept(entries).len() ==> entries.contains(#[trigger] kept(entries)[i]),
        kept(entries).len() + dropped(entries).len() == entries.len(),
{
    broadcast use vstd::seq_lib::group_filter_ensures;

    let dropped_entries = entries.filter(|e: (String, CommandMeta)| is_dropped(e));
    assert forall|i: int|
        0 <= i < entries.len() && !reserved(entries[i].0@) implies kept(entries).contains(
        #[trigger] entries[i],
    ) by {
        assert(is_kept(entries[i]));
    }
    assert forall|i: int|
        0 <= i < entries.len() && reserved(entries[i].0@) implies dropped(entries).contains(
        (#[trigger] entries[i]).0@,
    ) by {
        assert(is_dropped(entries[i]));
        assert(dropped_entries.contains(entries[i]));
        let k = choose|k: int| 0 <= k < dropped_entries.len() && dropped_entries[k] == entries[i];
        assert(entry_names(dropped_entries)[k] == entries[i].0@);
    }
    assert forall|i: int| 0 <= i < kept(entries).len() implies entries.contains(
        #[trigger] kept(entries)[i],
    ) by {
        assert(kept(entries).contains(kept(entries)[i]));
        entries.lemma_filter_contains_rev(|e: (String, CommandMeta)| is_kept(e), kept(entries)[i]);
    }
    lemma_split_counts(entries);
}

proof fn lemma_split_counts(entries: Seq<(String, CommandMeta)>)
    ensures
        kept(entries).len() + dropped(entries).len() == entries.len(),
    decreases entries.len(),
{
    if entries.len() > 0 {
        let rest = entries.drop_last();
        let e = entries.last();
        assert(entries =~= rest.push(e));
        lemma_filter_push(rest, |e: (String, CommandMeta)| is_kept(e), e);
        lemma_filter_push(rest, |e: (String, CommandMeta)| is_dropped(e), e);
        lemma_split_counts(rest);
    }
}

/// No user's command that loading keeps has a reserved name.
pub proof fn kept_names_are_unreserved(entries: Seq<(String, CommandMeta)>)
    ensures
        forall|i: int| 0 <= i < kept(entries).len() ==> !reserved(#[trigger] kept(entries)[i].0@),
{
    broadcast use vstd::seq_lib::group_filter_ensures;
    assert forall|i: int| 0 <= i < kept(entries).len() implies !reserved(
        #[trigger] kept(entries)[i].0@,
    ) by {
        assert(is_kept(kept(entries)[i]));
    }
}

} // verus!
