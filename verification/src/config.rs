//! Workflow configuration, and the command line.
use vstd::prelude::*;
use vstd::relations::{sorted_by, total_ordering};

use crate::paths::{join, joined_path};
use crate::text::{
    chars_of, decimal, find_number_flaw, law_decimal_parses_back, matches_at, number_flaw, occurs_at,
    opt_view, parse_number, parsed_number, quote_path, quoted_path, unsigned_part, views,
};
use crate::trigger::TriggerConfig;
use crate::workflow::Step;

verus! {

// ---------------------------------------------------------------------------
// Configuration
// ---------------------------------------------------------------------------

/// How the clone of the repository and the worktrees are managed.
pub struct GitConfig {
    /// The branch that is checked out and that worktrees are based on.
    pub default_branch: String,
    /// Whether the repository is cloned, or pulled, before the steps run.
    /// Without it no git operations are performed.
    pub clone: bool,
    /// Whether each run gets a fresh worktree, which is removed when the run
    /// is over. This needs `clone`.
    pub worktree: bool,
}

/// The branch that is used unless the configuration names one.
pub fn default_branch() -> (branch: String)
    ensures
        branch@ == "main"@,
{
    "main".to_string()
}

/// The value of `clone` unless the configuration gives it.
pub fn default_true() -> (value: bool)
    ensures
        value,
{
    true
}

impl Default for GitConfig {
    fn default() -> (config: GitConfig)
        ensures
            config.default_branch@ == "main"@,
            config.clone,
            !config.worktree,
    {
        GitConfig { default_branch: default_branch(), clone: default_true(), worktree: false }
    }
}

impl Clone for GitConfig {
    fn clone(&self) -> (copy: GitConfig)
        ensures
            copy == *self,
    {
        GitConfig {
            default_branch: self.default_branch.clone(),
            clone: self.clone,
            worktree: self.worktree,
        }
    }
}

/// A repository on GitHub.
pub struct RepoConfig {
    pub owner: String,
    pub repo: String,
}

impl Clone for RepoConfig {
    fn clone(&self) -> (copy: RepoConfig)
        ensures
            copy == *self,
    {
        RepoConfig { owner: self.owner.clone(), repo: self.repo.clone() }
    }
}

/// One workflow: what starts it, on which repositories, and its steps.
pub struct Config {
    pub triggers: Vec<TriggerConfig>,
    pub repos: Vec<RepoConfig>,
    pub git: GitConfig,
    pub steps: Vec<Step>,
}

/// What was found in a configuration file.
pub enum ConfigSource {
    /// It could not be read.
    Unreadable(String),
    /// It is not a configuration.
    Malformed(String),
    Parsed(Config),
}

impl Config {
    /// The workflow can be run: it has a trigger and a step, and worktrees
    /// only with a clone.
    pub open spec fn valid(&self) -> bool {
        &&& self.triggers@.len() > 0
        &&& self.steps@.len() > 0
        &&& self.git.worktree ==> self.git.clone
    }
}

/// Why a configuration file is refused; nothing if it is not.
pub open spec fn refusal(path: Seq<char>, source: ConfigSource) -> Option<Seq<char>> {
    match source {
        ConfigSource::Unreadable(e) => Some(
            "reading config from "@ + quoted_path(path) + ": "@ + e@,
        ),
        ConfigSource::Malformed(e) => Some("parsing config from "@ + quoted_path(path) + ": "@ + e@),
        ConfigSource::Parsed(config) => if config.triggers@.len() == 0 {
            Some(
                "config "@ + quoted_path(path) + " must define at least one [[triggers]] entry"@,
            )
        } else if config.steps@.len() == 0 {
            Some("config "@ + quoted_path(path) + " contains no [[steps]]"@)
        } else if config.git.worktree && !config.git.clone {
            Some(
                "config "@ + quoted_path(path) + ": git.worktree requires git.clone to be true"@,
            )
        } else {
            None
        },
    }
}

impl Config {
    /// The workflow of a configuration file, or why there is none.
    pub fn load(path: &str, source: ConfigSource) -> (loaded: Result<Config, String>)
        ensures
            match loaded {
                Ok(config) => refusal(path@, source) is None && source == ConfigSource::Parsed(
                    config,
                ) && config.valid(),
                Err(e) => refusal(path@, source) == Some(e@),
            },
    {
        let name = quote_path(path);
        match source {
            ConfigSource::Unreadable(e) => Err(
                "reading config from ".to_string().concat(name.as_str()).concat(": ").concat(
                    e.as_str(),
                ),
            ),
            ConfigSource::Malformed(e) => Err(
                "parsing config from ".to_string().concat(name.as_str()).concat(": ").concat(
                    e.as_str(),
                ),
            ),
            ConfigSource::Parsed(config) => {
                if config.triggers.len() == 0 {
                    return Err(
                        "config ".to_string().concat(name.as_str()).concat(
                            " must define at least one [[triggers]] entry",
                        ),
                    );
                }
                if config.steps.len() == 0 {
                    return Err(
                        "config ".to_string().concat(name.as_str()).concat(
                            " contains no [[steps]]",
                        ),
                    );
                }
                if config.git.worktree && !config.git.clone {
                    return Err(
                        "config ".to_string().concat(name.as_str()).concat(
                            ": git.worktree requires git.clone to be true",
                        ),
                    );
                }
                Ok(config)
            },
        }
    }
}

// ---------------------------------------------------------------------------
// Configuration files
// ---------------------------------------------------------------------------

/// What was found at the path of the workflows directory.
pub enum DirListing {
    NotADirectory,
    /// The directory could not be read.
    Unreadable(String),
    /// The names of its entries, in no particular order.
    Names(Vec<String>),
}

/// A file name with the extension `toml`: something stands before it.
pub open spec fn is_toml_name(name: Seq<char>) -> bool {
    name.len() > 5 && occurs_at(name, ".toml"@, name.len() - 5)
}

/// Whether `a` comes before `b`, or is equal to it, character by character.
pub open spec fn name_le(a: Seq<char>, b: Seq<char>) -> bool
    decreases a.len(),
{
    if a.len() == 0 {
        true
    } else if b.len() == 0 {
        false
    } else if a[0] != b[0] {
        a[0] < b[0]
    } else {
        name_le(a.skip(1), b.skip(1))
    }
}

/// The order of file names.
pub open spec fn name_order() -> spec_fn(Seq<char>, Seq<char>) -> bool {
    |a: Seq<char>, b: Seq<char>| name_le(a, b)
}

/// The names of configuration files.
pub open spec fn toml_names() -> spec_fn(Seq<char>) -> bool {
    |n: Seq<char>| is_toml_name(n)
}

/// `files` are the configuration files among `names`, each as often as it is
/// there, in the order of names.
pub open spec fn selected(files: Seq<Seq<char>>, names: Seq<Seq<char>>) -> bool {
    &&& sorted_by(files, name_order())
    &&& files.to_multiset() == names.filter(toml_names()).to_multiset()
}

/// The paths of files in a directory.
pub open spec fn paths_in(dir: Seq<char>, files: Seq<Seq<char>>) -> Seq<Seq<char>> {
    files.map_values(|f: Seq<char>| joined_path(dir, f))
}

/// Whether a file name has the extension `toml`.
pub fn has_toml_extension(name: &str) -> (yes: bool)
    ensures
        yes == is_toml_name(name@),
{
    let text = chars_of(name);
    let ending = chars_of(".toml");
    text.len() > 5 && matches_at(&text, &ending, text.len() - 5)
}

fn comes_before(a: &str, b: &str) -> (yes: bool)
    ensures
        yes == name_le(a@, b@),
{
    let x = chars_of(a);
    let y = chars_of(b);
    let mut i: usize = 0;
    assert(a@.skip(0) =~= a@);
    assert(b@.skip(0) =~= b@);
    while i < x.len() && i < y.len() && x[i] == y[i]
        invariant
            x@ == a@,
            y@ == b@,
            i <= x.len(),
            i <= y.len(),
            name_le(a@, b@) == name_le(a@.skip(i as int), b@.skip(i as int)),
        decreases x.len() - i,
    {
        assert(a@.skip(i as int).skip(1) =~= a@.skip(i + 1));
        assert(b@.skip(i as int).skip(1) =~= b@.skip(i + 1));
        i += 1;
    }
    if i == x.len() {
        true
    } else if i == y.len() {
        false
    } else {
        x[i] < y[i]
    }
}

proof fn lemma_name_le_total(a: Seq<char>, b: Seq<char>)
    ensures
        name_le(a, a),
        name_le(a, b) || name_le(b, a),
        name_le(a, b) && name_le(b, a) ==> a == b,
    decreases a.len(),
{
    if a.len() > 0 {
        lemma_name_le_total(a.skip(1), b.skip(1));
        if b.len() > 0 && a[0] == b[0] && a.skip(1) == b.skip(1) {
            assert(a =~= seq![a[0]] + a.skip(1));
            assert(b =~= seq![b[0]] + b.skip(1));
        }
    } else if b.len() == 0 {
        assert(a =~= b);
    }
}

proof fn lemma_name_le_transitive(a: Seq<char>, b: Seq<char>, c: Seq<char>)
    requires
        name_le(a, b),
        name_le(b, c),
    ensures
        name_le(a, c),
    decreases a.len(),
{
    if a.len() > 0 && b.len() > 0 && c.len() > 0 && a[0] == b[0] && b[0] == c[0] {
        lemma_name_le_transitive(a.skip(1), b.skip(1), c.skip(1));
    }
}

proof fn lemma_name_order()
    ensures
        total_ordering(name_order()),
{
    assert forall|a: Seq<char>, b: Seq<char>|
        name_le(a, a) && (name_le(a, b) || name_le(b, a)) && (name_le(a, b) && name_le(b, a) ==> a
            == b) by {
        lemma_name_le_total(a, b);
    }
    assert forall|a: Seq<char>, b: Seq<char>, c: Seq<char>|
        #[trigger] name_le(a, b) && #[trigger] name_le(b, c) implies name_le(a, c) by {
        lemma_name_le_transitive(a, b, c);
    }
}

/// Puts a name into its place in a sorted list.
fn insert_sorted(list: &mut Vec<String>, name: String)
    requires
        sorted_by(views(old(list)@), name_order()),
    ensures
        sorted_by(views(final(list)@), name_order()),
        views(final(list)@).to_multiset() == views(old(list)@).to_multiset().insert(name@),
{
    let ghost before = views(list@);
    let mut i: usize = 0;
    while i < list.len() && comes_before(list[i].as_str(), name.as_str())
        invariant
            i <= list.len(),
            before == views(list@),
            forall|j: int| 0 <= j < i ==> name_le(#[trigger] before[j], name@),
        decreases list.len() - i,
    {
        assert(before[i as int] == list@[i as int]@);
        i += 1;
    }
    proof {
        lemma_name_order();
        if i < list.len() {
            assert(before[i as int] == list@[i as int]@);
            lemma_name_le_total(before[i as int], name@);
        }
        assert forall|j: int| i <= j < before.len() implies name_le(name@, #[trigger] before[j]) by {
            if j > i {
                assert(name_order()(before[i as int], before[j]));
                lemma_name_le_transitive(name@, before[i as int], before[j]);
            }
        }
    }
    list.insert(i, name);
    proof {
        let after = views(list@);
        assert(after =~= before.insert(i as int, name@));
        assert forall|j: int, k: int| 0 <= j < k < after.len() implies #[trigger] name_order()(
            after[j],
            after[k],
        ) by {
            let j0 = if j < i {
                j
            } else {
                j - 1
            };
            let k0 = if k < i {
                k
            } else {
                k - 1
            };
            if j != i && k != i {
                assert(name_order()(before[j0], before[k0]));
            }
        }
        vstd::seq_lib::to_multiset_insert(before, i as int, name@);
    }
}

/// The configuration files among the names of a directory, in the order of
/// their names.
fn select_files(names: &Vec<String>) -> (files: Vec<String>)
    ensures
        selected(views(files@), views(names@)),
{
    let ghost all = views(names@);
    let ghost pick = toml_names();
    let mut files: Vec<String> = Vec::new();
    let mut i: usize = 0;
    assert(views(files@) =~= Seq::<Seq<char>>::empty());
    assert(all.take(0).filter(pick) =~= Seq::<Seq<char>>::empty()) by {
        reveal(Seq::filter);
    }
    while i < names.len()
        invariant
            i <= names.len(),
            all == views(names@),
            pick == toml_names(),
            sorted_by(views(files@), name_order()),
            views(files@).to_multiset() == all.take(i as int).filter(pick).to_multiset(),
        decreases names.len() - i,
    {
        let ghost done = all.take(i as int);
        assert(all.take(i + 1) =~= done.push(all[i as int]));
        proof {
            reveal(Seq::filter);
            assert(done.push(all[i as int]).drop_last() =~= done);
            vstd::seq_lib::to_multiset_build(done.filter(pick), all[i as int]);
        }
        assert(all[i as int] == names@[i as int]@);
        if has_toml_extension(names[i].as_str()) {
            insert_sorted(&mut files, names[i].clone());
        }
        i += 1;
    }
    assert(all.take(i as int) =~= all);
    files
}

fn join_all(dir: &str, files: &Vec<String>) -> (paths: Vec<String>)
    ensures
        views(paths@) == paths_in(dir@, views(files@)),
{
    let mut paths: Vec<String> = Vec::new();
    let mut i: usize = 0;
    while i < files.len()
        invariant
            i <= files.len(),
            views(paths@) == paths_in(dir@, views(files@)).take(i as int),
        decreases files.len() - i,
    {
        let ghost before = views(paths@);
        let path = join(dir, files[i].as_str());
        paths.push(path);
        assert(views(paths@) =~= before.push(path@));
        i += 1;
        assert(views(paths@) =~= paths_in(dir@, views(files@)).take(i as int));
    }
    assert(paths_in(dir@, views(files@)).take(i as int) =~= paths_in(dir@, views(files@)));
    paths
}

impl Config {
    /// The paths of the configuration files in the workflows directory, in
    /// the order of their names. There has to be one.
    pub fn find_all(dir: &str, listing: DirListing) -> (found: Result<Vec<String>, String>)
        ensures
            match listing {
                DirListing::NotADirectory => found is Err && found->Err_0@ == "--workflows path "@
                    + quoted_path(dir@) + " is not a directory"@,
                DirListing::Unreadable(e) => found is Err && found->Err_0@ == e@,
                DirListing::Names(names) => exists|files: Seq<Seq<char>>| #[trigger]
                    selected(files, views(names@)) && (if files.len() == 0 {
                        found is Err && found->Err_0@
                            == "no .toml files found in --workflows directory "@ + quoted_path(dir@)
                    } else {
                        found is Ok && views(found->Ok_0@) == paths_in(dir@, files)
                    }),
            },
    {
        match listing {
            DirListing::NotADirectory => Err(
                "--workflows path ".to_string().concat(quote_path(dir).as_str()).concat(
                    " is not a directory",
                ),
            ),
            DirListing::Unreadable(e) => Err(e),
            DirListing::Names(names) => {
                let files = select_files(&names);
                assert(selected(views(files@), views(names@)));
                if files.len() == 0 {
                    return Err(
                        "no .toml files found in --workflows directory ".to_string().concat(
                            quote_path(dir).as_str(),
                        ),
                    );
                }
                Ok(join_all(dir, &files))
            },
        }
    }

    /// The workflows of configuration files, each given with its path. The
    /// first file that is refused decides.
    pub fn load_all(files: Vec<(String, ConfigSource)>) -> (loaded: Result<Vec<Config>, String>)
        ensures
            match loaded {
                Ok(configs) => {
                    &&& configs@.len() == files@.len()
                    &&& forall|i: int|
                        0 <= i < files@.len() ==> (#[trigger] files@[i]).1 == ConfigSource::Parsed(
                            configs@[i],
                        ) && configs@[i].valid()
                },
                Err(e) => exists|k: int|
                    0 <= k < files@.len() && refusal((#[trigger] files@[k]).0@, files@[k].1) == Some(
                        e@,
                    ) && forall|i: int|
                        0 <= i < k ==> refusal((#[trigger] files@[i]).0@, files@[i].1) is None,
            },
    {
        let ghost all = files@;
        let mut rest = files;
        let mut configs: Vec<Config> = Vec::new();
        while rest.len() > 0
            invariant
                all == files@,
                configs@.len() + rest@.len() == all.len(),
                rest@ == all.skip(configs@.len() as int),
                forall|i: int|
                    0 <= i < configs@.len() ==> refusal((#[trigger] all[i]).0@, all[i].1) is None,
                forall|i: int|
                    0 <= i < configs@.len() ==> (#[trigger] all[i]).1 == ConfigSource::Parsed(
                        configs@[i],
                    ) && configs@[i].valid(),
            decreases rest.len(),
        {
            let ghost k = configs@.len() as int;
            let (path, source) = rest.remove(0);
            assert(all[k] == (path, source));
            match Config::load(path.as_str(), source) {
                Ok(config) => {
                    configs.push(config);
                },
                Err(e) => {
                    assert(refusal(all[k].0@, all[k].1) == Some(e@));
                    return Err(e);
                },
            }
            assert(rest@ =~= all.skip(configs@.len() as int));
        }
        Ok(configs)
    }
}

/// Which files are loaded, and in which order, does not depend on the order in
/// which the directory lists them.
pub proof fn law_files_ignore_listing_order(
    files: Seq<Seq<char>>,
    names: Seq<Seq<char>>,
    other_files: Seq<Seq<char>>,
    other_names: Seq<Seq<char>>,
)
    requires
        names.to_multiset() == other_names.to_multiset(),
        selected(files, names),
        selected(other_files, other_names),
    ensures
        files == other_files,
{
    lemma_name_order();
    lemma_filter_multiset(names);
    lemma_filter_multiset(other_names);
    let pick = toml_names();
    assert(files.to_multiset() =~= other_files.to_multiset()) by {
        assert forall|n: Seq<char>|
            names.filter(pick).to_multiset().count(n) == other_names.filter(
                pick,
            ).to_multiset().count(n) by {
            assert(names.to_multiset().count(n) == other_names.to_multiset().count(n));
        }
    }
    vstd::seq_lib::lemma_sorted_unique(files, other_files, name_order());
}

proof fn lemma_filter_multiset(names: Seq<Seq<char>>)
    ensures
        forall|n: Seq<char>|
            (#[trigger] names.filter(toml_names()).to_multiset().count(n)) == (
            if is_toml_name(n) {
                names.to_multiset().count(n)
            } else {
                0
            }),
    decreases names.len(),
{
    broadcast use vstd::multiset::group_multiset_axioms;

    let pick = toml_names();
    reveal(Seq::filter);
    if names.len() == 0 {
        assert(names.filter(pick) =~= Seq::<Seq<char>>::empty());
        assert(names =~= Seq::<Seq<char>>::empty());
        vstd::seq_lib::to_multiset_len(names);
        vstd::seq_lib::to_multiset_len(names.filter(pick));
    } else {
        let front = names.drop_last();
        let last = names.last();
        lemma_filter_multiset(front);
        assert(names =~= front.push(last));
        vstd::seq_lib::to_multiset_build(front, last);
        vstd::seq_lib::to_multiset_build(front.filter(pick), last);
        assert forall|n: Seq<char>|
            (#[trigger] names.filter(pick).to_multiset().count(n)) == (if is_toml_name(n) {
                names.to_multiset().count(n)
            } else {
                0
            }) by {
            assert(front.filter(pick).to_multiset().count(n) == (if is_toml_name(n) {
                front.to_multiset().count(n)
            } else {
                0
            }));
        }
    }
}

// ---------------------------------------------------------------------------
// The command line
// ---------------------------------------------------------------------------

/// The name of the program.
pub const PROGRAM: &'static str = "agent-orchestrator";

/// What the program does, in a few words.
pub const ABOUT: &'static str = "Poll GitHub and run agent workflows";

/// The values of the command line.
pub struct Cli {
    /// The directory of the workflow files.
    pub workflows: String,
    /// How many workflow runs there may be at a time; 0 for any number.
    pub limit: usize,
    /// The poll interval in seconds.
    pub interval: u64,
    /// The data directory.
    pub data_dir: Option<String>,
    /// Whether the output of harnesses is also shown on the terminal.
    pub show_logs: bool,
}

/// What the value of an option has to be.
#[derive(Clone, Copy, Debug, PartialEq, Eq, Structural)]
pub enum ValueKind {
    Text,
    /// A path: a text of which clap itself sees to it that it is not empty.
    Path,
    /// A number that fits into the machine word.
    Limit,
    /// A number of seconds.
    Seconds,
}

/// An option of the command line.
pub struct CliOption {
    /// The name behind the two hyphens.
    pub flag: &'static str,
    pub help: &'static str,
    /// How many values it takes: one, or none if it is a switch.
    pub values: usize,
    /// How its value is called; nothing for a switch.
    pub value_name: Option<&'static str>,
    /// Its value if the option is not given.
    pub default: Option<&'static str>,
    /// The value of a switch that is given.
    pub implied: &'static str,
    pub kind: ValueKind,
}

/// An option as a mathematical value.
#[verifier::ext_equal]
pub struct OptionModel {
    pub flag: Seq<char>,
    pub help: Seq<char>,
    pub values: usize,
    pub value_name: Option<Seq<char>>,
    pub default: Option<Seq<char>>,
    pub implied: Seq<char>,
    pub kind: ValueKind,
}

/// A text that may be absent, as a mathematical value.
pub open spec fn opt_str_view(s: Option<&'static str>) -> Option<Seq<char>> {
    match s {
        Some(x) => Some(x@),
        None => None,
    }
}

impl View for CliOption {
    type V = OptionModel;

    open spec fn view(&self) -> OptionModel {
        OptionModel {
            flag: self.flag@,
            help: self.help@,
            values: self.values,
            value_name: opt_str_view(self.value_name),
            default: opt_str_view(self.default),
            implied: self.implied@,
            kind: self.kind,
        }
    }
}

/// Options as mathematical values.
pub open spec fn option_views(options: Seq<CliOption>) -> Seq<OptionModel> {
    options.map_values(|o: CliOption| o@)
}

/// The options of the program.
pub open spec fn program_options() -> Seq<OptionModel> {
    seq![
        OptionModel {
            flag: "workflows"@,
            help: "Directory containing workflow TOML files"@,
            values: 1,
            value_name: Some("WORKFLOWS"@),
            default: Some("."@),
            implied: "."@,
            kind: ValueKind::Path,
        },
        OptionModel {
            flag: "limit"@,
            help: "Maximum number of concurrent workflow runs. 0 means unlimited"@,
            values: 1,
            value_name: Some("LIMIT"@),
            default: Some("0"@),
            implied: "0"@,
            kind: ValueKind::Limit,
        },
        OptionModel {
            flag: "interval"@,
            help: "Poll interval in seconds. How often to check for new events"@,
            values: 1,
            value_name: Some("INTERVAL"@),
            default: Some("60"@),
            implied: "60"@,
            kind: ValueKind::Seconds,
        },
        OptionModel {
            flag: "data-dir"@,
            help: "Data directory for logs and state"@,
            values: 1,
            value_name: Some("DIR"@),
            default: None,
            implied: "."@,
            kind: ValueKind::Path,
        },
        OptionModel {
            flag: "show-logs"@,
            help: "Print harness agent stdout/stderr to the terminal in addition to writing them to log files in the data directory"@,
            values: 0,
            value_name: None,
            default: None,
            implied: "true"@,
            kind: ValueKind::Text,
        },
    ]
}

/// Why the program ends instead of starting.
pub struct CliError {
    pub text: String,
    pub exit_code: i32,
    /// Whether the text is an error, and no help that was asked for.
    pub to_stderr: bool,
}

/// What is wrong with a text as the value of an option of the given kind;
/// nothing if it can be one. Of a path, clap says that itself.
pub open spec fn value_flaw(kind: ValueKind, value: Seq<char>) -> Option<Seq<char>> {
    match kind {
        ValueKind::Text | ValueKind::Path => None,
        ValueKind::Limit => if parsed_number(value, usize::MAX as nat) is Some {
            None
        } else {
            Some(number_flaw(value, usize::MAX as nat))
        },
        ValueKind::Seconds => if parsed_number(value, u64::MAX as nat) is Some {
            None
        } else {
            Some(number_flaw(value, u64::MAX as nat))
        },
    }
}

/// Whether a text can be the value of an option of the given kind, or what is
/// wrong with it.
pub fn check_value(kind: ValueKind, value: &str) -> (checked: Result<String, String>)
    ensures
        match checked {
            Ok(v) => v@ == value@ && value_flaw(kind, value@) is None,
            Err(e) => value_flaw(kind, value@) == Some(e@),
        },
{
    let max: u64 = match kind {
        ValueKind::Text | ValueKind::Path => {
            return Ok(value.to_owned());
        },
        ValueKind::Limit => usize::MAX as u64,
        ValueKind::Seconds => u64::MAX,
    };
    match parse_number(value, max) {
        Some(_) => Ok(value.to_owned()),
        None => Err(find_number_flaw(value, max)),
    }
}

/// The values of options that may be absent.
pub open spec fn value_views(values: Seq<Option<String>>) -> Seq<Option<Seq<char>>> {
    values.map_values(|v: Option<String>| opt_view(v))
}

/// What clap reads from the words of a command line: the value of each
/// option, or else a text and whether it is an error (and not the help that
/// was asked for).
pub uninterp spec fn command_line(
    program: Seq<char>,
    about: Seq<char>,
    options: Seq<OptionModel>,
    words: Seq<Seq<char>>,
) -> Result<Seq<Option<Seq<char>>>, (Seq<char>, bool)>;

#[verifier::external_type_specification]
#[verifier::external_body]
pub struct ExCommand(clap::Command);

/// The options that a command of clap holds, in the order in which they were
/// added.
pub uninterp spec fn command_options(command: clap::Command) -> Seq<OptionModel>;

/// The name of a command of clap, and what it says of itself.
pub uninterp spec fn command_title(command: clap::Command) -> (Seq<char>, Seq<char>);

/// `clap::Command::new`, with `clap::Command::about`: a command of the given
/// name and description, without options.
#[verifier::external_body]
fn new_command(program: &'static str, about: &'static str) -> (command: clap::Command)
    ensures
        command_title(command) == (program@, about@),
        command_options(command) == Seq::<OptionModel>::empty(),
{
    clap::Command::new(program).about(about)
}

/// `clap::Command::arg`, for an option whose value is read by
/// `clap::builder::NonEmptyStringValueParser`: the option is the last one of
/// the command, and the others stay.
#[verifier::external_body]
fn with_path(command: clap::Command, option: &CliOption) -> (more: clap::Command)
    requires
        option.kind == ValueKind::Path,
    ensures
        command_title(more) == command_title(command),
        command_options(more) == command_options(command).push(option@),
{
    let o = option;
    let parser = clap::builder::NonEmptyStringValueParser::new();
    command.arg(
        clap::Arg::new(o.flag).long(o.flag).help(o.help).action(clap::ArgAction::Set)
            .num_args(o.values).value_names(o.value_name).default_values(o.default)
            .default_missing_value(o.implied).value_parser(parser),
    )
}

/// `clap::Command::arg`, for an option whose value is read by `check_value`:
/// the option is the last one of the command, and the others stay.
#[verifier::external_body]
fn with_checked(command: clap::Command, option: &CliOption) -> (more: clap::Command)
    requires
        option.kind != ValueKind::Path,
    ensures
        command_title(more) == command_title(command),
        command_options(more) == command_options(command).push(option@),
{
    let o = option;
    let kind = option.kind;
    command.arg(
        clap::Arg::new(o.flag).long(o.flag).help(o.help).action(clap::ArgAction::Set)
            .num_args(o.values).value_names(o.value_name).default_values(o.default)
            .default_missing_value(o.implied).value_parser(move |s: &str| check_value(kind, s)),
    )
}

/// `clap::Command::try_get_matches_from`, for the options of the program:
/// what it reads depends on the name and the description of the command, its
/// options and the words alone. Each option gets one value or none.
#[verifier::external_body]
fn clap_parse(
    command: clap::Command,
    options: &Vec<CliOption>,
    words: &Vec<String>,
) -> (parsed: Result<Vec<Option<String>>, (String, bool)>)
    requires
        option_views(options@) == program_options(),
        command_options(command) == option_views(options@),
    ensures
        match parsed {
            Ok(values) => command_line(
                command_title(command).0,
                command_title(command).1,
                command_options(command),
                views(words@),
            ) == Ok::<Seq<Option<Seq<char>>>, (Seq<char>, bool)>(value_views(values@))
                && values@.len() == options@.len(),
            Err(e) => command_line(
                command_title(command).0,
                command_title(command).1,
                command_options(command),
                views(words@),
            ) == Err::<Seq<Option<Seq<char>>>, (Seq<char>, bool)>((e.0@, e.1)),
        },
{
    match command.try_get_matches_from(words) {
        Ok(m) => Ok(options.iter().map(|o| m.get_one(o.flag).cloned()).collect()),
        Err(e) => Err((e.render().to_string(), e.use_stderr())),
    }
}

/// A command with the given options.
fn make_command(
    program: &'static str,
    about: &'static str,
    options: &Vec<CliOption>,
) -> (command: clap::Command)
    ensures
        command_title(command) == (program@, about@),
        command_options(command) == option_views(options@),
{
    let mut command = new_command(program, about);
    let ghost all = option_views(options@);
    let mut i: usize = 0;
    assert(all.take(0) =~= Seq::<OptionModel>::empty());
    while i < options.len()
        invariant
            i <= options.len(),
            all == option_views(options@),
            command_title(command) == (program@, about@),
            command_options(command) == all.take(i as int),
        decreases options.len() - i,
    {
        assert(all.take(i + 1) =~= all.take(i as int).push(options@[i as int]@));
        command = if let ValueKind::Path = options[i].kind {
            with_path(command, &options[i])
        } else {
            with_checked(command, &options[i])
        };
        i += 1;
    }
    assert(all.take(i as int) =~= all);
    command
}

fn list_options() -> (options: Vec<CliOption>)
    ensures
        option_views(options@) == program_options(),
{
    let mut options: Vec<CliOption> = Vec::new();
    options.push(
        CliOption {
            flag: "workflows",
            help: "Directory containing workflow TOML files",
            values: 1,
            value_name: Some("WORKFLOWS"),
            default: Some("."),
            implied: ".",
            kind: ValueKind::Path,
        },
    );
    options.push(
        CliOption {
            flag: "limit",
            help: "Maximum number of concurrent workflow runs. 0 means unlimited",
            values: 1,
            value_name: Some("LIMIT"),
            default: Some("0"),
            implied: "0",
            kind: ValueKind::Limit,
        },
    );
    options.push(
        CliOption {
            flag: "interval",
            help: "Poll interval in seconds. How often to check for new events",
            values: 1,
            value_name: Some("INTERVAL"),
            default: Some("60"),
            implied: "60",
            kind: ValueKind::Seconds,
        },
    );
    options.push(
        CliOption {
            flag: "data-dir",
            help: "Data directory for logs and state",
            values: 1,
            value_name: Some("DIR"),
            default: None,
            implied: ".",
            kind: ValueKind::Path,
        },
    );
    options.push(
        CliOption {
            flag: "show-logs",
            help: "Print harness agent stdout/stderr to the terminal in addition to writing them to log files in the data directory",
            values: 0,
            value_name: None,
            default: None,
            implied: "true",
            kind: ValueKind::Text,
        },
    );
    assert(option_views(options@) =~= program_options());
    options
}

/// The number that a value stands for, or else the default.
pub open spec fn number_or(value: Option<Seq<char>>, max: nat, default: nat) -> nat {
    match value {
        Some(v) => match parsed_number(v, max) {
            Some(n) => n,
            None => default,
        },
        None => default,
    }
}

fn find_number(value: &Option<String>, max: u64, default: u64) -> (n: u64)
    ensures
        n == number_or(opt_view(*value), max as nat, default as nat),
{
    match value {
        Some(v) => match parse_number(v.as_str(), max) {
            Some(n) => n,
            None => default,
        },
        None => default,
    }
}

impl Cli {
    /// These are the values of the options, in the order of the options.
    pub open spec fn has_values(&self, values: Seq<Option<Seq<char>>>) -> bool {
        &&& self.workflows@ == (match values[0] {
            Some(v) => v,
            None => "."@,
        })
        &&& self.limit == number_or(values[1], usize::MAX as nat, 0)
        &&& self.interval == number_or(values[2], u64::MAX as nat, 60)
        &&& opt_view(self.data_dir) == values[3]
        &&& self.show_logs == values[4] is Some
    }

    /// The command line with the given values of its options: the defaults
    /// are the current directory, no limit, a minute, no data directory, and
    /// no output on the terminal.
    pub fn from_values(values: &Vec<Option<String>>) -> (cli: Cli)
        requires
            values@.len() == 5,
        ensures
            cli.has_values(value_views(values@)),
    {
        let workflows = match &values[0] {
            Some(v) => v.clone(),
            None => ".".to_string(),
        };
        let limit: u64 = find_number(&values[1], usize::MAX as u64, 0);
        let interval: u64 = find_number(&values[2], u64::MAX, 60);
        let data_dir = match &values[3] {
            Some(v) => Some(v.clone()),
            None => None,
        };
        let cli = Cli {
            workflows,
            limit: limit as usize,
            interval,
            data_dir,
            show_logs: values[4].is_some(),
        };
        proof {
            assert(value_views(values@)[0] == opt_view(values@[0]));
            assert(value_views(values@)[1] == opt_view(values@[1]));
            assert(value_views(values@)[2] == opt_view(values@[2]));
            assert(value_views(values@)[3] == opt_view(values@[3]));
            assert(value_views(values@)[4] == opt_view(values@[4]));
        }
        cli
    }

    /// Reads the words of a command line, the first of which is the name of
    /// the program.
    pub fn try_parse_from(words: &Vec<String>) -> (parsed: Result<Cli, CliError>)
        ensures
            match parsed {
                Ok(cli) => command_line(PROGRAM@, ABOUT@, program_options(), views(words@)) is Ok
                    && cli.has_values(
                    command_line(PROGRAM@, ABOUT@, program_options(), views(words@))->Ok_0,
                ),
                Err(e) => command_line(PROGRAM@, ABOUT@, program_options(), views(words@)) == Err::<
                    Seq<Option<Seq<char>>>,
                    (Seq<char>, bool),
                >((e.text@, e.to_stderr)) && e.exit_code == (if e.to_stderr {
                    2int
                } else {
                    0
                }),
            },
    {
        let options = list_options();
        let command = make_command(PROGRAM, ABOUT, &options);
        match clap_parse(command, &options, words) {
            Ok(values) => {
                assert(option_views(options@).len() == options@.len());
                Ok(Cli::from_values(&values))
            },
            Err((text, to_stderr)) => Err(
                CliError {
                    text,
                    exit_code: if to_stderr {
                        2
                    } else {
                        0
                    },
                    to_stderr,
                },
            ),
        }
    }
}

// ---------------------------------------------------------------------------
// Laws
// ---------------------------------------------------------------------------

/// A configuration file can be used: it was read, is a configuration, and has a
/// trigger and a step, and a worktree only with a clone.
pub open spec fn usable(source: ConfigSource) -> bool {
    source matches ConfigSource::Parsed(config) && config.triggers@.len() > 0
        && config.steps@.len() > 0 && (config.git.worktree ==> config.git.clone)
}

/// Which configuration files are accepted, and what is said of the others. What
/// is accepted is the configuration as it stands in the file.
pub proof fn law_workflow_is_accepted_if_usable(
    path: &str,
    source: ConfigSource,
    loaded: Result<Config, String>,
)
    requires
        call_ensures(Config::load, (path, source), loaded),
    ensures
        loaded is Ok <==> usable(source),
        loaded matches Ok(config) ==> source == ConfigSource::Parsed(config),
        source matches ConfigSource::Unreadable(e) ==> loaded->Err_0@ == "reading config from "@
            + quoted_path(path@) + ": "@ + e@,
        source matches ConfigSource::Malformed(e) ==> loaded->Err_0@ == "parsing config from "@
            + quoted_path(path@) + ": "@ + e@,
        source matches ConfigSource::Parsed(config) ==> {
            &&& config.triggers@.len() == 0 ==> loaded->Err_0@ == "config "@ + quoted_path(path@)
                + " must define at least one [[triggers]] entry"@
            &&& config.triggers@.len() > 0 && config.steps@.len() == 0 ==> loaded->Err_0@
                == "config "@ + quoted_path(path@) + " contains no [[steps]]"@
            &&& config.triggers@.len() > 0 && config.steps@.len() > 0 && config.git.worktree
                && !config.git.clone ==> loaded->Err_0@ == "config "@ + quoted_path(path@)
                + ": git.worktree requires git.clone to be true"@
        },
{
}

/// Several configuration files are accepted if each of them is, and then all of
/// them, in their order. Otherwise the error is that of the first one that is
/// not.
pub proof fn law_all_workflows_have_to_be_usable(
    files: Vec<(String, ConfigSource)>,
    loaded: Result<Vec<Config>, String>,
)
    requires
        call_ensures(Config::load_all, (files,), loaded),
    ensures
        loaded is Ok <==> forall|i: int| 0 <= i < files@.len() ==> usable((#[trigger] files@[i]).1),
        loaded matches Ok(configs) ==> configs@.len() == files@.len() && forall|i: int|
            0 <= i < files@.len() ==> (#[trigger] files@[i]).1 == ConfigSource::Parsed(configs@[i]),
        loaded matches Err(e) ==> exists|k: int|
            {
                &&& 0 <= k < files@.len()
                &&& refusal((#[trigger] files@[k]).0@, files@[k].1) == Some(e@)
                &&& forall|i: int| 0 <= i < k ==> usable((#[trigger] files@[i]).1)
            },
{
    assert forall|i: int| 0 <= i < files@.len() implies (usable((#[trigger] files@[i]).1)
        <==> refusal(files@[i].0@, files@[i].1) is None) by {}
}

/// A name stands before another one, or is the same: it is the front of it, or
/// has the smaller character where they first differ.
pub open spec fn in_order(a: Seq<char>, b: Seq<char>) -> bool {
    exists|k: int|
        0 <= k <= a.len() && k <= b.len() && #[trigger] a.take(k) == b.take(k) && (k == a.len() || k
            < b.len() && a[k] < b[k])
}

proof fn lemma_name_le_is_in_order(a: Seq<char>, b: Seq<char>)
    requires
        name_le(a, b),
    ensures
        in_order(a, b),
    decreases a.len(),
{
    if a.len() == 0 || a[0] != b[0] {
        assert(a.take(0) =~= b.take(0));
    } else {
        let (x, y) = (a.skip(1), b.skip(1));
        lemma_name_le_is_in_order(x, y);
        let k = choose|k: int|
            0 <= k <= x.len() && k <= y.len() && #[trigger] x.take(k) == y.take(k) && (k == x.len()
                || k < y.len() && x[k] < y[k]);
        assert forall|i: int| 0 <= i < k + 1 implies a[i] == b[i] by {
            if i > 0 {
                assert(x.take(k)[i - 1] == a[i]);
                assert(y.take(k)[i - 1] == b[i]);
            }
        }
        assert(a.take(k + 1) =~= b.take(k + 1));
    }
}

proof fn lemma_selected(files: Seq<Seq<char>>, names: Seq<Seq<char>>, n: Seq<char>)
    requires
        selected(files, names),
    ensures
        files.contains(n) <==> names.contains(n) && is_toml_name(n),
{
    broadcast use vstd::seq_lib::group_to_multiset_ensures;

    lemma_filter_multiset(names);
    assert(names.filter(toml_names()).to_multiset().count(n) == files.to_multiset().count(n));
    assert(files.contains(n) <==> files.to_multiset().count(n) > 0);
    assert(names.contains(n) <==> names.to_multiset().count(n) > 0);
}

/// The name of a workflow file: it ends in `.toml`, behind something else.
pub open spec fn workflow_file(name: Seq<char>) -> bool {
    name.len() > 5 && name.skip(name.len() - 5) == ".toml"@
}

/// What makes the name of a workflow file.
pub proof fn lemma_workflow_file(name: Seq<char>)
    ensures
        is_toml_name(name) <==> workflow_file(name),
{
    reveal_strlit(".toml");
    if name.len() > 5 {
        assert(name.skip(name.len() - 5) =~= name.subrange(name.len() - 5, name.len() - 5 + 5));
    }
}

/// The files that were found, by their names.
proof fn lemma_found_files(dir: &str, names: Vec<String>, found: Result<Vec<String>, String>) -> (files:
    Seq<Seq<char>>)
    requires
        call_ensures(Config::find_all, (dir, DirListing::Names(names)), found),
    ensures
        selected(files, views(names@)),
        found is Ok <==> files.len() > 0,
        found is Err ==> found->Err_0@ == "no .toml files found in --workflows directory "@
            + quoted_path(dir@),
        found is Ok ==> found->Ok_0@.len() == files.len() && forall|k: int|
            0 <= k < files.len() ==> (#[trigger] found->Ok_0@[k])@ == joined_path(dir@, files[k]),
{
    let all = views(names@);
    assert(exists|files: Seq<Seq<char>>| #[trigger]
        selected(files, all) && (if files.len() == 0 {
            found is Err && found->Err_0@ == "no .toml files found in --workflows directory "@
                + quoted_path(dir@)
        } else {
            found is Ok && views(found->Ok_0@) == paths_in(dir@, files)
        }));
    let files = choose|files: Seq<Seq<char>>| #[trigger]
        selected(files, all) && (if files.len() == 0 {
            found is Err && found->Err_0@ == "no .toml files found in --workflows directory "@
                + quoted_path(dir@)
        } else {
            found is Ok && views(found->Ok_0@) == paths_in(dir@, files)
        });
    if found is Ok {
        let paths = views(found->Ok_0@);
        assert(paths.len() == found->Ok_0@.len());
        assert forall|k: int| 0 <= k < files.len() implies (#[trigger] found->Ok_0@[k])@
            == joined_path(dir@, files[k]) by {
            assert(paths[k] == found->Ok_0@[k]@);
            assert(paths_in(dir@, files)[k] == joined_path(dir@, files[k]));
        }
    }
    files
}

/// Every workflow file of a directory is found, and so there is no error if
/// there is one.
pub proof fn law_every_workflow_file_is_found(
    dir: &str,
    names: Vec<String>,
    found: Result<Vec<String>, String>,
    i: int,
)
    requires
        call_ensures(Config::find_all, (dir, DirListing::Names(names)), found),
        0 <= i < names@.len(),
        workflow_file(names@[i]@),
    ensures
        found is Ok,
        exists|k: int|
            0 <= k < found->Ok_0@.len() && (#[trigger] found->Ok_0@[k])@ == joined_path(
                dir@,
                names@[i]@,
            ),
{
    let files = lemma_found_files(dir, names, found);
    let all = views(names@);
    let name = names@[i]@;
    assert(all[i] == name);
    lemma_workflow_file(name);
    lemma_selected(files, all, name);
    let k = choose|k: int| 0 <= k < files.len() && files[k] == name;
    assert(found->Ok_0@[k]@ == joined_path(dir@, files[k]));
}

/// There is an error exactly if no workflow file is found.
pub proof fn law_some_workflow_file_is_needed(
    dir: &str,
    names: Vec<String>,
    found: Result<Vec<String>, String>,
)
    requires
        call_ensures(Config::find_all, (dir, DirListing::Names(names)), found),
    ensures
        found is Ok ==> found->Ok_0@.len() > 0,
        found is Err ==> found->Err_0@ == "no .toml files found in --workflows directory "@
            + quoted_path(dir@),
        found is Err ==> forall|i: int|
            0 <= i < names@.len() ==> !workflow_file((#[trigger] names@[i])@),
{
    let files = lemma_found_files(dir, names, found);
    assert forall|i: int| found is Err && 0 <= i < names@.len() implies !workflow_file(
        (#[trigger] names@[i])@,
    ) by {
        if workflow_file(names@[i]@) {
            law_every_workflow_file_is_found(dir, names, found, i);
        }
    }
}

/// Only workflow files of the directory are found.
pub proof fn law_only_workflow_files_are_found(
    dir: &str,
    names: Vec<String>,
    found: Result<Vec<String>, String>,
    k: int,
)
    requires
        call_ensures(Config::find_all, (dir, DirListing::Names(names)), found),
        found is Ok,
        0 <= k < found->Ok_0@.len(),
    ensures
        exists|i: int|
            0 <= i < names@.len() && workflow_file((#[trigger] names@[i])@) && found->Ok_0@[k]@
                == joined_path(dir@, names@[i]@),
{
    let files = lemma_found_files(dir, names, found);
    let all = views(names@);
    assert(found->Ok_0@[k]@ == joined_path(dir@, files[k]));
    assert(files.contains(files[k]));
    lemma_selected(files, all, files[k]);
    lemma_workflow_file(files[k]);
    let i = choose|i: int| 0 <= i < all.len() && all[i] == files[k];
    assert(names@[i]@ == files[k]);
}

/// The workflow files are loaded in the order of their names.
pub proof fn law_workflow_files_are_in_order(
    dir: &str,
    names: Vec<String>,
    found: Result<Vec<String>, String>,
    j: int,
    k: int,
)
    requires
        call_ensures(Config::find_all, (dir, DirListing::Names(names)), found),
        found is Ok,
        0 <= j < k < found->Ok_0@.len(),
    ensures
        exists|a: Seq<char>, b: Seq<char>|
            found->Ok_0@[j]@ == joined_path(dir@, a) && found->Ok_0@[k]@ == joined_path(dir@, b)
                && #[trigger] in_order(a, b),
{
    let files = lemma_found_files(dir, names, found);
    assert(found->Ok_0@[j]@ == joined_path(dir@, files[j]));
    assert(found->Ok_0@[k]@ == joined_path(dir@, files[k]));
    assert(name_order()(files[j], files[k]));
    lemma_name_le_is_in_order(files[j], files[k]);
}

/// A path that is no directory, or a directory that cannot be read, is an
/// error.
pub proof fn law_directory_is_needed(
    dir: &str,
    listing: DirListing,
    found: Result<Vec<String>, String>,
)
    requires
        call_ensures(Config::find_all, (dir, listing), found),
        !(listing is Names),
    ensures
        found is Err,
        listing is NotADirectory ==> found->Err_0@ == "--workflows path "@ + quoted_path(dir@)
            + " is not a directory"@,
        listing matches DirListing::Unreadable(e) ==> found->Err_0@ == e@,
{
}

/// What the values of the command line come to: each option has its own value,
/// and its own default if it is absent. A number is the one that is written.
pub proof fn law_command_line_values(
    values: Vec<Option<String>>,
    cli: Cli,
    limit: usize,
    interval: u64,
)
    requires
        values@.len() == 5,
        call_ensures(Cli::from_values, (&values,), cli),
    ensures
        values@[0] matches Some(dir) ==> cli.workflows@ == dir@,
        values@[0] is None ==> cli.workflows@ == "."@,
        values@[1] is Some && values@[1]->0@ == decimal(limit as nat) ==> cli.limit == limit,
        values@[1] is None ==> cli.limit == 0,
        values@[2] is Some && values@[2]->0@ == decimal(interval as nat) ==> cli.interval
            == interval,
        values@[2] is None ==> cli.interval == 60,
        values@[3] matches Some(dir) ==> cli.data_dir is Some && cli.data_dir->0@ == dir@,
        values@[3] is None ==> cli.data_dir is None,
        cli.show_logs <==> values@[4] is Some,
{
    let all = value_views(values@);
    assert(all[0] == opt_view(values@[0]));
    assert(all[1] == opt_view(values@[1]));
    assert(all[2] == opt_view(values@[2]));
    assert(all[3] == opt_view(values@[3]));
    assert(all[4] == opt_view(values@[4]));
    law_decimal_parses_back(limit as nat, usize::MAX as nat);
    law_decimal_parses_back(interval as nat, u64::MAX as nat);
}

/// A text is taken as the value of an option as it is. A number has to be one
/// that fits: the numeral of any such number is taken, a text with anything
/// else than digits behind its first character is refused, and so is none at
/// all.
pub proof fn law_option_values(
    kind: ValueKind,
    value: &str,
    checked: Result<String, String>,
    n: nat,
)
    requires
        call_ensures(check_value, (kind, value), checked),
    ensures
        checked matches Ok(v) ==> v@ == value@,
        kind is Text || kind is Path ==> checked is Ok,
        kind is Seconds && n <= u64::MAX && value@ == decimal(n) ==> checked is Ok,
        kind is Limit && n <= usize::MAX && value@ == decimal(n) ==> checked is Ok,
        (kind is Seconds || kind is Limit) && value@.len() == 0 ==> checked is Err
            && checked->Err_0@ == "cannot parse integer from empty string"@,
        kind is Seconds || kind is Limit ==> forall|i: int|
            0 < i < value@.len() && !('0' <= #[trigger] value@[i] <= '9') ==> checked is Err,
{
    if n <= u64::MAX {
        law_decimal_parses_back(n, u64::MAX as nat);
    }
    if n <= usize::MAX {
        law_decimal_parses_back(n, usize::MAX as nat);
    }
    if kind is Seconds || kind is Limit {
        assert forall|i: int|
            0 < i < value@.len() && !('0' <= #[trigger] value@[i] <= '9') implies checked is Err by {
            let digits = unsigned_part(value@);
            if value@[0] == '+' {
                assert(digits[i - 1] == value@[i]);
            } else {
                assert(digits[i] == value@[i]);
            }
        }
    }
}

/// The program ends with 2 for a command line that is wrong, and with 0 after
/// help that was asked for; a command line that can be read starts it.
pub proof fn law_command_line_ends(words: Vec<String>, parsed: Result<Cli, CliError>)
    requires
        call_ensures(Cli::try_parse_from, (&words,), parsed),
    ensures
        parsed matches Err(e) ==> e.exit_code == (if e.to_stderr {
            2int
        } else {
            0
        }),
        parsed is Ok <==> command_line(
            "agent-orchestrator"@,
            "Poll GitHub and run agent workflows"@,
            program_options(),
            views(words@),
        ) is Ok,
{
}

/// What holds of git unless the configuration says otherwise: the branch is
/// `main`, the repository is cloned, and there is no worktree.
pub proof fn law_git_defaults(git: GitConfig)
    requires
        call_ensures(<GitConfig as Default>::default, (), git),
    ensures
        git.default_branch@ == "main"@,
        git.clone,
        !git.worktree,
{
}

} // verus!
