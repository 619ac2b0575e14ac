//! The command line: flags that name a field, shorthands for a type of
//! entry, colour switches, and the values that follow them.

use vstd::prelude::*;
use crate::fields::{texts, FieldMap};
use crate::text::same_text;

verus! {

/// The field names that a flag can select.
#[derive(Clone, Copy, Debug, PartialEq, Eq, Structural)]
pub enum FieldName {
    Added,
    Deprecated,
    Comments,
    Description,
    Macrolanguage,
    PreferredValue,
    Prefix,
    Scope,
    Subtag,
    SuppressScript,
    Tag,
    Type,
}

impl FieldName {
    /// The name as it is written in the registry.
    pub open spec fn text(self) -> Seq<char> {
        match self {
            FieldName::Added => "Added"@,
            FieldName::Deprecated => "Deprecated"@,
            FieldName::Comments => "Comments"@,
            FieldName::Description => "Description"@,
            FieldName::Macrolanguage => "Macrolanguage"@,
            FieldName::PreferredValue => "Preferred-Value"@,
            FieldName::Prefix => "Prefix"@,
            FieldName::Scope => "Scope"@,
            FieldName::Subtag => "Subtag"@,
            FieldName::SuppressScript => "Suppress-Script"@,
            FieldName::Tag => "Tag"@,
            FieldName::Type => "Type"@,
        }
    }

    /// The name as it is written in the registry.
    pub fn as_str(self) -> (r: &'static str)
        ensures
            r@ == self.text(),
    {
        match self {
            FieldName::Added => "Added",
            FieldName::Deprecated => "Deprecated",
            FieldName::Comments => "Comments",
            FieldName::Description => "Description",
            FieldName::Macrolanguage => "Macrolanguage",
            FieldName::PreferredValue => "Preferred-Value",
            FieldName::Prefix => "Prefix",
            FieldName::Scope => "Scope",
            FieldName::Subtag => "Subtag",
            FieldName::SuppressScript => "Suppress-Script",
            FieldName::Tag => "Tag",
            FieldName::Type => "Type",
        }
    }
}

/// The shorthands: each stands for an exact type and names the field that
/// the next value goes to.
#[derive(Clone, Copy, Debug, PartialEq, Eq, Structural)]
pub enum Shorthand {
    Extlang,
    Grandfathered,
    Language,
    Redundant,
    Region,
    Script,
    Variant,
}

impl Shorthand {
    /// The exact pattern that the shorthand puts under `Type`.
    pub open spec fn pattern(self) -> Seq<char> {
        match self {
            Shorthand::Extlang => "=extlang"@,
            Shorthand::Grandfathered => "=grandfathered"@,
            Shorthand::Language => "=language"@,
            Shorthand::Redundant => "=redundant"@,
            Shorthand::Region => "=region"@,
            Shorthand::Script => "=script"@,
            Shorthand::Variant => "=variant"@,
        }
    }

    /// The field that the value after the shorthand goes to.
    pub open spec fn target(self) -> FieldName {
        match self {
            Shorthand::Extlang => FieldName::Subtag,
            Shorthand::Grandfathered => FieldName::Tag,
            Shorthand::Language => FieldName::Subtag,
            Shorthand::Redundant => FieldName::Tag,
            Shorthand::Region => FieldName::Subtag,
            Shorthand::Script => FieldName::Subtag,
            Shorthand::Variant => FieldName::Subtag,
        }
    }

    /// The exact pattern that the shorthand puts under `Type`.
    pub fn pattern_str(self) -> (r: &'static str)
        ensures
            r@ == self.pattern(),
    {
        match self {
            Shorthand::Extlang => "=extlang",
            Shorthand::Grandfathered => "=grandfathered",
            Shorthand::Language => "=language",
            Shorthand::Redundant => "=redundant",
            Shorthand::Region => "=region",
            Shorthand::Script => "=script",
            Shorthand::Variant => "=variant",
        }
    }

    /// The field that the value after the shorthand goes to.
    pub fn target_field(self) -> (r: FieldName)
        ensures
            r == self.target(),
    {
        match self {
            Shorthand::Extlang => FieldName::Subtag,
            Shorthand::Grandfathered => FieldName::Tag,
            Shorthand::Language => FieldName::Subtag,
            Shorthand::Redundant => FieldName::Tag,
            Shorthand::Region => FieldName::Subtag,
            Shorthand::Script => FieldName::Subtag,
            Shorthand::Variant => FieldName::Subtag,
        }
    }
}

/// What one argument is.
#[derive(Clone, Copy, Debug, PartialEq, Eq, Structural)]
pub enum Argument {
    /// A shorthand flag.
    Short(Shorthand),
    /// A flag that names the field of the next value.
    Name(FieldName),
    /// A switch that forces colour on or off.
    Color(bool),
    /// The request for help.
    Help,
    /// Anything else: a value, or a flag that is not known.
    Other,
}

/// Whether colour was forced on the command line.
#[derive(Clone, Copy, Debug, PartialEq, Eq, Structural)]
pub enum ColorMode {
    /// Not said: colour goes by whether the output is a terminal.
    Auto,
    Always,
    Never,
}

/// Why the command line gives no search to run.
#[derive(Clone, Copy, Debug, PartialEq, Eq, Structural)]
pub enum UsageError {
    /// Help was asked for.
    HelpRequested,
    /// An argument that is no known flag came where no value was awaited.
    Unexpected,
    /// The arguments name no field to filter by.
    NoFilter,
}

/// What a given argument is, by its text.
pub open spec fn argument_kind(arg: Seq<char>) -> Argument {
    if arg == "-el"@ || arg == "--extlang"@ {
        Argument::Short(Shorthand::Extlang)
    }     else if arg == "-gf"@ || arg == "--grandfathered"@ {
        Argument::Short(Shorthand::Grandfathered)
    }     else if arg == "-l"@ || arg == "--language"@ {
        Argument::Short(Shorthand::Language)
    }     else if arg == "-red"@ || arg == "--redundant"@ {
        Argument::Short(Shorthand::Redundant)
    }     else if arg == "-r"@ || arg == "--region"@ {
        Argument::Short(Shorthand::Region)
    }     else if arg == "-s"@ || arg == "--script"@ {
        Argument::Short(Shorthand::Script)
    }     else if arg == "-v"@ || arg == "--variant"@ {
        Argument::Short(Shorthand::Variant)
    } else if arg == "-add"@ || arg == "--added"@ {
        Argument::Name(FieldName::Added)
    } else if arg == "-dep"@ || arg == "--deprecated"@ {
        Argument::Name(FieldName::Deprecated)
    } else if arg == "-cmt"@ || arg == "--comments"@ {
        Argument::Name(FieldName::Comments)
    } else if arg == "-d"@ || arg == "-desc"@ || arg == "--description"@ {
        Argument::Name(FieldName::Description)
    } else if arg == "-mac"@ || arg == "--macrolanguage"@ {
        Argument::Name(FieldName::Macrolanguage)
    } else if arg == "-pref"@ || arg == "--preferred-value"@ {
        Argument::Name(FieldName::PreferredValue)
    } else if arg == "-px"@ || arg == "--prefix"@ {
        Argument::Name(FieldName::Prefix)
    } else if arg == "-scp"@ || arg == "--scope"@ {
        Argument::Name(FieldName::Scope)
    } else if arg == "-stg"@ || arg == "--subtag"@ {
        Argument::Name(FieldName::Subtag)
    } else if arg == "-ss"@ || arg == "--suppress-script"@ {
        Argument::Name(FieldName::SuppressScript)
    } else if arg == "-tg"@ || arg == "--tag"@ {
        Argument::Name(FieldName::Tag)
    } else if arg == "-t"@ || arg == "--type"@ {
        Argument::Name(FieldName::Type)
    } else if arg == "--color=always"@ {
        Argument::Color(true)
    } else if arg == "--color=never"@ {
        Argument::Color(false)
    } else if arg == "-h"@ || arg == "--help"@ {
        Argument::Help
    } else {
        Argument::Other
    }
}

/// Tells what an argument is.
pub fn classify(arg: &str) -> (r: Argument)
    ensures
        r == argument_kind(arg@),
{
    if same_text(arg, "-el") || same_text(arg, "--extlang") {
        Argument::Short(Shorthand::Extlang)
    }     else if same_text(arg, "-gf") || same_text(arg, "--grandfathered") {
        Argument::Short(Shorthand::Grandfathered)
    }     else if same_text(arg, "-l") || same_text(arg, "--language") {
        Argument::Short(Shorthand::Language)
    }     else if same_text(arg, "-red") || same_text(arg, "--redundant") {
        Argument::Short(Shorthand::Redundant)
    }     else if same_text(arg, "-r") || same_text(arg, "--region") {
        Argument::Short(Shorthand::Region)
    }     else if same_text(arg, "-s") || same_text(arg, "--script") {
        Argument::Short(Shorthand::Script)
    }     else if same_text(arg, "-v") || same_text(arg, "--variant") {
        Argument::Short(Shorthand::Variant)
    } else if same_text(arg, "-add") || same_text(arg, "--added") {
        Argument::Name(FieldName::Added)
    } else if same_text(arg, "-dep") || same_text(arg, "--deprecated") {
        Argument::Name(FieldName::Deprecated)
    } else if same_text(arg, "-cmt") || same_text(arg, "--comments") {
        Argument::Name(FieldName::Comments)
    } else if same_text(arg, "-d") || same_text(arg, "-desc") || same_text(arg, "--description") {
        Argument::Name(FieldName::Description)
    } else if same_text(arg, "-mac") || same_text(arg, "--macrolanguage") {
        Argument::Name(FieldName::Macrolanguage)
    } else if same_text(arg, "-pref") || same_text(arg, "--preferred-value") {
        Argument::Name(FieldName::PreferredValue)
    } else if same_text(arg, "-px") || same_text(arg, "--prefix") {
        Argument::Name(FieldName::Prefix)
    } else if same_text(arg, "-scp") || same_text(arg, "--scope") {
        Argument::Name(FieldName::Scope)
    } else if same_text(arg, "-stg") || same_text(arg, "--subtag") {
        Argument::Name(FieldName::Subtag)
    } else if same_text(arg, "-ss") || same_text(arg, "--suppress-script") {
        Argument::Name(FieldName::SuppressScript)
    } else if same_text(arg, "-tg") || same_text(arg, "--tag") {
        Argument::Name(FieldName::Tag)
    } else if same_text(arg, "-t") || same_text(arg, "--type") {
        Argument::Name(FieldName::Type)
    } else if same_text(arg, "--color=always") {
        Argument::Color(true)
    } else if same_text(arg, "--color=never") {
        Argument::Color(false)
    } else if same_text(arg, "-h") || same_text(arg, "--help") {
        Argument::Help
    } else {
        Argument::Other
    }
}

/// The state of reading the command line from left to right.
pub struct ParseState {
    /// The filter gathered so far.
    pub filter: Map<Seq<char>, Seq<char>>,
    /// The names of the filter in the order in which they first came.
    pub names: Seq<Seq<char>>,
    /// The field that awaits its value, if one does.
    pub pending: Option<FieldName>,
    /// The colour switch seen last.
    pub color: ColorMode,
}

/// The state before any argument.
pub open spec fn initial_state() -> ParseState {
    ParseState {
        filter: Map::empty(),
        names: Seq::empty(),
        pending: None,
        color: ColorMode::Auto,
    }
}

/// The state after one more argument. A shorthand sets `Type` and awaits a
/// value for its target; a field flag awaits a value for its field; a
/// colour switch changes only the colour; any other argument is the value
/// of the field that waits, and an error where none waits.
pub open spec fn parse_step(st: ParseState, arg: Seq<char>) -> Result<ParseState, UsageError> {
    match argument_kind(arg) {
        Argument::Short(s) => Ok(
            ParseState {
                filter: st.filter.insert(FieldName::Type.text(), s.pattern()),
                names: noted(st, FieldName::Type.text()),
                pending: Some(s.target()),
                color: st.color,
            },
        ),
        Argument::Name(f) => Ok(
            ParseState { filter: st.filter, names: st.names, pending: Some(f), color: st.color },
        ),
        Argument::Color(on) => Ok(
            ParseState {
                filter: st.filter,
                names: st.names,
                pending: st.pending,
                color: if on {
                    ColorMode::Always
                } else {
                    ColorMode::Never
                },
            },
        ),
        Argument::Help => Err(UsageError::HelpRequested),
        Argument::Other => match st.pending {
            Some(f) => Ok(
                ParseState {
                    filter: st.filter.insert(f.text(), arg),
                    names: noted(st, f.text()),
                    pending: None,
                    color: st.color,
                },
            ),
            None => Err(UsageError::Unexpected),
        },
    }
}

/// The names of the filter once `name` has a value: a new name comes last.
pub open spec fn noted(st: ParseState, name: Seq<char>) -> Seq<Seq<char>> {
    if st.filter.contains_key(name) {
        st.names
    } else {
        st.names.push(name)
    }
}

/// The state after all arguments, or the first error on the way.
pub open spec fn parse_all(args: Seq<Seq<char>>) -> Result<ParseState, UsageError>
    decreases args.len(),
{
    if args.len() == 0 {
        Ok(initial_state())
    } else {
        match parse_all(args.drop_last()) {
            Ok(st) => parse_step(st, args.last()),
            Err(e) => Err(e),
        }
    }
}

/// What the command line asks for: a filter, and the colour switch.
#[derive(Debug)]
pub struct Query {
    pub filter: FieldMap,
    pub color: ColorMode,
}

/// Reads the arguments, without the program's own name, from left to
/// right into a filter and a colour switch. It stops at the first request
/// for help and at the first argument that fits nowhere.
pub fn args_to_map(args: Vec<String>) -> (r: Result<Query, UsageError>)
    ensures
        match r {
            Ok(q) => match parse_all(texts(args@)) {
                Ok(st) => q.filter@ == st.filter && q.filter.names() == st.names && q.color
                    == st.color,
                Err(_) => false,
            },
            Err(e) => parse_all(texts(args@)) == Err::<ParseState, UsageError>(e),
        },
{
    let ghost words = texts(args@);
    let mut filter = FieldMap::new();
    let mut pending: Option<FieldName> = None;
    let mut color = ColorMode::Auto;
    let mut i: usize = 0;
    while i < args.len()
        invariant
            words == texts(args@),
            i <= args.len(),
            parse_all(words.take(i as int)) == Ok::<ParseState, UsageError>(
                ParseState { filter: filter@, names: filter.names(), pending, color },
            ),
        decreases args.len() - i,
    {
        proof {
            assert(words.take(i + 1).drop_last() =~= words.take(i as int));
            assert(words.take(i + 1).last() == words[i as int]);
        }
        let ghost before = ParseState { filter: filter@, names: filter.names(), pending, color };
        match classify(args[i].as_str()) {
            Argument::Short(s) => {
                filter.insert(
                    String::from_str(FieldName::Type.as_str()),
                    String::from_str(s.pattern_str()),
                );
                pending = Some(s.target_field());
            },
            Argument::Name(f) => {
                pending = Some(f);
            },
            Argument::Color(on) => {
                color = if on {
                    ColorMode::Always
                } else {
                    ColorMode::Never
                };
            },
            Argument::Help => {
                proof {
                    lemma_error_stays(words, i + 1);
                }
                return Err(UsageError::HelpRequested);
            },
            Argument::Other => match pending {
                Some(f) => {
                    filter.insert(String::from_str(f.as_str()), args[i].clone());
                    pending = None;
                },
                None => {
                    proof {
                        lemma_error_stays(words, i + 1);
                    }
                    return Err(UsageError::Unexpected);
                },
            },
        }
        assert(parse_step(before, words[i as int]) == Ok::<ParseState, UsageError>(
            ParseState { filter: filter@, names: filter.names(), pending, color },
        ));
        i += 1;
    }
    proof {
        assert(words.take(i as int) =~= words);
    }
    Ok(Query { filter, color })
}

/// An error met on a prefix of the arguments is the error of the whole.
pub proof fn lemma_error_stays(args: Seq<Seq<char>>, n: int)
    requires
        0 <= n <= args.len(),
        parse_all(args.take(n)) is Err,
    ensures
        parse_all(args) == parse_all(args.take(n)),
    decreases args.len() - n,
{
    if n == args.len() {
        assert(args.take(n) =~= args);
    } else {
        assert(args.take(n + 1).drop_last() =~= args.take(n));
        lemma_error_stays(args, n + 1);
    }
}

/// Whether to colour the output: as the command line forces it, else as
/// the output is a terminal or not.
pub open spec fn resolve_color(mode: ColorMode, terminal: bool) -> bool {
    match mode {
        ColorMode::Auto => terminal,
        ColorMode::Always => true,
        ColorMode::Never => false,
    }
}

/// Whether to colour the output.
pub fn use_colors(mode: ColorMode, terminal: bool) -> (r: bool)
    ensures
        r == resolve_color(mode, terminal),
{
    match mode {
        ColorMode::Auto => terminal,
        ColorMode::Always => true,
        ColorMode::Never => false,
    }
}

/// A search that is ready to run.
#[derive(Debug)]
pub struct Search {
    pub filter: FieldMap,
    pub color: bool,
}

/// What a search holds: the filter, its names in the order in which they
/// first came, and whether to colour.
pub struct SearchView {
    pub filter: Map<Seq<char>, Seq<char>>,
    pub names: Seq<Seq<char>>,
    pub color: bool,
}

impl View for Search {
    type V = SearchView;

    open spec fn view(&self) -> SearchView {
        SearchView { filter: self.filter@, names: self.filter.names(), color: self.color }
    }
}

/// The search that a command line asks for, or the reason why it asks
/// for none. A command line that names no field asks for none.
pub open spec fn prepared(args: Seq<Seq<char>>, terminal: bool) -> Result<SearchView, UsageError> {
    match parse_all(args) {
        Ok(st) => if st.filter == Map::<Seq<char>, Seq<char>>::empty() {
            Err(UsageError::NoFilter)
        } else {
            Ok(
                SearchView {
                    filter: st.filter,
                    names: st.names,
                    color: resolve_color(st.color, terminal),
                },
            )
        },
        Err(e) => Err(e),
    }
}

/// Turns the command line into a search. A command line that names no
/// field gives no search: the caller shows the help instead of matching
/// every record.
pub fn prepare(args: Vec<String>, terminal: bool) -> (r: Result<Search, UsageError>)
    ensures
        match r {
            Ok(s) => prepared(texts(args@), terminal) == Ok::<SearchView, UsageError>(s@),
            Err(e) => prepared(texts(args@), terminal) == Err::<SearchView, UsageError>(e),
        },
{
    match args_to_map(args) {
        Ok(q) => {
            if q.filter.is_empty() {
                Err(UsageError::NoFilter)
            } else {
                let color = use_colors(q.color, terminal);
                Ok(Search { filter: q.filter, color })
            }
        },
        Err(e) => Err(e),
    }
}

/// Calls `atty::is` on the standard output stream. The answer is the
/// operating system's, so nothing is promised of it.
#[verifier::external_body]
fn stdout_is_terminal() -> (r: bool) {
    atty::is(atty::Stream::Stdout)
}

/// Turns the command line into a search whose output goes to the standard
/// output: colour is on where the command line forces it, off where it
/// forbids it, and else follows whether the standard output is a terminal.
pub fn prepare_for_stdout(args: Vec<String>) -> (r: Result<Search, UsageError>)
    ensures
        match r {
            Ok(s) => exists|terminal: bool| #[trigger]
                prepared(texts(args@), terminal) == Ok::<SearchView, UsageError>(s@),
            Err(e) => forall|terminal: bool| #[trigger]
                prepared(texts(args@), terminal) == Err::<SearchView, UsageError>(e),
        },
{
    let terminal = stdout_is_terminal();
    prepare(args, terminal)
}

/// A command line that names no field never gives a search, whatever
/// else it holds and wherever the output goes.
pub proof fn lemma_empty_filter_gives_no_search(args: Seq<Seq<char>>, terminal: bool)
    requires
        parse_all(args) is Ok,
        parse_all(args)->Ok_0.filter == Map::<Seq<char>, Seq<char>>::empty(),
    ensures
        prepared(args, terminal) == Err::<SearchView, UsageError>(UsageError::NoFilter),
{
}

/// No arguments at all name no field.
pub proof fn lemma_no_arguments_no_search(terminal: bool)
    ensures
        prepared(Seq::<Seq<char>>::empty(), terminal) == Err::<SearchView, UsageError>(
            UsageError::NoFilter,
        ),
{
}

/// Where the command line forces colour, the terminal has no say.
pub proof fn lemma_forced_color(args: Seq<Seq<char>>, terminal: bool)
    requires
        prepared(args, terminal) is Ok,
        parse_all(args)->Ok_0.color != ColorMode::Auto,
    ensures
        prepared(args, terminal)->Ok_0.color == (parse_all(args)->Ok_0.color
            == ColorMode::Always),
        prepared(args, terminal) == prepared(args, !terminal),
{
}

} // verus!
