//! Recognising the dialects of user-agent strings and extracting the
//! versions they carry.

use crate::counts::Category;
use crate::pattern::{
    captures, compile, describe, groups_view, pattern_captures, pattern_source, search_view, Groups,
};
use regex::Regex;
use vstd::prelude::*;

verus! {

/// A bundler that names the client and the runtime it runs on, as in
/// `bundler/1.16.1 rubygems/2.6.11 ruby/2.4.1 (x86_64-pc-linux-gnu) command/install 59dbf8e99fa09c0a`.
pub const FULL_PATTERN: &'static str =
    r"\Abundler/(?P<bundler>[0-9a-zA-Z.\-]+) rubygems/(?P<client>[0-9a-zA-Z.\-]+) ruby/(?P<runtime>[0-9a-zA-Z.\-]+) \(.*\) command/.* [a-f0-9]{16}(?: Gemstash/[0-9a-zA-Z.\-]+)?\z";

/// The client on its own, naming its runtime, as in
/// `Ruby, RubyGems/2.4.8 x86_64-linux Ruby/2.1.6 (2015-04-13 patchlevel 336)`.
pub const CLIENT_RUNTIME_PATTERN: &'static str =
    r"\A(?:Ruby, )?RubyGems/(?P<client>[0-9a-z.\-]+) .* Ruby/(?P<runtime>[0-9a-z.\-]+) \(.*?\)(?: jruby| truffleruby| rbx)?(?: Gemstash/[0-9a-z.\-]+)?\z";

/// A bundler that names the client but no runtime, as in
/// `bundler/1.12.5 rubygems/2.6.10 (x86_64-linux) command/install 7a0bb4e2b5c2f4e1`.
pub const CLIENT_BUNDLER_PATTERN: &'static str =
    r"\Abundler/(?P<bundler>[0-9a-zA-Z.\-]+) rubygems/(?P<client>[0-9a-zA-Z.\-]+) \(.*\) command/.* [a-f0-9]{16}(?: Gemstash/[0-9a-zA-Z.\-]+)?\z";

/// The client alone, as in `Ruby, Gems 1.1.1`.
pub const CLIENT_ONLY_PATTERN: &'static str = r"\ARuby, Gems (?P<client>[0-9a-z.\-]+)\z";

/// The dialects of user-agent strings, in the order in which they are tried.
#[derive(Clone, Copy, PartialEq, Eq, Debug, Structural)]
pub enum Dialect {
    /// Client, bundler and runtime.
    Full,
    /// Client and runtime.
    ClientRuntime,
    /// Client and bundler.
    ClientBundler,
    /// Client alone.
    ClientOnly,
}

impl Dialect {
    /// The pattern that recognises the dialect.
    pub open spec fn pattern_text(self) -> Seq<char> {
        match self {
            Dialect::Full => FULL_PATTERN@,
            Dialect::ClientRuntime => CLIENT_RUNTIME_PATTERN@,
            Dialect::ClientBundler => CLIENT_BUNDLER_PATTERN@,
            Dialect::ClientOnly => CLIENT_ONLY_PATTERN@,
        }
    }

    /// The index of the capture group that holds the version of `category`,
    /// where the dialect carries one.
    pub open spec fn group_of(self, category: Category) -> Option<int> {
        match (self, category) {
            (Dialect::Full, Category::Bundler) => Some(1),
            (Dialect::Full, Category::Client) => Some(2),
            (Dialect::Full, Category::Runtime) => Some(3),
            (Dialect::ClientRuntime, Category::Client) => Some(1),
            (Dialect::ClientRuntime, Category::Runtime) => Some(2),
            (Dialect::ClientBundler, Category::Bundler) => Some(1),
            (Dialect::ClientBundler, Category::Client) => Some(2),
            (Dialect::ClientOnly, Category::Client) => Some(1),
            _ => None,
        }
    }

    /// The text that the dialect takes for the version of `category` from
    /// the groups of a match: nothing where the dialect carries no such
    /// version, or where its group is missing or took no part in the match.
    pub open spec fn version_in(self, groups: Groups, category: Category) -> Option<Seq<char>> {
        match self.group_of(category) {
            Some(i) => if i < groups.len() {
                groups[i]
            } else {
                None
            },
            None => None,
        }
    }

    /// Whether the groups of a match hold the version of `category`, if the
    /// dialect carries one.
    pub open spec fn holds(self, groups: Groups, category: Category) -> bool {
        self.group_of(category) is Some ==> self.version_in(groups, category) is Some
    }

    /// Whether the groups of a match hold every version that the dialect
    /// carries.
    pub open spec fn complete(self, groups: Groups) -> bool {
        &&& self.holds(groups, Category::Client)
        &&& self.holds(groups, Category::Bundler)
        &&& self.holds(groups, Category::Runtime)
    }

    /// What the dialect makes of the outcome of a search with its pattern:
    /// the versions, where the pattern matched and captured all of them.
    pub open spec fn extracted(self, found: Option<Groups>) -> Option<ParsedView> {
        match found {
            Some(groups) => if self.complete(groups) {
                Some(
                    ParsedView {
                        client_version: self.version_in(groups, Category::Client).unwrap(),
                        bundler_version: self.version_in(groups, Category::Bundler),
                        runtime_version: self.version_in(groups, Category::Runtime),
                    },
                )
            } else {
                None
            },
            None => None,
        }
    }

    /// What the dialect makes of a user-agent string.
    pub open spec fn reading(self, raw: Seq<char>) -> Option<ParsedView> {
        self.extracted(pattern_captures(self.pattern_text(), raw))
    }

    /// The pattern that recognises the dialect.
    pub fn pattern(self) -> (text: &'static str)
        ensures
            text@ == self.pattern_text(),
    {
        match self {
            Dialect::Full => FULL_PATTERN,
            Dialect::ClientRuntime => CLIENT_RUNTIME_PATTERN,
            Dialect::ClientBundler => CLIENT_BUNDLER_PATTERN,
            Dialect::ClientOnly => CLIENT_ONLY_PATTERN,
        }
    }

    /// The index of the capture group that holds the version of `category`,
    /// where the dialect carries one.
    pub fn group_index(self, category: Category) -> (index: Option<usize>)
        ensures
            match index {
                Some(i) => self.group_of(category) == Some(i as int),
                None => self.group_of(category) is None,
            },
    {
        match (self, category) {
            (Dialect::Full, Category::Bundler) => Some(1),
            (Dialect::Full, Category::Client) => Some(2),
            (Dialect::Full, Category::Runtime) => Some(3),
            (Dialect::ClientRuntime, Category::Client) => Some(1),
            (Dialect::ClientRuntime, Category::Runtime) => Some(2),
            (Dialect::ClientBundler, Category::Bundler) => Some(1),
            (Dialect::ClientBundler, Category::Client) => Some(2),
            (Dialect::ClientOnly, Category::Client) => Some(1),
            _ => None,
        }
    }

    /// The version of `category` among the groups of a match.
    fn version(self, groups: &Vec<Option<String>>, category: Category) -> (version: Option<String>)
        ensures
            match version {
                Some(text) => self.version_in(groups_view(*groups), category) == Some(text@),
                None => self.version_in(groups_view(*groups), category) is None,
            },
    {
        match self.group_index(category) {
            Some(i) => if i < groups.len() {
                match &groups[i] {
                    Some(text) => Some(text.clone()),
                    None => None,
                }
            } else {
                None
            },
            None => None,
        }
    }

    /// The versions that the dialect finds in the outcome of a search with
    /// its pattern.
    pub fn extract(self, found: &Option<Vec<Option<String>>>) -> (parsed: Option<ParsedUserAgent>)
        ensures
            parsed_view(parsed) == self.extracted(search_view(*found)),
    {
        match found {
            None => None,
            Some(groups) => {
                let client = self.version(groups, Category::Client);
                let bundler = self.version(groups, Category::Bundler);
                let runtime = self.version(groups, Category::Runtime);
                let wants_bundler = self.group_index(Category::Bundler).is_some();
                let wants_runtime = self.group_index(Category::Runtime).is_some();
                assert(self.group_of(Category::Client) is Some);
                match client {
                    None => None,
                    Some(client_version) => {
                        if (wants_bundler && bundler.is_none()) || (wants_runtime
                            && runtime.is_none()) {
                            None
                        } else {
                            Some(
                                ParsedUserAgent {
                                    client_version,
                                    bundler_version: bundler,
                                    runtime_version: runtime,
                                },
                            )
                        }
                    },
                }
            },
        }
    }
}

/// The versions that a user agent reports.
#[derive(Clone, Debug, PartialEq, Eq)]
pub struct ParsedUserAgent {
    /// The version of the package-manager client.
    pub client_version: String,
    /// The version of the bundling tool, where the agent names one.
    pub bundler_version: Option<String>,
    /// The version of the language runtime, where the agent names one.
    pub runtime_version: Option<String>,
}

/// The versions that a user agent reports, as sequences of characters.
pub struct ParsedView {
    pub client_version: Seq<char>,
    pub bundler_version: Option<Seq<char>>,
    pub runtime_version: Option<Seq<char>>,
}

impl ParsedView {
    /// The version of one category, where the agent names it.
    pub open spec fn version(self, category: Category) -> Option<Seq<char>> {
        match category {
            Category::Client => Some(self.client_version),
            Category::Bundler => self.bundler_version,
            Category::Runtime => self.runtime_version,
        }
    }
}

/// An optional string as an optional sequence of characters.
pub open spec fn text_view(text: Option<String>) -> Option<Seq<char>> {
    match text {
        Some(t) => Some(t@),
        None => None,
    }
}

impl View for ParsedUserAgent {
    type V = ParsedView;

    open spec fn view(&self) -> ParsedView {
        ParsedView {
            client_version: self.client_version@,
            bundler_version: text_view(self.bundler_version),
            runtime_version: text_view(self.runtime_version),
        }
    }
}

/// The outcome of parsing as sequences of characters.
pub open spec fn parsed_view(parsed: Option<ParsedUserAgent>) -> Option<ParsedView> {
    match parsed {
        Some(p) => Some(p@),
        None => None,
    }
}

/// What a user-agent string is recognised as: the reading of the first
/// dialect, in the order full, client with runtime, client with bundler,
/// client alone, that reads anything in it.
pub open spec fn recognized(raw: Seq<char>) -> Option<ParsedView> {
    if Dialect::Full.reading(raw) is Some {
        Dialect::Full.reading(raw)
    } else if Dialect::ClientRuntime.reading(raw) is Some {
        Dialect::ClientRuntime.reading(raw)
    } else if Dialect::ClientBundler.reading(raw) is Some {
        Dialect::ClientBundler.reading(raw)
    } else {
        Dialect::ClientOnly.reading(raw)
    }
}

/// Why the parser could not be set up.
#[derive(Clone, Debug, PartialEq, Eq)]
pub struct PatternError {
    /// The dialect whose pattern did not compile.
    pub dialect: Dialect,
    /// The engine's account of the failure.
    pub message: String,
}

/// The parser of user-agent strings: the compiled pattern of each dialect.
/// It is set up once and then only read, so any number of tasks may share it.
pub struct UserAgentParser {
    full: Regex,
    client_runtime: Regex,
    client_bundler: Regex,
    client_only: Regex,
}

impl UserAgentParser {
    /// Each expression was compiled from the pattern of its dialect.
    #[verifier::type_invariant]
    spec fn compiled_from_patterns(self) -> bool {
        &&& pattern_source(self.full) == Dialect::Full.pattern_text()
        &&& pattern_source(self.client_runtime) == Dialect::ClientRuntime.pattern_text()
        &&& pattern_source(self.client_bundler) == Dialect::ClientBundler.pattern_text()
        &&& pattern_source(self.client_only) == Dialect::ClientOnly.pattern_text()
    }

    /// Compiles the pattern of every dialect. Whether a pattern compiles is
    /// for the engine to say; `assemble` says what is made of its answers.
    pub fn new() -> (r: Result<Self, PatternError>) {
        Self::assemble(
            compile(Dialect::Full.pattern()),
            compile(Dialect::ClientRuntime.pattern()),
            compile(Dialect::ClientBundler.pattern()),
            compile(Dialect::ClientOnly.pattern()),
        )
    }

    /// Makes the parser from the compiled pattern of each dialect, or reports
    /// the first dialect, in the order in which they are tried, whose pattern
    /// did not compile.
    pub fn assemble(
        full: Result<Regex, regex::Error>,
        client_runtime: Result<Regex, regex::Error>,
        client_bundler: Result<Regex, regex::Error>,
        client_only: Result<Regex, regex::Error>,
    ) -> (r: Result<Self, PatternError>)
        requires
            full matches Ok(re) ==> pattern_source(re) == Dialect::Full.pattern_text(),
            client_runtime matches Ok(re) ==> pattern_source(re)
                == Dialect::ClientRuntime.pattern_text(),
            client_bundler matches Ok(re) ==> pattern_source(re)
                == Dialect::ClientBundler.pattern_text(),
            client_only matches Ok(re) ==> pattern_source(re) == Dialect::ClientOnly.pattern_text(),
        ensures
            r is Ok <==> full is Ok && client_runtime is Ok && client_bundler is Ok
                && client_only is Ok,
            r matches Err(e) ==> e.dialect == (if full is Err {
                Dialect::Full
            } else if client_runtime is Err {
                Dialect::ClientRuntime
            } else if client_bundler is Err {
                Dialect::ClientBundler
            } else {
                Dialect::ClientOnly
            }),
    {
        let full = match full {
            Ok(re) => re,
            Err(e) => {
                return Err(PatternError { dialect: Dialect::Full, message: describe(&e) });
            },
        };
        let client_runtime = match client_runtime {
            Ok(re) => re,
            Err(e) => {
                return Err(
                    PatternError { dialect: Dialect::ClientRuntime, message: describe(&e) },
                );
            },
        };
        let client_bundler = match client_bundler {
            Ok(re) => re,
            Err(e) => {
                return Err(
                    PatternError { dialect: Dialect::ClientBundler, message: describe(&e) },
                );
            },
        };
        let client_only = match client_only {
            Ok(re) => re,
            Err(e) => {
                return Err(PatternError { dialect: Dialect::ClientOnly, message: describe(&e) });
            },
        };
        Ok(UserAgentParser { full, client_runtime, client_bundler, client_only })
    }

    /// What one dialect reads in a user-agent string.
    pub fn read(&self, dialect: Dialect, raw: &str) -> (parsed: Option<ParsedUserAgent>)
        ensures
            parsed_view(parsed) == dialect.reading(raw@),
    {
        proof {
            use_type_invariant(self);
        }
        let expression = match dialect {
            Dialect::Full => &self.full,
            Dialect::ClientRuntime => &self.client_runtime,
            Dialect::ClientBundler => &self.client_bundler,
            Dialect::ClientOnly => &self.client_only,
        };
        let found = captures(expression, raw);
        dialect.extract(&found)
    }

    /// The versions that a user-agent string reports, or nothing where no
    /// dialect recognises it. The dialects are tried in a fixed order and the
    /// first that reads anything decides.
    pub fn parse(&self, raw: &str) -> (parsed: Option<ParsedUserAgent>)
        ensures
            parsed_view(parsed) == recognized(raw@),
            // a string of the full dialect gives all three versions, as captured
            Dialect::Full.reading(raw@) matches Some(p) ==> parsed_view(parsed) == Some(p)
                && p.bundler_version is Some && p.runtime_version is Some,
            // a string that no dialect reads gives nothing
            (forall|d: Dialect| #[trigger] d.reading(raw@) is None) ==> parsed is None,
    {
        proof {
            let groups = pattern_captures(Dialect::Full.pattern_text(), raw@);
            if Dialect::Full.reading(raw@) is Some {
                assert(Dialect::Full.holds(groups.unwrap(), Category::Bundler));
                assert(Dialect::Full.holds(groups.unwrap(), Category::Runtime));
            }
            if forall|d: Dialect| #[trigger] d.reading(raw@) is None {
                assert(Dialect::Full.reading(raw@) is None);
                assert(Dialect::ClientRuntime.reading(raw@) is None);
                assert(Dialect::ClientBundler.reading(raw@) is None);
                assert(Dialect::ClientOnly.reading(raw@) is None);
            }
        }
        let full = self.read(Dialect::Full, raw);
        if full.is_some() {
            return full;
        }
        let client_runtime = self.read(Dialect::ClientRuntime, raw);
        if client_runtime.is_some() {
            return client_runtime;
        }
        let client_bundler = self.read(Dialect::ClientBundler, raw);
        if client_bundler.is_some() {
            return client_bundler;
        }
        self.read(Dialect::ClientOnly, raw)
    }
}

} // verus!
