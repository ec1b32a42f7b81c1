//! The project configuration: which files carry the plain version and which
//! carry the metadata-qualified version, loaded from a line-oriented subset
//! of TOML — `[section]` headers, `key = ["string", ..]` entries, comments —
//! and rendered back. The format does not escape: listed file names are
//! representable exactly when they hold no double quote, comma or newline
//! (see [`config_text_ok`]), and for such names rendering and loading are
//! mutually inverse ([`lemma_config_round_trip`]).

use vstd::prelude::*;
use vstd::string::*;
use crate::text;
use crate::text::{is_space, spec_trim, spec_find};

verus! {

/// Name of the file the raw metadata-qualified version is written to.
pub const DEFAULT_RAW_VERSION_FILE: &'static str = "VERSION";

/// Name of the configuration file.
pub const CONFIG_NAME: &'static str = "at.toml";

/// The whole configuration.
#[derive(Debug, Clone)]
pub struct AtConfig {
    pub version: VersionConfig,
}

/// The version table.
#[derive(Debug, Clone)]
pub struct VersionConfig {
    /// Files with the current project version, kept up to date on merge.
    pub link: Vec<String>,
    /// The table for the version with build metadata.
    pub extended: VersionExtendedConfig,
}

/// The version.extended table.
#[derive(Debug, Clone)]
pub struct VersionExtendedConfig {
    /// Files where the metadata-qualified version is written as is.
    pub raw: Vec<String>,
}

/// The character views of a list of strings.
pub open spec fn views(v: Seq<String>) -> Seq<Seq<char>> {
    v.map_values(|x: String| x@)
}

/// Which section of the file a line belongs to.
#[derive(Debug, Clone, Copy, PartialEq, Eq, Structural)]
pub enum Section {
    /// Before any header.
    Top,
    /// Inside `[version]`.
    Version,
    /// Inside `[version.extended]`.
    Extended,
    /// Inside any other table.
    Other,
}

/// The state of the line fold while loading a configuration.
pub struct FoldState {
    pub sect: Section,
    pub seen_version: bool,
    pub seen_extended: bool,
    pub link: Option<Seq<Seq<char>>>,
    pub raw: Option<Seq<Seq<char>>>,
}

/// The fold's starting state.
pub open spec fn init_state() -> FoldState {
    FoldState { sect: Section::Top, seen_version: false, seen_extended: false, link: None, raw: None }
}

/// A double-quoted string without embedded quotes; yields its contents.
pub open spec fn parse_quoted(t: Seq<char>) -> Option<Seq<char>> {
    if t.len() >= 2 && t[0] == '"' && t[t.len() - 1] == '"' {
        let inner = t.subrange(1, t.len() - 1);
        if forall|k: int| 0 <= k < inner.len() ==> #[trigger] inner[k] != '"' {
            Some(inner)
        } else {
            None
        }
    } else {
        None
    }
}

/// Comma-separated quoted strings; yields their contents in order.
pub open spec fn parse_items(s: Seq<char>) -> Option<Seq<Seq<char>>>
    decreases s.len(), via parse_items_decreases
{
    let i = spec_find(s, ',');
    if i >= s.len() {
        match parse_quoted(spec_trim(s)) {
            Some(x) => Some(seq![x]),
            None => None,
        }
    } else {
        match parse_quoted(spec_trim(s.subrange(0, i))) {
            Some(x) => match parse_items(s.subrange(i + 1, s.len() as int)) {
                Some(r) => Some(seq![x] + r),
                None => None,
            },
            None => None,
        }
    }
}

#[via_fn]
proof fn parse_items_decreases(s: Seq<char>) {
    text::lemma_spec_find(s, ',');
}

/// A bracketed array of quoted strings, possibly empty.
pub open spec fn parse_string_array(v: Seq<char>) -> Option<Seq<Seq<char>>> {
    if v.len() >= 2 && v[0] == '[' && v[v.len() - 1] == ']' {
        let inner = spec_trim(v.subrange(1, v.len() - 1));
        if inner.len() == 0 {
            Some(Seq::<Seq<char>>::empty())
        } else {
            parse_items(inner)
        }
    } else {
        None
    }
}

/// What one line does to the fold state. Blank lines and comments change
/// nothing; headers switch the section; `link` and `raw` entries in their
/// sections set the corresponding list; unknown keys are ignored.
pub open spec fn step_line(st: FoldState, line: Seq<char>) -> Option<FoldState> {
    let t = spec_trim(line);
    if t.len() == 0 {
        Some(st)
    } else if t[0] == '#' {
        Some(st)
    } else if t == "[version]"@ {
        Some(FoldState { sect: Section::Version, seen_version: true, ..st })
    } else if t == "[version.extended]"@ {
        Some(
            FoldState { sect: Section::Extended, seen_version: true, seen_extended: true, ..st },
        )
    } else if t[0] == '[' {
        Some(FoldState { sect: Section::Other, ..st })
    } else {
        let e = spec_find(t, '=');
        if e >= t.len() {
            None
        } else {
            let key = spec_trim(t.subrange(0, e));
            let val = spec_trim(t.subrange(e + 1, t.len() as int));
            if st.sect == Section::Version && key == "link"@ {
                match parse_string_array(val) {
                    Some(items) => Some(FoldState { link: Some(items), ..st }),
                    None => None,
                }
            } else if st.sect == Section::Extended && key == "raw"@ {
                match parse_string_array(val) {
                    Some(items) => Some(FoldState { raw: Some(items), ..st }),
                    None => None,
                }
            } else {
                Some(st)
            }
        }
    }
}

/// The fold of [`step_line`] over the newline-separated lines of `s`.
pub open spec fn fold_config(st: FoldState, s: Seq<char>) -> Option<FoldState>
    decreases s.len(), via fold_config_decreases
{
    let i = spec_find(s, '\n');
    let line = if i >= s.len() {
        s
    } else {
        s.subrange(0, i)
    };
    match step_line(st, line) {
        None => None,
        Some(st2) => if i >= s.len() {
            Some(st2)
        } else {
            fold_config(st2, s.subrange(i + 1, s.len() as int))
        },
    }
}

#[via_fn]
proof fn fold_config_decreases(st: FoldState, s: Seq<char>) {
    text::lemma_spec_find(s, '\n');
}

/// Loading a configuration can fail on a malformed line, or on a field the
/// schema requires that the file never sets.
#[derive(Debug)]
pub enum ConfigError {
    /// A line is neither blank, comment, header nor `key = ["..", ..]`.
    /// Carries the offending line, trimmed.
    InvalidLine(String),
    /// No `[version]` table.
    MissingVersion,
    /// No `link` entry in `[version]`.
    MissingLink,
    /// No `[version.extended]` table.
    MissingExtended,
    /// No `raw` entry in `[version.extended]`.
    MissingRaw,
}

impl ConfigError {
    /// A human-readable description of the failure.
    pub fn message(&self) -> (r: String)
        ensures
            match self {
                ConfigError::InvalidLine(l) => r@ == "invalid configuration line: "@ + l@,
                ConfigError::MissingVersion => r@ == "missing field `version`"@,
                ConfigError::MissingLink => r@ == "missing field `link` for key `version`"@,
                ConfigError::MissingExtended => r@ == "missing field `extended` for key `version`"@,
                ConfigError::MissingRaw => r@
                    == "missing field `raw` for key `version.extended`"@,
            },
    {
        match self {
            ConfigError::InvalidLine(l) => {
                let mut s = "invalid configuration line: ".to_owned();
                s.append(l.as_str());
                s
            },
            ConfigError::MissingVersion => "missing field `version`".to_owned(),
            ConfigError::MissingLink => "missing field `link` for key `version`".to_owned(),
            ConfigError::MissingExtended => "missing field `extended` for key `version`".to_owned(),
            ConfigError::MissingRaw => "missing field `raw` for key `version.extended`".to_owned(),
        }
    }
}

/// The fold state as the executable loader carries it.
struct LoadState {
    sect: Section,
    seen_version: bool,
    seen_extended: bool,
    link: Option<Vec<String>>,
    raw: Option<Vec<String>>,
}

impl LoadState {
    /// The spec-level fold state this one stands for.
    spec fn fold_view(&self) -> FoldState {
        FoldState {
            sect: self.sect,
            seen_version: self.seen_version,
            seen_extended: self.seen_extended,
            link: match self.link {
                Some(v) => Some(views(v@)),
                None => None,
            },
            raw: match self.raw {
                Some(v) => Some(views(v@)),
                None => None,
            },
        }
    }
}

/// Decide [`parse_quoted`] and yield the contents.
fn parse_quoted_exec(t: &str) -> (r: Option<String>)
    ensures
        match r {
            Some(x) => parse_quoted(t@) == Some(x@),
            None => parse_quoted(t@) is None,
        },
{
    let len = t.unicode_len();
    if len < 2 || t.get_char(0) != '"' || t.get_char(len - 1) != '"' {
        return None;
    }
    let inner = t.substring_char(1, len - 1);
    let q = text::find_char(inner, '"');
    if q < len - 2 {
        proof {
            assert(inner@[q as int] == '"');
        }
        return None;
    }
    Some(inner.to_owned())
}

/// Decide [`parse_items`], appending the contents to `acc` in order.
fn parse_items_into(s: &str, acc: &mut Vec<String>) -> (r: bool)
    ensures
        match parse_items(s@) {
            Some(items) => r && views(final(acc)@) == views(old(acc)@) + items,
            None => !r,
        },
    decreases s@.len(),
{
    let len = s.unicode_len();
    let i = text::find_char(s, ',');
    proof {
        text::lemma_find_unique(s@, ',', i as int);
    }
    if i == len {
        let t = text::trim(s);
        match parse_quoted_exec(t) {
            Some(x) => {
                let ghost before = acc@;
                acc.push(x);
                proof {
                    assert(views(acc@) =~= views(before) + seq![x@]);
                }
                true
            },
            None => false,
        }
    } else {
        let head = s.substring_char(0, i);
        let t = text::trim(head);
        match parse_quoted_exec(t) {
            Some(x) => {
                let ghost before = acc@;
                acc.push(x);
                proof {
                    assert(views(acc@) =~= views(before) + seq![x@]);
                }
                let rest = s.substring_char(i + 1, len);
                let ok = parse_items_into(rest, acc);
                proof {
                    if ok {
                        let tail = parse_items(rest@)->Some_0;
                        assert(views(acc@) =~= views(before) + (seq![x@] + tail));
                    }
                }
                ok
            },
            None => false,
        }
    }
}

/// Decide [`parse_string_array`] and yield the contents.
fn parse_string_array_exec(v: &str) -> (r: Option<Vec<String>>)
    ensures
        match r {
            Some(u) => parse_string_array(v@) == Some(views(u@)),
            None => parse_string_array(v@) is None,
        },
{
    let len = v.unicode_len();
    if len < 2 || v.get_char(0) != '[' || v.get_char(len - 1) != ']' {
        return None;
    }
    let inner_raw = v.substring_char(1, len - 1);
    let inner = text::trim(inner_raw);
    if inner.unicode_len() == 0 {
        let items: Vec<String> = Vec::new();
        proof {
            assert(views(items@) =~= Seq::<Seq<char>>::empty());
        }
        return Some(items);
    }
    let mut items: Vec<String> = Vec::new();
    let ghost before = items@;
    if parse_items_into(inner, &mut items) {
        proof {
            assert(views(before) =~= Seq::<Seq<char>>::empty());
            assert(views(items@) =~= views(before) + parse_items(inner@)->Some_0);
        }
        Some(items)
    } else {
        None
    }
}

/// Apply [`step_line`] to one line; an error carries the trimmed line.
fn step_line_exec(st: LoadState, line: &str) -> (r: Result<LoadState, String>)
    ensures
        match r {
            Ok(st2) => step_line(st.fold_view(), line@) == Some(st2.fold_view()),
            Err(_) => step_line(st.fold_view(), line@) is None,
        },
{
    let t = text::trim(line);
    let tlen = t.unicode_len();
    if tlen == 0 {
        return Ok(st);
    }
    let c0 = t.get_char(0);
    if c0 == '#' {
        return Ok(st);
    }
    if text::str_eq(t, "[version]") {
        return Ok(
            LoadState { sect: Section::Version, seen_version: true, ..st },
        );
    }
    if text::str_eq(t, "[version.extended]") {
        return Ok(
            LoadState {
                sect: Section::Extended,
                seen_version: true,
                seen_extended: true,
                ..st
            },
        );
    }
    if c0 == '[' {
        return Ok(LoadState { sect: Section::Other, ..st });
    }
    let e = text::find_char(t, '=');
    proof {
        text::lemma_find_unique(t@, '=', e as int);
    }
    if e == tlen {
        return Err(t.to_owned());
    }
    let key = text::trim(t.substring_char(0, e));
    let val = text::trim(t.substring_char(e + 1, tlen));
    if st.sect == Section::Version && text::str_eq(key, "link") {
        match parse_string_array_exec(val) {
            Some(items) => Ok(LoadState { link: Some(items), ..st }),
            None => Err(t.to_owned()),
        }
    } else if st.sect == Section::Extended && text::str_eq(key, "raw") {
        match parse_string_array_exec(val) {
            Some(items) => Ok(LoadState { raw: Some(items), ..st }),
            None => Err(t.to_owned()),
        }
    } else {
        Ok(st)
    }
}

/// Apply [`fold_config`] to the lines of `s`.
fn load_config(st: LoadState, s: &str) -> (r: Result<LoadState, String>)
    ensures
        match r {
            Ok(st2) => fold_config(st.fold_view(), s@) == Some(st2.fold_view()),
            Err(_) => fold_config(st.fold_view(), s@) is None,
        },
    decreases s@.len(),
{
    let len = s.unicode_len();
    let i = text::find_char(s, '\n');
    proof {
        text::lemma_find_unique(s@, '\n', i as int);
    }
    if i == len {
        step_line_exec(st, s)
    } else {
        let line = s.substring_char(0, i);
        match step_line_exec(st, line) {
            Ok(st2) => {
                let rest = s.substring_char(i + 1, len);
                load_config(st2, rest)
            },
            Err(l) => Err(l),
        }
    }
}

impl Default for AtConfig {
    /// The configuration with nothing linked and nothing written raw.
    fn default() -> (r: AtConfig)
        ensures
            r.version.link@.len() == 0,
            r.version.extended.raw@.len() == 0,
    {
        AtConfig {
            version: VersionConfig {
                link: Vec::new(),
                extended: VersionExtendedConfig { raw: Vec::new() },
            },
        }
    }
}

impl AtConfig {
    /// Load a configuration from a TOML-subset string. Every field the
    /// schema requires must be set.
    pub fn from_toml_str(toml_str: &str) -> (r: Result<AtConfig, ConfigError>)
        ensures
            match r {
                Ok(c) => fold_config(init_state(), toml_str@) matches Some(st) && st.seen_version
                    && st.seen_extended && st.link == Some(views(c.version.link@)) && st.raw
                    == Some(views(c.version.extended.raw@)),
                Err(e) => match fold_config(init_state(), toml_str@) {
                    None => e is InvalidLine,
                    Some(st) => if !st.seen_version {
                        e is MissingVersion
                    } else if st.link is None {
                        e is MissingLink
                    } else if !st.seen_extended {
                        e is MissingExtended
                    } else {
                        st.raw is None && e is MissingRaw
                    },
                },
            },
    {
        let init = LoadState {
            sect: Section::Top,
            seen_version: false,
            seen_extended: false,
            link: None,
            raw: None,
        };
        match load_config(init, toml_str) {
            Err(l) => Err(ConfigError::InvalidLine(l)),
            Ok(st) => {
                let LoadState { seen_version, seen_extended, link, raw, .. } = st;
                if !seen_version {
                    return Err(ConfigError::MissingVersion);
                }
                match link {
                    None => Err(ConfigError::MissingLink),
                    Some(link) => {
                        if !seen_extended {
                            return Err(ConfigError::MissingExtended);
                        }
                        match raw {
                            None => Err(ConfigError::MissingRaw),
                            Some(raw) => Ok(
                                AtConfig {
                                    version: VersionConfig {
                                        link,
                                        extended: VersionExtendedConfig { raw },
                                    },
                                },
                            ),
                        }
                    },
                }
            },
        }
    }

    /// Load a configuration, letting every field the file does not set
    /// default to the empty list. `None` stands for an absent file.
    pub fn load_with_defaults(toml_str: Option<&str>) -> (r: Result<AtConfig, ConfigError>)
        ensures
            match toml_str {
                None => r matches Ok(c) && c.version.link@.len() == 0
                    && c.version.extended.raw@.len() == 0,
                Some(s) => match r {
                    Ok(c) => fold_config(init_state(), s@) matches Some(st) && views(
                        c.version.link@,
                    ) == (match st.link {
                        Some(l) => l,
                        None => Seq::<Seq<char>>::empty(),
                    }) && views(c.version.extended.raw@) == (match st.raw {
                        Some(x) => x,
                        None => Seq::<Seq<char>>::empty(),
                    }),
                    Err(e) => e is InvalidLine && fold_config(init_state(), s@) is None,
                },
            },
    {
        let contents = match toml_str {
            None => return Ok(AtConfig::default()),
            Some(s) => s,
        };
        let init = LoadState {
            sect: Section::Top,
            seen_version: false,
            seen_extended: false,
            link: None,
            raw: None,
        };
        match load_config(init, contents) {
            Err(l) => Err(ConfigError::InvalidLine(l)),
            Ok(st) => {
                let LoadState { link, raw, .. } = st;
                let link = match link {
                    Some(l) => l,
                    None => Vec::new(),
                };
                let raw = match raw {
                    Some(x) => x,
                    None => Vec::new(),
                };
                proof {
                    assert(views(Seq::<String>::empty()) =~= Seq::<Seq<char>>::empty());
                }
                Ok(
                    AtConfig {
                        version: VersionConfig { link, extended: VersionExtendedConfig { raw } },
                    },
                )
            },
        }
    }
}

/// A string the rendered format can carry: free of double quotes, commas
/// and newlines, which the format does not escape.
pub open spec fn config_text_ok(x: Seq<char>) -> bool {
    forall|k: int| 0 <= k < x.len() ==> #[trigger] x[k] != '"' && x[k] != ',' && x[k] != '\n'
}

impl AtConfig {
    /// Well-formedness: every listed file name is representable in the
    /// rendered format.
    pub open spec fn wf(self) -> bool {
        &&& forall|i: int|
            0 <= i < self.version.link@.len() ==> config_text_ok(#[trigger] self.version.link@[i]@)
        &&& forall|i: int|
            0 <= i < self.version.extended.raw@.len() ==> config_text_ok(
                #[trigger] self.version.extended.raw@[i]@,
            )
    }
}

/// `x` wrapped in double quotes.
pub open spec fn quoted(x: Seq<char>) -> Seq<char> {
    seq!['"'] + x + seq!['"']
}

/// The items quoted and joined with `, `.
pub open spec fn items_str(items: Seq<Seq<char>>) -> Seq<char>
    decreases items.len(),
{
    if items.len() == 0 {
        Seq::<char>::empty()
    } else if items.len() == 1 {
        quoted(items[0])
    } else {
        items_str(items.drop_last()) + ", "@ + quoted(items.last())
    }
}

/// The items as a bracketed array.
pub open spec fn array_str(items: Seq<Seq<char>>) -> Seq<char> {
    seq!['['] + items_str(items) + seq![']']
}

/// The rendering of a configuration with the given lists.
pub open spec fn spec_config_str(link: Seq<Seq<char>>, raw: Seq<Seq<char>>) -> Seq<char> {
    "[version]\nlink = "@ + array_str(link) + "\n\n[version.extended]\nraw = "@ + array_str(raw)
        + "\n"@
}

/// Append the items as a bracketed array of quoted strings.
fn append_array(out: &mut String, items: &Vec<String>)
    ensures
        final(out)@ == old(out)@ + array_str(views(items@)),
{
    let ghost base = out@;
    let ghost g = views(items@);
    out.push('[');
    let mut i: usize = 0;
    while i < items.len()
        invariant
            0 <= i <= items.len(),
            g == views(items@),
            g.len() == items@.len(),
            out@ == base + seq!['['] + items_str(g.take(i as int)),
        decreases items.len() - i,
    {
        if i > 0 {
            out.append(", ");
        }
        out.push('"');
        out.append(items[i].as_str());
        out.push('"');
        proof {
            let t = g.take(i + 1);
            assert(t.drop_last() =~= g.take(i as int));
            assert(t.last() == items@[i as int]@);
            if i == 0 {
                assert(items_str(t) == quoted(t.last()));
                assert(out@ =~= base + seq!['['] + items_str(t));
            } else {
                assert(items_str(t) == items_str(g.take(i as int)) + ", "@ + quoted(t.last()));
                assert(out@ =~= base + seq!['['] + items_str(t));
            }
        }
        i = i + 1;
    }
    out.push(']');
    proof {
        assert(g.take(items@.len() as int) =~= g);
        assert(out@ =~= base + array_str(g));
    }
}

impl AtConfig {
    /// Render this configuration back as its TOML-subset text. The format
    /// does not escape, so only a well-formed configuration — entries free
    /// of quotes, commas and newlines — renders to text that folds back to
    /// the same lists.
    pub fn to_toml_string(&self) -> (r: String)
        ensures
            r@ == spec_config_str(views(self.version.link@), views(self.version.extended.raw@)),
            self.wf() ==> fold_config(init_state(), r@) == Some(
                FoldState {
                    sect: Section::Extended,
                    seen_version: true,
                    seen_extended: true,
                    link: Some(views(self.version.link@)),
                    raw: Some(views(self.version.extended.raw@)),
                },
            ),
    {
        proof {
            if self.wf() {
                assert forall|i: int|
                    0 <= i < views(self.version.link@).len() implies config_text_ok(
                    #[trigger] views(self.version.link@)[i],
                ) by {
                    assert(views(self.version.link@)[i] == self.version.link@[i]@);
                }
                assert forall|i: int|
                    0 <= i < views(self.version.extended.raw@).len() implies config_text_ok(
                    #[trigger] views(self.version.extended.raw@)[i],
                ) by {
                    assert(views(self.version.extended.raw@)[i] == self.version.extended.raw@[i]@);
                }
                lemma_config_round_trip(
                    views(self.version.link@),
                    views(self.version.extended.raw@),
                );
            }
        }
        let mut out = "[version]\nlink = ".to_owned();
        append_array(&mut out, &self.version.link);
        out.append("\n\n[version.extended]\nraw = ");
        append_array(&mut out, &self.version.extended.raw);
        out.append("\n");
        proof {
            assert(out@ =~= spec_config_str(
                views(self.version.link@),
                views(self.version.extended.raw@),
            ));
        }
        out
    }

    /// The default configuration file content, agnostic to the project type.
    pub fn default_config_template() -> (r: &'static str)
        ensures
            r@ == DEFAULT_CONFIG_TOML@,
    {
        DEFAULT_CONFIG_TOML
    }
}

/// The configuration template written when a project is first set up.
pub const DEFAULT_CONFIG_TOML: &'static str = "[version]\n# Files with the current project version (semantic version), updated when an `at merge` is performed.\n# Example: link = [\"pyproject.toml\", \"rs/Cargo.toml\", \"RELEASE\"]\n#   This configuration would keep the version updated in 3 places:\n#    - The pyproject.toml at the project root\n#    - The Cargo.toml in the 'rs' subdirectory\n#    - the custom file named RELEASE, which would simply contain the version and nothing more\n#\n#link = \"[ <STANDARDIZED_PROJECT_FILE> | <FILE>, .. ]\"\nlink = []\n\n# This table concerns the version with build metadata in the format:\n# <SEMVER>+<BRANCH>-<GIT_SHORT_SHA>[-dirty]\n[version.extended]\n# Files where the version with the build metadata is written to as is\n# (will truncate the file)\n#raw = [<FILE>, .. ]\nraw = [\"VERSION\"]\n";

/// Splitting `items_str` at the front: the first item quoted, then `, `
/// and the rest.
proof fn lemma_items_str_front(items: Seq<Seq<char>>)
    requires
        items.len() >= 2,
    ensures
        items_str(items) == quoted(items[0]) + ", "@ + items_str(items.drop_first()),
    decreases items.len(),
{
    reveal_strlit(", ");
    if items.len() == 2 {
        assert(items.drop_last() =~= seq![items[0]]);
        assert(items.drop_first() =~= seq![items[1]]);
        assert(items_str(seq![items[0]]) == quoted(items[0]));
        assert(items_str(seq![items[1]]) == quoted(items[1]));
        assert(items_str(items) =~= quoted(items[0]) + ", "@ + items_str(items.drop_first()));
    } else {
        let front = items.drop_last();
        lemma_items_str_front(front);
        assert(front[0] == items[0]);
        assert(front.drop_first() =~= items.drop_first().drop_last());
        assert(items.drop_first().len() >= 2);
        assert(items.drop_first().last() == items.last());
        assert(items_str(items.drop_first()) == items_str(items.drop_first().drop_last()) + ", "@
            + quoted(items.drop_first().last()));
        assert(items_str(items) =~= quoted(items[0]) + ", "@ + items_str(items.drop_first()));
    }
}

/// The characters of a rendered item list: it begins and ends with a quote,
/// and holds no newline when every item is representable.
proof fn lemma_items_str_chars(items: Seq<Seq<char>>)
    requires
        items.len() >= 1,
        forall|i: int| 0 <= i < items.len() ==> config_text_ok(#[trigger] items[i]),
    ensures
        items_str(items).len() >= 2,
        items_str(items)[0] == '"',
        items_str(items).last() == '"',
        forall|k: int| 0 <= k < items_str(items).len() ==> #[trigger] items_str(items)[k] != '\n',
    decreases items.len(),
{
    reveal_strlit(", ");
    if items.len() == 1 {
        let q = quoted(items[0]);
        assert(items_str(items) == q);
        assert(q[0] == '"' && q.last() == '"');
        assert forall|k: int| 0 <= k < q.len() implies #[trigger] q[k] != '\n' by {
            if 1 <= k < q.len() - 1 {
                assert(q[k] == items[0][k - 1]);
            }
        }
    } else {
        let front = items.drop_last();
        lemma_items_str_chars(front);
        let fs = items_str(front);
        let q = quoted(items.last());
        let s = items_str(items);
        assert(s == fs + ", "@ + q);
        assert(s[0] == fs[0]);
        assert(s.last() == q.last());
        assert forall|k: int| 0 <= k < s.len() implies #[trigger] s[k] != '\n' by {
            if k < fs.len() {
                assert(s[k] == fs[k]);
            } else if k < fs.len() + 2 {
                assert(s[k] == ", "@[k - fs.len()]);
            } else {
                assert(s[k] == q[k - fs.len() - 2]);
                if fs.len() + 3 <= k < s.len() - 1 {
                    assert(q[k - fs.len() - 2] == items.last()[k - fs.len() - 3]);
                }
            }
        }
    }
}

/// Parsing a rendered item list, possibly after one padding space, yields
/// the items back.
proof fn lemma_parse_items_round_trip(pad: Seq<char>, items: Seq<Seq<char>>)
    requires
        pad.len() == 0 || pad == seq![' '],
        items.len() >= 1,
        forall|i: int| 0 <= i < items.len() ==> config_text_ok(#[trigger] items[i]),
    ensures
        parse_items(pad + items_str(items)) == Some(items),
    decreases items.len(),
{
    reveal_strlit(", ");
    text::lemma_spec_find(pad + items_str(items), ',');
    if items.len() == 1 {
        let x = items[0];
        let q = quoted(x);
        let s = pad + items_str(items);
        assert(items_str(items) == q);
        assert forall|k: int| 0 <= k < s.len() implies #[trigger] s[k] != ',' by {
            if k >= pad.len() {
                assert(s[k] == q[k - pad.len()]);
                if 1 <= k - pad.len() < q.len() - 1 {
                    assert(q[k - pad.len()] == x[k - pad.len() - 1]);
                }
            }
        }
        text::lemma_find_unique(s, ',', s.len() as int);
        lemma_trim_of_padded_quoted(pad, q);
        assert(spec_trim(s) == q);
        lemma_parse_quoted_of_quoted(x);
        assert(parse_items(s) == Some(seq![x]));
        assert(seq![x] =~= items);
    } else {
        let x = items[0];
        let q = quoted(x);
        let tail_items = items.drop_first();
        lemma_items_str_front(items);
        let a = pad + q;
        let tail = seq![' '] + items_str(tail_items);
        let s = pad + items_str(items);
        assert(s =~= a + seq![','] + tail);
        assert forall|k: int| 0 <= k < a.len() implies #[trigger] a[k] != ',' by {
            if k >= pad.len() {
                assert(a[k] == q[k - pad.len()]);
                if 1 <= k - pad.len() < q.len() - 1 {
                    assert(q[k - pad.len()] == x[k - pad.len() - 1]);
                }
            }
        }
        let i = spec_find(s, ',');
        text::lemma_first_occurrence(s, a, tail, ',', i);
        assert(s.subrange(0, i) == a);
        lemma_trim_of_padded_quoted(pad, q);
        assert(spec_trim(a) == q);
        lemma_parse_quoted_of_quoted(x);
        lemma_parse_items_round_trip(seq![' '], tail_items);
        assert(s.subrange(i + 1, s.len() as int) == tail);
        assert(parse_items(s) == Some(seq![x] + tail_items));
        assert(seq![x] + tail_items =~= items);
    }
}

/// Trimming a quote-delimited segment, possibly after one padding space,
/// leaves exactly the quoted text.
proof fn lemma_trim_of_padded_quoted(pad: Seq<char>, q: Seq<char>)
    requires
        pad.len() == 0 || pad == seq![' '],
        q.len() >= 2,
        q[0] == '"',
        q.last() == '"',
    ensures
        spec_trim(pad + q) == q,
{
    let s = pad + q;
    assert(s[pad.len() as int] == '"');
    text::lemma_trim_front_prefix(s, pad.len() as int);
    assert(s.subrange(pad.len() as int, s.len() as int) =~= q);
    text::lemma_trim_back_suffix(q, q.len() as int);
    assert(q.subrange(0, q.len() as int) =~= q);
}

/// Parsing `quoted(x)` yields `x` back for representable `x`.
proof fn lemma_parse_quoted_of_quoted(x: Seq<char>)
    requires
        config_text_ok(x),
    ensures
        parse_quoted(quoted(x)) == Some(x),
{
    let q = quoted(x);
    assert(q[0] == '"' && q[q.len() - 1] == '"');
    let inner = q.subrange(1, q.len() - 1);
    assert(inner =~= x);
}

/// Law: loading a rendered array of representable items yields the items,
/// and the rendering holds no newline.
pub proof fn lemma_array_round_trip(items: Seq<Seq<char>>)
    requires
        forall|i: int| 0 <= i < items.len() ==> config_text_ok(#[trigger] items[i]),
    ensures
        parse_string_array(array_str(items)) == Some(items),
        forall|k: int| 0 <= k < array_str(items).len() ==> #[trigger] array_str(items)[k] != '\n',
{
    let v = array_str(items);
    assert(v[0] == '[' && v[v.len() - 1] == ']');
    let inner0 = v.subrange(1, v.len() - 1);
    assert(inner0 =~= items_str(items));
    if items.len() == 0 {
        assert(items_str(items) == Seq::<char>::empty());
        assert(spec_trim(inner0) =~= Seq::<char>::empty());
        assert(Seq::<Seq<char>>::empty() =~= items);
        assert forall|k: int| 0 <= k < v.len() implies #[trigger] v[k] != '\n' by {}
    } else {
        lemma_items_str_chars(items);
        lemma_trim_of_padded_quoted(Seq::<char>::empty(), items_str(items));
        assert(Seq::<char>::empty() + items_str(items) =~= items_str(items));
        assert(spec_trim(inner0) == items_str(items));
        lemma_parse_items_round_trip(Seq::<char>::empty(), items);
        assert forall|k: int| 0 <= k < v.len() implies #[trigger] v[k] != '\n' by {
            if 1 <= k < v.len() - 1 {
                assert(v[k] == items_str(items)[k - 1]);
            }
        }
    }
}

/// Folding a newline-terminated first line takes one [`step_line`] and
/// continues with the rest.
proof fn lemma_fold_step(st: FoldState, line: Seq<char>, rest: Seq<char>)
    requires
        forall|k: int| 0 <= k < line.len() ==> #[trigger] line[k] != '\n',
    ensures
        fold_config(st, line + seq!['\n'] + rest) == match step_line(st, line) {
            None => None::<FoldState>,
            Some(st2) => fold_config(st2, rest),
        },
{
    let s = line + seq!['\n'] + rest;
    assert forall|k: int| 0 <= k < line.len() implies #[trigger] s[k] != '\n' by {
        assert(s[k] == line[k]);
    }
    assert(s[line.len() as int] == '\n');
    text::lemma_find_unique(s, '\n', line.len() as int);
    assert(s.subrange(0, line.len() as int) =~= line);
    assert(s.subrange(line.len() as int + 1, s.len() as int) =~= rest);
}

/// Folding a single line without newline is one [`step_line`].
proof fn lemma_fold_one(st: FoldState, line: Seq<char>)
    requires
        forall|k: int| 0 <= k < line.len() ==> #[trigger] line[k] != '\n',
    ensures
        fold_config(st, line) == step_line(st, line),
{
    text::lemma_find_unique(line, '\n', line.len() as int);
}

/// A header or key line of the rendered configuration trims to itself.
proof fn lemma_trim_identity(t: Seq<char>)
    requires
        t.len() > 0,
        !is_space(t[0]),
        !is_space(t.last()),
    ensures
        spec_trim(t) == t,
{
    text::lemma_trim_front_prefix(t, 0);
    assert(t.subrange(0, t.len() as int) =~= t);
    text::lemma_trim_back_suffix(t, t.len() as int);
}

/// What [`step_line`] does to the `[version]` header line.
proof fn lemma_step_header_version(st: FoldState)
    ensures
        step_line(st, "[version]"@) == Some(
            FoldState { sect: Section::Version, seen_version: true, ..st },
        ),
{
    reveal_strlit("[version]");
    lemma_trim_identity("[version]"@);
}

/// What [`step_line`] does to the `[version.extended]` header line.
proof fn lemma_step_header_extended(st: FoldState)
    ensures
        step_line(st, "[version.extended]"@) == Some(
            FoldState { sect: Section::Extended, seen_version: true, seen_extended: true, ..st },
        ),
{
    reveal_strlit("[version.extended]");
    reveal_strlit("[version]");
    lemma_trim_identity("[version.extended]"@);
    assert("[version.extended]"@ != "[version]"@) by {
        assert("[version.extended]"@.len() == 18 && "[version]"@.len() == 9);
    }
}

/// A blank line changes nothing.
proof fn lemma_step_blank(st: FoldState)
    ensures
        step_line(st, Seq::<char>::empty()) == Some(st),
{
    assert(spec_trim(Seq::<char>::empty()) =~= Seq::<char>::empty());
}

/// What [`step_line`] does to a rendered `link` or `raw` entry line: in the
/// right section it sets the corresponding list to the rendered items.
proof fn lemma_step_entry(st: FoldState, key: Seq<char>, items: Seq<Seq<char>>)
    requires
        forall|i: int| 0 <= i < items.len() ==> config_text_ok(#[trigger] items[i]),
        key == "link = "@ || key == "raw = "@,
        key == "link = "@ ==> st.sect == Section::Version,
        key == "raw = "@ ==> st.sect == Section::Extended,
    ensures
        key == "link = "@ ==> step_line(st, key + array_str(items)) == Some(
            FoldState { link: Some(items), ..st },
        ),
        key == "raw = "@ ==> step_line(st, key + array_str(items)) == Some(
            FoldState { raw: Some(items), ..st },
        ),
{
    reveal_strlit("link = ");
    reveal_strlit("raw = ");
    reveal_strlit("link");
    reveal_strlit("raw");
    reveal_strlit("[version]");
    reveal_strlit("[version.extended]");
    lemma_array_round_trip(items);
    let a = array_str(items);
    let t = key + a;
    // `eq` indexes the `=` of `key`; the bare key name ends one place before.
    let eq: int = key.len() - 2;
    assert(a[0] == '[' && a.last() == ']');
    assert(t[0] == key[0] && t.last() == a.last());
    lemma_trim_identity(t);
    assert(t != "[version]"@ && t != "[version.extended]"@) by {
        assert(t[0] != '[');
    }
    // The first `=` closes the key.
    assert forall|k: int| 0 <= k < eq implies #[trigger] t[k] != '=' by {
        assert(t[k] == key[k]);
    }
    assert(t[eq] == key[eq] && key[eq] == '=');
    text::lemma_find_unique(t, '=', eq);
    // The key segment trims to the bare key name.
    let kseg = t.subrange(0, eq);
    assert(forall|k: int| 0 <= k < kseg.len() ==> kseg[k] == key[k]);
    text::lemma_trim_front_prefix(kseg, 0);
    assert(kseg.subrange(0, kseg.len() as int) =~= kseg);
    text::lemma_trim_back_suffix(kseg, eq - 1);
    assert(key == "link = "@ ==> kseg.subrange(0, eq - 1) =~= "link"@);
    assert(key == "raw = "@ ==> kseg.subrange(0, eq - 1) =~= "raw"@);
    assert("link"@ != "raw"@) by {
        assert("link"@.len() == 4 && "raw"@.len() == 3);
    }
    // The value segment trims to the rendered array.
    let vseg = t.subrange(eq + 1, t.len() as int);
    assert(vseg[0] == key[eq + 1] && key[eq + 1] == ' ');
    assert(forall|k: int| 1 <= k < vseg.len() ==> vseg[k] == a[k - 1]);
    text::lemma_trim_front_prefix(vseg, 1);
    assert(vseg.subrange(1, vseg.len() as int) =~= a);
    text::lemma_trim_back_suffix(a, a.len() as int);
}

/// Law: rendering a configuration whose entries are representable and
/// folding the rendering back yields exactly the same lists, both tables
/// seen.
pub proof fn lemma_config_round_trip(link: Seq<Seq<char>>, raw: Seq<Seq<char>>)
    requires
        forall|i: int| 0 <= i < link.len() ==> config_text_ok(#[trigger] link[i]),
        forall|i: int| 0 <= i < raw.len() ==> config_text_ok(#[trigger] raw[i]),
    ensures
        fold_config(init_state(), spec_config_str(link, raw)) == Some(
            FoldState {
                sect: Section::Extended,
                seen_version: true,
                seen_extended: true,
                link: Some(link),
                raw: Some(raw),
            },
        ),
{
    reveal_strlit("[version]\nlink = ");
    reveal_strlit("\n\n[version.extended]\nraw = ");
    reveal_strlit("\n");
    reveal_strlit("[version]");
    reveal_strlit("link = ");
    reveal_strlit("[version.extended]");
    reveal_strlit("raw = ");
    lemma_array_round_trip(link);
    lemma_array_round_trip(raw);
    let a1 = array_str(link);
    let a2 = array_str(raw);
    let s = spec_config_str(link, raw);
    let l1 = "[version]"@;
    let l2 = "link = "@ + a1;
    let l4 = "[version.extended]"@;
    let l5 = "raw = "@ + a2;
    let rest4 = l5 + seq!['\n'] + Seq::<char>::empty();
    let rest3 = l4 + seq!['\n'] + rest4;
    let rest2 = Seq::<char>::empty() + seq!['\n'] + rest3;
    let rest1 = l2 + seq!['\n'] + rest2;
    assert(s =~= l1 + seq!['\n'] + rest1);

    let st0 = init_state();
    lemma_step_header_version(st0);
    let st1 = FoldState { sect: Section::Version, seen_version: true, ..st0 };
    assert(forall|k: int| 0 <= k < l1.len() ==> #[trigger] l1[k] != '\n');
    lemma_fold_step(st0, l1, rest1);

    lemma_step_entry(st1, "link = "@, link);
    let st2 = FoldState { link: Some(link), ..st1 };
    assert(forall|k: int| 0 <= k < l2.len() ==> #[trigger] l2[k] != '\n') by {
        assert(forall|k: int| 7 <= k < l2.len() ==> l2[k] == a1[k - 7]);
    }
    lemma_fold_step(st1, l2, rest2);

    lemma_step_blank(st2);
    lemma_fold_step(st2, Seq::<char>::empty(), rest3);

    lemma_step_header_extended(st2);
    let st4 = FoldState {
        sect: Section::Extended,
        seen_version: true,
        seen_extended: true,
        ..st2
    };
    assert(forall|k: int| 0 <= k < l4.len() ==> #[trigger] l4[k] != '\n');
    lemma_fold_step(st2, l4, rest4);

    lemma_step_entry(st4, "raw = "@, raw);
    let st5 = FoldState { raw: Some(raw), ..st4 };
    assert(forall|k: int| 0 <= k < l5.len() ==> #[trigger] l5[k] != '\n') by {
        assert(forall|k: int| 6 <= k < l5.len() ==> l5[k] == a2[k - 6]);
    }
    lemma_fold_step(st4, l5, Seq::<char>::empty());

    lemma_step_blank(st5);
    lemma_fold_one(st5, Seq::<char>::empty());
    assert(st5 == FoldState {
        sect: Section::Extended,
        seen_version: true,
        seen_extended: true,
        link: Some(link),
        raw: Some(raw),
    });
}

} // verus!
