//! The project configuration: a text of `## Section` headings and
//! `- key: value` entries, read line by line into one map for each of the
//! five sections that are known.
//!
//! White space around a line, a section name, a key and a value is dropped.
//! An entry is cut at its first `:`. Lines of any other shape, entries
//! without a `:`, and entries under an unknown heading are passed over.

use crate::settings::Settings;
use crate::text::{chars_of, string_from};
use vstd::prelude::*;
use vstd::string::StringExecFns;

verus! {

/// Whether `c` has the Unicode property `White_Space`.
pub uninterp spec fn is_whitespace(c: char) -> bool;

/// `char::is_whitespace` tells whether the character has the Unicode
/// property `White_Space`; its answer depends on the character alone.
pub assume_specification[ char::is_whitespace ](c: char) -> (b: bool)
    ensures
        b == is_whitespace(c),
;

/// The first index at or after `pos` whose character is no white space, or
/// the length of `s` if there is none.
pub open spec fn skip_space(s: Seq<char>, pos: int) -> int
    decreases s.len() - pos,
{
    if 0 <= pos < s.len() && is_whitespace(s[pos]) {
        skip_space(s, pos + 1)
    } else {
        pos
    }
}

/// The end of `s` once the white space before index `end` is dropped: the
/// largest index up to `end` that is 0 or stands behind a character that is
/// no white space.
pub open spec fn drop_space(s: Seq<char>, end: int) -> int
    decreases end,
{
    if 0 < end <= s.len() && is_whitespace(s[end - 1]) {
        drop_space(s, end - 1)
    } else {
        end
    }
}

/// `s` without the white space at its two ends.
pub open spec fn trimmed(s: Seq<char>) -> Seq<char> {
    let from = skip_space(s, 0);
    let to = drop_space(s, s.len() as int);
    if from < to {
        s.subrange(from, to)
    } else {
        Seq::empty()
    }
}

/// The first index at or after `pos` that holds a `:`, or the length of `s`
/// if there is none.
pub open spec fn first_colon(s: Seq<char>, pos: int) -> int
    decreases s.len() - pos,
{
    if 0 <= pos < s.len() && s[pos] != ':' {
        first_colon(s, pos + 1)
    } else {
        pos
    }
}

/// What one line of the text says.
pub enum Line {
    /// A heading: what follows belongs to the section of this name.
    Section(String),
    /// An entry: a key and its value.
    Entry(String, String),
    /// Anything else.
    Other,
}

/// The mathematical value of a [`Line`].
pub enum LineView {
    Section(Seq<char>),
    Entry(Seq<char>, Seq<char>),
    Other,
}

impl View for Line {
    type V = LineView;

    open spec fn view(&self) -> LineView {
        match self {
            Line::Section(name) => LineView::Section(name@),
            Line::Entry(key, value) => LineView::Entry(key@, value@),
            Line::Other => LineView::Other,
        }
    }
}

/// What the line `line` says. A line that begins with `##` is a heading, and
/// the rest of it is the name. A line that begins with `-` and holds a `:`
/// behind it is an entry: the key stands before the first `:` and the value
/// behind it.
pub open spec fn classify(line: Seq<char>) -> LineView {
    let text = trimmed(line);
    if text.len() >= 2 && text[0] == '#' && text[1] == '#' {
        LineView::Section(trimmed(text.skip(2)))
    } else if text.len() >= 1 && text[0] == '-' {
        let rest = text.skip(1);
        let colon = first_colon(rest, 0);
        if colon < rest.len() {
            LineView::Entry(trimmed(rest.take(colon)), trimmed(rest.skip(colon + 1)))
        } else {
            LineView::Other
        }
    } else {
        LineView::Other
    }
}

/// A copy of the characters of `chars` from `from` up to `to`.
fn copy_range(chars: &Vec<char>, from: usize, to: usize) -> (copy: Vec<char>)
    requires
        from <= to <= chars.len(),
    ensures
        copy@ == chars@.subrange(from as int, to as int),
{
    let mut copy: Vec<char> = Vec::new();
    let mut i: usize = from;
    while i < to
        invariant
            from <= i <= to <= chars.len(),
            copy@ == chars@.subrange(from as int, i as int),
        decreases to - i,
    {
        copy.push(chars[i]);
        i += 1;
        assert(chars@.subrange(from as int, i as int) == chars@.subrange(
            from as int,
            i - 1,
        ).push(chars@[i - 1]));
    }
    copy
}

/// `chars` without the white space at its two ends.
pub fn trim(chars: &Vec<char>) -> (text: Vec<char>)
    ensures
        text@ == trimmed(chars@),
{
    let mut from: usize = 0;
    while from < chars.len() && chars[from].is_whitespace()
        invariant
            from <= chars.len(),
            skip_space(chars@, 0) == skip_space(chars@, from as int),
        decreases chars.len() - from,
    {
        from += 1;
    }
    let mut to: usize = chars.len();
    while to > 0 && chars[to - 1].is_whitespace()
        invariant
            to <= chars.len(),
            drop_space(chars@, chars@.len() as int) == drop_space(chars@, to as int),
        decreases to,
    {
        to -= 1;
    }
    if from < to {
        copy_range(chars, from, to)
    } else {
        Vec::new()
    }
}

/// The index of the first `:` in `chars`, or its length if it holds none.
fn find_colon(chars: &Vec<char>) -> (colon: usize)
    ensures
        colon == first_colon(chars@, 0),
        colon <= chars.len(),
{
    let mut colon: usize = 0;
    while colon < chars.len() && chars[colon] != ':'
        invariant
            colon <= chars.len(),
            first_colon(chars@, 0) == first_colon(chars@, colon as int),
        decreases chars.len() - colon,
    {
        colon += 1;
    }
    colon
}

/// The characters of `chars` as a string.
fn text_of(chars: &Vec<char>) -> (text: String)
    ensures
        text@ == chars@,
{
    let text = string_from(chars, 0, chars.len());
    assert(chars@.subrange(0, chars@.len() as int) =~= chars@);
    text
}

/// What the line `line` says.
pub fn classify_line(line: &str) -> (found: Line)
    ensures
        found@ == classify(line@),
{
    let text = trim(&chars_of(line));
    if text.len() >= 2 && text[0] == '#' && text[1] == '#' {
        let name = trim(&copy_range(&text, 2, text.len()));
        Line::Section(text_of(&name))
    } else if text.len() >= 1 && text[0] == '-' {
        let rest = copy_range(&text, 1, text.len());
        let colon = find_colon(&rest);
        if colon < rest.len() {
            let key = trim(&copy_range(&rest, 0, colon));
            let value = trim(&copy_range(&rest, colon + 1, rest.len()));
            Line::Entry(text_of(&key), text_of(&value))
        } else {
            Line::Other
        }
    } else {
        Line::Other
    }
}

/// The five sections that the configuration knows.
#[derive(Clone, Copy, Debug, PartialEq, Eq, Structural)]
pub enum Section {
    ProjectInfo,
    Dependencies,
    BuildSettings,
    RuntimeSettings,
    CustomSettings,
}

/// The section that a heading names, if it names one: the name is held
/// against the five known names letter for letter.
pub open spec fn section_named(name: Seq<char>) -> Option<Section> {
    if name == "Project Info"@ {
        Some(Section::ProjectInfo)
    } else if name == "Dependencies"@ {
        Some(Section::Dependencies)
    } else if name == "Build Settings"@ {
        Some(Section::BuildSettings)
    } else if name == "Runtime Settings"@ {
        Some(Section::RuntimeSettings)
    } else if name == "Custom Settings"@ {
        Some(Section::CustomSettings)
    } else {
        None
    }
}

/// The section that the heading `name` names, if it names one.
pub fn find_section(name: &String) -> (section: Option<Section>)
    ensures
        section == section_named(name@),
{
    if *name == String::from_str("Project Info") {
        Some(Section::ProjectInfo)
    } else if *name == String::from_str("Dependencies") {
        Some(Section::Dependencies)
    } else if *name == String::from_str("Build Settings") {
        Some(Section::BuildSettings)
    } else if *name == String::from_str("Runtime Settings") {
        Some(Section::RuntimeSettings)
    } else if *name == String::from_str("Custom Settings") {
        Some(Section::CustomSettings)
    } else {
        None
    }
}

/// The configuration of a project: one map for each section.
pub struct ProjectConfig {
    pub project_info: Settings,
    pub dependencies: Settings,
    pub build_settings: Settings,
    pub runtime_settings: Settings,
    pub custom_settings: Settings,
}

/// The mathematical value of a [`ProjectConfig`].
pub struct ProjectConfigView {
    pub project_info: Map<Seq<char>, Seq<char>>,
    pub dependencies: Map<Seq<char>, Seq<char>>,
    pub build_settings: Map<Seq<char>, Seq<char>>,
    pub runtime_settings: Map<Seq<char>, Seq<char>>,
    pub custom_settings: Map<Seq<char>, Seq<char>>,
}

impl ProjectConfigView {
    /// The configuration without any entry.
    pub open spec fn empty() -> ProjectConfigView {
        ProjectConfigView {
            project_info: Map::empty(),
            dependencies: Map::empty(),
            build_settings: Map::empty(),
            runtime_settings: Map::empty(),
            custom_settings: Map::empty(),
        }
    }

    /// This configuration with `key` set to `value` in `section`.
    pub open spec fn with(self, section: Section, key: Seq<char>, value: Seq<char>) -> ProjectConfigView {
        match section {
            Section::ProjectInfo => ProjectConfigView {
                project_info: self.project_info.insert(key, value),
                ..self
            },
            Section::Dependencies => ProjectConfigView {
                dependencies: self.dependencies.insert(key, value),
                ..self
            },
            Section::BuildSettings => ProjectConfigView {
                build_settings: self.build_settings.insert(key, value),
                ..self
            },
            Section::RuntimeSettings => ProjectConfigView {
                runtime_settings: self.runtime_settings.insert(key, value),
                ..self
            },
            Section::CustomSettings => ProjectConfigView {
                custom_settings: self.custom_settings.insert(key, value),
                ..self
            },
        }
    }
}

impl View for ProjectConfig {
    type V = ProjectConfigView;

    open spec fn view(&self) -> ProjectConfigView {
        ProjectConfigView {
            project_info: self.project_info@,
            dependencies: self.dependencies@,
            build_settings: self.build_settings@,
            runtime_settings: self.runtime_settings@,
            custom_settings: self.custom_settings@,
        }
    }
}

impl ProjectConfig {
    /// Each of the five maps keeps its invariant.
    pub open spec fn well_formed(&self) -> bool {
        &&& self.project_info.well_formed()
        &&& self.dependencies.well_formed()
        &&& self.build_settings.well_formed()
        &&& self.runtime_settings.well_formed()
        &&& self.custom_settings.well_formed()
    }

    /// The configuration without any entry.
    pub fn new() -> (config: ProjectConfig)
        ensures
            config.well_formed(),
            config@ == ProjectConfigView::empty(),
    {
        ProjectConfig {
            project_info: Settings::new(),
            dependencies: Settings::new(),
            build_settings: Settings::new(),
            runtime_settings: Settings::new(),
            custom_settings: Settings::new(),
        }
    }

    /// Sets `key` to `value` in `section`.
    pub fn set(&mut self, section: Section, key: String, value: String)
        requires
            old(self).well_formed(),
        ensures
            final(self).well_formed(),
            final(self)@ == old(self)@.with(section, key@, value@),
    {
        match section {
            Section::ProjectInfo => {
                self.project_info.insert(key, value);
            },
            Section::Dependencies => {
                self.dependencies.insert(key, value);
            },
            Section::BuildSettings => {
                self.build_settings.insert(key, value);
            },
            Section::RuntimeSettings => {
                self.runtime_settings.insert(key, value);
            },
            Section::CustomSettings => {
                self.custom_settings.insert(key, value);
            },
        }
    }
}

/// What the reader knows after some lines: the configuration so far, and the
/// section that the last heading named, if it named a known one.
pub struct Reading {
    pub config: ProjectConfigView,
    pub section: Option<Section>,
}

/// What the reader knows after one more line.
pub open spec fn read_line(before: Reading, line: Seq<char>) -> Reading {
    match classify(line) {
        LineView::Section(name) => Reading { section: section_named(name), ..before },
        LineView::Entry(key, value) => match before.section {
            Some(section) => Reading { config: before.config.with(section, key, value), ..before },
            None => before,
        },
        LineView::Other => before,
    }
}

/// What the reader knows after all of `lines`, read in order from an empty
/// configuration and no section.
pub open spec fn read_lines(lines: Seq<Seq<char>>) -> Reading
    decreases lines.len(),
{
    if lines.len() == 0 {
        Reading { config: ProjectConfigView::empty(), section: None }
    } else {
        read_line(read_lines(lines.drop_last()), lines.last())
    }
}

/// The texts of a sequence of lines.
pub open spec fn texts(lines: Seq<String>) -> Seq<Seq<char>> {
    lines.map_values(|line: String| line@)
}

/// Reads the configuration that `lines` hold.
pub fn parse_zom_lines(lines: &Vec<String>) -> (config: ProjectConfig)
    ensures
        config.well_formed(),
        config@ == read_lines(texts(lines@)).config,
{
    let mut config = ProjectConfig::new();
    let mut section: Option<Section> = None;
    let mut i: usize = 0;
    while i < lines.len()
        invariant
            i <= lines.len(),
            config.well_formed(),
            read_lines(texts(lines@).take(i as int)) == (Reading { config: config@, section }),
        decreases lines.len() - i,
    {
        let ghost before = read_lines(texts(lines@).take(i as int));
        match classify_line(lines[i].as_str()) {
            Line::Section(name) => {
                section = find_section(&name);
            },
            Line::Entry(key, value) => {
                match section {
                    Some(known) => {
                        config.set(known, key, value);
                    },
                    None => {},
                }
            },
            Line::Other => {},
        }
        proof {
            let next = texts(lines@).take(i + 1);
            assert(next.drop_last() =~= texts(lines@).take(i as int));
            assert(next.last() == lines@[i as int]@);
        }
        i += 1;
    }
    assert(texts(lines@).take(i as int) =~= texts(lines@));
    config
}

} // verus!
