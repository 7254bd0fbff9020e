//! Configuration text: the line-oriented `[Section]` / `key = value`
//! format with `#`-comments.
//!
//! Each line is classified on its own: blank lines and comment lines
//! are skipped, a `[...]` line selects a section, and a single
//! `key = value` pair assigns within the current section.  Anything
//! malformed is reported by its classification and skipped, never
//! fatal.  The only non-numeric setting, the font family name, is
//! extracted here; the numeric tunables keep their raw value text, to
//! be converted by the rendering layer that owns those quantities.

use vstd::prelude::*;

use crate::buffer::split_text;

verus! {

/// General settings: the font family name.
#[derive(Clone, Debug)]
pub struct GeneralConfig {
    pub font: String,
}

/// The sections a configuration line can select.
#[derive(Clone, Copy, PartialEq, Eq, Structural, Debug)]
pub enum Section {
    General,
    Camera,
    Cursor,
    Unselected,
}

/// The classification of one configuration line.
pub enum ConfigLine {
    /// Nothing but whitespace.
    Blank,
    /// The first non-whitespace character is `#`.
    Comment,
    /// A recognized `[...]` section heading.
    Header(Section),
    /// A `[...]` heading that names no known section.
    UnknownHeader,
    /// A single `key = value` pair, both parts trimmed.
    Pair(String, String),
    /// Anything else (no `=`, or more than one).
    Malformed,
}

/// The whitespace the configuration format ignores around tokens.
pub open spec fn is_cfg_space(c: char) -> bool {
    c == ' ' || c == '\t' || c == '\r' || c == '\n'
}

/// The number of leading whitespace characters of `s`.
pub open spec fn leading_spaces(s: Seq<char>) -> int
    decreases s.len(),
{
    if s.len() == 0 {
        0
    } else if is_cfg_space(s[0]) {
        1 + leading_spaces(s.subrange(1, s.len() as int))
    } else {
        0
    }
}

/// The number of trailing whitespace characters of `s`.
pub open spec fn trailing_spaces(s: Seq<char>) -> int
    decreases s.len(),
{
    if s.len() == 0 {
        0
    } else if is_cfg_space(s[s.len() - 1]) {
        1 + trailing_spaces(s.subrange(0, s.len() as int - 1))
    } else {
        0
    }
}

/// `s` with surrounding whitespace removed; all whitespace when the
/// trimmed ranges overlap (then `s` is all whitespace and trims to
/// nothing).
pub open spec fn trim_spec(s: Seq<char>) -> Seq<char> {
    let from = leading_spaces(s);
    let to = s.len() - trailing_spaces(s);
    if from <= to {
        s.subrange(from, to)
    } else {
        Seq::empty()
    }
}

/// [`leading_spaces`] is in bounds, counts whitespace only, and stops
/// at the first non-whitespace character.
pub proof fn lemma_leading_spaces(s: Seq<char>)
    ensures
        0 <= leading_spaces(s) <= s.len(),
        forall|i: int| 0 <= i < leading_spaces(s) ==> is_cfg_space(#[trigger] s[i]),
        leading_spaces(s) < s.len() ==> !is_cfg_space(s[leading_spaces(s)]),
    decreases s.len(),
{
    if s.len() > 0 && is_cfg_space(s[0]) {
        let rest = s.subrange(1, s.len() as int);
        lemma_leading_spaces(rest);
        assert forall|i: int| 0 <= i < leading_spaces(s) implies is_cfg_space(#[trigger] s[i]) by {
            if i > 0 {
                assert(rest[i - 1] == s[i]);
            }
        };
        if leading_spaces(s) < s.len() {
            assert(s[leading_spaces(s)] == rest[leading_spaces(rest)]);
        }
    }
}

/// [`trailing_spaces`] is in bounds, counts whitespace only, and stops
/// at the last non-whitespace character.
pub proof fn lemma_trailing_spaces(s: Seq<char>)
    ensures
        0 <= trailing_spaces(s) <= s.len(),
        forall|i: int| s.len() - trailing_spaces(s) <= i < s.len() ==> is_cfg_space(
            #[trigger] s[i],
        ),
        trailing_spaces(s) < s.len() ==> !is_cfg_space(s[s.len() - trailing_spaces(s) - 1]),
    decreases s.len(),
{
    if s.len() > 0 && is_cfg_space(s[s.len() - 1]) {
        let rest = s.subrange(0, s.len() as int - 1);
        lemma_trailing_spaces(rest);
        assert forall|i: int| s.len() - trailing_spaces(s) <= i < s.len() implies is_cfg_space(
            #[trigger] s[i],
        ) by {
            if i < s.len() - 1 {
                assert(rest[i] == s[i]);
            }
        };
        if trailing_spaces(s) < s.len() {
            assert(s[s.len() - trailing_spaces(s) - 1] == rest[rest.len() - trailing_spaces(rest)
                - 1]);
        }
    }
}

/// Whether the configuration format ignores this character around
/// tokens.
fn cfg_space(c: char) -> (r: bool)
    ensures
        r == is_cfg_space(c),
{
    c == ' ' || c == '\t' || c == '\r' || c == '\n'
}

/// Trims the surrounding whitespace off `s`.
pub fn trim(s: &str) -> (r: String)
    ensures
        r@ == trim_spec(s@),
{
    let n = s.unicode_len();
    let mut from: usize = 0;
    while from < n && cfg_space(s.get_char(from))
        invariant
            n == s@.len(),
            from <= n,
            forall|i: int| 0 <= i < from ==> is_cfg_space(#[trigger] s@[i]),
        decreases n - from,
    {
        from = from + 1;
    }
    let mut to: usize = n;
    while to > from && cfg_space(s.get_char(to - 1))
        invariant
            n == s@.len(),
            from <= to <= n,
            forall|i: int| 0 <= i < from ==> is_cfg_space(#[trigger] s@[i]),
            forall|i: int| to <= i < n ==> is_cfg_space(#[trigger] s@[i]),
        decreases to,
    {
        to = to - 1;
    }
    let r = String::from_str(s.substring_char(from, to));
    proof {
        lemma_leading_spaces(s@);
        lemma_trailing_spaces(s@);
        let ls = leading_spaces(s@);
        let ts = trailing_spaces(s@);
        if from < to {
            assert(ls == from) by {
                if ls < from {
                    assert(!is_cfg_space(s@[ls]));
                    assert(is_cfg_space(s@[ls]));
                }
                if ls > from {
                    assert(is_cfg_space(s@[from as int]));
                }
            };
            assert(ts == n - to) by {
                if ts < n - to {
                    assert(!is_cfg_space(s@[n - ts - 1]));
                    assert(is_cfg_space(s@[n - ts - 1]));
                }
                if ts > n - to {
                    assert(is_cfg_space(s@[to - 1]));
                }
            };
            assert(r@ =~= trim_spec(s@));
        } else {
            assert(forall|i: int| 0 <= i < n ==> is_cfg_space(#[trigger] s@[i]));
            assert(ls == n) by {
                if ls < n {
                    assert(!is_cfg_space(s@[ls]));
                }
            };
            assert(ts == n) by {
                if ts < n {
                    assert(!is_cfg_space(s@[n - ts - 1]));
                }
            };
            assert(r@ =~= trim_spec(s@));
        }
    }
    r
}

/// The index of the first occurrence of `c` in `s`, or `s.len()`.
pub open spec fn first_index_of(s: Seq<char>, c: char) -> int
    decreases s.len(),
{
    if s.len() == 0 {
        0
    } else if s[0] == c {
        0
    } else {
        1 + first_index_of(s.subrange(1, s.len() as int), c)
    }
}

/// [`first_index_of`] is in bounds, points at `c` when `c` occurs, and
/// nothing before it is `c`.
pub proof fn lemma_first_index_of(s: Seq<char>, c: char)
    ensures
        0 <= first_index_of(s, c) <= s.len(),
        first_index_of(s, c) < s.len() ==> s[first_index_of(s, c)] == c,
        forall|i: int| 0 <= i < first_index_of(s, c) ==> s[i] != c,
    decreases s.len(),
{
    if s.len() > 0 && s[0] != c {
        let rest = s.subrange(1, s.len() as int);
        lemma_first_index_of(rest, c);
        if first_index_of(s, c) < s.len() {
            assert(s[first_index_of(s, c)] == rest[first_index_of(rest, c)]);
        }
        assert forall|i: int| 0 <= i < first_index_of(s, c) implies s[i] != c by {
            if i > 0 {
                assert(rest[i - 1] == s[i]);
            }
        };
    }
}

/// Finds the first occurrence of `c` in `s`, or `s`'s length.
fn find_char(s: &str, c: char) -> (r: usize)
    ensures
        r == first_index_of(s@, c),
{
    let n = s.unicode_len();
    let mut j: usize = 0;
    while j < n && s.get_char(j) != c
        invariant
            n == s@.len(),
            j <= n,
            forall|i: int| 0 <= i < j ==> s@[i] != c,
        decreases n - j,
    {
        j = j + 1;
    }
    proof {
        lemma_first_index_of(s@, c);
        if j < n {
            assert(s@[j as int] == c);
            if first_index_of(s@, c) < j {
                assert(s@[first_index_of(s@, c)] != c);
            }
        } else {
            if first_index_of(s@, c) < n {
                assert(s@[first_index_of(s@, c)] != c);
            }
        }
    }
    j
}

/// Whether two strings hold the same characters.
fn str_eq(a: &str, b: &str) -> (r: bool)
    ensures
        r == (a@ == b@),
{
    let na = a.unicode_len();
    let nb = b.unicode_len();
    if na != nb {
        proof {
            assert(a@ != b@);
        }
        return false;
    }
    let mut j: usize = 0;
    while j < na
        invariant
            na == a@.len(),
            na == b@.len(),
            j <= na,
            forall|i: int| 0 <= i < j ==> a@[i] == b@[i],
        decreases na - j,
    {
        if a.get_char(j) != b.get_char(j) {
            return false;
        }
        j = j + 1;
    }
    proof {
        assert(a@ =~= b@);
    }
    true
}

/// What trims to the heading of each recognized section.
pub open spec fn header_section(t: Seq<char>) -> Section {
    if t == "[General]"@ {
        Section::General
    } else if t == "[Camera]"@ {
        Section::Camera
    } else if t == "[Cursor]"@ {
        Section::Cursor
    } else {
        Section::Unselected
    }
}

/// The classification of one line, over its character sequence: blank
/// and comment lines first; otherwise the text up to any inline `#`
/// comment, trimmed again, is either a `[...]` heading or must be a
/// single `key = value` pair.
pub open spec fn classify_spec(line: Seq<char>) -> ConfigLineKind {
    let t = trim_spec(line);
    if t.len() == 0 {
        ConfigLineKind::Blank
    } else if t[0] == '#' {
        ConfigLineKind::Comment
    } else {
        let content = trim_spec(t.subrange(0, first_index_of(t, '#')));
        if content.len() > 0 && content[0] == '[' && content[content.len() - 1] == ']' {
            if header_section(content) is Unselected {
                ConfigLineKind::UnknownHeader
            } else {
                ConfigLineKind::Header(header_section(content))
            }
        } else {
            let eq = first_index_of(content, '=');
            if eq == content.len() {
                ConfigLineKind::Malformed
            } else if first_index_of(
                content.subrange(eq + 1, content.len() as int),
                '=',
            ) != content.len() - eq - 1 {
                ConfigLineKind::Malformed
            } else {
                ConfigLineKind::Pair(
                    trim_spec(content.subrange(0, eq)),
                    trim_spec(content.subrange(eq + 1, content.len() as int)),
                )
            }
        }
    }
}

/// The mathematical form of a classified line.
pub enum ConfigLineKind {
    Blank,
    Comment,
    Header(Section),
    UnknownHeader,
    Pair(Seq<char>, Seq<char>),
    Malformed,
}

/// Classifies one configuration line.
pub fn classify_line(line: &str) -> (r: ConfigLine)
    ensures
        ({
            let k = classify_spec(line@);
            match r {
                ConfigLine::Blank => k is Blank,
                ConfigLine::Comment => k is Comment,
                ConfigLine::Header(sec) => (k matches ConfigLineKind::Header(s) && s == sec),
                ConfigLine::UnknownHeader => k is UnknownHeader,
                ConfigLine::Pair(key, value) => (k matches ConfigLineKind::Pair(ks, vs) && key@
                    == ks && value@ == vs),
                ConfigLine::Malformed => k is Malformed,
            }
        }),
{
    let t = trim(line);
    let tn = t.as_str().unicode_len();
    if tn == 0 {
        return ConfigLine::Blank;
    }
    if t.as_str().get_char(0) == '#' {
        return ConfigLine::Comment;
    }
    let hash = find_char(t.as_str(), '#');
    proof {
        lemma_first_index_of(t@, '#');
    }
    let content = trim(t.as_str().substring_char(0, hash));
    let cn = content.as_str().unicode_len();
    if cn > 0 && content.as_str().get_char(0) == '[' && content.as_str().get_char(cn - 1) == ']' {
        proof {
            reveal_strlit("[General]");
            reveal_strlit("[Camera]");
            reveal_strlit("[Cursor]");
        }
        if str_eq(content.as_str(), "[General]") {
            ConfigLine::Header(Section::General)
        } else if str_eq(content.as_str(), "[Camera]") {
            ConfigLine::Header(Section::Camera)
        } else if str_eq(content.as_str(), "[Cursor]") {
            ConfigLine::Header(Section::Cursor)
        } else {
            ConfigLine::UnknownHeader
        }
    } else {
        let eq = find_char(content.as_str(), '=');
        proof {
            lemma_first_index_of(content@, '=');
        }
        if eq == cn {
            return ConfigLine::Malformed;
        }
        let value_part = content.as_str().substring_char(eq + 1, cn);
        let second = find_char(value_part, '=');
        if second != cn - eq - 1 {
            return ConfigLine::Malformed;
        }
        let key = trim(content.as_str().substring_char(0, eq));
        let value = trim(value_part);
        ConfigLine::Pair(key, value)
    }
}

/// The settings a configuration text yields: the font family name
/// (with the empty default), and the raw value text of each numeric
/// tunable that was set.  The numeric values stay text here; the
/// rendering layer that owns those quantities converts them, falling
/// back to its defaults when a value does not parse.
pub struct ParsedConfig {
    pub general: GeneralConfig,
    pub camera_follow_strength: Option<String>,
    pub camera_lookat_strength: Option<String>,
    pub cursor_trail_length: Option<String>,
    pub cursor_lerp_factor: Option<String>,
}

/// The mathematical form of [`ParsedConfig`].
pub struct ParsedConfigView {
    pub font: Seq<char>,
    pub camera_follow_strength: Option<Seq<char>>,
    pub camera_lookat_strength: Option<Seq<char>>,
    pub cursor_trail_length: Option<Seq<char>>,
    pub cursor_lerp_factor: Option<Seq<char>>,
}

impl View for ParsedConfig {
    type V = ParsedConfigView;

    open spec fn view(&self) -> ParsedConfigView {
        ParsedConfigView {
            font: self.general.font@,
            camera_follow_strength: match self.camera_follow_strength {
                Some(ref s) => Some(s@),
                None => None,
            },
            camera_lookat_strength: match self.camera_lookat_strength {
                Some(ref s) => Some(s@),
                None => None,
            },
            cursor_trail_length: match self.cursor_trail_length {
                Some(ref s) => Some(s@),
                None => None,
            },
            cursor_lerp_factor: match self.cursor_lerp_factor {
                Some(ref s) => Some(s@),
                None => None,
            },
        }
    }
}

/// The initial parse state: no section selected, all defaults.
pub open spec fn parse_init() -> (Section, ParsedConfigView) {
    (
        Section::Unselected,
        ParsedConfigView {
            font: Seq::empty(),
            camera_follow_strength: None,
            camera_lookat_strength: None,
            cursor_trail_length: None,
            cursor_lerp_factor: None,
        },
    )
}

/// One parse step: a heading selects its section, a recognized key in
/// the selected section takes the value, and everything else (blank,
/// comment, unknown or malformed) changes nothing.
pub open spec fn parse_step(state: (Section, ParsedConfigView), line: Seq<char>) -> (
    Section,
    ParsedConfigView,
) {
    let (section, cfg) = state;
    match classify_spec(line) {
        ConfigLineKind::Header(sec) => (sec, cfg),
        ConfigLineKind::Pair(key, value) => {
            let cfg2 = if section is General && key == "font"@ {
                ParsedConfigView { font: value, ..cfg }
            } else if section is Camera && key == "follow_strength"@ {
                ParsedConfigView { camera_follow_strength: Some(value), ..cfg }
            } else if section is Camera && key == "lookat_strength"@ {
                ParsedConfigView { camera_lookat_strength: Some(value), ..cfg }
            } else if section is Cursor && key == "trail_length"@ {
                ParsedConfigView { cursor_trail_length: Some(value), ..cfg }
            } else if section is Cursor && key == "lerp_factor"@ {
                ParsedConfigView { cursor_lerp_factor: Some(value), ..cfg }
            } else {
                cfg
            };
            (section, cfg2)
        },
        _ => (section, cfg),
    }
}

/// The parse state after the first `n` lines.
pub open spec fn parse_prefix(lines: Seq<Seq<char>>, n: int) -> (Section, ParsedConfigView)
    decreases n,
{
    if n <= 0 {
        parse_init()
    } else {
        parse_step(parse_prefix(lines, n - 1), lines[n - 1])
    }
}

/// The settings a whole configuration text yields, line by line.
pub open spec fn parse_spec(contents: Seq<char>) -> ParsedConfigView {
    let lines = split_text(contents);
    parse_prefix(lines, lines.len() as int).1
}

/// Parses a configuration text: lines are classified one by one,
/// section headings select, recognized `key = value` pairs assign, and
/// every malformed or unknown line is skipped.
pub fn parse(contents: &str) -> (r: ParsedConfig)
    ensures
        r@ == parse_spec(contents@),
{
    let lines = crate::buffer::split_lines(contents);
    let ghost glines = split_text(contents@);
    let n = lines.len();
    let mut section = Section::Unselected;
    let mut cfg = ParsedConfig {
        general: GeneralConfig { font: String::new() },
        camera_follow_strength: None,
        camera_lookat_strength: None,
        cursor_trail_length: None,
        cursor_lerp_factor: None,
    };
    let mut i: usize = 0;
    while i < n
        invariant
            n == lines@.len(),
            crate::buffer::strings_views(lines@) == glines,
            glines == split_text(contents@),
            i <= n,
            (section, cfg@) == parse_prefix(glines, i as int),
        decreases n - i,
    {
        proof {
            crate::buffer::lemma_strings_views(lines@);
        }
        let classified = classify_line(lines[i].as_str());
        match classified {
            ConfigLine::Header(sec) => {
                section = sec;
            },
            ConfigLine::Pair(key, value) => {
                if section == Section::General && str_eq(key.as_str(), "font") {
                    cfg.general.font = value;
                } else if section == Section::Camera && str_eq(key.as_str(), "follow_strength") {
                    cfg.camera_follow_strength = Some(value);
                } else if section == Section::Camera && str_eq(key.as_str(), "lookat_strength") {
                    cfg.camera_lookat_strength = Some(value);
                } else if section == Section::Cursor && str_eq(key.as_str(), "trail_length") {
                    cfg.cursor_trail_length = Some(value);
                } else if section == Section::Cursor && str_eq(key.as_str(), "lerp_factor") {
                    cfg.cursor_lerp_factor = Some(value);
                }
            },
            _ => {},
        }
        i = i + 1;
    }
    cfg
}

} // verus!
